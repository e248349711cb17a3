//! What the keys do.

use crate::mirror::{all_paths, ScannedFile};
use crate::tui::state::{law_cursor_goes_step_by_step, Panel, TuiModel, TuiState};
use vstd::prelude::*;

verus! {

/// A key that was pressed.
#[derive(Debug, Clone, Copy, PartialEq, Eq, Structural)]
pub enum Key {
    Char(char),
    Esc,
    Tab,
    Up,
    Down,
    Enter,
    Other,
}

/// What is to be done once a key was pressed.
#[derive(Debug)]
pub enum KeyOutcome {
    /// Nothing more.
    Stay,
    /// The screen is left.
    Quit,
    /// The work is started on these files.
    Start(Vec<ScannedFile>),
}

/// Whether a key leaves the screen.
pub open spec fn quits(key: Key) -> bool {
    key == Key::Char('q') || key == Key::Esc
}

/// Whether a key starts the work.
pub open spec fn starts(m: TuiModel, key: Key) -> bool {
    key == Key::Enter && !m.processing && m.files.len() > 0
}

/// How far a key moves the cursor, if it does.
pub open spec fn moves(key: Key) -> Option<int> {
    if key == Key::Up || key == Key::Char('k') {
        Some(-1)
    } else if key == Key::Down || key == Key::Char('j') {
        Some(1)
    } else {
        None
    }
}

/// The state once a key was pressed.
pub open spec fn keyed(m: TuiModel, key: Key) -> TuiModel {
    if starts(m, key) {
        m.begun()
    } else if moves(key) is Some {
        m.cursor_moved(moves(key)->0)
    } else {
        match key {
            Key::Tab => m.panel_toggled(),
            Key::Char(c) => if c == ' ' {
                m.file_toggled()
            } else if c == 'a' {
                m.all_selected(true)
            } else if c == 'n' {
                m.all_selected(false)
            } else if c == 's' && m.processing {
                TuiModel { cancelled: true, ..m }
            } else {
                m
            },
            _ => m,
        }
    }
}

impl TuiState {
    /// Takes a key in.
    pub fn handle_key(&mut self, key: Key) -> (r: KeyOutcome)
        requires
            moves(key) matches Some(delta) ==> old(self)@.can_move(delta),
        ensures
            final(self)@ == keyed(old(self)@, key),
            old(self)@.wf() ==> final(self)@.wf(),
            match r {
                KeyOutcome::Quit => quits(key),
                KeyOutcome::Start(files) => starts(old(self)@, key) && all_paths(files@) == old(
                    self,
                )@.to_convert(),
                KeyOutcome::Stay => !quits(key) && !starts(old(self)@, key),
            },
    {
        match key {
            Key::Esc => KeyOutcome::Quit,
            Key::Tab => {
                self.toggle_panel();
                KeyOutcome::Stay
            },
            Key::Up => {
                self.move_cursor(-1);
                KeyOutcome::Stay
            },
            Key::Down => {
                self.move_cursor(1);
                KeyOutcome::Stay
            },
            Key::Enter => {
                if !self.processing && self.files.len() > 0 {
                    KeyOutcome::Start(self.start_conversion())
                } else {
                    KeyOutcome::Stay
                }
            },
            Key::Char(c) => {
                if c == 'q' {
                    return KeyOutcome::Quit;
                } else if c == 'k' {
                    self.move_cursor(-1);
                } else if c == 'j' {
                    self.move_cursor(1);
                } else if c == ' ' {
                    self.toggle_selected_file();
                } else if c == 'a' {
                    self.select_all(true);
                } else if c == 'n' {
                    self.select_all(false);
                } else if c == 's' && self.processing {
                    self.stop_conversion();
                }
                KeyOutcome::Stay
            },
            Key::Other => KeyOutcome::Stay,
        }
    }

    /// Starts the work when the screen opens, where files were found before: hands out the
    /// selected files.
    pub fn start_at_once(&mut self) -> (r: Option<Vec<ScannedFile>>)
        ensures
            match r {
                Some(files) => old(self)@.scanned.len() > 0 && all_paths(files@) == old(
                    self,
                )@.to_convert() && final(self)@ == old(self)@.begun(),
                None => old(self)@.scanned.len() == 0 && final(self)@ == old(self)@,
            },
    {
        if self.scanned_files.len() > 0 {
            Some(self.start_conversion())
        } else {
            None
        }
    }
}

/// While the work goes on no key starts it again, and a key stops it.
pub proof fn law_keys_while_working(m: TuiModel, key: Key)
    requires
        m.processing,
    ensures
        !starts(m, key),
        keyed(m, key).cancelled <==> m.cancelled || key == Key::Char('s'),
{
}

/// Each key changes its own part of the state: Tab the panel; the arrows, and `j` and `k`, the
/// cursor; Space, `a` and `n` the marks of the files; `s` the wish to stop, while the work goes
/// on; and Enter what is left of an earlier run, where the work starts. Any other key changes
/// nothing.
pub proof fn law_keys_change_their_own_part(m: TuiModel, key: Key)
    ensures
        ({
            let after = keyed(m, key);
            &&& (after.panel != m.panel) == (key == Key::Tab)
            &&& after.cursor != m.cursor ==> key == Key::Up || key == Key::Down || key == Key::Char(
                'j',
            ) || key == Key::Char('k')
            &&& after.files != m.files ==> key == Key::Char(' ') || key == Key::Char('a') || key
                == Key::Char('n')
            &&& after.finished != m.finished || after.summary != m.summary ==> key == Key::Enter
            &&& after.cancelled && !m.cancelled ==> key == Key::Char('s') && m.processing
            &&& !after.cancelled && m.cancelled ==> key == Key::Enter && !m.processing
            &&& after == (TuiModel {
                panel: after.panel,
                cursor: after.cursor,
                files: after.files,
                finished: after.finished,
                summary: after.summary,
                cancelled: after.cancelled,
                ..m
            })
        }),
{
}

/// The keys do what the screen says they do.
pub proof fn law_keys_do_their_work(m: TuiModel, k: int)
    requires
        m.wf(),
        0 <= k < m.files.len(),
        m.panel == Panel::FileList,
    ensures
        keyed(m, Key::Char('a')).files[k].selected,
        !keyed(m, Key::Char('n')).files[k].selected,
        keyed(m, Key::Char(' ')).files[k].selected == (m.files[k].selected != (k == m.cursor)),
        m.cursor + 1 < m.files.len() ==> keyed(m, Key::Down).cursor == m.cursor + 1,
        m.cursor > 0 ==> keyed(m, Key::Up).cursor == m.cursor - 1,
        m.cursor == 0 ==> keyed(m, Key::Up).cursor == m.files.len() - 1,
        m.cursor == m.files.len() - 1 ==> keyed(m, Key::Down).cursor == 0,
        keyed(m, Key::Char('j')) == keyed(m, Key::Down),
        keyed(m, Key::Char('k')) == keyed(m, Key::Up),
        keyed(m, Key::Tab).panel == Panel::Settings,
        starts(m, Key::Enter) == !m.processing,
        !m.processing ==> !keyed(m, Key::Enter).finished && keyed(m, Key::Enter).summary is None,
        keyed(m, Key::Char('s')).cancelled == (m.cancelled || m.processing),
{
    law_cursor_goes_step_by_step(m, 0, 0);
}

/// The screen is left by `q` and by Escape and by no other key, and nothing changes with them.
pub proof fn law_two_keys_leave(m: TuiModel, key: Key)
    ensures
        quits(key) <==> key == Key::Esc || key == Key::Char('q'),
        quits(key) ==> keyed(m, key) == m,
        quits(key) ==> !starts(m, key),
{
}

/// Enter starts the work where there are files and none is going on; no other key does.
pub proof fn law_enter_starts(m: TuiModel, key: Key)
    ensures
        starts(m, key) ==> key == Key::Enter,
        starts(m, Key::Enter) <==> m.files.len() > 0 && !m.processing,
{
}

} // verus!
