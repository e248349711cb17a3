//! The texts on the screen.

use crate::path::{lossy_text, utf8_lossy};
use crate::text::{decimal, join_texts, joined, law_number_stands_out, push_decimal};
use crate::tui::state::{
    entry_models, selected_of, EntryModel, FileEntry, FileStatus, StatusModel, TuiModel, TuiState,
};
use vstd::prelude::*;
use vstd::string::*;

verus! {

// ---------------------------------------------------------------------------
// The settings
// ---------------------------------------------------------------------------

/// The text of the settings panel.
pub open spec fn settings_text(m: TuiModel) -> Seq<char> {
    "Source: "@ + utf8_lossy(m.config.source_path@) + "\nOutput: "@ + utf8_lossy(
        m.config.output_path@,
    ) + "\nDPI:    "@ + decimal(m.config.dpi as nat) + "\nFiles:  "@ + decimal(m.files.len())
        + " total, "@ + decimal(selected_of(m.files)) + " selected\n\n\nControls:\nTab      switch panel\n↑↓       navigate list\nSpace    toggle file\na / n    select / deselect all\nEnter    start conversion\ns        stop (while running)\nq / Esc  quit"@
}

impl TuiState {
    /// Counts the selected files.
    pub fn selected_count(&self) -> (r: usize)
        ensures
            r == selected_of(self@.files),
            r <= self.files.len(),
    {
        let ghost files = self@.files;
        let mut n: usize = 0;
        let mut i: usize = 0;
        assert(files.take(0) =~= Seq::empty());
        while i < self.files.len()
            invariant
                i <= self.files.len(),
                files == entry_models(self.files@),
                n == selected_of(files.take(i as int)),
                n <= i,
            decreases self.files.len() - i,
        {
            assert(files.take(i + 1).drop_last() =~= files.take(i as int));
            assert(files.take(i + 1).last().selected == self.files@[i as int].selected);
            if self.files[i].selected {
                n = n + 1;
            }
            i = i + 1;
        }
        assert(files.take(i as int) =~= files);
        n
    }

    /// Writes the text of the settings panel.
    pub fn settings(&self) -> (r: String)
        ensures
            r@ == settings_text(self@),
    {
        let mut out: String = "Source: ".to_owned();
        out.append(lossy_text(self.config.source_path.as_slice()).as_str());
        out.append("\nOutput: ");
        out.append(lossy_text(self.config.output_path.as_slice()).as_str());
        out.append("\nDPI:    ");
        push_decimal(&mut out, self.config.dpi as u64);
        out.append("\nFiles:  ");
        push_decimal(&mut out, self.files.len() as u64);
        out.append(" total, ");
        push_decimal(&mut out, self.selected_count() as u64);
        out.append(
            " selected\n\n\nControls:\nTab      switch panel\n↑↓       navigate list\nSpace    toggle file\na / n    select / deselect all\nEnter    start conversion\ns        stop (while running)\nq / Esc  quit",
        );
        out
    }
}

// ---------------------------------------------------------------------------
// The files
// ---------------------------------------------------------------------------

/// The sign of how far a file is.
pub open spec fn status_sign(s: StatusModel) -> Seq<char> {
    match s {
        StatusModel::Done => "✓"@,
        StatusModel::Error(_) => "✗"@,
        StatusModel::Processing => "▶"@,
        StatusModel::Skipped => "○"@,
        StatusModel::Queued => " "@,
    }
}

/// The line of a file.
pub open spec fn file_text(e: EntryModel) -> Seq<char> {
    (if e.selected {
        "☑"@
    } else {
        "☐"@
    }) + " "@ + status_sign(e.status) + " "@ + e.path
}

/// Writes the line of a file.
pub fn file_line(entry: &FileEntry) -> (r: String)
    ensures
        r@ == file_text(entry@),
{
    let mut out: String = if entry.selected {
        "☑".to_owned()
    } else {
        "☐".to_owned()
    };
    out.append(" ");
    match &entry.status {
        FileStatus::Done => {
            out.append("✓");
        },
        FileStatus::Error(_) => {
            out.append("✗");
        },
        FileStatus::Processing => {
            out.append("▶");
        },
        FileStatus::Skipped => {
            out.append("○");
        },
        FileStatus::Queued => {
            out.append(" ");
        },
    }
    out.append(" ");
    out.append(entry.relative_path.as_str());
    out
}

// ---------------------------------------------------------------------------
// The log
// ---------------------------------------------------------------------------

/// How many of `len` lines fit in a box of the given height, with its two borders.
pub open spec fn lines_shown(len: nat, height: nat) -> nat {
    let room: nat = if height < 2 {
        0
    } else {
        (height - 2) as nat
    };
    if room < len {
        room
    } else {
        len
    }
}

/// The text of the log: as many of the last lines as fit.
pub open spec fn log_tail(log: Seq<Seq<char>>, height: nat) -> Seq<char> {
    joined(log.skip(log.len() - lines_shown(log.len(), height)), "\n"@)
}

impl TuiState {
    /// Writes the text of the log for a box of the given height.
    pub fn log_text(&self, height: u16) -> (r: String)
        ensures
            r@ == log_tail(self@.log, height as nat),
    {
        let len: usize = self.log_lines.len();
        let room: usize = if height < 2 {
            0
        } else {
            height as usize - 2
        };
        let shown: usize = if room < len {
            room
        } else {
            len
        };
        join_texts(&self.log_lines, len - shown, "\n")
    }
}

// ---------------------------------------------------------------------------
// The progress bar
// ---------------------------------------------------------------------------

/// The text on the progress bar; `percent` is how much of the work is done.
pub open spec fn bar_text(m: TuiModel, percent: nat) -> Seq<char> {
    if m.finished {
        match m.summary {
            Some(s) => s,
            None => "Complete"@,
        }
    } else if m.processing {
        decimal(m.processed) + " done, "@ + decimal(m.errors) + " errors, "@ + decimal(m.skipped)
            + " skipped — "@ + decimal(percent) + "%"@
    } else if m.files.len() == 0 {
        "No files loaded — use Enter to scan and start"@
    } else {
        decimal(selected_of(m.files)) + " / "@ + decimal(m.files.len())
            + " files selected — Enter to start"@
    }
}

impl TuiState {
    /// Writes the text on the progress bar.
    pub fn progress_label(&self, percent: u32) -> (r: String)
        ensures
            r@ == bar_text(self@, percent as nat),
    {
        if self.finished {
            return match &self.summary {
                Some(s) => s.as_str().to_owned(),
                None => "Complete".to_owned(),
            };
        }
        if !self.processing && self.files.len() == 0 {
            return "No files loaded — use Enter to scan and start".to_owned();
        }
        let mut out: String = String::new();
        if self.processing {
            push_decimal(&mut out, self.processed_count as u64);
            out.append(" done, ");
            push_decimal(&mut out, self.error_count as u64);
            out.append(" errors, ");
            push_decimal(&mut out, self.skipped_count as u64);
            out.append(" skipped — ");
            push_decimal(&mut out, percent as u64);
            out.append("%");
        } else {
            push_decimal(&mut out, self.selected_count() as u64);
            out.append(" / ");
            push_decimal(&mut out, self.files.len() as u64);
            out.append(" files selected — Enter to start");
        }
        assert(out@ =~= bar_text(self@, percent as nat));
        out
    }

    /// The number of files that ended in one way or the other.
    pub fn done_count(&self) -> (r: u64)
        ensures
            r == self@.processed + self@.errors + self@.skipped,
    {
        self.processed_count as u64 + self.error_count as u64 + self.skipped_count as u64
    }
}

// ---------------------------------------------------------------------------
// What holds of them
// ---------------------------------------------------------------------------

/// The line of a file tells whether it is selected, how far it is and where it lies: its first
/// sign is a ticked box for a selected file and an empty one for another, its third is another
/// for each way a file can be, and behind the first four stands the path.
pub proof fn law_file_line_tells_the_file(e: EntryModel, f: EntryModel)
    ensures
        file_text(e).len() == e.path.len() + 4,
        file_text(e).skip(4) == e.path,
        file_text(e)[0] == if e.selected {
            '☑'
        } else {
            '☐'
        },
        file_text(e) == file_text(f) ==> {
            &&& e.path == f.path
            &&& e.selected == f.selected
            &&& (e.status is Queued) == (f.status is Queued)
            &&& (e.status is Processing) == (f.status is Processing)
            &&& (e.status is Done) == (f.status is Done)
            &&& (e.status is Error) == (f.status is Error)
            &&& (e.status is Skipped) == (f.status is Skipped)
        },
{
    reveal_strlit("☑");
    reveal_strlit("☐");
    reveal_strlit(" ");
    reveal_strlit("✓");
    reveal_strlit("✗");
    reveal_strlit("▶");
    reveal_strlit("○");
    assert(file_text(e).skip(4) =~= e.path);
    assert(file_text(f).skip(4) =~= f.path);
    assert(file_text(e)[2] == status_sign(e.status)[0]);
    assert(file_text(f)[2] == status_sign(f.status)[0]);
    assert(file_text(f)[0] == if f.selected {
        '☑'
    } else {
        '☐'
    });
}

/// The log is shown whole where it fits between the borders; where it does not, what stands
/// before the last lines that fit makes no difference.
pub proof fn law_log_shows_its_end(front: Seq<Seq<char>>, log: Seq<Seq<char>>, height: nat)
    ensures
        log.len() + 2 <= height ==> log_tail(log, height) == joined(log, "\n"@),
        height <= log.len() + 2 ==> log_tail(front + log, height) == log_tail(log, height),
        height <= 2 ==> log_tail(log, height).len() == 0,
{
    if log.len() + 2 <= height {
        assert(log.skip(0) =~= log);
    }
    if height <= log.len() + 2 {
        let n = lines_shown(log.len(), height);
        assert((front + log).skip((front + log).len() - n) =~= log.skip(log.len() - n));
    }
}

/// Two resolutions are shown differently.
pub proof fn law_settings_show_the_resolution(m: TuiModel, n: TuiModel)
    requires
        settings_text(m) == settings_text(n),
        m.config.source_path@ == n.config.source_path@,
        m.config.output_path@ == n.config.output_path@,
        m.files == n.files,
    ensures
        m.config.dpi == n.config.dpi,
{
    let head = "Source: "@ + utf8_lossy(m.config.source_path@) + "\nOutput: "@ + utf8_lossy(
        m.config.output_path@,
    ) + "\nDPI:    "@;
    let keys = " selected\n\n\nControls:\nTab      switch panel\n↑↓       navigate list\nSpace    toggle file\na / n    select / deselect all\nEnter    start conversion\ns        stop (while running)\nq / Esc  quit"@;
    let tail = "\nFiles:  "@ + decimal(m.files.len()) + " total, "@ + decimal(selected_of(m.files))
        + keys;
    assert(settings_text(m) =~= head + decimal(m.config.dpi as nat) + tail);
    assert(settings_text(n) =~= head + decimal(n.config.dpi as nat) + tail);
    law_number_stands_out(head, m.config.dpi as nat, n.config.dpi as nat, tail);
}

/// The folders are shown where they are named: the source behind `Source: `, the output behind
/// it on the next line.
pub proof fn law_settings_show_the_folders(m: TuiModel)
    ensures
        ({
            let source = utf8_lossy(m.config.source_path@);
            let output = utf8_lossy(m.config.output_path@);
            let front = "Source: "@ + source + "\nOutput: "@ + output + "\n"@;
            &&& front.len() <= settings_text(m).len()
            &&& settings_text(m).take(front.len() as int) == front
        }),
{
    let source = utf8_lossy(m.config.source_path@);
    let output = utf8_lossy(m.config.output_path@);
    reveal_strlit("\n");
    reveal_strlit("\nDPI:    ");
    let front = "Source: "@ + source + "\nOutput: "@ + output + "\n"@;
    assert(settings_text(m).take(front.len() as int) =~= front);
}

/// While the work goes on the bar tells the percentage that it is given: two percentages are
/// shown differently.
pub proof fn law_bar_tells_the_percentage(m: TuiModel, p: nat, q: nat)
    requires
        m.processing,
        !m.finished,
        bar_text(m, p) == bar_text(m, q),
    ensures
        p == q,
{
    let head = decimal(m.processed) + " done, "@ + decimal(m.errors) + " errors, "@ + decimal(
        m.skipped,
    ) + " skipped — "@;
    law_number_stands_out(head, p, q, "%"@);
}

/// While the work goes on the bar tells each count: two states that differ in one of them are
/// shown differently.
pub proof fn law_bar_tells_the_counts(m: TuiModel, n: TuiModel, p: nat)
    requires
        m.processing && n.processing,
        !m.finished && !n.finished,
        bar_text(m, p) == bar_text(n, p),
    ensures
        m.errors == n.errors && m.skipped == n.skipped ==> m.processed == n.processed,
        m.processed == n.processed && m.skipped == n.skipped ==> m.errors == n.errors,
        m.processed == n.processed && m.errors == n.errors ==> m.skipped == n.skipped,
{
    let percent = " skipped — "@ + decimal(p) + "%"@;
    if m.errors == n.errors && m.skipped == n.skipped {
        let tail = " done, "@ + decimal(m.errors) + " errors, "@ + decimal(m.skipped) + percent;
        assert(bar_text(m, p) =~= Seq::empty() + decimal(m.processed) + tail);
        assert(bar_text(n, p) =~= Seq::empty() + decimal(n.processed) + tail);
        law_number_stands_out(Seq::empty(), m.processed, n.processed, tail);
    }
    if m.processed == n.processed && m.skipped == n.skipped {
        let head = decimal(m.processed) + " done, "@;
        let tail = " errors, "@ + decimal(m.skipped) + percent;
        assert(bar_text(m, p) =~= head + decimal(m.errors) + tail);
        assert(bar_text(n, p) =~= head + decimal(n.errors) + tail);
        law_number_stands_out(head, m.errors, n.errors, tail);
    }
    if m.processed == n.processed && m.errors == n.errors {
        let head = decimal(m.processed) + " done, "@ + decimal(m.errors) + " errors, "@;
        assert(bar_text(m, p) =~= head + decimal(m.skipped) + percent);
        assert(bar_text(n, p) =~= head + decimal(n.skipped) + percent);
        law_number_stands_out(head, m.skipped, n.skipped, percent);
    }
}

/// Once the work is over the bar shows the summary and nothing else, whatever the percentage.
pub proof fn law_bar_shows_the_summary(m: TuiModel, s: Seq<char>, p: nat)
    requires
        m.finished,
        m.summary == Some(s),
    ensures
        bar_text(m, p) == s,
{
}

/// Before the work starts the bar tells how many files are selected: two lists of as many files
/// with other numbers of selected ones are shown differently.
pub proof fn law_bar_tells_the_selection(m: TuiModel, n: TuiModel, p: nat)
    requires
        !m.finished && !n.finished,
        !m.processing && !n.processing,
        m.files.len() == n.files.len(),
        m.files.len() > 0,
        bar_text(m, p) == bar_text(n, p),
    ensures
        selected_of(m.files) == selected_of(n.files),
{
    let tail = " / "@ + decimal(m.files.len()) + " files selected — Enter to start"@;
    assert(bar_text(m, p) =~= Seq::empty() + decimal(selected_of(m.files)) + tail);
    assert(bar_text(n, p) =~= Seq::empty() + decimal(selected_of(n.files)) + tail);
    law_number_stands_out(Seq::empty(), selected_of(m.files), selected_of(n.files), tail);
}

} // verus!
