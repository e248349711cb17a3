//! The state behind the terminal screen.

use crate::config::AppConfig;
use crate::mirror::{all_paths, ScannedFile};
use crate::path::{lossy_text, utf8_lossy};
use crate::text::{decimal, push_decimal, same_text, text_views};
use crate::worker::{
    all_reports, count_of, counts_runs, ended, failed_line, law_run_reports_match_ends,
    lemma_runs_report_files, only_pages, FileOutcome, FileRun, ProgressUpdate, Report, Tally,
};
use vstd::prelude::*;
use vstd::string::*;

verus! {

// ---------------------------------------------------------------------------
// What the screen shows
// ---------------------------------------------------------------------------

/// Which panel has the keyboard.
#[derive(Debug, Clone, Copy, PartialEq, Eq, Structural)]
pub enum Panel {
    Settings,
    FileList,
}

/// How far a file is.
#[derive(Debug)]
pub enum FileStatus {
    Queued,
    Processing,
    Done,
    Error(String),
    Skipped,
}

/// How far a file is, with its text.
pub ghost enum StatusModel {
    Queued,
    Processing,
    Done,
    Error(Seq<char>),
    Skipped,
}

impl View for FileStatus {
    type V = StatusModel;

    open spec fn view(&self) -> StatusModel {
        match *self {
            FileStatus::Queued => StatusModel::Queued,
            FileStatus::Processing => StatusModel::Processing,
            FileStatus::Done => StatusModel::Done,
            FileStatus::Error(e) => StatusModel::Error(e@),
            FileStatus::Skipped => StatusModel::Skipped,
        }
    }
}

/// A file in the list.
#[derive(Debug)]
pub struct FileEntry {
    pub relative_path: String,
    pub selected: bool,
    pub status: FileStatus,
    pub current_page: u32,
    pub total_pages: u32,
}

/// A file in the list, with its texts.
pub ghost struct EntryModel {
    pub path: Seq<char>,
    pub selected: bool,
    pub status: StatusModel,
    pub current_page: nat,
    pub total_pages: nat,
}

impl View for FileEntry {
    type V = EntryModel;

    open spec fn view(&self) -> EntryModel {
        EntryModel {
            path: self.relative_path@,
            selected: self.selected,
            status: self.status@,
            current_page: self.current_page as nat,
            total_pages: self.total_pages as nat,
        }
    }
}

/// The files of a list.
pub open spec fn entry_models(v: Seq<FileEntry>) -> Seq<EntryModel> {
    v.map_values(|e: FileEntry| e@)
}

/// All that the screen shows.
#[derive(Debug)]
pub struct TuiState {
    pub config: AppConfig,
    pub scanned_files: Vec<ScannedFile>,
    pub files: Vec<FileEntry>,
    pub selected_panel: Panel,
    pub list_cursor: usize,
    pub processing: bool,
    pub processed_count: u32,
    pub error_count: u32,
    pub skipped_count: u32,
    pub log_lines: Vec<String>,
    pub finished: bool,
    pub summary: Option<String>,
    /// Whether the work is to stop.
    pub cancel_flag: bool,
}

/// The most lines that the log keeps.
pub const LOG_LIMIT: usize = 100;

/// All that the screen shows, with its texts.
pub ghost struct TuiModel {
    pub config: AppConfig,
    pub scanned: Seq<ScannedFile>,
    pub files: Seq<EntryModel>,
    pub panel: Panel,
    pub cursor: nat,
    pub processing: bool,
    pub processed: nat,
    pub errors: nat,
    pub skipped: nat,
    pub log: Seq<Seq<char>>,
    pub finished: bool,
    pub summary: Option<Seq<char>>,
    pub cancelled: bool,
}

impl View for TuiState {
    type V = TuiModel;

    open spec fn view(&self) -> TuiModel {
        TuiModel {
            config: self.config,
            scanned: self.scanned_files@,
            files: entry_models(self.files@),
            panel: self.selected_panel,
            cursor: self.list_cursor as nat,
            processing: self.processing,
            processed: self.processed_count as nat,
            errors: self.error_count as nat,
            skipped: self.skipped_count as nat,
            log: text_views(self.log_lines@),
            finished: self.finished,
            summary: match self.summary {
                Some(s) => Some(s@),
                None => None,
            },
            cancelled: self.cancel_flag,
        }
    }
}

/// The place of the first file with the given path, from place `from` on.
pub open spec fn find_path(files: Seq<EntryModel>, path: Seq<char>, from: int) -> Option<int>
    decreases files.len() - from,
{
    if from < 0 || from >= files.len() {
        None
    } else if files[from].path == path {
        Some(from)
    } else {
        find_path(files, path, from + 1)
    }
}

/// The files once the first one with the given path has a new status.
pub open spec fn with_status(files: Seq<EntryModel>, path: Seq<char>, status: StatusModel) -> Seq<
    EntryModel,
> {
    match find_path(files, path, 0) {
        Some(i) => files.update(i, EntryModel { status, ..files[i] }),
        None => files,
    }
}

/// The files once the first one with the given path is on a page.
pub open spec fn with_pages(
    files: Seq<EntryModel>,
    path: Seq<char>,
    current_page: nat,
    total_pages: nat,
) -> Seq<EntryModel> {
    match find_path(files, path, 0) {
        Some(i) => files.update(i, EntryModel { current_page, total_pages, ..files[i] }),
        None => files,
    }
}

/// The last lines of a log, as many as it keeps.
pub open spec fn kept_lines(log: Seq<Seq<char>>) -> Seq<Seq<char>> {
    if log.len() > LOG_LIMIT {
        log.skip(log.len() - LOG_LIMIT)
    } else {
        log
    }
}

/// The number of selected files.
pub open spec fn selected_of(files: Seq<EntryModel>) -> nat
    decreases files.len(),
{
    if files.len() == 0 {
        0
    } else {
        selected_of(files.drop_last()) + (if files.last().selected {
            1nat
        } else {
            0
        })
    }
}

/// The paths of the selected files among the first `n`.
pub open spec fn chosen(scanned: Seq<ScannedFile>, files: Seq<EntryModel>, n: int) -> Seq<
    (Seq<u8>, Seq<u8>),
>
    decreases n,
{
    if n <= 0 {
        Seq::empty()
    } else if files[n - 1].selected {
        chosen(scanned, files, n - 1).push(scanned[n - 1].paths())
    } else {
        chosen(scanned, files, n - 1)
    }
}

/// The list entry of a file that was found.
pub open spec fn fresh_entry(f: ScannedFile) -> EntryModel {
    EntryModel {
        path: utf8_lossy(f.relative_path@),
        selected: true,
        status: StatusModel::Queued,
        current_page: 0,
        total_pages: 0,
    }
}

impl TuiModel {
    /// Whether the state is in order: every file that was found is in the list, the cursor is
    /// on a file where there is one, and the log is not too long.
    pub open spec fn wf(self) -> bool {
        &&& self.scanned.len() == self.files.len()
        &&& self.cursor < self.files.len() || self.cursor == 0
        &&& self.log.len() <= LOG_LIMIT
    }

    /// The state at the start.
    pub open spec fn initial(config: AppConfig) -> TuiModel {
        TuiModel {
            config,
            scanned: Seq::empty(),
            files: Seq::empty(),
            panel: Panel::FileList,
            cursor: 0,
            processing: false,
            processed: 0,
            errors: 0,
            skipped: 0,
            log: Seq::empty(),
            finished: false,
            summary: None,
            cancelled: false,
        }
    }

    /// The state with other files.
    pub open spec fn with_files(self, scanned: Seq<ScannedFile>) -> TuiModel {
        TuiModel {
            scanned,
            files: scanned.map_values(|f: ScannedFile| fresh_entry(f)),
            cursor: 0,
            ..self
        }
    }

    /// The state with the keyboard on the other panel.
    pub open spec fn panel_toggled(self) -> TuiModel {
        TuiModel {
            panel: match self.panel {
                Panel::Settings => Panel::FileList,
                Panel::FileList => Panel::Settings,
            },
            ..self
        }
    }

    /// The state with the cursor moved, round the end of the list to its start and back.
    pub open spec fn cursor_moved(self, delta: int) -> TuiModel {
        if self.panel == Panel::FileList {
            let len: int = if self.files.len() == 0 {
                1
            } else {
                self.files.len() as int
            };
            TuiModel { cursor: ((self.cursor + delta) % len) as nat, ..self }
        } else {
            self
        }
    }

    /// Whether the cursor can be moved within 32 bits, where it moves at all.
    pub open spec fn can_move(self, delta: int) -> bool {
        self.panel == Panel::FileList ==> {
            &&& self.files.len() <= i32::MAX
            &&& self.cursor <= i32::MAX
            &&& i32::MIN <= self.cursor + delta <= i32::MAX
        }
    }

    /// The state with the file under the cursor selected, or no longer selected.
    pub open spec fn file_toggled(self) -> TuiModel {
        if self.panel == Panel::FileList && self.cursor < self.files.len() {
            let entry = self.files[self.cursor as int];
            TuiModel {
                files: self.files.update(
                    self.cursor as int,
                    EntryModel { selected: !entry.selected, ..entry },
                ),
                ..self
            }
        } else {
            self
        }
    }

    /// The state with all files selected, or none.
    pub open spec fn all_selected(self, sel: bool) -> TuiModel {
        TuiModel {
            files: self.files.map_values(|e: EntryModel| EntryModel { selected: sel, ..e }),
            ..self
        }
    }

    /// The state with one more line in the log.
    pub open spec fn noted(self, line: Seq<char>) -> TuiModel {
        TuiModel { log: self.log.push(line), ..self }
    }

    /// What a report does to the state, but for the length of the log.
    pub open spec fn told(self, r: Report) -> TuiModel {
        match r {
            Report::Started { total } => TuiModel {
                processing: true,
                processed: 0,
                errors: 0,
                skipped: 0,
                ..self.noted("Processing "@ + decimal(total) + " files..."@)
            },
            Report::Processing { path, .. } => TuiModel {
                files: with_pages(with_status(self.files, path, StatusModel::Processing), path, 0, 0),
                ..self
            },
            Report::PageProgress { path, current_page, total_pages } => TuiModel {
                files: with_pages(self.files, path, current_page, total_pages),
                ..self
            },
            Report::Completed { path, .. } => TuiModel {
                files: with_status(self.files, path, StatusModel::Done),
                processed: self.processed + 1,
                ..self
            },
            Report::Skipped { path, .. } => TuiModel {
                files: with_status(self.files, path, StatusModel::Skipped),
                skipped: self.skipped + 1,
                ..self
            },
            Report::Error { path, message, .. } => TuiModel {
                files: with_status(self.files, path, StatusModel::Error(message)),
                errors: self.errors + 1,
                ..self.noted(failed_line(path, message))
            },
            Report::Log { message } => self.noted(message),
            Report::Finished { success_count, error_count, skipped_count } => TuiModel {
                processing: false,
                finished: true,
                summary: Some(
                    "Done — "@ + decimal(success_count) + " OK, "@ + decimal(error_count)
                        + " errors, "@ + decimal(skipped_count) + " skipped"@,
                ),
                ..self
            },
        }
    }

    /// Whether the count that a report adds to can still grow.
    pub open spec fn has_room_for(self, r: Report) -> bool {
        match r {
            Report::Completed { .. } => self.processed < u32::MAX,
            Report::Skipped { .. } => self.skipped < u32::MAX,
            Report::Error { .. } => self.errors < u32::MAX,
            _ => true,
        }
    }

    /// What a report does to the state.
    pub open spec fn applied(self, r: Report) -> TuiModel {
        TuiModel { log: kept_lines(self.told(r).log), ..self.told(r) }
    }

    /// The state after some reports.
    pub open spec fn applied_all(self, rs: Seq<Report>) -> TuiModel
        decreases rs.len(),
    {
        if rs.len() == 0 {
            self
        } else {
            self.applied_all(rs.drop_last()).applied(rs.last())
        }
    }

    /// The state once the work is started.
    pub open spec fn begun(self) -> TuiModel {
        TuiModel { cancelled: false, finished: false, summary: None, ..self }
    }

    /// The files that the work is started on: those that are selected.
    pub open spec fn to_convert(self) -> Seq<(Seq<u8>, Seq<u8>)> {
        chosen(
            self.scanned,
            self.files,
            if self.scanned.len() <= self.files.len() {
                self.scanned.len() as int
            } else {
                self.files.len() as int
            },
        )
    }

    /// How many files are counted as ended in the given way.
    pub open spec fn counted(self, which: FileOutcome) -> nat {
        match which {
            FileOutcome::Done => self.processed,
            FileOutcome::Failed => self.errors,
            FileOutcome::Skipped => self.skipped,
            FileOutcome::NotReached => 0,
        }
    }
}

// ---------------------------------------------------------------------------
// What changes it
// ---------------------------------------------------------------------------

impl TuiState {
    /// The state at the start.
    pub fn new(config: AppConfig) -> (s: TuiState)
        ensures
            s@ == TuiModel::initial(config),
            s@.wf(),
    {
        let s: TuiState = TuiState {
            config,
            scanned_files: Vec::new(),
            files: Vec::new(),
            selected_panel: Panel::FileList,
            list_cursor: 0,
            processing: false,
            processed_count: 0,
            error_count: 0,
            skipped_count: 0,
            log_lines: Vec::new(),
            finished: false,
            summary: None,
            cancel_flag: false,
        };
        assert(s@.files =~= Seq::empty());
        assert(s@.log =~= Seq::empty());
        assert(s@.scanned =~= Seq::empty());
        s
    }

    /// Puts other files in the list, all of them selected.
    pub fn set_files(&mut self, files: Vec<ScannedFile>)
        ensures
            final(self)@ == old(self)@.with_files(files@),
            old(self)@.wf() ==> final(self)@.wf(),
    {
        let ghost models = files@.map_values(|f: ScannedFile| fresh_entry(f));
        let mut entries: Vec<FileEntry> = Vec::new();
        let mut i: usize = 0;
        while i < files.len()
            invariant
                i <= files.len(),
                models == files@.map_values(|f: ScannedFile| fresh_entry(f)),
                entry_models(entries@) == models.take(i as int),
            decreases files.len() - i,
        {
            let ghost before = entry_models(entries@);
            let entry: FileEntry = FileEntry {
                relative_path: lossy_text(files[i].relative_path.as_slice()),
                selected: true,
                status: FileStatus::Queued,
                current_page: 0,
                total_pages: 0,
            };
            assert(entry@ == models[i as int]);
            entries.push(entry);
            assert(entry_models(entries@) =~= before.push(models[i as int]));
            assert(models.take(i + 1) =~= before.push(models[i as int]));
            i = i + 1;
        }
        assert(models.take(i as int) =~= models);
        self.scanned_files = files;
        self.files = entries;
        self.list_cursor = 0;
    }

    /// Moves the keyboard to the other panel.
    pub fn toggle_panel(&mut self)
        ensures
            final(self)@ == old(self)@.panel_toggled(),
            old(self)@.wf() ==> final(self)@.wf(),
    {
        self.selected_panel = match self.selected_panel {
            Panel::Settings => Panel::FileList,
            Panel::FileList => Panel::Settings,
        };
    }

    /// Moves the cursor, where the file list has the keyboard.
    pub fn move_cursor(&mut self, delta: i32)
        requires
            old(self)@.can_move(delta as int),
        ensures
            final(self)@ == old(self)@.cursor_moved(delta as int),
            old(self)@.wf() ==> final(self)@.wf(),
    {
        if self.selected_panel != Panel::FileList {
            return;
        }
        let len: usize = if self.files.len() == 0 {
            1
        } else {
            self.files.len()
        };
        let target: i64 = self.list_cursor as i64 + delta as i64;
        self.list_cursor = wrap_around(target, len);
    }

    /// Selects the file under the cursor, or no longer, where the file list has the keyboard.
    pub fn toggle_selected_file(&mut self)
        ensures
            final(self)@ == old(self)@.file_toggled(),
            old(self)@.wf() ==> final(self)@.wf(),
    {
        if self.selected_panel != Panel::FileList {
            return;
        }
        if self.list_cursor < self.files.len() {
            let i: usize = self.list_cursor;
            let sel: bool = !self.files[i].selected;
            self.files[i].selected = sel;
            assert(self@.files =~= old(self)@.file_toggled().files);
        }
    }

    /// Selects all files, or none.
    pub fn select_all(&mut self, sel: bool)
        ensures
            final(self)@ == old(self)@.all_selected(sel),
            old(self)@.wf() ==> final(self)@.wf(),
    {
        let ghost before = self@;
        let mut i: usize = 0;
        while i < self.files.len()
            invariant
                i <= self.files.len(),
                self.files.len() == before.files.len(),
                self@ == (TuiModel { files: self@.files, ..before }),
                forall|k: int|
                    0 <= k < i ==> self@.files[k] == (EntryModel { selected: sel, ..before.files[k] }),
                forall|k: int| i <= k < before.files.len() ==> self@.files[k] == before.files[k],
            decreases self.files.len() - i,
        {
            let ghost current = self@.files;
            self.files[i].selected = sel;
            assert(self@.files =~= current.update(
                i as int,
                EntryModel { selected: sel, ..current[i as int] },
            ));
            i = i + 1;
        }
        assert(self@.files =~= before.all_selected(sel).files);
    }

    fn find_file(&self, path: &str) -> (r: Option<usize>)
        ensures
            match r {
                Some(i) => i < self.files.len() && find_path(self@.files, path@, 0) == Some(i as int),
                None => find_path(self@.files, path@, 0) is None,
            },
    {
        let mut i: usize = 0;
        while i < self.files.len()
            invariant
                i <= self.files.len(),
                find_path(self@.files, path@, 0) == find_path(self@.files, path@, i as int),
            decreases self.files.len() - i,
        {
            assert(self@.files[i as int].path == self.files@[i as int].relative_path@);
            if same_text(self.files[i].relative_path.as_str(), path) {
                return Some(i);
            }
            i = i + 1;
        }
        None
    }

    fn set_status(&mut self, path: &str, status: FileStatus)
        ensures
            final(self)@ == (TuiModel {
                files: with_status(old(self)@.files, path@, status@),
                ..old(self)@
            }),
            final(self).files.len() == old(self).files.len(),
    {
        if let Some(i) = self.find_file(path) {
            let ghost before = self@.files;
            self.files[i].status = status;
            assert(self@.files =~= before.update(
                i as int,
                EntryModel { status: status@, ..before[i as int] },
            ));
        }
    }

    fn set_pages(&mut self, path: &str, current_page: u32, total_pages: u32)
        ensures
            final(self)@ == (TuiModel {
                files: with_pages(
                    old(self)@.files,
                    path@,
                    current_page as nat,
                    total_pages as nat,
                ),
                ..old(self)@
            }),
            final(self).files.len() == old(self).files.len(),
    {
        if let Some(i) = self.find_file(path) {
            let ghost before = self@.files;
            self.files[i].current_page = current_page;
            self.files[i].total_pages = total_pages;
            assert(self@.files =~= before.update(
                i as int,
                EntryModel {
                    current_page: current_page as nat,
                    total_pages: total_pages as nat,
                    ..before[i as int]
                },
            ));
        }
    }

    fn note(&mut self, line: String)
        ensures
            final(self)@ == old(self)@.noted(line@),
    {
        self.log_lines.push(line);
        assert(self@.log =~= old(self)@.log.push(line@));
    }

    fn trim_log(&mut self)
        ensures
            final(self)@ == (TuiModel { log: kept_lines(old(self)@.log), ..old(self)@ }),
    {
        if self.log_lines.len() > LOG_LIMIT {
            let from: usize = self.log_lines.len() - LOG_LIMIT;
            let kept: Vec<String> = self.log_lines.split_off(from);
            self.log_lines = kept;
            assert(self@.log =~= kept_lines(old(self)@.log));
        }
    }

    /// Takes a report in.
    pub fn apply_update(&mut self, update: ProgressUpdate)
        requires
            old(self)@.has_room_for(update@),
        ensures
            final(self)@ == old(self)@.applied(update@),
            old(self)@.wf() ==> final(self)@.wf(),
    {
        match update {
            ProgressUpdate::Started { total } => {
                self.processing = true;
                self.processed_count = 0;
                self.error_count = 0;
                self.skipped_count = 0;
                let mut line: String = "Processing ".to_owned();
                push_decimal(&mut line, total as u64);
                line.append(" files...");
                self.note(line);
            },
            ProgressUpdate::Processing { relative_path, .. } => {
                self.set_status(relative_path.as_str(), FileStatus::Processing);
                self.set_pages(relative_path.as_str(), 0, 0);
            },
            ProgressUpdate::PageProgress { relative_path, current_page, total_pages } => {
                self.set_pages(relative_path.as_str(), current_page, total_pages);
            },
            ProgressUpdate::Completed { relative_path, .. } => {
                self.set_status(relative_path.as_str(), FileStatus::Done);
                self.processed_count = self.processed_count + 1;
            },
            ProgressUpdate::Skipped { relative_path, .. } => {
                self.set_status(relative_path.as_str(), FileStatus::Skipped);
                self.skipped_count = self.skipped_count + 1;
            },
            ProgressUpdate::Error { relative_path, error_message, .. } => {
                let mut line: String = "✗ ".to_owned();
                line.append(relative_path.as_str());
                line.append(": ");
                line.append(error_message.as_str());
                self.set_status(relative_path.as_str(), FileStatus::Error(error_message));
                self.error_count = self.error_count + 1;
                self.note(line);
            },
            ProgressUpdate::Log { message } => {
                self.note(message);
            },
            ProgressUpdate::Finished { success_count, error_count, skipped_count } => {
                self.processing = false;
                self.finished = true;
                let mut text: String = "Done — ".to_owned();
                push_decimal(&mut text, success_count as u64);
                text.append(" OK, ");
                push_decimal(&mut text, error_count as u64);
                text.append(" errors, ");
                push_decimal(&mut text, skipped_count as u64);
                text.append(" skipped");
                self.summary = Some(text);
            },
        }
        self.trim_log();
    }

    /// Starts the work: hands out the selected files.
    pub fn start_conversion(&mut self) -> (r: Vec<ScannedFile>)
        ensures
            final(self)@ == old(self)@.begun(),
            all_paths(r@) == old(self)@.to_convert(),
            old(self)@.wf() ==> final(self)@.wf(),
    {
        self.cancel_flag = false;
        self.finished = false;
        self.summary = None;
        let n: usize = if self.scanned_files.len() <= self.files.len() {
            self.scanned_files.len()
        } else {
            self.files.len()
        };
        let mut out: Vec<ScannedFile> = Vec::new();
        let mut i: usize = 0;
        assert(all_paths(out@) =~= Seq::empty());
        while i < n
            invariant
                i <= n <= self.files.len(),
                n <= self.scanned_files.len(),
                all_paths(out@) == chosen(self@.scanned, self@.files, i as int),
            decreases n - i,
        {
            assert(self@.files[i as int].selected == self.files@[i as int].selected);
            if self.files[i].selected {
                let ghost before = all_paths(out@);
                let f: ScannedFile = self.scanned_files[i].clone();
                out.push(f);
                assert(all_paths(out@) =~= before.push(f.paths()));
            }
            i = i + 1;
        }
        out
    }

    /// Asks the work to stop.
    pub fn stop_conversion(&mut self)
        ensures
            final(self)@ == (TuiModel { cancelled: true, ..old(self)@ }),
            old(self)@.wf() ==> final(self)@.wf(),
    {
        self.cancel_flag = true;
    }
}

/// Brings a place into a list of `len`, round its ends.
fn wrap_around(target: i64, len: usize) -> (r: usize)
    requires
        0 < len <= i32::MAX,
        i32::MIN <= target <= i32::MAX,
    ensures
        r == target as int % len as int,
        r < len,
{
    if target >= 0 {
        (target as u64 % len as u64) as usize
    } else {
        let back: u64 = (-target) as u64 % len as u64;
        let ghost q = (-target) as int / len as int;
        proof {
            vstd::arithmetic::div_mod::lemma_fundamental_div_mod(-target as int, len as int);
        }
        if back == 0 {
            proof {
                assert(target == len * (-q)) by (nonlinear_arith)
                    requires
                        -target == len * q,
                ;
                vstd::arithmetic::div_mod::lemma_fundamental_div_mod_converse(
                    target as int,
                    len as int,
                    -q,
                    0,
                );
            }
            0
        } else {
            proof {
                assert(target == len * (-q - 1) + (len - back)) by (nonlinear_arith)
                    requires
                        -target == len * q + back,
                ;
                vstd::arithmetic::div_mod::lemma_fundamental_div_mod_converse(
                    target as int,
                    len as int,
                    -q - 1,
                    len - back,
                );
            }
            len - back as usize
        }
    }
}

// ---------------------------------------------------------------------------
// What holds of it
// ---------------------------------------------------------------------------

/// Moving the keyboard to the other panel twice changes nothing.
pub proof fn law_panel_toggle_undoes_itself(m: TuiModel)
    ensures
        m.panel_toggled().panel_toggled() == m,
{
}

/// Selecting a file, or no longer, twice changes nothing.
pub proof fn law_file_toggle_undoes_itself(m: TuiModel)
    ensures
        m.file_toggled().file_toggled() == m,
{
    assert(m.file_toggled().file_toggled().files =~= m.files);
}

/// Moving the cursor back as far as it was moved brings it to where it was.
pub proof fn law_cursor_comes_back(m: TuiModel, delta: int)
    requires
        m.wf(),
    ensures
        m.cursor_moved(delta).wf(),
        m.cursor_moved(delta).cursor_moved(-delta) == m,
{
    let len: int = if m.files.len() == 0 {
        1
    } else {
        m.files.len() as int
    };
    let c = m.cursor as int;
    vstd::arithmetic::div_mod::lemma_fundamental_div_mod(c + delta, len);
    vstd::arithmetic::div_mod::lemma_mod_bound(c + delta, len);
    let q = (c + delta) / len;
    let r = (c + delta) % len;
    assert(r - delta == len * (-q) + c) by (nonlinear_arith)
        requires
            c + delta == len * q + r,
    ;
    vstd::arithmetic::div_mod::lemma_fundamental_div_mod_converse(r - delta, len, -q, c);
}

/// Where all files are selected, the work is started on all of them; where none is, on none.
pub proof fn law_select_all_converts_all(m: TuiModel)
    requires
        m.wf(),
    ensures
        m.all_selected(true).to_convert() == all_paths(m.scanned),
        m.all_selected(false).to_convert().len() == 0,
        selected_of(m.all_selected(true).files) == m.files.len(),
        selected_of(m.all_selected(false).files) == 0,
{
    lemma_chosen_uniform(m, true, m.scanned.len() as int);
    lemma_chosen_uniform(m, false, m.scanned.len() as int);
    lemma_selected_uniform(m.all_selected(true).files, true);
    lemma_selected_uniform(m.all_selected(false).files, false);
    assert(all_paths(m.scanned).take(m.scanned.len() as int) =~= all_paths(m.scanned));
}

proof fn lemma_chosen_uniform(m: TuiModel, sel: bool, n: int)
    requires
        0 <= n <= m.scanned.len(),
        n <= m.files.len(),
    ensures
        chosen(m.scanned, m.all_selected(sel).files, n) == (if sel {
            all_paths(m.scanned).take(n)
        } else {
            Seq::empty()
        }),
    decreases n,
{
    if n > 0 {
        lemma_chosen_uniform(m, sel, n - 1);
        assert(all_paths(m.scanned).take(n) =~= all_paths(m.scanned).take(n - 1).push(
            m.scanned[n - 1].paths(),
        ));
    } else {
        assert(all_paths(m.scanned).take(0) =~= Seq::empty());
    }
}

proof fn lemma_selected_uniform(files: Seq<EntryModel>, sel: bool)
    requires
        forall|k: int| 0 <= k < files.len() ==> (#[trigger] files[k]).selected == sel,
    ensures
        selected_of(files) == (if sel {
            files.len()
        } else {
            0
        }),
    decreases files.len(),
{
    if files.len() > 0 {
        lemma_selected_uniform(files.drop_last(), sel);
    }
}

proof fn lemma_find_path(files: Seq<EntryModel>, path: Seq<char>, from: int)
    requires
        0 <= from,
    ensures
        match find_path(files, path, from) {
            Some(i) => from <= i < files.len() && files[i].path == path && forall|k: int|
                from <= k < i ==> (#[trigger] files[k]).path != path,
            None => forall|k: int| from <= k < files.len() ==> (#[trigger] files[k]).path != path,
        },
    decreases files.len() - from,
{
    if from < files.len() && files[from].path != path {
        lemma_find_path(files, path, from + 1);
    }
}

/// A report leaves the list as it is, but for how far its files are: the same files, in the
/// same order, with the same ones selected; and it leaves the cursor and the settings alone.
pub proof fn law_reports_keep_the_list(m: TuiModel, r: Report)
    ensures
        ({
            let after = m.applied(r);
            &&& after.files.len() == m.files.len()
            &&& forall|k: int|
                0 <= k < m.files.len() ==> (#[trigger] after.files[k]).path == m.files[k].path
                    && after.files[k].selected == m.files[k].selected
            &&& after.cursor == m.cursor
            &&& after.panel == m.panel
            &&& after.config == m.config
            &&& after.scanned == m.scanned
            &&& after.cancelled == m.cancelled
            &&& after.log.len() <= LOG_LIMIT
        }),
{
    match r {
        Report::Processing { path, .. } => {
            lemma_find_path(m.files, path, 0);
            lemma_find_path(with_status(m.files, path, StatusModel::Processing), path, 0);
        },
        Report::PageProgress { path, .. } => {
            lemma_find_path(m.files, path, 0);
        },
        Report::Completed { path, .. } => {
            lemma_find_path(m.files, path, 0);
        },
        Report::Skipped { path, .. } => {
            lemma_find_path(m.files, path, 0);
        },
        Report::Error { path, .. } => {
            lemma_find_path(m.files, path, 0);
        },
        _ => {},
    }
}

/// The end of a file that is reported is shown in the list, at the first file of that path.
pub proof fn law_reported_end_is_shown(m: TuiModel, index: nat, path: Seq<char>, i: int)
    requires
        0 <= i < m.files.len(),
        m.files[i].path == path,
        forall|k: int| 0 <= k < i ==> (#[trigger] m.files[k]).path != path,
    ensures
        forall|n: nat|
            (#[trigger] m.applied(Report::Completed { index, path, page_count: n })).files[i].status
                == StatusModel::Done,
        forall|e: Seq<char>|
            (#[trigger] m.applied(Report::Error { index, path, message: e })).files[i].status
                == StatusModel::Error(e),
        m.applied(Report::Skipped { index, path }).files[i].status == StatusModel::Skipped,
{
    lemma_find_path(m.files, path, 0);
}

/// The counters count the ends that are reported.
pub proof fn law_counters_follow_reports(m: TuiModel, rs: Seq<Report>, which: FileOutcome)
    requires
        which != FileOutcome::NotReached,
        forall|k: int| 0 <= k < rs.len() ==> !((#[trigger] rs[k]) is Started),
    ensures
        m.applied_all(rs).counted(which) == m.counted(which) + count_of(rs, which),
    decreases rs.len(),
{
    if rs.len() > 0 {
        law_counters_follow_reports(m, rs.drop_last(), which);
        assert(!(rs[rs.len() - 1] is Started));
    }
}

/// Once the reports of a run have come in, in whatever order and with whatever reports of pages
/// between them, the counters hold how many files ended in which way.
pub proof fn law_run_is_counted(
    m: TuiModel,
    total: nat,
    runs: Seq<FileRun>,
    pages: Seq<Report>,
    rs: Seq<Report>,
    which: FileOutcome,
)
    requires
        which != FileOutcome::NotReached,
        only_pages(pages),
        rs.to_multiset() == (all_reports(runs) + pages).to_multiset(),
    ensures
        m.applied(Report::Started { total }).applied_all(rs).counted(which) == ended(runs, which),
{
    broadcast use vstd::seq_lib::group_to_multiset_ensures;

    let all = all_reports(runs) + pages;
    lemma_runs_report_files(runs);
    assert forall|k: int| 0 <= k < rs.len() implies !((#[trigger] rs[k]) is Started) by {
        assert(rs.contains(rs[k]));
        assert(all.to_multiset().count(rs[k]) > 0);
        assert(all.contains(rs[k]));
        let j = choose|j: int| 0 <= j < all.len() && all[j] == rs[k];
        if j < all_reports(runs).len() {
            assert(all[j] == all_reports(runs)[j]);
        } else {
            assert(all[j] == pages[j - all_reports(runs).len()]);
        }
    }
    let start = m.applied(Report::Started { total });
    law_counters_follow_reports(start, rs, which);
    law_run_reports_match_ends(runs, pages, rs, which);
}

/// When the work is over, the summary tells the same numbers as the counters.
pub proof fn law_summary_matches_counters(
    m: TuiModel,
    total: nat,
    runs: Seq<FileRun>,
    pages: Seq<Report>,
    rs: Seq<Report>,
    tally: Tally,
)
    requires
        only_pages(pages),
        rs.to_multiset() == (all_reports(runs) + pages).to_multiset(),
        counts_runs(tally, runs),
    ensures
        ({
            let end = m.applied(Report::Started { total }).applied_all(rs).applied(
                Report::Finished {
                    success_count: tally.success as nat,
                    error_count: tally.error as nat,
                    skipped_count: tally.skipped as nat,
                },
            );
            &&& end.finished
            &&& !end.processing
            &&& end.summary == Some(
                "Done — "@ + decimal(end.processed) + " OK, "@ + decimal(end.errors) + " errors, "@
                    + decimal(end.skipped) + " skipped"@,
            )
        }),
{
    law_run_is_counted(m, total, runs, pages, rs, FileOutcome::Done);
    law_run_is_counted(m, total, runs, pages, rs, FileOutcome::Failed);
    law_run_is_counted(m, total, runs, pages, rs, FileOutcome::Skipped);
    assert(tally.of(FileOutcome::Done) == ended(runs, FileOutcome::Done));
    assert(tally.of(FileOutcome::Failed) == ended(runs, FileOutcome::Failed));
    assert(tally.of(FileOutcome::Skipped) == ended(runs, FileOutcome::Skipped));
}

/// Whether a report is about the file of the given path.
pub open spec fn is_about(r: Report, path: Seq<char>) -> bool {
    match r {
        Report::Processing { path: p, .. } => p == path,
        Report::PageProgress { path: p, .. } => p == path,
        Report::Completed { path: p, .. } => p == path,
        Report::Skipped { path: p, .. } => p == path,
        Report::Error { path: p, .. } => p == path,
        _ => false,
    }
}

/// Files that were found are listed by their paths, one for one and in their order, all of them
/// selected and none of them begun; the work would be started on all of them, and nothing but
/// the list and its cursor changes.
pub proof fn law_found_files_are_listed(m: TuiModel, found: Seq<ScannedFile>)
    ensures
        ({
            let after = m.with_files(found);
            &&& after.scanned == found
            &&& after.files.len() == found.len()
            &&& forall|k: int|
                0 <= k < found.len() ==> {
                    let e = #[trigger] after.files[k];
                    &&& e.path == utf8_lossy(found[k].relative_path@)
                    &&& e.selected
                    &&& e.status == StatusModel::Queued
                    &&& e.current_page == 0
                    &&& e.total_pages == 0
                }
            &&& after.cursor == 0
            &&& after.to_convert() == all_paths(found)
            &&& after == (TuiModel {
                scanned: after.scanned,
                files: after.files,
                cursor: after.cursor,
                ..m
            })
        }),
{
    let after = m.with_files(found);
    assert(after.all_selected(true).files =~= after.files);
    lemma_chosen_uniform(after, true, found.len() as int);
    assert(all_paths(found).take(found.len() as int) =~= all_paths(found));
}

/// A step of the cursor takes it to the next file or to the one before, and from the last file
/// to the first and back; steps add up; and the cursor moves only where the file list has the
/// keyboard. Nothing else changes with it.
pub proof fn law_cursor_goes_step_by_step(m: TuiModel, a: int, b: int)
    requires
        m.wf(),
    ensures
        m.panel == Panel::Settings ==> m.cursor_moved(a) == m,
        m.panel == Panel::FileList && m.cursor + 1 < m.files.len() ==> m.cursor_moved(1).cursor
            == m.cursor + 1,
        m.panel == Panel::FileList && m.cursor + 1 >= m.files.len() ==> m.cursor_moved(1).cursor
            == 0,
        m.panel == Panel::FileList && m.cursor > 0 ==> m.cursor_moved(-1).cursor == m.cursor - 1,
        m.panel == Panel::FileList && m.cursor == 0 && m.files.len() > 0 ==> m.cursor_moved(
            -1,
        ).cursor == m.files.len() - 1,
        m.cursor_moved(a).cursor_moved(b) == m.cursor_moved(a + b),
        m.cursor_moved(a) == (TuiModel { cursor: m.cursor_moved(a).cursor, ..m }),
{
    let len: int = if m.files.len() == 0 {
        1
    } else {
        m.files.len() as int
    };
    let c = m.cursor as int;
    vstd::arithmetic::div_mod::lemma_mod_bound(c + a, len);
    vstd::arithmetic::div_mod::lemma_add_mod_noop(c + a, b, len);
    vstd::arithmetic::div_mod::lemma_add_mod_noop((c + a) % len, b, len);
    vstd::arithmetic::div_mod::lemma_mod_twice(c + a, len);
    if c + 1 < len {
        vstd::arithmetic::div_mod::lemma_small_mod((c + 1) as nat, len as nat);
    } else {
        vstd::arithmetic::div_mod::lemma_mod_self_0(len);
    }
    if c > 0 {
        vstd::arithmetic::div_mod::lemma_small_mod((c - 1) as nat, len as nat);
    } else {
        vstd::arithmetic::div_mod::lemma_mod_add_multiples_vanish(-1, len);
        vstd::arithmetic::div_mod::lemma_small_mod((len - 1) as nat, len as nat);
    }
}

/// Selecting a file, or no longer, touches the file under the cursor and no other, and only its
/// mark; it does nothing where the settings have the keyboard.
pub proof fn law_one_file_is_toggled(m: TuiModel, k: int)
    requires
        0 <= k < m.files.len(),
    ensures
        m.file_toggled().files.len() == m.files.len(),
        m.file_toggled().files[k].selected == (m.files[k].selected != (m.panel == Panel::FileList
            && k == m.cursor)),
        m.file_toggled().files[k] == (EntryModel {
            selected: m.file_toggled().files[k].selected,
            ..m.files[k]
        }),
        m.file_toggled() == (TuiModel { files: m.file_toggled().files, ..m }),
{
}

/// Selecting all files, or none, touches the marks alone.
pub proof fn law_all_files_are_marked(m: TuiModel, sel: bool, k: int)
    requires
        0 <= k < m.files.len(),
    ensures
        m.all_selected(sel).files.len() == m.files.len(),
        m.all_selected(sel).files[k].selected == sel,
        m.all_selected(sel).files[k] == (EntryModel { selected: sel, ..m.files[k] }),
        m.all_selected(sel) == (TuiModel { files: m.all_selected(sel).files, ..m }),
{
}

/// The selected files of two lists one behind the other are those of the first and those of the
/// second; a list of one file has one selected file or none.
pub proof fn law_selected_files_add_up(a: Seq<EntryModel>, b: Seq<EntryModel>, e: EntryModel)
    ensures
        selected_of(a + b) == selected_of(a) + selected_of(b),
        e.selected ==> selected_of(seq![e]) == 1,
        !e.selected ==> selected_of(seq![e]) == 0,
    decreases b.len(),
{
    assert(seq![e].drop_last() =~= Seq::empty());
    assert(selected_of(seq![e].drop_last()) == 0);
    if b.len() == 0 {
        assert(a + b =~= a);
    } else {
        law_selected_files_add_up(a, b.drop_last(), e);
        assert((a + b).drop_last() =~= a + b.drop_last());
    }
}

proof fn lemma_chosen_places(m: TuiModel, n: int)
    requires
        0 <= n <= m.scanned.len(),
        n <= m.files.len(),
    ensures
        chosen(m.scanned, m.files, n).len() == selected_of(m.files.take(n)),
        forall|i: int|
            0 <= i < n && (#[trigger] m.files[i]).selected ==> {
                let place = selected_of(m.files.take(i)) as int;
                &&& place < chosen(m.scanned, m.files, n).len()
                &&& chosen(m.scanned, m.files, n)[place] == m.scanned[i].paths()
            },
    decreases n,
{
    if n == 0 {
        assert(m.files.take(0) =~= Seq::empty());
    } else {
        lemma_chosen_places(m, n - 1);
        assert(m.files.take(n).drop_last() =~= m.files.take(n - 1));
    }
}

/// The work is started on the selected files and on no others, in the order of the list: a
/// selected file stands behind as many as are selected before it.
pub proof fn law_work_is_started_on_the_selected(m: TuiModel, i: int)
    requires
        m.wf(),
        0 <= i < m.files.len(),
    ensures
        m.to_convert().len() == selected_of(m.files),
        m.files[i].selected ==> selected_of(m.files.take(i)) < m.to_convert().len(),
        m.files[i].selected ==> m.to_convert()[selected_of(m.files.take(i)) as int]
            == m.scanned[i].paths(),
{
    lemma_chosen_places(m, m.files.len() as int);
    assert(m.files.take(m.files.len() as int) =~= m.files);
}

/// When the work is started, nothing is left of an earlier one but its counts and its log.
pub proof fn law_start_forgets_the_end(m: TuiModel)
    ensures
        !m.begun().cancelled,
        !m.begun().finished,
        m.begun().summary is None,
        m.begun() == (TuiModel { cancelled: false, finished: false, summary: None, ..m }),
{
}

/// A report leaves the files alone that it is not about, and of those with its path all but the
/// first.
pub proof fn law_reports_touch_their_own_file(m: TuiModel, r: Report, k: int)
    requires
        0 <= k < m.files.len(),
        !is_about(r, m.files[k].path) || exists|j: int|
            0 <= j < k && (#[trigger] m.files[j]).path == m.files[k].path,
    ensures
        m.applied(r).files[k] == m.files[k],
{
    lemma_find_path(m.files, m.files[k].path, 0);
    match r {
        Report::Processing { path, .. } => {
            lemma_find_path(m.files, path, 0);
            let begun = with_status(m.files, path, StatusModel::Processing);
            lemma_find_path(begun, path, 0);
            if let (Some(i), Some(j)) = (find_path(m.files, path, 0), find_path(begun, path, 0)) {
                assert(begun[i].path == path);
                assert(m.files[j].path == path);
                assert(i == j);
            }
        },
        Report::PageProgress { path, .. } => {
            lemma_find_path(m.files, path, 0);
        },
        Report::Completed { path, .. } => {
            lemma_find_path(m.files, path, 0);
        },
        Report::Skipped { path, .. } => {
            lemma_find_path(m.files, path, 0);
        },
        Report::Error { path, .. } => {
            lemma_find_path(m.files, path, 0);
        },
        _ => {},
    }
}

/// The pages of a file are shown as they are reported: none where the file is begun, those of
/// the report where a page is done, and as they were where the file ends.
pub proof fn law_reported_pages_are_shown(m: TuiModel, r: Report, i: int)
    requires
        0 <= i < m.files.len(),
        is_about(r, m.files[i].path),
        forall|k: int| 0 <= k < i ==> (#[trigger] m.files[k]).path != m.files[i].path,
    ensures
        ({
            let e = m.applied(r).files[i];
            &&& match r {
                Report::Processing { .. } => e.status == StatusModel::Processing && e.current_page
                    == 0 && e.total_pages == 0,
                Report::PageProgress { current_page, total_pages, .. } => e.status
                    == m.files[i].status && e.current_page == current_page && e.total_pages
                    == total_pages,
                _ => e.current_page == m.files[i].current_page && e.total_pages
                    == m.files[i].total_pages,
            }
            &&& e.path == m.files[i].path
            &&& e.selected == m.files[i].selected
        }),
{
    let path = m.files[i].path;
    lemma_find_path(m.files, path, 0);
    lemma_find_path(with_status(m.files, path, StatusModel::Processing), path, 0);
}

/// The work goes on from the report of its start to that of its end. The counts are set back at
/// its start and else grow by the ends that are reported, each by its own; and reports of pages
/// leave the counts alone.
pub proof fn law_reports_drive_the_state(m: TuiModel, r: Report)
    ensures
        ({
            let after = m.applied(r);
            &&& after.processing <==> r is Started || (m.processing && !(r is Finished))
            &&& after.finished <==> m.finished || r is Finished
            &&& !(r is Finished) ==> after.summary == m.summary
            &&& r is Finished ==> after.summary is Some
            &&& r is Started ==> after.processed == 0 && after.errors == 0 && after.skipped == 0
            &&& !(r is Started) ==> after.processed - m.processed == if r is Completed {
                1int
            } else {
                0
            }
            &&& !(r is Started) ==> after.errors - m.errors == if r is Error {
                1int
            } else {
                0
            }
            &&& !(r is Started) ==> after.skipped - m.skipped == if r is Skipped {
                1int
            } else {
                0
            }
        }),
{
}

/// The log keeps the last hundred lines: a new line is its last, the lines before stay as they
/// were, and where there are too many the first one goes.
pub proof fn law_log_keeps_the_last_lines(m: TuiModel, r: Report)
    requires
        m.log.len() <= 100,
    ensures
        ({
            let after = m.applied(r).log;
            &&& match r {
                Report::Log { message } => after.len() > 0 && after.last() == message,
                Report::Started { total } => after.len() > 0 && after.last() == "Processing "@
                    + decimal(total) + " files..."@,
                Report::Error { path, message, .. } => after.len() > 0 && after.last()
                    == "✗ "@ + path + ": "@ + message,
                _ => after == m.log,
            }
            &&& r is Log || r is Started || r is Error ==> {
                &&& m.log.len() < 100 ==> after.drop_last() == m.log
                &&& m.log.len() == 100 ==> after.drop_last() == m.log.skip(1)
            }
        }),
{
    let told = m.told(r).log;
    if r is Log || r is Started || r is Error {
        assert(told.drop_last() =~= m.log);
        if m.log.len() == 100 {
            assert(told.skip(1).drop_last() =~= m.log.skip(1));
        }
    }
}

/// Taking reports in at one go is the same as taking them in bit by bit.
pub proof fn law_updates_in_parts(m: TuiModel, first: Seq<Report>, more: Seq<Report>)
    ensures
        m.applied_all(first + more) == m.applied_all(first).applied_all(more),
    decreases more.len(),
{
    if more.len() == 0 {
        assert(first + more =~= first);
    } else {
        assert((first + more).drop_last() =~= first + more.drop_last());
        law_updates_in_parts(m, first, more.drop_last());
    }
}

/// The screen starts with no files, no lines and nothing counted, on the list of files.
pub proof fn law_screen_starts_empty(config: AppConfig)
    ensures
        ({
            let m = TuiModel::initial(config);
            &&& m.config == config
            &&& m.files.len() == 0 && m.scanned.len() == 0 && m.log.len() == 0
            &&& m.processed == 0 && m.errors == 0 && m.skipped == 0
            &&& m.panel == Panel::FileList && m.cursor == 0
            &&& !m.processing && !m.finished && !m.cancelled && m.summary is None
            &&& m.to_convert().len() == 0
        }),
{
}

} // verus!
