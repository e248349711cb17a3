//! The state behind the window.

use crate::config::{config_errors, AppConfig, OutputFormat};
use crate::error::AppError;
use crate::mirror::ScannedFile;
use crate::path::{lossy_text, utf8_lossy};
use crate::text::{
    decimal, join_texts, joined, law_number_stands_out, law_signed_numbers_differ, push_decimal,
    push_signed, same_text, signed_decimal, text_views,
};
use crate::updater::UpdateInfo;
use crate::worker::{
    all_reports, check_disk_space, count_of, ended, estimate_fits, law_run_reports_match_ends,
    only_pages, required_bytes, FileOutcome, FileRun, ProgressUpdate, Report,
};
use vstd::prelude::*;
use vstd::string::*;
use vstd::utf8::*;

verus! {

// ---------------------------------------------------------------------------
// What the window shows
// ---------------------------------------------------------------------------

/// How far a file is.
#[derive(Debug, Clone, Copy, PartialEq, Eq, Structural)]
pub enum ItemStatus {
    Pending,
    Processing,
    Done,
    Skipped,
    Error,
}

/// The word for how far a file is.
pub open spec fn status_text(s: ItemStatus) -> Seq<char> {
    match s {
        ItemStatus::Pending => "pending"@,
        ItemStatus::Processing => "processing"@,
        ItemStatus::Done => "done"@,
        ItemStatus::Skipped => "skipped"@,
        ItemStatus::Error => "error"@,
    }
}

/// Gives the word for how far a file is.
pub fn status_word(s: ItemStatus) -> (r: &'static str)
    ensures
        r@ == status_text(s),
{
    match s {
        ItemStatus::Pending => "pending",
        ItemStatus::Processing => "processing",
        ItemStatus::Done => "done",
        ItemStatus::Skipped => "skipped",
        ItemStatus::Error => "error",
    }
}

/// A file in the window.
#[derive(Debug)]
pub struct FileItem {
    pub relative_path: String,
    pub status: ItemStatus,
    pub selected: bool,
    pub current_page: i32,
    pub total_pages: i32,
    pub error_message: String,
}

/// A file in the window, with its texts.
pub ghost struct ItemModel {
    pub path: Seq<char>,
    pub status: ItemStatus,
    pub selected: bool,
    pub current_page: i32,
    pub total_pages: i32,
    pub error: Seq<char>,
}

impl View for FileItem {
    type V = ItemModel;

    open spec fn view(&self) -> ItemModel {
        ItemModel {
            path: self.relative_path@,
            status: self.status,
            selected: self.selected,
            current_page: self.current_page,
            total_pages: self.total_pages,
            error: self.error_message@,
        }
    }
}

/// The files of a list.
pub open spec fn item_models(v: Seq<FileItem>) -> Seq<ItemModel> {
    v.map_values(|i: FileItem| i@)
}

/// All that the window shows.
#[derive(Debug)]
pub struct GuiState {
    pub items: Vec<FileItem>,
    pub source_path: String,
    pub output_path: String,
    pub status_text: String,
    pub scanning: bool,
    pub processing: bool,
    /// Whether the dialog at the end of the work is shown.
    pub show_dialog: bool,
    pub total_files: i32,
    pub selected_count: i32,
    pub processed_count: i32,
    pub error_count: i32,
    pub skipped_count: i32,
    /// Whether the work is to stop.
    pub cancel_flag: bool,
    /// The version of a newer release.
    pub update_version: Option<String>,
}

/// All that the window shows, with its texts.
pub ghost struct GuiModel {
    pub items: Seq<ItemModel>,
    pub source: Seq<char>,
    pub output: Seq<char>,
    pub status: Seq<char>,
    pub scanning: bool,
    pub processing: bool,
    pub dialog: bool,
    pub total: i32,
    pub selected: i32,
    pub processed: int,
    pub errors: int,
    pub skipped: int,
    pub cancelled: bool,
    pub update: Option<Seq<char>>,
}

impl View for GuiState {
    type V = GuiModel;

    open spec fn view(&self) -> GuiModel {
        GuiModel {
            items: item_models(self.items@),
            source: self.source_path@,
            output: self.output_path@,
            status: self.status_text@,
            scanning: self.scanning,
            processing: self.processing,
            dialog: self.show_dialog,
            total: self.total_files,
            selected: self.selected_count,
            processed: self.processed_count as int,
            errors: self.error_count as int,
            skipped: self.skipped_count as int,
            cancelled: self.cancel_flag,
            update: match self.update_version {
                Some(v) => Some(v@),
                None => None,
            },
        }
    }
}

/// The most files that are done while a percentage is told: a hundred times as many fit in
/// 32 bits.
pub const COUNT_LIMIT: i32 = 21_474_836;

/// The place of the first file with the given path, from place `from` on.
pub open spec fn find_item(items: Seq<ItemModel>, path: Seq<char>, from: int) -> Option<int>
    decreases items.len() - from,
{
    if from < 0 || from >= items.len() {
        None
    } else if items[from].path == path {
        Some(from)
    } else {
        find_item(items, path, from + 1)
    }
}

/// The number of selected files.
pub open spec fn selected_items(items: Seq<ItemModel>) -> nat
    decreases items.len(),
{
    if items.len() == 0 {
        0
    } else {
        selected_items(items.drop_last()) + (if items.last().selected {
            1nat
        } else {
            0
        })
    }
}

/// The entry of a file that was found.
pub open spec fn fresh_item(f: ScannedFile) -> ItemModel {
    ItemModel {
        path: utf8_lossy(f.relative_path@),
        status: ItemStatus::Pending,
        selected: true,
        current_page: 0,
        total_pages: 0,
        error: ""@,
    }
}

/// The path of the file that a report is about, if it is about one.
pub open spec fn file_of(r: Report) -> Option<Seq<char>> {
    match r {
        Report::Processing { path, .. } => Some(path),
        Report::PageProgress { path, .. } => Some(path),
        Report::Completed { path, .. } => Some(path),
        Report::Skipped { path, .. } => Some(path),
        Report::Error { path, .. } => Some(path),
        _ => None,
    }
}

/// Whether a report is about a file of the list.
pub open spec fn in_list(items: Seq<ItemModel>, r: Report) -> bool {
    file_of(r) matches Some(path) && find_item(items, path, 0) is Some
}

/// The entry of a file once a report on it came in.
pub open spec fn item_told(item: ItemModel, r: Report) -> ItemModel {
    match r {
        Report::Processing { .. } => ItemModel {
            status: ItemStatus::Processing,
            current_page: 0,
            total_pages: 0,
            ..item
        },
        Report::PageProgress { current_page, total_pages, .. } => ItemModel {
            current_page: current_page as i32,
            total_pages: total_pages as i32,
            ..item
        },
        Report::Completed { .. } => ItemModel { status: ItemStatus::Done, ..item },
        Report::Skipped { .. } => ItemModel { status: ItemStatus::Skipped, ..item },
        Report::Error { message, .. } => ItemModel {
            status: ItemStatus::Error,
            error: message,
            ..item
        },
        _ => item,
    }
}

impl GuiModel {
    /// Whether there is room for a report: the count that it adds to can still grow, and the
    /// percentage that it tells can be computed.
    pub open spec fn has_room_for(self, r: Report) -> bool {
        match r {
            Report::Processing { .. } => 0 <= self.processed <= COUNT_LIMIT,
            Report::PageProgress { .. } => 0 <= self.processed <= COUNT_LIMIT,
            Report::Completed { .. } => self.processed < i32::MAX,
            Report::Skipped { .. } => self.skipped < i32::MAX,
            Report::Error { .. } => self.errors < i32::MAX,
            _ => true,
        }
    }

    /// Whether there is room for some reports, one behind the other.
    pub open spec fn has_room_for_all(self, rs: Seq<Report>) -> bool
        decreases rs.len(),
    {
        rs.len() == 0 || (self.has_room_for_all(rs.drop_last()) && self.told_all(
            rs.drop_last(),
        ).has_room_for(rs.last()))
    }

    /// Whether each count can grow by `more` below the limit.
    pub open spec fn counts_fit(self, more: int) -> bool {
        &&& 0 <= self.processed && self.processed + more <= COUNT_LIMIT
        &&& 0 <= self.errors && self.errors + more <= COUNT_LIMIT
        &&& 0 <= self.skipped && self.skipped + more <= COUNT_LIMIT
    }

    /// The window with another status line.
    pub open spec fn saying(self, status: Seq<char>) -> GuiModel {
        GuiModel { status, ..self }
    }

    /// How much of the work is done, in percent.
    pub open spec fn percent(self) -> int {
        if self.total > 0 {
            (self.processed * 100) / (self.total as int)
        } else {
            0
        }
    }

    /// How much of the work is done, in words.
    pub open spec fn done_words(self) -> Seq<char> {
        "  "@ + signed_decimal(self.processed) + "/"@ + signed_decimal(self.total as int) + "  "@
            + signed_decimal(self.percent()) + "%"@
    }

    /// The window once a scan ended.
    pub open spec fn scanned(self, result: Result<Vec<ScannedFile>, AppError>) -> GuiModel {
        match result {
            Ok(files) => GuiModel {
                items: files@.map_values(|f: ScannedFile| fresh_item(f)),
                total: files@.len() as i32,
                selected: files@.len() as i32,
                scanning: false,
                status: "Found "@ + decimal(files@.len()) + " PDFs. Click Start to convert."@,
                ..self
            },
            Err(e) => GuiModel { scanning: false, status: "Scan error: "@ + e.text(), ..self },
        }
    }

    /// The window with a file selected, or no longer selected.
    pub open spec fn file_toggled(self, idx: i32) -> GuiModel {
        if 0 <= idx < self.items.len() {
            let item = self.items[idx as int];
            let items = self.items.update(
                idx as int,
                ItemModel { selected: !item.selected, ..item },
            );
            GuiModel { items, selected: selected_items(items) as i32, ..self }
        } else {
            self
        }
    }

    /// The window with all files selected, or none.
    pub open spec fn all_toggled(self, sel: bool) -> GuiModel {
        let items = self.items.map_values(|i: ItemModel| ItemModel { selected: sel, ..i });
        GuiModel { items, selected: selected_items(items) as i32, ..self }
    }

    /// The window when the work begins.
    pub open spec fn begun(self, total: nat, dpi: nat) -> GuiModel {
        GuiModel {
            cancelled: false,
            dialog: false,
            processing: true,
            processed: 0,
            errors: 0,
            skipped: 0,
            status: "Processing "@ + decimal(total) + " files at "@ + decimal(dpi) + " DPI…"@,
            ..self
        }
    }

    /// The files once a report came in.
    pub open spec fn items_told(self, r: Report) -> Seq<ItemModel> {
        match file_of(r) {
            Some(path) => match find_item(self.items, path, 0) {
                Some(i) => self.items.update(i, item_told(self.items[i], r)),
                None => self.items,
            },
            None => self.items,
        }
    }

    /// The window once a report came in.
    pub open spec fn told(self, r: Report) -> GuiModel {
        let m = GuiModel { items: self.items_told(r), ..self };
        match r {
            Report::Started { total } => GuiModel {
                total: total as i32,
                status: "Processing 0/"@ + decimal(total) + "…"@,
                ..m
            },
            Report::Processing { path, .. } => m.saying("Processing: "@ + path + m.done_words()),
            Report::PageProgress { path, current_page, total_pages } => m.saying(
                "Processing: "@ + path + ", Converted page "@ + decimal(current_page) + "/"@
                    + decimal(total_pages) + m.done_words(),
            ),
            Report::Completed { path, .. } => GuiModel {
                processed: m.processed + 1,
                status: "Done "@ + signed_decimal(m.processed + 1) + "/"@ + signed_decimal(
                    m.total as int,
                ) + ": "@ + path,
                ..m
            },
            Report::Skipped { path, .. } => GuiModel {
                skipped: m.skipped + 1,
                status: "Skipped: "@ + path,
                ..m
            },
            Report::Error { path, .. } => GuiModel {
                errors: m.errors + 1,
                status: "Error: "@ + path,
                ..m
            },
            Report::Log { .. } => m,
            Report::Finished { .. } => m,
        }
    }

    /// The window after some reports.
    pub open spec fn told_all(self, rs: Seq<Report>) -> GuiModel
        decreases rs.len(),
    {
        if rs.len() == 0 {
            self
        } else {
            self.told_all(rs.drop_last()).told(rs.last())
        }
    }

    /// Whether one of some reports is about a file of the list, as it is when the report comes in.
    pub open spec fn some_in_list(self, rs: Seq<Report>) -> bool
        decreases rs.len(),
    {
        rs.len() > 0 && (self.some_in_list(rs.drop_last()) || in_list(
            self.told_all(rs.drop_last()).items,
            rs.last(),
        ))
    }

    /// The window when the work is over.
    pub open spec fn ended(self) -> GuiModel {
        GuiModel {
            processing: false,
            cancelled: false,
            dialog: true,
            status: "Complete — "@ + signed_decimal(self.processed) + "/"@ + signed_decimal(
                self.total as int,
            ) + " OK, "@ + signed_decimal(self.errors) + " errors, "@ + signed_decimal(
                self.skipped,
            ) + " skipped"@,
            ..self
        }
    }

    /// How many files are counted as ended in the given way.
    pub open spec fn counted(self, which: FileOutcome) -> int {
        match which {
            FileOutcome::Done => self.processed,
            FileOutcome::Failed => self.errors,
            FileOutcome::Skipped => self.skipped,
            FileOutcome::NotReached => 0,
        }
    }
}

/// Whether a report tells that the work is over.
pub open spec fn some_finished(rs: Seq<Report>) -> bool {
    exists|k: int| 0 <= k < rs.len() && (#[trigger] rs[k]) is Finished
}

// ---------------------------------------------------------------------------
// What changes it
// ---------------------------------------------------------------------------

impl GuiState {
    /// The window when the program starts.
    pub fn new() -> (s: GuiState)
        ensures
            s@ == (GuiModel {
                items: Seq::empty(),
                source: ""@,
                output: ""@,
                status: ""@,
                scanning: false,
                processing: false,
                dialog: false,
                total: 0,
                selected: 0,
                processed: 0,
                errors: 0,
                skipped: 0,
                cancelled: false,
                update: None,
            }),
    {
        let s: GuiState = GuiState {
            items: Vec::new(),
            source_path: "".to_owned(),
            output_path: "".to_owned(),
            status_text: "".to_owned(),
            scanning: false,
            processing: false,
            show_dialog: false,
            total_files: 0,
            selected_count: 0,
            processed_count: 0,
            error_count: 0,
            skipped_count: 0,
            cancel_flag: false,
            update_version: None,
        };
        assert(s@.items =~= Seq::empty());
        s
    }

    /// Takes the source folder that was chosen.
    pub fn source_chosen(&mut self, folder: &[u8])
        ensures
            final(self)@ == (GuiModel {
                source: utf8_lossy(folder@),
                status: "Source selected. Click Scan."@,
                ..old(self)@
            }),
    {
        self.source_path = lossy_text(folder);
        self.status_text = "Source selected. Click Scan.".to_owned();
    }

    /// Takes the output folder that was chosen.
    pub fn output_chosen(&mut self, folder: &[u8])
        ensures
            final(self)@ == (GuiModel {
                output: utf8_lossy(folder@),
                status: "Output set. Ready to scan."@,
                ..old(self)@
            }),
    {
        self.output_path = lossy_text(folder);
        self.status_text = "Output set. Ready to scan.".to_owned();
    }

    /// Begins a scan.
    pub fn begin_scan(&mut self)
        ensures
            final(self)@ == (GuiModel {
                scanning: true,
                status: "Scanning for PDFs…"@,
                ..old(self)@
            }),
    {
        self.scanning = true;
        self.status_text = "Scanning for PDFs…".to_owned();
    }

    /// Ends a scan.
    pub fn scan_ended(&mut self, result: &Result<Vec<ScannedFile>, AppError>)
        ensures
            final(self)@ == old(self)@.scanned(*result),
    {
        match result {
            Ok(files) => {
                let ghost models = files@.map_values(|f: ScannedFile| fresh_item(f));
                let mut items: Vec<FileItem> = Vec::new();
                let mut i: usize = 0;
                while i < files.len()
                    invariant
                        i <= files.len(),
                        models == files@.map_values(|f: ScannedFile| fresh_item(f)),
                        item_models(items@) == models.take(i as int),
                    decreases files.len() - i,
                {
                    let ghost before = item_models(items@);
                    let item: FileItem = FileItem {
                        relative_path: lossy_text(files[i].relative_path.as_slice()),
                        status: ItemStatus::Pending,
                        selected: true,
                        current_page: 0,
                        total_pages: 0,
                        error_message: "".to_owned(),
                    };
                    assert(item@ == models[i as int]);
                    items.push(item);
                    assert(item_models(items@) =~= before.push(models[i as int]));
                    assert(models.take(i + 1) =~= before.push(models[i as int]));
                    i = i + 1;
                }
                assert(models.take(i as int) =~= models);
                self.items = items;
                self.total_files = files.len() as i32;
                self.selected_count = files.len() as i32;
                self.scanning = false;
                let mut text: String = "Found ".to_owned();
                push_decimal(&mut text, files.len() as u64);
                text.append(" PDFs. Click Start to convert.");
                self.status_text = text;
            },
            Err(e) => {
                self.scanning = false;
                let mut text: String = "Scan error: ".to_owned();
                text.append(e.message().as_str());
                self.status_text = text;
            },
        }
    }

    /// Says something in the status line.
    pub fn say(&mut self, text: String)
        ensures
            final(self)@ == old(self)@.saying(text@),
    {
        self.status_text = text;
    }

    /// Begins the work on `total` files.
    pub fn begin_work(&mut self, total: usize, dpi: u32)
        ensures
            final(self)@ == old(self)@.begun(total as nat, dpi as nat),
            final(self)@.counts_fit(0),
    {
        self.cancel_flag = false;
        self.show_dialog = false;
        self.processing = true;
        self.processed_count = 0;
        self.error_count = 0;
        self.skipped_count = 0;
        let mut text: String = "Processing ".to_owned();
        push_decimal(&mut text, total as u64);
        text.append(" files at ");
        push_decimal(&mut text, dpi as u64);
        text.append(" DPI…");
        self.status_text = text;
    }

    /// Asks the work to stop.
    pub fn stop_conversion(&mut self)
        ensures
            final(self)@ == (GuiModel { cancelled: true, ..old(self)@ }),
    {
        self.cancel_flag = true;
    }

    fn count_selected(&self) -> (r: usize)
        ensures
            r == selected_items(self@.items),
    {
        let ghost items = self@.items;
        let mut n: usize = 0;
        let mut i: usize = 0;
        assert(items.take(0) =~= Seq::empty());
        while i < self.items.len()
            invariant
                i <= self.items.len(),
                items == item_models(self.items@),
                n == selected_items(items.take(i as int)),
                n <= i,
            decreases self.items.len() - i,
        {
            assert(items.take(i + 1).drop_last() =~= items.take(i as int));
            assert(items.take(i + 1).last().selected == self.items@[i as int].selected);
            if self.items[i].selected {
                n = n + 1;
            }
            i = i + 1;
        }
        assert(items.take(i as int) =~= items);
        n
    }

    /// Selects a file, or no longer. Nothing happens where there is no such file.
    pub fn toggle_file(&mut self, idx: i32)
        ensures
            final(self)@ == old(self)@.file_toggled(idx),
    {
        if idx >= 0 && (idx as usize) < self.items.len() {
            let i: usize = idx as usize;
            let sel: bool = !self.items[i].selected;
            let ghost before = self@.items;
            self.items[i].selected = sel;
            assert(self@.items =~= before.update(
                i as int,
                ItemModel { selected: sel, ..before[i as int] },
            ));
            self.selected_count = self.count_selected() as i32;
        }
    }

    /// Selects all files, or none.
    pub fn toggle_all_files(&mut self, sel: bool)
        ensures
            final(self)@ == old(self)@.all_toggled(sel),
    {
        let ghost before = self@;
        let mut i: usize = 0;
        while i < self.items.len()
            invariant
                i <= self.items.len(),
                self.items.len() == before.items.len(),
                self@ == (GuiModel { items: self@.items, ..before }),
                forall|k: int|
                    0 <= k < i ==> self@.items[k] == (ItemModel { selected: sel, ..before.items[k] }),
                forall|k: int| i <= k < before.items.len() ==> self@.items[k] == before.items[k],
            decreases self.items.len() - i,
        {
            let ghost current = self@.items;
            self.items[i].selected = sel;
            assert(self@.items =~= current.update(
                i as int,
                ItemModel { selected: sel, ..current[i as int] },
            ));
            i = i + 1;
        }
        assert(self@.items =~= before.all_toggled(sel).items);
        self.selected_count = self.count_selected() as i32;
    }

    fn find_index(&self, path: &str) -> (r: Option<usize>)
        ensures
            match r {
                Some(i) => i < self.items.len() && find_item(self@.items, path@, 0) == Some(i as int),
                None => find_item(self@.items, path@, 0) is None,
            },
    {
        let mut i: usize = 0;
        while i < self.items.len()
            invariant
                i <= self.items.len(),
                find_item(self@.items, path@, 0) == find_item(self@.items, path@, i as int),
            decreases self.items.len() - i,
        {
            assert(self@.items[i as int].path == self.items@[i as int].relative_path@);
            if same_text(self.items[i].relative_path.as_str(), path) {
                return Some(i);
            }
            i = i + 1;
        }
        None
    }

    fn push_done(&self, out: &mut String)
        requires
            0 <= self@.processed <= COUNT_LIMIT,
        ensures
            final(out)@ == old(out)@ + self@.done_words(),
    {
        out.append("  ");
        push_signed(out, self.processed_count);
        out.append("/");
        push_signed(out, self.total_files);
        out.append("  ");
        let percent: i32 = if self.total_files > 0 {
            let hundredfold: u32 = self.processed_count as u32 * 100;
            let total: u32 = self.total_files as u32;
            proof {
                vstd::arithmetic::div_mod::lemma_div_is_ordered_by_denominator(
                    hundredfold as int,
                    1,
                    total as int,
                );
                vstd::arithmetic::div_mod::lemma_div_pos_is_pos(hundredfold as int, total as int);
            }
            (hundredfold / total) as i32
        } else {
            0
        };
        push_signed(out, percent);
        out.append("%");
        assert(out@ =~= old(out)@ + self@.done_words());
    }

    fn change_item(&mut self, i: usize, update: &ProgressUpdate)
        requires
            i < old(self).items.len(),
        ensures
            final(self)@ == (GuiModel {
                items: old(self)@.items.update(
                    i as int,
                    item_told(old(self)@.items[i as int], update@),
                ),
                ..old(self)@
            }),
    {
        match update {
            ProgressUpdate::Processing { .. } => {
                self.items[i].status = ItemStatus::Processing;
                self.items[i].current_page = 0;
                self.items[i].total_pages = 0;
            },
            ProgressUpdate::PageProgress { current_page, total_pages, .. } => {
                self.items[i].current_page = *current_page as i32;
                self.items[i].total_pages = *total_pages as i32;
            },
            ProgressUpdate::Completed { .. } => {
                self.items[i].status = ItemStatus::Done;
            },
            ProgressUpdate::Skipped { .. } => {
                self.items[i].status = ItemStatus::Skipped;
            },
            ProgressUpdate::Error { error_message, .. } => {
                self.items[i].status = ItemStatus::Error;
                self.items[i].error_message = error_message.as_str().to_owned();
            },
            _ => {},
        }
        assert(self@.items =~= old(self)@.items.update(
            i as int,
            item_told(old(self)@.items[i as int], update@),
        ));
    }

    fn tell_items(&mut self, path: &str, update: &ProgressUpdate) -> (changed: bool)
        requires
            file_of(update@) == Some(path@),
        ensures
            final(self)@ == (GuiModel { items: old(self)@.items_told(update@), ..old(self)@ }),
            changed == in_list(old(self)@.items, update@),
    {
        match self.find_index(path) {
            Some(i) => {
                self.change_item(i, update);
                true
            },
            None => false,
        }
    }

    /// Takes a report in. The result tells whether it is about a file of the list.
    pub fn take_update(&mut self, update: &ProgressUpdate) -> (changed: bool)
        requires
            old(self)@.has_room_for(update@),
        ensures
            final(self)@ == old(self)@.told(update@),
            changed == in_list(old(self)@.items, update@),
    {
        match update {
            ProgressUpdate::Started { total } => {
                self.total_files = *total as i32;
                let mut text: String = "Processing 0/".to_owned();
                push_decimal(&mut text, *total as u64);
                text.append("…");
                self.status_text = text;
                false
            },
            ProgressUpdate::Processing { relative_path, .. } => {
                let changed: bool = self.tell_items(relative_path.as_str(), update);
                let mut text: String = "Processing: ".to_owned();
                text.append(relative_path.as_str());
                self.push_done(&mut text);
                self.status_text = text;
                changed
            },
            ProgressUpdate::PageProgress { relative_path, current_page, total_pages } => {
                let changed: bool = self.tell_items(relative_path.as_str(), update);
                let mut text: String = "Processing: ".to_owned();
                text.append(relative_path.as_str());
                text.append(", Converted page ");
                push_decimal(&mut text, *current_page as u64);
                text.append("/");
                push_decimal(&mut text, *total_pages as u64);
                self.push_done(&mut text);
                self.status_text = text;
                changed
            },
            ProgressUpdate::Completed { relative_path, .. } => {
                let changed: bool = self.tell_items(relative_path.as_str(), update);
                self.processed_count = self.processed_count + 1;
                let mut text: String = "Done ".to_owned();
                push_signed(&mut text, self.processed_count);
                text.append("/");
                push_signed(&mut text, self.total_files);
                text.append(": ");
                text.append(relative_path.as_str());
                self.status_text = text;
                changed
            },
            ProgressUpdate::Skipped { relative_path, .. } => {
                let changed: bool = self.tell_items(relative_path.as_str(), update);
                self.skipped_count = self.skipped_count + 1;
                let mut text: String = "Skipped: ".to_owned();
                text.append(relative_path.as_str());
                self.status_text = text;
                changed
            },
            ProgressUpdate::Error { relative_path, .. } => {
                let changed: bool = self.tell_items(relative_path.as_str(), update);
                self.error_count = self.error_count + 1;
                let mut text: String = "Error: ".to_owned();
                text.append(relative_path.as_str());
                self.status_text = text;
                changed
            },
            ProgressUpdate::Log { .. } => false,
            ProgressUpdate::Finished { .. } => false,
        }
    }

    /// Ends the work.
    fn end_work(&mut self)
        ensures
            final(self)@ == old(self)@.ended(),
    {
        self.processing = false;
        self.cancel_flag = false;
        let mut text: String = "Complete — ".to_owned();
        push_signed(&mut text, self.processed_count);
        text.append("/");
        push_signed(&mut text, self.total_files);
        text.append(" OK, ");
        push_signed(&mut text, self.error_count);
        text.append(" errors, ");
        push_signed(&mut text, self.skipped_count);
        text.append(" skipped");
        self.status_text = text;
        self.show_dialog = true;
    }

    /// Tells whether there is room for the reports that have come.
    pub fn has_room(&self, updates: &Vec<ProgressUpdate>) -> (r: bool)
        ensures
            r == self@.has_room_for_all(crate::worker::reports(updates@)),
    {
        let ghost rs = crate::worker::reports(updates@);
        let mut processed: i32 = self.processed_count;
        let mut skipped: i32 = self.skipped_count;
        let mut errors: i32 = self.error_count;
        let mut i: usize = 0;
        assert(rs.take(0) =~= Seq::empty());
        while i < updates.len()
            invariant
                i <= updates.len(),
                rs == crate::worker::reports(updates@),
                self@.has_room_for_all(rs.take(i as int)),
                processed == self@.told_all(rs.take(i as int)).processed,
                skipped == self@.told_all(rs.take(i as int)).skipped,
                errors == self@.told_all(rs.take(i as int)).errors,
            decreases updates.len() - i,
        {
            let ghost upto = rs.take(i + 1);
            assert(upto.drop_last() =~= rs.take(i as int));
            assert(upto.last() == updates@[i as int]@);
            let fits: bool = match &updates[i] {
                ProgressUpdate::Processing { .. } => 0 <= processed && processed <= COUNT_LIMIT,
                ProgressUpdate::PageProgress { .. } => 0 <= processed && processed <= COUNT_LIMIT,
                ProgressUpdate::Completed { .. } => processed < i32::MAX,
                ProgressUpdate::Skipped { .. } => skipped < i32::MAX,
                ProgressUpdate::Error { .. } => errors < i32::MAX,
                _ => true,
            };
            if !fits {
                proof {
                    if self@.has_room_for_all(rs) {
                        lemma_room_for_first(self@, rs, i + 1);
                    }
                }
                return false;
            }
            match &updates[i] {
                ProgressUpdate::Completed { .. } => {
                    processed = processed + 1;
                },
                ProgressUpdate::Skipped { .. } => {
                    skipped = skipped + 1;
                },
                ProgressUpdate::Error { .. } => {
                    errors = errors + 1;
                },
                _ => {},
            }
            i = i + 1;
        }
        assert(rs.take(i as int) =~= rs);
        true
    }

    /// Takes in the reports that have come, and ends the work where one of them tells that it
    /// is over. The result tells whether one of them is about a file of the list.
    pub fn poll(&mut self, updates: &Vec<ProgressUpdate>) -> (changed: bool)
        requires
            old(self)@.has_room_for_all(crate::worker::reports(updates@)),
        ensures
            ({
                let rs = crate::worker::reports(updates@);
                let told = old(self)@.told_all(rs);
                final(self)@ == if some_finished(rs) {
                    told.ended()
                } else {
                    told
                }
            }),
            changed == old(self)@.some_in_list(crate::worker::reports(updates@)),
    {
        let ghost rs = crate::worker::reports(updates@);
        let mut changed: bool = false;
        let mut finished: bool = false;
        let mut i: usize = 0;
        assert(rs.take(0) =~= Seq::empty());
        while i < updates.len()
            invariant
                i <= updates.len(),
                rs == crate::worker::reports(updates@),
                self@ == old(self)@.told_all(rs.take(i as int)),
                old(self)@.has_room_for_all(rs),
                finished == some_finished(rs.take(i as int)),
                changed == old(self)@.some_in_list(rs.take(i as int)),
            decreases updates.len() - i,
        {
            let update: &ProgressUpdate = &updates[i];
            let ghost r = update@;
            let ghost upto = rs.take(i + 1);
            assert(upto.drop_last() =~= rs.take(i as int));
            assert(upto.last() == r);
            proof {
                lemma_room_for_first(old(self)@, rs, i + 1);
            }
            if self.take_update(update) {
                changed = true;
            }
            let over: bool = matches!(update, ProgressUpdate::Finished { .. });
            assert(over == (r is Finished));
            assert(some_finished(upto) == (finished || over)) by {
                if finished {
                    let k = choose|k: int|
                        0 <= k < rs.take(i as int).len() && (#[trigger] rs.take(i as int)[k]) is Finished;
                    assert(upto[k] is Finished);
                } else if over {
                    assert(upto[i as int] is Finished);
                } else if some_finished(upto) {
                    let k = choose|k: int| 0 <= k < upto.len() && (#[trigger] upto[k]) is Finished;
                    assert(rs.take(i as int)[k] is Finished);
                }
            }
            finished = finished || over;
            i = i + 1;
        }
        assert(rs.take(i as int) =~= rs);
        if finished {
            self.end_work();
        }
        changed
    }

    /// Shows that there is a newer release.
    pub fn update_found(&mut self, info: &UpdateInfo)
        ensures
            final(self)@ == (GuiModel { update: Some(info.version@), ..old(self)@ }),
    {
        self.update_version = Some(info.version.as_str().to_owned());
    }
}

// ---------------------------------------------------------------------------
// The start of the work
// ---------------------------------------------------------------------------

/// What the controls of the window are set to.
#[derive(Debug)]
pub struct Controls {
    /// The place of the format in its list.
    pub output_format_index: i32,
    pub dpi: u32,
    pub quality: u8,
    pub adaptive_encoding: bool,
    /// The score that a page shall reach: the bits of an IEEE 754 double.
    pub quality_target: u64,
    pub svg_precision: u8,
    pub svg_no_text: bool,
    pub svg_strip_background: bool,
    pub overwrite: bool,
}

/// Whether the settings are those of the controls and the two folders.
pub open spec fn is_set_to(c: AppConfig, source: Seq<char>, output: Seq<char>, k: Controls) -> bool {
    &&& c.source_path@ == encode_utf8(source)
    &&& c.output_path@ == encode_utf8(output)
    &&& c.format == if k.output_format_index == 1 {
        OutputFormat::Svg
    } else {
        OutputFormat::Webp
    }
    &&& c.dpi == k.dpi
    &&& c.quality == k.quality
    &&& c.adaptive_encoding == k.adaptive_encoding
    &&& c.quality_target == k.quality_target
    &&& c.svg_precision == k.svg_precision
    &&& c.svg_no_text == k.svg_no_text
    &&& c.svg_strip_background == k.svg_strip_background
    &&& c.overwrite == k.overwrite
}

impl GuiState {
    /// Gives the settings by the controls and the two folders.
    pub fn config(&self, controls: &Controls) -> (c: AppConfig)
        ensures
            is_set_to(c, self@.source, self@.output, *controls),
    {
        AppConfig {
            source_path: vstd::slice::slice_to_vec(self.source_path.as_str().as_bytes()),
            output_path: vstd::slice::slice_to_vec(self.output_path.as_str().as_bytes()),
            format: if controls.output_format_index == 1 {
                OutputFormat::Svg
            } else {
                OutputFormat::Webp
            },
            dpi: controls.dpi,
            quality: controls.quality,
            adaptive_encoding: controls.adaptive_encoding,
            quality_target: controls.quality_target,
            svg_precision: controls.svg_precision,
            svg_no_text: controls.svg_no_text,
            svg_strip_background: controls.svg_strip_background,
            overwrite: controls.overwrite,
        }
    }
}

/// What is wrong with the settings, in words; `None` where nothing is. `present` and `is_dir`
/// tell of the source folder.
pub fn check_config(config: &AppConfig, present: bool, is_dir: bool) -> (r: Option<String>)
    ensures
        match r {
            Some(t) => config_errors(*config, present, is_dir).len() > 0 && t@ == "Config error: "@
                + joined(config_errors(*config, present, is_dir), ", "@),
            None => config_errors(*config, present, is_dir).len() == 0,
        },
{
    let errors: Vec<String> = config.validate(present, is_dir);
    if errors.len() == 0 {
        return None;
    }
    let mut text: String = "Config error: ".to_owned();
    text.append(join_texts(&errors, 0, ", ").as_str());
    assert(text_views(errors@).skip(0) =~= config_errors(*config, present, is_dir));
    Some(text)
}

/// The pages that a file is taken to have when space is checked.
pub const PAGES_PER_FILE: u32 = 10;

/// Why the work cannot begin on the files that were found, given the bytes that are free at
/// the output, in words; `None` where it can.
pub fn check_files(
    config: &AppConfig,
    scan: &Result<Vec<ScannedFile>, AppError>,
    free: Option<u64>,
) -> (r: Option<String>)
    requires
        scan matches Ok(files) ==> estimate_fits(
            files.len() as nat,
            PAGES_PER_FILE as nat,
            config.dpi as nat,
        ),
    ensures
        match *scan {
            Err(e) => r matches Some(t) && t@ == "Scan error: "@ + e.text(),
            Ok(files) => {
                let need = required_bytes(
                    files.len() as nat,
                    PAGES_PER_FILE as nat,
                    config.dpi as nat,
                );
                if files.len() == 0 {
                    r matches Some(t) && t@ == "No files"@
                } else if free matches Some(available) && available < need {
                    r matches Some(t) && exists|e: AppError|
                        {
                            &&& t@ == "Disk space: "@ + #[trigger] e.text()
                            &&& e matches AppError::InsufficientDiskSpace {
                                need: n,
                                available: a,
                                path,
                            } && n == need && Some(a) == free && path@ == config.output_path@
                        }
                } else {
                    r is None
                }
            },
        },
{
    match scan {
        Err(e) => {
            let mut text: String = "Scan error: ".to_owned();
            text.append(e.message().as_str());
            Some(text)
        },
        Ok(files) => {
            if files.len() == 0 {
                return Some("No files".to_owned());
            }
            match check_disk_space(
                config.output_path.as_slice(),
                files.len(),
                PAGES_PER_FILE,
                config.dpi,
                free,
            ) {
                Ok(_) => None,
                Err(e) => {
                    let mut text: String = "Disk space: ".to_owned();
                    text.append(e.message().as_str());
                    assert(text@ == "Disk space: "@ + e.text());
                    Some(text)
                },
            }
        },
    }
}

// ---------------------------------------------------------------------------
// What holds of it
// ---------------------------------------------------------------------------

proof fn lemma_room_for_first(m: GuiModel, rs: Seq<Report>, n: int)
    requires
        m.has_room_for_all(rs),
        0 <= n <= rs.len(),
    ensures
        m.has_room_for_all(rs.take(n)),
    decreases rs.len(),
{
    if n < rs.len() {
        lemma_room_for_first(m, rs.drop_last(), n);
        assert(rs.drop_last().take(n) =~= rs.take(n));
    } else {
        assert(rs.take(n) =~= rs);
    }
}

/// While the counts stay below the limit there is room for all reports.
pub proof fn law_small_counts_leave_room(m: GuiModel, rs: Seq<Report>)
    requires
        m.counts_fit(rs.len() as int),
    ensures
        m.has_room_for_all(rs),
        m.told_all(rs).counts_fit(0),
    decreases rs.len(),
{
    lemma_counts_grow(m, rs);
    if rs.len() > 0 {
        law_small_counts_leave_room(m, rs.drop_last());
        lemma_counts_grow(m, rs.drop_last());
    }
}

proof fn lemma_counts_grow(m: GuiModel, rs: Seq<Report>)
    ensures
        m.processed <= m.told_all(rs).processed <= m.processed + rs.len(),
        m.errors <= m.told_all(rs).errors <= m.errors + rs.len(),
        m.skipped <= m.told_all(rs).skipped <= m.skipped + rs.len(),
    decreases rs.len(),
{
    if rs.len() > 0 {
        lemma_counts_grow(m, rs.drop_last());
    }
}

/// Selecting a file, or no longer, twice leaves the list as it was.
pub proof fn law_toggle_file_undoes_itself(m: GuiModel, idx: i32)
    ensures
        m.file_toggled(idx).file_toggled(idx).items == m.items,
{
    assert(m.file_toggled(idx).file_toggled(idx).items =~= m.items);
}

/// The counters of the window count the ends that are reported.
pub proof fn law_window_counts_reports(m: GuiModel, rs: Seq<Report>, which: FileOutcome)
    requires
        which != FileOutcome::NotReached,
    ensures
        m.told_all(rs).counted(which) == m.counted(which) + count_of(rs, which),
    decreases rs.len(),
{
    if rs.len() > 0 {
        law_window_counts_reports(m, rs.drop_last(), which);
    }
}

/// Taking reports in at one go is the same as taking them in bit by bit.
pub proof fn law_reports_in_parts(m: GuiModel, first: Seq<Report>, then_more: Seq<Report>)
    ensures
        m.told_all(first + then_more) == m.told_all(first).told_all(then_more),
    decreases then_more.len(),
{
    if then_more.len() == 0 {
        assert(first + then_more =~= first);
    } else {
        assert((first + then_more).drop_last() =~= first + then_more.drop_last());
        law_reports_in_parts(m, first, then_more.drop_last());
    }
}

/// At the end of the work the window tells how many files ended in which way, in whatever order
/// the reports came in, and with whatever reports of pages between them.
pub proof fn law_window_counts_run(
    m: GuiModel,
    total: nat,
    dpi: nat,
    runs: Seq<FileRun>,
    pages: Seq<Report>,
    rs: Seq<Report>,
    which: FileOutcome,
)
    requires
        which != FileOutcome::NotReached,
        only_pages(pages),
        rs.to_multiset() == (all_reports(runs) + pages).to_multiset(),
    ensures
        m.begun(total, dpi).told_all(rs).ended().counted(which) == ended(runs, which),
{
    law_window_counts_reports(m.begun(total, dpi), rs, which);
    law_run_reports_match_ends(runs, pages, rs, which);
}

/// The words for how far a file is differ.
pub proof fn law_status_words_differ(a: ItemStatus, b: ItemStatus)
    requires
        status_text(a) == status_text(b),
    ensures
        a == b,
{
    reveal_strlit("pending");
    reveal_strlit("processing");
    reveal_strlit("done");
    reveal_strlit("skipped");
    reveal_strlit("error");
    assert("pending"@.len() == 7 && "pending"@[2] == 'n');
    assert("skipped"@.len() == 7 && "skipped"@[2] == 'i');
    assert("processing"@.len() == 10);
    assert("done"@.len() == 4);
    assert("error"@.len() == 5);
    assert(status_text(a).len() == status_text(b).len());
    assert(status_text(a)[2] == status_text(b)[2]);
}

/// Files that were found are shown by their paths, one for one and in their order, all of them
/// selected and none of them begun.
pub proof fn law_found_files_are_shown(m: GuiModel, files: Vec<ScannedFile>, k: int)
    requires
        0 <= k < files@.len() <= i32::MAX,
    ensures
        ({
            let after = m.scanned(Ok(files));
            let i = after.items[k];
            &&& after.items.len() == files@.len()
            &&& i.path == utf8_lossy(files@[k].relative_path@)
            &&& i.selected
            &&& i.status == ItemStatus::Pending
            &&& i.current_page == 0
            &&& i.total_pages == 0
            &&& i.error.len() == 0
            &&& after.total == files@.len()
            &&& after.selected == files@.len()
            &&& !after.scanning
            &&& after.processing == m.processing
            &&& after.source == m.source
            &&& after.output == m.output
        }),
{
    reveal_strlit("");
}

/// A scan that fails leaves the files that are shown as they are and tells why it failed.
pub proof fn law_failed_scan_leaves_the_files(m: GuiModel, e: AppError)
    ensures
        ({
            let after = m.scanned(Err(e));
            &&& !after.scanning
            &&& after.status == "Scan error: "@ + e.text()
            &&& after == (GuiModel { scanning: false, status: after.status, ..m })
        }),
{
}

/// The selected files of two lists one behind the other are those of the first and those of the
/// second; a list of one file has one selected file or none.
pub proof fn law_selected_items_add_up(a: Seq<ItemModel>, b: Seq<ItemModel>, i: ItemModel)
    ensures
        selected_items(a + b) == selected_items(a) + selected_items(b),
        i.selected ==> selected_items(seq![i]) == 1,
        !i.selected ==> selected_items(seq![i]) == 0,
    decreases b.len(),
{
    assert(seq![i].drop_last() =~= Seq::empty());
    assert(selected_items(seq![i].drop_last()) == 0);
    if b.len() == 0 {
        assert(a + b =~= a);
    } else {
        law_selected_items_add_up(a, b.drop_last(), i);
        assert((a + b).drop_last() =~= a + b.drop_last());
    }
}

proof fn lemma_selected_bounds(items: Seq<ItemModel>)
    ensures
        selected_items(items) <= items.len(),
        (forall|k: int| 0 <= k < items.len() ==> (#[trigger] items[k]).selected)
            ==> selected_items(items) == items.len(),
        (forall|k: int| 0 <= k < items.len() ==> !(#[trigger] items[k]).selected)
            ==> selected_items(items) == 0,
    decreases items.len(),
{
    if items.len() > 0 {
        lemma_selected_bounds(items.drop_last());
        assert(items.drop_last() =~= items.take(items.len() - 1));
        assert(forall|k: int|
            0 <= k < items.len() - 1 ==> #[trigger] items.drop_last()[k] == items[k]);
        assert(items.last() == items[items.len() - 1]);
    }
}

/// Selecting a file, or no longer, touches that file and no other, and only its mark; the number
/// of selected files goes up or down by one with it.
pub proof fn law_one_item_is_toggled(m: GuiModel, idx: i32, k: int)
    requires
        m.items.len() <= i32::MAX,
        0 <= k < m.items.len(),
        m.selected == selected_items(m.items),
    ensures
        ({
            let after = m.file_toggled(idx);
            &&& after.items.len() == m.items.len()
            &&& after.items[k].selected == (m.items[k].selected != (k == idx))
            &&& after.items[k] == (ItemModel { selected: after.items[k].selected, ..m.items[k] })
            &&& idx == k && m.items[k].selected ==> after.selected == m.selected - 1
            &&& idx == k && !m.items[k].selected ==> after.selected == m.selected + 1
            &&& after == (GuiModel { items: after.items, selected: after.selected, ..m })
        }),
{
    let after = m.file_toggled(idx);
    lemma_selected_bounds(after.items);
    if idx == k {
        let front = m.items.take(k);
        let back = m.items.skip(k + 1);
        let (x, y) = (m.items[k], after.items[k]);
        law_selected_items_add_up(front, seq![x], x);
        law_selected_items_add_up(front + seq![x], back, x);
        law_selected_items_add_up(front, seq![y], y);
        law_selected_items_add_up(front + seq![y], back, y);
        assert(front + seq![x] + back =~= m.items);
        assert(front + seq![y] + back =~= after.items);
    }
}

/// Selecting all files, or none, touches the marks alone, and all files or none are counted.
pub proof fn law_all_items_are_marked(m: GuiModel, sel: bool, k: int)
    requires
        m.items.len() <= i32::MAX,
        0 <= k < m.items.len(),
    ensures
        ({
            let after = m.all_toggled(sel);
            &&& after.items.len() == m.items.len()
            &&& after.items[k] == (ItemModel { selected: sel, ..m.items[k] })
            &&& sel ==> after.selected == m.items.len()
            &&& !sel ==> after.selected == 0
            &&& after == (GuiModel { items: after.items, selected: after.selected, ..m })
        }),
{
    lemma_selected_bounds(m.all_toggled(sel).items);
}

proof fn lemma_find_item(items: Seq<ItemModel>, path: Seq<char>, from: int)
    requires
        0 <= from,
    ensures
        match find_item(items, path, from) {
            Some(i) => from <= i < items.len() && items[i].path == path && forall|k: int|
                from <= k < i ==> (#[trigger] items[k]).path != path,
            None => forall|k: int| from <= k < items.len() ==> (#[trigger] items[k]).path != path,
        },
    decreases items.len() - from,
{
    if from < items.len() && items[from].path != path {
        lemma_find_item(items, path, from + 1);
    }
}

/// A report changes the first file of its path, as the report says, and no other; it leaves the
/// paths and the marks of all files alone.
pub proof fn law_report_is_shown_at_its_file(m: GuiModel, r: Report, k: int)
    requires
        0 <= k < m.items.len(),
        r matches Report::PageProgress { current_page, total_pages, .. } ==> current_page
            <= i32::MAX && total_pages <= i32::MAX,
    ensures
        ({
            let was = m.items[k];
            let is = m.told(r).items[k];
            let first = forall|j: int| 0 <= j < k ==> (#[trigger] m.items[j]).path != was.path;
            &&& m.told(r).items.len() == m.items.len()
            &&& is.path == was.path
            &&& is.selected == was.selected
            &&& match r {
                Report::Processing { path, .. } => if path == was.path && first {
                    is.status == ItemStatus::Processing && is.current_page == 0 && is.total_pages
                        == 0 && is.error == was.error
                } else {
                    is == was
                },
                Report::PageProgress { path, current_page, total_pages } => if path == was.path
                    && first {
                    is.status == was.status && is.current_page == current_page && is.total_pages
                        == total_pages && is.error == was.error
                } else {
                    is == was
                },
                Report::Completed { path, .. } => if path == was.path && first {
                    is == (ItemModel { status: ItemStatus::Done, ..was })
                } else {
                    is == was
                },
                Report::Skipped { path, .. } => if path == was.path && first {
                    is == (ItemModel { status: ItemStatus::Skipped, ..was })
                } else {
                    is == was
                },
                Report::Error { path, message, .. } => if path == was.path && first {
                    is == (ItemModel { status: ItemStatus::Error, error: message, ..was })
                } else {
                    is == was
                },
                _ => is == was,
            }
        }),
{
    if let Some(path) = file_of(r) {
        lemma_find_item(m.items, path, 0);
    }
}

/// A report of an end raises its own count by one, and no report changes another count; the
/// number of files comes from the report of the start alone; and no report starts or stops the
/// work, opens the dialog or touches the folders.
pub proof fn law_reports_raise_their_own_count(m: GuiModel, r: Report)
    ensures
        ({
            let after = m.told(r);
            &&& after.processed - m.processed == if r is Completed {
                1int
            } else {
                0
            }
            &&& after.errors - m.errors == if r is Error {
                1int
            } else {
                0
            }
            &&& after.skipped - m.skipped == if r is Skipped {
                1int
            } else {
                0
            }
            &&& match r {
                Report::Started { total } => total <= i32::MAX ==> after.total == total,
                _ => after.total == m.total,
            }
            &&& after == (GuiModel {
                items: after.items,
                processed: after.processed,
                errors: after.errors,
                skipped: after.skipped,
                total: after.total,
                status: after.status,
                ..m
            })
        }),
{
}

/// Each report is told in the status line: what it is about, and the file it is about; what is
/// no news of the work leaves the line as it is.
pub proof fn law_reports_are_told(m: GuiModel, r: Report)
    ensures
        match r {
            Report::Processing { path, .. } => m.told(r).status == "Processing: "@ + path + "  "@
                + signed_decimal(m.processed) + "/"@ + signed_decimal(m.total as int) + "  "@
                + signed_decimal(m.percent()) + "%"@,
            Report::PageProgress { path, current_page, total_pages } => m.told(r).status
                == "Processing: "@ + path + ", Converted page "@ + decimal(current_page) + "/"@
                + decimal(total_pages) + "  "@ + signed_decimal(m.processed) + "/"@
                + signed_decimal(m.total as int) + "  "@ + signed_decimal(m.percent()) + "%"@,
            Report::Completed { path, .. } => m.told(r).status == "Done "@ + signed_decimal(
                m.told(r).processed,
            ) + "/"@ + signed_decimal(m.total as int) + ": "@ + path,
            Report::Skipped { path, .. } => m.told(r).status == "Skipped: "@ + path,
            Report::Error { path, .. } => m.told(r).status == "Error: "@ + path,
            Report::Started { total } => m.told(r).status == "Processing 0/"@ + decimal(total)
                + "…"@,
            _ => m.told(r).status == m.status,
        },
{
}

/// The percentage is the whole part of a hundred times the files that are done over all files:
/// none where there are no files, a hundred where all are done, and never more than that while
/// there are not more done than there are.
pub proof fn law_percentage_is_that_of_the_files(m: GuiModel)
    requires
        m.processed >= 0,
    ensures
        m.total <= 0 ==> m.percent() == 0,
        m.total > 0 ==> m.percent() * m.total <= 100 * m.processed < (m.percent() + 1) * m.total,
        m.total > 0 && m.processed == m.total ==> m.percent() == 100,
        m.total > 0 && m.processed <= m.total ==> 0 <= m.percent() <= 100,
{
    if m.total > 0 {
        let (p, t) = (m.processed * 100, m.total as int);
        vstd::arithmetic::div_mod::lemma_fundamental_div_mod(p, t);
        vstd::arithmetic::div_mod::lemma_mod_bound(p, t);
        let q = m.percent();
        assert(q * t <= p < (q + 1) * t) by (nonlinear_arith)
            requires
                p == t * q + p % t,
                0 <= p % t < t,
        ;
        assert(m.processed <= t ==> q <= 100) by (nonlinear_arith)
            requires
                q * t <= m.processed * 100,
                t > 0,
        ;
        assert(m.processed >= t ==> q >= 100) by (nonlinear_arith)
            requires
                m.processed * 100 < (q + 1) * t,
                t > 0,
        ;
        assert(q >= 0) by (nonlinear_arith)
            requires
                0 <= m.processed * 100 < (q + 1) * t,
                t > 0,
        ;
    }
}

/// The work begins with no file counted and without the dialog, and it ends with the dialog and
/// the counts as they are; neither touches the files.
pub proof fn law_work_begins_and_ends(m: GuiModel, total: nat, dpi: nat)
    ensures
        m.begun(total, dpi).processing,
        !m.begun(total, dpi).dialog,
        !m.begun(total, dpi).cancelled,
        m.begun(total, dpi).processed == 0,
        m.begun(total, dpi).errors == 0,
        m.begun(total, dpi).skipped == 0,
        m.begun(total, dpi).items == m.items,
        m.begun(total, dpi).total == m.total,
        m.begun(total, dpi).selected == m.selected,
        !m.ended().processing,
        m.ended().dialog,
        !m.ended().cancelled,
        m.ended().items == m.items,
        m.ended().processed == m.processed,
        m.ended().errors == m.errors,
        m.ended().skipped == m.skipped,
        m.ended().total == m.total,
{
}

/// Two resolutions, and two numbers of files, are told differently when the work begins.
pub proof fn law_start_tells_its_numbers(m: GuiModel, t1: nat, d1: nat, t2: nat, d2: nat)
    requires
        m.begun(t1, d1).status == m.begun(t2, d2).status,
    ensures
        t1 == t2 ==> d1 == d2,
        d1 == d2 ==> t1 == t2,
{
    let front = "Processing "@;
    let middle = " files at "@;
    let back = " DPI…"@;
    if t1 == t2 {
        law_number_stands_out(front + decimal(t1) + middle, d1, d2, back);
    }
    if d1 == d2 {
        let tail = middle + decimal(d1) + back;
        assert(m.begun(t1, d1).status =~= front + decimal(t1) + tail);
        assert(m.begun(t2, d2).status =~= front + decimal(t2) + tail);
        law_number_stands_out(front, t1, t2, tail);
    }
}

/// Each control sets the setting of its own name; the second format of the list is SVG; and the
/// folders are those that were typed.
pub proof fn law_each_control_sets_its_own(
    c: AppConfig,
    source: Seq<char>,
    output: Seq<char>,
    k: Controls,
)
    requires
        is_set_to(c, source, output, k),
    ensures
        c.dpi == k.dpi,
        c.quality == k.quality,
        c.adaptive_encoding == k.adaptive_encoding,
        c.quality_target == k.quality_target,
        c.svg_precision == k.svg_precision,
        c.svg_no_text == k.svg_no_text,
        c.svg_strip_background == k.svg_strip_background,
        c.overwrite == k.overwrite,
        c.format == OutputFormat::Svg <==> k.output_format_index == 1,
        c.source_path@ == encode_utf8(source),
        c.output_path@ == encode_utf8(output),
{
}

/// At the end of the work the status line tells the counts, each by its name.
pub proof fn law_end_tells_the_counts(m: GuiModel, n: GuiModel)
    ensures
        m.ended().status == "Complete — "@ + signed_decimal(m.processed) + "/"@ + signed_decimal(
            m.total as int,
        ) + " OK, "@ + signed_decimal(m.errors) + " errors, "@ + signed_decimal(m.skipped)
            + " skipped"@,
        m.ended().status == n.ended().status && m.processed == n.processed && m.total == n.total
            && m.errors == n.errors ==> m.skipped == n.skipped,
        m.ended().status == n.ended().status && m.processed == n.processed && m.total == n.total
            && m.skipped == n.skipped ==> m.errors == n.errors,
{
    let head = "Complete — "@ + signed_decimal(m.processed) + "/"@ + signed_decimal(m.total as int)
        + " OK, "@;
    let (s, t) = (m.ended().status, n.ended().status);
    if s == t && m.processed == n.processed && m.total == n.total {
        if m.errors == n.errors {
            let front = head + signed_decimal(m.errors) + " errors, "@;
            let end = s.len() - " skipped"@.len();
            assert(s.subrange(front.len() as int, end) =~= signed_decimal(m.skipped));
            assert(t.subrange(front.len() as int, end) =~= signed_decimal(n.skipped));
            law_signed_numbers_differ(m.skipped, n.skipped);
        }
        if m.skipped == n.skipped {
            let back = " errors, "@ + signed_decimal(m.skipped) + " skipped"@;
            let end = s.len() - back.len();
            assert(s.subrange(head.len() as int, end) =~= signed_decimal(m.errors));
            assert(t.subrange(head.len() as int, end) =~= signed_decimal(n.errors));
            law_signed_numbers_differ(m.errors, n.errors);
        }
    }
}

/// A report is about a file of the list where a file of the list has its path.
pub proof fn law_list_knows_its_files(items: Seq<ItemModel>, r: Report)
    ensures
        in_list(items, r) <==> exists|k: int|
            0 <= k < items.len() && file_of(r) == Some((#[trigger] items[k]).path),
        r is Processing || r is PageProgress || r is Completed || r is Skipped || r is Error
            <==> file_of(r) is Some,
{
    if let Some(path) = file_of(r) {
        lemma_find_item(items, path, 0);
    }
}

proof fn lemma_reports_keep_paths(m: GuiModel, rs: Seq<Report>)
    ensures
        m.told_all(rs).items.len() == m.items.len(),
        forall|k: int|
            0 <= k < m.items.len() ==> (#[trigger] m.told_all(rs).items[k]).path == m.items[k].path,
    decreases rs.len(),
{
    if rs.len() > 0 {
        let before = m.told_all(rs.drop_last());
        lemma_reports_keep_paths(m, rs.drop_last());
        if let Some(path) = file_of(rs.last()) {
            lemma_find_item(before.items, path, 0);
        }
        assert forall|k: int| 0 <= k < m.items.len() implies (#[trigger] m.told_all(
            rs,
        ).items[k]).path == m.items[k].path by {
            assert(before.items[k].path == m.items[k].path);
        }
    }
}

/// There is news of the list where one of the reports is about a file that is in it: the reports
/// before it change nothing in that.
pub proof fn law_news_is_of_the_list(m: GuiModel, rs: Seq<Report>)
    ensures
        m.some_in_list(rs) <==> exists|k: int|
            0 <= k < rs.len() && in_list(m.items, #[trigger] rs[k]),
    decreases rs.len(),
{
    if rs.len() > 0 {
        let front = rs.drop_last();
        law_news_is_of_the_list(m, front);
        lemma_reports_keep_paths(m, front);
        let now = m.told_all(front).items;
        law_list_knows_its_files(m.items, rs.last());
        law_list_knows_its_files(now, rs.last());
        assert(in_list(now, rs.last()) == in_list(m.items, rs.last())) by {
            if in_list(now, rs.last()) {
                let k = choose|k: int|
                    0 <= k < now.len() && file_of(rs.last()) == Some((#[trigger] now[k]).path);
                assert(m.items[k].path == now[k].path);
            }
            if in_list(m.items, rs.last()) {
                let k = choose|k: int|
                    0 <= k < m.items.len() && file_of(rs.last()) == Some(
                        (#[trigger] m.items[k]).path,
                    );
                assert(m.items[k].path == now[k].path);
            }
        }
        if m.some_in_list(front) {
            let k = choose|k: int| 0 <= k < front.len() && in_list(m.items, #[trigger] front[k]);
            assert(rs[k] == front[k]);
        }
        if exists|k: int| 0 <= k < rs.len() && in_list(m.items, #[trigger] rs[k]) {
            let k = choose|k: int| 0 <= k < rs.len() && in_list(m.items, #[trigger] rs[k]);
            if k < front.len() {
                assert(front[k] == rs[k]);
            }
        }
    }
}

/// The work is over once the report of its end is among those that came in, first or last.
pub proof fn law_end_is_seen(first: Seq<Report>, more: Seq<Report>, r: Report)
    ensures
        some_finished(first + seq![r] + more) <==> some_finished(first) || r is Finished
            || some_finished(more),
        !some_finished(Seq::<Report>::empty()),
{
    let all = first + seq![r] + more;
    assert(all[first.len() as int] == r);
    if some_finished(first) {
        let k = choose|k: int| 0 <= k < first.len() && (#[trigger] first[k]) is Finished;
        assert(all[k] == first[k]);
    }
    if some_finished(more) {
        let k = choose|k: int| 0 <= k < more.len() && (#[trigger] more[k]) is Finished;
        assert(all[first.len() + 1 + k] == more[k]);
    }
    if some_finished(all) {
        let k = choose|k: int| 0 <= k < all.len() && (#[trigger] all[k]) is Finished;
        if k < first.len() {
            assert(first[k] == all[k]);
        } else if k > first.len() {
            assert(more[k - first.len() - 1] == all[k]);
        }
    }
}

} // verus!
