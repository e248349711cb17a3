//! What the command line shows while files are converted, and at the end.

use crate::path::{
    extension, extension_of, file_name, file_name_of, law_extension_is_at_the_end,
    law_file_name_is_behind_the_last_slash, lossy_text, same_bytes, utf8_lossy, DOT, SLASH,
};
use crate::text::{decimal, push_decimal, same_text, text_views};
use crate::worker::{
    all_reports, count_of, ended, law_run_reports_match_ends, only_pages, FileOutcome, FileRun,
    ProgressUpdate, Report,
};
use vstd::prelude::*;
use vstd::string::*;
use vstd::utf8::*;

verus! {

// ---------------------------------------------------------------------------
// Progress bars
// ---------------------------------------------------------------------------

/// What is to be done with the progress bars: one for all files, and one for each file that is
/// worked on, which goes by the path of the file.
#[derive(Debug)]
pub enum BarAction {
    /// The bar for all files gets its length.
    SetTotal { total: usize },
    /// A bar is opened, with the name of the file.
    Open { path: String, name: String },
    /// A bar is moved to a page.
    Move { path: String, current_page: u32, total_pages: u32, message: String },
    /// A bar is closed with a message.
    Finish { path: String, message: String },
    /// A bar is closed.
    Close { path: String },
    /// A bar is closed with the message that there was an error.
    Fail { path: String },
    /// The error on a file is printed.
    PrintError { name: String, error: String },
    /// The bar for all files moves on, and gets a message.
    Advance { message: String },
    /// The bar for all files is closed.
    Complete,
}

/// What is to be done with the progress bars, with its texts.
pub ghost enum ActionModel {
    SetTotal { total: nat },
    Open { path: Seq<char>, name: Seq<char> },
    Move { path: Seq<char>, current_page: nat, total_pages: nat, message: Seq<char> },
    Finish { path: Seq<char>, message: Seq<char> },
    Close { path: Seq<char> },
    Fail { path: Seq<char> },
    PrintError { name: Seq<char>, error: Seq<char> },
    Advance { message: Seq<char> },
    Complete,
}

impl View for BarAction {
    type V = ActionModel;

    open spec fn view(&self) -> ActionModel {
        match *self {
            BarAction::SetTotal { total } => ActionModel::SetTotal { total: total as nat },
            BarAction::Open { path, name } => ActionModel::Open { path: path@, name: name@ },
            BarAction::Move { path, current_page, total_pages, message } => ActionModel::Move {
                path: path@,
                current_page: current_page as nat,
                total_pages: total_pages as nat,
                message: message@,
            },
            BarAction::Finish { path, message } => ActionModel::Finish {
                path: path@,
                message: message@,
            },
            BarAction::Close { path } => ActionModel::Close { path: path@ },
            BarAction::Fail { path } => ActionModel::Fail { path: path@ },
            BarAction::PrintError { name, error } => ActionModel::PrintError {
                name: name@,
                error: error@,
            },
            BarAction::Advance { message } => ActionModel::Advance { message: message@ },
            BarAction::Complete => ActionModel::Complete,
        }
    }
}

/// The actions of a list.
pub open spec fn actions(v: Seq<BarAction>) -> Seq<ActionModel> {
    v.map_values(|a: BarAction| a@)
}

fn push_action(list: &mut Vec<BarAction>, a: BarAction)
    ensures
        actions(final(list)@) == actions(old(list)@).push(a@),
{
    list.push(a);
    assert(actions(list@) =~= actions(old(list)@).push(a@));
}

/// The name that a file is shown by: the last part of its path, or the path where that has none.
pub open spec fn shown_name(path: Seq<char>) -> Seq<char> {
    match file_name(encode_utf8(path)) {
        Some(name) => utf8_lossy(name),
        None => path,
    }
}

fn name_of(path: &str) -> (r: String)
    ensures
        r@ == shown_name(path@),
{
    match file_name_of(path.as_bytes()) {
        Some(name) => lossy_text(name.as_slice()),
        None => path.to_owned(),
    }
}

/// How the files ended so far, and which bars are open.
#[derive(Debug)]
pub struct RunDisplay {
    /// The paths of the files whose bars are open.
    pub open: Vec<String>,
    pub ok: u32,
    pub err: u32,
    pub skipped: u32,
}

/// How the files ended so far, and which bars are open, with its texts.
pub ghost struct DisplayModel {
    pub open: Seq<Seq<char>>,
    pub ok: nat,
    pub err: nat,
    pub skipped: nat,
}

impl View for RunDisplay {
    type V = DisplayModel;

    open spec fn view(&self) -> DisplayModel {
        DisplayModel {
            open: text_views(self.open@),
            ok: self.ok as nat,
            err: self.err as nat,
            skipped: self.skipped as nat,
        }
    }
}

/// `open` with one more path, if it is not there yet.
pub open spec fn with_path(open: Seq<Seq<char>>, path: Seq<char>) -> Seq<Seq<char>> {
    if open.contains(path) {
        open
    } else {
        open.push(path)
    }
}

/// `open` without a path.
pub open spec fn without_path(open: Seq<Seq<char>>, path: Seq<char>) -> Seq<Seq<char>> {
    if open.contains(path) {
        open.remove(open.index_of_first(path)->0)
    } else {
        open
    }
}

impl DisplayModel {
    /// Whether no bar is open twice.
    pub open spec fn wf(self) -> bool {
        self.open.no_duplicates()
    }

    /// How the files ended so far, in words.
    pub open spec fn counts(self) -> Seq<char> {
        decimal(self.ok) + " done, "@ + decimal(self.err) + " errors, "@ + decimal(self.skipped)
            + " skipped"@
    }

    /// Whether the count that a report adds to can still grow.
    pub open spec fn has_room_for(self, r: Report) -> bool {
        match r {
            Report::Completed { .. } => self.ok < u32::MAX,
            Report::Skipped { .. } => self.skipped < u32::MAX,
            Report::Error { .. } => self.err < u32::MAX,
            _ => true,
        }
    }

    /// The display after a report.
    pub open spec fn after(self, r: Report) -> DisplayModel {
        match r {
            Report::Processing { path, .. } => DisplayModel {
                open: with_path(self.open, path),
                ..self
            },
            Report::Completed { path, .. } => DisplayModel {
                open: without_path(self.open, path),
                ok: self.ok + 1,
                ..self
            },
            Report::Skipped { path, .. } => DisplayModel {
                open: without_path(self.open, path),
                skipped: self.skipped + 1,
                ..self
            },
            Report::Error { path, .. } => DisplayModel {
                open: without_path(self.open, path),
                err: self.err + 1,
                ..self
            },
            _ => self,
        }
    }

    /// The display after some reports.
    pub open spec fn after_all(self, rs: Seq<Report>) -> DisplayModel
        decreases rs.len(),
    {
        if rs.len() == 0 {
            self
        } else {
            self.after_all(rs.drop_last()).after(rs.last())
        }
    }

    /// `a`, where the bar of the file is open.
    pub open spec fn if_open(self, path: Seq<char>, a: ActionModel) -> Seq<ActionModel> {
        if self.open.contains(path) {
            seq![a]
        } else {
            Seq::empty()
        }
    }

    /// What is to be done with the bars on a report.
    pub open spec fn actions_on(self, r: Report) -> Seq<ActionModel> {
        match r {
            Report::Started { total } => seq![ActionModel::SetTotal { total }],
            Report::Processing { path, .. } => seq![
                ActionModel::Open { path, name: shown_name(path) },
            ],
            Report::PageProgress { path, current_page, total_pages } => self.if_open(
                path,
                ActionModel::Move {
                    path,
                    current_page,
                    total_pages,
                    message: "page "@ + decimal(current_page) + "/"@ + decimal(total_pages),
                },
            ),
            Report::Completed { path, page_count, .. } => self.if_open(
                path,
                ActionModel::Finish { path, message: "✓ "@ + decimal(page_count) + " pages"@ },
            ).push(ActionModel::Advance { message: self.after(r).counts() }),
            Report::Skipped { path, .. } => self.if_open(path, ActionModel::Close { path }).push(
                ActionModel::Advance { message: self.after(r).counts() },
            ),
            Report::Error { path, message, .. } => self.if_open(path, ActionModel::Fail { path }).push(
                ActionModel::PrintError { name: shown_name(path), error: message },
            ).push(ActionModel::Advance { message: self.after(r).counts() }),
            Report::Log { .. } => Seq::empty(),
            Report::Finished { .. } => seq![ActionModel::Complete],
        }
    }

    /// How many files are counted as ended in the given way.
    pub open spec fn counted(self, which: FileOutcome) -> nat {
        match which {
            FileOutcome::Done => self.ok,
            FileOutcome::Failed => self.err,
            FileOutcome::Skipped => self.skipped,
            FileOutcome::NotReached => 0,
        }
    }
}

impl RunDisplay {
    /// The display before the first report.
    pub fn new() -> (d: RunDisplay)
        ensures
            d@ == (DisplayModel { open: Seq::empty(), ok: 0, err: 0, skipped: 0 }),
            d@.wf(),
    {
        let d: RunDisplay = RunDisplay { open: Vec::new(), ok: 0, err: 0, skipped: 0 };
        assert(d@.open =~= Seq::empty());
        d
    }

    fn find_open(&self, path: &str) -> (r: Option<usize>)
        ensures
            match r {
                Some(i) => i < self.open.len() && self@.open[i as int] == path@ && forall|k: int|
                    0 <= k < i ==> (#[trigger] self@.open[k]) != path@,
                None => !self@.open.contains(path@),
            },
    {
        let mut i: usize = 0;
        while i < self.open.len()
            invariant
                i <= self.open.len(),
                forall|k: int| 0 <= k < i ==> (#[trigger] self@.open[k]) != path@,
            decreases self.open.len() - i,
        {
            assert(self@.open[i as int] == self.open@[i as int]@);
            if same_text(self.open[i].as_str(), path) {
                return Some(i);
            }
            i = i + 1;
        }
        None
    }

    fn add_path(&mut self, path: &str)
        ensures
            final(self)@ == (DisplayModel { open: with_path(old(self)@.open, path@), ..old(self)@ }),
    {
        match self.find_open(path) {
            Some(i) => {
                assert(self@.open[i as int] == path@);
            },
            None => {
                self.open.push(path.to_owned());
                assert(self@.open =~= old(self)@.open.push(path@));
            },
        }
    }

    /// Takes a path out. The result tells whether it was there.
    fn take_path(&mut self, path: &str) -> (r: bool)
        ensures
            final(self)@ == (DisplayModel {
                open: without_path(old(self)@.open, path@),
                ..old(self)@
            }),
            r == old(self)@.open.contains(path@),
    {
        match self.find_open(path) {
            Some(i) => {
                let ghost before = self@.open;
                assert(before[i as int] == path@);
                assert(before.contains(path@));
                proof {
                    before.index_of_first_ensures(path@);
                    let j = before.index_of_first(path@)->0;
                    assert(j == i) by {
                        assert(before[j] == path@);
                    }
                }
                self.open.remove(i);
                assert(self@.open =~= before.remove(i as int));
                true
            },
            None => false,
        }
    }

    /// How the files ended so far, in words.
    fn counts_text(&self) -> (r: String)
        ensures
            r@ == self@.counts(),
    {
        let mut out: String = String::new();
        push_decimal(&mut out, self.ok as u64);
        out.append(" done, ");
        push_decimal(&mut out, self.err as u64);
        out.append(" errors, ");
        push_decimal(&mut out, self.skipped as u64);
        out.append(" skipped");
        assert(out@ =~= self@.counts());
        out
    }

    /// Takes a report in: tells what is to be done with the bars.
    pub fn step(&mut self, update: ProgressUpdate) -> (r: Vec<BarAction>)
        requires
            old(self)@.has_room_for(update@),
        ensures
            actions(r@) == old(self)@.actions_on(update@),
            final(self)@ == old(self)@.after(update@),
    {
        let mut out: Vec<BarAction> = Vec::new();
        assert(actions(out@) =~= Seq::empty());
        match update {
            ProgressUpdate::Started { total } => {
                push_action(&mut out, BarAction::SetTotal { total });
            },
            ProgressUpdate::Processing { relative_path, .. } => {
                self.add_path(relative_path.as_str());
                let name: String = name_of(relative_path.as_str());
                push_action(&mut out, BarAction::Open { path: relative_path, name });
            },
            ProgressUpdate::PageProgress { relative_path, current_page, total_pages } => {
                if let Some(i) = self.find_open(relative_path.as_str()) {
                    assert(self@.open[i as int] == relative_path@);
                    let mut message: String = "page ".to_owned();
                    push_decimal(&mut message, current_page as u64);
                    message.append("/");
                    push_decimal(&mut message, total_pages as u64);
                    push_action(
                        &mut out,
                        BarAction::Move { path: relative_path, current_page, total_pages, message },
                    );
                }
            },
            ProgressUpdate::Completed { relative_path, page_count, .. } => {
                if self.take_path(relative_path.as_str()) {
                    let mut message: String = "✓ ".to_owned();
                    push_decimal(&mut message, page_count as u64);
                    message.append(" pages");
                    push_action(&mut out, BarAction::Finish { path: relative_path, message });
                }
                self.ok = self.ok + 1;
                let message: String = self.counts_text();
                push_action(&mut out, BarAction::Advance { message });
            },
            ProgressUpdate::Skipped { relative_path, .. } => {
                if self.take_path(relative_path.as_str()) {
                    push_action(&mut out, BarAction::Close { path: relative_path });
                }
                self.skipped = self.skipped + 1;
                let message: String = self.counts_text();
                push_action(&mut out, BarAction::Advance { message });
            },
            ProgressUpdate::Error { relative_path, error_message, .. } => {
                let name: String = name_of(relative_path.as_str());
                if self.take_path(relative_path.as_str()) {
                    push_action(&mut out, BarAction::Fail { path: relative_path });
                }
                push_action(&mut out, BarAction::PrintError { name, error: error_message });
                self.err = self.err + 1;
                let message: String = self.counts_text();
                push_action(&mut out, BarAction::Advance { message });
            },
            ProgressUpdate::Log { .. } => {},
            ProgressUpdate::Finished { .. } => {
                push_action(&mut out, BarAction::Complete);
            },
        }
        out
    }
}

/// No bar is ever open twice, and once the end of a file is reported its bar is closed.
pub proof fn law_bars_open_once(m: DisplayModel, r: Report)
    requires
        m.wf(),
    ensures
        m.after(r).wf(),
        r matches Report::Completed { path, .. } ==> !m.after(r).open.contains(path),
        r matches Report::Skipped { path, .. } ==> !m.after(r).open.contains(path),
        r matches Report::Error { path, .. } ==> !m.after(r).open.contains(path),
{
    match r {
        Report::Completed { path, .. } => lemma_without_path(m.open, path),
        Report::Skipped { path, .. } => lemma_without_path(m.open, path),
        Report::Error { path, .. } => lemma_without_path(m.open, path),
        _ => {},
    }
}

proof fn lemma_without_path(open: Seq<Seq<char>>, path: Seq<char>)
    requires
        open.no_duplicates(),
    ensures
        without_path(open, path).no_duplicates(),
        !without_path(open, path).contains(path),
{
    if open.contains(path) {
        open.index_of_first_ensures(path);
        let j = open.index_of_first(path)->0;
        let left = open.remove(j);
        assert forall|k: int| 0 <= k < left.len() implies left[k] != path by {
            if k < j {
                assert(left[k] == open[k]);
            } else {
                assert(left[k] == open[k + 1]);
            }
        }
    }
}

/// The counts of the display count the ends that are reported.
pub proof fn law_display_counts_reports(m: DisplayModel, rs: Seq<Report>, which: FileOutcome)
    requires
        which != FileOutcome::NotReached,
    ensures
        m.after_all(rs).counted(which) == m.counted(which) + count_of(rs, which),
    decreases rs.len(),
{
    if rs.len() > 0 {
        law_display_counts_reports(m, rs.drop_last(), which);
    }
}

/// Once the reports of a run have come in, in whatever order, the display holds how many files
/// ended in which way.
pub proof fn law_display_counts_run(
    runs: Seq<FileRun>,
    pages: Seq<Report>,
    rs: Seq<Report>,
    which: FileOutcome,
)
    requires
        which != FileOutcome::NotReached,
        only_pages(pages),
        rs.to_multiset() == (all_reports(runs) + pages).to_multiset(),
    ensures
        (DisplayModel { open: Seq::empty(), ok: 0, err: 0, skipped: 0 }).after_all(rs).counted(which)
            == ended(runs, which),
{
    let m = DisplayModel { open: Seq::empty(), ok: 0, err: 0, skipped: 0 };
    law_display_counts_reports(m, rs, which);
    law_run_reports_match_ends(runs, pages, rs, which);
}

// ---------------------------------------------------------------------------
// Labels
// ---------------------------------------------------------------------------

/// The bytes of a path that are shown where files are listed before the work.
pub const LIST_LABEL: usize = 54;

/// The bytes of a path that are shown where sizes are compared.
pub const TABLE_LABEL: usize = 46;

/// Whether a text is cut to its last `keep` bytes.
pub open spec fn is_cut(text: Seq<char>, keep: nat) -> bool {
    encode_utf8(text).len() > keep + 1
}

/// The label of a path: the path, or its last `keep` bytes behind dots where it is longer by
/// more than one.
pub open spec fn label_of(text: Seq<char>, keep: nat) -> Seq<char> {
    let bytes = encode_utf8(text);
    if is_cut(text, keep) {
        "…"@ + decode_utf8(bytes.skip(bytes.len() - keep))
    } else {
        text
    }
}

/// Cuts a path to its last `keep` bytes. Where it is cut, the cut must not go through a character.
pub fn shorten(text: &str, keep: usize) -> (r: String)
    requires
        keep < usize::MAX,
        is_cut(text@, keep as nat) ==> is_char_boundary(
            encode_utf8(text@),
            encode_utf8(text@).len() - keep,
        ),
    ensures
        r@ == label_of(text@, keep as nat),
{
    let len: usize = text.as_bytes().len();
    if len > keep + 1 {
        let cut: (&str, &str) = text.split_at(len - keep);
        let mut out: String = "…".to_owned();
        out.append(cut.1);
        assert(cut.1.spec_bytes() =~= encode_utf8(text@).skip(len - keep));
        assert(cut.1@ == decode_utf8(cut.1.spec_bytes())) by {
            encode_utf8_decode_utf8(cut.1@);
        }
        out
    } else {
        text.to_owned()
    }
}

// ---------------------------------------------------------------------------
// Sizes
// ---------------------------------------------------------------------------

/// A file in the folder of a document: its name, and its size where that is known.
#[derive(Debug)]
pub struct SizedName {
    pub name: Vec<u8>,
    pub size: Option<u64>,
}

/// The bytes that a file adds to the size of a document: its size where it is a WebP file.
pub open spec fn webp_size(f: SizedName) -> nat {
    match f.size {
        Some(n) => if extension(f.name@) == Some(encode_utf8("webp"@)) {
            n as nat
        } else {
            0
        },
        None => 0,
    }
}

/// The bytes of the WebP files of a folder.
pub open spec fn webp_bytes(files: Seq<SizedName>) -> nat
    decreases files.len(),
{
    if files.len() == 0 {
        0
    } else {
        webp_bytes(files.drop_last()) + webp_size(files.last())
    }
}

fn is_webp(name: &[u8]) -> (r: bool)
    ensures
        r == (extension(name@) == Some(encode_utf8("webp"@))),
{
    match extension_of(name) {
        Some(e) => same_bytes(e.as_slice(), "webp".as_bytes()),
        None => false,
    }
}

/// Adds up the bytes of the WebP files of a folder; `None` where they do not fit in 64 bits.
pub fn sum_webp_bytes(files: &Vec<SizedName>) -> (r: Option<u64>)
    ensures
        match r {
            Some(n) => n == webp_bytes(files@),
            None => webp_bytes(files@) > u64::MAX,
        },
{
    let mut sum: u64 = 0;
    let mut i: usize = 0;
    assert(files@.take(0) =~= Seq::empty());
    while i < files.len()
        invariant
            i <= files.len(),
            sum == webp_bytes(files@.take(i as int)),
        decreases files.len() - i,
    {
        let f: &SizedName = &files[i];
        assert(files@.take(i + 1).drop_last() =~= files@.take(i as int));
        assert(files@.take(i + 1).last() == *f);
        if let Some(n) = f.size {
            if is_webp(f.name.as_slice()) {
                match sum.checked_add(n) {
                    Some(s) => {
                        sum = s;
                    },
                    None => {
                        proof {
                            lemma_webp_bytes_grow(files@, i + 1);
                        }
                        return None;
                    },
                }
            }
        }
        i = i + 1;
    }
    assert(files@.take(i as int) =~= files@);
    Some(sum)
}

proof fn lemma_webp_bytes_grow(files: Seq<SizedName>, n: int)
    requires
        0 <= n <= files.len(),
    ensures
        webp_bytes(files.take(n)) <= webp_bytes(files),
    decreases files.len() - n,
{
    if n < files.len() {
        assert(files.take(n + 1).drop_last() =~= files.take(n));
        lemma_webp_bytes_grow(files, n + 1);
    } else {
        assert(files.take(n) =~= files);
    }
}

/// The sizes of all documents, before and after.
#[derive(Debug, Clone, Copy, PartialEq, Eq, Structural)]
pub struct SizeTotals {
    pub pdf: u64,
    pub webp: u64,
}

impl SizeTotals {
    /// No documents yet.
    pub fn new() -> (t: SizeTotals)
        ensures
            t == (SizeTotals { pdf: 0, webp: 0 }),
    {
        SizeTotals { pdf: 0, webp: 0 }
    }

    /// Adds a document. Where the sums do not fit in 64 bits nothing is added, and the result
    /// tells so.
    pub fn add_document(&mut self, pdf: u64, webp: u64) -> (fits: bool)
        ensures
            fits == (old(self).pdf + pdf <= u64::MAX && old(self).webp + webp <= u64::MAX),
            *final(self) == (if fits {
                SizeTotals {
                    pdf: (old(self).pdf + pdf) as u64,
                    webp: (old(self).webp + webp) as u64,
                }
            } else {
                *old(self)
            }),
    {
        match (self.pdf.checked_add(pdf), self.webp.checked_add(webp)) {
            (Some(p), Some(w)) => {
                self.pdf = p;
                self.webp = w;
                true
            },
            _ => false,
        }
    }
}

// ---------------------------------------------------------------------------
// Laws of what is shown
// ---------------------------------------------------------------------------

/// A file is shown by what lies behind the last slash of its path.
pub proof fn law_files_are_shown_by_their_names(path: Seq<char>, i: int)
    requires
        0 <= i < encode_utf8(path).len(),
        i == 0 || encode_utf8(path)[i - 1] == SLASH,
        forall|k: int| i <= k < encode_utf8(path).len() ==> encode_utf8(path)[k] != SLASH,
        encode_utf8(path).skip(i) != seq![DOT],
        encode_utf8(path).skip(i) != seq![DOT, DOT],
    ensures
        shown_name(path) == utf8_lossy(encode_utf8(path).skip(i)),
{
    law_file_name_is_behind_the_last_slash(encode_utf8(path), i);
}

/// A report opens or closes the bar of its own file only, and counts in one count only.
pub proof fn law_reports_touch_their_own_bar(m: DisplayModel, r: Report, other: Seq<char>)
    requires
        match r {
            Report::Processing { path, .. } => other != path,
            Report::Completed { path, .. } => other != path,
            Report::Skipped { path, .. } => other != path,
            Report::Error { path, .. } => other != path,
            _ => true,
        },
    ensures
        m.after(r).open.contains(other) <==> m.open.contains(other),
        r matches Report::Processing { path, .. } ==> m.after(r).open.contains(path),
        m.after(r).ok == m.ok + if r is Completed {
            1nat
        } else {
            0
        },
        m.after(r).err == m.err + if r is Error {
            1nat
        } else {
            0
        },
        m.after(r).skipped == m.skipped + if r is Skipped {
            1nat
        } else {
            0
        },
{
    match r {
        Report::Processing { path, .. } => {
            lemma_with_path(m.open, path, other);
        },
        Report::Completed { path, .. } => {
            lemma_without_other(m.open, path, other);
        },
        Report::Skipped { path, .. } => {
            lemma_without_other(m.open, path, other);
        },
        Report::Error { path, .. } => {
            lemma_without_other(m.open, path, other);
        },
        _ => {},
    }
}

proof fn lemma_with_path(open: Seq<Seq<char>>, path: Seq<char>, other: Seq<char>)
    requires
        other != path,
    ensures
        with_path(open, path).contains(path),
        with_path(open, path).contains(other) <==> open.contains(other),
{
    let longer = open.push(path);
    assert(longer[open.len() as int] == path);
    if open.contains(other) {
        let k = choose|k: int| 0 <= k < open.len() && open[k] == other;
        assert(longer[k] == other);
    }
    if longer.contains(other) {
        let k = choose|k: int| 0 <= k < longer.len() && longer[k] == other;
        assert(k < open.len());
        assert(open[k] == other);
    }
}

proof fn lemma_without_other(open: Seq<Seq<char>>, path: Seq<char>, other: Seq<char>)
    requires
        other != path,
    ensures
        without_path(open, path).contains(other) <==> open.contains(other),
{
    if open.contains(path) {
        open.index_of_first_ensures(path);
        let p = open.index_of_first(path)->0;
        let less = open.remove(p);
        if open.contains(other) {
            let k = choose|k: int| 0 <= k < open.len() && open[k] == other;
            if k < p {
                assert(less[k] == other);
            } else {
                assert(less[k - 1] == other);
            }
        }
        if less.contains(other) {
            let k = choose|k: int| 0 <= k < less.len() && less[k] == other;
            if k < p {
                assert(open[k] == other);
            } else {
                assert(open[k + 1] == other);
            }
        }
    }
}

/// What is done with the bars on a report: the number of files is the length of the bar for all
/// files; the bar of a file opens with its name, moves to the page that is told where it is open,
/// and is closed at its end; an error is printed; and each end moves the bar for all files on, with
/// the counts that take it in.
pub proof fn law_bars_follow_the_reports(m: DisplayModel, r: Report)
    ensures
        ({
            let a = m.actions_on(r);
            match r {
                Report::Started { total } => a == seq![ActionModel::SetTotal { total }],
                Report::Processing { path, .. } => a.len() == 1 && a[0] == (ActionModel::Open {
                    path,
                    name: shown_name(path),
                }),
                Report::PageProgress { path, current_page, total_pages } => {
                    &&& !m.open.contains(path) ==> a.len() == 0
                    &&& m.open.contains(path) ==> a.len() == 1 && a[0] == (ActionModel::Move {
                        path,
                        current_page,
                        total_pages,
                        message: "page "@ + decimal(current_page) + "/"@ + decimal(total_pages),
                    })
                },
                Report::Completed { path, page_count, .. } => {
                    &&& a.last() == ActionModel::Advance { message: m.after(r).counts() }
                    &&& m.open.contains(path) ==> a.len() == 2 && a[0] == (ActionModel::Finish {
                        path,
                        message: "✓ "@ + decimal(page_count) + " pages"@,
                    })
                    &&& !m.open.contains(path) ==> a.len() == 1
                },
                Report::Skipped { path, .. } => {
                    &&& a.last() == ActionModel::Advance { message: m.after(r).counts() }
                    &&& m.open.contains(path) ==> a.len() == 2 && a[0] == (ActionModel::Close { path })
                    &&& !m.open.contains(path) ==> a.len() == 1
                },
                Report::Error { path, message, .. } => {
                    &&& a.last() == ActionModel::Advance { message: m.after(r).counts() }
                    &&& a[a.len() - 2] == (ActionModel::PrintError {
                        name: shown_name(path),
                        error: message,
                    })
                    &&& m.open.contains(path) ==> a.len() == 3 && a[0] == (ActionModel::Fail { path })
                    &&& !m.open.contains(path) ==> a.len() == 2
                },
                Report::Log { .. } => a.len() == 0,
                Report::Finished { .. } => a == seq![ActionModel::Complete],
            }
        }),
{
}

/// The counts in words tell all three of them.
pub proof fn law_counts_are_told(m: DisplayModel, n: DisplayModel)
    ensures
        m.counts() == decimal(m.ok) + " done, "@ + decimal(m.err) + " errors, "@ + decimal(m.skipped)
            + " skipped"@,
        m.ok == n.ok && m.err == n.err && m.skipped == n.skipped ==> m.counts() == n.counts(),
{
}

proof fn lemma_encode_concat(a: Seq<char>, b: Seq<char>)
    ensures
        encode_utf8(a + b) == encode_utf8(a) + encode_utf8(b),
    decreases a.len(),
{
    reveal_with_fuel(encode_utf8, 2);
    if a.len() == 0 {
        assert(a + b =~= b);
        assert(encode_utf8(a) + encode_utf8(b) =~= encode_utf8(b));
    } else {
        assert((a + b).drop_first() =~= a.drop_first() + b);
        lemma_encode_concat(a.drop_first(), b);
        assert(encode_utf8(a + b) =~= encode_utf8(a) + encode_utf8(b));
    }
}

/// A path that is longer than its label by two bytes or more keeps its end, as long as the label,
/// behind dots; a shorter one is shown as it is.
pub proof fn law_labels_keep_the_end(front: Seq<char>, end: Seq<char>, keep: nat)
    requires
        encode_utf8(end).len() == keep,
    ensures
        encode_utf8(front).len() >= 2 ==> label_of(front + end, keep) == "…"@ + end,
        encode_utf8(front).len() < 2 ==> label_of(front + end, keep) == front + end,
        encode_utf8(front).len() == 0 ==> label_of(front + end, keep) == end,
{
    lemma_encode_concat(front, end);
    let bytes = encode_utf8(front + end);
    assert(bytes.skip(bytes.len() - keep) =~= encode_utf8(end));
    encode_utf8_decode_utf8(end);
    encode_utf8_decode_utf8(front);
    if encode_utf8(front).len() == 0 {
        assert(encode_utf8(front) =~= encode_utf8(Seq::empty())) by {
            reveal_with_fuel(encode_utf8, 2);
        }
        encode_utf8_decode_utf8(Seq::empty());
        assert(front + end =~= end);
    }
}

/// The bytes of the WebP files of a folder add up file by file, and a file counts with its size
/// exactly where its name ends in `.webp`.
pub proof fn law_webp_sizes_add_up(first: Seq<SizedName>, second: Seq<SizedName>, f: SizedName)
    ensures
        webp_bytes(first + second) == webp_bytes(first) + webp_bytes(second),
        webp_bytes(Seq::empty()) == 0,
        webp_bytes(seq![f]) == webp_size(f),
        f.size is None ==> webp_size(f) == 0,
        f.name@.len() > 0 && f.name@.last() != SLASH && f.name@.last() != DOT ==> (f.size matches Some(
            size,
        ) ==> webp_size(f) == {
            let n = f.name@.len();
            if n >= 6 && f.name@[n - 6] != 47 && f.name@[n - 5] == 46 && f.name@[n - 4] == 119
                && f.name@[n - 3] == 101 && f.name@[n - 2] == 98 && f.name@[n - 1] == 112 {
                size as nat
            } else {
                0
            }
        }),
    decreases second.len(),
{
    reveal_strlit("webp");
    let webp = encode_utf8("webp"@);
    is_ascii_chars_encode_utf8("webp"@);
    assert(webp[0] == 119 && webp[1] == 101 && webp[2] == 98 && webp[3] == 112);
    let name = f.name@;
    if name.len() > 0 && name.last() != SLASH && name.last() != DOT {
        let n = name.len() as int;
        law_extension_is_at_the_end(name, webp);
        if n >= 6 {
            let end = name.skip(n - 4);
            assert(end[0] == name[n - 4] && end[1] == name[n - 3] && end[2] == name[n - 2] && end[3]
                == name[n - 1]);
            if name[n - 4] == 119 && name[n - 3] == 101 && name[n - 2] == 98 && name[n - 1] == 112 {
                assert(end =~= webp);
            }
        }
    }
    assert(seq![f].drop_last() =~= Seq::empty());
    assert(webp_bytes(Seq::<SizedName>::empty()) == 0);
    assert(seq![f].last() == f);
    if second.len() == 0 {
        assert(first + second =~= first);
    } else {
        assert((first + second).drop_last() =~= first + second.drop_last());
        law_webp_sizes_add_up(first, second.drop_last(), f);
    }
}

} // verus!
