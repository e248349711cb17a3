//! The work on a list of files: what is reported, what is counted, and how much space
//! it takes.

use crate::error::AppError;
use crate::path::{component_texts, join, join_paths, law_join_texts, law_plain_name, SLASH};
use crate::text::{decimal, push_decimal};
use vstd::prelude::*;
use vstd::slice::*;
use vstd::string::*;
use vstd::utf8::*;

verus! {

// ---------------------------------------------------------------------------
// Reports
// ---------------------------------------------------------------------------

/// What the work reports.
#[derive(Debug)]
pub enum ProgressUpdate {
    Started { total: usize },
    Processing { index: usize, total: usize, relative_path: String },
    PageProgress { relative_path: String, current_page: u32, total_pages: u32 },
    Completed { index: usize, relative_path: String, page_count: u32 },
    Skipped { index: usize, relative_path: String },
    Error { index: usize, relative_path: String, error_message: String },
    Finished { success_count: u32, error_count: u32, skipped_count: u32 },
    Log { message: String },
}

/// A report with its texts.
pub ghost enum Report {
    Started { total: nat },
    Processing { index: nat, total: nat, path: Seq<char> },
    PageProgress { path: Seq<char>, current_page: nat, total_pages: nat },
    Completed { index: nat, path: Seq<char>, page_count: nat },
    Skipped { index: nat, path: Seq<char> },
    Error { index: nat, path: Seq<char>, message: Seq<char> },
    Finished { success_count: nat, error_count: nat, skipped_count: nat },
    Log { message: Seq<char> },
}

impl View for ProgressUpdate {
    type V = Report;

    open spec fn view(&self) -> Report {
        match *self {
            ProgressUpdate::Started { total } => Report::Started { total: total as nat },
            ProgressUpdate::Processing { index, total, relative_path } => Report::Processing {
                index: index as nat,
                total: total as nat,
                path: relative_path@,
            },
            ProgressUpdate::PageProgress { relative_path, current_page, total_pages } =>
                Report::PageProgress {
                path: relative_path@,
                current_page: current_page as nat,
                total_pages: total_pages as nat,
            },
            ProgressUpdate::Completed { index, relative_path, page_count } => Report::Completed {
                index: index as nat,
                path: relative_path@,
                page_count: page_count as nat,
            },
            ProgressUpdate::Skipped { index, relative_path } => Report::Skipped {
                index: index as nat,
                path: relative_path@,
            },
            ProgressUpdate::Error { index, relative_path, error_message } => Report::Error {
                index: index as nat,
                path: relative_path@,
                message: error_message@,
            },
            ProgressUpdate::Finished { success_count, error_count, skipped_count } =>
                Report::Finished {
                success_count: success_count as nat,
                error_count: error_count as nat,
                skipped_count: skipped_count as nat,
            },
            ProgressUpdate::Log { message } => Report::Log { message: message@ },
        }
    }
}

/// The reports of a list.
pub open spec fn reports(v: Seq<ProgressUpdate>) -> Seq<Report> {
    v.map_values(|u: ProgressUpdate| u@)
}

/// Appends a report.
pub fn push_report(list: &mut Vec<ProgressUpdate>, u: ProgressUpdate)
    ensures
        reports(final(list)@) == reports(old(list)@).push(u@),
{
    list.push(u);
    assert(reports(list@) =~= reports(old(list)@).push(u@));
}

// ---------------------------------------------------------------------------
// One file
// ---------------------------------------------------------------------------

/// How the work on a file ended.
#[derive(Debug, Clone, Copy, PartialEq, Eq, Structural)]
pub enum FileOutcome {
    Done,
    Failed,
    Skipped,
    /// The work was cancelled before it came to the file.
    NotReached,
}

/// What is to be done next with a file.
#[derive(Debug, Clone, Copy, PartialEq, Eq, Structural)]
pub enum NextStep {
    /// Nothing: the work on it ended.
    End(FileOutcome),
    /// Look whether it was converted before.
    Probe,
    /// Convert it.
    Convert,
}

/// What is to be done when the work comes to a file.
pub open spec fn first_step(cancelled: bool, overwrite: bool) -> NextStep {
    if cancelled {
        NextStep::End(FileOutcome::NotReached)
    } else if overwrite {
        NextStep::Convert
    } else {
        NextStep::Probe
    }
}

/// What is to be done once it is known whether a file was converted before.
pub open spec fn second_step(converted: bool) -> NextStep {
    if converted {
        NextStep::End(FileOutcome::Skipped)
    } else {
        NextStep::Convert
    }
}

/// How the work on a file ends, by the result of its conversion.
pub open spec fn last_step(result: Result<u32, AppError>) -> FileOutcome {
    if result is Ok {
        FileOutcome::Done
    } else {
        FileOutcome::Failed
    }
}

/// The line that tells that the conversion of a file begins.
pub open spec fn begin_line(path: Seq<char>) -> Seq<char> {
    "⟳ "@ + path
}

/// The line that tells that a file was converted.
pub open spec fn done_line(path: Seq<char>, page_count: nat) -> Seq<char> {
    "✓ "@ + path + " ("@ + decimal(page_count) + " pages)"@
}

/// The line that tells that a file could not be converted.
pub open spec fn failed_line(path: Seq<char>, message: Seq<char>) -> Seq<char> {
    "✗ "@ + path + ": "@ + message
}

/// The reports when the work comes to a file.
pub open spec fn begin_reports(
    cancelled: bool,
    overwrite: bool,
    index: nat,
    total: nat,
    path: Seq<char>,
) -> Seq<Report> {
    if cancelled {
        Seq::empty()
    } else if overwrite {
        seq![
            Report::Processing { index, total, path },
            Report::Log { message: begin_line(path) },
        ]
    } else {
        seq![Report::Processing { index, total, path }]
    }
}

/// Comes to a file: nothing is done where the work was cancelled, and the file is converted
/// without another look where files are overwritten.
pub fn begin_file(
    cancelled: bool,
    overwrite: bool,
    index: usize,
    total: usize,
    relative_path: &str,
) -> (r: (Vec<ProgressUpdate>, NextStep))
    ensures
        reports(r.0@) == begin_reports(
            cancelled,
            overwrite,
            index as nat,
            total as nat,
            relative_path@,
        ),
        r.1 == first_step(cancelled, overwrite),
{
    let mut out: Vec<ProgressUpdate> = Vec::new();
    assert(reports(out@) =~= Seq::empty());
    if cancelled {
        return (out, NextStep::End(FileOutcome::NotReached));
    }
    push_report(
        &mut out,
        ProgressUpdate::Processing { index, total, relative_path: relative_path.to_owned() },
    );
    if overwrite {
        let mut message: String = "⟳ ".to_owned();
        message.append(relative_path);
        push_report(&mut out, ProgressUpdate::Log { message });
        (out, NextStep::Convert)
    } else {
        (out, NextStep::Probe)
    }
}

/// The reports once it is known whether the file was converted before.
pub open spec fn probe_reports(converted: bool, index: nat, path: Seq<char>) -> Seq<Report> {
    if converted {
        seq![Report::Skipped { index, path }]
    } else {
        seq![Report::Log { message: begin_line(path) }]
    }
}

/// Goes on once it is known whether the file was converted before: such a file is skipped.
pub fn probed_file(converted: bool, index: usize, relative_path: &str) -> (r: (
    Vec<ProgressUpdate>,
    NextStep,
))
    ensures
        reports(r.0@) == probe_reports(converted, index as nat, relative_path@),
        r.1 == second_step(converted),
{
    let mut out: Vec<ProgressUpdate> = Vec::new();
    assert(reports(out@) =~= Seq::empty());
    if converted {
        push_report(
            &mut out,
            ProgressUpdate::Skipped { index, relative_path: relative_path.to_owned() },
        );
        (out, NextStep::End(FileOutcome::Skipped))
    } else {
        let mut message: String = "⟳ ".to_owned();
        message.append(relative_path);
        push_report(&mut out, ProgressUpdate::Log { message });
        (out, NextStep::Convert)
    }
}

/// The reports at the end of a conversion.
pub open spec fn end_reports(result: Result<u32, AppError>, index: nat, path: Seq<char>) -> Seq<
    Report,
> {
    match result {
        Ok(page_count) => seq![
            Report::Completed { index, path, page_count: page_count as nat },
            Report::Log { message: done_line(path, page_count as nat) },
        ],
        Err(e) => seq![
            Report::Error { index, path, message: e.text() },
            Report::Log { message: failed_line(path, e.text()) },
        ],
    }
}

/// Ends the work on a file that was converted, or could not be.
pub fn ended_file(result: &Result<u32, AppError>, index: usize, relative_path: &str) -> (r: (
    Vec<ProgressUpdate>,
    FileOutcome,
))
    ensures
        reports(r.0@) == end_reports(*result, index as nat, relative_path@),
        r.1 == last_step(*result),
{
    let mut out: Vec<ProgressUpdate> = Vec::new();
    assert(reports(out@) =~= Seq::empty());
    match result {
        Ok(page_count) => {
            push_report(
                &mut out,
                ProgressUpdate::Completed {
                    index,
                    relative_path: relative_path.to_owned(),
                    page_count: *page_count,
                },
            );
            let mut message: String = "✓ ".to_owned();
            message.append(relative_path);
            message.append(" (");
            push_decimal(&mut message, *page_count as u64);
            message.append(" pages)");
            push_report(&mut out, ProgressUpdate::Log { message });
            (out, FileOutcome::Done)
        },
        Err(e) => {
            let error_message: String = e.message();
            let mut message: String = "✗ ".to_owned();
            message.append(relative_path);
            message.append(": ");
            message.append(error_message.as_str());
            push_report(
                &mut out,
                ProgressUpdate::Error {
                    index,
                    relative_path: relative_path.to_owned(),
                    error_message,
                },
            );
            push_report(&mut out, ProgressUpdate::Log { message });
            (out, FileOutcome::Failed)
        },
    }
}

/// What becomes known of a file, one thing behind the other.
#[derive(Debug)]
pub enum FileEvent {
    /// The work comes to it, or was cancelled before.
    Reached { cancelled: bool },
    /// Whether it was converted before.
    Probed { converted: bool },
    /// What its conversion gave.
    Converted { result: Result<u32, AppError> },
}

impl FileEvent {
    /// What is to be done next.
    pub open spec fn next_step(self, overwrite: bool) -> NextStep {
        match self {
            FileEvent::Reached { cancelled } => first_step(cancelled, overwrite),
            FileEvent::Probed { converted } => second_step(converted),
            FileEvent::Converted { result } => NextStep::End(last_step(result)),
        }
    }

    /// What is reported.
    pub open spec fn told(self, overwrite: bool, index: nat, total: nat, path: Seq<char>) -> Seq<
        Report,
    > {
        match self {
            FileEvent::Reached { cancelled } => begin_reports(
                cancelled,
                overwrite,
                index,
                total,
                path,
            ),
            FileEvent::Probed { converted } => probe_reports(converted, index, path),
            FileEvent::Converted { result } => end_reports(result, index, path),
        }
    }

    /// How many more things can become known of the file.
    pub open spec fn events_left(self) -> nat {
        match self {
            FileEvent::Reached { .. } => 2,
            FileEvent::Probed { .. } => 1,
            FileEvent::Converted { .. } => 0,
        }
    }
}

/// Takes the next step on a file, given what became known of it.
pub fn step_file(
    event: &FileEvent,
    overwrite: bool,
    index: usize,
    total: usize,
    relative_path: &str,
) -> (r: (Vec<ProgressUpdate>, NextStep))
    ensures
        reports(r.0@) == event.told(overwrite, index as nat, total as nat, relative_path@),
        r.1 == event.next_step(overwrite),
{
    match event {
        FileEvent::Reached { cancelled } => begin_file(
            *cancelled,
            overwrite,
            index,
            total,
            relative_path,
        ),
        FileEvent::Probed { converted } => probed_file(*converted, index, relative_path),
        FileEvent::Converted { result } => {
            let (out, outcome) = ended_file(result, index, relative_path);
            (out, NextStep::End(outcome))
        },
    }
}

/// All that happens to a file.
pub ghost struct FileRun {
    pub index: nat,
    pub total: nat,
    pub path: Seq<char>,
    /// Whether the work was cancelled when it came to the file.
    pub cancelled: bool,
    pub overwrite: bool,
    /// Whether the file was converted before.
    pub converted: bool,
    /// What its conversion would give.
    pub result: Result<u32, AppError>,
}

impl FileRun {
    /// How the work on the file ends: its steps, one behind the other.
    pub open spec fn outcome(self) -> FileOutcome {
        match first_step(self.cancelled, self.overwrite) {
            NextStep::End(outcome) => outcome,
            NextStep::Convert => last_step(self.result),
            NextStep::Probe => match second_step(self.converted) {
                NextStep::End(outcome) => outcome,
                _ => last_step(self.result),
            },
        }
    }

    /// What is reported of the file, but for its pages: the reports of each step that is
    /// taken, in turn.
    pub open spec fn reports(self) -> Seq<Report> {
        let first = begin_reports(self.cancelled, self.overwrite, self.index, self.total, self.path);
        let last = end_reports(self.result, self.index, self.path);
        match first_step(self.cancelled, self.overwrite) {
            NextStep::End(_) => first,
            NextStep::Convert => first + last,
            NextStep::Probe => {
                let second = probe_reports(self.converted, self.index, self.path);
                match second_step(self.converted) {
                    NextStep::End(_) => first + second,
                    _ => first + second + last,
                }
            },
        }
    }

    /// What becomes known when a step asks for it.
    pub open spec fn answer(self, step: NextStep) -> FileEvent {
        if step == NextStep::Probe {
            FileEvent::Probed { converted: self.converted }
        } else {
            FileEvent::Converted { result: self.result }
        }
    }

    /// Carries the work on the file to its end, step by step, from what became known last: what
    /// is reported on the way, and how it ends.
    pub open spec fn carried_on(self, event: FileEvent) -> (Seq<Report>, FileOutcome)
        decreases event.events_left(),
    {
        let told = event.told(self.overwrite, self.index, self.total, self.path);
        match event.next_step(self.overwrite) {
            NextStep::End(outcome) => (told, outcome),
            step => {
                let rest = self.carried_on(self.answer(step));
                (told + rest.0, rest.1)
            },
        }
    }
}

/// A file on which all steps are taken, one behind the other, is reported and ends as it is to.
pub proof fn law_file_is_carried_to_its_end(run: FileRun)
    ensures
        run.carried_on(FileEvent::Reached { cancelled: run.cancelled }) == (
            run.reports(),
            run.outcome(),
        ),
{
    let start = FileEvent::Reached { cancelled: run.cancelled };
    reveal_with_fuel(FileRun::carried_on, 3);
    assert(run.carried_on(start).0 =~= run.reports());
}

/// The number of reports of `s` that `which` picks.
pub open spec fn count_of(s: Seq<Report>, which: FileOutcome) -> nat
    decreases s.len(),
{
    if s.len() == 0 {
        0
    } else {
        count_of(s.drop_last(), which) + (if outcome_reported(s.last()) == Some(which) {
            1nat
        } else {
            0
        })
    }
}

/// The end of the work on a file that a report tells of, if it tells of one.
pub open spec fn outcome_reported(r: Report) -> Option<FileOutcome> {
    match r {
        Report::Completed { .. } => Some(FileOutcome::Done),
        Report::Error { .. } => Some(FileOutcome::Failed),
        Report::Skipped { .. } => Some(FileOutcome::Skipped),
        _ => None,
    }
}

/// Counting in two parts.
pub proof fn lemma_count_concat(s: Seq<Report>, t: Seq<Report>, which: FileOutcome)
    ensures
        count_of(s + t, which) == count_of(s, which) + count_of(t, which),
    decreases t.len(),
{
    if t.len() == 0 {
        assert(s + t =~= s);
    } else {
        lemma_count_concat(s, t.drop_last(), which);
        assert((s + t).drop_last() =~= s + t.drop_last());
    }
}

/// Of each file that the work comes to, its end is reported once, and no other end; of a
/// file that it does not come to, nothing is reported.
pub proof fn law_end_reported_once(run: FileRun, which: FileOutcome)
    requires
        which != FileOutcome::NotReached,
    ensures
        count_of(run.reports(), which) == (if run.outcome() == which {
            1nat
        } else {
            0
        }),
        run.outcome() == FileOutcome::NotReached <==> run.reports().len() == 0,
{
    reveal_with_fuel(count_of, 6);
}

/// A file that was converted before is converted again only where files are overwritten.
pub proof fn law_converted_is_skipped(run: FileRun)
    requires
        !run.cancelled,
        run.converted,
    ensures
        run.outcome() == FileOutcome::Skipped <==> !run.overwrite,
        run.overwrite ==> run.outcome() == last_step(run.result),
{
}

// ---------------------------------------------------------------------------
// All files
// ---------------------------------------------------------------------------

/// How many files ended in which way.
#[derive(Debug, Clone, Copy, PartialEq, Eq, Structural)]
pub struct Tally {
    pub success: u32,
    pub error: u32,
    pub skipped: u32,
}

impl Tally {
    /// The number of files that ended the given way.
    pub open spec fn of(self, which: FileOutcome) -> nat {
        match which {
            FileOutcome::Done => self.success as nat,
            FileOutcome::Failed => self.error as nat,
            FileOutcome::Skipped => self.skipped as nat,
            FileOutcome::NotReached => 0,
        }
    }

    /// No files yet.
    pub fn new() -> (t: Tally)
        ensures
            t == (Tally { success: 0, error: 0, skipped: 0 }),
    {
        Tally { success: 0, error: 0, skipped: 0 }
    }

    /// Counts the end of the work on a file.
    pub fn record(&mut self, outcome: FileOutcome)
        requires
            old(self).of(outcome) < u32::MAX,
        ensures
            forall|which: FileOutcome|
                which != FileOutcome::NotReached ==> #[trigger] final(self).of(which) == old(self).of(
                    which,
                ) + (if which == outcome {
                    1nat
                } else {
                    0
                }),
    {
        match outcome {
            FileOutcome::Done => {
                self.success = self.success + 1;
            },
            FileOutcome::Failed => {
                self.error = self.error + 1;
            },
            FileOutcome::Skipped => {
                self.skipped = self.skipped + 1;
            },
            FileOutcome::NotReached => {},
        }
    }

    /// The report that the work is over.
    pub fn finished(&self) -> (u: ProgressUpdate)
        ensures
            u@ == (Report::Finished {
                success_count: self.success as nat,
                error_count: self.error as nat,
                skipped_count: self.skipped as nat,
            }),
    {
        ProgressUpdate::Finished {
            success_count: self.success,
            error_count: self.error,
            skipped_count: self.skipped,
        }
    }
}

/// The report that the work begins.
pub fn started(total: usize) -> (u: ProgressUpdate)
    ensures
        u@ == (Report::Started { total: total as nat }),
{
    ProgressUpdate::Started { total }
}

/// The number of files among `runs` that end the given way.
pub open spec fn ended(runs: Seq<FileRun>, which: FileOutcome) -> nat
    decreases runs.len(),
{
    if runs.len() == 0 {
        0
    } else {
        ended(runs.drop_last(), which) + (if runs.last().outcome() == which {
            1nat
        } else {
            0
        })
    }
}

/// The reports of `runs`, one file behind the other.
pub open spec fn all_reports(runs: Seq<FileRun>) -> Seq<Report>
    decreases runs.len(),
{
    if runs.len() == 0 {
        Seq::empty()
    } else {
        all_reports(runs.drop_last()) + runs.last().reports()
    }
}

/// Whether a tally counts how the work on some files ended.
pub open spec fn counts_runs(t: Tally, runs: Seq<FileRun>) -> bool {
    forall|which: FileOutcome|
        which != FileOutcome::NotReached ==> #[trigger] t.of(which) == ended(runs, which)
}

/// The empty tally counts no files, and a tally that counts some files counts one more once its
/// end is recorded.
pub proof fn law_tally_counts_runs(before: Tally, after: Tally, runs: Seq<FileRun>, run: FileRun)
    requires
        counts_runs(before, runs),
        forall|which: FileOutcome|
            which != FileOutcome::NotReached ==> #[trigger] after.of(which) == before.of(which) + (
            if which == run.outcome() {
                1nat
            } else {
                0
            }),
    ensures
        counts_runs(Tally { success: 0, error: 0, skipped: 0 }, Seq::empty()),
        counts_runs(after, runs.push(run)),
{
    assert(runs.push(run).drop_last() =~= runs);
    assert forall|which: FileOutcome| which != FileOutcome::NotReached implies #[trigger] after.of(
        which,
    ) == ended(runs.push(run), which) by {
        assert(before.of(which) == ended(runs, which));
    }
}

/// The number of ends that are reported is the number of files that end so, and every file
/// ends in one of the four ways.
pub proof fn law_reports_match_ends(runs: Seq<FileRun>, which: FileOutcome)
    requires
        which != FileOutcome::NotReached,
    ensures
        count_of(all_reports(runs), which) == ended(runs, which),
        ended(runs, FileOutcome::Done) + ended(runs, FileOutcome::Failed) + ended(
            runs,
            FileOutcome::Skipped,
        ) + ended(runs, FileOutcome::NotReached) == runs.len(),
    decreases runs.len(),
{
    if runs.len() > 0 {
        law_reports_match_ends(runs.drop_last(), which);
        law_end_reported_once(runs.last(), which);
        lemma_count_concat(all_reports(runs.drop_last()), runs.last().reports(), which);
    }
}

/// The number of ends that are reported does not depend on the order of the reports, so files
/// may be worked on side by side.
pub proof fn law_count_ignores_order(s: Seq<Report>, t: Seq<Report>, which: FileOutcome)
    requires
        s.to_multiset() == t.to_multiset(),
    ensures
        count_of(s, which) == count_of(t, which),
    decreases s.len(),
{
    broadcast use vstd::seq_lib::group_to_multiset_ensures;

    assert(s.len() == t.len()) by {
        assert(s.to_multiset().len() == s.len());
        assert(t.to_multiset().len() == t.len());
    }
    if s.len() > 0 {
        let r = s.last();
        assert(s.contains(r));
        assert(t.to_multiset().count(r) > 0);
        assert(t.contains(r));
        let j = choose|j: int| 0 <= j < t.len() && t[j] == r;
        let rest = t.remove(j);
        assert(s.drop_last() =~= s.remove(s.len() - 1));
        assert(s.drop_last().to_multiset() =~= rest.to_multiset());
        law_count_ignores_order(s.drop_last(), rest, which);
        let front = t.take(j);
        let back = t.skip(j + 1);
        assert(rest =~= front + back);
        assert(t =~= front.push(r) + back);
        lemma_count_concat(front, back, which);
        lemma_count_concat(front.push(r), back, which);
        assert(front.push(r).drop_last() =~= front);
    }
}

/// Whether all reports are on pages, or lines of the log.
pub open spec fn only_pages(rs: Seq<Report>) -> bool {
    forall|k: int| 0 <= k < rs.len() ==> (#[trigger] rs[k]) is PageProgress || rs[k] is Log
}

proof fn lemma_pages_end_nothing(pages: Seq<Report>, which: FileOutcome)
    requires
        only_pages(pages),
    ensures
        count_of(pages, which) == 0,
    decreases pages.len(),
{
    if pages.len() > 0 {
        lemma_pages_end_nothing(pages.drop_last(), which);
        assert(outcome_reported(pages[pages.len() - 1]) is None);
    }
}

/// The number of ends among the reports of a run, in whatever order they come and with whatever
/// reports of pages between them, is the number of files that end so.
pub proof fn law_run_reports_match_ends(
    runs: Seq<FileRun>,
    pages: Seq<Report>,
    rs: Seq<Report>,
    which: FileOutcome,
)
    requires
        which != FileOutcome::NotReached,
        only_pages(pages),
        rs.to_multiset() == (all_reports(runs) + pages).to_multiset(),
    ensures
        count_of(rs, which) == ended(runs, which),
{
    law_count_ignores_order(rs, all_reports(runs) + pages, which);
    lemma_count_concat(all_reports(runs), pages, which);
    lemma_pages_end_nothing(pages, which);
    law_reports_match_ends(runs, which);
}

/// Among the reports of files none tells that the work begins, and none that it is over.
pub proof fn lemma_runs_report_files(runs: Seq<FileRun>)
    ensures
        forall|k: int|
            0 <= k < all_reports(runs).len() ==> !((#[trigger] all_reports(runs)[k]) is Started)
                && !(all_reports(runs)[k] is Finished),
    decreases runs.len(),
{
    if runs.len() > 0 {
        lemma_runs_report_files(runs.drop_last());
    }
}

// ---------------------------------------------------------------------------
// Disk space
// ---------------------------------------------------------------------------

/// The bytes that a page takes at a resolution: 500,000 at 72 dots per inch, growing with
/// its square.
pub open spec fn page_bytes(dpi: nat) -> nat {
    let exact = dpi * dpi * 500_000 / 5184;
    if exact <= u64::MAX {
        exact
    } else {
        u64::MAX as nat
    }
}

/// Six fifths of the bytes that the pages take, times a hundred.
pub open spec fn scaled_bytes(file_count: nat, avg_pages_per_pdf: nat, dpi: nat) -> nat {
    file_count * avg_pages_per_pdf * page_bytes(dpi) * 120
}

/// The bytes that the pages of the files take, and a fifth more.
pub open spec fn required_bytes(file_count: nat, avg_pages_per_pdf: nat, dpi: nat) -> nat {
    scaled_bytes(file_count, avg_pages_per_pdf, dpi) / 100
}

/// Whether the estimate can be made in 64 bits.
pub open spec fn estimate_fits(file_count: nat, avg_pages_per_pdf: nat, dpi: nat) -> bool {
    &&& file_count * avg_pages_per_pdf <= u64::MAX
    &&& scaled_bytes(file_count, avg_pages_per_pdf, dpi) <= u64::MAX
}

fn bytes_per_page(dpi: u32) -> (r: u64)
    ensures
        r == page_bytes(dpi as nat),
{
    let d: u128 = dpi as u128;
    assert(d * d <= 0xffff_ffff * 0xffff_ffff) by (nonlinear_arith)
        requires
            d <= 0xffff_ffff,
    ;
    let exact: u128 = d * d * 500_000 / 5184;
    if exact <= u64::MAX as u128 {
        exact as u64
    } else {
        u64::MAX
    }
}

/// Estimates the bytes that the pages of the files take, with a fifth to spare; `None` where
/// the numbers are too large for 64 bits.
pub fn checked_estimate(file_count: usize, avg_pages_per_pdf: u32, dpi: u32) -> (r: Option<u64>)
    ensures
        match r {
            Some(v) => estimate_fits(file_count as nat, avg_pages_per_pdf as nat, dpi as nat) && v
                == required_bytes(file_count as nat, avg_pages_per_pdf as nat, dpi as nat),
            None => !estimate_fits(file_count as nat, avg_pages_per_pdf as nat, dpi as nat),
        },
{
    let per_page: u64 = bytes_per_page(dpi);
    let pages: u64 = match (file_count as u64).checked_mul(avg_pages_per_pdf as u64) {
        Some(n) => n,
        None => {
            return None;
        },
    };
    let bytes: u64 = match pages.checked_mul(per_page) {
        Some(n) => n,
        None => {
            return None;
        },
    };
    match bytes.checked_mul(120) {
        Some(n) => Some(n / 100),
        None => None,
    }
}

/// Estimates the bytes that the pages of the files take, with a fifth to spare.
pub fn estimate_required_bytes(file_count: usize, avg_pages_per_pdf: u32, dpi: u32) -> (r: u64)
    requires
        estimate_fits(file_count as nat, avg_pages_per_pdf as nat, dpi as nat),
    ensures
        r == required_bytes(file_count as nat, avg_pages_per_pdf as nat, dpi as nat),
{
    match checked_estimate(file_count, avg_pages_per_pdf, dpi) {
        Some(v) => v,
        None => 0,
    }
}

/// Checks that the output has room for the pages of the files, given the bytes that are
/// free there. Where that is not known the check passes.
pub fn check_disk_space(
    output_path: &[u8],
    file_count: usize,
    avg_pages: u32,
    dpi: u32,
    free: Option<u64>,
) -> (r: Result<(), AppError>)
    requires
        estimate_fits(file_count as nat, avg_pages as nat, dpi as nat),
    ensures
        ({
            let estimated = required_bytes(file_count as nat, avg_pages as nat, dpi as nat);
            match r {
                Ok(_) => free matches Some(f) ==> f >= estimated,
                Err(AppError::InsufficientDiskSpace { need, available, path }) => free == Some(
                    available,
                ) && available < estimated && need == estimated && path@ == output_path@,
                Err(_) => false,
            }
        }),
{
    let estimated: u64 = estimate_required_bytes(file_count, avg_pages, dpi);
    match free {
        Some(available) => {
            if available < estimated {
                return Err(
                    AppError::InsufficientDiskSpace {
                        need: estimated,
                        available,
                        path: slice_to_vec(output_path),
                    },
                );
            }
            Ok(())
        },
        None => Ok(()),
    }
}

/// More files, more pages in a file or a higher resolution never take less space.
pub proof fn law_estimate_grows(
    files: nat,
    more_files: nat,
    pages: nat,
    more_pages: nat,
    dpi: nat,
    higher_dpi: nat,
)
    requires
        files <= more_files,
        pages <= more_pages,
        dpi <= higher_dpi,
    ensures
        page_bytes(dpi) <= page_bytes(higher_dpi),
        required_bytes(files, pages, dpi) <= required_bytes(more_files, more_pages, higher_dpi),
{
    assert(dpi * dpi <= higher_dpi * higher_dpi) by (nonlinear_arith)
        requires
            0 <= dpi <= higher_dpi,
    ;
    let b = page_bytes(dpi);
    let c = page_bytes(higher_dpi);
    assert(files * pages <= more_files * more_pages) by (nonlinear_arith)
        requires
            0 <= files <= more_files,
            0 <= pages <= more_pages,
    ;
    let n = files * pages;
    let m = more_files * more_pages;
    assert(n * b <= m * c) by (nonlinear_arith)
        requires
            0 <= n <= m,
            0 <= b <= c,
    ;
}

// ---------------------------------------------------------------------------
// The error log
// ---------------------------------------------------------------------------

/// The path of the error log in the output folder.
pub open spec fn error_log(root: Seq<u8>) -> Seq<u8> {
    join(join(root, encode_utf8("logs"@)), encode_utf8("errors.txt"@))
}

/// Builds the path of the error log in the output folder.
pub fn error_log_path(output_root: &[u8]) -> (r: Vec<u8>)
    ensures
        r@ == error_log(output_root@),
{
    let dir: Vec<u8> = join_paths(output_root, "logs".as_bytes());
    join_paths(dir.as_slice(), "errors.txt".as_bytes())
}

/// The line of the error log for a file.
pub fn error_log_entry(now: &str, relative_path: &str, error: &str) -> (r: String)
    ensures
        r@ == "["@ + now@ + "] "@ + relative_path@ + ": "@ + error@ + "\n"@,
{
    let mut out: String = "[".to_owned();
    out.append(now);
    out.append("] ");
    out.append(relative_path);
    out.append(": ");
    out.append(error);
    out.append("\n");
    out
}

// ---------------------------------------------------------------------------
// Laws of the work
// ---------------------------------------------------------------------------

/// How the work on a file ends: it is not reached where the work was cancelled before, skipped
/// where it was converted before and nothing is overwritten, and else done or failed as its
/// conversion goes.
pub proof fn law_files_end_as_they_should(run: FileRun)
    ensures
        run.outcome() == FileOutcome::NotReached <==> run.cancelled,
        run.outcome() == FileOutcome::Skipped <==> !run.cancelled && !run.overwrite && run.converted,
        run.outcome() == FileOutcome::Done <==> !run.cancelled && (run.overwrite || !run.converted)
            && run.result is Ok,
        run.outcome() == FileOutcome::Failed <==> !run.cancelled && (run.overwrite
            || !run.converted) && run.result is Err,
{
}

/// What is reported of a file that the work comes to: that it is worked on, and then its end, with
/// its path and its place, the number of its pages or the words of its error; and lines of the log.
pub proof fn law_files_are_reported_as_they_end(run: FileRun)
    ensures
        run.cancelled ==> run.reports().len() == 0,
        !run.cancelled ==> run.reports().len() > 0 && run.reports()[0] == (Report::Processing {
            index: run.index,
            total: run.total,
            path: run.path,
        }),
        run.outcome() == FileOutcome::Skipped ==> run.reports().len() == 2 && run.reports()[1] == (
        Report::Skipped { index: run.index, path: run.path }),
        run.outcome() == FileOutcome::Done ==> run.reports().len() == 4 && run.reports()[1] == (
        Report::Log { message: "⟳ "@ + run.path }) && run.reports()[2] == (Report::Completed {
            index: run.index,
            path: run.path,
            page_count: run.result->Ok_0 as nat,
        }) && run.reports()[3] == (Report::Log {
            message: "✓ "@ + run.path + " ("@ + decimal(run.result->Ok_0 as nat) + " pages)"@,
        }),
        run.outcome() == FileOutcome::Failed ==> run.reports().len() == 4 && run.reports()[1] == (
        Report::Log { message: "⟳ "@ + run.path }) && run.reports()[2] == (Report::Error {
            index: run.index,
            path: run.path,
            message: run.result->Err_0.text(),
        }) && run.reports()[3] == (Report::Log {
            message: "✗ "@ + run.path + ": "@ + run.result->Err_0.text(),
        }),
{
}

/// A page takes 500,000 bytes at 72 dots per inch, and with the resolution in both directions its
/// bytes grow as the square; between, to the whole byte below.
pub proof fn law_page_bytes_grow_with_the_square(k: nat, dpi: nat)
    ensures
        k * k * 500_000 <= u64::MAX ==> page_bytes(72 * k) == k * k * 500_000,
        dpi * dpi * 500_000 <= u64::MAX ==> {
            &&& page_bytes(dpi) * 5184 <= dpi * dpi * 500_000
            &&& dpi * dpi * 500_000 < (page_bytes(dpi) + 1) * 5184
        },
{
    assert((72 * k) * (72 * k) * 500_000 == (k * k * 500_000) * 5184) by (nonlinear_arith);
    let x = k * k * 500_000;
    vstd::arithmetic::div_mod::lemma_div_multiples_vanish(x as int, 5184);
    assert(x * 5184 == 5184 * x) by (nonlinear_arith);
    let y = dpi * dpi * 500_000;
    vstd::arithmetic::div_mod::lemma_fundamental_div_mod(y as int, 5184);
}

/// The estimate is the bytes of all pages of all files and a fifth more, to the whole byte below.
pub proof fn law_estimate_leaves_a_fifth_to_spare(files: nat, pages: nat, dpi: nat)
    ensures
        5 * required_bytes(files, pages, dpi) <= 6 * (files * pages * page_bytes(dpi)),
        6 * (files * pages * page_bytes(dpi)) < 5 * (required_bytes(files, pages, dpi) + 1),
        required_bytes(0, pages, dpi) == 0,
        required_bytes(5, 1, dpi) == 6 * page_bytes(dpi),
{
    let x = files * pages * page_bytes(dpi);
    assert(scaled_bytes(files, pages, dpi) == x * 120);
    vstd::arithmetic::div_mod::lemma_fundamental_div_mod((x * 120) as int, 100);
    assert(0 * pages * page_bytes(dpi) * 120 == 0) by (nonlinear_arith);
    assert(5nat * 1nat * page_bytes(dpi) * 120 == 600 * page_bytes(dpi)) by (nonlinear_arith);
}

/// The error log lies in the folder `logs` of the output folder.
pub proof fn law_error_log_lies_in_the_output(root: Seq<u8>)
    ensures
        component_texts(error_log(root)) == component_texts(root) + seq![
            encode_utf8("logs"@),
            encode_utf8("errors.txt"@),
        ],
{
    reveal_strlit("logs");
    reveal_strlit("errors.txt");
    let logs = encode_utf8("logs"@);
    let errors = encode_utf8("errors.txt"@);
    is_ascii_chars_encode_utf8("logs"@);
    is_ascii_chars_encode_utf8("errors.txt"@);
    assert forall|k: int| 0 <= k < logs.len() implies logs[k] != SLASH by {
        assert(logs[k] == "logs"@[k] as u8);
    }
    assert forall|k: int| 0 <= k < errors.len() implies errors[k] != SLASH by {
        assert(errors[k] == "errors.txt"@[k] as u8);
    }
    assert(logs.len() == 4 && errors.len() == 10);
    law_plain_name(logs);
    law_plain_name(errors);
    law_join_texts(root, logs);
    law_join_texts(join(root, logs), errors);
    assert(component_texts(error_log(root)) =~= component_texts(root) + seq![logs, errors]);
}

} // verus!
