//! The conversion of rendered pages to WebP images, step by step.

use crate::config::OutputFormat;
use crate::converter::{
    convert_page, line_of, page_in, page_paths, page_reports, quality_line, quality_model,
    report_page, stays, PageQuality, PageStep, QualityModel, HIGHEST_QUALITY, LOWEST_QUALITY,
};
use crate::encode::{
    adaptive_page, buffer_fits, law_search_finds, law_search_minimal, page_encoding, search_between,
    size_text, webp_encoding, EncodeStats, PageWrite, QualitySearch, MAX_PROBES,
};
use crate::error::{AppError, ErrorModel};
use crate::mirror::{law_pages_are_first_written_beside, page_name, temp_path};
use crate::path::join;
use crate::render::PageData;
use crate::text::{decimal, law_number_stands_out};
use crate::worker::{only_pages, reports, ProgressUpdate, Report};
use vstd::prelude::*;
use vstd::slice::*;
use vstd::string::*;
use vstd::utf8::*;

verus! {

// ---------------------------------------------------------------------------
// The steps
// ---------------------------------------------------------------------------

/// Where the conversion is with a page.
#[derive(Debug, Clone, Copy, PartialEq, Eq, Structural)]
pub enum WebpPhase {
    Looking,
    Searching,
    Encoding,
    Writing,
    Over,
}

/// What the conversion asks for. Qualities are counted in 64ths.
#[derive(Debug)]
pub enum WebpAction {
    /// To look whether there is a file.
    Look { path: Vec<u8> },
    /// To encode the page at a quality, and to tell whether its score reaches the target.
    Try { quality: u32 },
    /// To encode the page at a quality, and to tell its score.
    Encode { quality: u32 },
    /// To write the page.
    Write { write: PageWrite },
    /// Nothing: the file has so many pages.
    Finish { page_count: u32 },
    /// Nothing: the conversion failed.
    Fail { error: AppError },
    /// Nothing: the encoder made nothing of a page.
    NotEncoded,
}

/// A page that was encoded at the quality that was found for it.
#[derive(Debug)]
pub struct ScoredPage {
    pub bytes: Vec<u8>,
    /// The score, where there is one: the bits of an IEEE 754 double.
    pub score: Option<u64>,
    /// The score with one digit behind the point.
    pub shown: String,
}

/// What came of it.
#[derive(Debug)]
pub enum WebpEvent {
    Looked { present: bool },
    Tried { meets: Result<bool, AppError> },
    Encoded { page: Result<ScoredPage, AppError> },
    Written,
}

/// What the conversion asks for, with its texts.
pub ghost enum WebpActionModel {
    Look { path: Seq<u8> },
    Try { quality: int },
    Encode { quality: int },
    Write { path: Seq<u8>, temp: Seq<u8>, bytes: Seq<u8> },
    Finish { page_count: u32 },
    Fail { error: ErrorModel },
    NotEncoded,
}

impl View for WebpAction {
    type V = WebpActionModel;

    open spec fn view(&self) -> WebpActionModel {
        match *self {
            WebpAction::Look { path } => WebpActionModel::Look { path: path@ },
            WebpAction::Try { quality } => WebpActionModel::Try { quality: quality as int },
            WebpAction::Encode { quality } => WebpActionModel::Encode { quality: quality as int },
            WebpAction::Write { write } => WebpActionModel::Write {
                path: write.path@,
                temp: write.temp_path@,
                bytes: write.bytes@,
            },
            WebpAction::Finish { page_count } => WebpActionModel::Finish { page_count },
            WebpAction::Fail { error } => WebpActionModel::Fail { error: error@ },
            WebpAction::NotEncoded => WebpActionModel::NotEncoded,
        }
    }
}

/// A page that was encoded at the quality that was found for it, with its text.
pub ghost struct ScoredModel {
    pub bytes: Seq<u8>,
    pub score: Option<u64>,
    pub shown: Seq<char>,
}

/// What came of it, with its texts.
pub ghost enum WebpEventModel {
    Looked { present: bool },
    Tried { meets: Result<bool, ErrorModel> },
    Encoded { page: Result<ScoredModel, ErrorModel> },
    Written,
}

impl View for WebpEvent {
    type V = WebpEventModel;

    open spec fn view(&self) -> WebpEventModel {
        match *self {
            WebpEvent::Looked { present } => WebpEventModel::Looked { present },
            WebpEvent::Tried { meets } => WebpEventModel::Tried {
                meets: match meets {
                    Ok(b) => Ok(b),
                    Err(e) => Err(e@),
                },
            },
            WebpEvent::Encoded { page } => WebpEventModel::Encoded {
                page: match page {
                    Ok(p) => Ok(
                        ScoredModel { bytes: p.bytes@, score: p.score, shown: p.shown@ },
                    ),
                    Err(e) => Err(e@),
                },
            },
            WebpEvent::Written => WebpEventModel::Written,
        }
    }
}

/// The conversion of rendered pages to WebP images.
#[derive(Debug)]
pub struct WebpRun {
    pub pages: Vec<PageData>,
    /// The folder of the document.
    pub output_dir: Vec<u8>,
    pub relative_path: String,
    pub quality: u8,
    pub adaptive: bool,
    pub overwrite: bool,
    /// The place of the page that is worked on.
    pub index: usize,
    pub phase: WebpPhase,
    /// The search for the quality of the page.
    pub search: QualitySearch,
    /// What the search found.
    pub found: Option<PageQuality>,
}

/// The conversion of rendered pages to WebP images, with its texts.
pub ghost struct WebpRunModel {
    pub pages: Seq<PageData>,
    pub dir: Seq<u8>,
    pub relative_path: Seq<char>,
    pub quality: u8,
    pub adaptive: bool,
    pub overwrite: bool,
    pub index: nat,
    pub phase: WebpPhase,
    pub search: QualitySearch,
    /// What the search found.
    pub found: Option<QualityModel>,
}

impl View for WebpRun {
    type V = WebpRunModel;

    open spec fn view(&self) -> WebpRunModel {
        WebpRunModel {
            pages: self.pages@,
            dir: self.output_dir@,
            relative_path: self.relative_path@,
            quality: self.quality,
            adaptive: self.adaptive,
            overwrite: self.overwrite,
            index: self.index as nat,
            phase: self.phase,
            search: self.search,
            found: quality_model(self.found),
        }
    }
}

/// The error where a page has too few pixels.
pub open spec fn short_page(page: PageData) -> ErrorModel {
    ErrorModel::Webp("Bad buffer "@ + size_text(page.width, page.height))
}

/// The numbers of a page that was encoded at the quality that was found for it.
pub open spec fn stats_of(search: QualitySearch, page: ScoredModel) -> EncodeStats {
    EncodeStats {
        quality_used: search.best,
        ssimulacra2_score: match page.score {
            Some(v) => v,
            None => 0,
        },
        file_size: page.bytes.len() as usize,
    }
}

impl WebpRunModel {
    /// The page that is worked on.
    pub open spec fn page(self) -> PageData {
        self.pages[self.index as int]
    }

    /// The path of the page that is worked on.
    pub open spec fn path(self) -> Seq<u8> {
        page_in(self.dir, self.page().page_num as nat, OutputFormat::Webp)
    }

    /// Whether the conversion is in order: there is a page to work on, and its search is open
    /// while it goes on.
    pub open spec fn wf(self) -> bool {
        &&& self.phase == WebpPhase::Over || self.index < self.pages.len()
        &&& self.search.wf()
        &&& self.phase == WebpPhase::Searching ==> self.search.is_open()
    }

    /// The conversion when it comes to a page, and what it asks for then.
    pub open spec fn at_page(self) -> (WebpRunModel, WebpActionModel) {
        if self.index < self.pages.len() {
            let m = WebpRunModel { phase: WebpPhase::Looking, found: None, ..self };
            (m, WebpActionModel::Look { path: m.path() })
        } else {
            (
                WebpRunModel { phase: WebpPhase::Over, found: None, ..self },
                WebpActionModel::Finish { page_count: self.pages.len() as u32 },
            )
        }
    }

    /// The conversion when it goes on to the next page, and what it asks for then.
    pub open spec fn advanced(self) -> (WebpRunModel, WebpActionModel) {
        (WebpRunModel { index: self.index + 1, ..self }).at_page()
    }

    /// The conversion when it writes the page, and what it asks for then.
    pub open spec fn writing(self, bytes: Seq<u8>) -> (WebpRunModel, WebpActionModel) {
        (
            WebpRunModel { phase: WebpPhase::Writing, ..self },
            WebpActionModel::Write {
                path: self.path(),
                temp: temp_path(self.path(), OutputFormat::Webp),
                bytes,
            },
        )
    }

    /// The conversion when it is over, and what it asks for then.
    pub open spec fn over(self, a: WebpActionModel) -> (WebpRunModel, WebpActionModel) {
        (WebpRunModel { phase: WebpPhase::Over, ..self }, a)
    }

    /// The conversion when its search is where `search` is, and what it asks for then.
    pub open spec fn searching(self, search: QualitySearch) -> (WebpRunModel, WebpActionModel) {
        if search.is_open() {
            (
                WebpRunModel { phase: WebpPhase::Searching, search, ..self },
                WebpActionModel::Try { quality: search.middle() },
            )
        } else {
            (
                WebpRunModel { phase: WebpPhase::Encoding, search, ..self },
                WebpActionModel::Encode { quality: search.best as int },
            )
        }
    }

    /// Whether an event is what the conversion waits for.
    pub open spec fn expects(self, e: WebpEventModel) -> bool {
        match self.phase {
            WebpPhase::Looking => e is Looked,
            WebpPhase::Searching => e is Tried,
            WebpPhase::Encoding => e is Encoded,
            WebpPhase::Writing => e is Written,
            WebpPhase::Over => false,
        }
    }

    /// The conversion after an event, and what it asks for then.
    pub open spec fn after(self, e: WebpEventModel) -> (WebpRunModel, WebpActionModel) {
        match e {
            WebpEventModel::Looked { present } => if stays(present, self.overwrite) {
                self.advanced()
            } else if self.adaptive {
                self.searching(search_between(LOWEST_QUALITY, HIGHEST_QUALITY))
            } else if !buffer_fits(
                self.page().width,
                self.page().height,
                self.page().rgba_data@.len(),
            ) {
                self.over(WebpActionModel::Fail { error: short_page(self.page()) })
            } else {
                match page_encoding(self.page(), self.quality) {
                    Some(bytes) => self.writing(bytes),
                    None => self.over(WebpActionModel::NotEncoded),
                }
            },
            WebpEventModel::Tried { meets } => match meets {
                Ok(meets) => self.searching(self.search.after(meets)),
                Err(error) => self.over(WebpActionModel::Fail { error }),
            },
            WebpEventModel::Encoded { page } => match page {
                Ok(page) => (WebpRunModel {
                    found: Some(
                        QualityModel { stats: stats_of(self.search, page), score: page.shown },
                    ),
                    ..self
                }).writing(page.bytes),
                Err(error) => self.over(WebpActionModel::Fail { error }),
            },
            WebpEventModel::Written => self.advanced(),
        }
    }

    /// What is reported after an event.
    pub open spec fn reports_after(self, e: WebpEventModel) -> Seq<Report> {
        if e is Written {
            page_reports(
                self.relative_path,
                self.page().page_num as nat,
                (self.pages.len() as u32) as nat,
                line_of(self.page().page_num as nat, self.found),
            )
        } else {
            Seq::empty()
        }
    }
}

impl WebpRun {
    /// Begins the conversion of rendered pages.
    pub fn begin(
        pages: Vec<PageData>,
        output_dir: &[u8],
        relative_path: &str,
        quality: u8,
        adaptive: bool,
        overwrite: bool,
    ) -> (r: (WebpRun, WebpAction))
        ensures
            (r.0@, r.1@) == (WebpRunModel {
                pages: pages@,
                dir: output_dir@,
                relative_path: relative_path@,
                quality,
                adaptive,
                overwrite,
                index: 0,
                phase: WebpPhase::Looking,
                search: search_between(LOWEST_QUALITY, HIGHEST_QUALITY),
                found: None,
            }).at_page(),
            r.0@.wf(),
    {
        let mut run: WebpRun = WebpRun {
            pages,
            output_dir: slice_to_vec(output_dir),
            relative_path: relative_path.to_owned(),
            quality,
            adaptive,
            overwrite,
            index: 0,
            phase: WebpPhase::Looking,
            search: QualitySearch::new(LOWEST_QUALITY, HIGHEST_QUALITY),
            found: None,
        };
        let action: WebpAction = run.come_to_page();
        (run, action)
    }

    fn come_to_page(&mut self) -> (r: WebpAction)
        requires
            old(self)@.search.wf(),
        ensures
            (final(self)@, r@) == old(self)@.at_page(),
            final(self)@.wf(),
    {
        self.found = None;
        if self.index < self.pages.len() {
            self.phase = WebpPhase::Looking;
            WebpAction::Look {
                path: page_paths(
                    self.output_dir.as_slice(),
                    self.pages[self.index].page_num,
                    OutputFormat::Webp,
                ).path,
            }
        } else {
            self.phase = WebpPhase::Over;
            WebpAction::Finish { page_count: self.pages.len() as u32 }
        }
    }

    fn advance(&mut self) -> (r: WebpAction)
        requires
            old(self)@.search.wf(),
            old(self)@.index < old(self)@.pages.len(),
        ensures
            (final(self)@, r@) == old(self)@.advanced(),
            final(self)@.wf(),
    {
        let len: usize = self.pages.len();
        assert(self.index < len);
        self.index = self.index + 1;
        self.come_to_page()
    }

    fn go_on_searching(&mut self, search: QualitySearch) -> (r: WebpAction)
        requires
            old(self)@.index < old(self)@.pages.len(),
            search.wf(),
        ensures
            (final(self)@, r@) == old(self)@.searching(search),
            final(self)@.wf(),
    {
        self.search = search;
        match search.next_probe() {
            Some(quality) => {
                self.phase = WebpPhase::Searching;
                WebpAction::Try { quality }
            },
            None => {
                self.phase = WebpPhase::Encoding;
                WebpAction::Encode { quality: search.best }
            },
        }
    }

    fn fail(&mut self, error: AppError) -> (r: WebpAction)
        requires
            old(self)@.search.wf(),
        ensures
            (final(self)@, r@) == old(self)@.over(WebpActionModel::Fail { error: error@ }),
            r == (WebpAction::Fail { error }),
            final(self)@.wf(),
    {
        self.phase = WebpPhase::Over;
        WebpAction::Fail { error }
    }

    fn look_done(&mut self, present: bool) -> (r: WebpAction)
        requires
            old(self)@.wf(),
            old(self)@.phase == WebpPhase::Looking,
        ensures
            (final(self)@, r@) == old(self)@.after(WebpEventModel::Looked { present }),
            final(self)@.wf(),
    {
        let step: PageStep = convert_page(
            &self.pages[self.index],
            self.output_dir.as_slice(),
            present,
            self.overwrite,
            self.adaptive,
            self.quality,
        );
        match step {
            PageStep::Keep => self.advance(),
            PageStep::Search { .. } => self.go_on_searching(
                QualitySearch::new(LOWEST_QUALITY, HIGHEST_QUALITY),
            ),
            PageStep::Write(write) => {
                self.phase = WebpPhase::Writing;
                WebpAction::Write { write }
            },
            PageStep::NotEncoded => {
                self.phase = WebpPhase::Over;
                WebpAction::NotEncoded
            },
            PageStep::Fail(error) => self.fail(error),
        }
    }

    fn encoding_done(&mut self, page: ScoredPage) -> (r: WebpAction)
        requires
            old(self)@.wf(),
            old(self)@.phase == WebpPhase::Encoding,
        ensures
            (final(self)@, r@) == old(self)@.after(
                WebpEventModel::Encoded {
                    page: Ok(
                        ScoredModel { bytes: page.bytes@, score: page.score, shown: page.shown@ },
                    ),
                },
            ),
            final(self)@.wf(),
    {
        let path: Vec<u8> = page_paths(
            self.output_dir.as_slice(),
            self.pages[self.index].page_num,
            OutputFormat::Webp,
        ).path;
        let (write, stats): (PageWrite, EncodeStats) = adaptive_page(
            path.as_slice(),
            &self.search,
            page.bytes,
            page.score,
        );
        self.found = Some(PageQuality { stats, score: page.shown });
        self.phase = WebpPhase::Writing;
        WebpAction::Write { write }
    }

    /// Takes an event in, and tells what is reported and what the conversion asks for then.
    pub fn step(&mut self, event: WebpEvent) -> (r: (Vec<ProgressUpdate>, WebpAction))
        requires
            old(self)@.wf(),
            old(self)@.expects(event@),
        ensures
            (final(self)@, r.1@) == old(self)@.after(event@),
            reports(r.0@) == old(self)@.reports_after(event@),
            final(self)@.wf(),
            event is Looked && r.1 is Fail ==> r.1->error is Webp,
            event matches WebpEvent::Tried { meets: Err(e) } ==> r.1 == (WebpAction::Fail {
                error: e,
            }),
            event matches WebpEvent::Encoded { page: Err(e) } ==> r.1 == (WebpAction::Fail {
                error: e,
            }),
    {
        let mut updates: Vec<ProgressUpdate> = Vec::new();
        assert(reports(updates@) =~= Seq::empty());
        let action: WebpAction = match event {
            WebpEvent::Looked { present } => self.look_done(present),
            WebpEvent::Tried { meets } => match meets {
                Ok(meets) => {
                    let mut search: QualitySearch = self.search;
                    search.record(meets);
                    self.go_on_searching(search)
                },
                Err(error) => self.fail(error),
            },
            WebpEvent::Encoded { page } => match page {
                Ok(page) => self.encoding_done(page),
                Err(error) => self.fail(error),
            },
            WebpEvent::Written => {
                updates = report_page(
                    self.relative_path.as_str(),
                    self.pages[self.index].page_num,
                    self.pages.len() as u32,
                    &self.found,
                );
                self.advance()
            },
        };
        (updates, action)
    }
}

// ---------------------------------------------------------------------------
// All steps
// ---------------------------------------------------------------------------

/// What comes of everything that a conversion may ask for on the page at a place.
pub ghost struct WebpWorld {
    /// Whether the page is there.
    pub present: spec_fn(nat) -> bool,
    /// Whether the score of the page at a quality reaches the target.
    pub tried: spec_fn(nat, int) -> Result<bool, ErrorModel>,
    /// The page at a quality.
    pub encoded: spec_fn(nat, int) -> Result<ScoredModel, ErrorModel>,
}

impl WebpWorld {
    /// What comes of what is asked for on the page at a place.
    pub open spec fn answer(self, index: nat, a: WebpActionModel) -> WebpEventModel {
        match a {
            WebpActionModel::Look { .. } => WebpEventModel::Looked { present: (self.present)(index) },
            WebpActionModel::Try { quality } => WebpEventModel::Tried {
                meets: (self.tried)(index, quality),
            },
            WebpActionModel::Encode { quality } => WebpEventModel::Encoded {
                page: (self.encoded)(index, quality),
            },
            _ => WebpEventModel::Written,
        }
    }

    /// Where a search ends: at a quality, or with an error.
    pub open spec fn search_end(self, index: nat, s: QualitySearch) -> Result<
        QualitySearch,
        ErrorModel,
    >
        decreases MAX_PROBES - s.probes,
    {
        if s.is_open() {
            match (self.tried)(index, s.middle()) {
                Ok(meets) => self.search_end(index, s.after(meets)),
                Err(error) => Err(error),
            }
        } else {
            Ok(s)
        }
    }
}

/// How a conversion ends.
pub ghost enum WebpResult {
    /// With so many pages.
    Done(u32),
    /// With an error.
    Failed(ErrorModel),
    /// With a page that the encoder makes nothing of.
    NotEncoded,
}

/// How a conversion ends, with the pages that were written, by their places, and what was reported.
pub ghost struct WebpEnd {
    pub written: Seq<(nat, Seq<u8>)>,
    pub reports: Seq<Report>,
    pub result: WebpResult,
}

/// The end of a conversion that writes nothing more.
pub open spec fn ended_with(result: WebpResult) -> WebpEnd {
    WebpEnd { written: Seq::empty(), reports: Seq::empty(), result }
}

/// How far a phase is from the end of its page.
pub open spec fn phases_left(phase: WebpPhase) -> nat {
    match phase {
        WebpPhase::Looking => 4,
        WebpPhase::Searching => 3,
        WebpPhase::Encoding => 2,
        WebpPhase::Writing => 1,
        WebpPhase::Over => 0,
    }
}

/// Carries a conversion to its end, from where it asks for `a`.
pub open spec fn carried_on(w: WebpWorld, m: WebpRunModel, a: WebpActionModel) -> WebpEnd
    decreases m.pages.len() - m.index, phases_left(m.phase), MAX_PROBES - m.search.probes,
{
    let e = w.answer(m.index, a);
    match a {
        WebpActionModel::Finish { page_count } => ended_with(WebpResult::Done(page_count)),
        WebpActionModel::Fail { error } => ended_with(WebpResult::Failed(error)),
        WebpActionModel::NotEncoded => ended_with(WebpResult::NotEncoded),
        WebpActionModel::Write { bytes, .. } => if m.wf() && m.expects(e) {
            let (next, b) = m.after(e);
            let rest = carried_on(w, next, b);
            WebpEnd {
                written: seq![(m.index, bytes)] + rest.written,
                reports: m.reports_after(e) + rest.reports,
                result: rest.result,
            }
        } else {
            arbitrary()
        },
        _ => if m.wf() && m.expects(e) {
            let (next, b) = m.after(e);
            carried_on(w, next, b)
        } else {
            arbitrary()
        },
    }
}

/// What a page that does not stay becomes: its bytes, and the line on its quality where that was
/// searched.
pub ghost enum PageImage {
    Image { bytes: Seq<u8>, line: Option<Seq<char>> },
    Failed(ErrorModel),
    NotEncoded,
}

/// What the page at a place becomes where it does not stay.
pub open spec fn image_of(w: WebpWorld, m: WebpRunModel, index: nat) -> PageImage {
    let page = m.pages[index as int];
    if m.adaptive {
        match w.search_end(index, search_between(LOWEST_QUALITY, HIGHEST_QUALITY)) {
            Err(error) => PageImage::Failed(error),
            Ok(search) => match (w.encoded)(index, search.best as int) {
                Err(error) => PageImage::Failed(error),
                Ok(scored) => PageImage::Image {
                    bytes: scored.bytes,
                    line: Some(
                        quality_line(page.page_num as nat, stats_of(search, scored), scored.shown),
                    ),
                },
            },
        }
    } else if !buffer_fits(page.width, page.height, page.rgba_data@.len()) {
        PageImage::Failed(short_page(page))
    } else {
        match page_encoding(page, m.quality) {
            Some(bytes) => PageImage::Image { bytes, line: None },
            None => PageImage::NotEncoded,
        }
    }
}

/// How the pages from place `index` on are to end up: one behind the other, those that are there
/// stay where nothing is overwritten, the others are encoded, at a quality that is searched if
/// need be, written and reported, and the first failure ends it all.
pub open spec fn images_from(w: WebpWorld, m: WebpRunModel, index: nat) -> WebpEnd
    decreases m.pages.len() - index,
{
    if index >= m.pages.len() {
        ended_with(WebpResult::Done(m.pages.len() as u32))
    } else if stays((w.present)(index), m.overwrite) {
        images_from(w, m, index + 1)
    } else {
        match image_of(w, m, index) {
            PageImage::Failed(error) => ended_with(WebpResult::Failed(error)),
            PageImage::NotEncoded => ended_with(WebpResult::NotEncoded),
            PageImage::Image { bytes, line } => {
                let rest = images_from(w, m, index + 1);
                WebpEnd {
                    written: seq![(index, bytes)] + rest.written,
                    reports: page_reports(
                        m.relative_path,
                        m.pages[index as int].page_num as nat,
                        (m.pages.len() as u32) as nat,
                        line,
                    ) + rest.reports,
                    result: rest.result,
                }
            },
        }
    }
}

proof fn lemma_search_carried_on(w: WebpWorld, m: WebpRunModel, s: QualitySearch)
    requires
        m.index < m.pages.len(),
        s.wf(),
    ensures
        match w.search_end(m.index, s) {
            Ok(end) => end.wf() && !end.is_open() && carried_on(
                w,
                m.searching(s).0,
                m.searching(s).1,
            ) == carried_on(w, m.searching(end).0, m.searching(end).1),
            Err(error) => carried_on(w, m.searching(s).0, m.searching(s).1) == ended_with(
                WebpResult::Failed(error),
            ),
        },
    decreases MAX_PROBES - s.probes,
{
    if s.is_open() {
        let (here, a) = m.searching(s);
        let e = w.answer(m.index, a);
        let (next, b) = here.after(e);
        assert(carried_on(w, here, a) == carried_on(w, next, b));
        if let Ok(meets) = (w.tried)(m.index, s.middle()) {
            s.lemma_after_wf(meets);
            assert(here.searching(s.after(meets)) == m.searching(s.after(meets)));
            lemma_search_carried_on(w, m, s.after(meets));
        }
    }
}

/// A conversion that is carried to its end writes and reports the pages that it is to write, in
/// order, and ends as it is to end.
pub proof fn law_imaging_writes_its_pages(w: WebpWorld, m: WebpRunModel)
    requires
        m.search.wf(),
        m.index <= m.pages.len(),
    ensures
        carried_on(w, m.at_page().0, m.at_page().1) == images_from(w, m, m.index),
    decreases m.pages.len() - m.index,
{
    let (here, look) = m.at_page();
    if m.index < m.pages.len() {
        let e = w.answer(m.index, look);
        let (next, b) = here.after(e);
        assert(carried_on(w, here, look) == carried_on(w, next, b));
        let on = WebpRunModel { index: m.index + 1, ..here };
        if stays((w.present)(m.index), m.overwrite) {
            law_imaging_writes_its_pages(w, on);
            lemma_same_images(w, m, on, m.index + 1);
        } else {
            let start = search_between(LOWEST_QUALITY, HIGHEST_QUALITY);
            if m.adaptive {
                lemma_search_carried_on(w, here, start);
                if let Ok(search) = w.search_end(m.index, start) {
                    let (encoding, c) = here.searching(search);
                    let (third, d) = encoding.after(w.answer(m.index, c));
                    assert(carried_on(w, encoding, c) == carried_on(w, third, d));
                    if (w.encoded)(m.index, search.best as int) is Ok {
                        lemma_after_writing(w, m, third, d);
                    }
                }
            } else if buffer_fits(
                m.page().width,
                m.page().height,
                m.page().rgba_data@.len(),
            ) && page_encoding(m.page(), m.quality) is Some {
                lemma_after_writing(w, m, next, b);
            }
        }
    }
}

/// Once a page is asked to be written, it is written and reported, and the pages behind it follow.
proof fn lemma_after_writing(w: WebpWorld, m: WebpRunModel, n: WebpRunModel, a: WebpActionModel)
    requires
        m.index < m.pages.len(),
        a is Write,
        n == (WebpRunModel {
            phase: WebpPhase::Writing,
            search: n.search,
            found: n.found,
            ..m
        }),
        n.search.wf(),
    ensures
        ({
            let rest = images_from(w, m, m.index + 1);
            carried_on(w, n, a) == WebpEnd {
                written: seq![(m.index, a->bytes)] + rest.written,
                reports: page_reports(
                    m.relative_path,
                    m.page().page_num as nat,
                    (m.pages.len() as u32) as nat,
                    line_of(m.page().page_num as nat, n.found),
                ) + rest.reports,
                result: rest.result,
            }
        }),
    decreases m.pages.len() - m.index, 0nat,
{
    let on = WebpRunModel { index: m.index + 1, ..n };
    law_imaging_writes_its_pages(w, on);
    lemma_same_images(w, m, on, m.index + 1);
}

/// What is to become of pages does not depend on where the conversion is.
proof fn lemma_same_images(w: WebpWorld, m: WebpRunModel, n: WebpRunModel, index: nat)
    requires
        m.pages == n.pages,
        m.relative_path == n.relative_path,
        m.quality == n.quality,
        m.adaptive == n.adaptive,
        m.overwrite == n.overwrite,
    ensures
        images_from(w, m, index) == images_from(w, n, index),
    decreases m.pages.len() - index,
{
    if index < m.pages.len() {
        lemma_same_images(w, m, n, index + 1);
    }
}

/// What is reported of the pages tells the end of no file.
pub proof fn law_imaging_reports_pages(w: WebpWorld, m: WebpRunModel, index: nat)
    ensures
        only_pages(images_from(w, m, index).reports),
    decreases m.pages.len() - index,
{
    if index < m.pages.len() {
        law_imaging_reports_pages(w, m, index + 1);
        let all = images_from(w, m, index).reports;
        let rest = images_from(w, m, index + 1).reports;
        assert forall|k: int| 0 <= k < all.len() implies (#[trigger] all[k]) is PageProgress
            || all[k] is Log by {
            let n = all.len() - rest.len();
            if all != rest && k >= n {
                assert(all[k] == rest[k - n]);
            }
        }
    }
}

/// A conversion that ends well leaves an image of every page: the page was there and stays, or
/// the image that it becomes is written.
pub proof fn law_done_leaves_every_image(w: WebpWorld, m: WebpRunModel, index: nat, page: nat)
    requires
        images_from(w, m, index).result is Done,
        index <= page < m.pages.len(),
    ensures
        stays((w.present)(page), m.overwrite) || (image_of(w, m, page) matches PageImage::Image {
            bytes,
            ..
        } && images_from(w, m, index).written.contains((page, bytes))),
    decreases m.pages.len() - index,
{
    let written = images_from(w, m, index).written;
    let rest = images_from(w, m, index + 1).written;
    if page > index {
        law_done_leaves_every_image(w, m, index + 1, page);
        if !stays((w.present)(page), m.overwrite) {
            let bytes = image_of(w, m, page)->bytes;
            let k = choose|k: int| 0 <= k < rest.len() && rest[k] == (page, bytes);
            let n = written.len() - rest.len();
            assert(written[k + n] == rest[k]);
        }
    } else if !stays((w.present)(page), m.overwrite) {
        assert(written[0] == (page, image_of(w, m, page)->bytes));
    }
}

/// A conversion that overwrites nothing, of pages that are all there, writes and reports nothing
/// and ends well, with all pages.
pub proof fn law_present_pages_are_left_alone(w: WebpWorld, m: WebpRunModel, index: nat)
    requires
        !m.overwrite,
        forall|i: nat| index <= i < m.pages.len() ==> #[trigger] (w.present)(i),
    ensures
        images_from(w, m, index) == ended_with(WebpResult::Done(m.pages.len() as u32)),
    decreases m.pages.len() - index,
{
    if index < m.pages.len() {
        law_present_pages_are_left_alone(w, m, index + 1);
    }
}

/// Where no try fails, the quality of a page is where the search by halving ends.
pub proof fn law_quality_is_searched(
    w: WebpWorld,
    index: nat,
    s: QualitySearch,
    meets: spec_fn(int) -> bool,
)
    requires
        forall|q: int| #[trigger] (w.tried)(index, q) == Ok::<bool, ErrorModel>(meets(q)),
    ensures
        w.search_end(index, s) == Ok::<QualitySearch, ErrorModel>(s.run(meets)),
    decreases MAX_PROBES - s.probes,
{
    if s.is_open() {
        law_quality_is_searched(w, index, s.after(meets(s.middle())), meets);
    }
}

/// Whatever happens, a page is looked for and written in the folder of the document, under the name
/// that its own number gives it, and is first kept beside that.
pub proof fn law_images_go_to_their_places(m: WebpRunModel, e: WebpEventModel)
    requires
        m.wf(),
        m.expects(e),
    ensures
        m.after(e).1 matches WebpActionModel::Write { path, temp, .. } ==> {
            let name = page_name(m.pages[m.index as int].page_num as nat, OutputFormat::Webp);
            &&& path == join(m.dir, name)
            &&& temp == join(m.dir, name + encode_utf8(".tmp"@))
        },
        m.after(e).1 matches WebpActionModel::Look { path } ==> m.index + 1 < m.pages.len() && path
            == join(
            m.dir,
            page_name(m.pages[(m.index + 1) as int].page_num as nat, OutputFormat::Webp),
        ),
        m.after(e).1 matches WebpActionModel::Finish { page_count } ==> page_count
            == m.pages.len() as u32 && m.index + 1 == m.pages.len(),
        m.after(e).0.pages == m.pages && m.after(e).0.dir == m.dir && m.after(e).0.relative_path
            == m.relative_path,
{
    law_pages_are_first_written_beside(m.dir, m.page().page_num as nat, OutputFormat::Webp);
}

/// At a fixed quality a page becomes what the encoder makes of its own pixels at that quality,
/// without a search.
pub proof fn law_fixed_quality_is_kept(w: WebpWorld, m: WebpRunModel, index: nat)
    requires
        !m.adaptive,
        index < m.pages.len(),
        1 <= m.pages[index as int].width <= 16383,
        1 <= m.pages[index as int].height <= 16383,
    ensures
        ({
            let page = m.pages[index as int];
            if 4 * page.width * page.height <= page.rgba_data@.len() {
                match webp_encoding(page.rgba_data@, page.width, page.height, m.quality) {
                    Some(bytes) => image_of(w, m, index) == (PageImage::Image { bytes, line: None }),
                    None => image_of(w, m, index) is NotEncoded,
                }
            } else {
                image_of(w, m, index) is Failed
            }
        }),
{
}

/// Where the quality of a page is searched, it is one from 40 to 95: the highest where no quality
/// that is tried is enough, and one less than 2 above the lowest where all are; and the page becomes
/// what it is at that quality.
pub proof fn law_searched_quality_is_kept(
    w: WebpWorld,
    m: WebpRunModel,
    index: nat,
    meets: spec_fn(int) -> bool,
) -> (quality: int)
    requires
        m.adaptive,
        index < m.pages.len(),
        forall|q: int| #[trigger] (w.tried)(index, q) == Ok::<bool, ErrorModel>(meets(q)),
    ensures
        40 * 64 <= quality <= 95 * 64,
        quality == 95 * 64 || meets(quality),
        (forall|q: int| !#[trigger] meets(q)) ==> quality == 95 * 64,
        (forall|q: int| #[trigger] meets(q)) ==> quality < 42 * 64,
        match (w.encoded)(index, quality) {
            Ok(page) => image_of(w, m, index) matches PageImage::Image { bytes, line } && bytes
                == page.bytes && line is Some,
            Err(error) => image_of(w, m, index) == PageImage::Failed(error),
        },
{
    let start = search_between(LOWEST_QUALITY, HIGHEST_QUALITY);
    law_quality_is_searched(w, index, start, meets);
    law_search_finds(LOWEST_QUALITY, HIGHEST_QUALITY, meets);
    let quality = start.run(meets).best as int;
    if forall|q: int| #[trigger] meets(q) {
        if quality >= 42 * 64 {
            law_search_minimal(LOWEST_QUALITY, HIGHEST_QUALITY, meets, 2560);
            assert(meets(2560));
        }
    }
    if forall|q: int| !#[trigger] meets(q) {
        assert(!meets(quality));
    }
    quality
}

/// A page that is written is reported under the path of its file, with its number and the number of
/// all pages; nothing else is reported of pages.
pub proof fn law_images_are_reported_when_written(m: WebpRunModel, e: WebpEventModel)
    requires
        m.index < m.pages.len(),
    ensures
        !(e is Written) ==> m.reports_after(e).len() == 0,
        e is Written ==> m.reports_after(e).last() == (Report::PageProgress {
            path: m.relative_path,
            current_page: m.pages[m.index as int].page_num as nat,
            total_pages: (m.pages.len() as u32) as nat,
        }),
        e is Written ==> m.reports_after(e).len() == if m.found is Some {
            2nat
        } else {
            1nat
        },
{
}

/// The numbers of a page that was searched are those of its encoding: the quality that was found,
/// the score that was measured and as many bytes as there are.
pub proof fn law_numbers_are_those_of_the_page(search: QualitySearch, page: ScoredModel)
    ensures
        stats_of(search, page).quality_used == search.best,
        page.score matches Some(v) ==> stats_of(search, page).ssimulacra2_score == v,
        page.score is None ==> stats_of(search, page).ssimulacra2_score == 0,
        page.bytes.len() <= usize::MAX ==> stats_of(search, page).file_size == page.bytes.len(),
{
}

/// Where a page has too few pixels, the error tells its sides: two heights of pages of one width
/// have two errors, and so have two widths at one height.
pub proof fn law_short_pages_tell_their_sides(p: PageData, q: PageData)
    requires
        short_page(p) == short_page(q),
    ensures
        p.width == q.width ==> p.height == q.height,
        p.height == q.height ==> p.width == q.width,
{
    let head = "Bad buffer "@;
    let t = head + size_text(p.width, p.height);
    let u = head + size_text(q.width, q.height);
    assert(t == u);
    if p.width == q.width {
        let front = head + decimal(p.width as nat) + "x"@;
        assert(t =~= front + decimal(p.height as nat) + Seq::empty());
        assert(u =~= front + decimal(q.height as nat) + Seq::empty());
        law_number_stands_out(front, p.height as nat, q.height as nat, Seq::empty());
    }
    if p.height == q.height {
        let back = "x"@ + decimal(p.height as nat);
        assert(t =~= head + decimal(p.width as nat) + back);
        assert(u =~= head + decimal(q.width as nat) + back);
        law_number_stands_out(head, p.width as nat, q.width as nat, back);
    }
}

} // verus!
