//! The conversion of a file to SVG, step by step.

use crate::config::OutputFormat;
use crate::converter::{keeps_page, page_in, page_paths, stays, PagePaths};
use crate::error::{AppError, ErrorModel};
use crate::mirror::{law_pages_are_first_written_beside, page_name, temp_path};
use crate::path::join;
use crate::plain::{check_plain, is_plain};
use crate::render::names_of;
use crate::svg::{
    clamp_precision, digits_for, draw_page_arguments, drawing_arguments, drawing_failure,
    is_rewritten, outcome_model, svg_failure, usvg_writes,
};
use vstd::prelude::*;
use vstd::slice::*;
use vstd::string::*;
use vstd::utf8::*;

verus! {

// ---------------------------------------------------------------------------
// The steps
// ---------------------------------------------------------------------------

/// Where the conversion is with a page.
#[derive(Debug, Clone, Copy, PartialEq, Eq, Structural)]
pub enum SvgPhase {
    Looking,
    Drawing,
    Loading,
    Stripping,
    Rewriting,
    Saving,
    Over,
}

/// What the conversion asks for.
#[derive(Debug)]
pub enum SvgAction {
    /// To look whether there is a file.
    Look { path: Vec<u8> },
    /// To run `pdftocairo`.
    Draw { arguments: Vec<Vec<u8>> },
    /// To read what it wrote.
    Load { path: Vec<u8> },
    /// To take the background out of a drawing.
    Strip { data: Vec<u8> },
    /// To clean a plain drawing up with `rewrite_svg`, with so many digits of coordinates.
    Rewrite { data: Vec<u8>, digits: u8 },
    /// To have any other drawing cleaned up, with so many digits of coordinates.
    Hand { data: Vec<u8>, digits: u8 },
    /// To write the page, and to remove what `pdftocairo` wrote.
    Save { path: Vec<u8>, text: String, raw: Vec<u8> },
    /// Nothing: the file has so many pages.
    Finish { page_count: u32 },
    /// Nothing: the conversion failed.
    Fail { error: AppError },
}

/// What came of it.
#[derive(Debug)]
pub enum SvgEvent {
    Looked { present: bool },
    Drawn { success: bool },
    Loaded { data: Vec<u8> },
    Stripped { data: Vec<u8> },
    Rewritten { outcome: Result<String, AppError> },
    Saved,
}

/// What the conversion asks for, with its texts.
pub ghost enum SvgActionModel {
    Look { path: Seq<u8> },
    Draw { arguments: Seq<Seq<u8>> },
    Load { path: Seq<u8> },
    Strip { data: Seq<u8> },
    Rewrite { data: Seq<u8>, digits: u8 },
    Hand { data: Seq<u8>, digits: u8 },
    Save { path: Seq<u8>, text: Seq<char>, raw: Seq<u8> },
    Finish { page_count: nat },
    Fail { error: ErrorModel },
}

impl View for SvgAction {
    type V = SvgActionModel;

    open spec fn view(&self) -> SvgActionModel {
        match *self {
            SvgAction::Look { path } => SvgActionModel::Look { path: path@ },
            SvgAction::Draw { arguments } => SvgActionModel::Draw {
                arguments: names_of(arguments@),
            },
            SvgAction::Load { path } => SvgActionModel::Load { path: path@ },
            SvgAction::Strip { data } => SvgActionModel::Strip { data: data@ },
            SvgAction::Rewrite { data, digits } => SvgActionModel::Rewrite { data: data@, digits },
            SvgAction::Hand { data, digits } => SvgActionModel::Hand { data: data@, digits },
            SvgAction::Save { path, text, raw } => SvgActionModel::Save {
                path: path@,
                text: text@,
                raw: raw@,
            },
            SvgAction::Finish { page_count } => SvgActionModel::Finish {
                page_count: page_count as nat,
            },
            SvgAction::Fail { error } => SvgActionModel::Fail { error: error@ },
        }
    }
}

/// What came of it, with its texts.
pub ghost enum SvgEventModel {
    Looked { present: bool },
    Drawn { success: bool },
    Loaded { data: Seq<u8> },
    Stripped { data: Seq<u8> },
    Rewritten { outcome: Result<Seq<char>, ErrorModel> },
    Saved,
}

impl View for SvgEvent {
    type V = SvgEventModel;

    open spec fn view(&self) -> SvgEventModel {
        match *self {
            SvgEvent::Looked { present } => SvgEventModel::Looked { present },
            SvgEvent::Drawn { success } => SvgEventModel::Drawn { success },
            SvgEvent::Loaded { data } => SvgEventModel::Loaded { data: data@ },
            SvgEvent::Stripped { data } => SvgEventModel::Stripped { data: data@ },
            SvgEvent::Rewritten { outcome } => SvgEventModel::Rewritten {
                outcome: outcome_model(outcome),
            },
            SvgEvent::Saved => SvgEventModel::Saved,
        }
    }
}

/// The conversion of a file to SVG.
#[derive(Debug)]
pub struct SvgRun {
    pub pdf_path: Vec<u8>,
    /// The folder of the document.
    pub output_dir: Vec<u8>,
    pub total: u32,
    /// The digits of coordinates.
    pub digits: u8,
    pub strip_background: bool,
    pub overwrite: bool,
    /// The page that is worked on.
    pub page: u32,
    pub phase: SvgPhase,
}

/// The conversion of a file to SVG, with its paths.
pub ghost struct SvgRunModel {
    pub pdf: Seq<u8>,
    pub dir: Seq<u8>,
    pub total: nat,
    pub digits: u8,
    pub strip: bool,
    pub overwrite: bool,
    pub page: nat,
    pub phase: SvgPhase,
}

impl View for SvgRun {
    type V = SvgRunModel;

    open spec fn view(&self) -> SvgRunModel {
        SvgRunModel {
            pdf: self.pdf_path@,
            dir: self.output_dir@,
            total: self.total as nat,
            digits: self.digits,
            strip: self.strip_background,
            overwrite: self.overwrite,
            page: self.page as nat,
            phase: self.phase,
        }
    }
}

impl SvgRunModel {
    /// The path of the page that is worked on.
    pub open spec fn path(self) -> Seq<u8> {
        page_in(self.dir, self.page, OutputFormat::Svg)
    }

    /// Where `pdftocairo` writes the page.
    pub open spec fn raw(self) -> Seq<u8> {
        temp_path(self.path(), OutputFormat::Svg)
    }

    /// The conversion with another phase.
    pub open spec fn in_phase(self, phase: SvgPhase) -> SvgRunModel {
        SvgRunModel { phase, ..self }
    }

    /// The conversion when it goes on to the next page, and what it asks for then.
    pub open spec fn advanced(self) -> (SvgRunModel, SvgActionModel) {
        if self.page < self.total {
            let next = SvgRunModel { page: self.page + 1, phase: SvgPhase::Looking, ..self };
            (next, SvgActionModel::Look { path: next.path() })
        } else {
            (self.in_phase(SvgPhase::Over), SvgActionModel::Finish { page_count: self.total })
        }
    }

    /// The conversion when it has a drawing to clean up, and what it asks for then.
    pub open spec fn cleaning(self, data: Seq<u8>) -> (SvgRunModel, SvgActionModel) {
        (
            self.in_phase(SvgPhase::Rewriting),
            if is_plain(data) {
                SvgActionModel::Rewrite { data, digits: self.digits }
            } else {
                SvgActionModel::Hand { data, digits: self.digits }
            },
        )
    }

    /// Whether an event is what the conversion waits for.
    pub open spec fn expects(self, e: SvgEventModel) -> bool {
        match self.phase {
            SvgPhase::Looking => e is Looked,
            SvgPhase::Drawing => e is Drawn,
            SvgPhase::Loading => e is Loaded,
            SvgPhase::Stripping => e is Stripped,
            SvgPhase::Rewriting => e is Rewritten,
            SvgPhase::Saving => e is Saved,
            SvgPhase::Over => false,
        }
    }

    /// The conversion after an event, and what it asks for then.
    pub open spec fn after(self, e: SvgEventModel) -> (SvgRunModel, SvgActionModel) {
        match e {
            SvgEventModel::Looked { present } => if stays(present, self.overwrite) {
                self.advanced()
            } else {
                (
                    self.in_phase(SvgPhase::Drawing),
                    SvgActionModel::Draw {
                        arguments: drawing_arguments(self.pdf, self.page, self.raw()),
                    },
                )
            },
            SvgEventModel::Drawn { success } => if success {
                (self.in_phase(SvgPhase::Loading), SvgActionModel::Load { path: self.raw() })
            } else {
                (
                    self.in_phase(SvgPhase::Over),
                    SvgActionModel::Fail { error: drawing_failure(self.pdf, self.page) },
                )
            },
            SvgEventModel::Loaded { data } => if self.strip {
                (self.in_phase(SvgPhase::Stripping), SvgActionModel::Strip { data })
            } else {
                self.cleaning(data)
            },
            SvgEventModel::Stripped { data } => self.cleaning(data),
            SvgEventModel::Rewritten { outcome } => match outcome {
                Ok(text) => (
                    self.in_phase(SvgPhase::Saving),
                    SvgActionModel::Save { path: self.path(), text, raw: self.raw() },
                ),
                Err(error) => (self.in_phase(SvgPhase::Over), SvgActionModel::Fail { error }),
            },
            SvgEventModel::Saved => self.advanced(),
        }
    }
}

impl SvgRun {
    /// Begins the conversion of a file with so many pages.
    pub fn begin(
        pdf_path: &[u8],
        output_dir: &[u8],
        page_count: u32,
        svg_precision: u8,
        strip_background: bool,
        overwrite: bool,
    ) -> (r: (SvgRun, SvgAction))
        ensures
            (r.0@, r.1@) == (SvgRunModel {
                pdf: pdf_path@,
                dir: output_dir@,
                total: page_count as nat,
                digits: digits_for(svg_precision),
                strip: strip_background,
                overwrite,
                page: 0,
                phase: SvgPhase::Saving,
            }).advanced(),
    {
        let mut run: SvgRun = SvgRun {
            pdf_path: slice_to_vec(pdf_path),
            output_dir: slice_to_vec(output_dir),
            total: page_count,
            digits: clamp_precision(svg_precision),
            strip_background,
            overwrite,
            page: 0,
            phase: SvgPhase::Saving,
        };
        let action: SvgAction = run.advance();
        (run, action)
    }

    fn paths(&self) -> (r: PagePaths)
        ensures
            r.path@ == self@.path(),
            r.temp_path@ == self@.raw(),
    {
        page_paths(self.output_dir.as_slice(), self.page, OutputFormat::Svg)
    }

    fn advance(&mut self) -> (r: SvgAction)
        ensures
            (final(self)@, r@) == old(self)@.advanced(),
    {
        if self.page < self.total {
            self.page = self.page + 1;
            self.phase = SvgPhase::Looking;
            SvgAction::Look { path: self.paths().path }
        } else {
            self.phase = SvgPhase::Over;
            SvgAction::Finish { page_count: self.total }
        }
    }

    fn clean(&mut self, data: Vec<u8>) -> (r: SvgAction)
        ensures
            (final(self)@, r@) == old(self)@.cleaning(data@),
    {
        self.phase = SvgPhase::Rewriting;
        if check_plain(data.as_slice()) {
            SvgAction::Rewrite { data, digits: self.digits }
        } else {
            SvgAction::Hand { data, digits: self.digits }
        }
    }

    /// Takes an event in, and tells what the conversion asks for then.
    pub fn step(&mut self, event: SvgEvent) -> (r: SvgAction)
        requires
            old(self)@.expects(event@),
        ensures
            (final(self)@, r@) == old(self)@.after(event@),
            event@ == (SvgEventModel::Drawn { success: false }) ==> (r matches SvgAction::Fail {
                error,
            } && error is Pdf),
            event matches SvgEvent::Rewritten { outcome: Err(e) } ==> r == (SvgAction::Fail {
                error: e,
            }),
    {
        match event {
            SvgEvent::Looked { present } => {
                if keeps_page(present, self.overwrite) {
                    return self.advance();
                }
                self.phase = SvgPhase::Drawing;
                let paths: PagePaths = self.paths();
                SvgAction::Draw {
                    arguments: draw_page_arguments(
                        self.pdf_path.as_slice(),
                        self.page,
                        paths.temp_path.as_slice(),
                    ),
                }
            },
            SvgEvent::Drawn { success } => {
                if success {
                    self.phase = SvgPhase::Loading;
                    SvgAction::Load { path: self.paths().temp_path }
                } else {
                    self.phase = SvgPhase::Over;
                    SvgAction::Fail { error: svg_failure(self.pdf_path.as_slice(), self.page) }
                }
            },
            SvgEvent::Loaded { data } => {
                if self.strip_background {
                    self.phase = SvgPhase::Stripping;
                    SvgAction::Strip { data }
                } else {
                    self.clean(data)
                }
            },
            SvgEvent::Stripped { data } => self.clean(data),
            SvgEvent::Rewritten { outcome } => {
                match outcome {
                    Ok(text) => {
                        self.phase = SvgPhase::Saving;
                        let paths: PagePaths = self.paths();
                        SvgAction::Save { path: paths.path, text, raw: paths.temp_path }
                    },
                    Err(error) => {
                        self.phase = SvgPhase::Over;
                        SvgAction::Fail { error }
                    },
                }
            },
            SvgEvent::Saved => self.advance(),
        }
    }
}

// ---------------------------------------------------------------------------
// All steps
// ---------------------------------------------------------------------------

/// What comes of everything that a conversion may ask for.
pub ghost struct SvgWorld {
    /// Whether a page is there.
    pub present: spec_fn(nat) -> bool,
    /// Whether `pdftocairo` draws a page.
    pub drawn: spec_fn(nat) -> bool,
    /// What it writes.
    pub raw: spec_fn(nat) -> Seq<u8>,
    /// A drawing without its background.
    pub stripped: spec_fn(Seq<u8>) -> Seq<u8>,
    /// A plain drawing once it is cleaned up, with so many digits of coordinates.
    pub rewritten: spec_fn(Seq<u8>, u8) -> Result<Seq<char>, ErrorModel>,
    /// Any other drawing once it is cleaned up, with so many digits of coordinates.
    pub handed: spec_fn(Seq<u8>, u8) -> Result<Seq<char>, ErrorModel>,
}

impl SvgWorld {
    /// What comes of what is asked for on a page.
    pub open spec fn answer(self, page: nat, a: SvgActionModel) -> SvgEventModel {
        match a {
            SvgActionModel::Look { .. } => SvgEventModel::Looked { present: (self.present)(page) },
            SvgActionModel::Draw { .. } => SvgEventModel::Drawn { success: (self.drawn)(page) },
            SvgActionModel::Load { .. } => SvgEventModel::Loaded { data: (self.raw)(page) },
            SvgActionModel::Strip { data } => SvgEventModel::Stripped {
                data: (self.stripped)(data),
            },
            SvgActionModel::Rewrite { data, digits } => SvgEventModel::Rewritten {
                outcome: (self.rewritten)(data, digits),
            },
            SvgActionModel::Hand { data, digits } => SvgEventModel::Rewritten {
                outcome: (self.handed)(data, digits),
            },
            _ => SvgEventModel::Saved,
        }
    }

    /// What is cleaned up on a page.
    pub open spec fn drawing(self, page: nat, strip: bool) -> Seq<u8> {
        if strip {
            (self.stripped)((self.raw)(page))
        } else {
            (self.raw)(page)
        }
    }

    /// What a page becomes.
    pub open spec fn page_text(self, m: SvgRunModel, page: nat) -> Result<Seq<char>, ErrorModel> {
        let data = self.drawing(page, m.strip);
        if is_plain(data) {
            (self.rewritten)(data, m.digits)
        } else {
            (self.handed)(data, m.digits)
        }
    }
}

/// How a conversion ends: the pages that were written, and the number of pages or the error.
pub ghost struct SvgEnd {
    pub saved: Seq<(nat, Seq<char>)>,
    pub result: Result<nat, ErrorModel>,
}

/// How far a phase is from the end of its page.
pub open spec fn steps_left(phase: SvgPhase) -> nat {
    match phase {
        SvgPhase::Looking => 6,
        SvgPhase::Drawing => 5,
        SvgPhase::Loading => 4,
        SvgPhase::Stripping => 3,
        SvgPhase::Rewriting => 2,
        SvgPhase::Saving => 1,
        SvgPhase::Over => 0,
    }
}

/// Carries a conversion to its end, from where it asks for `a`.
pub open spec fn carried_on(w: SvgWorld, m: SvgRunModel, a: SvgActionModel) -> SvgEnd
    decreases m.total - m.page, steps_left(m.phase),
{
    let e = w.answer(m.page, a);
    match a {
        SvgActionModel::Finish { page_count } => SvgEnd {
            saved: Seq::empty(),
            result: Ok(page_count),
        },
        SvgActionModel::Fail { error } => SvgEnd { saved: Seq::empty(), result: Err(error) },
        SvgActionModel::Save { text, .. } => if m.expects(e) && m.page <= m.total {
            let (next, b) = m.after(e);
            let rest = carried_on(w, next, b);
            SvgEnd { saved: seq![(m.page, text)] + rest.saved, result: rest.result }
        } else {
            arbitrary()
        },
        _ => if m.expects(e) && m.page <= m.total {
            let (next, b) = m.after(e);
            carried_on(w, next, b)
        } else {
            arbitrary()
        },
    }
}

/// How the pages from `page` on are to end up: one behind the other, those that are there stay
/// where nothing is overwritten, the others are drawn, stripped if need be, cleaned up and
/// written, and the first failure ends it all.
pub open spec fn pages_from(w: SvgWorld, m: SvgRunModel, page: nat) -> SvgEnd
    decreases m.total + 1 - page,
{
    if page > m.total {
        SvgEnd { saved: Seq::empty(), result: Ok(m.total) }
    } else if stays((w.present)(page), m.overwrite) {
        pages_from(w, m, page + 1)
    } else if !(w.drawn)(page) {
        SvgEnd { saved: Seq::empty(), result: Err(drawing_failure(m.pdf, page)) }
    } else {
        match w.page_text(m, page) {
            Err(error) => SvgEnd { saved: Seq::empty(), result: Err(error) },
            Ok(text) => {
                let rest = pages_from(w, m, page + 1);
                SvgEnd { saved: seq![(page, text)] + rest.saved, result: rest.result }
            },
        }
    }
}

/// A conversion that is carried to its end writes the pages that it is to write, in order, and
/// ends as it is to end.
pub proof fn law_drawing_writes_its_pages(w: SvgWorld, m: SvgRunModel)
    requires
        m.page <= m.total,
    ensures
        carried_on(w, m.advanced().0, m.advanced().1) == pages_from(w, m, m.page + 1),
    decreases m.total - m.page,
{
    let (looking, look) = m.advanced();
    if m.page < m.total {
        let page = looking.page;
        lemma_same_pages(w, m, looking, page);
        let (second, b) = looking.after(w.answer(page, look));
        assert(carried_on(w, looking, look) == carried_on(w, second, b));
        if stays((w.present)(page), m.overwrite) {
            law_drawing_writes_its_pages(w, looking);
            lemma_same_pages(w, m, looking, page + 1);
        } else {
            let (third, c) = second.after(w.answer(page, b));
            assert(carried_on(w, second, b) == carried_on(w, third, c));
            if (w.drawn)(page) {
                let (fourth, d) = third.after(w.answer(page, c));
                let (rewriting, f) = if m.strip {
                    fourth.after(w.answer(page, d))
                } else {
                    (fourth, d)
                };
                assert(f == m.cleaning(w.drawing(page, m.strip)).1);
                assert(carried_on(w, third, c) == carried_on(w, fourth, d));
                assert(carried_on(w, fourth, d) == carried_on(w, rewriting, f));
                let (saving, g) = rewriting.after(w.answer(page, f));
                assert(carried_on(w, rewriting, f) == carried_on(w, saving, g));
                if w.page_text(m, page) is Ok {
                    law_drawing_writes_its_pages(w, saving);
                    lemma_same_pages(w, m, saving, page + 1);
                }
            }
        }
    }
}

/// What is to become of pages does not depend on where the conversion is.
proof fn lemma_same_pages(w: SvgWorld, m: SvgRunModel, n: SvgRunModel, page: nat)
    requires
        m.pdf == n.pdf,
        m.total == n.total,
        m.digits == n.digits,
        m.strip == n.strip,
        m.overwrite == n.overwrite,
    ensures
        pages_from(w, m, page) == pages_from(w, n, page),
    decreases m.total + 1 - page,
{
    if page <= m.total {
        lemma_same_pages(w, m, n, page + 1);
    }
}

/// Where nothing fails, the pages that are written are those that do not stay.
pub proof fn law_missing_pages_are_written(w: SvgWorld, m: SvgRunModel, page: nat, p: nat)
    requires
        forall|q: nat| page <= q <= m.total ==> #[trigger] (w.drawn)(q),
        forall|q: nat| page <= q <= m.total ==> #[trigger] w.page_text(m, q) is Ok,
        page <= p <= m.total,
    ensures
        pages_from(w, m, page).result == Ok::<nat, ErrorModel>(m.total),
        pages_from(w, m, page).saved.contains((p, w.page_text(m, p)->Ok_0)) <==> !stays(
            (w.present)(p),
            m.overwrite,
        ),
    decreases m.total + 1 - page,
{
    lemma_later_pages(w, m, (page + 1) as nat);
    if page < p {
        law_missing_pages_are_written(w, m, page + 1, p);
    } else if page < m.total {
        law_missing_pages_are_written(w, m, page + 1, m.total);
    } else {
        assert(pages_from(w, m, page + 1).result == Ok::<nat, ErrorModel>(m.total));
    }
    let all = pages_from(w, m, page).saved;
    let rest = pages_from(w, m, page + 1).saved;
    let wanted = (p, w.page_text(m, p)->Ok_0);
    assert((w.drawn)(page));
    assert(w.page_text(m, page) is Ok);
    if !stays((w.present)(page), m.overwrite) {
        let first = (page, w.page_text(m, page)->Ok_0);
        assert(all == seq![first] + rest);
        assert(all[0] == first);
        if rest.contains(wanted) {
            let k = choose|k: int| 0 <= k < rest.len() && rest[k] == wanted;
            assert(all[k + 1] == wanted);
        }
        if all.contains(wanted) && page < p {
            let k = choose|k: int| 0 <= k < all.len() && all[k] == wanted;
            assert(k > 0);
            assert(rest[k - 1] == wanted);
        }
    }
}

/// Where plain drawings are cleaned up as `rewrite_svg` does it, every page that is written of a
/// plain drawing is a text that the crate usvg writes of it with the digits that the conversion was
/// begun with.
pub proof fn law_pages_have_their_digits(
    w: SvgWorld,
    m: SvgRunModel,
    svg_precision: u8,
    page: nat,
    k: int,
)
    requires
        m.digits == digits_for(svg_precision),
        forall|data: Seq<u8>| #[trigger]
            is_rewritten((w.rewritten)(data, m.digits), data, m.digits),
        0 <= k < pages_from(w, m, page).saved.len(),
    ensures
        ({
            let (p, text) = pages_from(w, m, page).saved[k];
            &&& page <= p <= m.total
            &&& is_plain(w.drawing(p, m.strip)) ==> usvg_writes(
                w.drawing(p, m.strip),
                digits_for(svg_precision),
                text,
            )
        }),
    decreases m.total + 1 - page,
{
    if page <= m.total {
        let all = pages_from(w, m, page).saved;
        let rest = pages_from(w, m, page + 1).saved;
        assert(is_rewritten(
            (w.rewritten)(w.drawing(page, m.strip), m.digits),
            w.drawing(page, m.strip),
            m.digits,
        ));
        if stays((w.present)(page), m.overwrite) {
            law_pages_have_their_digits(w, m, svg_precision, page + 1, k);
        } else if k > 0 {
            assert(all[k] == rest[k - 1]);
            law_pages_have_their_digits(w, m, svg_precision, page + 1, k - 1);
        }
    }
}

/// Where `pdftocairo` fails on a page, and nothing failed before, the conversion ends with an
/// error on the PDF; only pages in front of that page are written.
pub proof fn law_failed_drawing_stops(w: SvgWorld, m: SvgRunModel, page: nat, bad: nat)
    requires
        page <= bad <= m.total,
        !stays((w.present)(bad), m.overwrite),
        !(w.drawn)(bad),
        forall|q: nat|
            page <= q < bad ==> stays(#[trigger] (w.present)(q), m.overwrite) || ((w.drawn)(q)
                && w.page_text(m, q) is Ok),
    ensures
        pages_from(w, m, page).result == Err::<nat, ErrorModel>(drawing_failure(m.pdf, bad)),
        pages_from(w, m, page).result->Err_0 is Pdf,
        forall|k: int|
            0 <= k < pages_from(w, m, page).saved.len() ==> (#[trigger] pages_from(
                w,
                m,
                page,
            ).saved[k]).0 < bad,
    decreases bad - page,
{
    if page < bad {
        let all = pages_from(w, m, page).saved;
        let rest = pages_from(w, m, page + 1).saved;
        law_failed_drawing_stops(w, m, page + 1, bad);
        assert(stays((w.present)(page), m.overwrite) || ((w.drawn)(page) && w.page_text(m, page)
            is Ok));
        assert forall|k: int| 0 <= k < all.len() implies (#[trigger] all[k]).0 < bad by {
            if stays((w.present)(page), m.overwrite) {
                assert(all[k] == rest[k]);
            } else if k > 0 {
                assert(all[k] == rest[k - 1]);
            }
        }
    }
}

/// The pages from `page` on that are written are numbered from `page` on.
proof fn lemma_later_pages(w: SvgWorld, m: SvgRunModel, page: nat)
    ensures
        forall|k: int|
            0 <= k < pages_from(w, m, page).saved.len() ==> (#[trigger] pages_from(
                w,
                m,
                page,
            ).saved[k]).0 >= page,
    decreases m.total + 1 - page,
{
    if page <= m.total {
        lemma_later_pages(w, m, page + 1);
        let rest = pages_from(w, m, page + 1).saved;
        assert forall|k: int| 0 <= k < pages_from(w, m, page).saved.len() implies (
        #[trigger] pages_from(w, m, page).saved[k]).0 >= page by {
            let all = pages_from(w, m, page).saved;
            if all == rest {
                assert(all[k] == rest[k]);
            } else if k > 0 {
                assert(all[k] == rest[k - 1]);
            }
        }
    }
}

/// Whatever happens, a page is looked for and saved in the folder of the document, under the name
/// that its own number gives it; it is drawn from the file of the conversion, that page alone, to a
/// place beside it, and read from there.
pub proof fn law_drawings_go_to_their_places(m: SvgRunModel, e: SvgEventModel)
    requires
        m.expects(e),
        m.page <= m.total,
    ensures
        ({
            let name = page_name(m.page, OutputFormat::Svg);
            let place = join(m.dir, name);
            let beside = join(m.dir, name + encode_utf8(".raw"@));
            match m.after(e).1 {
                SvgActionModel::Look { path } => m.page < m.total && path == join(
                    m.dir,
                    page_name(m.page + 1, OutputFormat::Svg),
                ),
                SvgActionModel::Draw { arguments } => arguments == drawing_arguments(
                    m.pdf,
                    m.page,
                    beside,
                ),
                SvgActionModel::Load { path } => path == beside,
                SvgActionModel::Save { path, raw, .. } => path == place && raw == beside,
                SvgActionModel::Finish { page_count } => page_count == m.total && m.page == m.total,
                _ => true,
            }
        }),
{
    law_pages_are_first_written_beside(m.dir, m.page, OutputFormat::Svg);
}

/// What is drawn is stripped of its background exactly where that is asked for, and is cleaned up
/// with the digits of the conversion; what comes of that is saved as it is, and an error ends the
/// conversion as it is.
pub proof fn law_drawings_are_handed_on_unchanged(
    m: SvgRunModel,
    data: Seq<u8>,
    text: Seq<char>,
    error: ErrorModel,
)
    ensures
        m.strip ==> m.after(SvgEventModel::Loaded { data }).1 == (SvgActionModel::Strip { data }),
        !m.strip && is_plain(data) ==> m.after(SvgEventModel::Loaded { data }).1 == (
        SvgActionModel::Rewrite { data, digits: m.digits }),
        !m.strip && !is_plain(data) ==> m.after(SvgEventModel::Loaded { data }).1 == (
        SvgActionModel::Hand { data, digits: m.digits }),
        is_plain(data) ==> m.after(SvgEventModel::Stripped { data }).1 == (SvgActionModel::Rewrite {
            data,
            digits: m.digits,
        }),
        !is_plain(data) ==> m.after(SvgEventModel::Stripped { data }).1 == (SvgActionModel::Hand {
            data,
            digits: m.digits,
        }),
        m.after(SvgEventModel::Rewritten { outcome: Ok(text) }).1 matches SvgActionModel::Save {
            text: saved,
            ..
        } && saved == text,
        m.after(SvgEventModel::Rewritten { outcome: Err(error) }).1 == (SvgActionModel::Fail {
            error,
        }),
{
}

/// A conversion without overwriting, of pages that are all there, writes nothing and ends well, with
/// all pages.
pub proof fn law_present_drawings_are_left_alone(w: SvgWorld, m: SvgRunModel, page: nat)
    requires
        !m.overwrite,
        forall|q: nat| page <= q <= m.total ==> #[trigger] (w.present)(q),
    ensures
        pages_from(w, m, page).saved.len() == 0,
        pages_from(w, m, page).result == Ok::<nat, ErrorModel>(m.total),
    decreases m.total + 1 - page,
{
    if page <= m.total {
        law_present_drawings_are_left_alone(w, m, page + 1);
    }
}

/// Where a page is overwritten or missing, and is drawn and cleaned up, it is the next to be saved,
/// with the text that comes of its own drawing, stripped or not as is asked for.
pub proof fn law_next_drawing_is_saved(w: SvgWorld, m: SvgRunModel, page: nat, text: Seq<char>)
    requires
        page <= m.total,
        m.overwrite || !(w.present)(page),
        (w.drawn)(page),
        ({
            let data = if m.strip {
                (w.stripped)((w.raw)(page))
            } else {
                (w.raw)(page)
            };
            if is_plain(data) {
                (w.rewritten)(data, m.digits) == Ok::<Seq<char>, ErrorModel>(text)
            } else {
                (w.handed)(data, m.digits) == Ok::<Seq<char>, ErrorModel>(text)
            }
        }),
    ensures
        pages_from(w, m, page).saved.len() > 0,
        pages_from(w, m, page).saved[0] == (page, text),
        pages_from(w, m, page).saved.drop_first() == pages_from(w, m, page + 1).saved,
        pages_from(w, m, page).result == pages_from(w, m, page + 1).result,
{
    let rest = pages_from(w, m, page + 1).saved;
    assert((seq![(page, text)] + rest).drop_first() =~= rest);
}

} // verus!
