//! Pages as SVG documents: the white rectangle behind a page, and the clean-up of what
//! `pdftocairo` writes.

use crate::error::{AppError, ErrorModel};
use crate::path::{lossy_text, utf8_lossy, utf8_text};
use crate::plain::{check_plain, is_plain};
use crate::render::names_of;
use crate::text::{
    ascii_lower_text, blank, chars_of, decimal, digits_value, is_edge, law_decimal_value,
    law_number_stands_out, push_decimal, same_ignoring_case, same_text, starts_with, text_views, Edge,
};
use crate::xml::{node_models, roxmltree_nodes, text_of, xml_nodes, NodeModel, XmlNode};
use vstd::prelude::*;
use vstd::slice::*;
use vstd::string::*;
use vstd::utf8::*;

verus! {

// ---------------------------------------------------------------------------
// What may be the background
// ---------------------------------------------------------------------------

/// A rectangle that may be the background of a page.
#[derive(Debug)]
pub struct RectCandidate {
    pub x: Option<String>,
    pub y: Option<String>,
    pub width: Option<String>,
    pub height: Option<String>,
    /// Whether it is filled with white.
    pub white: bool,
    /// Where its text starts in the document, in bytes.
    pub start: usize,
    /// Where its text ends in the document, in bytes.
    pub end: usize,
}

/// A rectangle with its texts.
pub ghost struct RectModel {
    pub x: Option<Seq<char>>,
    pub y: Option<Seq<char>>,
    pub width: Option<Seq<char>>,
    pub height: Option<Seq<char>>,
    pub white: bool,
    pub start: usize,
    pub end: usize,
}

impl View for RectCandidate {
    type V = RectModel;

    open spec fn view(&self) -> RectModel {
        RectModel {
            x: text_of(self.x),
            y: text_of(self.y),
            width: text_of(self.width),
            height: text_of(self.height),
            white: self.white,
            start: self.start,
            end: self.end,
        }
    }
}

/// The rectangles of a list.
pub open spec fn rect_models(v: Seq<RectCandidate>) -> Seq<RectModel> {
    v.map_values(|r: RectCandidate| r@)
}

/// What was found in a document on the way to its background.
#[derive(Debug)]
pub struct BackgroundScan {
    /// The view box of the document.
    pub view_box: Option<String>,
    pub width: Option<String>,
    pub height: Option<String>,
    /// The rectangles, in the order of the document.
    pub rects: Vec<RectCandidate>,
}

/// What was found, with its texts.
pub ghost struct ScanModel {
    pub view_box: Option<Seq<char>>,
    pub width: Option<Seq<char>>,
    pub height: Option<Seq<char>>,
    pub rects: Seq<RectModel>,
}

impl View for BackgroundScan {
    type V = ScanModel;

    open spec fn view(&self) -> ScanModel {
        ScanModel {
            view_box: text_of(self.view_box),
            width: text_of(self.width),
            height: text_of(self.height),
            rects: rect_models(self.rects@),
        }
    }
}

impl BackgroundScan {
    /// Whether the rectangles lie within a document of `len` bytes.
    pub open spec fn fits(self, len: nat) -> bool {
        forall|i: int|
            0 <= i < self.rects.len() ==> (#[trigger] self.rects@[i]).start <= self.rects@[i].end <= len
    }
}

/// Whether a fill is white.
pub open spec fn is_white(fill: Option<Seq<char>>) -> bool {
    fill matches Some(f) && {
        ||| ascii_lower_text(f) == ascii_lower_text("white"@)
        ||| ascii_lower_text(f) == ascii_lower_text("#fff"@)
        ||| ascii_lower_text(f) == ascii_lower_text("#ffffff"@)
        ||| ascii_lower_text(f) == ascii_lower_text("rgb(255,255,255)"@)
    }
}

fn check_white(fill: &Option<String>) -> (r: bool)
    ensures
        r == is_white(text_of(*fill)),
{
    match fill {
        None => false,
        Some(f) => same_ignoring_case(f.as_str(), "white") || same_ignoring_case(
            f.as_str(),
            "#fff",
        ) || same_ignoring_case(f.as_str(), "#ffffff") || same_ignoring_case(
            f.as_str(),
            "rgb(255,255,255)",
        ),
    }
}

/// The place of the first element `tag`, from place `from` on; below `parent`, where one is given.
pub open spec fn find_element(
    nodes: Seq<NodeModel>,
    tag: Seq<char>,
    parent: Option<usize>,
    from: int,
) -> Option<usize>
    decreases nodes.len() - from,
{
    if from < 0 || from >= nodes.len() {
        None
    } else if nodes[from].tag == tag && (parent is None || nodes[from].parent == parent) {
        Some(from as usize)
    } else {
        find_element(nodes, tag, parent, from + 1)
    }
}

/// The rectangle that a node stands for.
pub open spec fn rect_of(n: NodeModel) -> RectModel {
    RectModel {
        x: n.value("x"@),
        y: n.value("y"@),
        width: n.value("width"@),
        height: n.value("height"@),
        white: is_white(n.value("fill"@)),
        start: n.start,
        end: n.end,
    }
}

/// The rectangles right below a node, in the order of the document.
pub open spec fn rects_below(nodes: Seq<NodeModel>, parent: usize) -> Seq<RectModel>
    decreases nodes.len(),
{
    if nodes.len() == 0 {
        Seq::empty()
    } else {
        let before = rects_below(nodes.drop_last(), parent);
        if nodes.last().tag == "rect"@ && nodes.last().parent == Some(parent) {
            before.push(rect_of(nodes.last()))
        } else {
            before
        }
    }
}

/// What is found on the way to the background: the size of the first `svg` element, and the
/// rectangles right below its first group, or right below itself where it has no group.
/// `None` where there is no `svg` element.
pub open spec fn scan_of(nodes: Seq<NodeModel>) -> Option<ScanModel> {
    match find_element(nodes, "svg"@, None, 0) {
        None => None,
        Some(svg) => {
            let group = match find_element(nodes, "g"@, Some(svg), 0) {
                Some(g) => g,
                None => svg,
            };
            Some(
                ScanModel {
                    view_box: nodes[svg as int].value("viewBox"@),
                    width: nodes[svg as int].value("width"@),
                    height: nodes[svg as int].value("height"@),
                    rects: rects_below(nodes, group),
                },
            )
        },
    }
}

fn find_tag(nodes: &Vec<XmlNode>, tag: &str, parent: Option<usize>) -> (r: Option<usize>)
    ensures
        r == find_element(node_models(nodes@), tag@, parent, 0),
        r matches Some(i) ==> i < nodes.len(),
{
    let ghost models = node_models(nodes@);
    let mut i: usize = 0;
    while i < nodes.len()
        invariant
            i <= nodes.len(),
            models == node_models(nodes@),
            find_element(models, tag@, parent, 0) == find_element(models, tag@, parent, i as int),
        decreases nodes.len() - i,
    {
        assert(models[i as int] == nodes@[i as int]@);
        let below: bool = match (parent, nodes[i].parent) {
            (None, _) => true,
            (Some(p), Some(q)) => p == q,
            (Some(_), None) => false,
        };
        if below && same_text(nodes[i].tag.as_str(), tag) {
            return Some(i);
        }
        i = i + 1;
    }
    None
}

/// Looks through the nodes of a document on the way to its background.
pub fn scan_nodes(nodes: &Vec<XmlNode>) -> (r: Option<BackgroundScan>)
    ensures
        match r {
            Some(s) => scan_of(node_models(nodes@)) == Some(s@),
            None => scan_of(node_models(nodes@)) is None,
        },
        r matches Some(s) ==> forall|len: nat|
            (forall|i: int|
                0 <= i < nodes.len() ==> (#[trigger] nodes@[i]).start <= nodes@[i].end <= len)
                ==> #[trigger] s.fits(len),
{
    let svg: usize = match find_tag(nodes, "svg", None) {
        Some(i) => i,
        None => {
            return None;
        },
    };
    let group: usize = match find_tag(nodes, "g", Some(svg)) {
        Some(i) => i,
        None => svg,
    };
    let ghost models = node_models(nodes@);
    let mut rects: Vec<RectCandidate> = Vec::new();
    let mut i: usize = 0;
    assert(rect_models(rects@) =~= rects_below(models.take(0), group));
    while i < nodes.len()
        invariant
            i <= nodes.len(),
            models == node_models(nodes@),
            rect_models(rects@) == rects_below(models.take(i as int), group),
            forall|k: int|
                0 <= k < rects.len() ==> exists|j: int|
                    0 <= j < nodes.len() && (#[trigger] nodes@[j]).start == (#[trigger] rects@[k]).start
                        && nodes@[j].end == rects@[k].end,
        decreases nodes.len() - i,
    {
        let ghost before = rect_models(rects@);
        let n: &XmlNode = &nodes[i];
        assert(models.take(i + 1).drop_last() =~= models.take(i as int));
        assert(models.take(i + 1).last() == n@);
        let below: bool = match n.parent {
            Some(p) => p == group,
            None => false,
        };
        if below && same_text(n.tag.as_str(), "rect") {
            let ghost old_rects = rects@;
            let rect: RectCandidate = RectCandidate {
                x: n.value("x"),
                y: n.value("y"),
                width: n.value("width"),
                height: n.value("height"),
                white: check_white(&n.value("fill")),
                start: n.start,
                end: n.end,
            };
            assert(rect@ == rect_of(n@));
            rects.push(rect);
            assert(rect_models(rects@) =~= before.push(rect_of(n@)));
            assert forall|k: int| 0 <= k < rects.len() implies exists|j: int|
                0 <= j < nodes.len() && (#[trigger] nodes@[j]).start == (#[trigger] rects@[k]).start
                    && nodes@[j].end == rects@[k].end by {
                if k < old_rects.len() {
                    assert(rects@[k] == old_rects[k]);
                } else {
                    assert(nodes@[i as int].start == rects@[k].start);
                }
            }
        }
        i = i + 1;
    }
    assert(models.take(i as int) =~= models);
    assert(models[svg as int] == nodes@[svg as int]@);
    Some(
        BackgroundScan {
            view_box: nodes[svg].value("viewBox"),
            width: nodes[svg].value("width"),
            height: nodes[svg].value("height"),
            rects,
        },
    )
}

/// What is found in the bytes of a document on the way to its background.
pub open spec fn scan_of_bytes(data: Seq<u8>) -> Option<ScanModel> {
    if valid_utf8(data) {
        match roxmltree_nodes(decode_utf8(data)) {
            Some(nodes) => scan_of(nodes),
            None => None,
        }
    } else {
        None
    }
}

/// Looks through a document on the way to its background: `None` where it is no XML in UTF-8,
/// or has no `svg` element.
pub fn scan_background(svg_data: &[u8]) -> (r: Option<BackgroundScan>)
    ensures
        match r {
            Some(s) => scan_of_bytes(svg_data@) == Some(s@) && s.fits(svg_data@.len()),
            None => scan_of_bytes(svg_data@) is None,
        },
{
    let text: &str = match utf8_text(svg_data) {
        Ok(t) => t,
        Err(_) => {
            return None;
        },
    };
    proof {
        encode_utf8_decode_utf8(text@);
    }
    match xml_nodes(text) {
        Some(nodes) => scan_nodes(&nodes),
        None => None,
    }
}

// ---------------------------------------------------------------------------
// The size of the page
// ---------------------------------------------------------------------------

/// The end of the word that starts at `i`.
pub open spec fn word_end(s: Seq<char>, i: int) -> int
    decreases s.len() - i,
{
    if i >= s.len() || is_edge(Edge::Blank, s[i]) {
        i
    } else {
        word_end(s, i + 1)
    }
}

/// A word ends within its text, at or behind its start.
pub proof fn lemma_word_end(s: Seq<char>, i: int)
    requires
        0 <= i <= s.len(),
    ensures
        i <= word_end(s, i) <= s.len(),
    decreases s.len() - i,
{
    if i < s.len() && !is_edge(Edge::Blank, s[i]) {
        lemma_word_end(s, i + 1);
    }
}

/// The words of a text from `i` on: what white space parts.
pub open spec fn words_from(s: Seq<char>, i: int) -> Seq<Seq<char>>
    decreases s.len() - i,
{
    if i < 0 || i >= s.len() {
        Seq::empty()
    } else if is_edge(Edge::Blank, s[i]) {
        words_from(s, i + 1)
    } else {
        proof {
            lemma_word_end(s, i + 1);
        }
        let j = word_end(s, i + 1);
        seq![s.subrange(i, j)] + words_from(s, j)
    }
}

/// Parts a text at its white space.
pub fn split_words(s: &str) -> (r: Vec<String>)
    ensures
        text_views(r@) == words_from(s@, 0),
{
    let chars: Vec<char> = chars_of(s);
    let mut out: Vec<String> = Vec::new();
    let mut i: usize = 0;
    assert(text_views(out@) + words_from(s@, 0) =~= words_from(s@, 0));
    while i < chars.len()
        invariant
            chars@ == s@,
            i <= chars.len(),
            text_views(out@) + words_from(s@, i as int) == words_from(s@, 0),
        decreases chars.len() - i,
    {
        if blank(chars[i]) {
            i = i + 1;
            continue;
        }
        let mut j: usize = i + 1;
        while j < chars.len() && !blank(chars[j])
            invariant
                chars@ == s@,
                i < j <= chars.len(),
                word_end(s@, i + 1) == word_end(s@, j as int),
            decreases chars.len() - j,
        {
            j = j + 1;
        }
        let ghost before = text_views(out@);
        let word: String = s.substring_char(i, j).to_owned();
        out.push(word);
        assert(text_views(out@) =~= before.push(s@.subrange(i as int, j as int)));
        assert(text_views(out@) + words_from(s@, j as int) =~= before + (seq![
            s@.subrange(i as int, j as int),
        ] + words_from(s@, j as int)));
        i = j;
    }
    assert(text_views(out@) + words_from(s@, i as int) =~= text_views(out@));
    out
}

/// A page is 612 wide where nothing tells its width: the bits of an IEEE 754 single.
pub const DEFAULT_WIDTH: u32 = 0x4419_0000;

/// A page is 792 high where nothing tells its height: the bits of an IEEE 754 single.
pub const DEFAULT_HEIGHT: u32 = 0x4446_0000;

/// The numbers among the readings of words.
pub open spec fn numbers_of(readings: Seq<Option<u32>>) -> Seq<u32>
    decreases readings.len(),
{
    if readings.len() == 0 {
        Seq::empty()
    } else {
        match readings.last() {
            Some(n) => numbers_of(readings.drop_last()).push(n),
            None => numbers_of(readings.drop_last()),
        }
    }
}

/// The width and height of a page, given the readings of the words of its view box, and of
/// its width and height. A number is given by its bits; a word that is no number reads `None`.
pub open spec fn page_size(
    view_box: Seq<Option<u32>>,
    width: Option<u32>,
    height: Option<u32>,
) -> (u32, u32) {
    let numbers = numbers_of(view_box);
    if numbers.len() >= 4 {
        (numbers[2], numbers[3])
    } else {
        (
            match width {
                Some(w) => w,
                None => DEFAULT_WIDTH,
            },
            match height {
                Some(h) => h,
                None => DEFAULT_HEIGHT,
            },
        )
    }
}

/// Finds the width and height of a page: the third and fourth number of its view box, or else
/// what its width and height say.
pub fn parse_view_box(view_box: &Vec<Option<u32>>, width: Option<u32>, height: Option<u32>) -> (r: (
    u32,
    u32,
))
    ensures
        r == page_size(view_box@, width, height),
{
    let mut numbers: Vec<u32> = Vec::new();
    let mut i: usize = 0;
    assert(numbers@ =~= numbers_of(view_box@.take(0)));
    while i < view_box.len()
        invariant
            i <= view_box.len(),
            numbers@ == numbers_of(view_box@.take(i as int)),
        decreases view_box.len() - i,
    {
        assert(view_box@.take(i + 1).drop_last() =~= view_box@.take(i as int));
        if let Some(n) = view_box[i] {
            numbers.push(n);
        }
        i = i + 1;
    }
    assert(view_box@.take(i as int) =~= view_box@);
    if numbers.len() >= 4 {
        return (numbers[2], numbers[3]);
    }
    let w: u32 = match width {
        Some(w) => w,
        None => DEFAULT_WIDTH,
    };
    let h: u32 = match height {
        Some(h) => h,
        None => DEFAULT_HEIGHT,
    };
    (w, h)
}

// ---------------------------------------------------------------------------
// Taking the background away
// ---------------------------------------------------------------------------

/// The first rectangle, from place `from` on, that is white and covers the page.
pub open spec fn background_at(rects: Seq<RectModel>, covers: Seq<bool>, from: int) -> Option<int>
    decreases rects.len() - from,
{
    if from < 0 || from >= rects.len() {
        None
    } else if rects[from].white && covers[from] {
        Some(from)
    } else {
        background_at(rects, covers, from + 1)
    }
}

/// The document without its background. `covers` tells of each rectangle whether it covers
/// the page.
pub open spec fn without_background(
    data: Seq<u8>,
    scan: Option<ScanModel>,
    page_empty: bool,
    covers: Seq<bool>,
) -> Seq<u8> {
    match scan {
        Some(s) if !page_empty => match background_at(s.rects, covers, 0) {
            Some(i) => data.take(s.rects[i].start as int) + data.skip(s.rects[i].end as int),
            None => data,
        },
        _ => data,
    }
}

/// The model of a scan that may be missing.
pub open spec fn scan_model(scan: Option<BackgroundScan>) -> Option<ScanModel> {
    match scan {
        Some(s) => Some(s@),
        None => None,
    }
}

/// Takes the background out of a document: the first of its rectangles that is white and
/// covers the page. `page_empty` tells whether the page has no width or no height; then
/// nothing is taken out.
pub fn strip_background_rect_bytes(
    svg_data: &[u8],
    scan: &Option<BackgroundScan>,
    page_empty: bool,
    covers: &Vec<bool>,
) -> (r: Vec<u8>)
    requires
        scan matches Some(s) ==> s.fits(svg_data@.len()) && covers.len() == s.rects.len(),
    ensures
        r@ == without_background(svg_data@, scan_model(*scan), page_empty, covers@),
{
    if page_empty {
        return slice_to_vec(svg_data);
    }
    match scan {
        None => slice_to_vec(svg_data),
        Some(s) => {
            let ghost rects = rect_models(s.rects@);
            let mut i: usize = 0;
            while i < s.rects.len()
                invariant
                    scan == Some(*s),
                    s.fits(svg_data@.len()),
                    covers.len() == s.rects.len(),
                    i <= s.rects.len(),
                    rects == rect_models(s.rects@),
                    !page_empty,
                    background_at(rects, covers@, 0) == background_at(rects, covers@, i as int),
                decreases s.rects.len() - i,
            {
                let rect: &RectCandidate = &s.rects[i];
                assert(rects[i as int] == rect@);
                if rect.white && covers[i] {
                    let mut out: Vec<u8> = slice_to_vec(slice_subrange(svg_data, 0, rect.start));
                    let tail: &[u8] = slice_subrange(svg_data, rect.end, svg_data.len());
                    out.extend_from_slice(tail);
                    assert(out@ =~= svg_data@.take(rect.start as int) + svg_data@.skip(
                        rect.end as int,
                    ));
                    return out;
                }
                i = i + 1;
            }
            slice_to_vec(svg_data)
        },
    }
}

/// Taking the background away takes nothing else: what is left is the document in front of
/// one rectangle and behind it, or the whole document.
pub proof fn law_only_one_rect_is_taken(
    data: Seq<u8>,
    scan: BackgroundScan,
    page_empty: bool,
    covers: Seq<bool>,
)
    ensures
        ({
            let left = without_background(data, Some(scan@), page_empty, covers);
            ||| left == data
            ||| exists|i: int|
                0 <= i < scan.rects.len() && (#[trigger] scan.rects@[i]).white && covers[i] && left
                    == data.take(scan.rects@[i].start as int) + data.skip(scan.rects@[i].end as int)
        }),
{
    let rects = scan@.rects;
    lemma_background_at(rects, covers, 0);
    if background_at(rects, covers, 0) is Some {
        let i = background_at(rects, covers, 0)->0;
        assert(rects[i] == scan.rects@[i]@);
    }
}

proof fn lemma_background_at(rects: Seq<RectModel>, covers: Seq<bool>, from: int)
    ensures
        background_at(rects, covers, from) matches Some(i) ==> 0 <= i < rects.len() && rects[i].white
            && covers[i],
    decreases rects.len() - from,
{
    if 0 <= from < rects.len() && !(rects[from].white && covers[from]) {
        lemma_background_at(rects, covers, from + 1);
    }
}

// ---------------------------------------------------------------------------
// The clean-up
// ---------------------------------------------------------------------------

/// The number of digits that coordinates are written with: what is asked for, but at least 1
/// and at most 4.
pub open spec fn digits_for(svg_precision: u8) -> u8 {
    if svg_precision < 1 {
        1
    } else if svg_precision > 4 {
        4
    } else {
        svg_precision
    }
}

/// What `Tree::from_data` of the crate usvg finds wrong with the bytes of a document, in its own
/// words; `None` where it makes a tree of them.
pub uninterp spec fn usvg_error(data: Seq<u8>) -> Option<Seq<char>>;

/// Whether `text` is one that `Tree::to_string` of the crate usvg may write, with so many digits
/// of coordinates, of what `Tree::from_data` makes of the bytes of a document. There may be more
/// than one: sines and cosines are what the machine makes of them.
pub uninterp spec fn usvg_writes(data: Seq<u8>, digits: u8, text: Seq<char>) -> bool;

/// `Tree::from_data` and `Tree::to_string` of the crate usvg, with its default options but for
/// the digits of coordinates. On documents of other kinds they may panic, go on for ever or read
/// files; on a plain drawing, and on what is no document, they come to an end. Whether a document
/// is refused, and in which words, is decided by its bytes alone; a tree can always be written,
/// and what is written begins with the `svg` element. The text is one that is written of these
/// bytes with these digits; which one it is, where the machine's arithmetic decides, is not said.
#[verifier::external_body]
fn usvg_rewrite(data: &[u8], digits: u8) -> (r: Result<String, String>)
    requires
        1 <= digits <= 12,
        is_plain(data@),
    ensures
        match r {
            Ok(t) => usvg_error(data@) is None && usvg_writes(data@, digits, t@) && starts_with(
                t@,
                "<svg "@,
            ),
            Err(e) => usvg_error(data@) == Some(e@),
        },
{
    let tree = usvg::Tree::from_data(data, &usvg::Options::default()).map_err(|e| e.to_string())?;
    let options = usvg::WriteOptions {
        coordinates_precision: digits,
        ..usvg::WriteOptions::default()
    };
    Ok(tree.to_string(&options))
}

/// Ends the clean-up of a document, given what came of it.
pub fn rewritten_svg(outcome: Result<String, String>) -> (r: Result<String, AppError>)
    ensures
        match r {
            Ok(t) => outcome == Ok::<String, String>(t),
            Err(AppError::Custom(e)) => outcome is Err && e@ == "usvg error: "@ + outcome->Err_0@,
            Err(_) => false,
        },
{
    match outcome {
        Ok(t) => Ok(t),
        Err(e) => {
            let mut text: String = "usvg error: ".to_owned();
            text.append(e.as_str());
            Err(AppError::Custom(text))
        },
    }
}

/// What a clean-up gave, with its texts.
pub open spec fn outcome_model(r: Result<String, AppError>) -> Result<Seq<char>, ErrorModel> {
    match r {
        Ok(t) => Ok(t@),
        Err(e) => Err(e@),
    }
}

/// What is said of a document that is not plain.
pub open spec fn not_plain() -> ErrorModel {
    ErrorModel::Custom("Not a plain drawing"@)
}

/// Whether `r` may come of the clean-up of a document: an error of its own on one that is not
/// plain; on a plain one that the crate usvg refuses the error with its words, and on any other
/// a text that it writes with the digits that `svg_precision` stands for.
pub open spec fn is_rewritten(
    r: Result<Seq<char>, ErrorModel>,
    data: Seq<u8>,
    svg_precision: u8,
) -> bool {
    if !is_plain(data) {
        r == Err::<Seq<char>, ErrorModel>(not_plain())
    } else {
        match usvg_error(data) {
            None => r matches Ok(t) && usvg_writes(data, digits_for(svg_precision), t)
                && starts_with(t, "<svg "@),
            Some(cause) => r == Err::<Seq<char>, ErrorModel>(
                ErrorModel::Custom("usvg error: "@ + cause),
            ),
        }
    }
}

/// Cleans a plain drawing up, and writes its coordinates with the digits that `svg_precision`
/// stands for. It fails on the documents that are not plain, on those that the crate usvg refuses,
/// and on no others; the error tells why in its words.
pub fn rewrite_svg(data: &[u8], svg_precision: u8) -> (r: Result<String, AppError>)
    ensures
        is_rewritten(outcome_model(r), data@, svg_precision),
{
    if !check_plain(data) {
        return Err(AppError::Custom("Not a plain drawing".to_owned()));
    }
    let digits: u8 = clamp_precision(svg_precision);
    rewritten_svg(usvg_rewrite(data, digits))
}

/// Finds the number of digits that coordinates are written with.
pub fn clamp_precision(svg_precision: u8) -> (r: u8)
    ensures
        r == digits_for(svg_precision),
        1 <= r <= 4,
{
    if svg_precision < 1 {
        1
    } else if svg_precision > 4 {
        4
    } else {
        svg_precision
    }
}

/// The arguments that make `pdftocairo` draw one page of a file.
pub open spec fn drawing_arguments(pdf_path: Seq<u8>, page_num: nat, target: Seq<u8>) -> Seq<
    Seq<u8>,
> {
    seq![
        encode_utf8("-svg"@),
        encode_utf8("-f"@),
        encode_utf8(decimal(page_num)),
        encode_utf8("-l"@),
        encode_utf8(decimal(page_num)),
        pdf_path,
        target,
    ]
}

/// Gives the arguments for `pdftocairo`.
pub fn draw_page_arguments(pdf_path: &[u8], page_num: u32, target: &[u8]) -> (r: Vec<Vec<u8>>)
    ensures
        names_of(r@) == drawing_arguments(pdf_path@, page_num as nat, target@),
{
    let mut number: String = String::new();
    push_decimal(&mut number, page_num as u64);
    assert(number@ =~= decimal(page_num as nat));
    let mut out: Vec<Vec<u8>> = Vec::new();
    out.push(slice_to_vec("-svg".as_bytes()));
    out.push(slice_to_vec("-f".as_bytes()));
    out.push(slice_to_vec(number.as_str().as_bytes()));
    out.push(slice_to_vec("-l".as_bytes()));
    out.push(slice_to_vec(number.as_str().as_bytes()));
    out.push(slice_to_vec(pdf_path));
    out.push(slice_to_vec(target));
    assert(names_of(out@) =~= drawing_arguments(pdf_path@, page_num as nat, target@));
    out
}

/// What `pdftocairo` failing on a page is told as.
pub open spec fn drawing_failure(pdf_path: Seq<u8>, page_num: nat) -> ErrorModel {
    ErrorModel::Pdf(
        "pdftocairo failed for '"@ + utf8_lossy(pdf_path) + "' page "@ + decimal(page_num),
    )
}

/// The error where `pdftocairo` failed on a page.
pub fn svg_failure(pdf_path: &[u8], page_num: u32) -> (e: AppError)
    ensures
        e@ == drawing_failure(pdf_path@, page_num as nat),
{
    let mut t: String = "pdftocairo failed for '".to_owned();
    t.append(lossy_text(pdf_path).as_str());
    t.append("' page ");
    push_decimal(&mut t, page_num as u64);
    AppError::Pdf(t)
}

// ---------------------------------------------------------------------------
// Laws of the background
// ---------------------------------------------------------------------------

/// Whether a node is the first element `tag`; below `parent`, where one is given.
pub open spec fn is_first(
    nodes: Seq<NodeModel>,
    tag: Seq<char>,
    parent: Option<usize>,
    i: usize,
) -> bool {
    &&& i < nodes.len()
    &&& nodes[i as int].tag == tag
    &&& parent is Some ==> nodes[i as int].parent == parent
    &&& forall|k: int|
        0 <= k < i ==> !((#[trigger] nodes[k]).tag == tag && (parent is None || nodes[k].parent
            == parent))
}

/// Whether there is no element `tag`; below `parent`, where one is given.
pub open spec fn has_none(nodes: Seq<NodeModel>, tag: Seq<char>, parent: Option<usize>) -> bool {
    forall|k: int|
        0 <= k < nodes.len() ==> !((#[trigger] nodes[k]).tag == tag && (parent is None
            || nodes[k].parent == parent))
}

/// Whether the background of a document is looked for right below a node: the first group of the
/// first `svg` element, or the `svg` element itself where it has no group.
pub open spec fn holds_background(nodes: Seq<NodeModel>, svg: usize, group: usize) -> bool {
    &&& is_first(nodes, "svg"@, None, svg)
    &&& is_first(nodes, "g"@, Some(svg), group) || (has_none(nodes, "g"@, Some(svg)) && group == svg)
}

proof fn lemma_find_first(
    nodes: Seq<NodeModel>,
    tag: Seq<char>,
    parent: Option<usize>,
    i: usize,
    from: int,
)
    requires
        is_first(nodes, tag, parent, i),
        0 <= from <= i,
    ensures
        find_element(nodes, tag, parent, from) == Some(i),
    decreases i - from,
{
    if from < i {
        assert(!(nodes[from].tag == tag && (parent is None || nodes[from].parent == parent)));
        lemma_find_first(nodes, tag, parent, i, from + 1);
    }
}

proof fn lemma_find_none(nodes: Seq<NodeModel>, tag: Seq<char>, parent: Option<usize>, from: int)
    requires
        has_none(nodes, tag, parent),
        0 <= from,
    ensures
        find_element(nodes, tag, parent, from) is None,
    decreases nodes.len() - from,
{
    if from < nodes.len() {
        assert(!(nodes[from].tag == tag && (parent is None || nodes[from].parent == parent)));
        lemma_find_none(nodes, tag, parent, from + 1);
    }
}

proof fn lemma_scan_below(nodes: Seq<NodeModel>, svg: usize, group: usize)
    requires
        holds_background(nodes, svg, group),
    ensures
        scan_of(nodes) matches Some(s) && s.rects == rects_below(nodes, group) && s.view_box
            == nodes[svg as int].value("viewBox"@) && s.width == nodes[svg as int].value("width"@)
            && s.height == nodes[svg as int].value("height"@),
{
    lemma_find_first(nodes, "svg"@, None, svg, 0);
    if is_first(nodes, "g"@, Some(svg), group) {
        lemma_find_first(nodes, "g"@, Some(svg), group, 0);
    } else {
        lemma_find_none(nodes, "g"@, Some(svg), 0);
    }
}

/// The size of a document is read from the attributes `viewBox`, `width` and `height` of its first
/// `svg` element; a document without one has no background.
pub proof fn law_size_is_read_from_the_svg_element(nodes: Seq<NodeModel>, svg: usize, group: usize)
    ensures
        holds_background(nodes, svg, group) ==> (scan_of(nodes) matches Some(s) && s.view_box
            == nodes[svg as int].value("viewBox"@) && s.width == nodes[svg as int].value("width"@)
            && s.height == nodes[svg as int].value("height"@)),
        has_none(nodes, "svg"@, None) ==> scan_of(nodes) is None,
{
    if holds_background(nodes, svg, group) {
        lemma_scan_below(nodes, svg, group);
    }
    if has_none(nodes, "svg"@, None) {
        lemma_find_none(nodes, "svg"@, None, 0);
    }
}

proof fn lemma_rect_is_below(nodes: Seq<NodeModel>, parent: usize, k: int) -> (i: int)
    requires
        0 <= k < nodes.len(),
        nodes[k].tag == "rect"@,
        nodes[k].parent == Some(parent),
    ensures
        0 <= i < rects_below(nodes, parent).len(),
        rects_below(nodes, parent)[i] == rect_of(nodes[k]),
    decreases nodes.len(),
{
    if k == nodes.len() - 1 {
        rects_below(nodes, parent).len() - 1
    } else {
        lemma_rect_is_below(nodes.drop_last(), parent, k)
    }
}

proof fn lemma_rects_places(nodes: Seq<NodeModel>, parent: usize) -> (place: Seq<int>)
    ensures
        place.len() == rects_below(nodes, parent).len(),
        forall|i: int|
            0 <= i < place.len() ==> 0 <= #[trigger] place[i] < nodes.len() && nodes[place[i]].tag
                == "rect"@ && nodes[place[i]].parent == Some(parent) && rects_below(
                nodes,
                parent,
            )[i] == rect_of(nodes[place[i]]),
        forall|i: int, j: int|
            0 <= i < j < place.len() ==> #[trigger] place[i] < #[trigger] place[j],
    decreases nodes.len(),
{
    if nodes.len() == 0 {
        Seq::empty()
    } else {
        let before = lemma_rects_places(nodes.drop_last(), parent);
        if nodes.last().tag == "rect"@ && nodes.last().parent == Some(parent) {
            before.push(nodes.len() - 1)
        } else {
            before
        }
    }
}

/// Every rectangle right below the node where the background is looked for is in the scan: with
/// the values of its attributes `x`, `y`, `width` and `height`, each under its own name, with
/// whether its `fill` is white, and with its place in the document.
pub proof fn law_every_rect_is_read(nodes: Seq<NodeModel>, svg: usize, group: usize, k: int)
    requires
        holds_background(nodes, svg, group),
        0 <= k < nodes.len(),
        nodes[k].tag == "rect"@,
        nodes[k].parent == Some(group),
    ensures
        scan_of(nodes) matches Some(s) && exists|i: int|
            0 <= i < s.rects.len() && {
                let rect = #[trigger] s.rects[i];
                &&& rect.x == nodes[k].value("x"@)
                &&& rect.y == nodes[k].value("y"@)
                &&& rect.width == nodes[k].value("width"@)
                &&& rect.height == nodes[k].value("height"@)
                &&& rect.white == is_white(nodes[k].value("fill"@))
                &&& rect.start == nodes[k].start
                &&& rect.end == nodes[k].end
            },
{
    lemma_scan_below(nodes, svg, group);
    let i = lemma_rect_is_below(nodes, group, k);
    assert(scan_of(nodes)->0.rects[i] == rect_of(nodes[k]));
}

/// A scan holds nothing but rectangles right below the node where the background is looked for,
/// each once and in the order of the document, with the values of their own attributes.
pub proof fn law_only_rects_are_read(nodes: Seq<NodeModel>, svg: usize, group: usize) -> (place: Seq<
    int,
>)
    requires
        holds_background(nodes, svg, group),
    ensures
        scan_of(nodes) matches Some(s) && place.len() == s.rects.len() && forall|i: int|
            #![trigger place[i]]
            0 <= i < place.len() ==> {
                let rect = s.rects[i];
                let n = nodes[place[i]];
                &&& 0 <= place[i] < nodes.len()
                &&& n.tag == "rect"@ && n.parent == Some(group)
                &&& rect.x == n.value("x"@)
                &&& rect.y == n.value("y"@)
                &&& rect.width == n.value("width"@)
                &&& rect.height == n.value("height"@)
                &&& rect.white == is_white(n.value("fill"@))
                &&& rect.start == n.start
                &&& rect.end == n.end
            },
        forall|i: int, j: int|
            0 <= i < j < place.len() ==> #[trigger] place[i] < #[trigger] place[j],
{
    lemma_scan_below(nodes, svg, group);
    lemma_rects_places(nodes, group)
}

/// A fill is white by the name of the colour or by one of its three numbers, in small letters or
/// capitals; without a fill, or with another one, a rectangle is not white.
pub proof fn law_white_is_white(f: Seq<char>, g: Seq<char>)
    ensures
        is_white(Some("white"@)),
        is_white(Some("#fff"@)),
        is_white(Some("#ffffff"@)),
        is_white(Some("rgb(255,255,255)"@)),
        !is_white(None),
        ascii_lower_text(f) == ascii_lower_text(g) ==> is_white(Some(f)) == is_white(Some(g)),
        f.len() != 4 && f.len() != 5 && f.len() != 7 && f.len() != 16 ==> !is_white(Some(f)),
        f.len() == 5 && is_white(Some(f)) ==> ascii_lower_text(f) == "white"@,
        f.len() == 4 && is_white(Some(f)) ==> ascii_lower_text(f) == "#fff"@,
        f.len() == 7 && is_white(Some(f)) ==> ascii_lower_text(f) == "#ffffff"@,
        f.len() == 16 && is_white(Some(f)) ==> ascii_lower_text(f) == "rgb(255,255,255)"@,
{
    reveal_strlit("white");
    reveal_strlit("#fff");
    reveal_strlit("#ffffff");
    reveal_strlit("rgb(255,255,255)");
    assert(ascii_lower_text("white"@) =~= "white"@);
    assert(ascii_lower_text("#fff"@) =~= "#fff"@);
    assert(ascii_lower_text("#ffffff"@) =~= "#ffffff"@);
    assert(ascii_lower_text("rgb(255,255,255)"@) =~= "rgb(255,255,255)"@);
    assert(ascii_lower_text(f).len() == f.len());
}

proof fn lemma_background_is(rects: Seq<RectModel>, covers: Seq<bool>, i: int, from: int)
    requires
        0 <= from <= i < rects.len(),
        rects[i].white && covers[i],
        forall|k: int| from <= k < i ==> !((#[trigger] rects[k]).white && covers[k]),
    ensures
        background_at(rects, covers, from) == Some(i),
    decreases i - from,
{
    if from < i {
        assert(!(rects[from].white && covers[from]));
        lemma_background_is(rects, covers, i, from + 1);
    }
}

proof fn lemma_no_background(rects: Seq<RectModel>, covers: Seq<bool>, from: int)
    requires
        0 <= from,
        forall|k: int| from <= k < rects.len() ==> !((#[trigger] rects[k]).white && covers[k]),
    ensures
        background_at(rects, covers, from) is None,
    decreases rects.len() - from,
{
    if from < rects.len() {
        assert(!(rects[from].white && covers[from]));
        lemma_no_background(rects, covers, from + 1);
    }
}

/// The first rectangle that is white and covers the page is taken out of the document, from its
/// start to its end, and where there is none the document stays as it is.
pub proof fn law_first_white_cover_is_taken(
    data: Seq<u8>,
    scan: ScanModel,
    covers: Seq<bool>,
    i: int,
)
    ensures
        0 <= i < scan.rects.len() && scan.rects[i].white && covers[i] && (forall|k: int|
            0 <= k < i ==> !((#[trigger] scan.rects[k]).white && covers[k])) ==> without_background(
            data,
            Some(scan),
            false,
            covers,
        ) == data.take(scan.rects[i].start as int) + data.skip(scan.rects[i].end as int),
        (forall|k: int|
            0 <= k < scan.rects.len() ==> !((#[trigger] scan.rects[k]).white && covers[k]))
            ==> without_background(data, Some(scan), false, covers) == data,
        without_background(data, Some(scan), true, covers) == data,
        without_background(data, None, false, covers) == data,
{
    if 0 <= i < scan.rects.len() && scan.rects[i].white && covers[i] && (forall|k: int|
        0 <= k < i ==> !((#[trigger] scan.rects[k]).white && covers[k])) {
        lemma_background_is(scan.rects, covers, i, 0);
    }
    if forall|k: int| 0 <= k < scan.rects.len() ==> !((#[trigger] scan.rects[k]).white && covers[k]) {
        lemma_no_background(scan.rects, covers, 0);
    }
}

/// A document whose only rectangle, where the background is looked for, has a white fill and
/// covers the page is left without that rectangle; and what tells that it covers the page are the
/// values of the attributes `x`, `y`, `width` and `height` of that rectangle and the view box of
/// the document.
pub proof fn law_white_page_is_taken_out(
    data: Seq<u8>,
    nodes: Seq<NodeModel>,
    svg: usize,
    group: usize,
    k: int,
    fill: Seq<char>,
)
    requires
        holds_background(nodes, svg, group),
        0 <= k < nodes.len(),
        nodes[k].tag == "rect"@,
        nodes[k].parent == Some(group),
        forall|j: int|
            0 <= j < nodes.len() && j != k ==> !((#[trigger] nodes[j]).tag == "rect"@
                && nodes[j].parent == Some(group)),
        nodes[k].value("fill"@) == Some(fill),
        fill == "white"@ || fill == "#ffffff"@ || fill == "#fff"@ || fill == "rgb(255,255,255)"@,
    ensures
        scan_of(nodes) matches Some(s) && {
            &&& s.view_box == nodes[svg as int].value("viewBox"@)
            &&& s.rects.len() == 1
            &&& s.rects[0].x == nodes[k].value("x"@)
            &&& s.rects[0].y == nodes[k].value("y"@)
            &&& s.rects[0].width == nodes[k].value("width"@)
            &&& s.rects[0].height == nodes[k].value("height"@)
            &&& without_background(data, Some(s), false, seq![true]) == data.take(
                nodes[k].start as int,
            ) + data.skip(nodes[k].end as int)
            &&& without_background(data, Some(s), false, seq![false]) == data
        },
{
    lemma_scan_below(nodes, svg, group);
    let s = scan_of(nodes)->0;
    let place = law_only_rects_are_read(nodes, svg, group);
    let i = lemma_rect_is_below(nodes, group, k);
    if place.len() > 1 {
        assert(place[0] < place[1]);
        assert(nodes[place[0]].tag == "rect"@ && nodes[place[1]].tag == "rect"@);
    }
    assert(place[0] == k);
    law_white_is_white(fill, fill);
    law_first_white_cover_is_taken(data, s, seq![true], 0);
    law_first_white_cover_is_taken(data, s, seq![false], 0);
}

/// A view box of four numbers or more tells the size of a page by its third and fourth number,
/// whatever its width and height say; words that are no numbers do not count.
pub proof fn law_view_box_tells_the_size(
    view_box: Seq<Option<u32>>,
    width: Option<u32>,
    height: Option<u32>,
)
    requires
        view_box.len() >= 4,
        forall|i: int| 0 <= i < view_box.len() ==> (#[trigger] view_box[i]) is Some,
    ensures
        page_size(view_box, width, height) == (view_box[2]->0, view_box[3]->0),
        page_size(seq![None] + view_box, width, height) == (view_box[2]->0, view_box[3]->0),
{
    lemma_all_numbers(view_box);
    let more = seq![None::<u32>] + view_box;
    lemma_numbers_in_parts(seq![None::<u32>], view_box);
    assert(seq![None::<u32>].drop_last() =~= Seq::empty());
    assert(numbers_of(Seq::empty()) =~= Seq::empty());
    assert(seq![None::<u32>].last() is None);
    assert(numbers_of(seq![None::<u32>]) =~= Seq::empty());
    assert(numbers_of(more) =~= numbers_of(view_box));
}

proof fn lemma_all_numbers(readings: Seq<Option<u32>>)
    requires
        forall|i: int| 0 <= i < readings.len() ==> (#[trigger] readings[i]) is Some,
    ensures
        numbers_of(readings).len() == readings.len(),
        forall|i: int| 0 <= i < readings.len() ==> numbers_of(readings)[i] == (#[trigger] readings[i])->0,
    decreases readings.len(),
{
    if readings.len() > 0 {
        let before = readings.drop_last();
        assert forall|i: int| 0 <= i < before.len() implies (#[trigger] before[i]) is Some by {
            assert(readings[i] is Some);
        }
        lemma_all_numbers(before);
        assert(readings[readings.len() - 1] is Some);
        assert forall|i: int| 0 <= i < readings.len() implies numbers_of(readings)[i]
            == (#[trigger] readings[i])->0 by {
            if i < before.len() {
                assert(before[i] == readings[i]);
            }
        }
    }
}

proof fn lemma_numbers_in_parts(a: Seq<Option<u32>>, b: Seq<Option<u32>>)
    ensures
        numbers_of(a + b) == numbers_of(a) + numbers_of(b),
    decreases b.len(),
{
    if b.len() == 0 {
        assert(a + b =~= a);
        assert(numbers_of(a) + numbers_of(b) =~= numbers_of(a));
    } else {
        assert((a + b).drop_last() =~= a + b.drop_last());
        lemma_numbers_in_parts(a, b.drop_last());
        assert(numbers_of(a + b) =~= numbers_of(a) + numbers_of(b));
    }
}

/// Without four numbers in its view box a page is as wide and as high as it says, and else as a
/// sheet of 612 by 792.
pub proof fn law_page_without_view_box(
    view_box: Seq<Option<u32>>,
    width: Option<u32>,
    height: Option<u32>,
)
    requires
        view_box.len() < 4,
    ensures
        width matches Some(w) ==> page_size(view_box, width, height).0 == w,
        height matches Some(h) ==> page_size(view_box, width, height).1 == h,
        width is None ==> page_size(view_box, width, height).0 == 0x4419_0000,
        height is None ==> page_size(view_box, width, height).1 == 0x4446_0000,
{
    lemma_numbers_len(view_box);
}

proof fn lemma_numbers_len(readings: Seq<Option<u32>>)
    ensures
        numbers_of(readings).len() <= readings.len(),
    decreases readings.len(),
{
    if readings.len() > 0 {
        lemma_numbers_len(readings.drop_last());
    }
}

proof fn lemma_word_end_shift(a: Seq<char>, b: Seq<char>, i: int)
    requires
        0 <= i <= b.len(),
    ensures
        word_end(a + b, a.len() + i) == a.len() + word_end(b, i),
    decreases b.len() - i,
{
    if i < b.len() {
        assert((a + b)[a.len() + i] == b[i]);
        if !is_edge(Edge::Blank, b[i]) {
            lemma_word_end_shift(a, b, i + 1);
        }
    }
}

proof fn lemma_words_shift(a: Seq<char>, b: Seq<char>, i: int)
    requires
        0 <= i <= b.len(),
    ensures
        words_from(a + b, a.len() + i) == words_from(b, i),
    decreases b.len() - i,
{
    if i < b.len() {
        assert((a + b)[a.len() + i] == b[i]);
        if is_edge(Edge::Blank, b[i]) {
            lemma_words_shift(a, b, i + 1);
        } else {
            lemma_word_end(b, i + 1);
            lemma_word_end_shift(a, b, i + 1);
            let j = word_end(b, i + 1);
            assert((a + b).subrange(a.len() + i, a.len() + j) =~= b.subrange(i, j));
            lemma_words_shift(a, b, j);
        }
    }
}

proof fn lemma_word_end_at(s: Seq<char>, i: int, j: int)
    requires
        0 <= i <= j <= s.len(),
        forall|k: int| i <= k < j ==> !is_edge(Edge::Blank, #[trigger] s[k]),
        j < s.len() ==> is_edge(Edge::Blank, s[j]),
    ensures
        word_end(s, i) == j,
    decreases j - i,
{
    if i < j {
        assert(!is_edge(Edge::Blank, s[i]));
        lemma_word_end_at(s, i + 1, j);
    }
}

/// The words of a text are what white space parts: white space in front does not count, and a word
/// reaches to the next white space or to the end.
pub proof fn law_white_space_parts_words(word: Seq<char>, c: char, rest: Seq<char>)
    requires
        word.len() > 0,
        forall|k: int| 0 <= k < word.len() ==> !is_edge(Edge::Blank, #[trigger] word[k]),
        is_edge(Edge::Blank, c),
    ensures
        words_from(Seq::empty(), 0).len() == 0,
        words_from(word, 0) == seq![word],
        words_from(seq![c] + rest, 0) == words_from(rest, 0),
        words_from(word + (seq![c] + rest), 0) == seq![word] + words_from(rest, 0),
{
    lemma_words_shift(seq![c], rest, 0);
    lemma_word_end_at(word, 1, word.len() as int);
    assert(!is_edge(Edge::Blank, word[0]));
    assert(word.subrange(0, word.len() as int) =~= word);
    assert(words_from(word, word.len() as int) =~= Seq::empty());
    assert(words_from(word, 0) =~= seq![word]);
    let tail = seq![c] + rest;
    let s = word + tail;
    let n = word.len() as int;
    assert(s[0] == word[0]);
    assert(s[n] == tail[0]);
    assert forall|k: int| 1 <= k < n implies !is_edge(Edge::Blank, #[trigger] s[k]) by {
        assert(s[k] == word[k]);
    }
    lemma_word_end_at(s, 1, n);
    assert(s.subrange(0, n) =~= word);
    lemma_words_shift(word, tail, 0);
    assert((seq![c] + rest)[0] == c);
}

/// `pdftocairo` is told the file, the place of the drawing, and one page, in decimal, to begin and
/// to end with.
pub proof fn law_drawer_is_told_the_page(pdf_path: Seq<u8>, page_num: nat, target: Seq<u8>)
    ensures
        ({
            let a = drawing_arguments(pdf_path, page_num, target);
            &&& a.len() == 7
            &&& a[0] == encode_utf8("-svg"@)
            &&& a[1] == encode_utf8("-f"@)
            &&& a[3] == encode_utf8("-l"@)
            &&& a[2] == a[4]
            &&& decode_utf8(a[2]) == decimal(page_num)
            &&& digits_value(decode_utf8(a[2])) == page_num
            &&& a[5] == pdf_path
            &&& a[6] == target
        }),
{
    encode_utf8_decode_utf8(decimal(page_num));
    law_decimal_value(page_num);
}

/// Coordinates have from one to four digits, as many as are asked for as far as that goes, and
/// more are never fewer.
pub proof fn law_digits_are_bounded(a: u8, b: u8)
    ensures
        1 <= digits_for(a) <= 4,
        1 <= a <= 4 ==> digits_for(a) == a,
        a == 0 ==> digits_for(a) == 1,
        a > 4 ==> digits_for(a) == 4,
        a <= b ==> digits_for(a) <= digits_for(b),
{
}

/// A drawing that is plain and that the crate usvg reads is cleaned up, with the digits that are
/// asked for; where it is refused, the error tells why.
pub proof fn law_plain_drawings_are_cleaned_up(
    r: Result<Seq<char>, ErrorModel>,
    data: Seq<u8>,
    svg_precision: u8,
)
    requires
        is_rewritten(r, data, svg_precision),
    ensures
        is_plain(data) && usvg_error(data) is None ==> (r matches Ok(t) && starts_with(t, "<svg "@)
            && usvg_writes(data, digits_for(svg_precision), t)),
        is_plain(data) && usvg_error(data) is None && 1 <= svg_precision <= 4 ==> usvg_writes(
            data,
            svg_precision,
            r->Ok_0,
        ),
        is_plain(data) ==> (usvg_error(data) matches Some(cause) ==> r == Err::<
            Seq<char>,
            ErrorModel,
        >(ErrorModel::Custom("usvg error: "@ + cause))),
        !is_plain(data) ==> r is Err,
{
}

/// Where a page could not be drawn, the error tells which: two pages of a file have two errors.
pub proof fn law_failed_page_is_named(pdf_path: Seq<u8>, a: nat, b: nat)
    ensures
        drawing_failure(pdf_path, a) == drawing_failure(pdf_path, b) ==> a == b,
        drawing_failure(pdf_path, a) matches ErrorModel::Pdf(t) && ("pdftocairo failed for '"@
            + utf8_lossy(pdf_path) + "' page "@).is_prefix_of(t) && t.skip(
            t.len() - decimal(a).len(),
        ) == decimal(a),
{
    let front = "pdftocairo failed for '"@ + utf8_lossy(pdf_path) + "' page "@;
    assert((front + decimal(a)).skip(front.len() as int) =~= decimal(a));
    if drawing_failure(pdf_path, a) == drawing_failure(pdf_path, b) {
        assert(front + decimal(a) + Seq::empty() =~= front + decimal(a));
        assert(front + decimal(b) + Seq::empty() =~= front + decimal(b));
        law_number_stands_out(front, a, b, Seq::empty());
    }
}

} // verus!
