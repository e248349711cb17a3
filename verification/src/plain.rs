//! Plain drawings: shapes, their groups, copies, gradients and clips, with numbers of an ordinary
//! size. They name no files, and nothing in them is so deep, so large or so entangled that an SVG
//! reader could stumble over it.

use crate::path::utf8_text;
use crate::svg::{split_words, words_from};
use crate::text::{chars_of, is_digit, same_text, starts_with, text_views};
use crate::xml::{
    attribute_models, node_models, roxmltree_nodes, xml_nodes, AttributeModel, NodeModel,
    XmlAttribute, XmlNode,
};
use vstd::prelude::*;
use vstd::string::*;
use vstd::utf8::*;

verus! {

/// How deep the elements of a plain drawing lie at most.
pub const MOST_DEPTH: usize = 32;

/// How many transforms lie on the way to an element of a plain drawing at most.
pub const MOST_TRANSFORMS: usize = 2;

/// How many digits a number of a plain drawing has in front of its point at most.
pub const MOST_DIGITS: usize = 5;

/// How many digits a number of a transform has in front of its point at most.
pub const MOST_TRANSFORM_DIGITS: usize = 4;

/// How many digits a number of a plain drawing has behind its point at most.
pub const MOST_DECIMALS: usize = 12;

// ---------------------------------------------------------------------------
// Numbers
// ---------------------------------------------------------------------------

/// Where a look through the numbers of a value stands.
#[derive(Debug, Clone, Copy, PartialEq, Eq, Structural)]
pub struct NumberState {
    /// The digits that the number has so far, in front of its point or behind it.
    pub run: usize,
    /// Whether the number is behind its point.
    pub decimals: bool,
    /// Whether a digit or a point came last.
    pub number: bool,
    /// Whether this is a name or a colour behind a `#`.
    pub hash: bool,
}

/// No number so far.
pub open spec fn no_number(hash: bool) -> NumberState {
    NumberState { run: 0, decimals: false, number: false, hash }
}

/// Whether `c` may stand in a name or a colour behind a `#`.
pub open spec fn is_name_char(c: char) -> bool {
    is_digit(c) || 'a' <= c <= 'z' || 'A' <= c <= 'Z' || c == '-' || c == '_'
}

/// The look after one more character; `None` where it is not ASCII, gives a number more digits
/// than it may have, or an exponent or a unit that depends on a font.
pub open spec fn after_char(st: NumberState, c: char, most: nat) -> Option<NumberState> {
    if c as u32 >= 128 {
        None
    } else if st.hash && is_name_char(c) {
        Some(no_number(true))
    } else if is_digit(c) {
        if st.run >= if st.decimals {
            MOST_DECIMALS as nat
        } else {
            most
        } {
            None
        } else {
            Some(
                NumberState {
                    run: (st.run + 1) as usize,
                    decimals: st.decimals,
                    number: true,
                    hash: false,
                },
            )
        }
    } else if c == '.' {
        Some(NumberState { run: 0, decimals: true, number: true, hash: false })
    } else if st.number && (c == 'e' || c == 'E') {
        None
    } else {
        Some(no_number(c == '#'))
    }
}

/// Whether the numbers of a value, from `i` on, are of an ordinary size: at most `most` digits
/// in front of the point, and no exponents.
pub open spec fn numbers_from(s: Seq<char>, i: int, st: NumberState, most: nat) -> bool
    decreases s.len() - i,
{
    if i < 0 || i >= s.len() {
        true
    } else {
        match after_char(st, s[i], most) {
            None => false,
            Some(next) => numbers_from(s, i + 1, next, most),
        }
    }
}

/// Whether the numbers of a value are of an ordinary size.
pub open spec fn plain_numbers(s: Seq<char>, most: nat) -> bool {
    numbers_from(s, 0, no_number(false), most)
}

fn name_char(c: char) -> (r: bool)
    ensures
        r == is_name_char(c),
{
    ('0' <= c && c <= '9') || ('a' <= c && c <= 'z') || ('A' <= c && c <= 'Z') || c == '-' || c
        == '_'
}

fn next_state(st: NumberState, c: char, most: usize) -> (r: Option<NumberState>)
    requires
        most <= MOST_DECIMALS,
        st.run <= MOST_DECIMALS,
    ensures
        r == after_char(st, c, most as nat),
        r matches Some(next) ==> next.run <= MOST_DECIMALS,
{
    if c as u32 >= 128 {
        return None;
    }
    if st.hash && name_char(c) {
        return Some(NumberState { run: 0, decimals: false, number: false, hash: true });
    }
    if '0' <= c && c <= '9' {
        let limit: usize = if st.decimals {
            MOST_DECIMALS
        } else {
            most
        };
        if st.run >= limit {
            return None;
        }
        return Some(
            NumberState { run: st.run + 1, decimals: st.decimals, number: true, hash: false },
        );
    }
    if c == '.' {
        return Some(NumberState { run: 0, decimals: true, number: true, hash: false });
    }
    if st.number && (c == 'e' || c == 'E') {
        return None;
    }
    Some(NumberState { run: 0, decimals: false, number: false, hash: c == '#' })
}

fn check_numbers(s: &str, most: usize) -> (r: bool)
    requires
        most <= MOST_DECIMALS,
    ensures
        r == plain_numbers(s@, most as nat),
{
    let chars: Vec<char> = chars_of(s);
    let mut st: NumberState = NumberState { run: 0, decimals: false, number: false, hash: false };
    let mut i: usize = 0;
    while i < chars.len()
        invariant
            chars@ == s@,
            i <= chars.len(),
            most <= MOST_DECIMALS,
            st.run <= MOST_DECIMALS,
            plain_numbers(s@, most as nat) == numbers_from(s@, i as int, st, most as nat),
        decreases chars.len() - i,
    {
        match next_state(st, chars[i], most) {
            None => {
                return false;
            },
            Some(next) => {
                st = next;
            },
        }
        i = i + 1;
    }
    true
}

// ---------------------------------------------------------------------------
// Values
// ---------------------------------------------------------------------------

/// Whether a text is ASCII.
pub open spec fn is_plain_text(s: Seq<char>) -> bool {
    forall|i: int| 0 <= i < s.len() ==> (#[trigger] s[i]) as u32 <= 127
}

/// Whether `c` may stand in the data of a path: the commands that go to points of their own,
/// and numbers.
pub open spec fn is_path_char(c: char) -> bool {
    is_digit(c) || c == 'M' || c == 'L' || c == 'H' || c == 'V' || c == 'C' || c == 'Z' || c == 'z'
        || c == ' ' || c == ',' || c == '.' || c == '-' || c == '+' || c == '\n' || c == '\r' || c
        == '\t'
}

/// Whether the data of a path is plain.
pub open spec fn plain_path(s: Seq<char>) -> bool {
    plain_numbers(s, MOST_DIGITS as nat) && forall|i: int|
        0 <= i < s.len() ==> is_path_char(#[trigger] s[i])
}

/// Whether a transform is plain: a single one, and no skew.
pub open spec fn plain_transform(s: Seq<char>) -> bool {
    &&& plain_numbers(s, MOST_TRANSFORM_DIGITS as nat)
    &&& forall|i: int| 0 <= i < s.len() ==> #[trigger] s[i] != 'k'
    &&& forall|i: int, j: int|
        0 <= i < j < s.len() ==> !(#[trigger] s[i] == '(' && #[trigger] s[j] == '(')
}

/// Whether `c` parts the words of a transform.
pub open spec fn is_gap(c: char) -> bool {
    c == ' ' || c == ',' || c == '(' || c == ')' || c == '\n' || c == '\r' || c == '\t'
}

/// The end of the word of a transform that starts at `i`.
pub open spec fn part_end(s: Seq<char>, i: int) -> int
    decreases s.len() - i,
{
    if i >= s.len() || is_gap(s[i]) {
        i
    } else {
        part_end(s, i + 1)
    }
}

/// A word of a transform ends within its text, at or behind its start.
pub proof fn lemma_part_end(s: Seq<char>, i: int)
    requires
        0 <= i <= s.len(),
    ensures
        i <= part_end(s, i) <= s.len(),
    decreases s.len() - i,
{
    if i < s.len() && !is_gap(s[i]) {
        lemma_part_end(s, i + 1);
    }
}

/// The words of a transform from `i` on: its name and its numbers.
pub open spec fn parts_from(s: Seq<char>, i: int) -> Seq<Seq<char>>
    decreases s.len() - i,
{
    if i < 0 || i >= s.len() {
        Seq::empty()
    } else if is_gap(s[i]) {
        parts_from(s, i + 1)
    } else {
        proof {
            lemma_part_end(s, i + 1);
        }
        let j = part_end(s, i + 1);
        seq![s.subrange(i, j)] + parts_from(s, j)
    }
}

/// Whether a transform neither turns nor skews.
pub open spec fn is_straight(s: Seq<char>) -> bool {
    let parts = parts_from(s, 0);
    ||| parts.len() == 7 && parts[0] == "matrix"@ && parts[2] == "0"@ && parts[3] == "0"@
    ||| parts.len() > 0 && (parts[0] == "translate"@ || parts[0] == "scale"@)
}

/// Whether a number in words is at least 1: its first digit is not 0.
pub open spec fn at_least_one(word: Seq<char>) -> bool {
    word.len() > 0 && '1' <= word[0] <= '9'
}

/// Whether a view box is plain: it starts at 0, and is at least 1 wide and high.
pub open spec fn plain_view_box(s: Seq<char>) -> bool {
    let words = words_from(s, 0);
    &&& plain_numbers(s, MOST_DIGITS as nat)
    &&& words.len() == 4
    &&& words[0] == "0"@
    &&& words[1] == "0"@
    &&& at_least_one(words[2])
    &&& at_least_one(words[3])
}

fn check_text(s: &str) -> (r: bool)
    ensures
        r == is_plain_text(s@),
{
    let chars: Vec<char> = chars_of(s);
    let mut i: usize = 0;
    while i < chars.len()
        invariant
            chars@ == s@,
            i <= chars.len(),
            forall|k: int| 0 <= k < i ==> (#[trigger] s@[k]) as u32 <= 127,
        decreases chars.len() - i,
    {
        if chars[i] as u32 > 127 {
            assert(s@[i as int] as u32 > 127);
            return false;
        }
        i = i + 1;
    }
    true
}

fn path_char(c: char) -> (r: bool)
    ensures
        r == is_path_char(c),
{
    ('0' <= c && c <= '9') || c == 'M' || c == 'L' || c == 'H' || c == 'V' || c == 'C' || c == 'Z'
        || c == 'z' || c == ' ' || c == ',' || c == '.' || c == '-' || c == '+' || c
        == '\n' || c == '\r' || c == '\t'
}

fn check_path(s: &str) -> (r: bool)
    ensures
        r == plain_path(s@),
{
    if !check_numbers(s, MOST_DIGITS) {
        return false;
    }
    let chars: Vec<char> = chars_of(s);
    let mut i: usize = 0;
    while i < chars.len()
        invariant
            chars@ == s@,
            i <= chars.len(),
            forall|k: int| 0 <= k < i ==> is_path_char(#[trigger] s@[k]),
        decreases chars.len() - i,
    {
        if !path_char(chars[i]) {
            assert(!is_path_char(s@[i as int]));
            return false;
        }
        i = i + 1;
    }
    true
}

fn check_transform(s: &str) -> (r: bool)
    ensures
        r == plain_transform(s@),
{
    if !check_numbers(s, MOST_TRANSFORM_DIGITS) {
        return false;
    }
    let chars: Vec<char> = chars_of(s);
    let ghost mut place: int = -1;
    let mut seen: bool = false;
    let mut i: usize = 0;
    while i < chars.len()
        invariant
            chars@ == s@,
            i <= chars.len(),
            forall|k: int| 0 <= k < i ==> #[trigger] s@[k] != 'k',
            seen ==> 0 <= place < i && s@[place] == '(',
            forall|k: int| 0 <= k < i && #[trigger] s@[k] == '(' ==> seen && k == place,
        decreases chars.len() - i,
    {
        let c: char = chars[i];
        assert(s@[i as int] == c);
        if c == 'k' || (c == '(' && seen) {
            return false;
        }
        if c == '(' {
            seen = true;
            proof {
                place = i as int;
            }
        }
        i = i + 1;
    }
    true
}

fn gap(c: char) -> (r: bool)
    ensures
        r == is_gap(c),
{
    c == ' ' || c == ',' || c == '(' || c == ')' || c == '\n' || c == '\r' || c == '\t'
}

fn split_parts(s: &str) -> (r: Vec<String>)
    ensures
        text_views(r@) == parts_from(s@, 0),
{
    let chars: Vec<char> = chars_of(s);
    let mut out: Vec<String> = Vec::new();
    let mut i: usize = 0;
    assert(text_views(out@) + parts_from(s@, 0) =~= parts_from(s@, 0));
    while i < chars.len()
        invariant
            chars@ == s@,
            i <= chars.len(),
            text_views(out@) + parts_from(s@, i as int) == parts_from(s@, 0),
        decreases chars.len() - i,
    {
        if gap(chars[i]) {
            i = i + 1;
            continue;
        }
        let mut j: usize = i + 1;
        while j < chars.len() && !gap(chars[j])
            invariant
                chars@ == s@,
                i < j <= chars.len(),
                part_end(s@, i + 1) == part_end(s@, j as int),
            decreases chars.len() - j,
        {
            j = j + 1;
        }
        let ghost before = text_views(out@);
        let part: String = s.substring_char(i, j).to_owned();
        out.push(part);
        assert(text_views(out@) =~= before.push(s@.subrange(i as int, j as int)));
        assert(text_views(out@) + parts_from(s@, j as int) =~= before + (seq![
            s@.subrange(i as int, j as int),
        ] + parts_from(s@, j as int)));
        i = j;
    }
    assert(text_views(out@) + parts_from(s@, i as int) =~= text_views(out@));
    out
}

fn check_straight(s: &str) -> (r: bool)
    ensures
        r == is_straight(s@),
{
    let parts: Vec<String> = split_parts(s);
    assert(text_views(parts@).len() == parts.len());
    assert(forall|k: int|
        0 <= k < parts.len() ==> #[trigger] text_views(parts@)[k] == parts@[k]@);
    if parts.len() == 0 {
        return false;
    }
    if same_text(parts[0].as_str(), "translate") || same_text(parts[0].as_str(), "scale") {
        return true;
    }
    parts.len() == 7 && same_text(parts[0].as_str(), "matrix") && same_text(
        parts[2].as_str(),
        "0",
    ) && same_text(parts[3].as_str(), "0")
}

fn starts_above_zero(word: &String) -> (r: bool)
    ensures
        r == at_least_one(word@),
{
    let chars: Vec<char> = chars_of(word.as_str());
    chars.len() > 0 && '1' <= chars[0] && chars[0] <= '9'
}

fn check_view_box(s: &str) -> (r: bool)
    ensures
        r == plain_view_box(s@),
{
    if !check_numbers(s, MOST_DIGITS) {
        return false;
    }
    let words: Vec<String> = split_words(s);
    assert(text_views(words@).len() == words.len());
    if words.len() != 4 {
        return false;
    }
    assert(text_views(words@)[0] == words@[0]@);
    assert(text_views(words@)[1] == words@[1]@);
    assert(text_views(words@)[2] == words@[2]@);
    assert(text_views(words@)[3] == words@[3]@);
    same_text(words[0].as_str(), "0") && same_text(words[1].as_str(), "0") && starts_above_zero(
        &words[2],
    ) && starts_above_zero(&words[3])
}

// ---------------------------------------------------------------------------
// Elements
// ---------------------------------------------------------------------------

/// Whether an element of this name may stand in a plain drawing.
pub open spec fn is_plain_tag(tag: Seq<char>) -> bool {
    ||| tag == "svg"@
    ||| tag == "g"@
    ||| tag == "defs"@
    ||| tag == "symbol"@
    ||| tag == "use"@
    ||| tag == "path"@
    ||| tag == "rect"@
    ||| tag == "circle"@
    ||| tag == "ellipse"@
    ||| tag == "line"@
    ||| tag == "polyline"@
    ||| tag == "polygon"@
    ||| tag == "clipPath"@
    ||| tag == "linearGradient"@
    ||| tag == "radialGradient"@
    ||| tag == "stop"@
    ||| tag == "title"@
    ||| tag == "desc"@
}

fn check_tag(tag: &str) -> (r: bool)
    ensures
        r == is_plain_tag(tag@),
{
    same_text(tag, "path") || same_text(tag, "use") || same_text(tag, "g") || same_text(tag, "svg")
        || same_text(tag, "defs") || same_text(tag, "symbol") || same_text(tag, "rect")
        || same_text(tag, "circle") || same_text(tag, "ellipse") || same_text(tag, "line")
        || same_text(tag, "polyline") || same_text(tag, "polygon") || same_text(tag, "clipPath")
        || same_text(tag, "linearGradient") || same_text(tag, "radialGradient") || same_text(
        tag,
        "stop",
    ) || same_text(tag, "title") || same_text(tag, "desc")
}

/// Whether an attribute of this name measures an element.
pub open spec fn is_measure(name: Seq<char>) -> bool {
    ||| name == "x"@
    ||| name == "y"@
    ||| name == "width"@
    ||| name == "height"@
    ||| name == "x1"@
    ||| name == "y1"@
    ||| name == "x2"@
    ||| name == "y2"@
    ||| name == "cx"@
    ||| name == "cy"@
    ||| name == "r"@
    ||| name == "rx"@
    ||| name == "ry"@
    ||| name == "fx"@
    ||| name == "fy"@
    ||| name == "fr"@
    ||| name == "offset"@
    ||| name == "points"@
}

fn check_measure(name: &str) -> (r: bool)
    ensures
        r == is_measure(name@),
{
    same_text(name, "x") || same_text(name, "y") || same_text(name, "width") || same_text(
        name,
        "height",
    ) || same_text(name, "x1") || same_text(name, "y1") || same_text(name, "x2") || same_text(
        name,
        "y2",
    ) || same_text(name, "cx") || same_text(name, "cy") || same_text(name, "r") || same_text(
        name,
        "rx",
    ) || same_text(name, "ry") || same_text(name, "fx") || same_text(name, "fy") || same_text(
        name,
        "fr",
    ) || same_text(name, "offset") || same_text(name, "points")
}

/// Whether an attribute of this name tells how an element looks.
pub open spec fn is_look(name: Seq<char>) -> bool {
    ||| name == "fill"@
    ||| name == "fill-rule"@
    ||| name == "fill-opacity"@
    ||| name == "stroke"@
    ||| name == "stroke-width"@
    ||| name == "stroke-opacity"@
    ||| name == "stroke-linecap"@
    ||| name == "stroke-linejoin"@
    ||| name == "stroke-miterlimit"@
    ||| name == "clip-path"@
    ||| name == "clip-rule"@
    ||| name == "clipPathUnits"@
    ||| name == "opacity"@
    ||| name == "gradientUnits"@
    ||| name == "spreadMethod"@
    ||| name == "stop-color"@
    ||| name == "stop-opacity"@
    ||| name == "color"@
    ||| name == "display"@
    ||| name == "visibility"@
    ||| name == "overflow"@
    ||| name == "preserveAspectRatio"@
    ||| name == "version"@
    ||| name == "space"@
}

fn check_look(name: &str) -> (r: bool)
    ensures
        r == is_look(name@),
{
    same_text(name, "fill") || same_text(name, "fill-rule") || same_text(name, "fill-opacity")
        || same_text(name, "stroke") || same_text(name, "stroke-width") || same_text(
        name,
        "stroke-opacity",
    ) || same_text(name, "stroke-linecap") || same_text(name, "stroke-linejoin") || same_text(
        name,
        "stroke-miterlimit",
    ) || same_text(name, "clip-path") || same_text(name, "clip-rule") || same_text(
        name,
        "clipPathUnits",
    ) || same_text(name, "opacity") || same_text(name, "gradientUnits") || same_text(
        name,
        "spreadMethod",
    ) || same_text(name, "stop-color") || same_text(name, "stop-opacity") || same_text(
        name,
        "color",
    ) || same_text(name, "display") || same_text(name, "visibility") || same_text(
        name,
        "overflow",
    ) || same_text(name, "preserveAspectRatio") || same_text(name, "version") || same_text(
        name,
        "space",
    )
}

/// Whether an attribute may stand at an element of a plain drawing.
pub open spec fn plain_attribute(tag: Seq<char>, a: AttributeModel) -> bool {
    if a.name == "id"@ || a.name == "class"@ {
        is_plain_text(a.value)
    } else if a.name == "href"@ {
        tag == "use"@ && is_plain_text(a.value) && starts_with(a.value, "#"@)
    } else if a.name == "d"@ {
        plain_path(a.value)
    } else if a.name == "transform"@ || a.name == "gradientTransform"@ {
        plain_transform(a.value)
    } else if a.name == "viewBox"@ {
        tag == "svg"@ && plain_view_box(a.value)
    } else {
        (is_measure(a.name) || is_look(a.name)) && plain_numbers(a.value, MOST_DIGITS as nat)
    }
}

fn starts_with_hash(s: &str) -> (r: bool)
    ensures
        r == starts_with(s@, "#"@),
{
    proof {
        reveal_strlit("#");
    }
    let chars: Vec<char> = chars_of(s);
    if chars.len() == 0 {
        return false;
    }
    assert(s@.take(1) =~= seq![s@[0]]);
    assert("#"@ =~= seq!['#']);
    assert(seq![s@[0]][0] == s@[0]);
    chars[0] == '#'
}

fn check_attribute(tag: &str, a: &XmlAttribute) -> (r: bool)
    ensures
        r == plain_attribute(tag@, a@),
{
    let name: &str = a.name.as_str();
    let value: &str = a.value.as_str();
    if same_text(name, "id") || same_text(name, "class") {
        check_text(value)
    } else if same_text(name, "href") {
        same_text(tag, "use") && check_text(value) && starts_with_hash(value)
    } else if same_text(name, "d") {
        check_path(value)
    } else if same_text(name, "transform") || same_text(name, "gradientTransform") {
        check_transform(value)
    } else if same_text(name, "viewBox") {
        same_text(tag, "svg") && check_view_box(value)
    } else {
        (check_measure(name) || check_look(name)) && check_numbers(value, MOST_DIGITS)
    }
}

// ---------------------------------------------------------------------------
// Places
// ---------------------------------------------------------------------------

/// What lies on the way from the document to a node, the node itself with it.
#[derive(Debug, Clone, Copy)]
pub struct Place {
    /// The nodes around it.
    pub depth: usize,
    /// The nodes with a transform.
    pub transforms: usize,
    /// Whether one is a clip.
    pub in_clip: bool,
    /// Whether one has an identifier.
    pub named: bool,
}

/// What lies on the way from the document to a node, the node itself with it.
pub ghost struct PlaceModel {
    pub depth: nat,
    pub transforms: nat,
    pub in_clip: bool,
    pub named: bool,
}

impl View for Place {
    type V = PlaceModel;

    open spec fn view(&self) -> PlaceModel {
        PlaceModel {
            depth: self.depth as nat,
            transforms: self.transforms as nat,
            in_clip: self.in_clip,
            named: self.named,
        }
    }
}

/// What a node adds to what lies on the way to it.
pub open spec fn place_below(above: PlaceModel, n: NodeModel) -> PlaceModel {
    PlaceModel {
        depth: above.depth + 1,
        transforms: above.transforms + if n.value("transform"@) is Some {
            1nat
        } else {
            0nat
        },
        in_clip: above.in_clip || n.tag == "clipPath"@,
        named: above.named || n.value("id"@) is Some,
    }
}

/// What lies on the way to node `i`.
pub open spec fn place_of(nodes: Seq<NodeModel>, i: int) -> PlaceModel
    decreases i,
{
    let outside = PlaceModel { depth: 0, transforms: 0, in_clip: false, named: false };
    if i < 0 {
        outside
    } else {
        match nodes[i].parent {
            Some(p) if p < i => place_below(place_of(nodes, p as int), nodes[i]),
            _ => place_below(outside, nodes[i]),
        }
    }
}

/// Whether an element may stand in a plain drawing, at its place.
pub open spec fn plain_element(n: NodeModel, place: PlaceModel) -> bool {
    &&& is_plain_tag(n.tag)
    &&& n.tag == "svg"@ ==> n.parent == Some(0usize)
    &&& forall|k: int|
        0 <= k < n.attributes.len() ==> plain_attribute(n.tag, #[trigger] n.attributes[k])
    &&& place.in_clip ==> n.tag != "use"@ && n.value("clip-path"@) is None
    &&& n.tag == "use"@ ==> !place.named
}

/// Whether node `i` may stand in a plain drawing.
pub open spec fn plain_node(nodes: Seq<NodeModel>, i: int) -> bool {
    let place = place_of(nodes, i);
    &&& nodes[i].parent matches Some(p) ==> p < i
    &&& place.depth <= MOST_DEPTH
    &&& place.transforms <= MOST_TRANSFORMS
    &&& nodes[i].tag.len() == 0 || plain_element(nodes[i], place)
}

/// Whether an attribute asks for a stroke.
pub open spec fn is_stroke(a: AttributeModel) -> bool {
    a.name == "stroke"@ && a.value != "none"@
}

/// Whether an attribute turns or skews.
pub open spec fn is_crooked(a: AttributeModel) -> bool {
    a.name == "transform"@ && !is_straight(a.value)
}

/// Whether some node has an attribute that asks for a stroke.
pub open spec fn has_strokes(nodes: Seq<NodeModel>) -> bool {
    exists|i: int, k: int|
        0 <= i < nodes.len() && 0 <= k < nodes[i].attributes.len() && is_stroke(
            #[trigger] nodes[i].attributes[k],
        )
}

/// Whether some node has an attribute that turns or skews.
pub open spec fn has_turns(nodes: Seq<NodeModel>) -> bool {
    exists|i: int, k: int|
        0 <= i < nodes.len() && 0 <= k < nodes[i].attributes.len() && is_crooked(
            #[trigger] nodes[i].attributes[k],
        )
}

/// Whether the nodes of a document make a plain drawing: shapes, their groups, copies, gradients
/// and clips, without files, dashes, filters, masks, patterns, markers, styles and text, where no
/// copy holds another copy, no clip holds another clip, and nothing is turned where something has
/// a stroke.
pub open spec fn plain_nodes(nodes: Seq<NodeModel>) -> bool {
    &&& forall|i: int| 0 <= i < nodes.len() ==> #[trigger] plain_node(nodes, i)
    &&& !(has_strokes(nodes) && has_turns(nodes))
}

fn place_at(above: &Place, n: &XmlNode) -> (r: Place)
    requires
        above.depth <= MOST_DEPTH,
        above.transforms <= MOST_TRANSFORMS,
    ensures
        r@ == place_below(above@, n@),
{
    Place {
        depth: above.depth + 1,
        transforms: if n.value("transform").is_some() {
            above.transforms + 1
        } else {
            above.transforms
        },
        in_clip: above.in_clip || same_text(n.tag.as_str(), "clipPath"),
        named: above.named || n.value("id").is_some(),
    }
}

fn check_element(n: &XmlNode, place: &Place) -> (r: bool)
    ensures
        r == plain_element(n@, place@),
{
    let tag: &str = n.tag.as_str();
    if !check_tag(tag) {
        return false;
    }
    if same_text(tag, "svg") {
        match n.parent {
            Some(0) => {},
            _ => {
                return false;
            },
        }
    }
    let copy: bool = same_text(tag, "use");
    if (place.in_clip && (copy || n.value("clip-path").is_some())) || (copy && place.named) {
        return false;
    }
    let ghost models = attribute_models(n.attributes@);
    let mut k: usize = 0;
    while k < n.attributes.len()
        invariant
            k <= n.attributes.len(),
            models == attribute_models(n.attributes@),
            tag@ == n.tag@,
            forall|j: int| 0 <= j < k ==> plain_attribute(tag@, #[trigger] models[j]),
        decreases n.attributes.len() - k,
    {
        assert(models[k as int] == n.attributes@[k as int]@);
        if !check_attribute(tag, &n.attributes[k]) {
            assert(!plain_attribute(n@.tag, n@.attributes[k as int]));
            return false;
        }
        k = k + 1;
    }
    true
}

fn any_stroke(nodes: &Vec<XmlNode>) -> (r: bool)
    ensures
        r == has_strokes(node_models(nodes@)),
{
    let ghost models = node_models(nodes@);
    let mut i: usize = 0;
    while i < nodes.len()
        invariant
            i <= nodes.len(),
            models == node_models(nodes@),
            forall|j: int, k: int|
                0 <= j < i && 0 <= k < models[j].attributes.len() ==> !is_stroke(
                    #[trigger] models[j].attributes[k],
                ),
        decreases nodes.len() - i,
    {
        let n: &XmlNode = &nodes[i];
        assert(models[i as int] == n@);
        let mut k: usize = 0;
        while k < n.attributes.len()
            invariant
                i < nodes.len(),
                k <= n.attributes.len(),
                models == node_models(nodes@),
                models[i as int] == n@,
                forall|h: int|
                    0 <= h < k ==> !is_stroke(#[trigger] models[i as int].attributes[h]),
            decreases n.attributes.len() - k,
        {
            let a: &XmlAttribute = &n.attributes[k];
            assert(models[i as int].attributes[k as int] == a@);
            if same_text(a.name.as_str(), "stroke") && !same_text(a.value.as_str(), "none") {
                return true;
            }
            k = k + 1;
        }
        i = i + 1;
    }
    false
}

fn any_turn(nodes: &Vec<XmlNode>) -> (r: bool)
    ensures
        r == has_turns(node_models(nodes@)),
{
    let ghost models = node_models(nodes@);
    let mut i: usize = 0;
    while i < nodes.len()
        invariant
            i <= nodes.len(),
            models == node_models(nodes@),
            forall|j: int, k: int|
                0 <= j < i && 0 <= k < models[j].attributes.len() ==> !is_crooked(
                    #[trigger] models[j].attributes[k],
                ),
        decreases nodes.len() - i,
    {
        let n: &XmlNode = &nodes[i];
        assert(models[i as int] == n@);
        let mut k: usize = 0;
        while k < n.attributes.len()
            invariant
                i < nodes.len(),
                k <= n.attributes.len(),
                models == node_models(nodes@),
                models[i as int] == n@,
                forall|h: int|
                    0 <= h < k ==> !is_crooked(#[trigger] models[i as int].attributes[h]),
            decreases n.attributes.len() - k,
        {
            let a: &XmlAttribute = &n.attributes[k];
            assert(models[i as int].attributes[k as int] == a@);
            if same_text(a.name.as_str(), "transform") && !check_straight(a.value.as_str()) {
                return true;
            }
            k = k + 1;
        }
        i = i + 1;
    }
    false
}

/// Checks whether the nodes of a document make a plain drawing.
pub fn check_nodes(nodes: &Vec<XmlNode>) -> (r: bool)
    ensures
        r == plain_nodes(node_models(nodes@)),
{
    if any_stroke(nodes) && any_turn(nodes) {
        return false;
    }
    let ghost models = node_models(nodes@);
    let mut places: Vec<Place> = Vec::new();
    let mut i: usize = 0;
    while i < nodes.len()
        invariant
            i <= nodes.len(),
            models == node_models(nodes@),
            places.len() == i,
            forall|k: int| 0 <= k < i ==> (#[trigger] places@[k])@ == place_of(models, k),
            forall|k: int| 0 <= k < i ==> #[trigger] plain_node(models, k),
        decreases nodes.len() - i,
    {
        let n: &XmlNode = &nodes[i];
        assert(models[i as int] == n@);
        let above: Place = match n.parent {
            Some(p) => {
                if p >= i {
                    assert(!plain_node(models, i as int));
                    return false;
                }
                assert(plain_node(models, p as int));
                places[p]
            },
            None => Place { depth: 0, transforms: 0, in_clip: false, named: false },
        };
        let place: Place = place_at(&above, n);
        assert(place@ == place_of(models, i as int));
        if place.depth > MOST_DEPTH || place.transforms > MOST_TRANSFORMS {
            assert(!plain_node(models, i as int));
            return false;
        }
        if n.tag.as_str().unicode_len() > 0 && !check_element(n, &place) {
            assert(!plain_node(models, i as int));
            return false;
        }
        places.push(place);
        assert(plain_node(models, i as int));
        i = i + 1;
    }
    true
}

// ---------------------------------------------------------------------------
// Documents
// ---------------------------------------------------------------------------

/// Whether bytes are compressed.
pub open spec fn is_compressed(data: Seq<u8>) -> bool {
    data.len() >= 2 && data[0] == 0x1f && data[1] == 0x8b
}

/// Whether a document may declare entities.
pub open spec fn has_declarations(data: Seq<u8>) -> bool {
    exists|i: int|
        0 <= i < data.len() - 2 && #[trigger] data[i] == 60 && data[i + 1] == 33 && data[i + 2]
            == 68
}

/// Whether the bytes of a document make a plain drawing, or no document at all.
pub open spec fn is_plain(data: Seq<u8>) -> bool {
    &&& !is_compressed(data)
    &&& valid_utf8(data) ==> match roxmltree_nodes(decode_utf8(data)) {
        Some(nodes) => plain_nodes(nodes),
        None => !has_declarations(data),
    }
}

fn check_declarations(data: &[u8]) -> (r: bool)
    ensures
        r == has_declarations(data@),
{
    let mut i: usize = 0;
    while i < data.len()
        invariant
            i <= data.len(),
            forall|k: int|
                0 <= k < i && k < data.len() - 2 ==> !(#[trigger] data@[k] == 60 && data@[k + 1]
                    == 33 && data@[k + 2] == 68),
        decreases data.len() - i,
    {
        if data.len() - i > 2 && data[i] == 60 && data[i + 1] == 33 && data[i + 2] == 68 {
            assert(data@[i as int] == 60);
            return true;
        }
        i = i + 1;
    }
    false
}

/// Checks whether the bytes of a document make a plain drawing, or no document at all.
pub fn check_plain(data: &[u8]) -> (r: bool)
    ensures
        r == is_plain(data@),
{
    if data.len() >= 2 && data[0] == 0x1f && data[1] == 0x8b {
        return false;
    }
    let text: &str = match utf8_text(data) {
        Ok(t) => t,
        Err(_) => {
            return true;
        },
    };
    proof {
        encode_utf8_decode_utf8(text@);
    }
    match xml_nodes(text) {
        Some(nodes) => check_nodes(&nodes),
        None => !check_declarations(data),
    }
}

// ---------------------------------------------------------------------------
// What holds of them
// ---------------------------------------------------------------------------

/// Whether something other than a digit stands from `from` to `to`.
pub open spec fn digits_end(s: Seq<char>, from: int, to: int) -> bool {
    exists|j: int| from <= j <= to && !is_digit(#[trigger] s[j])
}

proof fn lemma_ordinary_from(s: Seq<char>, i: int, st: NumberState, most: nat)
    requires
        0 <= i <= s.len(),
        most <= MOST_DECIMALS,
        st.run <= i,
        st.run <= most,
        forall|j: int| i - st.run <= j < i ==> is_digit(#[trigger] s[j]),
        forall|j: int|
            0 <= j < s.len() ==> (#[trigger] s[j]) as u32 <= 127 && s[j] != 'e' && s[j] != 'E',
        forall|p: int| 0 <= p && p + most < s.len() ==> #[trigger] digits_end(s, p, p + most),
    ensures
        numbers_from(s, i, st, most),
    decreases s.len() - i,
{
    if i < s.len() {
        if is_digit(s[i]) && st.run == most {
            let p: int = i - most;
            assert(digits_end(s, p, p + most));
            let j = choose|j: int| p <= j <= p + most && !is_digit(#[trigger] s[j]);
            assert(false);
        }
        lemma_ordinary_from(s, i + 1, after_char(st, s[i], most)->0, most);
    }
}

/// Numbers of an ordinary size are plain: a value that is ASCII, has no exponents and nowhere
/// more than `most` digits one behind the other has plain numbers.
pub proof fn law_ordinary_numbers_are_plain(s: Seq<char>, most: nat)
    requires
        most <= MOST_DECIMALS,
        forall|j: int|
            0 <= j < s.len() ==> (#[trigger] s[j]) as u32 <= 127 && s[j] != 'e' && s[j] != 'E',
        forall|p: int| 0 <= p && p + most < s.len() ==> #[trigger] digits_end(s, p, p + most),
    ensures
        plain_numbers(s, most),
{
    lemma_ordinary_from(s, 0, no_number(false), most);
}

proof fn lemma_run_is_counted(s: Seq<char>, p: int, k: nat, most: nat)
    requires
        0 <= p,
        p + most < s.len(),
        k <= most <= MOST_DECIMALS,
        forall|j: int| p <= j <= p + most ==> is_digit(#[trigger] s[j]),
    ensures
        !numbers_from(
            s,
            p + k,
            (NumberState { run: k as usize, decimals: false, number: k > 0, hash: false }),
            most,
        ),
    decreases most - k,
{
    assert(is_digit(s[p + k]));
    if k < most {
        lemma_run_is_counted(s, p, k + 1, most);
    }
}

proof fn lemma_reaches(s: Seq<char>, i: int, p: int, st: NumberState, most: nat)
    requires
        0 <= i < p <= s.len(),
        s[p - 1] == ' ',
        numbers_from(s, i, st, most),
    ensures
        numbers_from(s, p, no_number(false), most),
    decreases p - i,
{
    let next = after_char(st, s[i], most)->0;
    if i + 1 < p {
        lemma_reaches(s, i + 1, p, next, most);
    }
}

/// A number with too many digits in front of its point is not plain, at the start of a value or
/// behind a space.
pub proof fn law_long_numbers_are_not_plain(s: Seq<char>, p: int, most: nat)
    requires
        most <= MOST_DECIMALS,
        0 <= p,
        p + most < s.len(),
        p == 0 || s[p - 1] == ' ',
        forall|j: int| p <= j <= p + most ==> is_digit(#[trigger] s[j]),
    ensures
        !plain_numbers(s, most),
{
    lemma_run_is_counted(s, p, 0, most);
    if p > 0 && plain_numbers(s, most) {
        lemma_reaches(s, 0, p, no_number(false), most);
    }
}

/// A plain drawing names no files: its copies are of things in it, and it has no images, styles,
/// filters, masks, patterns, markers or texts.
pub proof fn law_plain_drawings_name_no_files(nodes: Seq<NodeModel>, i: int, k: int)
    requires
        plain_nodes(nodes),
        0 <= i < nodes.len(),
        nodes[i].tag.len() > 0,
    ensures
        0 <= k < nodes[i].attributes.len() && nodes[i].attributes[k].name == "href"@ ==> {
            &&& nodes[i].tag == "use"@
            &&& nodes[i].attributes[k].value.len() > 0
            &&& nodes[i].attributes[k].value[0] == '#'
        },
        nodes[i].tag != "image"@,
        nodes[i].tag != "style"@,
        nodes[i].tag != "filter"@,
        nodes[i].tag != "mask"@,
        nodes[i].tag != "pattern"@,
        nodes[i].tag != "marker"@,
        nodes[i].tag != "text"@,
        nodes[i].tag != "switch"@,
        nodes[i].tag != "a"@,
        nodes[i].tag != "script"@,
{
    assert(plain_node(nodes, i));
    reveal_strlit("svg");
    reveal_strlit("g");
    reveal_strlit("defs");
    reveal_strlit("symbol");
    reveal_strlit("use");
    reveal_strlit("path");
    reveal_strlit("rect");
    reveal_strlit("circle");
    reveal_strlit("ellipse");
    reveal_strlit("line");
    reveal_strlit("polyline");
    reveal_strlit("polygon");
    reveal_strlit("clipPath");
    reveal_strlit("linearGradient");
    reveal_strlit("radialGradient");
    reveal_strlit("stop");
    reveal_strlit("title");
    reveal_strlit("desc");
    reveal_strlit("image");
    reveal_strlit("style");
    reveal_strlit("filter");
    reveal_strlit("mask");
    reveal_strlit("pattern");
    reveal_strlit("marker");
    reveal_strlit("text");
    reveal_strlit("switch");
    reveal_strlit("a");
    reveal_strlit("script");
    reveal_strlit("id");
    reveal_strlit("class");
    reveal_strlit("href");
    reveal_strlit("#");
    if 0 <= k < nodes[i].attributes.len() && nodes[i].attributes[k].name == "href"@ {
        let a = nodes[i].attributes[k];
        assert(plain_attribute(nodes[i].tag, a));
        assert("href"@.len() == 4 && "id"@.len() == 2 && "class"@.len() == 5);
        assert(a.value[0] == "#"@[0]);
    }
    assert("svg"@.len() == 3);
    assert("g"@.len() == 1);
    assert("defs"@.len() == 4);
    assert("symbol"@.len() == 6);
    assert("use"@.len() == 3);
    assert("path"@.len() == 4);
    assert("rect"@.len() == 4);
    assert("circle"@.len() == 6);
    assert("ellipse"@.len() == 7);
    assert("line"@.len() == 4);
    assert("polyline"@.len() == 8);
    assert("polygon"@.len() == 7);
    assert("clipPath"@.len() == 8);
    assert("linearGradient"@.len() == 14);
    assert("radialGradient"@.len() == 14);
    assert("stop"@.len() == 4);
    assert("title"@.len() == 5);
    assert("desc"@.len() == 4);
    assert("image"@.len() == 5);
    assert("style"@.len() == 5);
    assert("filter"@.len() == 6);
    assert("mask"@.len() == 4);
    assert("pattern"@.len() == 7);
    assert("marker"@.len() == 6);
    assert("text"@.len() == 4);
    assert("switch"@.len() == 6);
    assert("a"@.len() == 1);
    assert("script"@.len() == 6);
    assert("title"@[0] == 't' && "style"@[0] == 's' && "image"@[0] == 'i');
    assert("circle"@[0] == 'c' && "symbol"@[0] == 's');
    assert("filter"@[0] == 'f' && "marker"@[0] == 'm' && "switch"@[1] == 'w' && "script"@[0] == 's');
    assert("symbol"@[1] == 'y' && "script"@[1] == 'c');
    assert("ellipse"@[0] == 'e' && "polygon"@[3] == 'y' && "pattern"@[3] == 't');
    assert("defs"@[0] == 'd' && "path"@[0] == 'p' && "rect"@[0] == 'r' && "line"@[0] == 'l');
    assert("stop"@[0] == 's' && "desc"@[0] == 'd' && "mask"@[0] == 'm' && "text"@[0] == 't');
    assert("g"@[0] == 'g' && "a"@[0] == 'a');
}

} // verus!
