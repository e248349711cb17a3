//! Pages of a PDF: which images a renderer left behind, and how many pages there are.

use crate::error::AppError;
use crate::mirror::{
    bytes_before, law_bytes_total, law_bytes_transitive, law_first_difference_decides,
};
use crate::path::{
    component_texts, extension, extension_of, file_stem, file_stem_of, is_plain_name, join,
    join_paths, law_extension_is_at_the_end, law_extension_is_behind_the_last_dot, law_join_texts,
    law_plain_name, lossy_text, same_bytes, utf8_lossy, DOT, SLASH,
};
use crate::text::{
    all_digits, decimal, digits_value, find_after_prefix, first_after_prefix, is_digit, is_edge,
    law_decimal_value, law_decimal_width, law_digits_ordered, law_first_line_is_found,
    law_no_line_is_found, law_padded_value, law_parse_decimal, law_trim_gives_what_is_between,
    law_white_space, parse_u32, push_decimal, stands_at, starts_line, trim, trimmed, u32_of_text,
    zero_padded, Edge,
};
use vstd::multiset::*;
use vstd::prelude::*;
use vstd::relations::*;
use vstd::seq_lib::*;
use vstd::slice::*;
use vstd::string::*;
use vstd::utf8::*;

verus! {

/// A page of a PDF, as an image.
#[derive(Debug)]
pub struct PageData {
    /// The number of the page, from 1 on.
    pub page_num: u32,
    /// Four bytes for each pixel: red, green, blue and opacity.
    pub rgba_data: Vec<u8>,
    pub width: u32,
    pub height: u32,
}

impl Clone for PageData {
    fn clone(&self) -> (r: PageData)
        ensures
            r.page_num == self.page_num,
            r.rgba_data@ == self.rgba_data@,
            r.width == self.width,
            r.height == self.height,
    {
        PageData {
            page_num: self.page_num,
            rgba_data: slice_to_vec(self.rgba_data.as_slice()),
            width: self.width,
            height: self.height,
        }
    }
}

/// An image, before it is known which page it shows.
#[derive(Debug)]
pub struct Bitmap {
    /// Four bytes for each pixel: red, green, blue and opacity.
    pub rgba_data: Vec<u8>,
    pub width: u32,
    pub height: u32,
}

/// The renderer `pdftoppm`.
#[derive(Debug, Clone, Copy)]
pub struct PopplerRenderer;

impl PopplerRenderer {
    /// The arguments that make `pdftoppm` write the pages of a file as PNG images, in a folder
    /// of their own, under names that begin with `page`.
    pub open spec fn arguments_for(pdf_path: Seq<u8>, dpi: nat, folder: Seq<u8>) -> Seq<Seq<u8>> {
        seq![
            encode_utf8("-png"@),
            encode_utf8("-r"@),
            encode_utf8(decimal(dpi)),
            pdf_path,
            join(folder, encode_utf8("page"@)),
        ]
    }

    /// Gives the arguments for `pdftoppm`.
    pub fn arguments(&self, pdf_path: &[u8], dpi: u32, folder: &[u8]) -> (r: Vec<Vec<u8>>)
        ensures
            names_of(r@) == PopplerRenderer::arguments_for(pdf_path@, dpi as nat, folder@),
    {
        let mut resolution: String = String::new();
        push_decimal(&mut resolution, dpi as u64);
        assert(resolution@ =~= decimal(dpi as nat));
        let mut out: Vec<Vec<u8>> = Vec::new();
        out.push(slice_to_vec("-png".as_bytes()));
        out.push(slice_to_vec("-r".as_bytes()));
        out.push(slice_to_vec(resolution.as_str().as_bytes()));
        out.push(slice_to_vec(pdf_path));
        out.push(join_paths(folder, "page".as_bytes()));
        assert(names_of(out@) =~= PopplerRenderer::arguments_for(pdf_path@, dpi as nat, folder@));
        out
    }
}

/// The page with the given image.
pub open spec fn page_of(image: Bitmap, page_num: u32) -> PageData {
    PageData {
        page_num,
        rgba_data: image.rgba_data,
        width: image.width,
        height: image.height,
    }
}

/// Numbers the images of a document: the first shows page 1.
pub fn number_pages(images: Vec<Bitmap>) -> (pages: Vec<PageData>)
    ensures
        pages.len() == images.len(),
        forall|i: int|
            0 <= i < images.len() ==> #[trigger] pages@[i] == page_of(images@[i], (i + 1) as u32),
        forall|i: int|
            0 <= i < images.len() ==> {
                let page = #[trigger] pages@[i];
                &&& page.page_num == (i + 1) as u32
                &&& page.rgba_data == images@[i].rgba_data
                &&& page.width == images@[i].width
                &&& page.height == images@[i].height
            },
{
    let mut pages: Vec<PageData> = Vec::new();
    let ghost all = images@;
    let total: usize = images.len();
    for image in it: images.into_iter()
        invariant
            it.seq() == all,
            total == all.len(),
            pages.len() == it.index(),
            forall|i: int|
                0 <= i < it.index() ==> #[trigger] pages@[i] == page_of(all[i], (i + 1) as u32),
    {
        let n: usize = pages.len();
        let page_num: u32 = #[verifier::truncate]
        ((n + 1) as u32);
        pages.push(
            PageData {
                page_num,
                rgba_data: image.rgba_data,
                width: image.width,
                height: image.height,
            },
        );
    }
    pages
}

// ---------------------------------------------------------------------------
// The images that `pdftoppm` leaves behind
// ---------------------------------------------------------------------------

/// Whether a file is the image of a page: `page` followed by anything, ending in `.png`.
pub open spec fn is_page_image(name: Seq<u8>) -> bool {
    &&& extension(name) == Some(encode_utf8("png"@))
    &&& file_stem(name) matches Some(stem) && bytes_start_with(stem, encode_utf8("page"@))
}

/// Whether `s` starts with `prefix`.
pub open spec fn bytes_start_with(s: Seq<u8>, prefix: Seq<u8>) -> bool {
    prefix.len() <= s.len() && s.take(prefix.len() as int) == prefix
}

fn begins_with(s: &[u8], prefix: &[u8]) -> (r: bool)
    ensures
        r == bytes_start_with(s@, prefix@),
{
    if prefix.len() > s.len() {
        return false;
    }
    same_bytes(slice_subrange(s, 0, prefix.len()), prefix)
}

fn check_page_image(name: &[u8]) -> (r: bool)
    ensures
        r == is_page_image(name@),
{
    let png: bool = match extension_of(name) {
        Some(e) => same_bytes(e.as_slice(), "png".as_bytes()),
        None => false,
    };
    if !png {
        return false;
    }
    match file_stem_of(name) {
        Some(stem) => begins_with(stem.as_slice(), "page".as_bytes()),
        None => false,
    }
}

/// The bytes of each name.
pub open spec fn names_of(v: Seq<Vec<u8>>) -> Seq<Seq<u8>> {
    v.map_values(|n: Vec<u8>| n@)
}

/// The names among `names` that belong to images of pages.
pub open spec fn page_images(names: Seq<Seq<u8>>) -> Seq<Seq<u8>>
    decreases names.len(),
{
    if names.len() == 0 {
        Seq::empty()
    } else if is_page_image(names.last()) {
        page_images(names.drop_last()).push(names.last())
    } else {
        page_images(names.drop_last())
    }
}

/// Whether names are in the order of their bytes.
pub open spec fn in_byte_order(names: Seq<Seq<u8>>) -> bool {
    forall|i: int, j: int|
        #![trigger names[i], names[j]]
        0 <= i < j < names.len() ==> !bytes_before(names[j], names[i])
}

fn is_before(a: &[u8], b: &[u8]) -> (r: bool)
    ensures
        r == bytes_before(a@, b@),
{
    assert(a@.skip(0) =~= a@);
    assert(b@.skip(0) =~= b@);
    let mut i: usize = 0;
    while i < a.len() && i < b.len()
        invariant
            i <= a.len(),
            i <= b.len(),
            bytes_before(a@, b@) == bytes_before(a@.skip(i as int), b@.skip(i as int)),
        decreases a.len() - i,
    {
        assert(a@.skip(i as int)[0] == a@[i as int]);
        assert(b@.skip(i as int)[0] == b@[i as int]);
        if a[i] != b[i] {
            return a[i] < b[i];
        }
        assert(a@.skip(i as int).drop_first() =~= a@.skip(i + 1));
        assert(b@.skip(i as int).drop_first() =~= b@.skip(i + 1));
        i = i + 1;
    }
    a.len() < b.len()
}

proof fn lemma_not_behind_transitive(a: Seq<u8>, b: Seq<u8>, c: Seq<u8>)
    requires
        !bytes_before(b, a),
        !bytes_before(c, b),
    ensures
        !bytes_before(c, a),
{
    law_bytes_total(a, b);
    law_bytes_total(b, c);
    law_bytes_total(a, c);
    if bytes_before(c, a) {
        if a == b || b == c {
        } else {
            law_bytes_transitive(a, b, c);
        }
    }
}

/// Puts a name in its place in a list that is in order.
fn insert_in_order(list: &mut Vec<Vec<u8>>, name: Vec<u8>)
    requires
        in_byte_order(names_of(old(list)@)),
    ensures
        in_byte_order(names_of(final(list)@)),
        names_of(final(list)@).to_multiset() == names_of(old(list)@).to_multiset().insert(name@),
{
    let ghost before = names_of(list@);
    let ghost added = name@;
    let mut place: usize = list.len();
    while place > 0 && is_before(name.as_slice(), list[place - 1].as_slice())
        invariant
            place <= list.len(),
            before == names_of(list@),
            added == name@,
            in_byte_order(before),
            forall|k: int| place <= k < before.len() ==> bytes_before(added, #[trigger] before[k]),
        decreases place,
    {
        assert(before[place - 1] == list@[place - 1]@);
        place = place - 1;
    }
    let ghost p = place as int;
    assert(p > 0 ==> before[p - 1] == list@[p - 1]@);
    list.insert(place, name);
    let ghost after = names_of(list@);
    proof {
        assert(after =~= before.insert(p, added));
        assert forall|i: int, j: int|
            #![trigger after[i], after[j]]
            0 <= i < j < after.len() implies !bytes_before(after[j], after[i]) by {
            law_bytes_total(after[i], after[j]);
            if i < p && j == p {
                assert(after[i] == before[i]);
                if i < p - 1 {
                    assert(!bytes_before(before[p - 1], before[i]));
                    lemma_not_behind_transitive(before[i], before[p - 1], added);
                }
            } else if i == p {
                assert(after[j] == before[j - 1]);
            } else {
                let x = if i < p {
                    i
                } else {
                    i - 1
                };
                let y = if j < p {
                    j
                } else {
                    j - 1
                };
                assert(after[i] == before[x]);
                assert(after[j] == before[y]);
            }
        }
        assert(after.remove(p) =~= before);
        broadcast use group_to_multiset_ensures;

        assert(after[p] == added);
        assert(after.contains(added));
        assert(before.to_multiset() == after.to_multiset().remove(added));
        assert(after.to_multiset() =~= before.to_multiset().insert(added));
    }
}

/// Picks the images of pages out of the names in a folder, and puts them in the order of
/// their names. It is an error where there is none.
pub fn select_page_images(pdf_path: &[u8], names: &Vec<Vec<u8>>) -> (r: Result<
    Vec<Vec<u8>>,
    AppError,
>)
    ensures
        match r {
            Ok(list) => list.len() > 0 && in_byte_order(names_of(list@)) && names_of(
                list@,
            ).to_multiset() == page_images(names_of(names@)).to_multiset(),
            Err(AppError::Pdf(e)) => page_images(names_of(names@)).len() == 0 && e@
                == "No pages rendered from '"@ + utf8_lossy(pdf_path@) + "'."@,
            Err(_) => false,
        },
{
    let mut list: Vec<Vec<u8>> = Vec::new();
    let ghost all = names_of(names@);
    let mut i: usize = 0;
    assert(names_of(list@) =~= page_images(all.take(0)));
    while i < names.len()
        invariant
            i <= names.len(),
            all == names_of(names@),
            in_byte_order(names_of(list@)),
            names_of(list@).to_multiset() == page_images(all.take(i as int)).to_multiset(),
        decreases names.len() - i,
    {
        assert(all.take(i + 1).drop_last() =~= all.take(i as int));
        assert(all.take(i + 1).last() == names@[i as int]@);
        if check_page_image(names[i].as_slice()) {
            insert_in_order(&mut list, slice_to_vec(names[i].as_slice()));
            proof {
                broadcast use group_to_multiset_ensures;

                assert(page_images(all.take(i + 1)) == page_images(all.take(i as int)).push(
                    names@[i as int]@,
                ));
            }
        }
        i = i + 1;
    }
    assert(all.take(i as int) =~= all);
    proof {
        broadcast use group_to_multiset_ensures;

        assert(names_of(list@).len() == names_of(list@).to_multiset().len());
        assert(page_images(all).len() == page_images(all).to_multiset().len());
    }
    if list.len() == 0 {
        let mut e: String = "No pages rendered from '".to_owned();
        e.append(lossy_text(pdf_path).as_str());
        e.append("'.");
        return Err(AppError::Pdf(e));
    }
    Ok(list)
}

/// A name is that of the image of a page exactly where it begins with `page` and ends in `.png`,
/// whatever stands between, and however much of it.
pub proof fn law_page_images_by_their_names(name: Seq<u8>)
    requires
        is_plain_name(name),
    ensures
        is_page_image(name) <==> {
            let n = name.len();
            &&& n >= 8
            &&& name[0] == 112 && name[1] == 97 && name[2] == 103 && name[3] == 101
            &&& name[n - 4] == 46 && name[n - 3] == 112 && name[n - 2] == 110 && name[n - 1] == 103
        },
{
    reveal_strlit("png");
    reveal_strlit("page");
    let n = name.len() as int;
    let png = encode_utf8("png"@);
    let page = encode_utf8("page"@);
    is_ascii_chars_encode_utf8("png"@);
    is_ascii_chars_encode_utf8("page"@);
    assert(png[0] == 112 && png[1] == 110 && png[2] == 103);
    assert(page[0] == 112 && page[1] == 97 && page[2] == 103 && page[3] == 101);
    law_plain_name(name);
    if name.last() != DOT {
        law_extension_is_at_the_end(name, png);
    }
    if name.last() != DOT && extension(name) == Some(png) {
        let tail = name.skip(n - 3);
        assert(tail[0] == name[n - 3] && tail[1] == name[n - 2] && tail[2] == name[n - 1]);
        assert forall|i: int| n - 4 < i < n implies name[i] != DOT by {
            assert(name[i] == tail[i - (n - 3)]);
        }
        law_extension_is_behind_the_last_dot(name, n - 4);
        let stem = name.take(n - 4);
        assert(file_stem(name) == Some(stem));
        if bytes_start_with(stem, page) {
            assert(stem.take(4)[0] == name[0] && stem.take(4)[1] == name[1] && stem.take(4)[2]
                == name[2] && stem.take(4)[3] == name[3]);
        }
        if n >= 8 && name[0] == 112 && name[1] == 97 && name[2] == 103 && name[3] == 101 {
            assert(stem.take(4) =~= page);
        }
    }
    if n >= 8 && name[n - 4] == 46 && name[n - 3] == 112 && name[n - 2] == 110 && name[n - 1] == 103
        && name[0] == 112 {
        assert(name.skip(n - 3) =~= png);
        assert(name[n - 5] != SLASH);
    }
}

/// The name of the image of a page, with its number filled up to `width` digits.
pub open spec fn image_name(page_num: nat, width: nat) -> Seq<u8> {
    encode_utf8("page-"@ + zero_padded(page_num, width) + ".png"@)
}

proof fn lemma_image_name(page_num: nat, width: nat)
    ensures
        ({
            let z = zero_padded(page_num, width);
            let b = image_name(page_num, width);
            &&& all_digits(z)
            &&& digits_value(z) == page_num
            &&& b.len() == z.len() + 9
            &&& is_plain_name(b)
            &&& b[0] == 112 && b[1] == 97 && b[2] == 103 && b[3] == 101 && b[4] == 45
            &&& forall|i: int| 0 <= i < z.len() ==> #[trigger] b[5 + i] == z[i] as u8
            &&& b[b.len() - 4] == 46 && b[b.len() - 3] == 112 && b[b.len() - 2] == 110 && b[b.len()
                - 1] == 103
        }),
{
    reveal_strlit("page-");
    reveal_strlit(".png");
    let z = zero_padded(page_num, width);
    law_padded_value(page_num, width);
    let t = "page-"@ + z + ".png"@;
    let n = z.len() as int;
    assert forall|i: int| 0 <= i < t.len() implies '\0' <= #[trigger] t[i] <= '\u{7f}' && t[i]
        != '/' by {
        if 5 <= i < 5 + n {
            assert(t[i] == z[i - 5]);
            assert(is_digit(z[i - 5]));
        }
    }
    is_ascii_chars_encode_utf8(t);
    let b = image_name(page_num, width);
    assert(t[0] == 'p' && t[1] == 'a' && t[2] == 'g' && t[3] == 'e' && t[4] == '-');
    assert(b[0] == t[0] as u8 && b[1] == t[1] as u8 && b[2] == t[2] as u8 && b[3] == t[3] as u8
        && b[4] == t[4] as u8);
    assert(t[n + 5] == '.' && t[n + 6] == 'p' && t[n + 7] == 'n' && t[n + 8] == 'g');
    assert(b[n + 5] == t[n + 5] as u8 && b[n + 6] == t[n + 6] as u8 && b[n + 7] == t[n + 7] as u8
        && b[n + 8] == t[n + 8] as u8);
    assert forall|i: int| 0 <= i < n implies #[trigger] b[5 + i] == z[i] as u8 by {
        assert(t[5 + i] == z[i]);
    }
    assert forall|k: int| 0 <= k < b.len() implies b[k] != SLASH by {
        assert(t[k] != '/');
        assert(b[k] == t[k] as u8);
    }
}

/// Whatever the number of a page, and to however many digits it is filled up, its image is found.
pub proof fn law_every_page_has_an_image(page_num: nat, width: nat)
    ensures
        is_page_image(image_name(page_num, width)),
{
    lemma_image_name(page_num, width);
    law_page_images_by_their_names(image_name(page_num, width));
}

/// Of the names in a folder, each that is the image of a page is picked as often as it occurs, and
/// no other is.
pub proof fn law_page_images_are_picked(names: Seq<Seq<u8>>, name: Seq<u8>)
    ensures
        is_page_image(name) ==> page_images(names).to_multiset().count(name)
            == names.to_multiset().count(name),
        !is_page_image(name) ==> page_images(names).to_multiset().count(name) == 0,
    decreases names.len(),
{
    broadcast use group_to_multiset_ensures;

    if names.len() > 0 {
        law_page_images_are_picked(names.drop_last(), name);
        assert(names =~= names.drop_last().push(names.last()));
    }
}

proof fn lemma_decimal_len_grows(a: nat, b: nat)
    requires
        a <= b,
    ensures
        decimal(a).len() <= decimal(b).len(),
    decreases b,
{
    if a >= 10 {
        lemma_decimal_len_grows(a / 10, b / 10);
    }
}

proof fn lemma_images_ordered(a: nat, b: nat, width: nat)
    requires
        a < b,
        decimal(b).len() <= width,
    ensures
        bytes_before(image_name(a, width), image_name(b, width)),
{
    lemma_decimal_len_grows(a, b);
    law_decimal_width(a, width);
    law_decimal_width(b, width);
    lemma_image_name(a, width);
    lemma_image_name(b, width);
    let x = zero_padded(a, width);
    let y = zero_padded(b, width);
    let p = image_name(a, width);
    let q = image_name(b, width);
    let k = law_digits_ordered(x, y);
    assert(is_digit(x[k]) && is_digit(y[k]));
    assert forall|i: int| 0 <= i < 5 + k implies p[i] == q[i] by {
        if i >= 5 {
            assert(x.take(k)[i - 5] == x[i - 5]);
            assert(y.take(k)[i - 5] == y[i - 5]);
            assert(p[5 + (i - 5)] == q[5 + (i - 5)]);
        }
    }
    assert(p[5 + k] == x[k] as u8);
    assert(q[5 + k] == y[k] as u8);
    law_first_difference_decides(p, q, 5 + k);
}

/// The images that a renderer leaves of the pages of a document, numbered from 1 on and filled up
/// to the same number of digits, are all picked, and come in the order of the pages.
pub proof fn law_pages_come_in_order(
    total: nat,
    width: nat,
    names: Seq<Seq<u8>>,
    list: Seq<Seq<u8>>,
)
    requires
        decimal(total).len() <= width,
        names.to_multiset() == Seq::new(
            total,
            |i: int| image_name((i + 1) as nat, width),
        ).to_multiset(),
        in_byte_order(list),
        list.to_multiset() == page_images(names).to_multiset(),
    ensures
        list == Seq::new(total, |i: int| image_name((i + 1) as nat, width)),
{
    broadcast use group_to_multiset_ensures;

    let pages = Seq::new(total, |i: int| image_name((i + 1) as nat, width));
    assert(list.to_multiset() =~= pages.to_multiset()) by {
        assert forall|name: Seq<u8>| #[trigger]
            list.to_multiset().count(name) == pages.to_multiset().count(name) by {
            law_page_images_are_picked(names, name);
            if pages.contains(name) {
                let i = choose|i: int| 0 <= i < pages.len() && pages[i] == name;
                law_every_page_has_an_image((i + 1) as nat, width);
            } else {
                assert(pages.to_multiset().count(name) == 0);
            }
        }
    }
    let leq = |a: Seq<u8>, b: Seq<u8>| !bytes_before(b, a);
    assert(total_ordering(leq)) by {
        assert forall|a: Seq<u8>| #[trigger] leq(a, a) by {
            law_bytes_total(a, a);
        }
        assert forall|a: Seq<u8>, b: Seq<u8>| #[trigger] leq(a, b) && #[trigger] leq(b, a) implies a
            == b by {
            law_bytes_total(a, b);
        }
        assert forall|a: Seq<u8>, b: Seq<u8>| #[trigger] leq(a, b) || #[trigger] leq(b, a) by {
            law_bytes_total(a, b);
        }
        assert forall|a: Seq<u8>, b: Seq<u8>, c: Seq<u8>|
            #[trigger] leq(a, b) && #[trigger] leq(b, c) implies leq(a, c) by {
            lemma_not_behind_transitive(a, b, c);
        }
    }
    assert(sorted_by(list, leq));
    assert(sorted_by(pages, leq)) by {
        assert forall|i: int, j: int| 0 <= i < j < pages.len() implies #[trigger] leq(
            pages[i],
            pages[j],
        ) by {
            lemma_decimal_len_grows((j + 1) as nat, total);
            lemma_images_ordered((i + 1) as nat, (j + 1) as nat, width);
            law_bytes_total(pages[i], pages[j]);
        }
    }
    lemma_sorted_unique(list, pages, leq);
}

/// What is told of a failure of `pdftoppm`: what it wrote, or that it wrote nothing.
pub open spec fn failure_detail(stderr: Seq<char>) -> Seq<char> {
    if trimmed(Edge::Blank, stderr).len() == 0 {
        "no error output"@
    } else {
        trimmed(Edge::Blank, stderr)
    }
}

/// The error where `pdftoppm` failed.
pub fn render_failure(pdf_path: &[u8], stderr: &str) -> (e: AppError)
    ensures
        e matches AppError::Pdf(t) && t@ == "pdftoppm failed for '"@ + utf8_lossy(pdf_path@) + "': "@
            + failure_detail(stderr@),
{
    let detail: &str = trim(Edge::Blank, stderr);
    let mut t: String = "pdftoppm failed for '".to_owned();
    t.append(lossy_text(pdf_path).as_str());
    t.append("': ");
    if detail.is_empty() {
        t.append("no error output");
    } else {
        t.append(detail);
    }
    AppError::Pdf(t)
}

// ---------------------------------------------------------------------------
// The number of pages
// ---------------------------------------------------------------------------

/// The number behind `Pages:` in what `pdfinfo` prints.
pub open spec fn page_count_of(text: Seq<char>) -> Result<u32, Seq<char>> {
    match first_after_prefix(text, "Pages:"@, 0) {
        None => Err("Could not determine page count"@),
        Some(rest) => match u32_of_text(trimmed(Edge::Blank, rest)) {
            Some(n) => Ok(n),
            None => Err("Failed to parse page count"@),
        },
    }
}

/// Whether `r` is what `page_count_of` says of `text`.
pub open spec fn is_page_count(r: Result<u32, AppError>, text: Seq<char>) -> bool {
    match r {
        Ok(n) => page_count_of(text) == Ok::<u32, Seq<char>>(n),
        Err(AppError::Pdf(e)) => page_count_of(text) == Err::<u32, Seq<char>>(e@),
        Err(_) => false,
    }
}

/// Reads the number of pages from the text that `pdfinfo` prints.
pub fn parse_page_count(text: &str) -> (r: Result<u32, AppError>)
    ensures
        is_page_count(r, text@),
{
    proof {
        reveal_strlit("Pages:");
    }
    match find_after_prefix(text, "Pages:") {
        None => Err(AppError::Pdf("Could not determine page count".to_owned())),
        Some(rest) => match parse_u32(trim(Edge::Blank, rest)) {
            Some(n) => Ok(n),
            None => Err(AppError::Pdf("Failed to parse page count".to_owned())),
        },
    }
}

/// Reads the number of pages from the bytes that `pdfinfo` prints.
pub fn get_pdf_page_count(stdout: &[u8]) -> (r: Result<u32, AppError>)
    ensures
        is_page_count(r, utf8_lossy(stdout@)),
        valid_utf8(stdout@) ==> is_page_count(r, decode_utf8(stdout@)),
{
    let text: String = lossy_text(stdout);
    parse_page_count(text.as_str())
}

/// The number of pages is read from the first line that starts with `Pages:`, however large it is,
/// whatever blanks stand around it, and whatever the other lines hold.
pub proof fn law_page_count_is_read(
    r: Result<u32, AppError>,
    front: Seq<char>,
    blanks: Seq<char>,
    n: u32,
    more_blanks: Seq<char>,
    rest: Seq<char>,
)
    requires
        front.len() == 0 || front.last() == '\n',
        forall|k: int| starts_line(front, k) ==> !#[trigger] stands_at(front, "Pages:"@, k),
        forall|k: int| 0 <= k < blanks.len() ==> #[trigger] blanks[k] == ' ' || blanks[k] == '\t',
        forall|k: int|
            0 <= k < more_blanks.len() ==> #[trigger] more_blanks[k] == ' ' || more_blanks[k] == '\r',
        rest.len() == 0 || rest[0] == '\n',
        is_page_count(
            r,
            front + "Pages:"@ + blanks + decimal(n as nat) + more_blanks + rest,
        ),
    ensures
        r matches Ok(count) && count == n,
{
    reveal_strlit("Pages:");
    let label = "Pages:"@;
    let digits = decimal(n as nat);
    law_decimal_value(n as nat);
    let text = front + label + blanks + digits + more_blanks + rest;
    let i = front.len() as int;
    let value = blanks + digits + more_blanks;
    let j = i + 6 + value.len();
    assert(text =~= front + label + value + rest);
    assert(text.subrange(i, i + 6) =~= label);
    assert forall|k: int| i <= k < j implies text[k] != '\n' by {
        if k < i + 6 {
            assert(text[k] == label[k - i]);
        } else if k < i + 6 + blanks.len() {
            assert(text[k] == blanks[k - i - 6]);
        } else if k < i + 6 + blanks.len() + digits.len() {
            assert(text[k] == digits[k - i - 6 - blanks.len()]);
            assert(is_digit(digits[k - i - 6 - blanks.len()]));
        } else {
            assert(text[k] == more_blanks[k - i - 6 - blanks.len() - digits.len()]);
        }
    }
    assert(j < text.len() ==> text[j] == rest[0]);
    assert(starts_line(text, i)) by {
        if i > 0 {
            assert(text[i - 1] == front.last());
        }
    }
    assert forall|k: int| 0 <= k < i && starts_line(text, k) implies !#[trigger] stands_at(
        text,
        label,
        k,
    ) by {
        assert(starts_line(front, k)) by {
            if k > 0 {
                assert(text[k - 1] == front[k - 1]);
            }
        }
        assert(!stands_at(front, label, k));
        if stands_at(text, label, k) {
            if k + 6 <= i {
                assert(front.subrange(k, k + 6) =~= text.subrange(k, k + 6));
            } else {
                assert(text[i - 1] == front.last());
                assert(text.subrange(k, k + 6)[i - 1 - k] == '\n');
                assert(label[i - 1 - k] != '\n');
            }
        }
    }
    law_first_line_is_found(text, label, i, j);
    assert(text.subrange(i + 6, j) =~= value);
    assert forall|k: int| 0 <= k < blanks.len() implies is_edge(Edge::Blank, #[trigger] blanks[k]) by {
        law_white_space(blanks[k]);
    }
    assert forall|k: int| 0 <= k < more_blanks.len() implies is_edge(
        Edge::Blank,
        #[trigger] more_blanks[k],
    ) by {
        law_white_space(more_blanks[k]);
    }
    assert(is_digit(digits[0]));
    assert(is_digit(digits[digits.len() - 1]));
    law_white_space(digits[0]);
    law_white_space(digits.last());
    law_trim_gives_what_is_between(Edge::Blank, blanks, digits, more_blanks);
    law_parse_decimal(n);
}

/// Where no line starts with `Pages:` the number of pages is not known.
pub proof fn law_no_page_count_is_an_error(r: Result<u32, AppError>, text: Seq<char>)
    requires
        forall|k: int| starts_line(text, k) ==> !#[trigger] stands_at(text, "Pages:"@, k),
        is_page_count(r, text),
    ensures
        r matches Err(AppError::Pdf(e)) && e@ == "Could not determine page count"@,
{
    reveal_strlit("Pages:");
    law_no_line_is_found(text, "Pages:"@);
}

/// `pdftoppm` is told the file, the resolution in decimal, and where to put the pages.
pub proof fn law_renderer_is_told_the_settings(pdf_path: Seq<u8>, dpi: nat, folder: Seq<u8>)
    ensures
        ({
            let a = PopplerRenderer::arguments_for(pdf_path, dpi, folder);
            &&& a.len() == 5
            &&& a[0] == encode_utf8("-png"@)
            &&& a[1] == encode_utf8("-r"@)
            &&& decode_utf8(a[2]) == decimal(dpi)
            &&& digits_value(decode_utf8(a[2])) == dpi
            &&& a[3] == pdf_path
            &&& component_texts(a[4]) == component_texts(folder).push(encode_utf8("page"@))
        }),
{
    reveal_strlit("page");
    encode_utf8_decode_utf8(decimal(dpi));
    law_decimal_value(dpi);
    let page = encode_utf8("page"@);
    is_ascii_chars_encode_utf8("page"@);
    assert(page[0] == 112);
    assert forall|k: int| 0 <= k < page.len() implies page[k] != SLASH by {
        assert(page[k] == "page"@[k] as u8);
    }
    law_plain_name(page);
    law_join_texts(folder, page);
    assert(component_texts(folder) + seq![page] =~= component_texts(folder).push(page));
}

/// What a renderer wrote about its failure is told without the blanks around it; where it wrote
/// blanks alone, or nothing, that is told.
pub proof fn law_failure_is_told_in_its_words(front: Seq<char>, words: Seq<char>, back: Seq<char>)
    requires
        forall|i: int| 0 <= i < front.len() ==> is_edge(Edge::Blank, #[trigger] front[i]),
        forall|i: int| 0 <= i < back.len() ==> is_edge(Edge::Blank, #[trigger] back[i]),
        words.len() > 0 ==> !is_edge(Edge::Blank, words[0]) && !is_edge(Edge::Blank, words.last()),
    ensures
        words.len() > 0 ==> failure_detail(front + words + back) == words,
        words.len() == 0 ==> failure_detail(front + words + back) == "no error output"@,
{
    law_trim_gives_what_is_between(Edge::Blank, front, words, back);
}

} // verus!
