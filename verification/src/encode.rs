//! Pages as WebP images: the encoder, the decoder, and the search for the lowest
//! quality that is good enough.

use crate::config::OutputFormat;
use crate::error::AppError;
use crate::mirror::{temp_path, temp_path_for};
use crate::render::PageData;
use crate::text::{decimal, push_decimal};
use vstd::prelude::*;
use vstd::slice::*;
use vstd::string::*;

verus! {

// ---------------------------------------------------------------------------
// Encoding
// ---------------------------------------------------------------------------

/// Whether `len` bytes are enough for an image of four bytes for each pixel.
pub open spec fn buffer_fits(width: u32, height: u32, len: nat) -> bool {
    4 * width <= usize::MAX && 4 * width * height <= len
}

/// `RgbaImage::from_raw` and `ImageBuffer::into_raw` of the crate image: an image is made
/// of the bytes where they are enough for its pixels, and gives the same bytes back.
#[verifier::external_body]
fn rgba_buffer(width: u32, height: u32, data: Vec<u8>) -> (r: Option<Vec<u8>>)
    ensures
        r is Some <==> buffer_fits(width, height, data@.len()),
        r matches Some(v) ==> v@ == data@,
{
    image::RgbaImage::from_raw(width, height, data).map(|img| img.into_raw())
}

/// The largest width and height of a WebP image.
pub const MAX_SIDE: u32 = 16383;

/// Whether an image can be a WebP image by its width and height.
pub open spec fn sides_fit(width: u32, height: u32) -> bool {
    1 <= width <= MAX_SIDE && 1 <= height <= MAX_SIDE
}

/// The bytes that `Encoder::encode_simple` of the crate webp makes, without the lossless
/// mode, of an image in RGBA at a quality; `None` where it fails.
pub uninterp spec fn webp_encoding(rgba: Seq<u8>, width: u32, height: u32, quality: u8) -> Option<
    Seq<u8>,
>;

/// `Encoder::from_rgba` and `Encoder::encode_simple` of the crate webp: what comes out, or
/// that nothing does, depends on the image and the quality alone.
#[verifier::external_body]
fn webp_encode(rgba: &[u8], width: u32, height: u32, quality: u8) -> (r: Option<Vec<u8>>)
    requires
        sides_fit(width, height),
        buffer_fits(width, height, rgba@.len()),
    ensures
        match r {
            Some(v) => webp_encoding(rgba@, width, height, quality) == Some(v@),
            None => webp_encoding(rgba@, width, height, quality) is None,
        },
{
    let encoder = webp::Encoder::from_rgba(rgba, width, height);
    encoder.encode_simple(false, quality.into()).ok().map(|m| m.to_vec())
}

/// A page that is to be written: the bytes go to `temp_path`, which then takes the name `path`.
#[derive(Debug)]
pub struct PageWrite {
    pub temp_path: Vec<u8>,
    pub path: Vec<u8>,
    pub bytes: Vec<u8>,
}

/// The width and height in words.
pub open spec fn size_text(width: u32, height: u32) -> Seq<char> {
    decimal(width as nat) + "x"@ + decimal(height as nat)
}

fn push_size(out: &mut String, width: u32, height: u32)
    ensures
        final(out)@ == old(out)@ + size_text(width, height),
{
    push_decimal(out, width as u64);
    out.append("x");
    push_decimal(out, height as u64);
    assert(out@ =~= old(out)@ + size_text(width, height));
}

/// Ends the encoding of a page, given what the encoder made of it, if anything.
pub fn encoded_page(output_path: &[u8], encoded: Option<Vec<u8>>) -> (r: Option<PageWrite>)
    ensures
        match r {
            Some(w) => encoded == Some(w.bytes) && w.path@ == output_path@ && w.temp_path@
                == temp_path(output_path@, OutputFormat::Webp),
            None => encoded is None,
        },
{
    match encoded {
        Some(bytes) => Some(
            PageWrite {
                temp_path: temp_path_for(output_path, OutputFormat::Webp),
                path: slice_to_vec(output_path),
                bytes,
            },
        ),
        None => None,
    }
}

/// What the encoder makes of a page, by its sides and its pixels.
pub open spec fn page_encoding(page: PageData, quality: u8) -> Option<Seq<u8>> {
    if sides_fit(page.width, page.height) {
        webp_encoding(page.rgba_data@, page.width, page.height, quality)
    } else {
        None
    }
}

/// Whether `r` is what comes of a page: the bytes of the encoder, nothing where the encoder makes
/// nothing of it, or an error where it has too few pixels.
pub open spec fn is_encoded(
    r: Result<Option<PageWrite>, AppError>,
    page: PageData,
    path: Seq<u8>,
    quality: u8,
) -> bool {
    let fits = buffer_fits(page.width, page.height, page.rgba_data@.len());
    match r {
        Ok(Some(w)) => {
            &&& fits
            &&& page_encoding(page, quality) == Some(w.bytes@)
            &&& w.path@ == path
            &&& w.temp_path@ == temp_path(path, OutputFormat::Webp)
        },
        Ok(None) => fits && page_encoding(page, quality) is None,
        Err(AppError::Webp(e)) => !fits && e@ == "Bad buffer "@ + size_text(
            page.width,
            page.height,
        ),
        Err(_) => false,
    }
}

/// Encodes a page at a fixed quality. Where the encoder makes nothing of it the result is `None`.
pub fn encode_page_to_webp(page: &PageData, output_path: &[u8], quality: u8) -> (r: Result<
    Option<PageWrite>,
    AppError,
>)
    ensures
        is_encoded(r, *page, output_path@, quality),
{
    let copy: Vec<u8> = slice_to_vec(page.rgba_data.as_slice());
    let raw: Vec<u8> = match rgba_buffer(page.width, page.height, copy) {
        Some(raw) => raw,
        None => {
            let mut e: String = "Bad buffer ".to_owned();
            push_size(&mut e, page.width, page.height);
            return Err(AppError::Webp(e));
        },
    };
    let encoded: Option<Vec<u8>> = if 1 <= page.width && page.width <= MAX_SIDE && 1 <= page.height
        && page.height <= MAX_SIDE {
        webp_encode(raw.as_slice(), page.width, page.height, quality)
    } else {
        None
    };
    Ok(encoded_page(output_path, encoded))
}

/// The pixels of a page, to be encoded at some quality.
pub fn page_pixels(page: &PageData) -> (r: Result<Vec<u8>, AppError>)
    ensures
        match r {
            Ok(v) => buffer_fits(page.width, page.height, page.rgba_data@.len()) && v@
                == page.rgba_data@,
            Err(AppError::Webp(e)) => !buffer_fits(page.width, page.height, page.rgba_data@.len())
                && e@ == "Bad image buffer"@,
            Err(_) => false,
        },
{
    let copy: Vec<u8> = slice_to_vec(page.rgba_data.as_slice());
    match rgba_buffer(page.width, page.height, copy) {
        Some(raw) => Ok(raw),
        None => Err(AppError::Webp("Bad image buffer".to_owned())),
    }
}

/// What came of the search for the quality of a page.
#[derive(Debug, Clone, Copy, PartialEq, Eq, Structural)]
pub struct EncodeStats {
    /// The quality of the page, in 64ths.
    pub quality_used: u32,
    /// The score of the page: the bits of an IEEE 754 double.
    pub ssimulacra2_score: u64,
    /// The bytes of the page.
    pub file_size: usize,
}

/// Ends the search for the quality of a page, given the bytes of the page at the best quality
/// and their score, if they have one.
pub fn adaptive_page(
    output_path: &[u8],
    search: &QualitySearch,
    bytes: Vec<u8>,
    score: Option<u64>,
) -> (r: (PageWrite, EncodeStats))
    ensures
        r.0.bytes@ == bytes@,
        r.0.path@ == output_path@,
        r.0.temp_path@ == temp_path(output_path@, OutputFormat::Webp),
        r.1.quality_used == search.best,
        r.1.ssimulacra2_score == (match score {
            Some(v) => v,
            None => 0,
        }),
        r.1.file_size == bytes@.len(),
{
    let stats: EncodeStats = EncodeStats {
        quality_used: search.best,
        ssimulacra2_score: match score {
            Some(v) => v,
            None => 0,
        },
        file_size: bytes.len(),
    };
    let write: PageWrite = PageWrite {
        temp_path: temp_path_for(output_path, OutputFormat::Webp),
        path: slice_to_vec(output_path),
        bytes,
    };
    (write, stats)
}

// ---------------------------------------------------------------------------
// Decoding
// ---------------------------------------------------------------------------

/// The pixels in RGBA that `Decoder::decode` of the crate webp finds in bytes; `None` where it
/// finds no image.
pub uninterp spec fn webp_pixels(data: Seq<u8>) -> Option<Seq<u8>>;

/// `Decoder::decode` and `WebPImage::to_image` of the crate webp, and `DynamicImage::to_rgba8`
/// of the crate image: the pixels, or that there is no image, depend on the bytes alone.
#[verifier::external_body]
fn webp_decode(data: &[u8]) -> (r: Option<Vec<u8>>)
    ensures
        match r {
            Some(v) => webp_pixels(data@) == Some(v@),
            None => webp_pixels(data@) is None,
        },
{
    webp::Decoder::new(data).decode().map(|d| d.to_image().to_rgba8().into_raw())
}

/// Ends the decoding of an image, given what the decoder found.
pub fn decoded_pixels(found: Option<Vec<u8>>) -> (r: Result<Vec<u8>, AppError>)
    ensures
        match r {
            Ok(v) => found == Some(v),
            Err(AppError::Webp(e)) => found is None && e@
                == "Failed to decode WebP for verification"@,
            Err(_) => false,
        },
{
    match found {
        Some(v) => Ok(v),
        None => Err(AppError::Webp("Failed to decode WebP for verification".to_owned())),
    }
}

/// Decodes a WebP image to its pixels.
pub fn decode_webp_to_rgba(data: &[u8]) -> (r: Result<Vec<u8>, AppError>)
    ensures
        match r {
            Ok(v) => webp_pixels(data@) == Some(v@),
            Err(AppError::Webp(e)) => webp_pixels(data@) is None && e@
                == "Failed to decode WebP for verification"@,
            Err(_) => false,
        },
{
    decoded_pixels(webp_decode(data))
}

/// The colours of the pixels, without their opacity; bytes behind the last whole pixel
/// do not count.
pub fn rgb_pixels(rgba: &[u8]) -> (r: Vec<[u8; 3]>)
    ensures
        r.len() == rgba.len() / 4,
        forall|i: int|
            #![trigger r@[i]]
            0 <= i < r.len() ==> r@[i]@ == rgba@.subrange(4 * i, 4 * i + 3),
{
    let n: usize = rgba.len() / 4;
    let mut out: Vec<[u8; 3]> = Vec::new();
    let mut i: usize = 0;
    while i < n
        invariant
            n == rgba.len() / 4,
            i <= n,
            out.len() == i,
            forall|k: int|
                #![trigger out@[k]]
                0 <= k < i ==> out@[k]@ == rgba@.subrange(4 * k, 4 * k + 3),
        decreases n - i,
    {
        let pixel: [u8; 3] = [rgba[4 * i], rgba[4 * i + 1], rgba[4 * i + 2]];
        assert(pixel@ =~= rgba@.subrange(4 * i, 4 * i + 3));
        out.push(pixel);
        i = i + 1;
    }
    out
}

// ---------------------------------------------------------------------------
// The search for a quality
// ---------------------------------------------------------------------------

/// The most images that a search tries.
pub const MAX_PROBES: u32 = 6;

/// A quality of 1, in the units of a search.
pub const QUALITY_ONE: u32 = 64;

/// A search by halving for the lowest quality that meets a target. Qualities are counted in
/// 64ths.
#[derive(Debug, Clone, Copy, PartialEq, Eq, Structural)]
pub struct QualitySearch {
    /// The lower end of what is searched.
    pub lo: u32,
    /// The upper end of what is searched.
    pub hi: u32,
    /// The lowest quality that is known to meet the target, or the highest of all.
    pub best: u32,
    /// The number of images that were tried.
    pub probes: u32,
}

/// The distance between the qualities that the ends may take after so many images: each
/// image halves it.
pub open spec fn grain(probes: u32) -> int {
    if probes == 0 {
        64
    } else if probes == 1 {
        32
    } else if probes == 2 {
        16
    } else if probes == 3 {
        8
    } else if probes == 4 {
        4
    } else if probes == 5 {
        2
    } else {
        1
    }
}

/// Whether a quality is one of those that an end may take after so many images.
pub open spec fn on_grain(q: int, probes: u32) -> bool {
    if probes == 0 {
        q % 64 == 0
    } else if probes == 1 {
        q % 32 == 0
    } else if probes == 2 {
        q % 16 == 0
    } else if probes == 3 {
        q % 8 == 0
    } else if probes == 4 {
        q % 4 == 0
    } else if probes == 5 {
        q % 2 == 0
    } else {
        true
    }
}

/// The search between two whole qualities, at its start.
pub open spec fn search_between(min_quality: u8, max_quality: u8) -> QualitySearch {
    QualitySearch {
        lo: (min_quality * 64) as u32,
        hi: (max_quality * 64) as u32,
        best: (max_quality * 64) as u32,
        probes: 0,
    }
}

impl QualitySearch {
    /// Whether the search is in order: halving has not lost anything, and the best quality is
    /// the upper end.
    pub open spec fn wf(self) -> bool {
        &&& self.probes <= MAX_PROBES
        &&& on_grain(self.lo as int, self.probes)
        &&& on_grain(self.hi as int, self.probes)
        &&& self.lo <= 255 * QUALITY_ONE
        &&& self.hi <= 255 * QUALITY_ONE
        &&& self.best == self.hi
    }

    /// Whether there is an image to try: not too many were tried, and the ends lie a quality
    /// of 2 apart or more.
    pub open spec fn is_open(self) -> bool {
        self.probes < MAX_PROBES && self.hi - self.lo >= 2 * QUALITY_ONE
    }

    /// The quality half-way between the ends.
    pub open spec fn middle(self) -> int {
        (self.lo + self.hi) / 2
    }

    /// The search once it is known whether the middle meets the target.
    pub open spec fn after(self, meets: bool) -> QualitySearch {
        let mid = self.middle() as u32;
        QualitySearch {
            lo: if meets {
                self.lo
            } else {
                mid
            },
            hi: if meets {
                mid
            } else {
                self.hi
            },
            best: if meets {
                mid
            } else {
                self.best
            },
            probes: (self.probes + 1) as u32,
        }
    }

    /// The search carried to its end, where `meets` tells which qualities meet the target.
    pub open spec fn run(self, meets: spec_fn(int) -> bool) -> QualitySearch
        decreases MAX_PROBES - self.probes,
    {
        if self.is_open() {
            self.after(meets(self.middle())).run(meets)
        } else {
            self
        }
    }

    /// Starts a search between two whole qualities.
    pub fn new(min_quality: u8, max_quality: u8) -> (s: QualitySearch)
        ensures
            s.wf(),
            s == search_between(min_quality, max_quality),
    {
        QualitySearch {
            lo: min_quality as u32 * 64,
            hi: max_quality as u32 * 64,
            best: max_quality as u32 * 64,
            probes: 0,
        }
    }

    /// The quality that is to be tried next; it lies exactly half-way.
    pub fn next_probe(&self) -> (r: Option<u32>)
        requires
            self.wf(),
        ensures
            r is Some <==> self.is_open(),
            r matches Some(q) ==> q == self.middle() && 2 * q == self.lo + self.hi,
    {
        if self.probes < MAX_PROBES && self.hi >= self.lo && self.hi - self.lo >= 2 * QUALITY_ONE {
            proof {
                lemma_half(self.lo, self.hi, self.probes);
            }
            Some((self.lo + self.hi) / 2)
        } else {
            None
        }
    }

    /// Takes down whether the quality that was tried meets the target.
    pub fn record(&mut self, meets: bool)
        requires
            old(self).wf(),
            old(self).is_open(),
        ensures
            final(self).wf(),
            *final(self) == old(self).after(meets),
    {
        let mid: u32 = (self.lo + self.hi) / 2;
        proof {
            lemma_half(self.lo, self.hi, self.probes);
        }
        if meets {
            self.best = mid;
            self.hi = mid;
        } else {
            self.lo = mid;
        }
        self.probes = self.probes + 1;
    }
}

impl QualitySearch {
    /// A search that is in order stays so.
    pub proof fn lemma_after_wf(self, meets: bool)
        requires
            self.wf(),
            self.is_open(),
        ensures
            self.after(meets).wf(),
    {
        lemma_half(self.lo, self.hi, self.probes);
    }
}

proof fn lemma_half(lo: u32, hi: u32, probes: u32)
    requires
        probes < MAX_PROBES,
        on_grain(lo as int, probes),
        on_grain(hi as int, probes),
    ensures
        on_grain((lo + hi) / 2, (probes + 1) as u32),
        on_grain(lo as int, (probes + 1) as u32),
        on_grain(hi as int, (probes + 1) as u32),
        (lo + hi) % 2 == 0,
{
    if probes == 0 {
        lemma_half_of_multiples(lo as int, hi as int, 32);
    } else if probes == 1 {
        lemma_half_of_multiples(lo as int, hi as int, 16);
    } else if probes == 2 {
        lemma_half_of_multiples(lo as int, hi as int, 8);
    } else if probes == 3 {
        lemma_half_of_multiples(lo as int, hi as int, 4);
    } else if probes == 4 {
        lemma_half_of_multiples(lo as int, hi as int, 2);
    } else {
        lemma_half_of_multiples(lo as int, hi as int, 1);
    }
}

/// Half the sum of two multiples of `2 * g` is a multiple of `g`, and so are they.
proof fn lemma_half_of_multiples(lo: int, hi: int, g: int)
    requires
        g == 1 || g == 2 || g == 4 || g == 8 || g == 16 || g == 32,
        lo % (2 * g) == 0,
        hi % (2 * g) == 0,
    ensures
        ((lo + hi) / 2) % g == 0,
        lo % g == 0,
        hi % g == 0,
        (lo + hi) % 2 == 0,
{
    let a = lo / (2 * g);
    let b = hi / (2 * g);
    vstd::arithmetic::div_mod::lemma_fundamental_div_mod(lo, 2 * g);
    vstd::arithmetic::div_mod::lemma_fundamental_div_mod(hi, 2 * g);
    assert(lo == 2 * (g * a)) by (nonlinear_arith)
        requires
            lo == 2 * g * a,
    ;
    assert(hi == 2 * (g * b)) by (nonlinear_arith)
        requires
            hi == 2 * g * b,
    ;
    assert((lo + hi) / 2 == g * a + g * b);
    assert(g * a + g * b == g * (a + b)) by (nonlinear_arith);
    vstd::arithmetic::div_mod::lemma_mod_multiples_basic(a + b, g);
    vstd::arithmetic::div_mod::lemma_mod_multiples_basic(2 * a, g);
    vstd::arithmetic::div_mod::lemma_mod_multiples_basic(2 * b, g);
    assert((a + b) * g == g * (a + b)) by (nonlinear_arith);
    assert((2 * a) * g == 2 * (g * a)) by (nonlinear_arith);
    assert((2 * b) * g == 2 * (g * b)) by (nonlinear_arith);
}

/// What holds of a search from where it started to where it is.
spec fn is_sound(min: int, max: int, s: QualitySearch, meets: spec_fn(int) -> bool) -> bool {
    &&& s.wf()
    &&& s.hi == max || meets(s.hi as int)
    &&& s.lo == min || !meets(s.lo as int)
    &&& s.hi <= max
    &&& min <= max ==> min <= s.lo <= s.hi
}

proof fn lemma_run(min: int, max: int, s: QualitySearch, meets: spec_fn(int) -> bool)
    requires
        is_sound(min, max, s, meets),
    ensures
        is_sound(min, max, s.run(meets), meets),
        !s.run(meets).is_open(),
        s.hi - s.lo < 128 * grain(s.probes) ==> s.run(meets).hi - s.run(meets).lo < 2 * 64,
        s.run(meets).probes <= MAX_PROBES,
    decreases MAX_PROBES - s.probes,
{
    if s.is_open() {
        let next = s.after(meets(s.middle()));
        lemma_half(s.lo, s.hi, s.probes);
        assert(2 * s.middle() == s.lo + s.hi);
        lemma_run(min, max, next, meets);
    }
}

/// A search ends after six images at most, at a quality between the two it started from; that
/// quality meets the target, unless it is the highest of all.
pub proof fn law_search_finds(min_quality: u8, max_quality: u8, meets: spec_fn(int) -> bool)
    ensures
        ({
            let end = search_between(min_quality, max_quality).run(meets);
            &&& !end.is_open()
            &&& end.probes <= MAX_PROBES
            &&& end.best <= max_quality * 64
            &&& min_quality <= max_quality ==> min_quality * 64 <= end.best
            &&& end.best == max_quality * 64 || meets(end.best as int)
        }),
{
    let start = search_between(min_quality, max_quality);
    lemma_run(min_quality * 64, max_quality * 64, start, meets);
}

/// Where a higher quality is never worse, no quality that lies 2 or more below the one that
/// is found meets the target.
pub proof fn law_search_minimal(
    min_quality: u8,
    max_quality: u8,
    meets: spec_fn(int) -> bool,
    q: int,
)
    requires
        min_quality <= max_quality,
        max_quality - min_quality < 128,
        forall|a: int, b: int| #![trigger meets(a), meets(b)] a <= b && meets(a) ==> meets(b),
        min_quality * 64 <= q,
        q <= search_between(min_quality, max_quality).run(meets).best - 2 * 64,
    ensures
        !meets(q),
{
    let start = search_between(min_quality, max_quality);
    lemma_run(min_quality * 64, max_quality * 64, start, meets);
    let end = start.run(meets);
    assert(q < end.lo);
    if meets(q) {
        assert(meets(end.lo as int));
    }
}

/// A page with sides that a WebP image can have, and with four bytes for each of its pixels, comes
/// out as the encoder makes it of its own pixels, sides and quality, and goes to its own place; a
/// page with fewer bytes is an error.
pub proof fn law_pages_are_encoded_as_they_are(
    r: Result<Option<PageWrite>, AppError>,
    page: PageData,
    path: Seq<u8>,
    quality: u8,
)
    requires
        is_encoded(r, page, path, quality),
        1 <= page.width <= 16383,
        1 <= page.height <= 16383,
    ensures
        4 * page.width * page.height <= page.rgba_data@.len() ==> match webp_encoding(
            page.rgba_data@,
            page.width,
            page.height,
            quality,
        ) {
            Some(bytes) => r matches Ok(Some(w)) && w.bytes@ == bytes && w.path@ == path,
            None => r matches Ok(None),
        },
        4 * page.width * page.height > page.rgba_data@.len() ==> (r matches Err(AppError::Webp(e))
            && e@ == "Bad buffer "@ + decimal(page.width as nat) + "x"@ + decimal(
            page.height as nat,
        )),
{
    if let Err(AppError::Webp(e)) = r {
        assert(e@ =~= "Bad buffer "@ + decimal(page.width as nat) + "x"@ + decimal(
            page.height as nat,
        ));
    }
}

/// An image that is larger than a WebP image can be, or has no pixels, is not encoded.
pub proof fn law_other_sides_are_not_encoded(page: PageData, quality: u8)
    requires
        page.width == 0 || page.height == 0 || page.width > 16383 || page.height > 16383,
    ensures
        page_encoding(page, quality) is None,
{
}

/// A search tries at most six qualities, each half-way between the ends it has come to, and keeps
/// the half in which the lowest quality that is enough must lie.
pub proof fn law_search_halves(s: QualitySearch, meets: bool)
    requires
        s.wf(),
        s.is_open(),
    ensures
        2 * s.middle() == s.lo + s.hi,
        s.lo < s.middle() < s.hi,
        meets ==> s.after(meets).hi == s.middle() && s.after(meets).lo == s.lo && s.after(meets).best
            == s.middle(),
        !meets ==> s.after(meets).lo == s.middle() && s.after(meets).hi == s.hi && s.after(meets).best
            == s.best,
        s.after(meets).probes == s.probes + 1,
        s.probes < 6,
        2 * (s.after(meets).hi - s.after(meets).lo) == s.hi - s.lo,
{
    lemma_half(s.lo, s.hi, s.probes);
}

/// A search that is open has tried fewer than six qualities between ends that lie at least 2 apart,
/// and one that has done so is open.
pub proof fn law_search_goes_on_while_it_can(s: QualitySearch)
    ensures
        s.is_open() <==> s.probes < 6 && s.hi - s.lo >= 128,
{
}

} // verus!
