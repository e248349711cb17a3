//! The conversion of a file: which of its pages are written, and what is reported of them.

use crate::config::{AppConfig, OutputFormat};
use crate::encode::{encode_page_to_webp, is_encoded, EncodeStats, PageWrite};
use crate::error::AppError;
use crate::mirror::{
    law_page_name_is_plain, law_pages_are_first_written_beside, page_file_name, page_file_text,
    page_name, temp_path, temp_path_for,
};
use crate::path::{component_texts, join, join_paths, law_join_texts, law_plain_name, SLASH};
use crate::render::PageData;
use crate::size::{half_even, round_half_even};
use crate::svg::{clamp_precision, digits_for};
use crate::text::{decimal, law_number_stands_out, push_decimal};
use crate::worker::{only_pages, push_report, reports, ProgressUpdate, Report};
use vstd::prelude::*;
use vstd::string::*;
use vstd::utf8::*;

verus! {

// ---------------------------------------------------------------------------
// The way of a file
// ---------------------------------------------------------------------------

/// How a file is converted.
#[derive(Debug, Clone, Copy, PartialEq, Eq, Structural)]
pub enum Job {
    /// Its pages are rendered and encoded.
    Webp {
        dpi: u32,
        quality: u8,
        adaptive: bool,
        /// The score that a page shall reach: the bits of an IEEE 754 double.
        quality_target: u64,
        overwrite: bool,
    },
    /// Its pages are drawn and cleaned up.
    Svg { digits: u8, strip_background: bool, overwrite: bool },
}

/// How a file is converted by the settings.
pub open spec fn job_for(c: AppConfig) -> Job {
    match c.format {
        OutputFormat::Webp => Job::Webp {
            dpi: c.dpi,
            quality: c.quality,
            adaptive: c.adaptive_encoding,
            quality_target: c.quality_target,
            overwrite: c.overwrite,
        },
        OutputFormat::Svg => Job::Svg {
            digits: digits_for(c.svg_precision),
            strip_background: c.svg_strip_background,
            overwrite: c.overwrite,
        },
    }
}

/// Finds how a file is converted by the settings.
pub fn convert_pdf(config: &AppConfig) -> (r: Job)
    ensures
        r == job_for(*config),
{
    match config.format {
        OutputFormat::Webp => Job::Webp {
            dpi: config.dpi,
            quality: config.quality,
            adaptive: config.adaptive_encoding,
            quality_target: config.quality_target,
            overwrite: config.overwrite,
        },
        OutputFormat::Svg => Job::Svg {
            digits: clamp_precision(config.svg_precision),
            strip_background: config.svg_strip_background,
            overwrite: config.overwrite,
        },
    }
}

// ---------------------------------------------------------------------------
// The pages
// ---------------------------------------------------------------------------

/// The lowest quality that is tried for a page.
pub const LOWEST_QUALITY: u8 = 40;

/// The highest quality that is tried for a page.
pub const HIGHEST_QUALITY: u8 = 95;

/// Where a page goes.
#[derive(Debug)]
pub struct PagePaths {
    pub path: Vec<u8>,
    /// Where it is kept until it is whole.
    pub temp_path: Vec<u8>,
}

/// The path of a page in the folder of its document.
pub open spec fn page_in(dir: Seq<u8>, page_num: nat, format: OutputFormat) -> Seq<u8> {
    join(dir, page_name(page_num, format))
}

/// Finds where a page goes in the folder of its document.
pub fn page_paths(output_dir: &[u8], page_num: u32, format: OutputFormat) -> (r: PagePaths)
    ensures
        r.path@ == page_in(output_dir@, page_num as nat, format),
        r.temp_path@ == temp_path(page_in(output_dir@, page_num as nat, format), format),
{
    let name: String = page_file_name(page_num, format);
    let path: Vec<u8> = join_paths(output_dir, name.as_str().as_bytes());
    let temp_path: Vec<u8> = temp_path_for(path.as_slice(), format);
    PagePaths { path, temp_path }
}

/// Whether a page stays as it is: it is there, and nothing is overwritten.
pub open spec fn stays(present: bool, overwrite: bool) -> bool {
    present && !overwrite
}

/// Tells whether a page stays as it is.
pub fn keeps_page(present: bool, overwrite: bool) -> (r: bool)
    ensures
        r == stays(present, overwrite),
{
    present && !overwrite
}

/// What is to be done with a page that was rendered.
#[derive(Debug)]
pub enum PageStep {
    /// It stays as it is.
    Keep,
    /// It is written.
    Write(PageWrite),
    /// Its quality is searched.
    Search { path: Vec<u8> },
    /// The encoder made nothing of it.
    NotEncoded,
    /// The conversion ends.
    Fail(AppError),
}

/// Goes on with a page that was rendered, given whether its image is there already.
pub fn convert_page(
    page: &PageData,
    output_dir: &[u8],
    present: bool,
    overwrite: bool,
    adaptive: bool,
    quality: u8,
) -> (r: PageStep)
    ensures
        ({
            let path = page_in(output_dir@, page.page_num as nat, OutputFormat::Webp);
            match r {
                PageStep::Keep => stays(present, overwrite),
                PageStep::Search { path: p } => !stays(present, overwrite) && adaptive && p@ == path,
                PageStep::Write(w) => !stays(present, overwrite) && !adaptive && is_encoded(
                    Ok(Some(w)),
                    *page,
                    path,
                    quality,
                ),
                PageStep::NotEncoded => !stays(present, overwrite) && !adaptive && is_encoded(
                    Ok(None),
                    *page,
                    path,
                    quality,
                ),
                PageStep::Fail(e) => !stays(present, overwrite) && !adaptive && is_encoded(
                    Err(e),
                    *page,
                    path,
                    quality,
                ),
            }
        }),
{
    if present && !overwrite {
        return PageStep::Keep;
    }
    let paths: PagePaths = page_paths(output_dir, page.page_num, OutputFormat::Webp);
    if adaptive {
        return PageStep::Search { path: paths.path };
    }
    match encode_page_to_webp(page, paths.path.as_slice(), quality) {
        Ok(Some(w)) => PageStep::Write(w),
        Ok(None) => PageStep::NotEncoded,
        Err(e) => PageStep::Fail(e),
    }
}

// ---------------------------------------------------------------------------
// What is reported
// ---------------------------------------------------------------------------

/// The line that tells of the quality that was found for a page; `score` is its score in words.
pub open spec fn quality_line(page_num: nat, stats: EncodeStats, score: Seq<char>) -> Seq<char> {
    "  page "@ + decimal(page_num) + ": q="@ + decimal(half_even(stats.quality_used as nat, 64))
        + " ssim2="@ + score + " ("@ + decimal((stats.file_size / 1024) as nat) + " KB)"@
}

/// The reports once a page is written.
pub open spec fn page_reports(
    path: Seq<char>,
    page_num: nat,
    total_pages: nat,
    line: Option<Seq<char>>,
) -> Seq<Report> {
    let progress = Report::PageProgress { path, current_page: page_num, total_pages };
    match line {
        Some(message) => seq![Report::Log { message }, progress],
        None => seq![progress],
    }
}

/// What was found for a page, in words.
#[derive(Debug)]
pub struct PageQuality {
    pub stats: EncodeStats,
    /// The score with one digit behind the point.
    pub score: String,
}

/// What was found for a page, with its text.
pub ghost struct QualityModel {
    pub stats: EncodeStats,
    pub score: Seq<char>,
}

impl View for PageQuality {
    type V = QualityModel;

    open spec fn view(&self) -> QualityModel {
        QualityModel { stats: self.stats, score: self.score@ }
    }
}

/// What was found for a page, with its text, where its quality was searched.
pub open spec fn quality_model(found: Option<PageQuality>) -> Option<QualityModel> {
    match found {
        Some(q) => Some(q@),
        None => None,
    }
}

/// The line of a page whose quality was searched.
pub open spec fn line_of(page_num: nat, found: Option<QualityModel>) -> Option<Seq<char>> {
    match found {
        Some(q) => Some(quality_line(page_num, q.stats, q.score)),
        None => None,
    }
}

/// Reports that a page is written, with what was found where its quality was searched.
pub fn report_page(
    relative_path: &str,
    page_num: u32,
    total_pages: u32,
    found: &Option<PageQuality>,
) -> (r: Vec<ProgressUpdate>)
    ensures
        reports(r@) == page_reports(
            relative_path@,
            page_num as nat,
            total_pages as nat,
            line_of(page_num as nat, quality_model(*found)),
        ),
{
    let mut out: Vec<ProgressUpdate> = Vec::new();
    assert(reports(out@) =~= Seq::empty());
    if let Some(q) = found {
        let mut message: String = "  page ".to_owned();
        push_decimal(&mut message, page_num as u64);
        message.append(": q=");
        push_decimal(&mut message, round_half_even(q.stats.quality_used as u128, 64) as u64);
        message.append(" ssim2=");
        message.append(q.score.as_str());
        message.append(" (");
        push_decimal(&mut message, (q.stats.file_size / 1024) as u64);
        message.append(" KB)");
        push_report(&mut out, ProgressUpdate::Log { message });
    }
    push_report(
        &mut out,
        ProgressUpdate::PageProgress {
            relative_path: relative_path.to_owned(),
            current_page: page_num,
            total_pages,
        },
    );
    out
}

/// The reports on a page tell the end of no file.
pub proof fn law_pages_end_no_file(
    path: Seq<char>,
    page_num: nat,
    total_pages: nat,
    line: Option<Seq<char>>,
)
    ensures
        only_pages(page_reports(path, page_num, total_pages, line)),
{
}

/// A file is converted as the settings say: to their format, at their resolution, at their quality
/// or by a search for their target, over what is there or not, and with their digits as far as
/// there are from one to four.
pub proof fn law_job_follows_the_settings(c: AppConfig, job: Job)
    requires
        job == job_for(c),
    ensures
        job is Webp <==> c.format == OutputFormat::Webp,
        job is Svg <==> c.format == OutputFormat::Svg,
        job matches Job::Webp { dpi, quality, adaptive, quality_target, overwrite } ==> {
            &&& dpi == c.dpi
            &&& quality == c.quality
            &&& adaptive <==> c.adaptive_encoding
            &&& quality_target == c.quality_target
            &&& overwrite <==> c.overwrite
        },
        job matches Job::Svg { digits, strip_background, overwrite } ==> {
            &&& 1 <= digits <= 4
            &&& 1 <= c.svg_precision <= 4 ==> digits == c.svg_precision
            &&& c.svg_precision == 0 ==> digits == 1
            &&& c.svg_precision > 4 ==> digits == 4
            &&& strip_background <==> c.svg_strip_background
            &&& overwrite <==> c.overwrite
        },
{
}

/// Two settings give the same way for a file only where they agree on all that counts for their
/// format.
pub proof fn law_jobs_differ_as_the_settings_do(c: AppConfig, d: AppConfig)
    requires
        job_for(c) == job_for(d),
    ensures
        c.format == d.format,
        c.overwrite == d.overwrite,
        c.format == OutputFormat::Webp ==> c.dpi == d.dpi && c.quality == d.quality
            && c.adaptive_encoding == d.adaptive_encoding && c.quality_target == d.quality_target,
        c.format == OutputFormat::Svg ==> c.svg_strip_background == d.svg_strip_background,
        c.format == OutputFormat::Svg && 1 <= c.svg_precision <= 4 && 1 <= d.svg_precision <= 4
            ==> c.svg_precision == d.svg_precision,
{
}

/// A page stays only where its image is there and nothing is overwritten.
pub proof fn law_pages_stay_unless_overwritten(present: bool, overwrite: bool)
    ensures
        !present ==> !stays(present, overwrite),
        overwrite ==> !stays(present, overwrite),
        present && !overwrite ==> stays(present, overwrite),
{
}

/// Of a page that is written its number and the number of all pages are reported last, and in
/// front of that what was found of its quality, where that was searched.
pub proof fn law_written_page_is_reported(
    path: Seq<char>,
    page_num: nat,
    total_pages: nat,
    found: Option<QualityModel>,
)
    ensures
        ({
            let rs = page_reports(path, page_num, total_pages, line_of(page_num, found));
            &&& rs.len() == if found is Some {
                2nat
            } else {
                1nat
            }
            &&& rs.last() == Report::PageProgress {
                path,
                current_page: page_num,
                total_pages,
            }
            &&& found matches Some(q) ==> rs[0] == Report::Log {
                message: "  page "@ + decimal(page_num) + ": q="@ + decimal(
                    half_even(q.stats.quality_used as nat, 64),
                ) + " ssim2="@ + q.score + " ("@ + decimal((q.stats.file_size / 1024) as nat)
                    + " KB)"@,
            }
        }),
{
}

/// The place of a page lies right in the folder of its document, under a name of its own, and it
/// is first written beside it.
pub proof fn law_page_lies_in_its_folder(dir: Seq<u8>, page_num: nat, format: OutputFormat)
    ensures
        component_texts(page_in(dir, page_num, format)) == component_texts(dir).push(
            encode_utf8(page_file_text(page_num, format)),
        ),
        component_texts(temp_path(page_in(dir, page_num, format), format)).drop_last()
            == component_texts(dir),
        temp_path(page_in(dir, page_num, format), format) != page_in(dir, page_num, format),
{
    law_page_name_is_plain(page_num, format);
    let name = page_name(page_num, format);
    law_plain_name(name);
    law_join_texts(dir, name);
    assert(component_texts(dir) + seq![name] =~= component_texts(dir).push(name));
    law_pages_are_first_written_beside(dir, page_num, format);
    let more = match format {
        OutputFormat::Webp => ".tmp"@,
        OutputFormat::Svg => ".raw"@,
    };
    reveal_strlit(".tmp");
    reveal_strlit(".raw");
    is_ascii_chars_encode_utf8(more);
    let longer = name + encode_utf8(more);
    assert forall|k: int| 0 <= k < longer.len() implies longer[k] != SLASH by {
        if k >= name.len() {
            assert(longer[k] == encode_utf8(more)[k - name.len()]);
            assert(encode_utf8(more)[k - name.len()] == more[k - name.len()] as u8);
        } else {
            assert(longer[k] == name[k]);
        }
    }
    law_plain_name(longer);
    law_join_texts(dir, longer);
    assert((component_texts(dir) + seq![longer]).drop_last() =~= component_texts(dir));
    assert(longer.len() != name.len());
}

/// The line on the quality of a page tells its page and its size: another page gives another line,
/// and so does a size that is a kilobyte away or more; and sizes are rounded down.
pub proof fn law_quality_lines_differ(
    a: nat,
    b: nat,
    s: EncodeStats,
    t: EncodeStats,
    score: Seq<char>,
)
    ensures
        quality_line(a, s, score) == quality_line(b, s, score) ==> a == b,
        quality_line(a, s, score) == quality_line(a, t, score) && s.quality_used == t.quality_used
            ==> s.file_size - t.file_size < 1024 && t.file_size - s.file_size < 1024,
        s.quality_used == t.quality_used && s.file_size % 1024 == 0 && s.file_size <= t.file_size
            < s.file_size + 1024 ==> quality_line(a, s, score) == quality_line(a, t, score),
{
    let head = "  page "@;
    let quality = ": q="@ + decimal(half_even(s.quality_used as nat, 64)) + " ssim2="@ + score
        + " ("@;
    let (k, l) = ((s.file_size / 1024) as nat, (t.file_size / 1024) as nat);
    if quality_line(a, s, score) == quality_line(b, s, score) {
        let back = quality + decimal(k) + " KB)"@;
        assert(quality_line(a, s, score) =~= head + decimal(a) + back);
        assert(quality_line(b, s, score) =~= head + decimal(b) + back);
        law_number_stands_out(head, a, b, back);
    }
    if quality_line(a, s, score) == quality_line(a, t, score) && s.quality_used == t.quality_used {
        let front = head + decimal(a) + quality;
        assert(quality_line(a, s, score) =~= front + decimal(k) + " KB)"@);
        assert(quality_line(a, t, score) =~= front + decimal(l) + " KB)"@);
        law_number_stands_out(front, k, l, " KB)"@);
    }
}

} // verus!
