use shard::error::AppError;
use shard::imaging::{ScoredPage, WebpAction, WebpEvent, WebpPhase, WebpRun};
use shard::render::PageData;

fn text(v: &[u8]) -> String {
    String::from_utf8(v.to_vec()).unwrap()
}

fn page(page_num: u32, side: u32) -> PageData {
    PageData { page_num, rgba_data: vec![128; (side * side * 4) as usize], width: side, height: side }
}

/// Carries a conversion to its end; page 2 is there already, and a quality of `bound` is enough.
fn convert(
    pages: Vec<PageData>,
    adaptive: bool,
    overwrite: bool,
    bound: f32,
) -> (Vec<String>, Vec<String>, Result<u32, String>) {
    let (mut run, mut action) = WebpRun::begin(pages, b"/o", "a.pdf", 75, adaptive, overwrite);
    let (mut written, mut reported) = (Vec::new(), Vec::new());
    loop {
        let event = match action {
            WebpAction::Look { path } => WebpEvent::Looked { present: path == b"/o/page-002.webp" },
            WebpAction::Try { quality } => {
                assert_eq!(run.phase, WebpPhase::Searching);
                WebpEvent::Tried { meets: Ok(quality as f32 / 64.0 >= bound) }
            }
            WebpAction::Encode { quality } => WebpEvent::Encoded {
                page: Ok(ScoredPage {
                    bytes: vec![0; quality as usize],
                    score: Some(90.0f64.to_bits()),
                    shown: String::from("90.0"),
                }),
            },
            WebpAction::Write { write } => {
                assert_eq!(text(&write.temp_path), format!("{}.tmp", text(&write.path)));
                written.push(text(&write.path));
                WebpEvent::Written
            }
            WebpAction::Finish { page_count } => return (written, reported, Ok(page_count)),
            WebpAction::Fail { error } => return (written, reported, Err(error.message())),
            WebpAction::NotEncoded => return (written, reported, Err(String::from("not encoded"))),
        };
        let (updates, next) = run.step(event);
        reported.extend(updates.iter().map(|u| format!("{u:?}")));
        action = next;
    }
}

fn progress(n: u32, total: u32) -> String {
    format!(
        "PageProgress {{ relative_path: \"a.pdf\", current_page: {n}, total_pages: {total} }}"
    )
}

#[test]
fn missing_pages_are_written_and_reported() {
    let (written, reported, result) = convert(vec![page(1, 4), page(2, 4), page(3, 4)], false, false, 0.0);
    assert_eq!(written, vec!["/o/page-001.webp", "/o/page-003.webp"]);
    assert_eq!(reported, vec![progress(1, 3), progress(3, 3)]);
    assert_eq!(result, Ok(3));
}

#[test]
fn all_pages_are_written_where_files_are_overwritten() {
    let (written, reported, result) = convert(vec![page(1, 4), page(2, 4)], false, true, 0.0);
    assert_eq!(written, vec!["/o/page-001.webp", "/o/page-002.webp"]);
    assert_eq!(reported.len(), 2);
    assert_eq!(result, Ok(2));
}

#[test]
fn qualities_are_searched() {
    let (written, reported, result) = convert(vec![page(1, 4)], true, false, 70.0);
    assert_eq!(written, vec!["/o/page-001.webp"]);
    // 67.5 no, 81.25 yes, 74.375 yes, 70.9375 yes, then the ends are 3.4 apart: 69.21875 no.
    let quality = 70.9375f32;
    let line = format!(
        "  page 1: q={:.0} ssim2=90.0 ({} KB)",
        quality,
        (quality * 64.0) as usize / 1024
    );
    assert_eq!(reported, vec![format!("Log {{ message: {line:?} }}"), progress(1, 1)]);
    assert_eq!(result, Ok(1));
}

#[test]
fn the_first_failure_ends_the_imaging() {
    let mut short = page(3, 4);
    short.rgba_data.pop();
    let (written, reported, result) = convert(vec![page(1, 4), short, page(4, 4)], false, false, 0.0);
    assert_eq!((written.len(), reported.len()), (1, 1));
    assert_eq!(result, Err(String::from("WebP encoding error: Bad buffer 4x4")));
    let (_, _, result) = convert(vec![page(1, 0)], false, false, 0.0);
    assert_eq!(result, Err(String::from("not encoded")));
}

#[test]
fn a_page_with_too_few_pixels_is_an_error_of_webp() {
    let mut short = page(1, 4);
    short.rgba_data.pop();
    let (mut run, _) = WebpRun::begin(vec![short], b"/o", "a.pdf", 75, false, false);
    let (_, action) = run.step(WebpEvent::Looked { present: false });
    assert!(matches!(action, WebpAction::Fail { error: AppError::Webp(m) } if m == "Bad buffer 4x4"));
}

#[test]
fn a_failed_encoding_is_handed_on() {
    let (mut run, mut action) = WebpRun::begin(vec![page(1, 4)], b"/o", "a.pdf", 75, true, false);
    loop {
        let event = match action {
            WebpAction::Look { .. } => WebpEvent::Looked { present: false },
            WebpAction::Try { .. } => WebpEvent::Tried { meets: Ok(true) },
            WebpAction::Encode { .. } => {
                WebpEvent::Encoded { page: Err(AppError::Io(String::from("full"))) }
            }
            other => {
                assert!(matches!(other, WebpAction::Fail { error: AppError::Io(m) } if m == "full"));
                break;
            }
        };
        action = run.step(event).1;
    }
}

#[test]
fn failed_tries_end_the_imaging() {
    let (mut run, _) = WebpRun::begin(vec![page(1, 4)], b"/o", "a.pdf", 75, true, false);
    run.step(WebpEvent::Looked { present: false });
    let failed = Err(AppError::Webp(String::from("x")));
    let (updates, action) = run.step(WebpEvent::Tried { meets: failed });
    assert!(updates.is_empty());
    assert!(matches!(action, WebpAction::Fail { error: AppError::Webp(m) } if m == "x"));
    assert_eq!(run.phase, WebpPhase::Over);
}

#[test]
fn a_document_without_pages_is_done_at_once() {
    let (run, action) = WebpRun::begin(vec![], b"/o", "a.pdf", 75, true, true);
    assert!(matches!(action, WebpAction::Finish { page_count: 0 }));
    assert_eq!(run.phase, WebpPhase::Over);
    assert_eq!(page(1, 2).clone().rgba_data, vec![128; 16]);
}

#[test]
fn an_imaging_that_is_done_leaves_every_image() {
    let pages = vec![page(1, 4), page(2, 4), page(3, 4), page(4, 4)];
    let (mut written, _, result) = convert(pages, false, false, 0.0);
    assert_eq!(result, Ok(4));
    written.push(String::from("/o/page-002.webp"));
    written.sort();
    let all: Vec<String> = (1..=4).map(|n| format!("/o/page-{n:03}.webp")).collect();
    assert_eq!(written, all);
}

#[test]
fn images_that_are_there_are_left_alone() {
    let (written, reported, result) = convert(vec![page(2, 4)], false, false, 0.0);
    assert!(written.is_empty() && reported.is_empty());
    assert_eq!(result, Ok(1));
    let (written, reported, result) = convert(vec![page(2, 4)], true, false, 0.0);
    assert!(written.is_empty() && reported.is_empty());
    assert_eq!(result, Ok(1));
}
