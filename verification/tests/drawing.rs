use shard::drawing::{SvgAction, SvgEvent, SvgPhase, SvgRun};
use shard::error::AppError;
use shard::svg::rewrite_svg;

fn text(v: &[u8]) -> String {
    String::from_utf8(v.to_vec()).unwrap()
}

/// Carries a conversion to its end; page 2 is there already, and page `bad` cannot be drawn.
fn convert(total: u32, strip: bool, overwrite: bool, bad: u32) -> (Vec<String>, Result<u32, String>) {
    let (mut run, mut action) = SvgRun::begin(b"/in/a.pdf", b"/o", total, 3, strip, overwrite);
    let mut log = Vec::new();
    loop {
        let event = match action {
            SvgAction::Look { path } => SvgEvent::Looked { present: text(&path) == "/o/page-002.svg" },
            SvgAction::Draw { arguments } => {
                assert_eq!(text(&arguments[6]), format!("/o/page-{:03}.svg.raw", run.page));
                SvgEvent::Drawn { success: run.page != bad }
            }
            SvgAction::Load { path } => SvgEvent::Loaded { data: path },
            SvgAction::Strip { mut data } => {
                data.push(b'-');
                SvgEvent::Stripped { data }
            }
            SvgAction::Rewrite { data, digits } | SvgAction::Hand { data, digits } => {
                assert_eq!(digits, 3);
                SvgEvent::Rewritten { outcome: Ok(text(&data)) }
            }
            SvgAction::Save { path, text: t, raw } => {
                log.push(format!("{} {} {}", text(&path), t, text(&raw)));
                SvgEvent::Saved
            }
            SvgAction::Finish { page_count } => return (log, Ok(page_count)),
            SvgAction::Fail { error } => {
                assert!(matches!(error, AppError::Pdf(_)));
                return (log, Err(error.message()));
            }
        };
        action = run.step(event);
    }
}

#[test]
fn missing_pages_are_drawn() {
    let (log, result) = convert(3, false, false, 0);
    assert_eq!(
        log,
        vec![
            "/o/page-001.svg /o/page-001.svg.raw /o/page-001.svg.raw",
            "/o/page-003.svg /o/page-003.svg.raw /o/page-003.svg.raw",
        ]
    );
    assert_eq!(result, Ok(3));
}

#[test]
fn all_pages_are_drawn_where_files_are_overwritten() {
    let (log, result) = convert(2, true, true, 0);
    assert_eq!(
        log,
        vec![
            "/o/page-001.svg /o/page-001.svg.raw- /o/page-001.svg.raw",
            "/o/page-002.svg /o/page-002.svg.raw- /o/page-002.svg.raw",
        ]
    );
    assert_eq!(result, Ok(2));
}

#[test]
fn the_first_failure_ends_the_drawing() {
    let (log, result) = convert(9, false, false, 3);
    assert_eq!(log.len(), 1);
    assert_eq!(
        result,
        Err(String::from("PDF processing error: pdftocairo failed for '/in/a.pdf' page 3"))
    );
}

#[test]
fn a_drawing_that_cannot_be_cleaned_up_ends_it() {
    let (mut run, _) = SvgRun::begin(b"/in/a.pdf", b"/o", 1, 2, false, false);
    run.step(SvgEvent::Looked { present: false });
    run.step(SvgEvent::Drawn { success: true });
    run.step(SvgEvent::Loaded { data: vec![] });
    let outcome = Err(AppError::Custom(String::from("usvg error: x")));
    assert!(matches!(
        run.step(SvgEvent::Rewritten { outcome }),
        SvgAction::Fail { error: AppError::Custom(m) } if m == "usvg error: x"
    ));
    assert_eq!(run.phase, SvgPhase::Over);
}

#[test]
fn a_file_without_pages_is_done_at_once() {
    let (run, action) = SvgRun::begin(b"/in/a.pdf", b"/o", 0, 2, true, true);
    assert!(matches!(action, SvgAction::Finish { page_count: 0 }));
    assert_eq!(run.phase, SvgPhase::Over);
}

/// What is saved of a drawing, where a precision is asked for.
fn saved(svg: &str, svg_precision: u8) -> String {
    let (mut run, _) = SvgRun::begin(b"/in/a.pdf", b"/o", 1, svg_precision, false, false);
    run.step(SvgEvent::Looked { present: false });
    run.step(SvgEvent::Drawn { success: true });
    let asked = run.step(SvgEvent::Loaded { data: svg.as_bytes().to_vec() });
    let SvgAction::Rewrite { data, digits } = asked else { panic!("{asked:?}") };
    let next = run.step(SvgEvent::Rewritten { outcome: rewrite_svg(&data, digits) });
    let SvgAction::Save { text, .. } = next else { panic!("{next:?}") };
    text
}

#[test]
fn pages_are_written_with_the_digits_asked_for() {
    let svg = r#"<svg xmlns="http://www.w3.org/2000/svg" width="10" height="10"><path d="M 1.23456789 2 L 7 8 L 3 9 Z"/></svg>"#;
    assert!(saved(svg, 2).contains("M 1.23 2 L"));
    assert!(saved(svg, 4).contains("M 1.2346 2 L"));
    // No more than four digits are asked for.
    let (run, _) = SvgRun::begin(b"/in/a.pdf", b"/o", 1, 200, false, false);
    assert_eq!(run.digits, 4);
    assert_eq!(saved(svg, 200), saved(svg, 4));
}
