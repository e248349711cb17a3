use shard::config::{build_config_from_args, OutputFormat};
use shard::converter::{
    convert_page, convert_pdf, keeps_page, page_paths, report_page, Job, PageQuality, PageStep,
    HIGHEST_QUALITY, LOWEST_QUALITY,
};
use shard::encode::EncodeStats;
use shard::error::AppError;
use shard::render::PageData;

#[test]
fn test_page_format() {
    assert_eq!(b"/out/page-001.webp".to_vec(), page_paths(b"/out", 1, OutputFormat::Webp).path);
    assert_eq!(b"/out/page-042.webp".to_vec(), page_paths(b"/out", 42, OutputFormat::Webp).path);
}

#[test]
fn drawings_have_paths_of_their_own() {
    let p = page_paths(b"/out/doc", 3, OutputFormat::Svg);
    assert_eq!(p.path, b"/out/doc/page-003.svg");
    assert_eq!(p.temp_path, b"/out/doc/page-003.svg.raw");
}

#[test]
fn settings_choose_the_way() {
    let mut c = build_config_from_args(b"/in".to_vec(), b"/out".to_vec(), 120, true);
    assert_eq!(
        convert_pdf(&c),
        Job::Webp {
            dpi: 120,
            quality: 75,
            adaptive: true,
            quality_target: 85.0f64.to_bits(),
            overwrite: true
        }
    );
    c.format = OutputFormat::Svg;
    c.svg_precision = 9;
    assert_eq!(convert_pdf(&c), Job::Svg { digits: 4, strip_background: true, overwrite: true });
}

#[test]
fn pages_that_are_there_stay() {
    assert!(keeps_page(true, false));
    assert!(!keeps_page(true, true));
    assert!(!keeps_page(false, false));
    assert!(!keeps_page(false, true));
}

#[test]
fn a_rendered_page_goes_its_way() {
    let page = PageData { page_num: 2, rgba_data: vec![200; 16 * 16 * 4], width: 16, height: 16 };
    assert!(matches!(convert_page(&page, b"/o", true, false, false, 75), PageStep::Keep));
    assert!(matches!(
        convert_page(&page, b"/o", true, true, true, 75),
        PageStep::Search { path } if path == b"/o/page-002.webp"
    ));
    assert!(matches!(
        convert_page(&page, b"/o", false, false, false, 75),
        PageStep::Write(w) if w.path == b"/o/page-002.webp" && w.bytes.starts_with(b"RIFF")
    ));
    let empty = PageData { page_num: 2, rgba_data: vec![], width: 0, height: 0 };
    assert!(matches!(convert_page(&empty, b"/o", false, false, false, 75), PageStep::NotEncoded));
    let bad = PageData { page_num: 2, rgba_data: vec![], width: 16, height: 16 };
    assert!(matches!(
        convert_page(&bad, b"/o", false, false, false, 75),
        PageStep::Fail(AppError::Webp(t)) if t == "Bad buffer 16x16"
    ));
    assert_eq!((LOWEST_QUALITY, HIGHEST_QUALITY), (40, 95));
}

#[test]
fn a_written_page_is_reported() {
    let r = report_page("a.pdf", 2, 9, &None);
    assert_eq!(
        format!("{r:?}"),
        r#"[PageProgress { relative_path: "a.pdf", current_page: 2, total_pages: 9 }]"#
    );
}

#[test]
fn a_searched_page_is_reported_with_its_quality() {
    for (quality, size) in [(67.5f32, 2047usize), (68.5, 2048), (40.0, 0), (53.75, 999_999)] {
        let stats = EncodeStats {
            quality_used: (quality * 64.0) as u32,
            ssimulacra2_score: 0,
            file_size: size,
        };
        let found = Some(PageQuality { stats, score: format!("{:.1}", 86.25) });
        let r = report_page("a.pdf", 2, 9, &found);
        let line = format!("  page 2: q={:.0} ssim2={:.1} ({} KB)", quality, 86.25, size / 1024);
        assert_eq!(
            format!("{r:?}"),
            format!(
                "[Log {{ message: {line:?} }}, PageProgress {{ relative_path: \"a.pdf\", current_page: 2, total_pages: 9 }}]"
            )
        );
    }
}
