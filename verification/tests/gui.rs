use shard::config::OutputFormat;
use shard::error::AppError;
use shard::gui::{check_config, check_files, status_word, Controls, GuiState, ItemStatus};
use shard::mirror::ScannedFile;
use shard::updater::{found_update, update_line, UpdateInfo};
use shard::worker::ProgressUpdate;

fn s(t: &str) -> String {
    String::from(t)
}

fn files(list: &[&str]) -> Vec<ScannedFile> {
    list.iter()
        .map(|f| ScannedFile { full_path: vec![], relative_path: f.as_bytes().to_vec() })
        .collect()
}

fn window(list: &[&str]) -> GuiState {
    let mut w = GuiState::new();
    w.scan_ended(&Ok(files(list)));
    w
}

fn controls() -> Controls {
    Controls {
        output_format_index: 0,
        dpi: 150,
        quality: 75,
        adaptive_encoding: true,
        quality_target: 85.0f64.to_bits(),
        svg_precision: 4,
        svg_no_text: false,
        svg_strip_background: true,
        overwrite: false,
    }
}

#[test]
fn folders_are_chosen() {
    let mut w = GuiState::new();
    w.source_chosen(b"/in");
    assert_eq!((w.source_path.as_str(), w.status_text.as_str()), ("/in", "Source selected. Click Scan."));
    w.output_chosen(b"/out");
    assert_eq!((w.output_path.as_str(), w.status_text.as_str()), ("/out", "Output set. Ready to scan."));
}

#[test]
fn a_scan_fills_the_list() {
    let mut w = GuiState::new();
    w.begin_scan();
    assert!(w.scanning);
    assert_eq!(w.status_text, "Scanning for PDFs…");
    w.scan_ended(&Ok(files(&["a", "b"])));
    assert!(!w.scanning);
    assert_eq!(w.status_text, "Found 2 PDFs. Click Start to convert.");
    assert_eq!((w.total_files, w.selected_count, w.items.len()), (2, 2, 2));
    assert_eq!(w.items[1].relative_path, "b");
    assert_eq!(status_word(w.items[1].status), "pending");
}

#[test]
fn a_failed_scan_leaves_the_list() {
    let mut w = window(&["a"]);
    w.begin_scan();
    w.scan_ended(&Err(AppError::NoPdfFiles));
    assert!(!w.scanning);
    assert_eq!(w.status_text, "Scan error: No PDF files found in source directory");
    assert_eq!(w.items.len(), 1);
}

#[test]
fn files_are_toggled() {
    let mut w = window(&["a", "b", "c"]);
    w.toggle_file(1);
    assert!(!w.items[1].selected);
    assert_eq!(w.selected_count, 2);
    w.toggle_file(1);
    assert!(w.items[1].selected);
    w.toggle_file(-1);
    w.toggle_file(3);
    assert_eq!(w.selected_count, 3);
    w.toggle_all_files(false);
    assert_eq!(w.selected_count, 0);
    w.toggle_all_files(true);
    assert_eq!(w.selected_count, 3);
}

#[test]
fn controls_become_settings() {
    let mut w = GuiState::new();
    w.source_chosen("/ü".as_bytes());
    w.output_chosen(b"/out");
    let c = w.config(&controls());
    assert_eq!(c.source_path, "/ü".as_bytes());
    assert_eq!(c.output_path, b"/out");
    assert_eq!(c.format, OutputFormat::Webp);
    assert_eq!((c.dpi, c.quality, c.svg_precision), (150, 75, 4));
    for (index, format) in [(1, OutputFormat::Svg), (2, OutputFormat::Webp), (-1, OutputFormat::Webp)] {
        let k = Controls { output_format_index: index, ..controls() };
        assert_eq!(w.config(&k).format, format);
    }
}

#[test]
fn the_start_is_refused_for_bad_settings() {
    let c = GuiState::new().config(&controls());
    assert_eq!(
        check_config(&c, false, false).unwrap(),
        "Config error: Source path is not set, Output path is not set"
    );
    let mut w = GuiState::new();
    w.source_chosen(b"/in");
    w.output_chosen(b"/out");
    assert_eq!(check_config(&w.config(&controls()), true, true), None);
}

#[test]
fn the_start_is_refused_without_files_or_space() {
    let mut w = GuiState::new();
    w.output_chosen(b"/out");
    let c = w.config(&controls());
    assert_eq!(
        check_files(&c, &Err(AppError::Cancelled), None).unwrap(),
        "Scan error: Operation cancelled by user"
    );
    assert_eq!(check_files(&c, &Ok(vec![]), None).unwrap(), "No files");
    assert_eq!(check_files(&c, &Ok(files(&["a"])), None), None);
    assert_eq!(check_files(&c, &Ok(files(&["a"])), Some(1 << 40)), None);
    assert_eq!(
        check_files(&c, &Ok(files(&["a"])), Some(5)).unwrap(),
        "Disk space: Insufficient disk space: have 5 bytes, need approximately 26041656 bytes on \"/out\""
    );
}

#[test]
fn the_work_begins_and_stops() {
    let mut w = window(&["a"]);
    w.cancel_flag = true;
    w.show_dialog = true;
    w.error_count = 3;
    w.begin_work(7, 150);
    assert_eq!(w.status_text, "Processing 7 files at 150 DPI…");
    assert!(w.processing && !w.cancel_flag && !w.show_dialog);
    assert_eq!(w.error_count, 0);
    w.stop_conversion();
    assert!(w.cancel_flag);
    w.say(s("hello"));
    assert_eq!(w.status_text, "hello");
}

#[test]
fn reports_are_shown() {
    let mut w = window(&["a", "b", "c"]);
    w.begin_work(3, 150);
    assert!(!w.poll(&vec![ProgressUpdate::Started { total: 3 }]));
    assert_eq!(w.status_text, "Processing 0/3…");
    let processing = |p: &str| ProgressUpdate::Processing { index: 0, total: 3, relative_path: s(p) };
    assert!(w.poll(&vec![processing("a")]));
    assert_eq!(w.status_text, "Processing: a  0/3  0%");
    assert_eq!(status_word(w.items[0].status), "processing");
    assert!(!w.poll(&vec![processing("zz")]));
    assert!(w.poll(&vec![
        ProgressUpdate::Completed { index: 0, relative_path: s("a"), page_count: 2 },
        ProgressUpdate::PageProgress { relative_path: s("b"), current_page: 4, total_pages: 5 },
    ]));
    assert_eq!(w.status_text, "Processing: b, Converted page 4/5  1/3  33%");
    assert_eq!(status_word(w.items[0].status), "done");
    assert_eq!((w.items[1].current_page, w.items[1].total_pages), (4, 5));
    w.poll(&vec![ProgressUpdate::Completed { index: 1, relative_path: s("b"), page_count: 5 }]);
    assert_eq!(w.status_text, "Done 2/3: b");
    w.poll(&vec![ProgressUpdate::Skipped { index: 2, relative_path: s("c") }]);
    assert_eq!(w.status_text, "Skipped: c");
    assert_eq!(status_word(w.items[2].status), "skipped");
    w.poll(&vec![ProgressUpdate::Error {
        index: 2,
        relative_path: s("c"),
        error_message: s("bad"),
    }]);
    assert_eq!(w.status_text, "Error: c");
    assert_eq!((w.items[2].status, w.items[2].error_message.as_str()), (ItemStatus::Error, "bad"));
    assert!(!w.poll(&vec![ProgressUpdate::Log { message: s("x") }]));
    assert_eq!(w.status_text, "Error: c");
    w.cancel_flag = true;
    w.poll(&vec![
        ProgressUpdate::Finished { success_count: 2, error_count: 1, skipped_count: 1 },
        ProgressUpdate::Skipped { index: 2, relative_path: s("c") },
    ]);
    assert_eq!(w.status_text, "Complete — 2/3 OK, 1 errors, 2 skipped");
    assert!(w.show_dialog && !w.processing && !w.cancel_flag);
}

#[test]
fn full_counters_have_no_room() {
    let mut w = window(&["a"]);
    let done = || ProgressUpdate::Completed { index: 0, relative_path: s("a"), page_count: 1 };
    let skipped = || ProgressUpdate::Skipped { index: 0, relative_path: s("a") };
    let page =
        || ProgressUpdate::PageProgress { relative_path: s("a"), current_page: 1, total_pages: 1 };
    assert!(w.has_room(&vec![done(), skipped(), page()]));
    w.processed_count = i32::MAX - 1;
    assert!(w.has_room(&vec![done(), skipped()]));
    assert!(!w.has_room(&vec![done(), done()]));
    assert!(!w.has_room(&vec![page()]));
    w.processed_count = 21_474_835;
    assert!(w.has_room(&vec![done(), page()]));
    assert!(!w.has_room(&vec![done(), done(), page()]));
    w.skipped_count = i32::MAX;
    assert!(w.has_room(&vec![done()]));
    assert!(!w.has_room(&vec![skipped()]));
    assert!(w.has_room(&vec![]));
}

#[test]
fn reports_may_come_bit_by_bit() {
    let list = || {
        vec![
            ProgressUpdate::Started { total: 2 },
            ProgressUpdate::Processing { index: 0, total: 2, relative_path: s("a") },
            ProgressUpdate::Completed { index: 0, relative_path: s("a"), page_count: 2 },
        ]
    };
    let mut at_once = window(&["a", "b"]);
    at_once.poll(&list());
    let mut in_parts = window(&["a", "b"]);
    for u in list() {
        in_parts.take_update(&u);
    }
    assert_eq!(format!("{at_once:?}"), format!("{in_parts:?}"));
}

#[test]
fn newer_releases_are_told() {
    assert!(found_update(None).is_none());
    assert_eq!(update_line(&None), "App is up to date");
    let info = found_update(Some(s("2.0.1")));
    assert_eq!(update_line(&info), "Update available: v2.0.1");
    let mut w = GuiState::new();
    let info: UpdateInfo = info.unwrap().clone();
    w.update_found(&info);
    assert_eq!(w.update_version.as_deref(), Some("2.0.1"));
}
