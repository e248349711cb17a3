use shard::error::AppError;
use shard::worker::{
    begin_file, check_disk_space, checked_estimate, ended_file, error_log_entry, error_log_path,
    estimate_required_bytes, probed_file, started, step_file, FileEvent, FileOutcome, NextStep,
    ProgressUpdate, Tally,
};

fn show(list: &[ProgressUpdate]) -> Vec<String> {
    list.iter().map(|u| format!("{u:?}")).collect()
}

#[test]
fn test_estimate_bytes() {
    let est = estimate_required_bytes(100, 10, 150);
    assert!(est > 0);
    assert!(est < u64::MAX);
}

/// The estimate as floating-point numbers make it.
fn estimate_by_floats(file_count: usize, pages: u32, dpi: u32) -> u64 {
    let scale = (dpi as f64 / 72.0).powi(2);
    let bytes_per_page = (scale * 500_000.0) as u64;
    (file_count as u64 * pages as u64 * bytes_per_page * 120) / 100
}

#[test]
fn estimates_are_exact() {
    assert_eq!(estimate_required_bytes(1, 1, 72), 600_000);
    assert_eq!(estimate_required_bytes(100, 10, 144), 2_400_000_000);
    assert_eq!(estimate_required_bytes(100, 10, 150), 2_604_165_600);
    assert_eq!(estimate_required_bytes(0, 10, 150), 0);
    for dpi in 0..2000 {
        assert_eq!(estimate_required_bytes(37, 10, dpi), estimate_by_floats(37, 10, dpi), "{dpi}");
    }
}

#[test]
fn estimates_that_do_not_fit_are_told() {
    assert_eq!(checked_estimate(1, 1, 72), Some(600_000));
    assert_eq!(checked_estimate(usize::MAX, 10, 150), None);
    assert_eq!(checked_estimate(1, 1, u32::MAX), None);
    assert_eq!(checked_estimate(0, 1, u32::MAX), Some(0));
}

#[test]
fn more_files_need_more_space() {
    assert!(estimate_required_bytes(3, 10, 150) <= estimate_required_bytes(4, 10, 150));
    assert!(estimate_required_bytes(3, 10, 150) <= estimate_required_bytes(3, 11, 150));
    assert!(estimate_required_bytes(3, 10, 150) <= estimate_required_bytes(3, 10, 151));
}

#[test]
fn space_is_checked_against_the_estimate() {
    assert!(check_disk_space(b"/out", 1, 1, 72, Some(600_000)).is_ok());
    assert!(check_disk_space(b"/out", 1, 1, 72, None).is_ok());
    assert!(matches!(
        check_disk_space(b"/out", 1, 1, 72, Some(599_999)),
        Err(AppError::InsufficientDiskSpace { need: 600_000, available: 599_999, path })
            if path == b"/out"
    ));
}

#[test]
fn a_cancelled_run_passes_files_by() {
    let (reports, next) = begin_file(true, false, 3, 9, "a.pdf");
    assert!(reports.is_empty());
    assert_eq!(next, NextStep::End(FileOutcome::NotReached));
}

#[test]
fn a_converted_file_is_skipped() {
    let (reports, next) = begin_file(false, false, 3, 9, "a.pdf");
    assert_eq!(
        show(&reports),
        vec![r#"Processing { index: 3, total: 9, relative_path: "a.pdf" }"#]
    );
    assert_eq!(next, NextStep::Probe);
    let (reports, next) = probed_file(true, 3, "a.pdf");
    assert_eq!(show(&reports), vec![r#"Skipped { index: 3, relative_path: "a.pdf" }"#]);
    assert_eq!(next, NextStep::End(FileOutcome::Skipped));
}

#[test]
fn a_converted_file_is_converted_again_where_files_are_overwritten() {
    let (reports, next) = begin_file(false, true, 0, 1, "a.pdf");
    assert_eq!(
        show(&reports),
        vec![
            r#"Processing { index: 0, total: 1, relative_path: "a.pdf" }"#,
            r#"Log { message: "⟳ a.pdf" }"#,
        ]
    );
    assert_eq!(next, NextStep::Convert);
}

#[test]
fn the_end_of_a_file_is_reported() {
    let (reports, next) = probed_file(false, 2, "b.pdf");
    assert_eq!(show(&reports), vec![r#"Log { message: "⟳ b.pdf" }"#]);
    assert_eq!(next, NextStep::Convert);
    let (reports, outcome) = ended_file(&Ok(5), 2, "b.pdf");
    assert_eq!(
        show(&reports),
        vec![
            r#"Completed { index: 2, relative_path: "b.pdf", page_count: 5 }"#,
            r#"Log { message: "✓ b.pdf (5 pages)" }"#,
        ]
    );
    assert_eq!(outcome, FileOutcome::Done);
    let (reports, outcome) = ended_file(&Err(AppError::NoPdfFiles), 2, "b.pdf");
    assert_eq!(
        show(&reports),
        vec![
            r#"Error { index: 2, relative_path: "b.pdf", error_message: "No PDF files found in source directory" }"#,
            r#"Log { message: "✗ b.pdf: No PDF files found in source directory" }"#,
        ]
    );
    assert_eq!(outcome, FileOutcome::Failed);
}

#[test]
fn ends_are_tallied() {
    let mut t = Tally::new();
    for o in [
        FileOutcome::Done,
        FileOutcome::Failed,
        FileOutcome::Done,
        FileOutcome::NotReached,
        FileOutcome::Skipped,
    ] {
        t.record(o);
    }
    assert_eq!(t, Tally { success: 2, error: 1, skipped: 1 });
    assert_eq!(
        show(&[started(5), t.finished()]),
        vec![
            "Started { total: 5 }",
            "Finished { success_count: 2, error_count: 1, skipped_count: 1 }",
        ]
    );
}

#[test]
fn errors_are_logged_by_line() {
    assert_eq!(error_log_path(b"/out"), b"/out/logs/errors.txt");
    assert_eq!(
        error_log_entry("2024-06-15 00:00:00", "a.pdf", "broken"),
        "[2024-06-15 00:00:00] a.pdf: broken\n"
    );
}

#[test]
fn files_are_carried_to_their_ends() {
    let carry = |cancelled: bool, overwrite: bool, converted: bool, fails: bool| {
        let mut event = FileEvent::Reached { cancelled };
        let mut all = Vec::new();
        loop {
            let (reports, next) = step_file(&event, overwrite, 1, 4, "c.pdf");
            all.extend(show(&reports));
            event = match next {
                NextStep::Probe => FileEvent::Probed { converted },
                NextStep::Convert => FileEvent::Converted {
                    result: if fails { Err(AppError::NoPdfFiles) } else { Ok(2) },
                },
                NextStep::End(outcome) => return (all, outcome),
            };
        }
    };
    let begun = r#"Processing { index: 1, total: 4, relative_path: "c.pdf" }"#;
    let line = r#"Log { message: "⟳ c.pdf" }"#;
    let done = r#"Completed { index: 1, relative_path: "c.pdf", page_count: 2 }"#;
    let done_line = r#"Log { message: "✓ c.pdf (2 pages)" }"#;
    assert_eq!(carry(true, false, false, false), (vec![], FileOutcome::NotReached));
    for (overwrite, converted) in [(true, true), (true, false), (false, false)] {
        let (all, outcome) = carry(false, overwrite, converted, false);
        assert_eq!(all, vec![begun, line, done, done_line]);
        assert_eq!(outcome, FileOutcome::Done);
    }
    let (all, outcome) = carry(false, false, true, false);
    assert_eq!(all, vec![begun, r#"Skipped { index: 1, relative_path: "c.pdf" }"#]);
    assert_eq!(outcome, FileOutcome::Skipped);
    let (all, outcome) = carry(false, false, false, true);
    assert_eq!(all.len(), 4);
    assert_eq!(outcome, FileOutcome::Failed);
}
