use shard::config::build_config_from_args;
use shard::mirror::ScannedFile;
use shard::tui::keys::{Key, KeyOutcome};
use shard::tui::screen::file_line;
use shard::tui::state::LOG_LIMIT;
use shard::tui::{FileStatus, Panel, TuiState};
use shard::worker::{
    begin_file, ended_file, probed_file, started, NextStep, ProgressUpdate, Tally,
};

fn s(t: &str) -> String {
    String::from(t)
}

fn scanned(rel: &str) -> ScannedFile {
    ScannedFile {
        full_path: format!("/in/{rel}").into_bytes(),
        relative_path: rel.as_bytes().to_vec(),
    }
}

fn state(files: &[&str]) -> TuiState {
    let mut st = TuiState::new(build_config_from_args(b"/in".to_vec(), b"/out".to_vec(), 150, false));
    st.set_files(files.iter().map(|f| scanned(f)).collect());
    st
}

fn rel(files: &[ScannedFile]) -> Vec<String> {
    files.iter().map(|f| String::from_utf8(f.relative_path.clone()).unwrap()).collect()
}

#[test]
fn a_new_state_is_empty() {
    let st = state(&[]);
    assert_eq!(st.selected_panel, Panel::FileList);
    assert!(!st.processing && !st.finished && !st.cancel_flag);
    assert_eq!(st.progress_label(0), "No files loaded — use Enter to scan and start");
}

#[test]
fn files_are_listed_and_selected() {
    let st = state(&["a.pdf", "b/c.pdf"]);
    assert_eq!(st.files[1].relative_path, "b/c.pdf");
    assert!(st.files.iter().all(|f| f.selected && matches!(f.status, FileStatus::Queued)));
    assert_eq!(st.selected_count(), 2);
    assert_eq!(st.progress_label(0), "2 / 2 files selected — Enter to start");
}

#[test]
fn paths_that_are_no_text_are_shown() {
    let mut st = state(&[]);
    st.set_files(vec![ScannedFile { full_path: vec![], relative_path: b"a\xff.pdf".to_vec() }]);
    assert_eq!(st.files[0].relative_path, "a\u{fffd}.pdf");
}

#[test]
fn the_cursor_goes_round() {
    let mut st = state(&["a", "b", "c"]);
    for (delta, at) in [(1, 1), (1, 2), (1, 0), (-1, 2), (-7, 1), (8, 0), (-3, 0)] {
        st.move_cursor(delta);
        assert_eq!(st.list_cursor, at);
    }
    st.toggle_panel();
    st.move_cursor(1);
    assert_eq!(st.list_cursor, 0);
    let mut empty = state(&[]);
    empty.move_cursor(-1);
    assert_eq!(empty.list_cursor, 0);
}

#[test]
fn toggles_undo_themselves() {
    let mut st = state(&["a", "b"]);
    st.toggle_panel();
    assert_eq!(st.selected_panel, Panel::Settings);
    st.toggle_selected_file();
    assert!(st.files[0].selected);
    st.toggle_panel();
    assert_eq!(st.selected_panel, Panel::FileList);
    st.toggle_selected_file();
    assert!(!st.files[0].selected);
    st.toggle_selected_file();
    assert!(st.files[0].selected);
}

#[test]
fn selected_files_are_converted() {
    let mut st = state(&["a", "b", "c"]);
    st.list_cursor = 1;
    st.toggle_selected_file();
    st.finished = true;
    st.cancel_flag = true;
    st.summary = Some(s("x"));
    assert_eq!(rel(&st.start_conversion()), vec!["a", "c"]);
    assert!(!st.finished && !st.cancel_flag && st.summary.is_none());
    st.select_all(false);
    assert!(st.start_conversion().is_empty());
    st.select_all(true);
    assert_eq!(rel(&st.start_conversion()), vec!["a", "b", "c"]);
}

#[test]
fn reports_change_the_files() {
    let mut st = state(&["a", "b", "b"]);
    st.apply_update(ProgressUpdate::Started { total: 3 });
    assert!(st.processing);
    assert_eq!(st.log_lines, vec!["Processing 3 files..."]);
    let page = |path: &str, n| ProgressUpdate::PageProgress {
        relative_path: s(path),
        current_page: n,
        total_pages: 9,
    };
    st.apply_update(page("b", 4));
    assert_eq!((st.files[1].current_page, st.files[1].total_pages), (4, 9));
    assert_eq!(st.files[2].current_page, 0);
    st.apply_update(ProgressUpdate::Processing { index: 1, total: 3, relative_path: s("b") });
    assert!(matches!(st.files[1].status, FileStatus::Processing));
    assert_eq!((st.files[1].current_page, st.files[1].total_pages), (0, 0));
    st.apply_update(ProgressUpdate::Completed { index: 1, relative_path: s("b"), page_count: 9 });
    assert!(matches!(st.files[1].status, FileStatus::Done));
    assert!(matches!(st.files[2].status, FileStatus::Queued));
    st.apply_update(ProgressUpdate::Skipped { index: 0, relative_path: s("a") });
    assert!(matches!(st.files[0].status, FileStatus::Skipped));
    st.apply_update(ProgressUpdate::Error {
        index: 0,
        relative_path: s("zz"),
        error_message: s("bad"),
    });
    assert_eq!(st.log_lines.last().unwrap(), "✗ zz: bad");
    assert_eq!((st.processed_count, st.error_count, st.skipped_count), (1, 1, 1));
    assert_eq!(st.done_count(), 3);
    assert_eq!(st.progress_label(99), "1 done, 1 errors, 1 skipped — 99%");
    st.apply_update(ProgressUpdate::Finished { success_count: 1, error_count: 1, skipped_count: 1 });
    assert!(st.finished && !st.processing);
    assert_eq!(st.progress_label(0), "Done — 1 OK, 1 errors, 1 skipped");
    st.apply_update(ProgressUpdate::Started { total: 1 });
    assert_eq!(st.done_count(), 0);
}

#[test]
fn errors_are_kept_with_their_file() {
    let mut st = state(&["a"]);
    st.apply_update(ProgressUpdate::Error {
        index: 0,
        relative_path: s("a"),
        error_message: s("bad"),
    });
    assert!(matches!(&st.files[0].status, FileStatus::Error(e) if e == "bad"));
}

#[test]
fn the_log_keeps_its_last_lines() {
    let mut st = state(&[]);
    for i in 0..250 {
        st.apply_update(ProgressUpdate::Log { message: format!("line {i}") });
    }
    assert_eq!(st.log_lines.len(), LOG_LIMIT);
    assert_eq!(st.log_lines[0], "line 150");
    assert_eq!(st.log_lines[99], "line 249");
    assert_eq!(st.log_text(5), "line 247\nline 248\nline 249");
    assert_eq!(st.log_text(2), "");
    assert_eq!(st.log_text(0), "");
    assert_eq!(st.log_text(500).lines().count(), 100);
}

#[test]
fn files_have_their_signs() {
    let mut st = state(&["a"]);
    for (status, sign) in [
        (FileStatus::Queued, " "),
        (FileStatus::Processing, "▶"),
        (FileStatus::Done, "✓"),
        (FileStatus::Error(s("x")), "✗"),
        (FileStatus::Skipped, "○"),
    ] {
        st.files[0].status = status;
        assert_eq!(file_line(&st.files[0]), format!("☑ {sign} a"));
    }
    st.files[0].selected = false;
    assert_eq!(file_line(&st.files[0]), "☐ ○ a");
}

#[test]
fn settings_are_shown() {
    let mut st = state(&["a", "b"]);
    st.toggle_selected_file();
    assert_eq!(
        st.settings(),
        "Source: /in\n\
         Output: /out\n\
         DPI:    150\n\
         Files:  2 total, 1 selected\n\
         \n\
         \n\
         Controls:\n\
         Tab      switch panel\n\
         ↑↓       navigate list\n\
         Space    toggle file\n\
         a / n    select / deselect all\n\
         Enter    start conversion\n\
         s        stop (while running)\n\
         q / Esc  quit"
    );
}

#[test]
fn keys_do_what_they_say() {
    let mut st = state(&["a", "b"]);
    assert!(matches!(st.handle_key(Key::Char('q')), KeyOutcome::Quit));
    assert!(matches!(st.handle_key(Key::Esc), KeyOutcome::Quit));
    for key in [Key::Down, Key::Char('j'), Key::Down] {
        assert!(matches!(st.handle_key(key), KeyOutcome::Stay));
    }
    assert_eq!(st.list_cursor, 1);
    st.handle_key(Key::Up);
    assert_eq!(st.list_cursor, 0);
    st.handle_key(Key::Char('k'));
    assert_eq!(st.list_cursor, 1);
    st.handle_key(Key::Char(' '));
    assert!(!st.files[1].selected);
    st.handle_key(Key::Tab);
    assert_eq!(st.selected_panel, Panel::Settings);
    assert!(matches!(st.handle_key(Key::Enter), KeyOutcome::Start(f) if rel(&f) == vec!["a"]));
    st.handle_key(Key::Char('n'));
    assert_eq!(st.selected_count(), 0);
    st.handle_key(Key::Char('a'));
    assert_eq!(st.selected_count(), 2);
    st.handle_key(Key::Char('s'));
    assert!(!st.cancel_flag);
    st.processing = true;
    assert!(matches!(st.handle_key(Key::Enter), KeyOutcome::Stay));
    st.handle_key(Key::Char('s'));
    assert!(st.cancel_flag);
    st.handle_key(Key::Other);
    st.handle_key(Key::Char('x'));
    assert!(matches!(state(&[]).handle_key(Key::Enter), KeyOutcome::Stay));
}

#[test]
fn work_starts_at_once_where_files_were_found() {
    assert!(state(&[]).start_at_once().is_none());
    assert_eq!(rel(&state(&["a"]).start_at_once().unwrap()), vec!["a"]);
    let mut st = state(&["a"]);
    st.stop_conversion();
    assert!(st.cancel_flag);
    st.finished = true;
    assert_eq!(st.progress_label(0), "Complete");
}

#[test]
fn the_summary_tells_what_the_counters_tell() {
    let results = [Ok(3), Err(shard::error::AppError::Cancelled), Ok(1)];
    let mut tally = Tally::new();
    let mut reports: Vec<Vec<ProgressUpdate>> = Vec::new();
    for (i, name) in ["a", "b", "c", "d"].iter().enumerate() {
        let (mut all, next) = begin_file(false, false, i, 4, name);
        assert_eq!(next, NextStep::Probe);
        let (more, next) = probed_file(i == 3, i, name);
        all.extend(more);
        let outcome = match next {
            NextStep::End(outcome) => outcome,
            _ => {
                let (more, outcome) = ended_file(&results[i], i, name);
                all.extend(more);
                outcome
            }
        };
        tally.record(outcome);
        reports.push(all);
    }
    assert_eq!(tally, Tally { success: 2, error: 1, skipped: 1 });

    let mut st = state(&["a", "b", "c", "d"]);
    st.apply_update(started(4));
    reports.reverse();
    let mut lists: Vec<_> = reports.into_iter().map(|r| r.into_iter()).collect();
    while lists.iter().any(|l| l.len() > 0) {
        for l in lists.iter_mut() {
            if let Some(u) = l.next() {
                st.apply_update(u);
            }
        }
    }
    assert_eq!((st.processed_count, st.error_count, st.skipped_count), (2, 1, 1));
    st.apply_update(tally.finished());
    assert_eq!(st.summary.as_deref(), Some("Done — 2 OK, 1 errors, 1 skipped"));
    assert_eq!(st.files.iter().map(|f| f.relative_path.as_str()).collect::<String>(), "abcd");
    assert!(st.files.iter().all(|f| f.selected));
}
