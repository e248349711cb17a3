use shard::report::{
    shorten, sum_webp_bytes, BarAction, RunDisplay, SizeTotals, SizedName, LIST_LABEL, TABLE_LABEL,
};
use shard::worker::ProgressUpdate;

fn s(t: &str) -> String {
    String::from(t)
}

fn processing(path: &str) -> ProgressUpdate {
    ProgressUpdate::Processing { index: 0, total: 3, relative_path: s(path) }
}

fn completed(path: &str) -> ProgressUpdate {
    ProgressUpdate::Completed { index: 0, relative_path: s(path), page_count: 4 }
}

fn on_page(path: &str) -> ProgressUpdate {
    ProgressUpdate::PageProgress { relative_path: s(path), current_page: 1, total_pages: 4 }
}

fn step(d: &mut RunDisplay, u: ProgressUpdate) -> Vec<String> {
    d.step(u).iter().map(|a: &BarAction| format!("{a:?}")).collect()
}

#[test]
fn bars_follow_a_file() {
    let mut d = RunDisplay::new();
    assert_eq!(step(&mut d, ProgressUpdate::Started { total: 3 }), vec!["SetTotal { total: 3 }"]);
    assert_eq!(step(&mut d, on_page("x/a.pdf")), Vec::<String>::new());
    assert_eq!(
        step(&mut d, processing("x/a.pdf")),
        vec![r#"Open { path: "x/a.pdf", name: "a.pdf" }"#]
    );
    assert_eq!(
        step(&mut d, on_page("x/a.pdf")),
        vec![r#"Move { path: "x/a.pdf", current_page: 1, total_pages: 4, message: "page 1/4" }"#]
    );
    assert_eq!(
        step(&mut d, completed("x/a.pdf")),
        vec![
            r#"Finish { path: "x/a.pdf", message: "✓ 4 pages" }"#,
            r#"Advance { message: "1 done, 0 errors, 0 skipped" }"#,
        ]
    );
    assert_eq!(
        step(&mut d, completed("x/a.pdf")),
        vec![r#"Advance { message: "2 done, 0 errors, 0 skipped" }"#]
    );
    assert!(d.open.is_empty());
}

#[test]
fn skipped_and_failed_files_close_their_bars() {
    let mut d = RunDisplay::new();
    step(&mut d, processing("a"));
    step(&mut d, processing(".."));
    step(&mut d, processing("a"));
    assert_eq!(d.open, vec!["a", ".."]);
    assert_eq!(
        step(&mut d, ProgressUpdate::Skipped { index: 0, relative_path: s("a") }),
        vec![r#"Close { path: "a" }"#, r#"Advance { message: "0 done, 0 errors, 1 skipped" }"#]
    );
    let error = ProgressUpdate::Error { index: 1, relative_path: s(".."), error_message: s("bad") };
    assert_eq!(
        step(&mut d, error),
        vec![
            r#"Fail { path: ".." }"#,
            r#"PrintError { name: "..", error: "bad" }"#,
            r#"Advance { message: "0 done, 1 errors, 1 skipped" }"#,
        ]
    );
    assert_eq!(step(&mut d, ProgressUpdate::Log { message: s("x") }), Vec::<String>::new());
    let finished =
        ProgressUpdate::Finished { success_count: 0, error_count: 1, skipped_count: 1 };
    assert_eq!(step(&mut d, finished), vec!["Complete"]);
    assert_eq!((d.ok, d.err, d.skipped), (0, 1, 1));
}

#[test]
fn counts_do_not_depend_on_the_order() {
    let reports = |order: &[usize]| {
        let mut d = RunDisplay::new();
        for i in order {
            match i {
                0 => step(&mut d, processing("a")),
                1 => step(&mut d, completed("a")),
                2 => step(&mut d, processing("b")),
                _ => step(&mut d, ProgressUpdate::Skipped { index: 1, relative_path: s("b") }),
            };
        }
        (d.ok, d.err, d.skipped)
    };
    assert_eq!(reports(&[0, 1, 2, 3]), reports(&[2, 0, 3, 1]));
}

#[test]
fn long_labels_are_cut() {
    let exact = "x".repeat(55);
    assert_eq!(shorten(&exact, LIST_LABEL), exact);
    let long = format!("abc{}", "y".repeat(53));
    assert_eq!(shorten(&long, LIST_LABEL), format!("…c{}", "y".repeat(53)));
    let exact = "x".repeat(47);
    assert_eq!(shorten(&exact, TABLE_LABEL), exact);
    assert_eq!(shorten(&format!("{exact}z"), TABLE_LABEL), format!("…{}z", "x".repeat(45)));
    let wide = format!("ab{}", "é".repeat(27));
    assert_eq!(shorten(&wide, LIST_LABEL), format!("…{}", "é".repeat(27)));
}

fn sized(name: &str, size: Option<u64>) -> SizedName {
    SizedName { name: name.as_bytes().to_vec(), size }
}

#[test]
fn sizes_of_images_are_added_up() {
    let files = vec![
        sized("page-001.webp", Some(10)),
        sized("page-002.webp", Some(5)),
        sized("page-003.webp", None),
        sized("page-004.WEBP", Some(100)),
        sized("notes.txt", Some(100)),
    ];
    assert_eq!(sum_webp_bytes(&files), Some(15));
    assert_eq!(sum_webp_bytes(&vec![]), Some(0));
    let huge = vec![sized("a.webp", Some(u64::MAX)), sized("b.webp", Some(1))];
    assert_eq!(sum_webp_bytes(&huge), None);
}

#[test]
fn totals_are_kept_while_they_fit() {
    let mut t = SizeTotals::new();
    assert!(t.add_document(100, 20));
    assert!(t.add_document(1, u64::MAX - 20));
    assert!(!t.add_document(0, 1));
    assert_eq!(t, SizeTotals { pdf: 101, webp: u64::MAX });
}
