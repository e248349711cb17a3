use shard::config::OutputFormat;
use shard::error::AppError;
use shard::mirror::{
    compare_names, is_converted, mirror_doc_dir, mirror_page_path, page_file_name, same_name,
    scan_pdf_files, temp_path_for, DirEntry, DirListing, NameOrder, WalkStep,
};

#[test]
fn test_mirror_page_path_unix() {
    let result = mirror_page_path(b"/output", b"physics/2019/en/pp1.pdf", 1);
    assert_eq!(result, b"/output/physics/2019/en/pp1/page-001.webp");
}

#[test]
fn test_mirror_page_path_page_12() {
    let result = mirror_page_path(b"/out", b"doc.pdf", 12);
    assert_eq!(result, b"/out/doc/page-012.webp");
}

#[test]
fn test_mirror_doc_dir() {
    let result = mirror_doc_dir(b"/output", b"physics/2019/en/pp1.pdf");
    assert_eq!(result, b"/output/physics/2019/en/pp1");
}

#[test]
fn test_mirror_doc_dir_root_level() {
    let result = mirror_doc_dir(b"/output", b"doc.pdf");
    assert_eq!(result, b"/output/doc");
}

#[test]
fn test_is_converted_no_dir() {
    let dir = mirror_doc_dir(b"/tmp/nonexistent_output", b"test.pdf");
    let listing = DirListing { dir, entries: None };
    assert!(!is_converted(b"/tmp/nonexistent_output", b"test.pdf", &listing));
}

fn entry(path: &str, is_file: bool) -> WalkStep {
    WalkStep::Entry { path: path.as_bytes().to_vec(), is_file }
}

fn text(v: &[u8]) -> String {
    String::from_utf8(v.to_vec()).unwrap()
}

#[test]
fn pdf_files_are_picked_out_of_a_walk() {
    let walk = vec![
        entry("/src", false),
        entry("/src/a.pdf", true),
        entry("/src/b.txt", true),
        entry("/src/c.pdf", false),
        entry("/src/d/E.PDF", true),
        entry("/src/pdf", true),
    ];
    let files = scan_pdf_files(b"/src", b"/home", true, true, &walk).unwrap();
    let found: Vec<_> = files.iter().map(|f| (text(&f.full_path), text(&f.relative_path))).collect();
    assert_eq!(
        found,
        vec![
            (String::from("/src/a.pdf"), String::from("a.pdf")),
            (String::from("/src/d/E.PDF"), String::from("d/E.PDF")),
        ]
    );
    assert_eq!(files[1].clone().relative_path, b"d/E.PDF");
}

#[test]
fn a_scan_fails_for_each_of_its_reasons() {
    let walk = vec![entry("/src/a.txt", true)];
    assert!(matches!(
        scan_pdf_files(b"/src", b"/home", false, false, &walk),
        Err(AppError::SourceNotFound(p)) if p == b"/src"
    ));
    assert!(matches!(
        scan_pdf_files(b"/src", b"/home", true, false, &walk),
        Err(AppError::SourceNotDir(p)) if p == b"/src"
    ));
    assert!(matches!(scan_pdf_files(b"/src", b"/home", true, true, &walk), Err(AppError::NoPdfFiles)));
    let walk = vec![
        entry("/src/a.pdf", true),
        WalkStep::Failed(String::from("no permission")),
        WalkStep::Failed(String::from("later")),
    ];
    assert!(matches!(
        scan_pdf_files(b"/src", b"/home", true, true, &walk),
        Err(AppError::Walkdir(e)) if e == "no permission"
    ));
}

#[test]
fn names_are_ordered_without_regard_to_case() {
    for a in ["a", "B", "ab", "Z", "z", "é", "", "a.pdf", "A.PDF"] {
        for b in ["a", "B", "ab", "Z", "z", "é", "", "a.pdf", "A.PDF"] {
            let expected = match a.to_ascii_lowercase().cmp(&b.to_ascii_lowercase()) {
                std::cmp::Ordering::Less => NameOrder::Before,
                std::cmp::Ordering::Equal => NameOrder::Same,
                std::cmp::Ordering::Greater => NameOrder::Behind,
            };
            assert_eq!(compare_names(a.as_bytes(), b.as_bytes()), expected, "{a:?} {b:?}");
            assert_eq!(same_name(a.as_bytes(), b.as_bytes()), a.eq_ignore_ascii_case(b));
        }
    }
}

#[test]
fn folders_of_documents_agree_with_std() {
    for root in ["/out", "out/", ""] {
        for rel in ["a.pdf", "x/y/z.pdf", "a", "..", "x/../a.pdf", "a.b.pdf", ".pdf", "", "/abs.pdf"] {
            let p = std::path::Path::new(rel);
            let parent = p.parent().unwrap_or(std::path::Path::new(""));
            let stem = p.file_stem().unwrap_or_default();
            let expected = std::path::Path::new(root).join(parent).join(stem);
            let dir = mirror_doc_dir(root.as_bytes(), rel.as_bytes());
            assert_eq!(text(&dir), expected.to_str().unwrap(), "{root:?} {rel:?}");
        }
    }
}

fn file(name: &str, is_file: bool) -> DirEntry {
    DirEntry { name: name.as_bytes().to_vec(), is_file }
}

#[test]
fn a_folder_named_like_a_page_does_not_count() {
    let dir = mirror_doc_dir(b"/out", b"doc.pdf");
    let entries = vec![file("page-001.webp", false), file("x.txt", true)];
    let mut seen = DirListing { dir, entries: Some(entries) };
    assert!(!is_converted(b"/out", b"doc.pdf", &seen));
    if let Some(entries) = seen.entries.as_mut() {
        entries.push(file("page-002.webp", true));
    }
    assert!(is_converted(b"/out", b"doc.pdf", &seen));
}

#[test]
fn a_walk_from_a_relative_folder_gives_absolute_paths() {
    let walk = vec![entry("./in/a.pdf", true), entry("./in/b/c.pdf", true)];
    let files = scan_pdf_files(b"./in", b"/home/me", true, true, &walk).unwrap();
    let found: Vec<_> = files.iter().map(|f| (text(&f.full_path), text(&f.relative_path))).collect();
    assert_eq!(
        found,
        vec![
            (String::from("/home/me/./in/a.pdf"), String::from("a.pdf")),
            (String::from("/home/me/./in/b/c.pdf"), String::from("b/c.pdf")),
        ]
    );
    for f in &files {
        let by_source = std::path::Path::new("/home/me/./in").join(text(&f.relative_path));
        assert_eq!(std::path::Path::new(&text(&f.full_path)), by_source);
        assert!(std::path::Path::new(&text(&f.full_path)).is_absolute());
    }
}

#[test]
fn a_written_page_counts_as_converted() {
    let dir = mirror_doc_dir(b"/out", b"a/doc.pdf");
    let names = |list: &[&str]| Some(list.iter().map(|n| file(n, true)).collect::<Vec<_>>());
    let seen = |entries| DirListing { dir: dir.clone(), entries };
    assert!(is_converted(b"/out", b"a/doc.pdf", &seen(names(&["x", "page-001.webp"]))));
    assert!(is_converted(b"/out", b"a/doc.pdf", &seen(names(&["P.WEBP"]))));
    assert!(!is_converted(b"/out", b"a/doc.pdf", &seen(names(&["page-001.webp.tmp", "webp"]))));
    assert!(!is_converted(b"/out", b"a/doc.pdf", &seen(names(&[]))));
    let elsewhere = DirListing { dir: b"/out/b".to_vec(), entries: names(&["page-001.webp"]) };
    assert!(!is_converted(b"/out", b"a/doc.pdf", &elsewhere));
}

#[test]
fn pages_have_names_of_their_own() {
    assert_eq!(page_file_name(7, OutputFormat::Webp), "page-007.webp");
    assert_eq!(page_file_name(7, OutputFormat::Svg), "page-007.svg");
    assert_eq!(page_file_name(1234, OutputFormat::Webp), "page-1234.webp");
    let all: std::collections::BTreeSet<_> =
        (0..2000).map(|n| page_file_name(n, OutputFormat::Webp)).collect();
    assert_eq!(all.len(), 2000);
}

#[test]
fn unfinished_pages_have_another_name() {
    assert_eq!(temp_path_for(b"/o/page-001.webp", OutputFormat::Webp), b"/o/page-001.webp.tmp");
    assert_eq!(temp_path_for(b"/o/page-001.svg", OutputFormat::Svg), b"/o/page-001.svg.raw");
}

#[test]
fn pages_lie_in_the_folder_of_their_document() {
    for n in [1, 12, 1000] {
        let path = mirror_page_path(b"/out", b"x/doc.pdf", n);
        assert_eq!(
            shard::path::parent_of(&path),
            Some(mirror_doc_dir(b"/out", b"x/doc.pdf"))
        );
        assert_eq!(
            shard::path::file_name_of(&path),
            Some(page_file_name(n, OutputFormat::Webp).into_bytes())
        );
    }
}

#[test]
fn an_ordered_walk_gives_an_ordered_list() {
    let walk = vec![
        entry("/s/A", false),
        entry("/s/A/x.pdf", true),
        entry("/s/A/Y.pdf", true),
        entry("/s/b.pdf", true),
        entry("/s/C.txt", true),
        entry("/s/d", false),
        entry("/s/d/a.pdf", true),
    ];
    let files = scan_pdf_files(b"/s", b"/home", true, true, &walk).unwrap();
    let rel: Vec<_> = files.iter().map(|f| text(&f.relative_path)).collect();
    assert_eq!(rel, vec!["A/x.pdf", "A/Y.pdf", "b.pdf", "d/a.pdf"]);
    let mut sorted = rel.clone();
    sorted.sort_by_key(|r| r.to_ascii_lowercase());
    assert_eq!(rel, sorted);
}
