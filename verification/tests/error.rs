use shard::error::AppError;

fn s(t: &str) -> String {
    String::from(t)
}

#[test]
fn errors_are_put_in_words() {
    assert_eq!(AppError::Io(s("x")).message(), "IO error: x");
    assert_eq!(AppError::Walkdir(s("x")).message(), "Walkdir error: x");
    assert_eq!(AppError::Pdf(s("x")).message(), "PDF processing error: x");
    assert_eq!(AppError::Webp(s("x")).message(), "WebP encoding error: x");
    assert_eq!(AppError::Image(s("x")).message(), "Image error: x");
    assert_eq!(AppError::InvalidPath(s("x")).message(), "Invalid path: x");
    assert_eq!(AppError::NoPdfFiles.message(), "No PDF files found in source directory");
    assert_eq!(
        AppError::SourceNotFound(b"/a".to_vec()).message(),
        "Source directory does not exist: /a"
    );
    assert_eq!(AppError::SourceNotDir(b"/a".to_vec()).message(), "Source is not a directory: /a");
    assert_eq!(AppError::Custom(s("as it is")).message(), "as it is");
    assert_eq!(AppError::Cancelled.message(), "Operation cancelled by user");
    assert_eq!(AppError::LogError(s("x")).message(), "Failed to write error log: x");
}

#[test]
fn paths_in_errors_are_quoted_or_shown() {
    let e = AppError::InsufficientDiskSpace { need: 200, available: 100, path: b"/o \"u\"".to_vec() };
    assert_eq!(
        e.message(),
        format!(
            "Insufficient disk space: have 100 bytes, need approximately 200 bytes on {:?}",
            std::path::Path::new("/o \"u\"")
        )
    );
    let quoted: [(&[u8], &str); 6] = [
        (b"/a\xffb", r#""/a\xFFb""#),
        (b"\xc3\xa9/\xe2\x82", r#""é/\xE2\x82""#),
        (b"/o\n\"\xf0\x9f", r#""/o\n\"\xF0\x9F""#),
        (b"\x80", r#""\x80""#),
        (b"", r#""""#),
        (b"/a\xed\xa0\x80b", r#""/a\xED\xA0\x80b""#),
    ];
    for (path, shown) in quoted {
        let e = AppError::InsufficientDiskSpace { need: 2, available: 1, path: path.to_vec() };
        assert_eq!(
            e.message(),
            format!("Insufficient disk space: have 1 bytes, need approximately 2 bytes on {shown}")
        );
    }
    let e = AppError::SourceNotFound(b"/a\xff".to_vec());
    assert_eq!(e.message(), "Source directory does not exist: /a\u{fffd}");
}

#[test]
fn texts_become_errors() {
    assert!(matches!(AppError::from("x"), AppError::Custom(m) if m == "x"));
    assert!(matches!(AppError::from(s("y")), AppError::Custom(m) if m == "y"));
}
