use shard::error::AppError;
use shard::render::{
    get_pdf_page_count, number_pages, parse_page_count, render_failure, select_page_images, Bitmap,
    PopplerRenderer,
};

fn names(list: &[&str]) -> Vec<Vec<u8>> {
    list.iter().map(|n| n.as_bytes().to_vec()).collect()
}

#[test]
fn page_images_are_picked_and_ordered() {
    let found = select_page_images(
        b"a.pdf",
        &names(&["page-10.png", "page-02.png", "notes.png", "page-01.txt", "page.png", "page-1.PNG"]),
    );
    assert_eq!(found.unwrap(), names(&["page-02.png", "page-10.png", "page.png"]));
}

#[test]
fn no_page_images_is_an_error() {
    let e = select_page_images(b"/x/a.pdf", &names(&["other.png"]));
    assert!(matches!(e, Err(AppError::Pdf(t)) if t == "No pages rendered from '/x/a.pdf'."));
}

#[test]
fn pages_are_numbered_from_one() {
    let images = vec![
        Bitmap { rgba_data: vec![1; 4], width: 1, height: 1 },
        Bitmap { rgba_data: vec![2; 8], width: 2, height: 1 },
    ];
    let pages = number_pages(images);
    assert_eq!(pages.iter().map(|p| p.page_num).collect::<Vec<_>>(), vec![1, 2]);
    assert_eq!(pages[1].rgba_data, vec![2; 8]);
    assert_eq!((pages[1].width, pages[1].height), (2, 1));
}

#[test]
fn failures_of_the_renderer_are_told() {
    let e = render_failure(b"a.pdf", "  broken file \n");
    assert!(matches!(e, AppError::Pdf(t) if t == "pdftoppm failed for 'a.pdf': broken file"));
    let e = render_failure(b"a.pdf", " \n");
    assert!(matches!(e, AppError::Pdf(t) if t == "pdftoppm failed for 'a.pdf': no error output"));
}

#[test]
fn page_counts_are_read() {
    assert_eq!(get_pdf_page_count(b"Title: x\nPages:          12\nSize: 3\n").unwrap(), 12);
    assert_eq!(get_pdf_page_count(b"Title: \xff\r\nPages: 7\r\n").unwrap(), 7);
    assert_eq!(parse_page_count("Pages: 3\nPages: 4").unwrap(), 3);
}

#[test]
fn unreadable_page_counts_are_errors() {
    assert!(matches!(
        get_pdf_page_count(b"Pages: many\n"),
        Err(AppError::Pdf(t)) if t == "Failed to parse page count"
    ));
    assert!(matches!(
        get_pdf_page_count(b"nothing\n"),
        Err(AppError::Pdf(t)) if t == "Could not determine page count"
    ));
    assert!(matches!(get_pdf_page_count(b""), Err(AppError::Pdf(_))));
}

#[test]
fn the_renderer_gets_its_arguments() {
    let args = PopplerRenderer.arguments(b"/in/a b.pdf", 150, b"/tmp/x");
    assert_eq!(args, names(&["-png", "-r", "150", "/in/a b.pdf", "/tmp/x/page"]));
}
