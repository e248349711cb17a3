use shard::error::AppError;
use shard::svg::{
    clamp_precision, draw_page_arguments, parse_view_box, rewrite_svg, rewritten_svg,
    scan_background, scan_nodes, split_words, strip_background_rect_bytes, svg_failure,
    DEFAULT_HEIGHT, DEFAULT_WIDTH,
};
use shard::xml::{XmlAttribute, XmlNode};

const PAGE: &str = r##"<?xml version="1.0" encoding="UTF-8"?>
<svg xmlns="http://www.w3.org/2000/svg" width="612pt" viewBox="0 0 612 792">
<defs><rect id="no" fill="white"/></defs>
<g><rect x="0" y="0" width="612" height="792" fill="#FFFFFF"/><rect x="9" fill="red"/></g>
<g><rect fill="white"/></g>
</svg>"##;

#[test]
fn rectangles_of_the_first_group_are_found() {
    let scan = scan_background(PAGE.as_bytes()).unwrap();
    assert_eq!(scan.view_box.as_deref(), Some("0 0 612 792"));
    assert_eq!(scan.width.as_deref(), Some("612pt"));
    assert_eq!(scan.height, None);
    assert_eq!(scan.rects.len(), 2);
    assert!(scan.rects[0].white);
    assert_eq!(scan.rects[0].height.as_deref(), Some("792"));
    assert!(!scan.rects[1].white);
    assert_eq!(scan.rects[1].x.as_deref(), Some("9"));
    let text = &PAGE[scan.rects[0].start..scan.rects[0].end];
    assert_eq!(text, r##"<rect x="0" y="0" width="612" height="792" fill="#FFFFFF"/>"##);
}

#[test]
fn without_a_group_the_rectangles_of_the_document_are_found() {
    let scan = scan_background(b"<svg><rect fill='white'/><a><rect/></a><rect fill='blue'/></svg>");
    let scan = scan.unwrap();
    assert_eq!(scan.rects.iter().map(|r| r.white).collect::<Vec<_>>(), vec![true, false]);
}

#[test]
fn what_is_no_document_has_no_background() {
    assert!(scan_background(b"\xff\xfe").is_none());
    assert!(scan_background(b"<svg").is_none());
    assert!(scan_background(b"<html/>").is_none());
}

#[test]
fn white_is_told_by_its_names() {
    for (fill, white) in [
        ("white", true),
        ("WHITE", true),
        ("#fff", true),
        ("#FfF", true),
        ("#ffffff", true),
        ("rgb(255,255,255)", true),
        ("RGB(255,255,255)", true),
        ("rgb(255, 255, 255)", false),
        ("", false),
        ("none", false),
    ] {
        let doc = format!("<svg><rect fill='{fill}'/></svg>");
        assert_eq!(scan_background(doc.as_bytes()).unwrap().rects[0].white, white, "{fill}");
    }
    assert!(!scan_background(b"<svg><rect/></svg>").unwrap().rects[0].white);
}

fn node(parent: Option<usize>, tag: &str, start: usize, end: usize) -> XmlNode {
    XmlNode {
        parent,
        tag: String::from(tag),
        attributes: vec![
            XmlAttribute { name: String::from("fill"), value: String::from("white") },
            XmlAttribute { name: String::from("x"), value: String::from("7") },
            XmlAttribute { name: String::from("x"), value: String::from("8") },
        ],
        start,
        end,
    }
}

#[test]
fn nodes_are_looked_through() {
    let nodes = vec![
        node(None, "", 0, 90),
        node(Some(0), "svg", 0, 90),
        node(Some(1), "rect", 5, 10),
        node(Some(1), "g", 10, 80),
        node(Some(3), "g", 20, 50),
        node(Some(4), "rect", 30, 40),
        node(Some(3), "rect", 50, 60),
    ];
    let scan = scan_nodes(&nodes).unwrap();
    assert_eq!(scan.rects.iter().map(|r| (r.start, r.end)).collect::<Vec<_>>(), vec![(50, 60)]);
    assert!(scan.rects[0].white);
    assert_eq!(scan.rects[0].x.as_deref(), Some("7"));
    assert_eq!(nodes[1].value("y"), None);
    assert!(scan_nodes(&vec![node(None, "", 0, 0)]).is_none());
}

#[test]
fn the_background_is_taken_out() {
    let data = PAGE.as_bytes();
    let scan = scan_background(data);
    let left = strip_background_rect_bytes(data, &scan, false, &vec![true, true]);
    assert_eq!(
        String::from_utf8(left).unwrap(),
        PAGE.replace(r##"<rect x="0" y="0" width="612" height="792" fill="#FFFFFF"/>"##, "")
    );
}

#[test]
fn other_rectangles_stay() {
    let data = PAGE.as_bytes();
    let scan = scan_background(data);
    assert_eq!(strip_background_rect_bytes(data, &scan, false, &vec![false, true]), data);
    assert_eq!(strip_background_rect_bytes(data, &scan, true, &vec![true, true]), data);
    assert_eq!(strip_background_rect_bytes(b"\xff", &None, false, &vec![]), b"\xff");
}

#[test]
fn only_the_first_background_is_taken_out() {
    let data = b"<svg><rect fill='white'/><rect fill='white' x='1'/></svg>";
    let scan = scan_background(data);
    let left = strip_background_rect_bytes(data, &scan, false, &vec![true, true]);
    assert_eq!(left, b"<svg><rect fill='white' x='1'/></svg>");
}

#[test]
fn words_are_parted_as_std_does() {
    for s in ["", " ", "0 0 612 792", "\t1\n2  3 ", "a\u{2003}b", "one"] {
        assert_eq!(split_words(s), s.split_whitespace().collect::<Vec<_>>());
    }
}

#[test]
fn page_sizes_come_from_the_view_box_first() {
    let b = |x: f32| Some(x.to_bits());
    let size = |v: Vec<Option<u32>>, w, h| {
        let (w, h) = parse_view_box(&v, w, h);
        (f32::from_bits(w), f32::from_bits(h))
    };
    assert_eq!(size(vec![b(0.0), b(0.0), b(10.0), b(20.5)], b(1.0), b(2.0)), (10.0, 20.5));
    assert_eq!(size(vec![b(0.0), None, b(1.0), b(2.0), b(3.0)], None, None), (2.0, 3.0));
    assert_eq!(size(vec![b(0.0), b(0.0), b(10.0)], b(1.0), None), (1.0, 792.0));
    assert_eq!(size(vec![], None, b(5.0)), (612.0, 5.0));
    assert_eq!(f32::from_bits(DEFAULT_WIDTH), 612.0);
    assert_eq!(f32::from_bits(DEFAULT_HEIGHT), 792.0);
}

#[test]
fn digits_stay_within_their_range() {
    let digits: Vec<_> = [0, 1, 2, 4, 5, 255].iter().map(|p| clamp_precision(*p)).collect();
    assert_eq!(digits, vec![1, 1, 2, 4, 4, 4]);
}

#[test]
fn documents_are_cleaned_up() {
    let doc = b"<svg xmlns='http://www.w3.org/2000/svg' width='9' height='9'>\
        <path d='M 1.23456 2 L 3 4.98765 L 5 6' fill='red'/></svg>";
    let two = rewrite_svg(doc, 2).unwrap();
    assert!(two.starts_with("<svg "));
    assert!(two.contains("1.23") && !two.contains("1.2345"));
    assert!(rewrite_svg(doc, 9).unwrap().contains("1.2346"));
}

#[test]
fn documents_that_cannot_be_cleaned_up_are_refused() {
    assert!(matches!(
        rewrite_svg(b"nothing", 4),
        Err(AppError::Custom(t)) if t.starts_with("usvg error: ")
    ));
    assert!(matches!(
        rewritten_svg(Err(String::from("x"))),
        Err(AppError::Custom(t)) if t == "usvg error: x"
    ));
    assert_eq!(rewritten_svg(Ok(String::from("y"))).unwrap(), "y");
}

#[test]
fn refusals_depend_on_the_document_alone() {
    let told = |data: &[u8], digits| match rewrite_svg(data, digits) {
        Err(AppError::Custom(t)) => t,
        other => panic!("{other:?}"),
    };
    for digits in [0, 1, 4, 9] {
        assert_eq!(
            told(b"\xff", digits),
            "usvg error: provided data has not an UTF-8 encoding"
        );
        assert_eq!(
            told(b"<svg xmlns='http://www.w3.org/2000/svg' width='0' height='9'/>", digits),
            "usvg error: SVG has an invalid size"
        );
        let linked = b"<svg xmlns='http://www.w3.org/2000/svg' width='9' height='9'>\
            <image href='/no/such/file.png' width='9' height='9'/></svg>";
        assert_eq!(told(linked, digits), "Not a plain drawing");
    }
}

#[test]
fn failures_of_the_drawing_are_told() {
    let e = svg_failure(b"/x/a.pdf", 12);
    assert!(matches!(e, AppError::Pdf(t) if t == "pdftocairo failed for '/x/a.pdf' page 12"));
}

#[test]
fn the_drawing_gets_its_arguments() {
    let args = draw_page_arguments(b"a.pdf", 12, b"/o/page-012.svg.raw");
    let words: Vec<_> = args.iter().map(|a| std::str::from_utf8(a).unwrap()).collect();
    assert_eq!(words, vec!["-svg", "-f", "12", "-l", "12", "a.pdf", "/o/page-012.svg.raw"]);
}
