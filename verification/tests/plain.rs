use shard::drawing::{SvgAction, SvgEvent, SvgRun};
use shard::error::AppError;
use shard::plain::{check_nodes, check_plain};
use shard::svg::rewrite_svg;
use shard::xml::{XmlAttribute, XmlNode};

/// A document with these contents.
fn doc(inner: &str) -> String {
    format!(
        "<svg xmlns=\"http://www.w3.org/2000/svg\" xmlns:xlink=\"http://www.w3.org/1999/xlink\" \
         width=\"612pt\" height=\"792pt\" viewBox=\"0 0 612 792\" version=\"1.1\">{inner}</svg>"
    )
}

fn plain(inner: &str) -> bool {
    check_plain(doc(inner).as_bytes())
}

const PAGE: &str = r##"
<defs><g><g id="glyph-0-0"><path d="M 0.5 0 L 0.5 -8.0123456789 C 1 2 3 4 5 6 Z M 0.5 0 "/></g></g>
<clipPath id="clip-0"><path clip-rule="nonzero" d="M 0 0 L 612 0 L 612 792 Z"/></clipPath>
<linearGradient id="lg"><stop offset="0" stop-color="#1e5000"/><stop offset="1" stop-color="red"/>
</linearGradient></defs>
<rect x="0" y="0" width="612" height="792" fill="rgb(100%, 100%, 100%)" fill-opacity="1"/>
<g clip-path="url(#clip-0)"><path fill="url(#lg)" stroke-width="1" stroke-linecap="butt"
 stroke-linejoin="miter" stroke="rgb(0%, 0%, 0%)" stroke-opacity="1" stroke-miterlimit="10"
 d="M 1 2 L 30 40 L 5 60 Z" transform="matrix(0.75, 0, 0, -0.75, 0, 792)"/></g>
<g fill="rgb(0%, 0%, 0%)" fill-opacity="1"><use xlink:href="#glyph-0-0" x="72" y="80.5"/>
<use xlink:href="#glyph-0-0" x="90" y="80.5"/></g>"##;

#[test]
fn a_page_of_text_and_lines_is_plain() {
    assert!(plain(PAGE));
    let clean = rewrite_svg(doc(PAGE).as_bytes(), 2).unwrap();
    assert!(clean.contains("-8.01") && !clean.contains("-8.012"));
    assert!(clean.contains("clip-path=\"url(#clip-0)\"") && clean.contains("#1e5000"));
}

#[test]
fn what_a_reader_may_stumble_over_is_not_plain() {
    for inner in [
        r##"<filter id="f"><feTurbulence baseFrequency="1e39"/></filter><rect width="5" height="5" filter="url(#f)"/>"##,
        r##"<filter id="f"><feMorphology radius="1e39"/></filter>"##,
        r##"<feConvolveMatrix order="99999"/>"##,
        r##"<rect width="5" height="5" filter="blur(5)"/>"##,
        r##"<image href="data:image/svg+xml,x" width="1" height="1"/>"##,
        r##"<image xlink:href="/a.svg" width="1" height="1"/>"##,
        r##"<mask/>"##,
        r##"<pattern/>"##,
        r##"<marker/>"##,
        r##"<text>x</text>"##,
        r##"<style>rect { filter: blur(5px) }</style>"##,
        r##"<g style="filter:blur(5px)"/>"##,
        r##"<svg/>"##,
        r##"<symbol viewBox="0 0 1 1"/>"##,
        r##"<g marker-end="url(#m)"/>"##,
        r##"<linearGradient id="a" href="#b"/>"##,
        r##"<rect width="1e39" height="1"/>"##,
        r##"<rect width="3em" height="1"/>"##,
        r##"<rect width="123456" height="1"/>"##,
        r##"<rect width="0.0000000000001" height="1"/>"##,
        r##"<path d="M 0 0 l 1 1 Z"/>"##,
        r##"<path d="M 0 0 Q 1 1 2 2"/>"##,
        r##"<path d="M 0 0 L 1 é"/>"##,
        r##"<g transform="skewX(89.9)"/>"##,
        r##"<g transform="scale(2) scale(3)"/>"##,
        r##"<g transform="scale(12345)"/>"##,
        r##"<g transform="scale(2)"><g transform="scale(2)"><g transform="scale(2)"/></g></g>"##,
        r##"<g transform="rotate(30)"/><rect width="1" height="1" stroke="red"/>"##,
        r##"<rect width="1" height="1" stroke="red" stroke-dasharray="1"/>"##,
        r##"<g id="a"><use href="#b"/></g>"##,
        r##"<use id="a" href="#b"/>"##,
        r##"<use href="file.svg#b"/>"##,
        r##"<clipPath id="a"><path clip-path="url(#b)" d="M 0 0"/></clipPath>"##,
        r##"<clipPath id="a" clip-path="url(#b)"/>"##,
        r##"<clipPath id="a"><use href="#b"/></clipPath>"##,
    ] {
        assert!(!plain(inner), "{inner}");
        assert!(matches!(
            rewrite_svg(doc(inner).as_bytes(), 2),
            Err(AppError::Custom(t)) if t == "Not a plain drawing"
        ));
    }
    let deep = |n: usize| format!("{}{}", "<g>".repeat(n), "</g>".repeat(n));
    assert!(plain(&deep(30)));
    assert!(!plain(&deep(31)));
}

#[test]
fn plain_parts_stay_plain() {
    for inner in [
        "",
        r##"<rect width="99999.5" height="1" fill="#1e5000"/>"##,
        r##"<g transform="rotate(30)"><g transform="matrix(1,2,3,4,5,6)"/></g>"##,
        r##"<g transform="translate(9999)"/><rect width="1" height="1" stroke="red"/>"##,
        r##"<g transform="rotate(30)"/><rect width="1" height="1" stroke="none"/>"##,
        r##"<g><use href="#b"/></g><path id="b" d="M 0 0 H 5 V 6 z"/>"##,
        r##"<circle cx="5" cy="5" r="3"/><polygon points="1,2 3,4 5,6"/>"##,
        "<!-- a comment --><title>é</title>",
    ] {
        assert!(plain(inner), "{inner}");
        assert!(rewrite_svg(doc(inner).as_bytes(), 2).is_ok(), "{inner}");
    }
}

#[test]
fn view_boxes_start_at_zero_and_hold_something() {
    let boxed = |b: &str| check_plain(format!("<svg viewBox='{b}'/>").as_bytes());
    assert!(boxed("0 0 612 792.5"));
    for b in ["0 0 0.5 9", "0 0 9 0", "1 0 9 9", "0 0 9", "0,0,9,9", "0 0 9 9 9", "0 0 -9 9"] {
        assert!(!boxed(b), "{b}");
    }
}

#[test]
fn hidden_contents_are_not_plain() {
    assert!(!check_plain(&[0x1f, 0x8b, 0]));
    assert!(!check_plain(
        b"<!DOCTYPE svg [<!ENTITY e '<image href=\"a.svg\"/>'>]><svg width='9' height='9'>&e;</svg>"
    ));
    // What is no document at all is refused by itself.
    assert!(check_plain(b"\xff") && check_plain(b"nothing") && check_plain(b""));
}

#[test]
fn nodes_are_held_to_their_places() {
    let node = |parent: Option<usize>, tag: &str, attributes: Vec<(&str, &str)>| XmlNode {
        parent,
        tag: String::from(tag),
        attributes: attributes
            .iter()
            .map(|(n, v)| XmlAttribute { name: String::from(*n), value: String::from(*v) })
            .collect(),
        start: 0,
        end: 0,
    };
    assert!(check_nodes(&vec![node(None, "", vec![]), node(Some(0), "svg", vec![("width", "9")])]));
    assert!(!check_nodes(&vec![node(None, "", vec![]), node(Some(0), "svg", vec![("onload", "")])]));
    assert!(!check_nodes(&vec![node(Some(1), "g", vec![]), node(None, "", vec![])]));
}

#[test]
fn other_drawings_are_handed_on() {
    let ask = |svg: &str| {
        let (mut run, _) = SvgRun::begin(b"/in/a.pdf", b"/o", 1, 3, false, false);
        run.step(SvgEvent::Looked { present: false });
        run.step(SvgEvent::Drawn { success: true });
        run.step(SvgEvent::Loaded { data: svg.as_bytes().to_vec() })
    };
    assert!(matches!(ask(&doc("")), SvgAction::Rewrite { data, digits: 3 } if data == doc("").as_bytes()));
    let image = doc("<image href='a.png' width='9' height='9'/>");
    assert!(matches!(ask(&image), SvgAction::Hand { data, digits: 3 } if data == image.as_bytes()));
}
