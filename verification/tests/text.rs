use shard::text::{
    blank, chars_of, find_after_prefix, join_texts, parse_u32, push_decimal, push_padded,
    push_signed, same_ignoring_case, same_text, trim, Edge,
};

fn decimal(n: u64) -> String {
    let mut out = String::new();
    push_decimal(&mut out, n);
    out
}

fn padded(n: u64, width: usize) -> String {
    let mut out = String::new();
    push_padded(&mut out, n, width);
    out
}

#[test]
fn decimals_read_like_the_numbers() {
    for n in [0u64, 7, 9, 10, 99, 100, 12345, 1 << 40, u64::MAX] {
        assert_eq!(decimal(n), format!("{n}"));
    }
}

#[test]
fn padded_decimals_are_filled_with_zeros() {
    for n in [0u64, 5, 42, 999, 1000, 123456] {
        assert_eq!(padded(n, 3), format!("{n:03}"));
        assert_eq!(padded(n, 0), format!("{n}"));
        assert_eq!(padded(n, 10), format!("{n:010}"));
    }
}

#[test]
fn signed_decimals_have_their_sign() {
    for n in [0i32, 1, -1, 2024, i32::MAX, i32::MIN] {
        let mut out = String::from("=");
        push_signed(&mut out, n);
        assert_eq!(out, format!("={n}"));
    }
}

#[test]
fn numbers_are_parsed_as_std_does() {
    for s in [
        "", "+", "-", "0", "00", "007", "+5", "-5", "-0", "12a", " 1", "4294967295", "4294967296",
        "99999999999999", "٣", "1_000", "++1",
    ] {
        assert_eq!(parse_u32(s), s.parse::<u32>().ok(), "{s:?}");
    }
}

#[test]
fn parsing_undoes_writing() {
    for n in [0u32, 1, 10, 150, 65535, u32::MAX] {
        assert_eq!(parse_u32(&decimal(n as u64)), Some(n));
        assert_eq!(parse_u32(&padded(n as u64, 12)), Some(n));
    }
}

#[test]
fn trimming_agrees_with_std() {
    for s in [
        "", " ", "a", "  a b\t\n", "'x'", " 'x y' ", "\u{a0}x\u{2003}", "''", "x'y", "\u{85}é\u{3000}",
        "\u{200b}x", "\u{1680}\u{2028}x\u{2029}\u{202f}\u{205f}",
    ] {
        assert_eq!(trim(Edge::Blank, s), s.trim(), "{s:?}");
        assert_eq!(trim(Edge::Quote, s), s.trim_matches('\''), "{s:?}");
    }
}

#[test]
fn white_space_is_what_std_takes_it_to_be() {
    for c in '\0'..='\u{3100}' {
        assert_eq!(blank(c), c.is_whitespace(), "{c:?}");
    }
}

#[test]
fn lines_are_searched_by_their_prefix() {
    let text = "Title: x\nPages: 3\nPages: 4";
    assert_eq!(find_after_prefix(text, "Pages:"), Some(" 3"));
    assert_eq!(find_after_prefix(text, "Title:"), Some(" x"));
    assert_eq!(find_after_prefix(text, "pages:"), None);
    assert_eq!(find_after_prefix("", "Pages:"), None);
    assert_eq!(find_after_prefix("Pages:", "Pages:"), Some(""));
    assert_eq!(find_after_prefix(" Pages: 3", "Pages:"), None);
}

#[test]
fn texts_are_told_apart() {
    assert!(same_text("über", "über"));
    assert!(!same_text("a", "A"));
    assert!(!same_text("a", "ab"));
    assert!(same_ignoring_case("WhiTe", "white"));
    assert!(!same_ignoring_case("É", "é"));
    assert!(!same_ignoring_case("whit", "white"));
    assert_eq!(chars_of("aé✓"), vec!['a', 'é', '✓']);
}

#[test]
fn texts_are_joined() {
    let parts = vec![String::from("a"), String::from(""), String::from("c")];
    assert_eq!(join_texts(&parts, 0, ", "), parts.join(", "));
    assert_eq!(join_texts(&parts, 1, ", "), parts[1..].join(", "));
    assert_eq!(join_texts(&parts, 3, ", "), "");
    assert_eq!(join_texts(&vec![], 0, ", "), "");
}
