use shard::path::{
    extension_of, file_name_of, file_stem_of, find_components, join_paths, parent_of, quote_path,
    replace_extension, same_bytes, strip_base,
};
use std::path::Path;

const SAMPLES: &[&str] = &[
    "", "/", "//", ".", "..", "./", "a", "a/", "/a", "a/b", "a//b", "a/./b", "./a", "./.", "a/..",
    "a/../b", "/a/b.c", "a.b/c", ".hidden", ".hidden.txt", "a.", "a..b", "..a", "x.tar.gz", "/..",
    "a/.", "a/./", "/./a", "é/ü.pdf", "a b/c d.PDF", "...", "a/...", "//a//b//",
];

fn text(v: &[u8]) -> String {
    String::from_utf8(v.to_vec()).unwrap()
}

#[test]
fn parts_of_paths_agree_with_std() {
    for s in SAMPLES {
        let p = Path::new(s);
        let parent = parent_of(s.as_bytes()).map(|v| text(&v));
        assert_eq!(parent.as_deref(), p.parent().map(|q| q.to_str().unwrap()), "parent of {s:?}");
        let name = file_name_of(s.as_bytes()).map(|v| text(&v));
        assert_eq!(name.as_deref(), p.file_name().map(|q| q.to_str().unwrap()), "name of {s:?}");
        let stem = file_stem_of(s.as_bytes()).map(|v| text(&v));
        assert_eq!(stem.as_deref(), p.file_stem().map(|q| q.to_str().unwrap()), "stem of {s:?}");
        let ext = extension_of(s.as_bytes()).map(|v| text(&v));
        assert_eq!(ext.as_deref(), p.extension().map(|q| q.to_str().unwrap()), "ext of {s:?}");
    }
}

#[test]
fn joining_agrees_with_std() {
    for a in SAMPLES {
        for b in SAMPLES {
            let joined = join_paths(a.as_bytes(), b.as_bytes());
            assert_eq!(text(&joined), Path::new(a).join(b).to_str().unwrap(), "{a:?} {b:?}");
        }
    }
}

#[test]
fn other_extensions_agree_with_std() {
    for s in SAMPLES.iter().filter(|s| **s != "..a") {
        for e in ["", "webp", "webp.tmp", "svg.raw"] {
            let r = replace_extension(s.as_bytes(), e.as_bytes());
            assert_eq!(text(&r), Path::new(s).with_extension(e).to_str().unwrap(), "{s:?} {e:?}");
        }
    }
}

#[test]
fn stripping_agrees_with_std() {
    for a in SAMPLES {
        for b in SAMPLES {
            let r = strip_base(a.as_bytes(), b.as_bytes()).map(|v| text(&v));
            let expected = Path::new(a).strip_prefix(b).ok().map(|q| q.to_str().unwrap());
            assert_eq!(r.as_deref(), expected, "{a:?} {b:?}");
        }
    }
}

#[test]
fn stripping_undoes_joining() {
    let joined = join_paths(b"/src", b"a/b.pdf");
    assert_eq!(strip_base(&joined, b"/src"), Some(b"a/b.pdf".to_vec()));
}

#[test]
fn components_are_the_names_between_slashes() {
    assert_eq!(find_components(b"/a//bc/./d"), vec![(1, 2), (4, 6), (9, 10)]);
    assert_eq!(find_components(b"./a"), vec![(0, 1), (2, 3)]);
    assert_eq!(find_components(b""), vec![]);
}

#[test]
fn byte_strings_are_told_apart() {
    assert!(same_bytes(b"abc", b"abc"));
    assert!(!same_bytes(b"abc", b"abd"));
    assert!(!same_bytes(b"abc", b"ab"));
}

#[test]
fn a_joined_path_has_the_parts_of_both() {
    let joined = join_paths(b"/out/x", b"a/b.pdf");
    assert_eq!(joined, b"/out/x/a/b.pdf");
    assert_eq!(file_name_of(&joined), file_name_of(b"a/b.pdf"));
    assert_eq!(parent_of(&joined), Some(b"/out/x/a".to_vec()));
    let names = |s: &[u8]| -> Vec<Vec<u8>> {
        find_components(s).iter().map(|(a, b)| s[*a..*b].to_vec()).collect()
    };
    assert_eq!(names(&joined), [names(b"/out/x"), names(b"a/b.pdf")].concat());
    assert_eq!(names(&parent_of(&joined).unwrap()), names(&joined)[..3].to_vec());
}

#[test]
fn a_new_extension_stays_in_its_folder() {
    let below = join_paths(b"/o.d", b"p.webp");
    assert_eq!(
        replace_extension(&below, b"tmp"),
        join_paths(b"/o.d", &replace_extension(b"p.webp", b"tmp"))
    );
    assert_eq!(file_name_of(b"plain"), Some(b"plain".to_vec()));
}

#[test]
fn joining_undoes_stripping() {
    for s in SAMPLES {
        for base in SAMPLES {
            if let Some(rel) = strip_base(s.as_bytes(), base.as_bytes()) {
                let joined = text(&join_paths(base.as_bytes(), &rel));
                assert_eq!(Path::new(&joined), Path::new(s), "{s:?} {base:?}");
            }
        }
    }
}

#[test]
fn paths_that_name_the_same_stay_so_below_a_folder() {
    for (a, b) in [("a//b", "a/b"), ("a/./b/", "a/b"), ("./a", "a")] {
        let joined = |s: &str| text(&join_paths(b"/out", s.as_bytes()));
        assert_eq!(Path::new(&joined(a)), Path::new(&joined(b)), "{a:?} {b:?}");
    }
}

#[test]
fn quoted_paths_agree_with_std() {
    for s in SAMPLES.iter().chain(["a\"b", "a\\b", "tab\there", "\u{7f}", "\u{200b}x"].iter()) {
        assert_eq!(quote_path(s.as_bytes()), format!("{:?}", Path::new(s)), "{s:?}");
    }
    assert_eq!(quote_path(b"a\xffb\xc3"), "\"a\\xFFb\\xC3\"");
}
