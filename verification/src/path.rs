//! File paths as the bytes a Unix system knows them by.
//!
//! A path is split at its slashes. What lies between is a component, unless it is
//! empty, or a single dot behind a slash.

use vstd::prelude::*;
use vstd::slice::*;
use vstd::string::*;
use vstd::utf8::*;

verus! {

/// The byte that parts the components of a path.
pub const SLASH: u8 = 47;

/// The byte in front of an extension.
pub const DOT: u8 = 46;

/// The end of the segment that starts at `i`: the next slash, or the end of the path.
pub open spec fn segment_end(s: Seq<u8>, i: int) -> int
    decreases s.len() - i,
{
    if i >= s.len() || s[i] == SLASH {
        i
    } else {
        segment_end(s, i + 1)
    }
}

/// Whether the segment from `i` to `j` is a component: it is not empty, and it is
/// no single dot but at the start of the path.
pub open spec fn is_component(s: Seq<u8>, i: int, j: int) -> bool {
    i < j && (i == 0 || j != i + 1 || s[i] != DOT)
}

/// The components from position `i` on, each as its start and end.
pub open spec fn components_from(s: Seq<u8>, i: int) -> Seq<(int, int)>
    decreases s.len() - i,
{
    if i < 0 || i >= s.len() {
        Seq::empty()
    } else {
        let j = segment_end(s, i);
        let rest = if j >= s.len() {
            Seq::empty()
        } else {
            proof {
                lemma_segment_end(s, i);
            }
            components_from(s, j + 1)
        };
        if is_component(s, i, j) {
            seq![(i, j)] + rest
        } else {
            rest
        }
    }
}

/// The components of a path, each as its start and end.
pub open spec fn components(s: Seq<u8>) -> Seq<(int, int)> {
    components_from(s, 0)
}

/// Whether a path starts at the root.
pub open spec fn is_absolute(s: Seq<u8>) -> bool {
    s.len() > 0 && s[0] == SLASH
}

/// The path without its last component: `None` where there is no component.
pub open spec fn parent(s: Seq<u8>) -> Option<Seq<u8>> {
    let c = components(s);
    if c.len() == 0 {
        None
    } else if c.len() == 1 {
        Some(
            if is_absolute(s) {
                s.take(1)
            } else {
                Seq::empty()
            },
        )
    } else {
        Some(s.take(c[c.len() - 2].1))
    }
}

/// Whether `name` is one or two dots.
pub open spec fn is_dots(name: Seq<u8>) -> bool {
    name == seq![DOT] || name == seq![DOT, DOT]
}

/// The last component, unless it stands for a directory above or for the directory itself.
pub open spec fn file_name(s: Seq<u8>) -> Option<Seq<u8>> {
    let c = components(s);
    if c.len() == 0 {
        None
    } else {
        let name = s.subrange(c.last().0, c.last().1);
        if is_dots(name) {
            None
        } else {
            Some(name)
        }
    }
}

/// The position of the last dot of `name`; -1 where there is none.
pub open spec fn last_dot(name: Seq<u8>) -> int
    decreases name.len(),
{
    if name.len() == 0 {
        -1
    } else if name.last() == DOT {
        name.len() - 1
    } else {
        last_dot(name.drop_last())
    }
}

/// The part of a file name in front of its last dot; the whole name where there is no
/// dot but at its start.
pub open spec fn stem_of_name(name: Seq<u8>) -> Seq<u8> {
    if last_dot(name) > 0 {
        name.take(last_dot(name))
    } else {
        name
    }
}

/// The part of a file name behind its last dot, where that dot is not at its start.
pub open spec fn extension_of_name(name: Seq<u8>) -> Option<Seq<u8>> {
    if last_dot(name) > 0 {
        Some(name.skip(last_dot(name) + 1))
    } else {
        None
    }
}

/// The file name without its extension.
pub open spec fn file_stem(s: Seq<u8>) -> Option<Seq<u8>> {
    match file_name(s) {
        Some(name) => Some(stem_of_name(name)),
        None => None,
    }
}

/// The extension of the file name.
pub open spec fn extension(s: Seq<u8>) -> Option<Seq<u8>> {
    match file_name(s) {
        Some(name) => extension_of_name(name),
        None => None,
    }
}

/// `rel` below `base`; an absolute `rel` stands for itself.
pub open spec fn join(base: Seq<u8>, rel: Seq<u8>) -> Seq<u8> {
    if is_absolute(rel) {
        rel
    } else if base.len() == 0 || base.last() == SLASH {
        base + rel
    } else {
        base.push(SLASH) + rel
    }
}

/// The path with `ext` in place of the extension of its file name; the path itself
/// where it has no file name.
pub open spec fn with_extension(s: Seq<u8>, ext: Seq<u8>) -> Seq<u8> {
    match file_stem(s) {
        None => s,
        Some(stem) => {
            let kept = s.take(components(s).last().0 + stem.len());
            if ext.len() == 0 {
                kept
            } else {
                kept.push(DOT) + ext
            }
        },
    }
}

/// The texts of the components.
pub open spec fn component_texts(s: Seq<u8>) -> Seq<Seq<u8>> {
    components(s).map_values(|c: (int, int)| s.subrange(c.0, c.1))
}

/// Whether the components of `base` come first among those of `s`, the root included.
pub open spec fn starts_with_path(s: Seq<u8>, base: Seq<u8>) -> bool {
    let b = component_texts(base);
    let c = component_texts(s);
    ||| (b.len() == 0 && !is_absolute(base))
    ||| (is_absolute(base) == is_absolute(s) && b.len() <= c.len() && c.take(b.len() as int) == b)
}

/// What follows the components of `base` in `s`: `None` where `s` does not start with them.
pub open spec fn strip_prefix(s: Seq<u8>, base: Seq<u8>) -> Option<Seq<u8>> {
    let c = components(s);
    let n = components(base).len();
    if !starts_with_path(s, base) {
        None
    } else if n == 0 && !is_absolute(base) {
        Some(
            if c.len() > 0 {
                s.take(c.last().1)
            } else if is_absolute(s) {
                s.take(1)
            } else {
                Seq::empty()
            },
        )
    } else if n >= c.len() {
        Some(Seq::empty())
    } else {
        Some(s.subrange(c[n as int].0, c.last().1))
    }
}

// ---------------------------------------------------------------------------
// Facts
// ---------------------------------------------------------------------------

/// A segment ends within its path, at or behind its start.
pub proof fn lemma_segment_end(s: Seq<u8>, i: int)
    requires
        0 <= i <= s.len(),
    ensures
        i <= segment_end(s, i) <= s.len(),
        segment_end(s, i) < s.len() ==> s[segment_end(s, i)] == SLASH,
        forall|k: int| i <= k < segment_end(s, i) ==> s[k] != SLASH,
    decreases s.len() - i,
{
    if i < s.len() && s[i] != SLASH {
        lemma_segment_end(s, i + 1);
    }
}

/// Components lie in order, one behind the other, from `i` on.
pub proof fn lemma_components_from(s: Seq<u8>, i: int)
    requires
        0 <= i,
    ensures
        forall|k: int|
            #![trigger components_from(s, i)[k]]
            0 <= k < components_from(s, i).len() ==> i <= components_from(s, i)[k].0
                < components_from(s, i)[k].1 <= s.len(),
        forall|k: int, l: int|
            #![trigger components_from(s, i)[k], components_from(s, i)[l]]
            0 <= k < l < components_from(s, i).len() ==> components_from(s, i)[k].1
                < components_from(s, i)[l].0,
    decreases s.len() - i,
{
    if i < s.len() {
        lemma_segment_end(s, i);
        let j = segment_end(s, i);
        let all = components_from(s, i);
        let rest = if j >= s.len() {
            Seq::empty()
        } else {
            components_from(s, j + 1)
        };
        if j < s.len() {
            lemma_components_from(s, j + 1);
        }
        if is_component(s, i, j) {
            assert(all == seq![(i, j)] + rest);
            assert forall|k: int| #![trigger all[k]] 0 <= k < all.len() implies i <= all[k].0
                < all[k].1 <= s.len() by {
                if k > 0 {
                    assert(all[k] == rest[k - 1]);
                }
            }
            assert forall|k: int, l: int|
                #![trigger all[k], all[l]]
                0 <= k < l < all.len() implies all[k].1 < all[l].0 by {
                assert(all[l] == rest[l - 1]);
                if k > 0 {
                    assert(all[k] == rest[k - 1]);
                }
            }
        } else {
            assert(all == rest);
        }
    }
}

/// Starts and ends moved on by `n`.
spec fn shifted(c: Seq<(int, int)>, n: int) -> Seq<(int, int)> {
    c.map_values(|p: (int, int)| (p.0 + n, p.1 + n))
}

/// Whether a path starts with a component that is a single dot.
pub open spec fn starts_with_dot(s: Seq<u8>) -> bool {
    s.len() > 0 && s[0] == DOT && segment_end(s, 0) == 1
}

proof fn lemma_segment_end_prefix(head: Seq<u8>, tail: Seq<u8>, i: int)
    requires
        head.len() > 0,
        head.last() == SLASH,
        0 <= i < head.len(),
    ensures
        segment_end(head + tail, i) == segment_end(head, i),
        segment_end(head, i) < head.len(),
    decreases head.len() - i,
{
    assert((head + tail)[i] == head[i]);
    if head[i] != SLASH {
        assert(i + 1 < head.len());
        lemma_segment_end_prefix(head, tail, i + 1);
    }
}

proof fn lemma_components_prefix(head: Seq<u8>, tail: Seq<u8>, i: int)
    requires
        head.len() > 0,
        head.last() == SLASH,
        0 <= i <= head.len(),
    ensures
        components_from(head + tail, i) == components_from(head, i) + components_from(
            head + tail,
            head.len() as int,
        ),
    decreases head.len() - i,
{
    let t = head + tail;
    let behind = components_from(t, head.len() as int);
    if i == head.len() {
        assert(components_from(head, i) + behind =~= behind);
    } else {
        lemma_segment_end(head, i);
        lemma_segment_end_prefix(head, tail, i);
        let j = segment_end(head, i);
        lemma_components_prefix(head, tail, j + 1);
        assert(t[i] == head[i]);
        let inner = components_from(head, j + 1);
        if j + 1 < t.len() {
            assert(components_from(t, j + 1) == inner + behind);
        } else {
            assert(inner + behind =~= Seq::empty());
        }
        assert((seq![(i, j)] + inner) + behind =~= seq![(i, j)] + (inner + behind));
        assert(components_from(t, j + 1) =~= inner + behind);
    }
}

proof fn lemma_segment_end_shift(head: Seq<u8>, tail: Seq<u8>, i: int)
    requires
        0 <= i <= tail.len(),
    ensures
        segment_end(head + tail, head.len() + i) == head.len() + segment_end(tail, i),
    decreases tail.len() - i,
{
    if i < tail.len() {
        assert((head + tail)[head.len() + i] == tail[i]);
        if tail[i] != SLASH {
            lemma_segment_end_shift(head, tail, i + 1);
        }
    }
}

proof fn lemma_components_shift(head: Seq<u8>, tail: Seq<u8>, i: int)
    requires
        head.len() > 0,
        0 <= i <= tail.len(),
        i == 0 ==> !starts_with_dot(tail),
    ensures
        components_from(head + tail, head.len() + i) == shifted(
            components_from(tail, i),
            head.len() as int,
        ),
    decreases tail.len() - i,
{
    let t = head + tail;
    let n = head.len() as int;
    if i < tail.len() {
        lemma_segment_end(tail, i);
        lemma_segment_end_shift(head, tail, i);
        let j = segment_end(tail, i);
        assert(t[n + i] == tail[i]);
        let rest = if j >= tail.len() {
            Seq::empty()
        } else {
            components_from(tail, j + 1)
        };
        if j < tail.len() {
            lemma_components_shift(head, tail, j + 1);
        } else {
            assert(shifted(rest, n) =~= Seq::empty());
        }
        assert(is_component(t, n + i, n + j) == is_component(tail, i, j));
        assert(shifted(seq![(i, j)] + rest, n) =~= seq![(n + i, n + j)] + shifted(rest, n));
    } else {
        assert(shifted(components_from(tail, i), n) =~= Seq::empty());
    }
}

/// A slash at the end makes no component.
proof fn lemma_components_slash(s: Seq<u8>)
    requires
        s.len() > 0,
    ensures
        components(s.push(SLASH)) == components(s),
{
    lemma_components_push(s, 0);
}

proof fn lemma_segment_end_push(s: Seq<u8>, i: int)
    requires
        0 <= i <= s.len(),
    ensures
        segment_end(s.push(SLASH), i) == segment_end(s, i),
    decreases s.len() - i,
{
    if i < s.len() {
        assert(s.push(SLASH)[i] == s[i]);
        if s[i] != SLASH {
            lemma_segment_end_push(s, i + 1);
        }
    } else {
        assert(s.push(SLASH)[i] == SLASH);
    }
}

proof fn lemma_components_push(s: Seq<u8>, i: int)
    requires
        0 <= i <= s.len(),
    ensures
        components_from(s.push(SLASH), i) == components_from(s, i),
    decreases s.len() - i,
{
    let t = s.push(SLASH);
    lemma_segment_end_push(s, i);
    lemma_segment_end(s, i);
    if i < s.len() {
        let j = segment_end(s, i);
        assert(t[i] == s[i]);
        if j < s.len() {
            lemma_components_push(s, j + 1);
        } else {
            assert(components_from(t, j + 1) =~= Seq::empty());
        }
    } else {
        assert(components_from(t, i + 1) =~= Seq::empty());
    }
}

/// A joined path starts with the text of `base`, closed with a slash, and goes on with `rel`.
pub open spec fn join_head(base: Seq<u8>) -> Seq<u8> {
    if base.len() == 0 || base.last() == SLASH {
        base
    } else {
        base.push(SLASH)
    }
}

/// The components of a joined path: those of `base`, then those of `rel` behind them.
proof fn lemma_join_components(base: Seq<u8>, rel: Seq<u8>)
    requires
        base.len() > 0,
        !is_absolute(rel),
        !starts_with_dot(rel),
    ensures
        join(base, rel) == join_head(base) + rel,
        components(join(base, rel)) == components(base) + shifted(
            components(rel),
            join_head(base).len() as int,
        ),
{
    let head = join_head(base);
    if base.last() != SLASH {
        lemma_components_slash(base);
    }
    lemma_components_prefix(head, rel, 0);
    lemma_components_shift(head, rel, 0);
}

/// Joining puts the components of the second path behind those of the first.
pub proof fn law_join_texts(base: Seq<u8>, rel: Seq<u8>)
    requires
        !is_absolute(rel),
        !starts_with_dot(rel),
    ensures
        component_texts(join(base, rel)) == component_texts(base) + component_texts(rel),
        is_absolute(join(base, rel)) == is_absolute(base),
{
    let t = join(base, rel);
    if base.len() == 0 {
        assert(base + rel =~= rel);
        assert(component_texts(base) =~= Seq::empty());
        assert(component_texts(base) + component_texts(rel) =~= component_texts(rel));
    } else {
        let head = join_head(base);
        let n = head.len() as int;
        lemma_join_components(base, rel);
        lemma_components_from(base, 0);
        lemma_components_from(rel, 0);
        let b = components(base);
        let c = components(rel);
        let all = components(t);
        assert(all.len() == b.len() + c.len());
        assert forall|k: int| 0 <= k < all.len() implies component_texts(t)[k] == (component_texts(base)
            + component_texts(rel))[k] by {
            if k < b.len() {
                assert(all[k] == b[k]);
                assert(t.subrange(b[k].0, b[k].1) =~= base.subrange(b[k].0, b[k].1));
            } else {
                let p = c[k - b.len()];
                assert(all[k] == (p.0 + n, p.1 + n));
                assert(t.subrange(p.0 + n, p.1 + n) =~= rel.subrange(p.0, p.1));
            }
        }
        assert(component_texts(t) =~= component_texts(base) + component_texts(rel));
        assert(t[0] == base[0]);
    }
}

/// Whether a path is written without anything to spare: it is relative, and its
/// components reach from its start to its end.
pub open spec fn is_tight(s: Seq<u8>) -> bool {
    &&& !is_absolute(s)
    &&& !starts_with_dot(s)
    &&& components(s).len() > 0
    &&& components(s)[0].0 == 0
    &&& components(s).last().1 == s.len()
}

/// Taking `base` off the path that was joined from `base` and `rel` gives `rel` back.
pub proof fn law_strip_join(base: Seq<u8>, rel: Seq<u8>)
    requires
        base.len() > 0,
        is_tight(rel),
    ensures
        strip_prefix(join(base, rel), base) == Some(rel),
{
    let t = join(base, rel);
    let n = join_head(base).len() as int;
    lemma_join_components(base, rel);
    law_join_texts(base, rel);
    lemma_components_from(rel, 0);
    let b = components(base);
    let c = components(rel);
    let all = components(t);
    assert((component_texts(base) + component_texts(rel)).take(component_texts(base).len() as int)
        =~= component_texts(base));
    assert(starts_with_path(t, base));
    assert(all[b.len() as int] == (c[0].0 + n, c[0].1 + n));
    assert(all.last() == (c.last().0 + n, c.last().1 + n));
    assert(t.subrange(n, n + rel.len()) =~= rel);
    if b.len() == 0 && !is_absolute(base) {
        // Such a base is made of a single segment, and that segment is a component.
        lemma_relative_has_component(base);
    }
}

proof fn lemma_relative_has_component(s: Seq<u8>)
    requires
        s.len() > 0,
        !is_absolute(s),
    ensures
        components(s).len() > 0,
        components(s)[0].0 == 0,
{
    lemma_segment_end(s, 0);
    assert(segment_end(s, 0) > 0) by {
        lemma_segment_end(s, 1);
    }
}

/// The file name of a joined path is that of the second path.
pub proof fn law_join_file_name(base: Seq<u8>, rel: Seq<u8>)
    requires
        !is_absolute(rel),
        !starts_with_dot(rel),
        components(rel).len() > 0,
    ensures
        file_name(join(base, rel)) == file_name(rel),
        file_stem(join(base, rel)) == file_stem(rel),
        extension(join(base, rel)) == extension(rel),
{
    if base.len() == 0 {
        assert(base + rel =~= rel);
    } else {
        let t = join(base, rel);
        let n = join_head(base).len() as int;
        lemma_join_components(base, rel);
        lemma_components_from(rel, 0);
        let c = components(rel);
        assert(components(t).last() == (c.last().0 + n, c.last().1 + n));
        assert(t.subrange(c.last().0 + n, c.last().1 + n) =~= rel.subrange(
            c.last().0,
            c.last().1,
        ));
    }
}

/// A component is a whole segment: it holds no slash, and reaches to one or to the end.
pub proof fn lemma_component_is_segment(s: Seq<u8>, i: int, k: int)
    requires
        0 <= i,
        0 <= k < components_from(s, i).len(),
    ensures
        0 <= components_from(s, i)[k].0 <= components_from(s, i)[k].1 <= s.len(),
        components_from(s, i)[k].1 < s.len() ==> s[components_from(s, i)[k].1] == SLASH,
        forall|p: int|
            components_from(s, i)[k].0 <= p < components_from(s, i)[k].1 ==> s[p] != SLASH,
        is_component(s, components_from(s, i)[k].0, components_from(s, i)[k].1),
    decreases s.len() - i,
{
    lemma_segment_end(s, i);
    let j = segment_end(s, i);
    let all = components_from(s, i);
    let rest = if j >= s.len() {
        Seq::empty()
    } else {
        components_from(s, j + 1)
    };
    if is_component(s, i, j) {
        assert(all == seq![(i, j)] + rest);
        if k > 0 {
            assert(all[k] == rest[k - 1]);
            lemma_component_is_segment(s, j + 1, k - 1);
        }
    } else {
        lemma_component_is_segment(s, j + 1, k);
    }
}

/// The parent of a path has the components of the path but the last.
pub proof fn law_parent_texts(s: Seq<u8>)
    requires
        components(s).len() > 0,
    ensures
        component_texts(parent(s)->0) == component_texts(s).drop_last(),
        is_absolute(parent(s)->0) == is_absolute(s),
        starts_with_dot(parent(s)->0) ==> starts_with_dot(s),
{
    let c = components(s);
    let p = parent(s)->0;
    lemma_components_from(s, 0);
    if c.len() == 1 {
        if is_absolute(s) {
            assert(p.len() == 1 && p[0] == SLASH);
            assert(segment_end(p, 0) == 0);
            assert(components_from(p, 1) =~= Seq::empty());
        }
        assert(components(p) =~= Seq::empty());
        assert(component_texts(p) =~= component_texts(s).drop_last());
    } else {
        let n = c.len() as int;
        let e = c[n - 2].1;
        lemma_component_is_segment(s, 0, n - 2);
        assert(c[n - 2].1 < c[n - 1].0);
        let head = s.take(e + 1);
        let tail = s.skip(e + 1);
        assert(head + tail =~= s);
        lemma_components_prefix(head, tail, 0);
        assert(head =~= p.push(SLASH));
        lemma_components_push(p, 0);
        let first = components(p);
        let behind = components_from(s, e + 1);
        assert(c == first + behind);
        lemma_components_from(p, 0);
        lemma_components_from(s, e + 1);
        assert(first.len() == n - 1) by {
            if first.len() < n - 1 {
                assert(c[n - 2] == behind[n - 2 - first.len()]);
            }
            if first.len() > n - 1 {
                assert(c[n - 1] == first[n - 1]);
            }
        }
        assert forall|k: int| 0 <= k < n - 1 implies component_texts(p)[k]
            == component_texts(s).drop_last()[k] by {
            assert(c[k] == first[k]);
            assert(p.subrange(c[k].0, c[k].1) =~= s.subrange(c[k].0, c[k].1));
        }
        assert(component_texts(p) =~= component_texts(s).drop_last());
        assert(p[0] == s[0]);
        if starts_with_dot(p) {
            lemma_segment_end_prefix(head, tail, 0);
            lemma_segment_end_push(p, 0);
        }
    }
}

/// The components from one of them on are those from its start on.
proof fn lemma_components_split(s: Seq<u8>, i: int, k: int)
    requires
        0 <= i,
        0 <= k < components_from(s, i).len(),
    ensures
        components_from(s, i).skip(k) == components_from(s, components_from(s, i)[k].0),
    decreases s.len() - i,
{
    lemma_segment_end(s, i);
    let j = segment_end(s, i);
    let all = components_from(s, i);
    let rest = if j >= s.len() {
        Seq::empty()
    } else {
        components_from(s, j + 1)
    };
    if is_component(s, i, j) {
        assert(all == seq![(i, j)] + rest);
        if k > 0 {
            assert(all[k] == rest[k - 1]);
            lemma_components_split(s, j + 1, k - 1);
            assert(all.skip(k) =~= rest.skip(k - 1));
        } else {
            assert(all.skip(0) =~= all);
        }
    } else {
        lemma_components_split(s, j + 1, k);
    }
}

proof fn lemma_segment_end_take(s: Seq<u8>, e: int, i: int)
    requires
        0 <= i <= s.len(),
        segment_end(s, i) <= e <= s.len(),
    ensures
        segment_end(s.take(e), i) == segment_end(s, i),
    decreases s.len() - i,
{
    lemma_segment_end(s, i);
    if i < e {
        assert(s.take(e)[i] == s[i]);
        if s[i] != SLASH {
            lemma_segment_end_take(s, e, i + 1);
        }
    }
}

/// What lies behind the last component makes no component.
proof fn lemma_components_take(s: Seq<u8>, i: int)
    requires
        0 <= i,
        components_from(s, i).len() > 0,
    ensures
        components_from(s.take(components_from(s, i).last().1), i) == components_from(s, i),
    decreases s.len() - i,
{
    let all = components_from(s, i);
    let e = all.last().1;
    let t = s.take(e);
    lemma_components_from(s, i);
    lemma_segment_end(s, i);
    let j = segment_end(s, i);
    let rest = if j >= s.len() {
        Seq::empty()
    } else {
        components_from(s, j + 1)
    };
    if rest.len() > 0 {
        lemma_components_from(s, j + 1);
        assert(all.last() == rest.last()) by {
            if is_component(s, i, j) {
                assert(all == seq![(i, j)] + rest);
            }
        }
        assert(rest[rest.len() - 1].0 >= j + 1);
        lemma_components_take(s, j + 1);
        lemma_segment_end_take(s, e, i);
        assert(t[i] == s[i]);
    } else {
        assert(all =~= seq![(i, j)]);
        lemma_segment_end_take(s, e, i);
        assert(t[i] == s[i]);
        assert(seq![(i, j)] + Seq::<(int, int)>::empty() =~= seq![(i, j)]);
    }
}

/// Putting what follows `base` in a path below `base` again gives a path with the same parts.
pub proof fn law_join_strip(base: Seq<u8>, s: Seq<u8>)
    requires
        starts_with_path(s, base),
    ensures
        component_texts(join(base, strip_prefix(s, base)->0)) == component_texts(s),
        is_absolute(join(base, strip_prefix(s, base)->0)) == is_absolute(s),
{
    let rel = strip_prefix(s, base)->0;
    let b = components(base);
    let c = components(s);
    let n = b.len() as int;
    lemma_components_from(s, 0);
    if n == 0 && !is_absolute(base) {
        if base.len() > 0 {
            lemma_relative_has_component(base);
        }
        assert(join(base, rel) =~= rel);
        if c.len() > 0 {
            lemma_components_take(s, 0);
            assert forall|k: int| 0 <= k < c.len() implies component_texts(rel)[k]
                == component_texts(s)[k] by {
                assert(c[k].1 <= c.last().1);
                assert(rel.subrange(c[k].0, c[k].1) =~= s.subrange(c[k].0, c[k].1));
            }
            assert(component_texts(rel) =~= component_texts(s));
            assert(rel[0] == s[0]);
        } else {
            assert(components(rel) =~= Seq::empty()) by {
                if rel.len() > 0 {
                    assert(segment_end(rel, 0) == 0);
                    assert(components_from(rel, 1) =~= Seq::empty());
                }
            }
            assert(component_texts(rel) =~= component_texts(s));
            if s.len() > 0 && !is_absolute(s) {
                lemma_relative_has_component(s);
            }
        }
    } else if n >= c.len() {
        assert(components(rel) =~= Seq::empty());
        law_join_texts(base, rel);
        assert(component_texts(base) + component_texts(rel) =~= component_texts(s)) by {
            assert(component_texts(s).take(n) =~= component_texts(s));
        }
    } else {
        assert(n > 0 || s[0] == SLASH);
        lemma_tail_texts(s, n);
        law_join_texts(base, rel);
        assert(component_texts(s) =~= component_texts(s).take(n) + component_texts(s).skip(n));
    }
}

/// The part of a path from a component on, to the end of the last, has the parts from there on.
proof fn lemma_tail_texts(s: Seq<u8>, n: int)
    requires
        0 <= n < components(s).len(),
        n > 0 || is_absolute(s),
    ensures
        ({
            let rel = s.subrange(components(s)[n].0, components(s).last().1);
            &&& component_texts(rel) == component_texts(s).skip(n)
            &&& !is_absolute(rel)
            &&& !starts_with_dot(rel)
        }),
{
    let c = components(s);
    let a = c[n].0;
    let rel = s.subrange(a, c.last().1);
    lemma_components_from(s, 0);
    lemma_component_is_segment(s, 0, n);
    assert(a > 0) by {
        if n > 0 {
            assert(c[n - 1].1 < c[n].0);
        } else {
            assert(s[a] != SLASH);
        }
    }
    lemma_components_split(s, 0, n);
    assert(c.skip(n)[0] == c[n]);
    lemma_first_component(s, a);
    let head = s.take(a);
    let tail = s.skip(a);
    assert(head + tail =~= s);
    lemma_segment_end_shift(head, tail, 0);
    assert(tail[0] == s[a]);
    assert(!starts_with_dot(tail));
    lemma_components_shift(head, tail, 0);
    let d = components(tail);
    assert(c.skip(n) == shifted(d, a));
    assert(c.skip(n).len() == d.len());
    assert forall|k: int| 0 <= k < d.len() implies c[n + k] == ((#[trigger] d[k]).0 + a, d[k].1 + a) by {
        assert(c.skip(n)[k] == shifted(d, a)[k]);
    }
    assert(c[n + (d.len() - 1)] == c.last());
    assert(d.last() == d[d.len() - 1]);
    assert(rel =~= tail.take(d.last().1));
    lemma_components_from(tail, 0);
    lemma_components_take(tail, 0);
    lemma_segment_end(tail, 0);
    lemma_first_component(tail, 0);
    assert(d[0].1 <= d.last().1) by {
        assert(d.last() == d[d.len() - 1]);
    }
    lemma_segment_end_take(tail, d.last().1, 0);
    assert(rel[0] == tail[0]);
    assert forall|k: int| 0 <= k < d.len() implies component_texts(rel)[k] == component_texts(s).skip(
        n,
    )[k] by {
        assert(c[n + k] == (d[k].0 + a, d[k].1 + a));
        assert(d[k].1 <= d.last().1) by {
            assert(d.last() == d[d.len() - 1]);
        }
        assert(rel.subrange(d[k].0, d[k].1) =~= s.subrange(d[k].0 + a, d[k].1 + a));
    }
    assert(component_texts(rel) =~= component_texts(s).skip(n));
}

/// Where a component starts, its segment is the component.
proof fn lemma_first_component(s: Seq<u8>, a: int)
    requires
        0 <= a < s.len(),
        components_from(s, a).len() > 0,
        components_from(s, a)[0].0 == a,
    ensures
        components_from(s, a)[0].1 == segment_end(s, a),
{
    lemma_segment_end(s, a);
    let j = segment_end(s, a);
    if is_component(s, a, j) {
        let rest = if j >= s.len() {
            Seq::empty()
        } else {
            components_from(s, j + 1)
        };
        assert(components_from(s, a) == seq![(a, j)] + rest);
    } else {
        lemma_components_from(s, j + 1);
        assert(components_from(s, j + 1)[0].0 >= j + 1);
    }
}

/// The parts of a path that starts with a single dot, put below another, follow but for the dot.
proof fn lemma_join_dot(base: Seq<u8>, rel: Seq<u8>)
    requires
        base.len() > 0,
        starts_with_dot(rel),
    ensures
        component_texts(join(base, rel)) == component_texts(base) + component_texts(
            rel,
        ).drop_first(),
{
    let head = join_head(base);
    let n = head.len() as int;
    let t = join(base, rel);
    assert(t == head + rel);
    if base.last() != SLASH {
        lemma_components_slash(base);
    }
    lemma_components_prefix(head, rel, 0);
    lemma_segment_end_shift(head, rel, 0);
    assert(t[n] == rel[0]);
    let b = components(base);
    let c = components(rel);
    let rest = if rel.len() <= 1 {
        Seq::empty()
    } else {
        components_from(rel, 2)
    };
    assert(c == seq![(0int, 1int)] + rest);
    if rel.len() >= 2 {
        lemma_components_shift(head, rel, 2);
        lemma_components_from(rel, 2);
    } else {
        assert(shifted(rest, n) =~= Seq::empty());
    }
    let all = components(t);
    assert(all == b + shifted(rest, n));
    lemma_components_from(base, 0);
    assert forall|k: int| 0 <= k < all.len() implies component_texts(t)[k] == (component_texts(base)
        + component_texts(rel).drop_first())[k] by {
        if k < b.len() {
            assert(all[k] == b[k]);
            assert(t.subrange(b[k].0, b[k].1) =~= base.subrange(b[k].0, b[k].1));
        } else {
            let p = rest[k - b.len()];
            assert(all[k] == (p.0 + n, p.1 + n));
            assert(component_texts(rel).drop_first()[k - b.len()] == rel.subrange(p.0, p.1)) by {
                assert(c[k - b.len() + 1] == p);
            }
            assert(t.subrange(p.0 + n, p.1 + n) =~= rel.subrange(p.0, p.1));
        }
    }
    assert(component_texts(t) =~= component_texts(base) + component_texts(rel).drop_first());
}

/// A path starts with a single dot where that is the first of its parts.
proof fn lemma_dot_by_texts(s: Seq<u8>)
    ensures
        starts_with_dot(s) <==> !is_absolute(s) && component_texts(s).len() > 0
            && component_texts(s)[0] == seq![DOT],
{
    if s.len() > 0 && !is_absolute(s) {
        lemma_relative_has_component(s);
        lemma_first_component(s, 0);
        lemma_segment_end(s, 0);
        let j = segment_end(s, 0);
        assert(component_texts(s)[0] == s.subrange(0, j));
        if starts_with_dot(s) {
            assert(s.subrange(0, j) =~= seq![DOT]);
        } else if s.subrange(0, j) == seq![DOT] {
            assert(s.subrange(0, j).len() == 1);
            assert(s.subrange(0, j)[0] == s[0]);
        }
    }
}

/// Two paths with the same parts have the same parts below any folder.
pub proof fn law_join_same_texts(base: Seq<u8>, a: Seq<u8>, b: Seq<u8>)
    requires
        component_texts(a) == component_texts(b),
        is_absolute(a) == is_absolute(b),
    ensures
        component_texts(join(base, a)) == component_texts(join(base, b)),
        is_absolute(join(base, a)) == is_absolute(join(base, b)),
{
    if !is_absolute(a) {
        lemma_dot_by_texts(a);
        lemma_dot_by_texts(b);
        if base.len() == 0 {
            assert(base + a =~= a);
            assert(base + b =~= b);
        } else if starts_with_dot(a) {
            lemma_join_dot(base, a);
            lemma_join_dot(base, b);
        } else {
            law_join_texts(base, a);
            law_join_texts(base, b);
        }
    }
}

/// A path without a slash that is not a single dot is its own only component.
pub proof fn lemma_single_segment(s: Seq<u8>)
    requires
        s.len() > 0,
        s != seq![DOT],
        forall|k: int| 0 <= k < s.len() ==> s[k] != SLASH,
    ensures
        components(s) == seq![(0int, s.len() as int)],
        component_texts(s) == seq![s],
        is_tight(s),
{
    lemma_segment_end(s, 0);
    assert(segment_end(s, 0) == s.len());
    assert(s.subrange(0, s.len() as int) =~= s);
    assert(seq![(0int, s.len() as int)] + Seq::<(int, int)>::empty() =~= seq![
        (0int, s.len() as int),
    ]);
    if starts_with_dot(s) {
        assert(s =~= seq![DOT]);
    }
    assert(component_texts(s) =~= seq![s]);
}

/// A stem is not empty and holds no slash.
pub proof fn lemma_stem(s: Seq<u8>)
    requires
        file_name(s) is Some,
    ensures
        file_stem(s)->0.len() > 0,
        forall|k: int| 0 <= k < file_stem(s)->0.len() ==> file_stem(s)->0[k] != SLASH,
{
    let c = components(s);
    let name = file_name(s)->0;
    lemma_components_from(s, 0);
    lemma_component_is_segment(s, 0, c.len() - 1);
    assert forall|k: int| 0 <= k < name.len() implies name[k] != SLASH by {
        assert(name[k] == s[c.last().0 + k]);
    }
    lemma_last_dot(name);
}

/// The last dot lies within the name.
pub proof fn lemma_last_dot(name: Seq<u8>)
    ensures
        -1 <= last_dot(name) < name.len(),
    decreases name.len(),
{
    if name.len() > 0 {
        lemma_last_dot(name.drop_last());
    }
}

/// Whether a path is a single name: one component from its start to its end.
pub open spec fn is_plain_name(s: Seq<u8>) -> bool {
    &&& s.len() > 0
    &&& !is_dots(s)
    &&& forall|k: int| 0 <= k < s.len() ==> s[k] != SLASH
}

/// A plain name is its own only component and its own file name.
pub proof fn law_plain_name(s: Seq<u8>)
    requires
        is_plain_name(s),
    ensures
        components(s) == seq![(0int, s.len() as int)],
        is_tight(s),
        component_texts(s) == seq![s],
        file_name(s) == Some(s),
{
    lemma_single_segment(s);
    assert(s.subrange(0, s.len() as int) =~= s);
}

/// A new extension for a name below `base` is a new extension for the name.
pub proof fn law_join_with_extension(base: Seq<u8>, name: Seq<u8>, ext: Seq<u8>)
    requires
        is_plain_name(name),
        ext.len() > 0,
    ensures
        with_extension(join(base, name), ext) == join(base, stem_of_name(name).push(DOT) + ext),
{
    law_plain_name(name);
    law_join_file_name(base, name);
    lemma_last_dot(name);
    let t = join(base, name);
    let stem = stem_of_name(name);
    let head = join_head(base);
    assert(stem[0] == name[0]);
    assert(!is_absolute(stem.push(DOT) + ext)) by {
        assert((stem.push(DOT) + ext)[0] == stem[0]);
    }
    if base.len() == 0 {
        assert(t =~= name);
        assert(t.take(stem.len() as int) =~= stem);
        assert(join(base, stem.push(DOT) + ext) =~= stem.push(DOT) + ext);
    } else {
        lemma_join_components(base, name);
        let n = head.len() as int;
        assert(components(t).last() == (n, n + name.len()));
        assert(t.take(n + stem.len()) =~= head + stem);
        assert((head + stem).push(DOT) + ext =~= head + (stem.push(DOT) + ext));
    }
}

/// What lies behind the last slash of a path is its file name, unless that is one or two dots.
pub proof fn law_file_name_is_behind_the_last_slash(s: Seq<u8>, i: int)
    requires
        0 <= i < s.len(),
        i == 0 || s[i - 1] == SLASH,
        forall|k: int| i <= k < s.len() ==> s[k] != SLASH,
        s.skip(i) != seq![DOT],
        s.skip(i) != seq![DOT, DOT],
    ensures
        file_name(s) == Some(s.skip(i)),
{
    let name = s.skip(i);
    assert forall|k: int| 0 <= k < name.len() implies name[k] != SLASH by {
        assert(name[k] == s[i + k]);
    }
    law_plain_name(name);
    if i == 0 {
        assert(name =~= s);
    } else {
        let head = s.take(i);
        assert(s =~= head + name);
        assert(head.last() == SLASH);
        law_join_file_name(head, name);
    }
}

/// The place of the first byte behind the last slash of a path.
proof fn lemma_name_start(s: Seq<u8>, to: int) -> (i: int)
    requires
        0 <= to <= s.len(),
        forall|k: int| to <= k < s.len() ==> s[k] != SLASH,
    ensures
        0 <= i <= to,
        i == 0 || s[i - 1] == SLASH,
        forall|k: int| i <= k < s.len() ==> s[k] != SLASH,
    decreases to,
{
    if to == 0 || s[to - 1] == SLASH {
        to
    } else {
        lemma_name_start(s, to - 1)
    }
}

/// What lies behind the last dot of a file name is its extension, and what lies in front of it
/// its stem, unless the dot comes first.
pub proof fn law_extension_is_behind_the_last_dot(name: Seq<u8>, k: int)
    requires
        0 <= k < name.len(),
        name[k] == DOT,
        forall|i: int| k < i < name.len() ==> name[i] != DOT,
    ensures
        k > 0 ==> extension_of_name(name) == Some(name.skip(k + 1)) && stem_of_name(name)
            == name.take(k),
        k == 0 ==> extension_of_name(name) is None && stem_of_name(name) == name,
{
    lemma_dot_at(name, k);
}

proof fn lemma_dot_at(name: Seq<u8>, k: int)
    requires
        0 <= k < name.len(),
        name[k] == DOT,
        forall|i: int| k < i < name.len() ==> name[i] != DOT,
    ensures
        last_dot(name) == k,
    decreases name.len(),
{
    if k < name.len() - 1 {
        lemma_dot_at(name.drop_last(), k);
    }
}

proof fn lemma_dot_is_last(name: Seq<u8>)
    ensures
        last_dot(name) >= 0 ==> name[last_dot(name)] == DOT,
        forall|i: int| last_dot(name) < i < name.len() ==> name[i] != DOT,
    decreases name.len(),
{
    lemma_last_dot(name);
    if name.len() > 0 && name.last() != DOT {
        lemma_last_dot(name.drop_last());
        lemma_dot_is_last(name.drop_last());
        assert forall|i: int| last_dot(name) < i < name.len() implies name[i] != DOT by {
            if i < name.len() - 1 {
                assert(name[i] == name.drop_last()[i]);
            }
        }
    }
}

/// A name without a dot has no extension, and is its own stem.
pub proof fn law_no_dot_no_extension(name: Seq<u8>)
    requires
        forall|i: int| 0 <= i < name.len() ==> name[i] != DOT,
    ensures
        extension_of_name(name) is None,
        stem_of_name(name) == name,
{
    lemma_dot_is_last(name);
    lemma_last_dot(name);
}

/// A path that ends in neither a slash nor a dot has an extension exactly where its last bytes are
/// a dot and that extension, and a byte other than a slash stands in front of the dot.
pub proof fn law_extension_is_at_the_end(s: Seq<u8>, e: Seq<u8>)
    requires
        s.len() > 0,
        s.last() != SLASH,
        s.last() != DOT,
        forall|k: int| 0 <= k < e.len() ==> e[k] != SLASH && e[k] != DOT,
    ensures
        extension(s) == Some(e) <==> {
            &&& s.len() >= e.len() + 2
            &&& s[s.len() - e.len() - 1] == DOT
            &&& s[s.len() - e.len() - 2] != SLASH
            &&& s.skip(s.len() - e.len()) == e
        },
{
    let n = s.len() as int;
    let i = lemma_name_start(s, n);
    let name = s.skip(i);
    assert(name.last() == s.last());
    law_file_name_is_behind_the_last_slash(s, i);
    lemma_dot_is_last(name);
    lemma_last_dot(name);
    if extension(s) == Some(e) {
        let k = last_dot(name);
        assert(e.len() == name.len() - k - 1);
        assert(s[n - e.len() - 1] == name[k]);
        assert(s[n - e.len() - 2] == name[k - 1]);
        assert(s.skip(n - e.len()) =~= e) by {
            assert(name.skip(k + 1) =~= s.skip(i + k + 1));
        }
    }
    if s.len() >= e.len() + 2 && s[n - e.len() - 1] == DOT && s[n - e.len() - 2] != SLASH && s.skip(
        n - e.len(),
    ) == e {
        let k = n - e.len() - 1 - i;
        assert forall|j: int| n - e.len() <= j < n implies s[j] != SLASH && s[j] != DOT by {
            assert(s[j] == e[j - (n - e.len())]);
        }
        assert(i <= n - e.len() - 2) by {
            if i > n - e.len() - 2 {
                assert(s[i - 1] == SLASH);
                assert(i - 1 == n - e.len() - 2 || i - 1 == n - e.len() - 1 || i - 1 >= n - e.len());
            }
        }
        assert(name[k] == DOT);
        assert forall|j: int| k < j < name.len() implies name[j] != DOT by {
            assert(name[j] == s[i + j]);
        }
        law_extension_is_behind_the_last_dot(name, k);
        assert(name.skip(k + 1) =~= e);
    }
}

// ---------------------------------------------------------------------------
// Execution
// ---------------------------------------------------------------------------

/// Starts and ends as integers.
pub open spec fn spans(v: Seq<(usize, usize)>) -> Seq<(int, int)> {
    v.map_values(|p: (usize, usize)| (p.0 as int, p.1 as int))
}

/// Finds the components of a path.
pub fn find_components(s: &[u8]) -> (r: Vec<(usize, usize)>)
    ensures
        spans(r@) == components(s@),
{
    let mut out: Vec<(usize, usize)> = Vec::new();
    let mut i: usize = 0;
    assert(spans(out@) + components_from(s@, 0) =~= components(s@));
    while i < s.len()
        invariant
            i <= s.len(),
            spans(out@) + components_from(s@, i as int) == components(s@),
        decreases s.len() - i,
    {
        let mut j: usize = i;
        while j < s.len() && s[j] != SLASH
            invariant
                i <= j <= s.len(),
                segment_end(s@, i as int) == segment_end(s@, j as int),
            decreases s.len() - j,
        {
            j = j + 1;
        }
        let ghost before = spans(out@);
        let ghost rest = if j >= s.len() {
            Seq::<(int, int)>::empty()
        } else {
            components_from(s@, j + 1)
        };
        if i < j && (i == 0 || j != i + 1 || s[i] != DOT) {
            out.push((i, j));
            assert(spans(out@) =~= before.push((i as int, j as int)));
            assert(spans(out@) + rest =~= before + (seq![(i as int, j as int)] + rest));
        }
        if j == s.len() {
            assert(spans(out@) + rest =~= spans(out@));
            return out;
        }
        i = j + 1;
    }
    assert(spans(out@) + components_from(s@, i as int) =~= spans(out@));
    out
}

/// Whether two byte strings are the same.
pub fn same_bytes(a: &[u8], b: &[u8]) -> (r: bool)
    ensures
        r == (a@ == b@),
{
    if a.len() != b.len() {
        return false;
    }
    let mut i: usize = 0;
    while i < a.len()
        invariant
            a.len() == b.len(),
            i <= a.len(),
            forall|k: int| 0 <= k < i ==> a@[k] == b@[k],
        decreases a.len() - i,
    {
        if a[i] != b[i] {
            return false;
        }
        i = i + 1;
    }
    assert(a@ =~= b@);
    true
}

/// The start and end of the last component that is a file name.
fn name_span(s: &[u8]) -> (r: Option<(usize, usize)>)
    ensures
        match r {
            Some(p) => components(s@).len() > 0 && components(s@).last() == (p.0 as int, p.1 as int)
                && p.0 <= p.1 <= s.len() && file_name(s@) == Some(
                s@.subrange(p.0 as int, p.1 as int),
            ),
            None => file_name(s@) is None,
        },
{
    let c: Vec<(usize, usize)> = find_components(s);
    proof {
        lemma_components_from(s@, 0);
        assert(spans(c@).len() == c.len());
    }
    if c.len() == 0 {
        return None;
    }
    let last: (usize, usize) = c[c.len() - 1];
    assert(spans(c@)[c.len() - 1] == (last.0 as int, last.1 as int));
    let name: &[u8] = slice_subrange(s, last.0, last.1);
    if name.len() == 1 && name[0] == DOT {
        assert(name@ =~= seq![DOT]);
        return None;
    }
    if name.len() == 2 && name[0] == DOT && name[1] == DOT {
        assert(name@ =~= seq![DOT, DOT]);
        return None;
    }
    proof {
        if is_dots(name@) {
            assert(name@[0] == DOT);
            if name@ == seq![DOT, DOT] {
                assert(name@[1] == DOT);
            }
        }
    }
    Some(last)
}

/// The position of the last dot behind the first byte of `name`.
fn find_dot(name: &[u8]) -> (r: Option<usize>)
    ensures
        match r {
            Some(k) => last_dot(name@) == k && 0 < k < name.len(),
            None => last_dot(name@) <= 0,
        },
{
    let mut i: usize = name.len();
    assert(name@.take(i as int) =~= name@);
    while i > 0
        invariant
            i <= name.len(),
            last_dot(name@) == last_dot(name@.take(i as int)),
        decreases i,
    {
        assert(name@.take(i as int).drop_last() =~= name@.take(i - 1));
        if name[i - 1] == DOT {
            return if i > 1 {
                Some(i - 1)
            } else {
                None
            };
        }
        i = i - 1;
    }
    None
}

/// Finds the path without its last part.
pub fn parent_of(s: &[u8]) -> (r: Option<Vec<u8>>)
    ensures
        match r {
            Some(p) => parent(s@) == Some(p@),
            None => parent(s@) is None,
        },
{
    let c: Vec<(usize, usize)> = find_components(s);
    proof {
        lemma_components_from(s@, 0);
        assert(spans(c@).len() == c.len());
    }
    if c.len() == 0 {
        return None;
    }
    if c.len() == 1 {
        let mut out: Vec<u8> = Vec::new();
        if s.len() > 0 && s[0] == SLASH {
            out.push(SLASH);
            assert(out@ =~= s@.take(1));
        }
        return Some(out);
    }
    let before: (usize, usize) = c[c.len() - 2];
    assert(spans(c@)[c.len() - 2] == (before.0 as int, before.1 as int));
    Some(slice_to_vec(slice_subrange(s, 0, before.1)))
}

/// Finds the last part of a path, where that is a name.
pub fn file_name_of(s: &[u8]) -> (r: Option<Vec<u8>>)
    ensures
        match r {
            Some(p) => file_name(s@) == Some(p@),
            None => file_name(s@) is None,
        },
{
    match name_span(s) {
        None => None,
        Some(p) => Some(slice_to_vec(slice_subrange(s, p.0, p.1))),
    }
}

/// Finds the last part of a path without its extension.
pub fn file_stem_of(s: &[u8]) -> (r: Option<Vec<u8>>)
    ensures
        match r {
            Some(p) => file_stem(s@) == Some(p@),
            None => file_stem(s@) is None,
        },
{
    match name_span(s) {
        None => None,
        Some(p) => {
            let name: &[u8] = slice_subrange(s, p.0, p.1);
            match find_dot(name) {
                Some(k) => Some(slice_to_vec(slice_subrange(name, 0, k))),
                None => Some(slice_to_vec(name)),
            }
        },
    }
}

/// Finds the extension of the last part of a path.
pub fn extension_of(s: &[u8]) -> (r: Option<Vec<u8>>)
    ensures
        match r {
            Some(p) => extension(s@) == Some(p@),
            None => extension(s@) is None,
        },
{
    match name_span(s) {
        None => None,
        Some(p) => {
            let name: &[u8] = slice_subrange(s, p.0, p.1);
            match find_dot(name) {
                Some(k) => Some(slice_to_vec(slice_subrange(name, k + 1, name.len()))),
                None => None,
            }
        },
    }
}

/// Appends bytes.
pub fn push_bytes(out: &mut Vec<u8>, more: &[u8])
    ensures
        final(out)@ == old(out)@ + more@,
{
    out.extend_from_slice(more);
    assert(out@ =~= old(out)@ + more@);
}

/// Puts a path below another.
pub fn join_paths(base: &[u8], rel: &[u8]) -> (r: Vec<u8>)
    ensures
        r@ == join(base@, rel@),
{
    if rel.len() > 0 && rel[0] == SLASH {
        return slice_to_vec(rel);
    }
    let mut out: Vec<u8> = slice_to_vec(base);
    if base.len() > 0 && base[base.len() - 1] != SLASH {
        out.push(SLASH);
    }
    push_bytes(&mut out, rel);
    out
}

/// Replaces the extension of the last part of a path.
pub fn replace_extension(s: &[u8], ext: &[u8]) -> (r: Vec<u8>)
    ensures
        r@ == with_extension(s@, ext@),
{
    match name_span(s) {
        None => slice_to_vec(s),
        Some(p) => {
            let name: &[u8] = slice_subrange(s, p.0, p.1);
            let kept: usize = match find_dot(name) {
                Some(k) => p.0 + k,
                None => p.1,
            };
            let mut out: Vec<u8> = slice_to_vec(slice_subrange(s, 0, kept));
            if ext.len() > 0 {
                out.push(DOT);
                push_bytes(&mut out, ext);
            }
            out
        },
    }
}

/// Finds the path from a folder on, where it lies below that.
pub fn strip_base(s: &[u8], base: &[u8]) -> (r: Option<Vec<u8>>)
    ensures
        match r {
            Some(p) => strip_prefix(s@, base@) == Some(p@),
            None => strip_prefix(s@, base@) is None,
        },
{
    let c: Vec<(usize, usize)> = find_components(s);
    let b: Vec<(usize, usize)> = find_components(base);
    let s_abs: bool = s.len() > 0 && s[0] == SLASH;
    let b_abs: bool = base.len() > 0 && base[0] == SLASH;
    let ghost ct = component_texts(s@);
    let ghost bt = component_texts(base@);
    proof {
        lemma_components_from(s@, 0);
        lemma_components_from(base@, 0);
        assert(spans(c@).len() == c.len());
        assert(spans(b@).len() == b.len());
        assert(forall|k: int|
            0 <= k < c.len() ==> (#[trigger] spans(c@)[k]) == (c@[k].0 as int, c@[k].1 as int));
        assert(forall|k: int|
            0 <= k < b.len() ==> (#[trigger] spans(b@)[k]) == (b@[k].0 as int, b@[k].1 as int));
    }
    if b.len() == 0 && !b_abs {
        let mut out: Vec<u8> = Vec::new();
        if c.len() > 0 {
            let last: (usize, usize) = c[c.len() - 1];
            assert(spans(c@)[c.len() - 1] == components(s@).last());
            out = slice_to_vec(slice_subrange(s, 0, last.1));
        } else if s_abs {
            out.push(SLASH);
            assert(out@ =~= s@.take(1));
        }
        return Some(out);
    }
    if s_abs != b_abs || b.len() > c.len() {
        return None;
    }
    let mut i: usize = 0;
    while i < b.len()
        invariant
            i <= b.len() <= c.len(),
            spans(c@) == components(s@),
            spans(b@) == components(base@),
            spans(c@).len() == c.len(),
            spans(b@).len() == b.len(),
            ct == component_texts(s@),
            bt == component_texts(base@),
            forall|k: int|
                0 <= k < c.len() ==> (#[trigger] spans(c@)[k]) == (c@[k].0 as int, c@[k].1 as int),
            forall|k: int|
                0 <= k < b.len() ==> (#[trigger] spans(b@)[k]) == (b@[k].0 as int, b@[k].1 as int),
            forall|k: int|
                #![trigger components(s@)[k]]
                0 <= k < c.len() ==> 0 <= components(s@)[k].0 < components(s@)[k].1 <= s.len(),
            forall|k: int|
                #![trigger components(base@)[k]]
                0 <= k < b.len() ==> 0 <= components(base@)[k].0 < components(base@)[k].1
                    <= base.len(),
            forall|k: int| 0 <= k < i ==> ct[k] == bt[k],
            !(b.len() == 0 && !b_abs),
            b_abs == is_absolute(base@),
        decreases b.len() - i,
    {
        let p: (usize, usize) = c[i];
        let q: (usize, usize) = b[i];
        assert(components(s@)[i as int] == spans(c@)[i as int]);
        assert(components(base@)[i as int] == spans(b@)[i as int]);
        assert(ct[i as int] == s@.subrange(p.0 as int, p.1 as int));
        assert(bt[i as int] == base@.subrange(q.0 as int, q.1 as int));
        if !same_bytes(slice_subrange(s, p.0, p.1), slice_subrange(base, q.0, q.1)) {
            proof {
                if ct.take(bt.len() as int) == bt {
                    assert(ct.take(bt.len() as int)[i as int] == ct[i as int]);
                }
            }
            return None;
        }
        i = i + 1;
    }
    assert(ct.take(bt.len() as int) =~= bt);
    if b.len() >= c.len() {
        return Some(Vec::new());
    }
    let next: (usize, usize) = c[b.len()];
    let last: (usize, usize) = c[c.len() - 1];
    assert(components(s@)[b.len() as int] == spans(c@)[b.len() as int]);
    assert(components(s@).last() == spans(c@)[c.len() - 1]);
    assert(next.0 <= last.1) by {
        if b.len() < c.len() - 1 {
            assert(components(s@)[b.len() as int].1 < components(s@)[c.len() - 1].0);
        }
    }
    Some(slice_to_vec(slice_subrange(s, next.0, last.1)))
}

// ---------------------------------------------------------------------------
// Paths as text
// ---------------------------------------------------------------------------

/// The text that `String::from_utf8_lossy` of std makes of bytes.
pub uninterp spec fn utf8_lossy(bytes: Seq<u8>) -> Seq<char>;

/// `String::from_utf8_lossy` of std: bytes that are UTF-8 give the text they encode.
/// Of other bytes nothing is said but that the text depends on them alone.
#[verifier::external_body]
pub(crate) fn lossy_text(bytes: &[u8]) -> (r: String)
    ensures
        r@ == utf8_lossy(bytes@),
        valid_utf8(bytes@) ==> r@ == decode_utf8(bytes@),
{
    String::from_utf8_lossy(bytes).into_owned()
}

/// `std::str::from_utf8`: the text that the bytes encode, where they are UTF-8; or else the length
/// of the longest part at their start that is.
#[verifier::external_body]
pub(crate) fn utf8_text(bytes: &[u8]) -> (r: Result<&str, usize>)
    ensures
        match r {
            Ok(s) => valid_utf8(bytes@) && s.spec_bytes() == bytes@,
            Err(n) => !valid_utf8(bytes@) && n < bytes@.len() && valid_utf8(bytes@.take(n as int))
                && forall|m: int|
                n < m <= bytes@.len() ==> !valid_utf8(#[trigger] bytes@.take(m)),
        },
{
    std::str::from_utf8(bytes).map_err(|e| e.valid_up_to())
}

/// The text of a path in quotes, as `{:?}` writes a `std::path::Path`.
pub uninterp spec fn path_debug(text: Seq<char>) -> Seq<char>;

/// The `Debug` format of `std::path::Path`: the text depends on that of the path alone.
#[verifier::external_body]
fn quoted_text(text: &str) -> (r: String)
    ensures
        r@ == path_debug(text@),
{
    format!("{:?}", std::path::Path::new(text))
}

/// What stands between the quotes of a text.
pub open spec fn unquoted(s: Seq<char>) -> Seq<char> {
    if s.len() >= 2 {
        s.subrange(1, s.len() - 1)
    } else {
        s
    }
}

/// The length of the longest part at the start of bytes, of `n` at most, that is UTF-8.
pub open spec fn utf8_length(bytes: Seq<u8>, n: nat) -> nat
    decreases n,
{
    if n == 0 || valid_utf8(bytes.take(n as int)) {
        n
    } else {
        utf8_length(bytes, (n - 1) as nat)
    }
}

/// The hexadecimal digit of `n`.
pub open spec fn hex_digit(n: u8) -> char {
    if n < 10 {
        (48 + n) as char
    } else {
        (55 + n) as char
    }
}

/// A byte that is no text: `\x` and its two hexadecimal digits.
pub open spec fn byte_escape(b: u8) -> Seq<char> {
    "\\x"@.push(hex_digit((b / 16) as u8)).push(hex_digit((b % 16) as u8))
}

/// The bytes of a path between quotes: what is text as it stands in quotes, and the other bytes
/// by their escapes.
pub open spec fn path_escaped(bytes: Seq<u8>) -> Seq<char>
    decreases bytes.len(),
{
    if bytes.len() == 0 {
        Seq::empty()
    } else {
        let n = utf8_length(bytes, bytes.len());
        if 0 < n <= bytes.len() {
            unquoted(path_debug(decode_utf8(bytes.take(n as int)))) + path_escaped(
                bytes.skip(n as int),
            )
        } else {
            byte_escape(bytes[0]) + path_escaped(bytes.skip(1))
        }
    }
}

/// A path in quotes.
pub open spec fn path_quoted(bytes: Seq<u8>) -> Seq<char> {
    if valid_utf8(bytes) {
        path_debug(decode_utf8(bytes))
    } else {
        "\""@ + path_escaped(bytes) + "\""@
    }
}

proof fn lemma_utf8_length(bytes: Seq<u8>, n: nat, m: nat)
    requires
        m <= n <= bytes.len(),
        m == 0 || valid_utf8(bytes.take(m as int)),
        forall|k: int| m < k <= n ==> !valid_utf8(#[trigger] bytes.take(k)),
    ensures
        utf8_length(bytes, n) == m,
    decreases n,
{
    if n > m {
        assert(!valid_utf8(bytes.take(n as int)));
        lemma_utf8_length(bytes, (n - 1) as nat, m);
    }
}

fn push_hex_digit(out: &mut String, n: u8)
    requires
        n < 16,
    ensures
        final(out)@ == old(out)@.push(hex_digit(n)),
{
    if n < 10 {
        out.push((48 + n) as char);
    } else {
        out.push((55 + n) as char);
    }
}

fn push_text_part(out: &mut String, text: &str)
    ensures
        final(out)@ == old(out)@ + unquoted(path_debug(text@)),
{
    let quoted: String = quoted_text(text);
    let len: usize = quoted.as_str().unicode_len();
    if len >= 2 {
        out.append(quoted.as_str().substring_char(1, len - 1));
    } else {
        out.append(quoted.as_str());
    }
}

/// Puts a path in quotes.
pub fn quote_path(bytes: &[u8]) -> (r: String)
    ensures
        r@ == path_quoted(bytes@),
{
    if let Ok(text) = utf8_text(bytes) {
        proof {
            encode_utf8_decode_utf8(text@);
        }
        return quoted_text(text);
    }
    let mut out: String = "\"".to_owned();
    let mut i: usize = 0;
    assert(bytes@.skip(0) =~= bytes@);
    while i < bytes.len()
        invariant
            i <= bytes.len(),
            out@ + path_escaped(bytes@.skip(i as int)) == "\""@ + path_escaped(bytes@),
        decreases bytes.len() - i,
    {
        let ghost before = out@;
        let ghost left = bytes@.skip(i as int);
        let rest: &[u8] = slice_subrange(bytes, i, bytes.len());
        assert(rest@ =~= left);
        let part: Result<&str, usize> = utf8_text(rest);
        let n: usize = match part {
            Ok(_) => rest.len(),
            Err(n) => n,
        };
        proof {
            if part is Ok {
                assert(left.take(left.len() as int) =~= left);
            }
            lemma_utf8_length(left, left.len(), n as nat);
        }
        if n == 0 {
            out.append("\\x");
            push_hex_digit(&mut out, bytes[i] / 16);
            push_hex_digit(&mut out, bytes[i] % 16);
            assert(left.skip(1) =~= bytes@.skip(i + 1));
            assert(out@ =~= before + byte_escape(left[0]));
            assert(out@ + path_escaped(left.skip(1)) =~= before + (byte_escape(left[0])
                + path_escaped(left.skip(1))));
            i = i + 1;
        } else {
            let valid: &[u8] = slice_subrange(rest, 0, n);
            assert(valid@ =~= left.take(n as int));
            if let Ok(text) = utf8_text(valid) {
                proof {
                    encode_utf8_decode_utf8(text@);
                }
                push_text_part(&mut out, text);
            }
            assert(left.skip(n as int) =~= bytes@.skip(i + n));
            let ghost shown = unquoted(path_debug(decode_utf8(left.take(n as int))));
            assert(out@ == before + shown);
            assert(out@ + path_escaped(left.skip(n as int)) =~= before + (shown + path_escaped(
                left.skip(n as int),
            )));
            i = i + n;
        }
    }
    assert(path_escaped(bytes@.skip(i as int)) =~= Seq::empty());
    assert(out@ =~= "\""@ + path_escaped(bytes@));
    out.append("\"");
    out
}

/// A path starts with itself, and nothing follows; and it starts with no path that has more
/// parts, and with none that has another part where it has one.
pub proof fn law_path_starts_with_itself(s: Seq<u8>, base: Seq<u8>, k: int)
    ensures
        starts_with_path(s, s),
        is_absolute(s) || component_texts(s).len() > 0 ==> strip_prefix(s, s) == Some(
            Seq::<u8>::empty(),
        ),
        component_texts(s).len() < component_texts(base).len() ==> strip_prefix(s, base) is None,
        0 <= k < component_texts(base).len() && k < component_texts(s).len() && component_texts(
            base,
        )[k] != component_texts(s)[k] ==> strip_prefix(s, base) is None,
        is_absolute(base) && !is_absolute(s) ==> strip_prefix(s, base) is None,
{
    let (b, c) = (component_texts(base), component_texts(s));
    assert(c.take(c.len() as int) =~= c);
    if starts_with_path(s, base) && 0 <= k < b.len() && k < c.len() {
        assert(c.take(b.len() as int)[k] == c[k]);
    }
}

/// The escape of a byte tells the byte: four characters, the last two of them its hexadecimal
/// digits with capital letters.
pub proof fn law_escapes_tell_the_byte(b: u8)
    ensures
        byte_escape(b).len() == 4,
        byte_escape(b)[0] == '\\',
        byte_escape(b)[1] == 'x',
        is_hex(byte_escape(b)[2], b as int / 16),
        is_hex(byte_escape(b)[3], b as int % 16),
{
    reveal_strlit("\\x");
    let (x, y) = (b as int / 16, b as int % 16);
    assert(0 <= x < 16 && 0 <= y < 16);
    assert(is_hex(hex_digit((b / 16) as u8), x));
    assert(is_hex(hex_digit((b % 16) as u8), y));
}

/// Whether `c` is the hexadecimal digit for `n`.
pub open spec fn is_hex(c: char, n: int) -> bool {
    ||| '0' <= c <= '9' && n == c as u32 - '0' as u32
    ||| 'A' <= c <= 'F' && n == 10 + (c as u32 - 'A' as u32)
}

/// A byte with which no text starts is escaped, and what follows goes on as it would alone; text
/// stands as between its own quotes.
pub proof fn law_bytes_that_are_no_text_are_escaped(bytes: Seq<u8>)
    requires
        bytes.len() > 0,
    ensures
        valid_utf8(bytes) ==> path_quoted(bytes) == path_debug(decode_utf8(bytes)),
        (forall|n: int| 0 < n <= bytes.len() ==> !valid_utf8(#[trigger] bytes.take(n)))
            ==> path_escaped(bytes) == byte_escape(bytes[0]) + path_escaped(bytes.skip(1)),
        forall|n: int|
            0 < n <= bytes.len() && valid_utf8(bytes.take(n)) && (forall|m: int|
                n < m <= bytes.len() ==> !valid_utf8(#[trigger] bytes.take(m)))
                ==> path_escaped(bytes) == unquoted(path_debug(decode_utf8(#[trigger] bytes.take(n))))
                + path_escaped(bytes.skip(n)),
{
    if forall|n: int| 0 < n <= bytes.len() ==> !valid_utf8(#[trigger] bytes.take(n)) {
        lemma_utf8_length(bytes, bytes.len(), 0);
    }
    assert forall|n: int|
        0 < n <= bytes.len() && valid_utf8(bytes.take(n)) && (forall|m: int|
            n < m <= bytes.len() ==> !valid_utf8(#[trigger] bytes.take(m)))
        implies path_escaped(bytes) == unquoted(path_debug(decode_utf8(#[trigger] bytes.take(n))))
        + path_escaped(bytes.skip(n)) by {
        lemma_utf8_length(bytes, bytes.len(), n as nat);
    }
}

/// What stands between quotes is what was put between them.
pub proof fn law_quotes_come_off(s: Seq<char>, open: char, close: char)
    ensures
        unquoted(seq![open] + s + seq![close]) == s,
{
    assert(unquoted(seq![open] + s + seq![close]) =~= s);
}

} // verus!
