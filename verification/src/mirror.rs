//! The PDF files below a folder, and where their pages go.

use crate::config::OutputFormat;
use crate::error::AppError;
use crate::path::{
    component_texts, extension, extension_of, extension_of_name, file_name, file_stem, file_stem_of,
    is_absolute, is_plain_name, is_tight, join, join_paths, last_dot, law_extension_is_at_the_end,
    law_join_file_name, law_join_same_texts, law_join_strip, law_join_texts,
    law_join_with_extension, law_parent_texts, law_plain_name, law_strip_join, lemma_last_dot,
    lemma_single_segment, lemma_stem, parent, parent_of, replace_extension, same_bytes,
    starts_with_dot, starts_with_path, stem_of_name, strip_base, strip_prefix, with_extension, DOT,
    SLASH,
};
use crate::text::{
    all_digits, decimal, digits_value, is_digit, law_decimal_width, law_padded_value, push_padded,
    zero_padded,
};
use vstd::prelude::*;
use vstd::slice::*;
use vstd::string::*;
use vstd::utf8::*;

verus! {

/// A PDF file that was found below the source folder.
#[derive(Debug)]
pub struct ScannedFile {
    /// The absolute path of the file.
    pub full_path: Vec<u8>,
    /// The path from the source folder on.
    pub relative_path: Vec<u8>,
}

impl ScannedFile {
    /// The two paths.
    pub open spec fn paths(self) -> (Seq<u8>, Seq<u8>) {
        (self.full_path@, self.relative_path@)
    }
}

impl Clone for ScannedFile {
    fn clone(&self) -> (r: ScannedFile)
        ensures
            r.paths() == self.paths(),
    {
        ScannedFile {
            full_path: slice_to_vec(self.full_path.as_slice()),
            relative_path: slice_to_vec(self.relative_path.as_slice()),
        }
    }
}

/// The two paths of each file.
pub open spec fn all_paths(v: Seq<ScannedFile>) -> Seq<(Seq<u8>, Seq<u8>)> {
    v.map_values(|f: ScannedFile| f.paths())
}

// ---------------------------------------------------------------------------
// File names without regard to case
// ---------------------------------------------------------------------------

/// `b` with the ASCII capitals made small.
pub open spec fn lower_byte(b: u8) -> u8 {
    if 65 <= b <= 90 {
        (b + 32) as u8
    } else {
        b
    }
}

/// `s` with the ASCII capitals made small.
pub open spec fn lower_bytes(s: Seq<u8>) -> Seq<u8> {
    s.map_values(|b: u8| lower_byte(b))
}

fn to_lower(b: u8) -> (r: u8)
    ensures
        r == lower_byte(b),
{
    if 65 <= b && b <= 90 {
        b + 32
    } else {
        b
    }
}

/// Whether `a` and `b` are the same but for ASCII case.
pub fn same_name(a: &[u8], b: &[u8]) -> (r: bool)
    ensures
        r == (lower_bytes(a@) == lower_bytes(b@)),
{
    let ghost la = lower_bytes(a@);
    let ghost lb = lower_bytes(b@);
    if a.len() != b.len() {
        assert(la.len() != lb.len());
        return false;
    }
    let mut i: usize = 0;
    while i < a.len()
        invariant
            a.len() == b.len(),
            i <= a.len(),
            la == lower_bytes(a@),
            lb == lower_bytes(b@),
            forall|k: int| 0 <= k < i ==> la[k] == lb[k],
        decreases a.len() - i,
    {
        if to_lower(a[i]) != to_lower(b[i]) {
            assert(la[i as int] != lb[i as int]);
            return false;
        }
        i = i + 1;
    }
    assert(la =~= lb);
    true
}

/// Whether `a` comes before `b` in the order of their bytes.
pub open spec fn bytes_before(a: Seq<u8>, b: Seq<u8>) -> bool
    decreases a.len(),
{
    if b.len() == 0 {
        false
    } else if a.len() == 0 {
        true
    } else if a[0] != b[0] {
        a[0] < b[0]
    } else {
        bytes_before(a.drop_first(), b.drop_first())
    }
}

/// How one name is placed against another.
#[derive(Debug, Clone, Copy, PartialEq, Eq, Structural)]
pub enum NameOrder {
    Before,
    Same,
    Behind,
}

/// How `a` is placed against `b` in a list of byte strings.
pub open spec fn bytes_order(a: Seq<u8>, b: Seq<u8>) -> NameOrder {
    if a == b {
        NameOrder::Same
    } else if bytes_before(a, b) {
        NameOrder::Before
    } else {
        NameOrder::Behind
    }
}

/// How two names stand in the list of a folder: by their bytes, once the ASCII
/// capitals are made small.
pub fn compare_names(a: &[u8], b: &[u8]) -> (r: NameOrder)
    ensures
        r == bytes_order(lower_bytes(a@), lower_bytes(b@)),
{
    let ghost la = lower_bytes(a@);
    let ghost lb = lower_bytes(b@);
    assert(la.skip(0) =~= la);
    assert(lb.skip(0) =~= lb);
    let mut i: usize = 0;
    while i < a.len() && i < b.len()
        invariant
            i <= a.len(),
            i <= b.len(),
            la == lower_bytes(a@),
            lb == lower_bytes(b@),
            forall|k: int| 0 <= k < i ==> la[k] == lb[k],
            bytes_before(la, lb) == bytes_before(la.skip(i as int), lb.skip(i as int)),
        decreases a.len() - i,
    {
        let x: u8 = to_lower(a[i]);
        let y: u8 = to_lower(b[i]);
        assert(la.skip(i as int)[0] == x);
        assert(lb.skip(i as int)[0] == y);
        if x < y {
            assert(la[i as int] != lb[i as int]);
            return NameOrder::Before;
        }
        if x > y {
            assert(la[i as int] != lb[i as int]);
            return NameOrder::Behind;
        }
        assert(la.skip(i as int).drop_first() =~= la.skip(i + 1));
        assert(lb.skip(i as int).drop_first() =~= lb.skip(i + 1));
        i = i + 1;
    }
    assert(la.len() == a.len() && lb.len() == b.len());
    if a.len() == b.len() {
        assert(la =~= lb);
        NameOrder::Same
    } else if a.len() < b.len() {
        NameOrder::Before
    } else {
        NameOrder::Behind
    }
}

/// The order of byte strings is total: two that are not the same stand one way
/// or the other, never both.
pub proof fn law_bytes_total(a: Seq<u8>, b: Seq<u8>)
    ensures
        !(bytes_before(a, b) && bytes_before(b, a)),
        a == b ==> !bytes_before(a, b),
        a != b ==> bytes_before(a, b) || bytes_before(b, a),
    decreases a.len(),
{
    if a.len() > 0 && b.len() > 0 {
        law_bytes_total(a.drop_first(), b.drop_first());
        if a[0] == b[0] && a.drop_first() == b.drop_first() {
            assert(a =~= seq![a[0]] + a.drop_first());
            assert(b =~= seq![b[0]] + b.drop_first());
        }
    } else if a.len() == 0 && b.len() == 0 {
        assert(a =~= b);
    }
}

/// The order of byte strings is transitive.
pub proof fn law_bytes_transitive(a: Seq<u8>, b: Seq<u8>, c: Seq<u8>)
    requires
        bytes_before(a, b),
        bytes_before(b, c),
    ensures
        bytes_before(a, c),
    decreases a.len(),
{
    if a.len() > 0 && b.len() > 0 && c.len() > 0 && a[0] == b[0] && b[0] == c[0] {
        law_bytes_transitive(a.drop_first(), b.drop_first(), c.drop_first());
    }
}

/// Of two byte strings the one with the smaller byte where they first differ comes first, and one
/// that the other begins with comes before it.
pub proof fn law_first_difference_decides(a: Seq<u8>, b: Seq<u8>, k: int)
    requires
        0 <= k <= a.len(),
        k < b.len(),
        forall|i: int| 0 <= i < k ==> a[i] == b[i],
        k == a.len() || a[k] < b[k],
    ensures
        bytes_before(a, b),
        !bytes_before(b, a),
        bytes_order(a, b) == NameOrder::Before,
        bytes_order(b, a) == NameOrder::Behind,
    decreases k,
{
    if k > 0 {
        assert forall|i: int| 0 <= i < k - 1 implies a.drop_first()[i] == b.drop_first()[i] by {
            assert(a[i + 1] == b[i + 1]);
        }
        law_first_difference_decides(a.drop_first(), b.drop_first(), k - 1);
    }
    law_bytes_total(a, b);
}

/// Small and capital ASCII letters are the same where case is ignored, each with its own, and all
/// other bytes are the same as themselves alone.
pub proof fn law_lower_bytes(a: u8, b: u8)
    ensures
        lower_byte(a) == lower_byte(b) <==> {
            ||| a == b
            ||| 65 <= a <= 90 && b == a + 32
            ||| 65 <= b <= 90 && a == b + 32
        },
        65 <= a <= 90 ==> lower_byte(a) == a + 32,
{
}

// ---------------------------------------------------------------------------
// Scanning
// ---------------------------------------------------------------------------

/// What a walk through a folder comes upon.
#[derive(Debug)]
pub enum WalkStep {
    /// A file, a folder, or something else that has a path.
    Entry { path: Vec<u8>, is_file: bool },
    /// The walk failed, for the reason given.
    Failed(String),
}

/// Whether the extension of a path is `name`, but for ASCII case.
pub open spec fn has_extension(path: Seq<u8>, name: Seq<char>) -> bool {
    extension(path) matches Some(e) && lower_bytes(e) == lower_bytes(encode_utf8(name))
}

fn check_extension(path: &[u8], name: &str) -> (r: bool)
    ensures
        r == has_extension(path@, name@),
{
    match extension_of(path) {
        Some(e) => same_name(e.as_slice(), name.as_bytes()),
        None => false,
    }
}

/// A path that ends in neither a slash nor a dot has an extension, but for ASCII case, exactly
/// where its last bytes are a dot and the extension in small letters or capitals, and a byte other
/// than a slash stands in front of the dot.
pub proof fn law_extension_ignores_case(path: Seq<u8>, name: Seq<char>)
    requires
        path.len() > 0,
        path.last() != SLASH,
        path.last() != DOT,
        forall|k: int| 0 <= k < name.len() ==> 'a' <= #[trigger] name[k] <= 'z',
    ensures
        has_extension(path, name) <==> {
            &&& path.len() >= name.len() + 2
            &&& path[path.len() - name.len() - 1] == DOT
            &&& path[path.len() - name.len() - 2] != SLASH
            &&& forall|k: int|
                #![trigger name[k]]
                0 <= k < name.len() ==> {
                    let b = path[path.len() - name.len() + k] as int;
                    b == name[k] as int || b == name[k] as int - 32
                }
        },
{
    let n = path.len() as int;
    let l = name.len() as int;
    let bytes = encode_utf8(name);
    assert(is_ascii_chars(name));
    lemma_ascii_bytes(name);
    if has_extension(path, name) {
        let e = extension(path)->0;
        assert(lower_bytes(e).len() == lower_bytes(bytes).len());
        assert forall|k: int| 0 <= k < l implies {
            &&& e[k] as int == name[k] as int || e[k] as int == name[k] as int - 32
            &&& e[k] != SLASH && e[k] != DOT
        } by {
            assert(lower_bytes(e)[k] == lower_bytes(bytes)[k]);
            assert('a' <= name[k] <= 'z');
            assert(bytes[k] == name[k] as u8);
        }
        law_extension_is_at_the_end(path, e);
        assert forall|k: int| #![trigger name[k]] 0 <= k < l implies {
            let b = path[n - l + k] as int;
            b == name[k] as int || b == name[k] as int - 32
        } by {
            assert(path.skip(n - l)[k] == e[k]);
        }
    }
    if path.len() >= name.len() + 2 && path[n - l - 1] == DOT && path[n - l - 2] != SLASH && (
    forall|k: int|
        #![trigger name[k]]
        0 <= k < name.len() ==> {
            let b = path[path.len() - name.len() + k] as int;
            b == name[k] as int || b == name[k] as int - 32
        }) {
        let e = path.skip(n - l);
        assert forall|k: int| 0 <= k < e.len() implies e[k] != SLASH && e[k] != DOT && lower_bytes(
            e,
        )[k] == lower_bytes(bytes)[k] by {
            assert('a' <= name[k] <= 'z');
            assert(bytes[k] == name[k] as u8);
            assert(e[k] == path[n - l + k]);
        }
        law_extension_is_at_the_end(path, e);
        assert(lower_bytes(e) =~= lower_bytes(bytes));
    }
}

/// The path from `base` on; the whole path where it does not lie below `base`.
pub open spec fn relative_to(path: Seq<u8>, base: Seq<u8>) -> Seq<u8> {
    match strip_prefix(path, base) {
        Some(p) => p,
        None => path,
    }
}

/// Whether a step of the walk is a PDF file.
pub open spec fn is_pdf(step: WalkStep) -> bool {
    step matches WalkStep::Entry { path, is_file } && is_file && has_extension(path@, "pdf"@)
}

/// The path of a step of the walk.
pub open spec fn step_path(step: WalkStep) -> Seq<u8> {
    match step {
        WalkStep::Entry { path, is_file } => path@,
        WalkStep::Failed(_) => Seq::empty(),
    }
}

/// The two paths of a file at a step of the walk: from the root on, where `cwd` is the current
/// folder, and from `source` on.
pub open spec fn paths_at(cwd: Seq<u8>, source: Seq<u8>, step: WalkStep) -> (Seq<u8>, Seq<u8>) {
    (join(cwd, step_path(step)), relative_to(step_path(step), source))
}

/// The PDF files of a walk, in the order of the walk: each with its two paths.
pub open spec fn pdf_files(cwd: Seq<u8>, source: Seq<u8>, walk: Seq<WalkStep>) -> Seq<
    (Seq<u8>, Seq<u8>),
>
    decreases walk.len(),
{
    if walk.len() == 0 {
        Seq::empty()
    } else {
        let before = pdf_files(cwd, source, walk.drop_last());
        if is_pdf(walk.last()) {
            before.push(paths_at(cwd, source, walk.last()))
        } else {
            before
        }
    }
}

/// Whether the walk fails at step `i`, and not before.
pub open spec fn fails_first_at(walk: Seq<WalkStep>, i: int) -> bool {
    &&& 0 <= i < walk.len()
    &&& walk[i] is Failed
    &&& forall|k: int| 0 <= k < i ==> !(#[trigger] walk[k] is Failed)
}

/// Whether the walk never fails.
pub open spec fn never_fails(walk: Seq<WalkStep>) -> bool {
    forall|k: int| 0 <= k < walk.len() ==> !(#[trigger] walk[k] is Failed)
}

/// Picks the PDF files out of a walk through the source folder. `cwd` is the current folder;
/// `present` and `is_dir` tell whether there is such a path as the source folder, and whether it
/// is a folder. Where the walk goes by relative path, so do the files.
pub fn scan_pdf_files(
    source_dir: &[u8],
    cwd: &[u8],
    present: bool,
    is_dir: bool,
    walk: &Vec<WalkStep>,
) -> (r: Result<Vec<ScannedFile>, AppError>)
    ensures
        match r {
            Ok(files) => {
                &&& present && is_dir && never_fails(walk@)
                &&& files.len() > 0
                &&& all_paths(files@) == pdf_files(cwd@, source_dir@, walk@)
                &&& is_absolute(cwd@) ==> forall|i: int|
                    0 <= i < files.len() ==> is_absolute((#[trigger] files@[i]).full_path@)
                &&& ordered(walk_relative(source_dir@, walk@)) ==> ordered(
                    relative_paths(all_paths(files@)),
                )
            },
            Err(AppError::SourceNotFound(p)) => !present && p@ == source_dir@,
            Err(AppError::SourceNotDir(p)) => present && !is_dir && p@ == source_dir@,
            Err(AppError::Walkdir(e)) => present && is_dir && exists|i: int|
                #[trigger] fails_first_at(walk@, i) && walk@[i]->Failed_0@ == e@,
            Err(AppError::NoPdfFiles) => present && is_dir && never_fails(walk@) && pdf_files(
                cwd@,
                source_dir@,
                walk@,
            ).len() == 0,
            Err(_) => false,
        },
{
    if !present {
        return Err(AppError::SourceNotFound(slice_to_vec(source_dir)));
    }
    if !is_dir {
        return Err(AppError::SourceNotDir(slice_to_vec(source_dir)));
    }
    let mut files: Vec<ScannedFile> = Vec::new();
    let mut i: usize = 0;
    assert(all_paths(files@) =~= pdf_files(cwd@, source_dir@, walk@.take(0)));
    while i < walk.len()
        invariant
            present && is_dir,
            i <= walk.len(),
            forall|k: int| 0 <= k < i ==> !(#[trigger] walk@[k] is Failed),
            all_paths(files@) == pdf_files(cwd@, source_dir@, walk@.take(i as int)),
        decreases walk.len() - i,
    {
        let ghost before = all_paths(files@);
        assert(walk@.take(i + 1).drop_last() =~= walk@.take(i as int));
        match &walk[i] {
            WalkStep::Failed(e) => {
                assert(fails_first_at(walk@, i as int));
                return Err(AppError::Walkdir(e.clone()));
            },
            WalkStep::Entry { path, is_file } => {
                if *is_file && check_extension(path.as_slice(), "pdf") {
                    let full_path: Vec<u8> = join_paths(cwd, path.as_slice());
                    let relative_path: Vec<u8> = match strip_base(path.as_slice(), source_dir) {
                        Some(p) => p,
                        None => slice_to_vec(path.as_slice()),
                    };
                    files.push(ScannedFile { full_path, relative_path });
                    assert(all_paths(files@) =~= before.push(
                        paths_at(cwd@, source_dir@, walk@[i as int]),
                    ));
                }
            },
        }
        i = i + 1;
    }
    assert(walk@.take(i as int) =~= walk@);
    assert(all_paths(files@).len() == files.len());
    if files.len() == 0 {
        return Err(AppError::NoPdfFiles);
    }
    proof {
        if ordered(walk_relative(source_dir@, walk@)) {
            law_scan_ordered(cwd@, source_dir@, walk@);
        }
        let place = lemma_pdf_files_places(cwd@, source_dir@, walk@);
        assert forall|k: int| 0 <= k < files.len() && is_absolute(cwd@) implies is_absolute(
            (#[trigger] files@[k]).full_path@,
        ) by {
            assert(all_paths(files@)[k].0 == files@[k].full_path@);
            assert(all_paths(files@)[k] == paths_at(cwd@, source_dir@, walk@[place[k]]));
        }
    }
    Ok(files)
}

/// Whether `p` stands before `q`, or in the same place, in a list ordered by relative
/// path: component by component, in the order of file names.
pub open spec fn path_not_behind(p: Seq<Seq<u8>>, q: Seq<Seq<u8>>) -> bool
    decreases p.len(),
{
    if p.len() == 0 {
        true
    } else if q.len() == 0 {
        false
    } else if lower_bytes(p[0]) != lower_bytes(q[0]) {
        bytes_before(lower_bytes(p[0]), lower_bytes(q[0]))
    } else {
        path_not_behind(p.drop_first(), q.drop_first())
    }
}

/// Whether a list of paths is ordered by relative path.
pub open spec fn ordered(paths: Seq<Seq<u8>>) -> bool {
    forall|i: int, j: int|
        #![trigger paths[i], paths[j]]
        0 <= i < j < paths.len() ==> path_not_behind(
            component_texts(paths[i]),
            component_texts(paths[j]),
        )
}

/// The relative paths of the steps of a walk.
pub open spec fn walk_relative(source: Seq<u8>, walk: Seq<WalkStep>) -> Seq<Seq<u8>> {
    walk.map_values(|w: WalkStep| relative_to(step_path(w), source))
}

/// The relative paths of scanned files.
pub open spec fn relative_paths(files: Seq<(Seq<u8>, Seq<u8>)>) -> Seq<Seq<u8>> {
    files.map_values(|f: (Seq<u8>, Seq<u8>)| f.1)
}

/// Each file of a scan stands at a step of the walk, and later files at later steps.
proof fn lemma_pdf_files_places(cwd: Seq<u8>, source: Seq<u8>, walk: Seq<WalkStep>) -> (place: Seq<
    int,
>)
    ensures
        place.len() == pdf_files(cwd, source, walk).len(),
        forall|i: int|
            #![trigger place[i]]
            0 <= i < place.len() ==> 0 <= place[i] < walk.len() && is_pdf(walk[place[i]])
                && pdf_files(cwd, source, walk)[i] == paths_at(cwd, source, walk[place[i]]),
        forall|i: int, j: int|
            #![trigger place[i], place[j]]
            0 <= i < j < place.len() ==> place[i] < place[j],
    decreases walk.len(),
{
    if walk.len() == 0 {
        Seq::empty()
    } else {
        let before = lemma_pdf_files_places(cwd, source, walk.drop_last());
        if is_pdf(walk.last()) {
            before.push(walk.len() - 1)
        } else {
            before
        }
    }
}

/// A scan holds PDF files of the walk only.
pub proof fn law_scan_holds_pdfs(cwd: Seq<u8>, source: Seq<u8>, walk: Seq<WalkStep>, i: int)
    requires
        0 <= i < pdf_files(cwd, source, walk).len(),
    ensures
        exists|k: int|
            0 <= k < walk.len() && is_pdf(#[trigger] walk[k]) && pdf_files(cwd, source, walk)[i]
                == paths_at(cwd, source, walk[k]),
{
    let place = lemma_pdf_files_places(cwd, source, walk);
    assert(is_pdf(walk[place[i]]));
}

/// A scan misses no PDF file of the walk.
pub proof fn law_scan_misses_none(cwd: Seq<u8>, source: Seq<u8>, walk: Seq<WalkStep>, k: int)
    requires
        0 <= k < walk.len(),
        is_pdf(walk[k]),
    ensures
        pdf_files(cwd, source, walk).contains(paths_at(cwd, source, walk[k])),
    decreases walk.len(),
{
    let found = paths_at(cwd, source, walk[k]);
    let all = pdf_files(cwd, source, walk);
    if k == walk.len() - 1 {
        assert(all.last() == found);
    } else {
        law_scan_misses_none(cwd, source, walk.drop_last(), k);
        let before = pdf_files(cwd, source, walk.drop_last());
        let i = choose|i: int| 0 <= i < before.len() && before[i] == found;
        assert(all[i] == found);
    }
}

/// Where the walk goes by relative path, the scan is ordered by relative path.
pub proof fn law_scan_ordered(cwd: Seq<u8>, source: Seq<u8>, walk: Seq<WalkStep>)
    requires
        ordered(walk_relative(source, walk)),
    ensures
        ordered(relative_paths(pdf_files(cwd, source, walk))),
{
    let place = lemma_pdf_files_places(cwd, source, walk);
    let steps = walk_relative(source, walk);
    let paths = relative_paths(pdf_files(cwd, source, walk));
    assert forall|i: int, j: int|
        #![trigger paths[i], paths[j]]
        0 <= i < j < paths.len() implies path_not_behind(
        component_texts(paths[i]),
        component_texts(paths[j]),
    ) by {
        assert(place[i] < place[j]);
        assert(paths[i] == steps[place[i]]);
        assert(paths[j] == steps[place[j]]);
    }
}

/// The two paths of a file below the source folder name the same file: its path from the source
/// folder on, put below the source folder and that below the current folder, has the parts of its
/// path from the root on.
pub proof fn law_both_paths_name_the_file(cwd: Seq<u8>, source: Seq<u8>, step: WalkStep)
    requires
        starts_with_path(step_path(step), source),
    ensures
        ({
            let (full, relative) = paths_at(cwd, source, step);
            let again = join(cwd, join(source, relative));
            component_texts(again) == component_texts(full) && is_absolute(again) == is_absolute(
                full,
            )
        }),
{
    let path = step_path(step);
    let relative = relative_to(path, source);
    law_join_strip(source, path);
    law_join_same_texts(cwd, join(source, relative), path);
}

/// Every file of a walk whose name ends in a dot and `pdf`, in small letters or capitals, is in the
/// scan with its two paths, however long its path is; a name is more than the dot and `pdf`.
pub proof fn law_scan_finds_every_pdf(cwd: Seq<u8>, source: Seq<u8>, walk: Seq<WalkStep>, k: int)
    requires
        0 <= k < walk.len(),
        walk[k] matches WalkStep::Entry { path, is_file } && is_file && {
            let n = path@.len();
            &&& n >= 5
            &&& path@[n - 5] != 47
            &&& path@[n - 4] == 46
            &&& path@[n - 3] == 112 || path@[n - 3] == 80
            &&& path@[n - 2] == 100 || path@[n - 2] == 68
            &&& path@[n - 1] == 102 || path@[n - 1] == 70
        },
    ensures
        pdf_files(cwd, source, walk).contains(
            (
                join(cwd, walk[k]->path@),
                match strip_prefix(walk[k]->path@, source) {
                    Some(rel) => rel,
                    None => walk[k]->path@,
                },
            ),
        ),
{
    let path = walk[k]->path@;
    reveal_strlit("pdf");
    law_extension_ignores_case(path, "pdf"@);
    law_scan_misses_none(cwd, source, walk, k);
}

/// A file of a walk below the source folder is in the scan with the path that leads to it from
/// there.
pub proof fn law_scan_tells_the_way_from_the_source(
    cwd: Seq<u8>,
    source: Seq<u8>,
    rel: Seq<u8>,
    walk: Seq<WalkStep>,
    k: int,
)
    requires
        source.len() > 0,
        is_tight(rel),
        rel.len() >= 5,
        rel[rel.len() - 5] != 47,
        rel.skip(rel.len() - 4) == encode_utf8(".pdf"@),
        0 <= k < walk.len(),
        walk[k] matches WalkStep::Entry { path, is_file } && is_file && path@ == join(source, rel),
    ensures
        pdf_files(cwd, source, walk).contains((join(cwd, join(source, rel)), rel)),
{
    reveal_strlit(".pdf");
    lemma_ascii_bytes(".pdf"@);
    let path = walk[k]->path@;
    let n = path.len() as int;
    let m = rel.len() as int;
    assert forall|i: int| 0 <= i < m implies path[n - m + i] == #[trigger] rel[i] by {}
    let end = encode_utf8(".pdf"@);
    assert(end[0] == 46 && end[1] == 112 && end[2] == 100 && end[3] == 102);
    assert forall|i: int| 0 <= i < 4 implies rel[m - 4 + i] == #[trigger] end[i] by {
        assert(rel.skip(m - 4)[i] == rel[m - 4 + i]);
    }
    assert(path[n - 5] == rel[m - 5]);
    assert(path[n - 4] == rel[m - 4]);
    assert(path[n - 3] == rel[m - 3]);
    assert(path[n - 2] == rel[m - 2]);
    assert(path[n - 1] == rel[m - 1]);
    law_strip_join(source, rel);
    law_scan_finds_every_pdf(cwd, source, walk, k);
}

/// What is no file, or has a name that ends otherwise, adds nothing to a scan.
pub proof fn law_scan_passes_others_by(cwd: Seq<u8>, source: Seq<u8>, step: WalkStep)
    requires
        step matches WalkStep::Entry { path, is_file } && (is_file ==> {
            let n = path@.len();
            &&& n > 0
            &&& path@.last() != 47
            &&& path@.last() != 46
            &&& n < 4 || path@[n - 4] != 46 || (path@[n - 1] != 102 && path@[n - 1] != 70) || (path@[n
                - 2] != 100 && path@[n - 2] != 68) || (path@[n - 3] != 112 && path@[n - 3] != 80)
        }),
    ensures
        pdf_files(cwd, source, seq![step]).len() == 0,
{
    let path = step->path@;
    reveal_strlit("pdf");
    if step->is_file {
        law_extension_ignores_case(path, "pdf"@);
        assert("pdf"@[0] == 'p' && "pdf"@[1] == 'd' && "pdf"@[2] == 'f');
    }
    assert(seq![step].drop_last() =~= Seq::empty());
    assert(pdf_files(cwd, source, Seq::empty()) =~= Seq::empty());
    assert(seq![step].last() == step);
}

/// A walk may be looked through bit by bit: the files of the second part come behind those of the
/// first.
pub proof fn law_scan_in_parts(
    cwd: Seq<u8>,
    source: Seq<u8>,
    first: Seq<WalkStep>,
    second: Seq<WalkStep>,
)
    ensures
        pdf_files(cwd, source, first + second) == pdf_files(cwd, source, first) + pdf_files(
            cwd,
            source,
            second,
        ),
    decreases second.len(),
{
    if second.len() == 0 {
        assert(first + second =~= first);
        assert(pdf_files(cwd, source, second) =~= Seq::empty());
    } else {
        assert((first + second).drop_last() =~= first + second.drop_last());
        law_scan_in_parts(cwd, source, first, second.drop_last());
        assert(pdf_files(cwd, source, first + second) =~= pdf_files(cwd, source, first) + pdf_files(
            cwd,
            source,
            second,
        ));
    }
}

// ---------------------------------------------------------------------------
// Where pages go
// ---------------------------------------------------------------------------

/// The ending of the files of a format.
pub open spec fn page_suffix(format: OutputFormat) -> Seq<char> {
    match format {
        OutputFormat::Webp => ".webp"@,
        OutputFormat::Svg => ".svg"@,
    }
}

/// The name of the file for a page: `page-001.webp` for the first page.
pub open spec fn page_file_text(page_num: nat, format: OutputFormat) -> Seq<char> {
    "page-"@ + zero_padded(page_num, 3) + page_suffix(format)
}

/// Names the file for a page.
pub fn page_file_name(page_num: u32, format: OutputFormat) -> (r: String)
    ensures
        r@ == page_file_text(page_num as nat, format),
{
    let mut out: String = "page-".to_owned();
    push_padded(&mut out, page_num as u64, 3);
    match format {
        OutputFormat::Webp => out.append(".webp"),
        OutputFormat::Svg => out.append(".svg"),
    }
    out
}

/// The folder for the pages of a document: its relative path below the output folder,
/// without the extension.
pub open spec fn doc_dir(root: Seq<u8>, rel: Seq<u8>) -> Seq<u8> {
    let folder = match parent(rel) {
        Some(p) => p,
        None => Seq::empty(),
    };
    let stem = match file_stem(rel) {
        Some(s) => s,
        None => Seq::empty(),
    };
    join(join(root, folder), stem)
}

/// The path for a page of a document in the output folder.
pub open spec fn page_path(root: Seq<u8>, rel: Seq<u8>, page_num: nat) -> Seq<u8> {
    join(doc_dir(root, rel), encode_utf8(page_file_text(page_num, OutputFormat::Webp)))
}

/// Builds the folder for the pages of a document: `A/B/C/doc.pdf` goes to
/// `output/A/B/C/doc`.
pub fn mirror_doc_dir(output_root: &[u8], relative_pdf_path: &[u8]) -> (r: Vec<u8>)
    ensures
        r@ == doc_dir(output_root@, relative_pdf_path@),
{
    let folder: Vec<u8> = match parent_of(relative_pdf_path) {
        Some(p) => p,
        None => Vec::new(),
    };
    let stem: Vec<u8> = match file_stem_of(relative_pdf_path) {
        Some(s) => s,
        None => Vec::new(),
    };
    assert(parent(relative_pdf_path@) is None ==> folder@ =~= Seq::empty());
    assert(file_stem(relative_pdf_path@) is None ==> stem@ =~= Seq::empty());
    let below: Vec<u8> = join_paths(output_root, folder.as_slice());
    join_paths(below.as_slice(), stem.as_slice())
}

/// Builds the path for a page of a document: page 1 of `A/B/C/doc.pdf` goes to
/// `output/A/B/C/doc/page-001.webp`.
pub fn mirror_page_path(output_root: &[u8], relative_pdf_path: &[u8], page_num: u32) -> (r: Vec<u8>)
    ensures
        r@ == page_path(output_root@, relative_pdf_path@, page_num as nat),
{
    let dir: Vec<u8> = mirror_doc_dir(output_root, relative_pdf_path);
    let name: String = page_file_name(page_num, OutputFormat::Webp);
    join_paths(dir.as_slice(), name.as_str().as_bytes())
}

/// The ending of the file that a page is first written to.
pub open spec fn temp_ending(format: OutputFormat) -> Seq<char> {
    match format {
        OutputFormat::Webp => "webp.tmp"@,
        OutputFormat::Svg => "svg.raw"@,
    }
}

/// The path of the file that a page is first written to.
pub open spec fn temp_path(path: Seq<u8>, format: OutputFormat) -> Seq<u8> {
    with_extension(path, encode_utf8(temp_ending(format)))
}

/// Builds the path of the file that a page is first written to.
pub fn temp_path_for(path: &[u8], format: OutputFormat) -> (r: Vec<u8>)
    ensures
        r@ == temp_path(path@, format),
{
    match format {
        OutputFormat::Webp => replace_extension(path, "webp.tmp".as_bytes()),
        OutputFormat::Svg => replace_extension(path, "svg.raw".as_bytes()),
    }
}

/// What a folder holds: a file, a folder, or something else that has a name.
#[derive(Debug)]
pub struct DirEntry {
    pub name: Vec<u8>,
    pub is_file: bool,
}

/// What was found when a folder was listed.
#[derive(Debug)]
pub struct DirListing {
    /// The folder.
    pub dir: Vec<u8>,
    /// What it holds; `None` where it does not exist or cannot be read.
    pub entries: Option<Vec<DirEntry>>,
}

/// Whether one of the entries is a file whose name ends in `.webp`.
pub open spec fn any_webp(entries: Seq<DirEntry>) -> bool {
    exists|i: int|
        0 <= i < entries.len() && (#[trigger] entries[i]).is_file && has_extension(
            entries[i].name@,
            "webp"@,
        )
}

/// Whether a listing shows that a document was converted: it lists the folder of the
/// document, and there is a WebP file there.
pub open spec fn shows_converted(root: Seq<u8>, rel: Seq<u8>, listing: DirListing) -> bool {
    &&& listing.dir@ == doc_dir(root, rel)
    &&& listing.entries matches Some(entries) && any_webp(entries@)
}

/// Checks whether a PDF seems to have been converted already, by a listing of the folder
/// of its pages.
pub fn is_converted(output_root: &[u8], relative_pdf_path: &[u8], listing: &DirListing) -> (r: bool)
    ensures
        r == shows_converted(output_root@, relative_pdf_path@, *listing),
{
    let dir: Vec<u8> = mirror_doc_dir(output_root, relative_pdf_path);
    if !same_bytes(dir.as_slice(), listing.dir.as_slice()) {
        return false;
    }
    match &listing.entries {
        None => false,
        Some(entries) => any_webp_file(entries),
    }
}

fn any_webp_file(entries: &Vec<DirEntry>) -> (r: bool)
    ensures
        r == any_webp(entries@),
{
    let mut i: usize = 0;
    while i < entries.len()
        invariant
            i <= entries.len(),
            forall|k: int|
                0 <= k < i ==> !((#[trigger] entries@[k]).is_file && has_extension(
                    entries@[k].name@,
                    "webp"@,
                )),
        decreases entries.len() - i,
    {
        if entries[i].is_file && check_extension(entries[i].name.as_slice(), "webp") {
            return true;
        }
        i = i + 1;
    }
    false
}

// ---------------------------------------------------------------------------
// Laws of the output folder
// ---------------------------------------------------------------------------

proof fn lemma_last_dot_at(s: Seq<u8>, k: int)
    requires
        0 <= k < s.len(),
        s[k] == DOT,
        forall|i: int| k < i < s.len() ==> s[i] != DOT,
    ensures
        last_dot(s) == k,
    decreases s.len(),
{
    if k < s.len() - 1 {
        lemma_last_dot_at(s.drop_last(), k);
    }
}

/// The bytes of an ASCII text are its characters.
proof fn lemma_ascii_bytes(t: Seq<char>)
    requires
        is_ascii_chars(t),
    ensures
        encode_utf8(t).len() == t.len(),
        forall|i: int| 0 <= i < t.len() ==> #[trigger] encode_utf8(t)[i] == t[i] as u8,
{
    is_ascii_chars_encode_utf8(t);
}

/// The bytes of the name of a page.
pub open spec fn page_name(page_num: nat, format: OutputFormat) -> Seq<u8> {
    encode_utf8(page_file_text(page_num, format))
}

/// What stands in front of the dot in the name of a page.
pub open spec fn page_stem(page_num: nat) -> Seq<u8> {
    encode_utf8("page-"@ + zero_padded(page_num, 3))
}

proof fn lemma_page_name(page_num: nat, format: OutputFormat)
    ensures
        is_plain_name(page_name(page_num, format)),
        stem_of_name(page_name(page_num, format)) == page_stem(page_num),
        extension_of_name(page_name(page_num, format)) == Some(
            encode_utf8(
                match format {
                    OutputFormat::Webp => "webp"@,
                    OutputFormat::Svg => "svg"@,
                },
            ),
        ),
{
    reveal_strlit("page-");
    reveal_strlit(".webp");
    reveal_strlit("webp");
    reveal_strlit(".svg");
    reveal_strlit("svg");
    let z = zero_padded(page_num, 3);
    law_padded_value(page_num, 3);
    let front = "page-"@ + z;
    let suffix = page_suffix(format);
    let t = page_file_text(page_num, format);
    let b = page_name(page_num, format);
    let n = front.len() as int;
    assert(t =~= front + suffix);
    assert forall|i: int| 0 <= i < front.len() implies '\0' <= #[trigger] front[i] <= '\u{7f}'
        && front[i] != '/' && front[i] != '.' by {
        if i >= 5 {
            assert(front[i] == z[i - 5]);
            assert(is_digit(z[i - 5]));
        }
    }
    assert forall|i: int| 0 <= i < t.len() implies '\0' <= #[trigger] t[i] <= '\u{7f}'
        && t[i] != '/' by {
        if i < n {
            assert(t[i] == front[i]);
        } else {
            assert(t[i] == suffix[i - n]);
        }
    }
    lemma_ascii_bytes(t);
    lemma_ascii_bytes(front);
    assert(b[n] == DOT) by {
        assert(t[n] == suffix[0]);
    }
    assert forall|i: int| n < i < b.len() implies b[i] != DOT by {
        assert(t[i] == suffix[i - n]);
    }
    lemma_last_dot_at(b, n);
    assert forall|k: int| 0 <= k < b.len() implies b[k] != SLASH by {
        assert(t[k] != '/');
    }
    assert(b[0] == 112) by {
        assert(t[0] == front[0]);
    }
    assert(b.take(n) =~= encode_utf8(front)) by {
        assert forall|i: int| 0 <= i < n implies b[i] == encode_utf8(front)[i] by {
            assert(t[i] == front[i]);
        }
    }
    let ext = match format {
        OutputFormat::Webp => "webp"@,
        OutputFormat::Svg => "svg"@,
    };
    lemma_ascii_bytes(ext);
    assert(b.skip(n + 1) =~= encode_utf8(ext)) by {
        assert forall|i: int| 0 <= i < ext.len() implies b.skip(n + 1)[i] == encode_utf8(ext)[i] by {
            assert(t[n + 1 + i] == suffix[1 + i]);
        }
    }
}

/// Once a page of a document is in the folder of the document, under the name that it is
/// given there, the document counts as converted.
pub proof fn law_written_page_counts(
    root: Seq<u8>,
    rel: Seq<u8>,
    listing: DirListing,
    page_num: nat,
    i: int,
)
    requires
        listing.dir@ == doc_dir(root, rel),
        listing.entries is Some,
        0 <= i < listing.entries->0@.len(),
        listing.entries->0@[i].is_file,
        listing.entries->0@[i].name@ == page_name(page_num, OutputFormat::Webp),
    ensures
        shows_converted(root, rel, listing),
{
    let name = listing.entries->0@[i].name@;
    lemma_page_name(page_num, OutputFormat::Webp);
    law_plain_name(name);
    assert(has_extension(listing.entries->0@[i].name@, "webp"@));
}

/// Where no entry of the folder of a document is a file, the document does not count as converted,
/// whatever the names are.
pub proof fn law_only_files_count(root: Seq<u8>, rel: Seq<u8>, listing: DirListing)
    requires
        listing.entries matches Some(entries) ==> forall|i: int|
            0 <= i < entries@.len() ==> !(#[trigger] entries@[i]).is_file,
    ensures
        !shows_converted(root, rel, listing),
{
}

/// A file in the folder of a document whose name ends in a dot and `webp`, in small letters or
/// capitals, makes the document count as converted, whatever else lies there.
pub proof fn law_webp_file_counts(root: Seq<u8>, rel: Seq<u8>, listing: DirListing, i: int)
    requires
        listing.dir@ == doc_dir(root, rel),
        listing.entries matches Some(entries) && 0 <= i < entries@.len() && entries@[i].is_file && {
            let name = entries@[i].name@;
            let n = name.len();
            &&& n >= 6
            &&& name[n - 6] != 47
            &&& name[n - 5] == 46
            &&& name[n - 4] == 119 || name[n - 4] == 87
            &&& name[n - 3] == 101 || name[n - 3] == 69
            &&& name[n - 2] == 98 || name[n - 2] == 66
            &&& name[n - 1] == 112 || name[n - 1] == 80
        },
    ensures
        shows_converted(root, rel, listing),
{
    let entry = listing.entries->0@[i];
    reveal_strlit("webp");
    law_extension_ignores_case(entry.name@, "webp"@);
    assert(has_extension(listing.entries->0@[i].name@, "webp"@));
}

/// Without a file whose name ends in a dot and `webp`, and without a listing of its own folder, a
/// document does not count as converted.
pub proof fn law_other_files_do_not_count(root: Seq<u8>, rel: Seq<u8>, listing: DirListing)
    requires
        listing.dir@ != doc_dir(root, rel) || listing.entries is None || forall|i: int|
            0 <= i < listing.entries->0@.len() ==> {
                let name = (#[trigger] listing.entries->0@[i]).name@;
                let n = name.len();
                &&& n > 0
                &&& name.last() != 47
                &&& name.last() != 46
                &&& n < 5 || name[n - 5] != 46 || (name[n - 1] != 112 && name[n - 1] != 80) || (name[n
                    - 2] != 98 && name[n - 2] != 66) || (name[n - 3] != 101 && name[n - 3] != 69) || (
                name[n - 4] != 119 && name[n - 4] != 87)
            },
    ensures
        !shows_converted(root, rel, listing),
{
    reveal_strlit("webp");
    if shows_converted(root, rel, listing) {
        let entries = listing.entries->0@;
        let i = choose|i: int|
            0 <= i < entries.len() && (#[trigger] entries[i]).is_file && has_extension(
                entries[i].name@,
                "webp"@,
            );
        let name = entries[i].name@;
        law_extension_ignores_case(name, "webp"@);
        assert("webp"@[0] == 'w' && "webp"@[1] == 'e' && "webp"@[2] == 'b' && "webp"@[3] == 'p');
    }
}

/// The name of a page tells its number, in three digits or in as many as it takes, and its format.
pub proof fn law_page_name_tells_its_page(page_num: nat, format: OutputFormat) -> (number: Seq<char>)
    ensures
        page_file_text(page_num, format) == "page-"@ + number + (match format {
            OutputFormat::Webp => ".webp"@,
            OutputFormat::Svg => ".svg"@,
        }),
        all_digits(number),
        digits_value(number) == page_num,
        number.len() >= 3,
        number.len() > 3 ==> number[0] != '0',
{
    let number = zero_padded(page_num, 3);
    law_padded_value(page_num, 3);
    law_decimal_width(page_num, 3);
    assert(is_digit(number[0]));
    if number.len() > 3 {
        assert(number =~= decimal(page_num));
        if page_num == 0 {
            assert(decimal(0).len() == 1);
        }
    }
    number
}

/// The name of a page is a plain name.
pub proof fn law_page_name_is_plain(page_num: nat, format: OutputFormat)
    ensures
        is_plain_name(page_name(page_num, format)),
{
    lemma_page_name(page_num, format);
}

/// A page is first written beside its later place: a WebP page under its name and `.tmp`, a drawing
/// under its name and `.raw`.
pub proof fn law_pages_are_first_written_beside(dir: Seq<u8>, page_num: nat, format: OutputFormat)
    ensures
        temp_path(join(dir, page_name(page_num, format)), format) == join(
            dir,
            page_name(page_num, format) + encode_utf8(
                match format {
                    OutputFormat::Webp => ".tmp"@,
                    OutputFormat::Svg => ".raw"@,
                },
            ),
        ),
{
    reveal_strlit("webp.tmp");
    reveal_strlit("svg.raw");
    reveal_strlit("webp");
    reveal_strlit("svg");
    reveal_strlit(".tmp");
    reveal_strlit(".raw");
    let name = page_name(page_num, format);
    let (whole, ext, more) = match format {
        OutputFormat::Webp => ("webp.tmp"@, "webp"@, ".tmp"@),
        OutputFormat::Svg => ("svg.raw"@, "svg"@, ".raw"@),
    };
    lemma_page_name(page_num, format);
    lemma_ascii_bytes(whole);
    lemma_ascii_bytes(ext);
    lemma_ascii_bytes(more);
    lemma_last_dot(name);
    law_join_with_extension(dir, name, encode_utf8(whole));
    let k = last_dot(name);
    lemma_dot_there(name);
    assert(encode_utf8(whole) =~= encode_utf8(ext) + encode_utf8(more));
    assert(stem_of_name(name).push(DOT) + encode_utf8(whole) =~= name + encode_utf8(more));
}

proof fn lemma_dot_there(name: Seq<u8>)
    ensures
        last_dot(name) >= 0 ==> name[last_dot(name)] == DOT,
    decreases name.len(),
{
    lemma_last_dot(name);
    if name.len() > 0 && name.last() != DOT {
        lemma_dot_there(name.drop_last());
        lemma_last_dot(name.drop_last());
    }
}

/// Pages of a document have different names, so that none is written over another.
pub proof fn law_page_names_differ(a: nat, b: nat, format: OutputFormat)
    requires
        page_name(a, format) == page_name(b, format),
    ensures
        a == b,
{
    let x = page_file_text(a, format);
    let y = page_file_text(b, format);
    encode_utf8_decode_utf8(x);
    encode_utf8_decode_utf8(y);
    assert(x == y);
    let n = zero_padded(a, 3).len() as int;
    assert(zero_padded(b, 3).len() == n);
    let k = "page-"@.len() as int;
    assert(zero_padded(a, 3) =~= x.subrange(k, k + n));
    assert(zero_padded(b, 3) =~= y.subrange(k, k + n));
    law_padded_value(a, 3);
    law_padded_value(b, 3);
}

/// The path of a page lies in the folder of its document.
pub proof fn law_page_in_doc_dir(root: Seq<u8>, rel: Seq<u8>, page_num: nat)
    ensures
        component_texts(page_path(root, rel, page_num)) == component_texts(doc_dir(root, rel)).push(
            page_name(page_num, OutputFormat::Webp),
        ),
        file_name(page_path(root, rel, page_num)) == Some(page_name(page_num, OutputFormat::Webp)),
{
    let name = page_name(page_num, OutputFormat::Webp);
    lemma_page_name(page_num, OutputFormat::Webp);
    law_plain_name(name);
    law_join_texts(doc_dir(root, rel), name);
    law_join_file_name(doc_dir(root, rel), name);
    assert(component_texts(doc_dir(root, rel)) + seq![name] =~= component_texts(
        doc_dir(root, rel),
    ).push(name));
}

/// The name that a page has until it is complete.
pub open spec fn temp_name(page_num: nat) -> Seq<u8> {
    page_stem(page_num).push(DOT) + encode_utf8("webp.tmp"@)
}

/// While a page is being written it lies beside its later place, under a name that does
/// not count as a converted page.
pub proof fn law_unfinished_page_does_not_count(root: Seq<u8>, rel: Seq<u8>, page_num: nat)
    ensures
        temp_path(page_path(root, rel, page_num), OutputFormat::Webp) == join(
            doc_dir(root, rel),
            temp_name(page_num),
        ),
        !has_extension(temp_name(page_num), "webp"@),
{
    reveal_strlit("page-");
    reveal_strlit("webp");
    reveal_strlit("webp.tmp");
    let name = page_name(page_num, OutputFormat::Webp);
    let ending = encode_utf8("webp.tmp"@);
    lemma_page_name(page_num, OutputFormat::Webp);
    law_plain_name(name);
    lemma_ascii_bytes("webp.tmp"@);
    lemma_ascii_bytes("webp"@);
    law_join_with_extension(doc_dir(root, rel), name, ending);
    let stem = page_stem(page_num);
    let t = temp_name(page_num);
    let n = stem.len() as int;
    assert(t[n + 5] == ending[4]);
    assert forall|i: int| n + 5 < i < t.len() implies t[i] != DOT by {
        assert(t[i] == ending[i - n - 1]);
    }
    lemma_last_dot_at(t, n + 5);
    assert forall|k: int| 0 <= k < t.len() implies t[k] != SLASH by {
        if k < n {
            lemma_last_dot(name);
            assert(stem[k] == name[k]);
        } else if k > n {
            assert(t[k] == ending[k - n - 1]);
        }
    }
    law_plain_name(t);
    let ext = t.skip(n + 6);
    assert(ext.len() == 3);
    assert(lower_bytes(ext).len() == 3);
    assert(lower_bytes(encode_utf8("webp"@)).len() == 4);
}

/// The output mirrors the folders of the source: the folder of a document lies below the
/// output folder as the document lies below the source folder, and has its name without
/// the extension.
pub proof fn law_output_mirrors_source(root: Seq<u8>, rel: Seq<u8>)
    requires
        !is_absolute(rel),
        !starts_with_dot(rel),
        file_name(rel) is Some,
        file_stem(rel) != Some(seq![DOT]),
    ensures
        component_texts(doc_dir(root, rel)) == component_texts(root) + component_texts(
            rel,
        ).drop_last().push(file_stem(rel)->0),
{
    let stem = file_stem(rel)->0;
    let folder = parent(rel)->0;
    law_parent_texts(rel);
    law_join_texts(root, folder);
    lemma_stem(rel);
    lemma_single_segment(stem);
    law_join_texts(join(root, folder), stem);
    assert(component_texts(root) + component_texts(rel).drop_last() + seq![stem] =~= component_texts(
        root,
    ) + component_texts(rel).drop_last().push(stem));
}

/// A walk fails at one step, the first that failed, or at none: then all its steps are entries.
pub proof fn law_walk_fails_at_its_first_failure(walk: Seq<WalkStep>, i: int, k: int)
    requires
        0 <= k < walk.len(),
    ensures
        never_fails(walk) ==> walk[k] is Entry,
        fails_first_at(walk, i) ==> 0 <= i < walk.len() && walk[i] is Failed,
        fails_first_at(walk, i) && k < i ==> walk[k] is Entry,
        fails_first_at(walk, i) && fails_first_at(walk, k) ==> i == k,
        walk[k] is Failed ==> exists|j: int| j <= k && #[trigger] fails_first_at(walk, j),
    decreases k,
{
    if walk[k] is Failed && !fails_first_at(walk, k) {
        let before = choose|j: int| 0 <= j < k && #[trigger] walk[j] is Failed;
        law_walk_fails_at_its_first_failure(walk, i, before);
    }
}

/// Paths are placed as in a walk: a folder stands before what it holds, and of two paths one
/// stands before the other or in the same place.
pub proof fn law_folders_stand_before_what_they_hold(p: Seq<Seq<u8>>, q: Seq<Seq<u8>>)
    ensures
        path_not_behind(p, p + q),
        q.len() > 0 ==> !path_not_behind(p + q, p),
        path_not_behind(p, q) || path_not_behind(q, p),
    decreases p.len(),
{
    if p.len() > 0 {
        assert((p + q).drop_first() =~= p.drop_first() + q);
        assert((p + q)[0] == p[0]);
        law_folders_stand_before_what_they_hold(p.drop_first(), q);
        if q.len() > 0 {
            law_folders_stand_before_what_they_hold(p.drop_first(), q.drop_first());
            law_bytes_total(lower_bytes(p[0]), lower_bytes(q[0]));
        }
    }
}

/// Paths are told apart by the first part in which they differ, whatever stands behind it, and
/// without regard to the case of letters.
pub proof fn law_first_other_part_decides(
    p: Seq<Seq<u8>>,
    a: Seq<u8>,
    b: Seq<u8>,
    q: Seq<Seq<u8>>,
    r: Seq<Seq<u8>>,
)
    requires
        lower_bytes(a) != lower_bytes(b),
    ensures
        path_not_behind(p + seq![a] + q, p + seq![b] + r) <==> bytes_before(
            lower_bytes(a),
            lower_bytes(b),
        ),
    decreases p.len(),
{
    let (x, y) = (p + seq![a] + q, p + seq![b] + r);
    if p.len() == 0 {
        assert(x[0] == a);
        assert(y[0] == b);
    } else {
        assert(x[0] == p[0]);
        assert(y[0] == p[0]);
        assert(x.drop_first() =~= p.drop_first() + seq![a] + q);
        assert(y.drop_first() =~= p.drop_first() + seq![b] + r);
        law_first_other_part_decides(p.drop_first(), a, b, q, r);
    }
}

} // verus!
