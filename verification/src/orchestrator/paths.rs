//! Which file paths the pipeline is allowed to touch.
//!
//! A finding is dropped when its file is a protected meta file, when its
//! extension (lower-cased) is a documentation or configuration extension, or
//! when any `/`-separated segment of its path is a directory of examples,
//! tests, docs, vendored or generated code.
use vstd::prelude::*;

use crate::text::{after_last, chars_of, range_eq_str, str_lowercase, to_lowercase};

verus! {

broadcast use vstd::seq_lib::group_seq_properties;

/// Files that must never be modified.
pub const PROTECTED_META_FILES: [&'static str; 13] = [
    "CONTRIBUTING.md",
    ".github/CONTRIBUTING.md",
    "docs/CONTRIBUTING.md",
    "CODE_OF_CONDUCT.md",
    ".github/CODE_OF_CONDUCT.md",
    "LICENSE",
    "LICENSE.md",
    "LICENSE.txt",
    ".github/FUNDING.yml",
    ".github/SECURITY.md",
    "SECURITY.md",
    ".github/CODEOWNERS",
    ".all-contributorsrc",
];

/// Extensions (with their leading dot) of files that are skipped.
pub const SKIP_EXTENSIONS: [&'static str; 9] = [
    ".md",
    ".txt",
    ".rst",
    ".yml",
    ".yaml",
    ".toml",
    ".cfg",
    ".ini",
    ".json",
];

/// Directory names whose files are skipped.
pub const SKIP_DIRECTORIES: [&'static str; 21] = [
    "examples",
    "example",
    "samples",
    "sample",
    "demos",
    "demo",
    "docs",
    "doc",
    "test",
    "tests",
    "testing",
    "test_data",
    "testdata",
    "fixtures",
    "benchmarks",
    "benchmark",
    "__pycache__",
    "vendor",
    "third_party",
    "third-party",
    "node_modules",
];

/// Whether `w` is the text of one of the entries of `list`.
pub open spec fn in_list(list: Seq<&str>, w: Seq<char>) -> bool {
    exists|k: int| 0 <= k < list.len() && #[trigger] list[k]@ == w
}

/// Whether `list` holds the characters `w[from..to]`.
pub fn list_holds(list: &[&str], w: &Vec<char>, from: usize, to: usize) -> (r: bool)
    requires
        from <= to <= w.len(),
    ensures
        r == in_list(list@, w@.subrange(from as int, to as int)),
{
    let mut k: usize = 0;
    while k < list.len()
        invariant
            from <= to <= w.len(),
            k <= list.len(),
            forall|m: int| 0 <= m < k ==> list@[m]@ != w@.subrange(from as int, to as int),
        decreases list.len() - k,
    {
        if range_eq_str(w, from, to, list[k]) {
            assert(list@[k as int]@ == w@.subrange(from as int, to as int));
            return true;
        }
        k = k + 1;
    }
    false
}

/// What `std::path::Path::extension` gives for the path `path` on the
/// platform the crate is built for.
pub uninterp spec fn path_extension_of(path: Seq<char>) -> Option<Seq<char>>;

/// Whether `p` is a plain relative path: not empty, free of the characters
/// that mark prefixes or other separators (`\\`, `:`), and made of `/`-separated
/// segments that are neither empty (so no leading, trailing or doubled `/`)
/// nor `.` or `..`. Its last segment is then its file name.
pub open spec fn is_plain_path(p: Seq<char>) -> bool {
    &&& p.len() > 0
    &&& forall|k: int| 0 <= k < p.len() ==> #[trigger] p[k] != '\\' && p[k] != ':'
    &&& forall|i: int, j: int| #[trigger]
        is_segment_at(p, i, j) ==> i < j && p.subrange(i, j) != seq!['.'] && p.subrange(i, j)
            != seq!['.', '.']
}

/// The extension of the file name `p` as the documentation of
/// `Path::extension` gives it: none without a dot, none when the only dot
/// starts the name, otherwise the text after the last dot.
pub open spec fn file_name_extension(p: Seq<char>) -> Option<Seq<char>> {
    if !(exists|k: int| 0 <= k < p.len() && #[trigger] p[k] == '.') {
        None
    } else if after_last(p, '.').len() + 1 == p.len() {
        None
    } else {
        Some(after_last(p, '.'))
    }
}

/// Calls `std::path::Path::extension` on `path` and converts the extension
/// into a `String`. Claimed: the result is the named value
/// `path_extension_of(path)`, so it depends on the path alone; for a plain
/// relative path it is the documented extension (`file_name_extension`) of
/// its last segment. For other paths (absolute, with `.`, `..` or empty
/// segments, or with `\\` or `:`) what the component parsing yields is not
/// stated.
#[verifier::external_body]
fn path_extension(path: &str) -> (r: Option<String>)
    ensures
        match r {
            Some(e) => path_extension_of(path@) == Some(e@),
            None => path_extension_of(path@) is None,
        },
        is_plain_path(path@) ==> match r {
            Some(e) => file_name_extension(after_last(path@, '/')) == Some(e@),
            None => file_name_extension(after_last(path@, '/')) is None,
        },
{
    match std::path::Path::new(path).extension() {
        Some(e) => Some(e.to_string_lossy().into_owned()),
        None => None,
    }
}

/// Whether `p[i..j]` is one of the `/`-separated segments of `p`
/// (an item of `str::split('/')`).
pub open spec fn is_segment_at(p: Seq<char>, i: int, j: int) -> bool {
    &&& 0 <= i <= j <= p.len()
    &&& forall|k: int| i <= k < j ==> #[trigger] p[k] != '/'
    &&& i == 0 || p[i - 1] == '/'
    &&& j == p.len() || p[j] == '/'
}

/// Whether some segment of `p` is a skipped directory name.
pub open spec fn in_skipped_directory(p: Seq<char>) -> bool {
    exists|i: int, j: int| #[trigger]
        is_segment_at(p, i, j) && in_list(SKIP_DIRECTORIES@, p.subrange(i, j))
}

/// Whether a path with the given lower-cased extension has a skipped extension.
pub open spec fn has_skipped_extension(lowered_extension: Option<Seq<char>>) -> bool {
    match lowered_extension {
        Some(e) => in_list(SKIP_EXTENSIONS@, seq!['.'] + e),
        None => false,
    }
}

/// Whether a finding on `p`, whose extension lower-cased is `lowered_extension`,
/// passes the filters.
pub open spec fn passes_filters(p: Seq<char>, lowered_extension: Option<Seq<char>>) -> bool {
    &&& !in_list(PROTECTED_META_FILES@, p)
    &&& !has_skipped_extension(lowered_extension)
    &&& !in_skipped_directory(p)
}

/// The lower-cased extension of `p`.
pub open spec fn lowered_extension_of(p: Seq<char>) -> Option<Seq<char>> {
    match path_extension_of(p) {
        Some(e) => Some(str_lowercase(e)),
        None => None,
    }
}

/// Whether a finding on the file `p` is kept.
pub open spec fn keeps_path(p: Seq<char>) -> bool {
    passes_filters(p, lowered_extension_of(p))
}

proof fn lemma_segment_unique(p: Seq<char>, i: int, j: int, a: int, b: int)
    requires
        is_segment_at(p, i, j),
        is_segment_at(p, a, b),
        i <= a <= j,
    ensures
        a == i && b == j,
{
    if a > i {
        assert(p[a - 1] != '/');
    }
    if b < j {
        assert(p[b] != '/');
    }
    if b > j {
        assert(p[j] != '/');
    }
}

/// Whether some `/`-separated segment of `p` is a skipped directory.
fn skipped_directory(p: &Vec<char>) -> (r: bool)
    ensures
        r == in_skipped_directory(p@),
{
    let n = p.len();
    let mut i: usize = 0;
    loop
        invariant
            n == p.len(),
            i <= n,
            i == 0 || p@[i - 1] == '/',
            forall|a: int, b: int| #[trigger]
                is_segment_at(p@, a, b) && a < i ==> !in_list(SKIP_DIRECTORIES@, p@.subrange(a, b)),
        decreases n - i,
    {
        let mut j = i;
        while j < n && p[j] != '/'
            invariant
                n == p.len(),
                i <= j <= n,
                forall|k: int| i <= k < j ==> #[trigger] p@[k] != '/',
            decreases n - j,
        {
            j = j + 1;
        }
        assert(is_segment_at(p@, i as int, j as int));
        if list_holds(&SKIP_DIRECTORIES, p, i, j) {
            return true;
        }
        if j == n {
            assert forall|a: int, b: int| #[trigger] is_segment_at(p@, a, b) implies !in_list(
                SKIP_DIRECTORIES@,
                p@.subrange(a, b),
            ) by {
                if a >= i {
                    lemma_segment_unique(p@, i as int, j as int, a, b);
                }
            }
            return false;
        }
        assert forall|a: int, b: int| #[trigger]
            is_segment_at(p@, a, b) && a < j + 1 implies !in_list(
            SKIP_DIRECTORIES@,
            p@.subrange(a, b),
        ) by {
            if a >= i {
                lemma_segment_unique(p@, i as int, j as int, a, b);
            }
        }
        i = j + 1;
    }
}

/// Whether a finding on `path` passes the filters, given the extension of
/// `path` already lower-cased (`None` when the path has no extension): it is
/// not a protected meta file, its extension is not a skipped one, and none of
/// its segments is a skipped directory.
pub fn passes_finding_filters(path: &str, lowered_extension: Option<&str>) -> (r: bool)
    ensures
        r == passes_filters(
            path@,
            match lowered_extension {
                Some(e) => Some(e@),
                None => None,
            },
        ),
{
    let p = chars_of(path);
    assert(p@.subrange(0, p@.len() as int) =~= p@);
    if list_holds(&PROTECTED_META_FILES, &p, 0, p.len()) {
        return false;
    }
    match lowered_extension {
        Some(e) => {
            let mut dotted: Vec<char> = Vec::new();
            dotted.push('.');
            let ec = chars_of(e);
            let mut k: usize = 0;
            while k < ec.len()
                invariant
                    k <= ec.len(),
                    dotted@ == seq!['.'] + ec@.take(k as int),
                decreases ec.len() - k,
            {
                dotted.push(ec[k]);
                assert(ec@.take(k + 1) =~= ec@.take(k as int).push(ec@[k as int]));
                k = k + 1;
            }
            assert(ec@.take(ec@.len() as int) =~= ec@);
            assert(dotted@.subrange(0, dotted@.len() as int) =~= dotted@);
            if list_holds(&SKIP_EXTENSIONS, &dotted, 0, dotted.len()) {
                return false;
            }
        },
        None => {},
    }
    !skipped_directory(&p)
}

/// Whether a finding on `path` is kept by the filters.
pub fn keeps_finding_path(path: &str) -> (r: bool)
    ensures
        r == keeps_path(path@),
        is_plain_path(path@) ==> path_extension_of(path@) == file_name_extension(
            after_last(path@, '/'),
        ),
{
    match path_extension(path) {
        Some(ext) => {
            let lowered = to_lowercase(ext.as_str());
            passes_finding_filters(path, Some(lowered.as_str()))
        },
        None => passes_finding_filters(path, None),
    }
}

/// A finding is dropped when any `/`-separated segment of its path, at any
/// depth, is a skipped directory name.
pub proof fn lemma_skipped_segment_not_kept(p: Seq<char>, i: int, j: int)
    requires
        is_segment_at(p, i, j),
        in_list(SKIP_DIRECTORIES@, p.subrange(i, j)),
    ensures
        in_skipped_directory(p),
        !keeps_path(p),
{
}

/// No skipped directory name holds a `/`.
proof fn lemma_skip_directories_unslashed(k: int)
    requires
        0 <= k < SKIP_DIRECTORIES@.len(),
    ensures
        forall|m: int|
            0 <= m < SKIP_DIRECTORIES@[k]@.len() ==> #[trigger] SKIP_DIRECTORIES@[k]@[m] != '/',
{
    reveal_strlit("examples");
    reveal_strlit("example");
    reveal_strlit("samples");
    reveal_strlit("sample");
    reveal_strlit("demos");
    reveal_strlit("demo");
    reveal_strlit("docs");
    reveal_strlit("doc");
    reveal_strlit("test");
    reveal_strlit("tests");
    reveal_strlit("testing");
    reveal_strlit("test_data");
    reveal_strlit("testdata");
    reveal_strlit("fixtures");
    reveal_strlit("benchmarks");
    reveal_strlit("benchmark");
    reveal_strlit("__pycache__");
    reveal_strlit("vendor");
    reveal_strlit("third_party");
    reveal_strlit("third-party");
    reveal_strlit("node_modules");
}

/// A skipped directory name between two `/`, after any prefix and before any
/// rest, makes the path dropped.
pub proof fn lemma_skipped_directory_anywhere(prefix: Seq<char>, k: int, rest: Seq<char>)
    requires
        0 <= k < SKIP_DIRECTORIES@.len(),
    ensures
        !keeps_path(prefix + seq!['/'] + SKIP_DIRECTORIES@[k]@ + seq!['/'] + rest),
{
    let d = SKIP_DIRECTORIES@[k]@;
    let p = prefix + seq!['/'] + d + seq!['/'] + rest;
    let i: int = prefix.len() as int + 1;
    let j: int = i + d.len();
    lemma_skip_directories_unslashed(k);
    assert forall|m: int| i <= m < j implies #[trigger] p[m] != '/' by {
        assert(p[m] == d[m - i]);
    }
    assert(p.subrange(i, j) =~= d);
    assert(is_segment_at(p, i, j));
    lemma_skipped_segment_not_kept(p, i, j);
}

/// Protected meta files are never kept.
pub proof fn lemma_protected_file_not_kept(p: Seq<char>)
    requires
        in_list(PROTECTED_META_FILES@, p),
    ensures
        !keeps_path(p),
{
}

/// A file whose extension, lower-cased, is a skipped extension is not kept.
pub proof fn lemma_skipped_extension_not_kept(p: Seq<char>, e: Seq<char>)
    requires
        path_extension_of(p) == Some(e),
        in_list(SKIP_EXTENSIONS@, seq!['.'] + str_lowercase(e)),
    ensures
        !keeps_path(p),
{
}

/// A finding is kept when none of the filters applies: its path is not a
/// protected meta file, its extension lower-cased is not a skipped one, and
/// no `/`-separated segment of it is a skipped directory name.
pub proof fn lemma_kept_when_no_filter_applies(p: Seq<char>)
    requires
        !in_list(PROTECTED_META_FILES@, p),
        forall|e: Seq<char>|
            path_extension_of(p) == Some(e) ==> !in_list(
                SKIP_EXTENSIONS@,
                seq!['.'] + #[trigger] str_lowercase(e),
            ),
        forall|i: int, j: int| #[trigger]
            is_segment_at(p, i, j) ==> !in_list(SKIP_DIRECTORIES@, p.subrange(i, j)),
    ensures
        keeps_path(p),
{
}

} // verus!
