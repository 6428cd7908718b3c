//! Keyword sets of titles and the keyword-overlap similarity test.
//!
//! A title's keywords are its whitespace-separated words that are not stop
//! words and whose UTF-8 encoding is longer than two bytes. Two titles are
//! similar when both have keywords and more than half of the smaller keyword
//! set is shared.
use vstd::prelude::*;
use vstd::set_lib::{lemma_int_range, lemma_len_subset, lemma_set_subset_finite, set_int_range};
use vstd::utf8::*;

use crate::text::{chars_eq, chars_of, is_white_space, is_whitespace};

verus! {

broadcast use vstd::seq_lib::group_seq_properties;

/// Words that never count as keywords.
pub const STOP_WORDS: [&'static str; 11] = [
    "a",
    "an",
    "the",
    "in",
    "on",
    "of",
    "for",
    "to",
    "and",
    "or",
    "is",
];

/// Whether `w` is one of [`STOP_WORDS`].
pub open spec fn is_stop_word(w: Seq<char>) -> bool {
    exists|k: int| 0 <= k < 11 && #[trigger] STOP_WORDS@[k]@ == w
}

/// Whether the word `w` counts as a keyword: not a stop word, and longer
/// than two bytes in UTF-8.
pub open spec fn is_keyword(w: Seq<char>) -> bool {
    !is_stop_word(w) && encode_utf8(w).len() > 2
}

/// Whether `s[i..j]` is a word of `s`: a maximal non-empty run of
/// non-whitespace characters (an item of `str::split_whitespace`).
pub open spec fn is_word_at(s: Seq<char>, i: int, j: int) -> bool {
    &&& 0 <= i < j <= s.len()
    &&& forall|k: int| i <= k < j ==> !is_white_space(#[trigger] s[k])
    &&& i == 0 || is_white_space(s[i - 1])
    &&& j == s.len() || is_white_space(s[j])
}

/// The set of keywords among the words of `s`.
pub open spec fn keyword_set(s: Seq<char>) -> Set<Seq<char>> {
    Set::new(
        |w: Seq<char>|
            exists|i: int, j: int| #[trigger]
                is_word_at(s, i, j) && s.subrange(i, j) == w && is_keyword(w),
    )
}

/// Whether two keyword sets are similar: both non-empty, and the shared
/// keywords are more than half of the smaller set.
pub open spec fn keywords_similar(a: Set<Seq<char>>, b: Set<Seq<char>>) -> bool {
    &&& a.len() > 0
    &&& b.len() > 0
    &&& 2 * a.intersect(b).len() > if a.len() <= b.len() {
        a.len()
    } else {
        b.len()
    }
}

/// The character sequences held by a vector of character vectors.
pub open spec fn views(v: Seq<Vec<char>>) -> Seq<Seq<char>> {
    v.map_values(|x: Vec<char>| x@)
}

/// The number of UTF-8 bytes that encode `c`.
pub open spec fn utf8_width(c: char) -> nat {
    let v = c as u32;
    if v <= 0x7f {
        1
    } else if v <= 0x7ff {
        2
    } else if v <= 0xffff {
        3
    } else {
        4
    }
}

/// The number of UTF-8 bytes that encode `w`, char by char.
pub open spec fn utf8_width_sum(w: Seq<char>) -> nat
    decreases w.len(),
{
    if w.len() == 0 {
        0
    } else {
        utf8_width(w[0]) + utf8_width_sum(w.drop_first())
    }
}

proof fn lemma_encode_len(w: Seq<char>)
    ensures
        encode_utf8(w).len() == utf8_width_sum(w),
        utf8_width_sum(w) >= w.len(),
    decreases w.len(),
{
    if w.len() > 0 {
        lemma_encode_len(w.drop_first());
        let v = w[0] as u32;
        char_is_scalar(w[0]);
        assert(encode_scalar(v).len() == utf8_width(w[0]));
    }
}

/// The UTF-8 width of one character.
fn char_width(c: char) -> (r: usize)
    ensures
        r == utf8_width(c),
{
    let v = c as u32;
    if v <= 0x7f {
        1
    } else if v <= 0x7ff {
        2
    } else if v <= 0xffff {
        3
    } else {
        4
    }
}

/// Whether `w` takes more than two bytes in UTF-8.
fn longer_than_two_bytes(w: &Vec<char>) -> (r: bool)
    ensures
        r == (encode_utf8(w@).len() > 2),
{
    proof {
        lemma_encode_len(w@);
    }
    if w.len() >= 3 {
        return true;
    }
    let mut total: usize = 0;
    let mut k: usize = 0;
    assert(w@.skip(0) =~= w@);
    while k < w.len()
        invariant
            w.len() < 3,
            k <= w.len(),
            total <= 4 * k,
            total + utf8_width_sum(w@.skip(k as int)) == utf8_width_sum(w@),
        decreases w.len() - k,
    {
        proof {
            let t = w@.skip(k as int);
            assert(t.drop_first() =~= w@.skip(k + 1));
            assert(t[0] == w@[k as int]);
        }
        total = total + char_width(w[k]);
        k = k + 1;
    }
    assert(w@.skip(k as int).len() == 0);
    total > 2
}

/// Whether `w` is one of the stop words.
fn is_stop(w: &Vec<char>) -> (r: bool)
    ensures
        r == is_stop_word(w@),
{
    let mut k: usize = 0;
    while k < 11
        invariant
            k <= 11,
            forall|m: int| 0 <= m < k ==> STOP_WORDS@[m]@ != w@,
        decreases 11 - k,
    {
        let sw = chars_of(STOP_WORDS[k]);
        if chars_eq(w, &sw) {
            assert(STOP_WORDS@[k as int]@ == w@);
            return true;
        }
        k = k + 1;
    }
    false
}

/// Whether the word `w` is a keyword.
fn keyword(w: &Vec<char>) -> (r: bool)
    ensures
        r == is_keyword(w@),
{
    !is_stop(w) && longer_than_two_bytes(w)
}

/// Whether `list` holds `w`.
fn holds(list: &Vec<Vec<char>>, w: &Vec<char>) -> (r: bool)
    ensures
        r == views(list@).contains(w@),
{
    let mut k: usize = 0;
    while k < list.len()
        invariant
            k <= list.len(),
            forall|m: int| 0 <= m < k ==> views(list@)[m] != w@,
        decreases list.len() - k,
    {
        if chars_eq(&list[k], w) {
            assert(views(list@)[k as int] == w@);
            return true;
        }
        k = k + 1;
    }
    false
}

/// Two words of `s` that overlap the word `s[i..j]` from its start on are that word.
proof fn lemma_word_unique(s: Seq<char>, i: int, j: int, a: int, b: int)
    requires
        is_word_at(s, i, j),
        is_word_at(s, a, b),
        i < b <= j,
    ensures
        a == i && b == j,
{
    if a < i {
        assert(!is_white_space(s[i - 1]));
    } else if a > i {
        assert(!is_white_space(s[a - 1]));
    } else if b < j {
        assert(!is_white_space(s[b]));
    }
}

/// The keywords of `s`, each once.
pub fn keyword_list(s: &Vec<char>) -> (r: Vec<Vec<char>>)
    ensures
        views(r@).no_duplicates(),
        views(r@).to_set() == keyword_set(s@),
{
    let n = s.len();
    let mut out: Vec<Vec<char>> = Vec::new();
    let mut i: usize = 0;
    while i < n
        invariant
            n == s.len(),
            i <= n,
            i == 0 || i == n || is_white_space(s@[i - 1]) || is_white_space(s@[i as int]),
            views(out@).no_duplicates(),
            forall|w: Seq<char>|
                views(out@).contains(w) <==> exists|a: int, b: int| #[trigger]
                    is_word_at(s@, a, b) && b <= i && s@.subrange(a, b) == w && is_keyword(w),
        decreases n - i,
    {
        if is_whitespace(s[i]) {
            proof {
                assert forall|a: int, b: int| #[trigger]
                    is_word_at(s@, a, b) && b <= i + 1 implies b <= i by {
                    if b == i + 1 {
                        assert(!is_white_space(s@[b - 1]));
                    }
                }
            }
            i = i + 1;
        } else {
            let mut j = i;
            let mut w: Vec<char> = Vec::new();
            while j < n && !is_whitespace(s[j])
                invariant
                    n == s.len(),
                    i <= j <= n,
                    forall|k: int| i <= k < j ==> !is_white_space(#[trigger] s@[k]),
                    w@ == s@.subrange(i as int, j as int),
                decreases n - j,
            {
                w.push(s[j]);
                assert(s@.subrange(i as int, j + 1) =~= s@.subrange(i as int, j as int).push(
                    s@[j as int],
                ));
                j = j + 1;
            }
            assert(is_word_at(s@, i as int, j as int));
            let ghost old_views = views(out@);
            let ghost word = s@.subrange(i as int, j as int);
            assert(forall|x: Seq<char>|
                old_views.contains(x) <==> exists|a: int, b: int| #[trigger]
                    is_word_at(s@, a, b) && b <= i && s@.subrange(a, b) == x && is_keyword(x));
            let is_kw = keyword(&w);
            let present = if is_kw {
                holds(&out, &w)
            } else {
                false
            };
            if is_kw && !present {
                out.push(w);
                assert(views(out@) =~= old_views.push(word));
            }
            proof {
                assert forall|x: Seq<char>|
                    views(out@).contains(x) <==> exists|a: int, b: int| #[trigger]
                        is_word_at(s@, a, b) && b <= j && s@.subrange(a, b) == x && is_keyword(
                            x,
                        ) by {
                    if views(out@).contains(x) {
                        if old_views.contains(x) {
                            let (a, b) = choose|a: int, b: int| #[trigger]
                                is_word_at(s@, a, b) && b <= i && s@.subrange(a, b) == x
                                    && is_keyword(x);
                            assert(is_word_at(s@, a, b) && b <= j);
                        } else {
                            assert(is_kw && !present);
                            assert(old_views.push(word).contains(x));
                            assert(x == word);
                            assert(is_word_at(s@, i as int, j as int));
                        }
                    }
                    if exists|a: int, b: int| #[trigger]
                        is_word_at(s@, a, b) && b <= j && s@.subrange(a, b) == x && is_keyword(x) {
                        let (a, b) = choose|a: int, b: int| #[trigger]
                            is_word_at(s@, a, b) && b <= j && s@.subrange(a, b) == x && is_keyword(
                                x,
                            );
                        if b > i {
                            lemma_word_unique(s@, i as int, j as int, a, b);
                            assert(x == word);
                            if is_kw && !present {
                                assert(old_views.push(word)[old_views.len() as int] == x);
                            }
                        } else {
                            assert(old_views.contains(x));
                            if is_kw && !present {
                                let k = choose|k: int| 0 <= k < old_views.len() && old_views[k] == x;
                                assert(old_views.push(word)[k] == x);
                            }
                        }
                    }
                }
            }
            i = j;
        }
    }
    proof {
        assert(views(out@).to_set() =~= keyword_set(s@));
    }
    out
}

/// The number of keywords that `a` and `b` share.
pub fn count_shared(a: &Vec<Vec<char>>, b: &Vec<Vec<char>>) -> (r: usize)
    requires
        views(a@).no_duplicates(),
    ensures
        r == views(a@).to_set().intersect(views(b@).to_set()).len(),
{
    let ghost av = views(a@);
    let ghost bs = views(b@).to_set();
    let ghost mut shared: Seq<Seq<char>> = Seq::empty();
    let mut count: usize = 0;
    let mut i: usize = 0;
    while i < a.len()
        invariant
            av == views(a@),
            bs == views(b@).to_set(),
            av.no_duplicates(),
            i <= a.len(),
            count == shared.len(),
            count <= i,
            shared.no_duplicates(),
            forall|x: Seq<char>|
                shared.contains(x) <==> (exists|k: int| 0 <= k < i && #[trigger] av[k] == x)
                    && bs.contains(x),
        decreases a.len() - i,
    {
        let ghost old_shared = shared;
        assert(forall|x: Seq<char>|
            old_shared.contains(x) <==> (exists|k: int| 0 <= k < i && #[trigger] av[k] == x)
                && bs.contains(x));
        let in_b = holds(b, &a[i]);
        proof {
            assert(av[i as int] == a@[i as int]@);
        }
        if in_b {
            proof {
                if old_shared.contains(av[i as int]) {
                    let k = choose|k: int| 0 <= k < i && #[trigger] av[k] == av[i as int];
                    assert(false);
                }
                shared = shared.push(av[i as int]);
            }
            count = count + 1;
        }
        proof {
            assert forall|x: Seq<char>|
                shared.contains(x) <==> (exists|k: int| 0 <= k < i + 1 && #[trigger] av[k] == x)
                    && bs.contains(x) by {
                if shared.contains(x) {
                    if old_shared.contains(x) {
                        let k = choose|k: int| 0 <= k < i && #[trigger] av[k] == x;
                        assert(0 <= k < i + 1 && av[k] == x);
                    } else {
                        assert(in_b);
                        let m = choose|m: int| 0 <= m < shared.len() && shared[m] == x;
                        if m < old_shared.len() {
                            assert(old_shared[m] == x);
                            assert(old_shared.contains(x));
                        }
                        assert(x == av[i as int]);
                    }
                }
                if (exists|k: int| 0 <= k < i + 1 && #[trigger] av[k] == x) && bs.contains(x) {
                    let k = choose|k: int| 0 <= k < i + 1 && #[trigger] av[k] == x;
                    if k < i {
                        assert(old_shared.contains(x));
                        if in_b {
                            let m = choose|m: int| 0 <= m < old_shared.len() && old_shared[m] == x;
                            assert(shared[m] == x);
                        }
                    } else {
                        assert(in_b);
                        assert(shared[old_shared.len() as int] == x);
                    }
                }
            }
        }
        i = i + 1;
    }
    proof {
        assert(shared.to_set() =~= av.to_set().intersect(bs)) by {
            assert forall|x: Seq<char>| #[trigger] av.to_set().contains(x) implies exists|k: int|
                0 <= k < av.len() && #[trigger] av[k] == x by {
                let k = choose|k: int| 0 <= k < av.len() && av[k] == x;
            }
        }
        shared.unique_seq_to_set();
    }
    count
}

/// Whether two already lower-cased titles are similar: both have keywords,
/// and more than half of the smaller keyword set is shared.
pub fn similar_lowercased(title_a: &str, title_b: &str) -> (r: bool)
    ensures
        r == keywords_similar(keyword_set(title_a@), keyword_set(title_b@)),
{
    let ca = chars_of(title_a);
    let cb = chars_of(title_b);
    let ka = keyword_list(&ca);
    let kb = keyword_list(&cb);
    proof {
        views(ka@).unique_seq_to_set();
        views(kb@).unique_seq_to_set();
    }
    if ka.len() == 0 || kb.len() == 0 {
        return false;
    }
    let overlap = count_shared(&ka, &kb);
    let smaller = if ka.len() <= kb.len() {
        ka.len()
    } else {
        kb.len()
    };
    overlap > smaller / 2
}

/// Keyword-set similarity does not depend on the order of the sets.
pub proof fn lemma_similarity_symmetric(a: Set<Seq<char>>, b: Set<Seq<char>>)
    ensures
        keywords_similar(a, b) == keywords_similar(b, a),
{
    assert(a.intersect(b) =~= b.intersect(a));
}

/// A keyword set is similar to itself exactly when it is not empty.
pub proof fn lemma_similarity_reflexive(a: Set<Seq<char>>)
    ensures
        keywords_similar(a, a) == (a.len() > 0),
{
    assert(a.intersect(a) =~= a);
}

/// The pieces `s[i..j]` of `s` that end at or before `n`.
spec fn pieces_up_to(s: Seq<char>, n: int) -> Set<Seq<char>> {
    Set::new(
        |w: Seq<char>| exists|i: int, j: int| 0 <= i <= j <= n && #[trigger] s.subrange(i, j) == w,
    )
}

proof fn lemma_pieces_finite(s: Seq<char>, n: int)
    requires
        0 <= n <= s.len(),
    ensures
        pieces_up_to(s, n).finite(),
    decreases n,
{
    if n == 0 {
        assert(pieces_up_to(s, 0) =~= Set::empty().insert(s.subrange(0, 0)));
    } else {
        lemma_pieces_finite(s, n - 1);
        let f = |i: int| s.subrange(i, n);
        let ends = set_int_range(0, n + 1).map(f);
        lemma_int_range(0, n + 1);
        set_int_range(0, n + 1).lemma_map_finite(f);
        let u = pieces_up_to(s, n - 1).union(ends);
        assert forall|w: Seq<char>| pieces_up_to(s, n).contains(w) implies u.contains(w) by {
            let (i, j) = choose|i: int, j: int|
                0 <= i <= j <= n && #[trigger] s.subrange(i, j) == w;
            if j < n {
                assert(pieces_up_to(s, n - 1).contains(w));
            } else {
                assert(set_int_range(0, n + 1).contains(i));
                assert(f(i) == w);
                assert(ends.contains(w));
            }
        }
        lemma_set_subset_finite(u, pieces_up_to(s, n));
    }
}

/// A text has finitely many keywords.
pub proof fn lemma_keyword_set_finite(s: Seq<char>)
    ensures
        keyword_set(s).finite(),
{
    let all = pieces_up_to(s, s.len() as int);
    lemma_pieces_finite(s, s.len() as int);
    assert forall|w: Seq<char>| keyword_set(s).contains(w) implies all.contains(w) by {
        let (i, j) = choose|i: int, j: int| #[trigger]
            is_word_at(s, i, j) && s.subrange(i, j) == w && is_keyword(w);
        assert(0 <= i <= j <= s.len() && s.subrange(i, j) == w);
    }
    lemma_set_subset_finite(all, keyword_set(s));
}

/// Similarity is measured against the smaller set: when `a` is not empty and
/// no larger than `b`, the sets are similar exactly when more than half of
/// `a` is shared, however large `b` is.
pub proof fn lemma_similarity_against_smaller(a: Set<Seq<char>>, b: Set<Seq<char>>)
    requires
        a.finite(),
        b.finite(),
        0 < a.len() <= b.len(),
    ensures
        keywords_similar(a, b) <==> 2 * a.intersect(b).len() > a.len(),
        keywords_similar(b, a) <==> 2 * a.intersect(b).len() > a.len(),
{
    lemma_similarity_symmetric(a, b);
}

/// A non-empty keyword set that is contained in another is similar to it, in
/// either order: all of the smaller set is shared.
pub proof fn lemma_contained_keywords_similar(a: Set<Seq<char>>, b: Set<Seq<char>>)
    requires
        a.finite(),
        b.finite(),
        a.len() > 0,
        a.subset_of(b),
    ensures
        keywords_similar(a, b),
        keywords_similar(b, a),
{
    assert(a.intersect(b) =~= a);
    lemma_len_subset(a, b);
    lemma_similarity_symmetric(a, b);
}

/// Two lower-cased titles are similar when one has a keyword and all of its
/// keywords are keywords of the other, whichever title has more keywords.
pub proof fn lemma_contained_title_keywords_similar(a: Seq<char>, b: Seq<char>)
    requires
        exists|w: Seq<char>| keyword_set(a).contains(w),
        keyword_set(a).subset_of(keyword_set(b)),
    ensures
        keywords_similar(keyword_set(a), keyword_set(b)),
        keywords_similar(keyword_set(b), keyword_set(a)),
{
    let ka = keyword_set(a);
    let kb = keyword_set(b);
    lemma_keyword_set_finite(a);
    lemma_keyword_set_finite(b);
    let w = choose|w: Seq<char>| ka.contains(w);
    assert(ka.remove(w).len() + 1 == ka.len());
    lemma_contained_keywords_similar(ka, kb);
}

/// A single word (non-empty, without whitespace) has itself as its only
/// keyword when it is a keyword, and no keyword otherwise.
pub proof fn lemma_keyword_set_of_word(w: Seq<char>)
    requires
        w.len() > 0,
        forall|k: int| 0 <= k < w.len() ==> !is_white_space(#[trigger] w[k]),
    ensures
        keyword_set(w) == if is_keyword(w) {
            Set::empty().insert(w)
        } else {
            Set::<Seq<char>>::empty()
        },
{
    assert(is_word_at(w, 0, w.len() as int));
    assert(w.subrange(0, w.len() as int) =~= w);
    assert forall|i: int, j: int| #[trigger] is_word_at(w, i, j) implies i == 0 && j == w.len() by {
        if i > 0 {
            assert(!is_white_space(w[i - 1]));
        }
        if j < w.len() {
            assert(!is_white_space(w[j]));
        }
    }
    if is_keyword(w) {
        assert(keyword_set(w) =~= Set::empty().insert(w));
    } else {
        assert(keyword_set(w) =~= Set::<Seq<char>>::empty());
    }
}

/// The keywords of two texts joined by a whitespace character are the
/// keywords of the one and of the other: where a word stands does not matter.
pub proof fn lemma_keyword_set_of_joined(x: Seq<char>, c: char, y: Seq<char>)
    requires
        is_white_space(c),
    ensures
        keyword_set(x + seq![c] + y) == keyword_set(x).union(keyword_set(y)),
{
    let s = x + seq![c] + y;
    let n = x.len() as int;
    assert(s[n] == c);
    assert forall|w: Seq<char>| #[trigger] keyword_set(s).contains(w) implies keyword_set(
        x,
    ).union(keyword_set(y)).contains(w) by {
        let (i, j) = choose|i: int, j: int| #[trigger]
            is_word_at(s, i, j) && s.subrange(i, j) == w && is_keyword(w);
        if j <= n {
            assert forall|k: int| i <= k < j implies !is_white_space(#[trigger] x[k]) by {
                assert(x[k] == s[k]);
            }
            if i > 0 {
                assert(x[i - 1] == s[i - 1]);
            }
            if j < n {
                assert(x[j] == s[j]);
            }
            assert(is_word_at(x, i, j));
            assert(x.subrange(i, j) =~= s.subrange(i, j));
            assert(keyword_set(x).contains(w));
        } else if i <= n {
            assert(!is_white_space(s[n]));
        } else {
            let a = i - n - 1;
            let b = j - n - 1;
            assert forall|k: int| a <= k < b implies !is_white_space(#[trigger] y[k]) by {
                assert(y[k] == s[k + n + 1]);
            }
            if a > 0 {
                assert(y[a - 1] == s[i - 1]);
            }
            if b < y.len() {
                assert(y[b] == s[j]);
            }
            assert(is_word_at(y, a, b));
            assert(y.subrange(a, b) =~= s.subrange(i, j));
            assert(keyword_set(y).contains(w));
        }
    }
    assert forall|w: Seq<char>| #[trigger] keyword_set(x).union(keyword_set(y)).contains(w)
        implies keyword_set(s).contains(w) by {
        if keyword_set(x).contains(w) {
            let (i, j) = choose|i: int, j: int| #[trigger]
                is_word_at(x, i, j) && x.subrange(i, j) == w && is_keyword(w);
            assert forall|k: int| i <= k < j implies !is_white_space(#[trigger] s[k]) by {
                assert(x[k] == s[k]);
            }
            if i > 0 {
                assert(x[i - 1] == s[i - 1]);
            }
            assert(s[j] == if j < n { x[j] } else { c });
            assert(is_word_at(s, i, j));
            assert(x.subrange(i, j) =~= s.subrange(i, j));
        } else {
            let (a, b) = choose|a: int, b: int| #[trigger]
                is_word_at(y, a, b) && y.subrange(a, b) == w && is_keyword(w);
            let i = a + n + 1;
            let j = b + n + 1;
            assert forall|k: int| i <= k < j implies !is_white_space(#[trigger] s[k]) by {
                assert(y[k - n - 1] == s[k]);
            }
            assert(s[i - 1] == if a > 0 { y[a - 1] } else { c });
            if b < y.len() {
                assert(y[b] == s[j]);
            }
            assert(is_word_at(s, i, j));
            assert(y.subrange(a, b) =~= s.subrange(i, j));
        }
    }
    assert(keyword_set(s) =~= keyword_set(x).union(keyword_set(y)));
}

/// A word of three or more characters that is not a stop word is a keyword.
pub proof fn lemma_long_word_is_keyword(w: Seq<char>)
    requires
        w.len() >= 3,
        !is_stop_word(w),
    ensures
        is_keyword(w),
{
    lemma_encode_len(w);
}

/// A word of at most two ASCII characters is never a keyword, and neither is
/// a stop word.
pub proof fn lemma_short_or_stop_word_not_keyword(w: Seq<char>)
    requires
        (w.len() <= 2 && forall|k: int| 0 <= k < w.len() ==> (#[trigger] w[k] as u32) < 0x80)
            || is_stop_word(w),
    ensures
        !is_keyword(w),
{
    lemma_encode_len(w);
    if !is_stop_word(w) {
        reveal_with_fuel(utf8_width_sum, 3);
        if w.len() > 0 {
            assert(utf8_width(w[0]) == 1);
            if w.len() > 1 {
                assert(w.drop_first()[0] == w[1]);
                assert(utf8_width(w[1]) == 1);
                assert(w.drop_first().drop_first().len() == 0);
            } else {
                assert(w.drop_first().len() == 0);
            }
        }
    }
}

} // verus!
