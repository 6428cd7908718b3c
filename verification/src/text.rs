//! Character-level helpers shared by the rest of the library: whitespace,
//! trimming, suffix stripping, decimal rendering and string building.
use vstd::prelude::*;

verus! {

/// The Unicode `White_Space` property, which is what `char::is_whitespace` tests.
pub open spec fn is_white_space(c: char) -> bool {
    let v = c as u32;
    ||| 0x9 <= v <= 0xd
    ||| v == 0x20
    ||| v == 0x85
    ||| v == 0xa0
    ||| v == 0x1680
    ||| 0x2000 <= v <= 0x200a
    ||| v == 0x2028
    ||| v == 0x2029
    ||| v == 0x202f
    ||| v == 0x205f
    ||| v == 0x3000
}

/// Executable test for [`is_white_space`].
pub fn is_whitespace(c: char) -> (r: bool)
    ensures
        r == is_white_space(c),
{
    let v = c as u32;
    (0x9 <= v && v <= 0xd) || v == 0x20 || v == 0x85 || v == 0xa0 || v == 0x1680 || (0x2000 <= v
        && v <= 0x200a) || v == 0x2028 || v == 0x2029 || v == 0x202f || v == 0x205f || v == 0x3000
}

/// `s` without its leading whitespace.
pub open spec fn trim_start(s: Seq<char>) -> Seq<char>
    decreases s.len(),
{
    if s.len() > 0 && is_white_space(s[0]) {
        trim_start(s.drop_first())
    } else {
        s
    }
}

/// `s` without its trailing whitespace.
pub open spec fn trim_end(s: Seq<char>) -> Seq<char>
    decreases s.len(),
{
    if s.len() > 0 && is_white_space(s.last()) {
        trim_end(s.drop_last())
    } else {
        s
    }
}

/// `s` without leading and trailing whitespace (what `str::trim` returns).
pub open spec fn trim(s: Seq<char>) -> Seq<char> {
    trim_start(trim_end(s))
}

/// `s` with every trailing occurrence of `c` removed (`str::trim_end_matches(c)`).
pub open spec fn strip_trailing_char(s: Seq<char>, c: char) -> Seq<char>
    decreases s.len(),
{
    if s.len() > 0 && s.last() == c {
        strip_trailing_char(s.drop_last(), c)
    } else {
        s
    }
}

/// `s` with the non-empty suffix `suffix` removed as often as it ends `s`
/// (`str::trim_end_matches(suffix)`).
pub open spec fn strip_trailing_seq(s: Seq<char>, suffix: Seq<char>) -> Seq<char>
    decreases s.len(),
{
    if suffix.len() > 0 && suffix.len() <= s.len() && s.subrange(
        s.len() - suffix.len(),
        s.len() as int,
    ) == suffix {
        strip_trailing_seq(s.subrange(0, s.len() - suffix.len()), suffix)
    } else {
        s
    }
}

/// The part of `s` after its last `sep` (all of `s` when it holds no `sep`):
/// the first item of `str::rsplit(sep)`.
pub open spec fn after_last(s: Seq<char>, sep: char) -> Seq<char>
    decreases s.len(),
{
    if s.len() == 0 {
        s
    } else if s.last() == sep {
        Seq::empty()
    } else {
        after_last(s.drop_last(), sep).push(s.last())
    }
}

/// Whether `needle` occurs in `hay` as a contiguous run.
pub open spec fn contains_seq(hay: Seq<char>, needle: Seq<char>) -> bool {
    exists|i: int|
        0 <= i && i + needle.len() <= hay.len() && #[trigger] hay.subrange(i, i + needle.len())
            == needle
}

/// Whether `needle` occurs in `hay` at position `i`.
pub open spec fn occurs_at(hay: Seq<char>, needle: Seq<char>, i: int) -> bool {
    0 <= i && i + needle.len() <= hay.len() && hay.subrange(i, i + needle.len()) == needle
}

/// Whether `needle` occurs in `hay` at exactly one position.
pub open spec fn occurs_once(hay: Seq<char>, needle: Seq<char>) -> bool {
    &&& contains_seq(hay, needle)
    &&& forall|i: int, j: int|
        #![trigger occurs_at(hay, needle, i), occurs_at(hay, needle, j)]
        occurs_at(hay, needle, i) && occurs_at(hay, needle, j) ==> i == j
}

/// `needle` does not occur in `hay` when no window of `hay` matches its
/// first `k` characters.
pub proof fn lemma_absent_by_prefix(hay: Seq<char>, needle: Seq<char>, k: int)
    requires
        0 < k <= needle.len(),
        forall|i: int|
            0 <= i && i + k <= hay.len() ==> #[trigger] hay.subrange(i, i + k) != needle.subrange(
                0,
                k,
            ),
    ensures
        !contains_seq(hay, needle),
{
    if contains_seq(hay, needle) {
        let i = choose|i: int|
            0 <= i && i + needle.len() <= hay.len() && #[trigger] hay.subrange(i, i + needle.len())
                == needle;
        assert(hay.subrange(i, i + k) =~= hay.subrange(i, i + needle.len()).subrange(0, k));
    }
}

/// The decimal digit character of `d`.
pub open spec fn digit_char(d: nat) -> char {
    (('0' as u32) + d) as char
}

/// The decimal rendering of `n`, without leading zeros (what `{}` prints).
pub open spec fn decimal(n: nat) -> Seq<char>
    decreases n,
{
    if n < 10 {
        seq![digit_char(n)]
    } else {
        decimal(n / 10).push(digit_char(n % 10))
    }
}

/// The characters of `s`, in order.
pub fn chars_of(s: &str) -> (r: Vec<char>)
    ensures
        r@ == s@,
{
    let mut v: Vec<char> = Vec::new();
    for c in it: s.chars()
        invariant
            v@ == it.seq().take(it.index()),
            it.seq() == s@,
    {
        v.push(c);
    }
    v
}

/// The Unicode lower-casing of `s`, as `str::to_lowercase` computes it.
pub uninterp spec fn str_lowercase(s: Seq<char>) -> Seq<char>;

/// Calls `str::to_lowercase`. Claimed: the result is the named value
/// `str_lowercase(s)`, so it depends on `s` alone; the Unicode case mapping
/// itself is not stated.
#[verifier::external_body]
pub(crate) fn to_lowercase(s: &str) -> (r: String)
    ensures
        r@ == str_lowercase(s@),
{
    s.to_lowercase()
}

/// Appends one character to a `String` (`String::push`).
#[verifier::external_body]
pub(crate) fn push_char(s: &mut String, c: char)
    ensures
        final(s)@ == old(s)@.push(c),
{
    s.push(c);
}

/// A `String` holding `v[from..to]`.
pub fn string_from_range(v: &Vec<char>, from: usize, to: usize) -> (r: String)
    requires
        from <= to <= v.len(),
    ensures
        r@ == v@.subrange(from as int, to as int),
{
    let mut s = String::new();
    let mut i = from;
    while i < to
        invariant
            from <= i <= to <= v.len(),
            s@ == v@.subrange(from as int, i as int),
        decreases to - i,
    {
        push_char(&mut s, v[i]);
        assert(v@.subrange(from as int, i + 1) =~= v@.subrange(from as int, i as int).push(v@[i as int]));
        i = i + 1;
    }
    s
}

/// A `String` holding all of `v`.
pub fn string_from_chars(v: &Vec<char>) -> (r: String)
    ensures
        r@ == v@,
{
    let s = string_from_range(v, 0, v.len());
    assert(v@.subrange(0, v@.len() as int) =~= v@);
    s
}

/// Whether `a[from..to]` equals `b`.
pub fn range_eq(a: &Vec<char>, from: usize, to: usize, b: &Vec<char>) -> (r: bool)
    requires
        from <= to <= a.len(),
    ensures
        r == (a@.subrange(from as int, to as int) == b@),
{
    if to - from != b.len() {
        return false;
    }
    let mut k: usize = 0;
    while k < b.len()
        invariant
            from <= to <= a.len(),
            to - from == b.len(),
            k <= b.len(),
            forall|m: int| 0 <= m < k ==> a@[from + m] == b@[m],
        decreases b.len() - k,
    {
        if a[from + k] != b[k] {
            assert(a@.subrange(from as int, to as int)[k as int] != b@[k as int]);
            return false;
        }
        k = k + 1;
    }
    assert(a@.subrange(from as int, to as int) =~= b@);
    true
}

/// Whether `a` equals `b`.
pub fn chars_eq(a: &Vec<char>, b: &Vec<char>) -> (r: bool)
    ensures
        r == (a@ == b@),
{
    let r = range_eq(a, 0, a.len(), b);
    assert(a@.subrange(0, a@.len() as int) =~= a@);
    r
}

/// Whether the characters `a[from..to]` are those of `s`.
pub fn range_eq_str(a: &Vec<char>, from: usize, to: usize, s: &str) -> (r: bool)
    requires
        from <= to <= a.len(),
    ensures
        r == (a@.subrange(from as int, to as int) == s@),
{
    let b = chars_of(s);
    range_eq(a, from, to, &b)
}

proof fn lemma_trim_end_take(s: Seq<char>, hi: int)
    requires
        0 <= hi <= s.len(),
        forall|k: int| hi <= k < s.len() ==> is_white_space(s[k]),
    ensures
        trim_end(s) == trim_end(s.take(hi)),
    decreases s.len() - hi,
{
    if hi < s.len() {
        assert(s.drop_last() =~= s.take(s.len() - 1));
        lemma_trim_end_take(s.drop_last(), hi);
        assert(s.drop_last().take(hi) =~= s.take(hi));
    } else {
        assert(s.take(hi) =~= s);
    }
}

proof fn lemma_trim_start_skip(s: Seq<char>, lo: int)
    requires
        0 <= lo <= s.len(),
        forall|k: int| 0 <= k < lo ==> is_white_space(s[k]),
    ensures
        trim_start(s) == trim_start(s.skip(lo)),
    decreases lo,
{
    if lo > 0 {
        lemma_trim_start_skip(s.drop_first(), lo - 1);
        assert(s.drop_first().skip(lo - 1) =~= s.skip(lo));
    } else {
        assert(s.skip(0) =~= s);
    }
}

/// `s` without leading and trailing whitespace (`str::trim`).
pub fn trim_chars(s: &Vec<char>) -> (r: Vec<char>)
    ensures
        r@ == trim(s@),
{
    let mut hi = s.len();
    while hi > 0 && is_whitespace(s[hi - 1])
        invariant
            hi <= s.len(),
            forall|k: int| hi <= k < s.len() ==> is_white_space(s@[k]),
        decreases hi,
    {
        hi = hi - 1;
    }
    proof {
        lemma_trim_end_take(s@, hi as int);
        let t = s@.take(hi as int);
        if hi > 0 {
            assert(t.last() == s@[hi - 1]);
        }
        assert(trim_end(t) == t);
    }
    let mut lo: usize = 0;
    while lo < hi && is_whitespace(s[lo])
        invariant
            lo <= hi <= s.len(),
            forall|k: int| 0 <= k < lo ==> is_white_space(s@[k]),
        decreases hi - lo,
    {
        lo = lo + 1;
    }
    let mut r: Vec<char> = Vec::new();
    let mut i = lo;
    while i < hi
        invariant
            lo <= i <= hi <= s.len(),
            r@ == s@.subrange(lo as int, i as int),
        decreases hi - i,
    {
        r.push(s[i]);
        assert(s@.subrange(lo as int, i + 1) =~= s@.subrange(lo as int, i as int).push(s@[i as int]));
        i = i + 1;
    }
    proof {
        let t = s@.take(hi as int);
        lemma_trim_start_skip(t, lo as int);
        assert(t.skip(lo as int) =~= s@.subrange(lo as int, hi as int));
        let u = s@.subrange(lo as int, hi as int);
        if lo < hi {
            assert(u[0] == s@[lo as int]);
        }
        assert(trim_start(u) == u);
    }
    r
}

proof fn lemma_strip_trailing_char_take(s: Seq<char>, c: char, hi: int)
    requires
        0 <= hi <= s.len(),
        forall|k: int| hi <= k < s.len() ==> s[k] == c,
    ensures
        strip_trailing_char(s, c) == strip_trailing_char(s.take(hi), c),
    decreases s.len() - hi,
{
    if hi < s.len() {
        assert(s.drop_last() =~= s.take(s.len() - 1));
        lemma_strip_trailing_char_take(s.drop_last(), c, hi);
        assert(s.drop_last().take(hi) =~= s.take(hi));
    } else {
        assert(s.take(hi) =~= s);
    }
}

/// `s` with all trailing `c` removed (`str::trim_end_matches(c)`).
pub fn strip_trailing(s: &Vec<char>, c: char) -> (r: Vec<char>)
    ensures
        r@ == strip_trailing_char(s@, c),
{
    let mut hi = s.len();
    while hi > 0 && s[hi - 1] == c
        invariant
            hi <= s.len(),
            forall|k: int| hi <= k < s.len() ==> s@[k] == c,
        decreases hi,
    {
        hi = hi - 1;
    }
    let mut r: Vec<char> = Vec::new();
    let mut i: usize = 0;
    while i < hi
        invariant
            i <= hi <= s.len(),
            r@ == s@.take(i as int),
        decreases hi - i,
    {
        r.push(s[i]);
        assert(s@.take(i + 1) =~= s@.take(i as int).push(s@[i as int]));
        i = i + 1;
    }
    proof {
        lemma_strip_trailing_char_take(s@, c, hi as int);
        let t = s@.take(hi as int);
        if hi > 0 {
            assert(t.last() == s@[hi - 1]);
        }
        assert(strip_trailing_char(t, c) == t);
    }
    r
}

/// `s` with the non-empty `suffix` removed as long as it ends `s`
/// (`str::trim_end_matches(suffix)`).
pub fn strip_trailing_suffix(s: &Vec<char>, suffix: &Vec<char>) -> (r: Vec<char>)
    requires
        suffix.len() > 0,
    ensures
        r@ == strip_trailing_seq(s@, suffix@),
{
    let mut hi = s.len();
    assert(s@.take(s@.len() as int) =~= s@);
    while hi >= suffix.len() && range_eq(s, hi - suffix.len(), hi, suffix)
        invariant
            hi <= s.len(),
            suffix.len() > 0,
            strip_trailing_seq(s@, suffix@) == strip_trailing_seq(s@.take(hi as int), suffix@),
        decreases hi,
    {
        proof {
            let t = s@.take(hi as int);
            assert(t.subrange(t.len() - suffix@.len(), t.len() as int) =~= s@.subrange(
                hi - suffix@.len(),
                hi as int,
            ));
            assert(t.subrange(0, t.len() - suffix@.len()) =~= s@.take(hi - suffix@.len()));
        }
        hi = hi - suffix.len();
    }
    proof {
        let t = s@.take(hi as int);
        if suffix@.len() <= hi {
            assert(t.subrange(t.len() - suffix@.len(), t.len() as int) =~= s@.subrange(
                hi - suffix@.len(),
                hi as int,
            ));
        }
        assert(strip_trailing_seq(t, suffix@) == t);
    }
    let mut r: Vec<char> = Vec::new();
    let mut i: usize = 0;
    while i < hi
        invariant
            i <= hi <= s.len(),
            r@ == s@.take(i as int),
        decreases hi - i,
    {
        r.push(s[i]);
        assert(s@.take(i + 1) =~= s@.take(i as int).push(s@[i as int]));
        i = i + 1;
    }
    r
}

proof fn lemma_after_last_skip(s: Seq<char>, sep: char, lo: int)
    requires
        0 <= lo <= s.len(),
        lo == 0 || s[lo - 1] == sep,
        forall|k: int| lo <= k < s.len() ==> s[k] != sep,
    ensures
        after_last(s, sep) == s.skip(lo),
    decreases s.len(),
{
    if s.len() == lo {
        if lo == 0 {
        } else {
            assert(s.skip(lo) =~= Seq::<char>::empty());
        }
    } else {
        lemma_after_last_skip(s.drop_last(), sep, lo);
        assert(s.drop_last().skip(lo).push(s.last()) =~= s.skip(lo));
    }
}

/// The part of `s` after its last `sep` (`str::rsplit(sep).next()`).
pub fn after_last_char(s: &Vec<char>, sep: char) -> (r: Vec<char>)
    ensures
        r@ == after_last(s@, sep),
{
    let mut lo = s.len();
    while lo > 0 && s[lo - 1] != sep
        invariant
            lo <= s.len(),
            forall|k: int| lo <= k < s.len() ==> s@[k] != sep,
        decreases lo,
    {
        lo = lo - 1;
    }
    let mut r: Vec<char> = Vec::new();
    let mut i = lo;
    while i < s.len()
        invariant
            lo <= i <= s.len(),
            r@ == s@.subrange(lo as int, i as int),
        decreases s.len() - i,
    {
        r.push(s[i]);
        assert(s@.subrange(lo as int, i + 1) =~= s@.subrange(lo as int, i as int).push(s@[i as int]));
        i = i + 1;
    }
    proof {
        lemma_after_last_skip(s@, sep, lo as int);
        assert(s@.subrange(lo as int, s@.len() as int) =~= s@.skip(lo as int));
    }
    r
}

/// Stripping every trailing `c` leaves no trailing `c`.
pub proof fn lemma_strip_trailing_char_ends(s: Seq<char>, c: char)
    ensures
        strip_trailing_char(s, c).len() == 0 || strip_trailing_char(s, c).last() != c,
        strip_trailing_char(s, c).len() <= s.len(),
        strip_trailing_char(s, c) == s.take(strip_trailing_char(s, c).len() as int),
    decreases s.len(),
{
    if s.len() > 0 && s.last() == c {
        lemma_strip_trailing_char_ends(s.drop_last(), c);
        let r = strip_trailing_char(s, c);
        assert(s.drop_last().take(r.len() as int) =~= s.take(r.len() as int));
    } else {
        assert(s.take(s.len() as int) =~= s);
    }
}

/// Stripping every trailing `suffix` leaves a prefix of `s` that does not
/// end with `suffix`.
pub proof fn lemma_strip_trailing_seq_ends(s: Seq<char>, suffix: Seq<char>)
    requires
        suffix.len() > 0,
    ensures
        ({
            let r = strip_trailing_seq(s, suffix);
            &&& r.len() <= s.len()
            &&& r == s.take(r.len() as int)
            &&& !(suffix.len() <= r.len() && r.subrange(r.len() - suffix.len(), r.len() as int)
                == suffix)
        }),
    decreases s.len(),
{
    if suffix.len() <= s.len() && s.subrange(s.len() - suffix.len(), s.len() as int) == suffix {
        let t = s.subrange(0, s.len() - suffix.len());
        lemma_strip_trailing_seq_ends(t, suffix);
        let r = strip_trailing_seq(s, suffix);
        assert(t.take(r.len() as int) =~= s.take(r.len() as int));
    } else {
        assert(s.take(s.len() as int) =~= s);
    }
}

/// The part after the last `sep` holds no `sep`.
pub proof fn lemma_after_last_has_no_sep(s: Seq<char>, sep: char)
    ensures
        forall|k: int| 0 <= k < after_last(s, sep).len() ==> #[trigger] after_last(s, sep)[k] != sep,
    decreases s.len(),
{
    if s.len() > 0 && s.last() != sep {
        lemma_after_last_has_no_sep(s.drop_last(), sep);
        let a = after_last(s.drop_last(), sep);
        assert forall|k: int| 0 <= k < a.push(s.last()).len() implies #[trigger] a.push(
            s.last(),
        )[k] != sep by {
            if k < a.len() {
                assert(a.push(s.last())[k] == a[k]);
            }
        }
    }
}

/// The digit characters, indexed by their value.
pub const DIGITS: [char; 10] = ['0', '1', '2', '3', '4', '5', '6', '7', '8', '9'];

/// The decimal rendering of `n` (what `format!("{}", n)` prints).
pub fn decimal_string(n: u64) -> (r: String)
    ensures
        r@ == decimal(n as nat),
    decreases n,
{
    if n < 10 {
        let mut s = String::new();
        push_char(&mut s, DIGITS[n as usize]);
        assert(s@ =~= seq![digit_char(n as nat)]);
        s
    } else {
        let mut s = decimal_string(n / 10);
        push_char(&mut s, DIGITS[(n % 10) as usize]);
        s
    }
}

/// The part after the last `sep` of `x`, `sep`, `y` is `y`, when `y` holds no `sep`.
pub proof fn lemma_after_last_of_joined(x: Seq<char>, sep: char, y: Seq<char>)
    requires
        forall|k: int| 0 <= k < y.len() ==> #[trigger] y[k] != sep,
    ensures
        after_last(x + seq![sep] + y, sep) == y,
    decreases y.len(),
{
    let s = x + seq![sep] + y;
    if y.len() == 0 {
        assert(s.last() == sep);
    } else {
        assert(s.last() == y.last());
        lemma_after_last_of_joined(x, sep, y.drop_last());
        assert(s.drop_last() =~= x + seq![sep] + y.drop_last());
        assert(y.drop_last().push(y.last()) =~= y);
    }
}

/// Every character of a decimal rendering is a digit `0` to `9`.
pub proof fn lemma_decimal_digits(n: nat)
    ensures
        forall|k: int|
            0 <= k < decimal(n).len() ==> 48 <= (#[trigger] decimal(n)[k] as u32) <= 57,
    decreases n,
{
    if n < 10 {
        assert((digit_char(n) as u32) == 48 + n);
    } else {
        lemma_decimal_digits(n / 10);
        assert((digit_char(n % 10) as u32) == 48 + n % 10);
        let d = decimal(n);
        assert forall|k: int| 0 <= k < d.len() implies 48 <= (#[trigger] d[k] as u32) <= 57 by {
            if k < d.len() - 1 {
                assert(d[k] == decimal(n / 10)[k]);
            }
        }
    }
}

/// Trailing whitespace is removed up to the first character when all that
/// follows a leading whitespace character is whitespace too.
pub proof fn lemma_trim_end_after_space(c: char, u: Seq<char>)
    requires
        is_white_space(c),
    ensures
        trim_end(seq![c] + u) == if trim_end(u).len() == 0 {
            Seq::<char>::empty()
        } else {
            seq![c] + trim_end(u)
        },
    decreases u.len(),
{
    let s = seq![c] + u;
    if u.len() == 0 {
        assert(s =~= seq![c]);
        assert(s.drop_last() =~= Seq::<char>::empty());
        assert(trim_end(Seq::<char>::empty()) == Seq::<char>::empty());
        assert(trim_end(s) == trim_end(s.drop_last()));
        assert(u =~= Seq::<char>::empty());
    } else {
        assert(s.last() == u.last());
        if is_white_space(u.last()) {
            assert(s.drop_last() =~= seq![c] + u.drop_last());
            lemma_trim_end_after_space(c, u.drop_last());
        } else {
            assert(trim_end(s) == s);
            assert(trim_end(u) == u);
        }
    }
}

/// Leading whitespace is removed from the front alone: a character added at
/// the end of a text that ends in a non-whitespace character stays.
pub proof fn lemma_trim_start_before_char(u: Seq<char>, d: char)
    requires
        u.len() > 0,
        !is_white_space(u.last()),
    ensures
        trim_start(u + seq![d]) == trim_start(u) + seq![d],
    decreases u.len(),
{
    let s = u + seq![d];
    assert(s[0] == u[0]);
    if is_white_space(u[0]) {
        assert(u.len() > 1);
        assert(s.drop_first() =~= u.drop_first() + seq![d]);
        assert(u.drop_first().last() == u.last());
        lemma_trim_start_before_char(u.drop_first(), d);
    }
}

} // verus!
