//! A character-level model of the text operations the telemetry parsers use:
//! white space, trimming, splitting into words and lines, prefix and suffix
//! tests, and decimal integers.
//!
//! Text is read once into a `Vec<char>`; the scanning functions then work on a
//! span `[lo, hi)` of it, and their contracts speak of `v@.subrange(lo, hi)`.

use vstd::prelude::*;

verus! {

// ---------------------------------------------------------------------------
// White space
// ---------------------------------------------------------------------------

/// Unicode `White_Space`, the property that `char::is_whitespace` reports, and
/// so the one that `str::trim` and `str::split_whitespace` split on.
pub open spec fn is_ws(c: char) -> bool {
    let u = c as u32;
    ||| 0x9 <= u <= 0xd
    ||| u == 0x20
    ||| u == 0x85
    ||| u == 0xa0
    ||| u == 0x1680
    ||| 0x2000 <= u <= 0x200a
    ||| u == 0x2028
    ||| u == 0x2029
    ||| u == 0x202f
    ||| u == 0x205f
    ||| u == 0x3000
}

/// Whether `c` is white space in the sense of `is_ws`.
pub fn is_whitespace(c: char) -> (b: bool)
    ensures
        b == is_ws(c),
{
    let u = c as u32;
    (0x9 <= u && u <= 0xd) || u == 0x20 || u == 0x85 || u == 0xa0 || u == 0x1680 || (0x2000
        <= u && u <= 0x200a) || u == 0x2028 || u == 0x2029 || u == 0x202f || u == 0x205f || u
        == 0x3000
}

/// The characters of `s`, in order.
pub fn to_chars(s: &str) -> (v: Vec<char>)
    ensures
        v@ == s@,
{
    let mut v: Vec<char> = Vec::new();
    for c in it: s.chars()
        invariant
            v@ == it.seq().take(it.index() as int),
            it.seq() == s@,
    {
        v.push(c);
    }
    v
}

// ---------------------------------------------------------------------------
// Trimming
// ---------------------------------------------------------------------------

/// `s` without its leading white space.
pub open spec fn trim_start(s: Seq<char>) -> Seq<char>
    decreases s.len(),
{
    if s.len() > 0 && is_ws(s[0]) {
        trim_start(s.drop_first())
    } else {
        s
    }
}

/// `s` without its trailing white space.
pub open spec fn trim_end(s: Seq<char>) -> Seq<char>
    decreases s.len(),
{
    if s.len() > 0 && is_ws(s.last()) {
        trim_end(s.drop_last())
    } else {
        s
    }
}

/// `s` without leading and trailing white space (`str::trim`).
pub open spec fn trim(s: Seq<char>) -> Seq<char> {
    trim_end(trim_start(s))
}

/// The span of `v[lo..hi]` that remains once white space is trimmed from both ends.
pub fn trim_span(v: &Vec<char>, lo: usize, hi: usize) -> (r: (usize, usize))
    requires
        lo <= hi <= v.len(),
    ensures
        lo <= r.0 <= r.1 <= hi,
        v@.subrange(r.0 as int, r.1 as int) == trim(v@.subrange(lo as int, hi as int)),
{
    let mut a = lo;
    while a < hi && is_whitespace(v[a])
        invariant
            lo <= a <= hi <= v.len(),
            trim_start(v@.subrange(lo as int, hi as int)) == trim_start(
                v@.subrange(a as int, hi as int),
            ),
        decreases hi - a,
    {
        assert(v@.subrange(a as int, hi as int).drop_first() =~= v@.subrange(
            a + 1,
            hi as int,
        ));
        a = a + 1;
    }
    let mut b = hi;
    while b > a && is_whitespace(v[b - 1])
        invariant
            lo <= a <= b <= hi <= v.len(),
            trim_end(v@.subrange(a as int, hi as int)) == trim_end(
                v@.subrange(a as int, b as int),
            ),
        decreases b - a,
    {
        assert(v@.subrange(a as int, b as int).drop_last() =~= v@.subrange(
            a as int,
            b - 1,
        ));
        b = b - 1;
    }
    (a, b)
}

// ---------------------------------------------------------------------------
// Words
// ---------------------------------------------------------------------------

/// The number of leading characters of `s` that are not white space.
pub open spec fn word_len(s: Seq<char>) -> nat
    decreases s.len(),
{
    if s.len() == 0 || is_ws(s[0]) {
        0
    } else {
        1 + word_len(s.drop_first())
    }
}

/// `word_len` counts a prefix of `s`.
pub proof fn lemma_word_len(s: Seq<char>)
    ensures
        word_len(s) <= s.len(),
    decreases s.len(),
{
    if s.len() > 0 && !is_ws(s[0]) {
        lemma_word_len(s.drop_first());
    }
}

/// The maximal runs of characters that are not white space, in order
/// (`str::split_whitespace`).
pub open spec fn words(s: Seq<char>) -> Seq<Seq<char>>
    decreases s.len(),
{
    if s.len() == 0 {
        seq![]
    } else if is_ws(s[0]) {
        words(s.drop_first())
    } else {
        let n = word_len(s);
        proof {
            lemma_word_len(s);
        }
        seq![s.take(n as int)] + words(s.skip(n as int))
    }
}

/// The first word of `v[lo..hi]`, as a span, or `None` when it has none.
/// What follows the span holds the remaining words.
pub fn next_word(v: &Vec<char>, lo: usize, hi: usize) -> (r: Option<(usize, usize)>)
    requires
        lo <= hi <= v.len(),
    ensures
        match r {
            None => words(v@.subrange(lo as int, hi as int)).len() == 0,
            Some((a, b)) => {
                &&& lo <= a < b <= hi
                &&& words(v@.subrange(lo as int, hi as int)) == seq![
                    v@.subrange(a as int, b as int),
                ] + words(v@.subrange(b as int, hi as int))
            },
        },
{
    let mut a = lo;
    while a < hi && is_whitespace(v[a])
        invariant
            lo <= a <= hi <= v.len(),
            words(v@.subrange(lo as int, hi as int)) == words(v@.subrange(a as int, hi as int)),
        decreases hi - a,
    {
        assert(v@.subrange(a as int, hi as int).drop_first() =~= v@.subrange(
            a + 1,
            hi as int,
        ));
        a = a + 1;
    }
    if a == hi {
        return None;
    }
    let mut b = a + 1;
    assert(v@.subrange(a as int, hi as int).drop_first() =~= v@.subrange(a + 1, hi as int));
    while b < hi && !is_whitespace(v[b])
        invariant
            lo <= a < b <= hi <= v.len(),
            !is_ws(v@[a as int]),
            word_len(v@.subrange(a as int, hi as int)) == (b - a) + word_len(
                v@.subrange(b as int, hi as int),
            ),
        decreases hi - b,
    {
        assert(v@.subrange(b as int, hi as int).drop_first() =~= v@.subrange(
            b + 1,
            hi as int,
        ));
        b = b + 1;
    }
    let ghost s = v@.subrange(a as int, hi as int);
    assert(word_len(s) == b - a);
    assert(s.take((b - a) as int) =~= v@.subrange(a as int, b as int));
    assert(s.skip((b - a) as int) =~= v@.subrange(b as int, hi as int));
    Some((a, b))
}

/// The leading characters of `s` before the first `c`, counted.
pub open spec fn len_before(s: Seq<char>, c: char) -> nat
    decreases s.len(),
{
    if s.len() == 0 || s[0] == c {
        0
    } else {
        1 + len_before(s.drop_first(), c)
    }
}

/// The index of the first `c` in `v[lo..hi]`, or `hi` when there is none.
pub fn span_find(v: &Vec<char>, lo: usize, hi: usize, c: char) -> (e: usize)
    requires
        lo <= hi <= v.len(),
    ensures
        lo <= e <= hi,
        e - lo == len_before(v@.subrange(lo as int, hi as int), c),
        e < hi ==> v@[e as int] == c,
{
    let mut e = lo;
    while e < hi && v[e] != c
        invariant
            lo <= e <= hi <= v.len(),
            len_before(v@.subrange(lo as int, hi as int), c) == (e - lo) + len_before(
                v@.subrange(e as int, hi as int),
                c,
            ),
        decreases hi - e,
    {
        assert(v@.subrange(e as int, hi as int).drop_first() =~= v@.subrange(e + 1, hi as int));
        e = e + 1;
    }
    e
}

// ---------------------------------------------------------------------------
// Lines
// ---------------------------------------------------------------------------

/// `l` without one trailing `'\r'`.
pub open spec fn strip_cr(l: Seq<char>) -> Seq<char> {
    if l.len() > 0 && l.last() == '\r' {
        l.drop_last()
    } else {
        l
    }
}

/// The lines of `s` (`str::lines`): split at each `'\n'`, a `'\r'` just before
/// a `'\n'` dropped, and no empty line after a final `'\n'`.
pub open spec fn lines(s: Seq<char>) -> Seq<Seq<char>>
    decreases s.len(),
{
    if s.len() == 0 {
        seq![]
    } else {
        let n = len_before(s, '\n');
        if n < s.len() {
            seq![strip_cr(s.take(n as int))] + lines(s.skip(n + 1 as int))
        } else {
            seq![s]
        }
    }
}

/// The first line of the non-empty `v[lo..hi]`, as the span `[lo, r.0)`, and
/// the start `r.1` of the rest.
pub fn next_line(v: &Vec<char>, lo: usize, hi: usize) -> (r: (usize, usize))
    requires
        lo < hi <= v.len(),
    ensures
        lo <= r.0 <= r.1 <= hi,
        lo < r.1,
        lines(v@.subrange(lo as int, hi as int)) == seq![v@.subrange(lo as int, r.0 as int)]
            + lines(v@.subrange(r.1 as int, hi as int)),
{
    let e = span_find(v, lo, hi, '\n');
    let ghost s = v@.subrange(lo as int, hi as int);
    if e == hi {
        assert(s =~= v@.subrange(lo as int, hi as int));
        assert(lines(v@.subrange(hi as int, hi as int)) =~= Seq::<Seq<char>>::empty());
        assert(seq![s] + Seq::<Seq<char>>::empty() =~= seq![s]);
        return (hi, hi);
    }
    assert(s.take((e - lo) as int) =~= v@.subrange(lo as int, e as int));
    assert(s.skip((e - lo) + 1) =~= v@.subrange(e + 1, hi as int));
    if e > lo && v[e - 1] == '\r' {
        assert(v@.subrange(lo as int, e as int).drop_last() =~= v@.subrange(
            lo as int,
            e - 1,
        ));
        (e - 1, e + 1)
    } else {
        (e, e + 1)
    }
}

// ---------------------------------------------------------------------------
// Prefixes, suffixes, occurrences
// ---------------------------------------------------------------------------

/// `s` begins with `p` (`str::starts_with`).
pub open spec fn has_prefix(s: Seq<char>, p: Seq<char>) -> bool {
    p.len() <= s.len() && s.take(p.len() as int) == p
}

/// `s` ends with `p` (`str::ends_with`).
pub open spec fn has_suffix(s: Seq<char>, p: Seq<char>) -> bool {
    p.len() <= s.len() && s.skip(s.len() - p.len()) == p
}

/// `p` occurs in `s` starting at index `i`.
pub open spec fn occurs_at(s: Seq<char>, p: Seq<char>, i: int) -> bool {
    0 <= i && i + p.len() <= s.len() && s.subrange(i, i + p.len()) == p
}

/// `p` occurs somewhere in `s` (`str::contains`).
pub open spec fn has_infix(s: Seq<char>, p: Seq<char>) -> bool {
    exists|i: int| #[trigger] occurs_at(s, p, i)
}

/// `s` with every leading copy of the non-empty `p` removed
/// (`str::trim_start_matches`).
pub open spec fn strip_all_prefix(s: Seq<char>, p: Seq<char>) -> Seq<char>
    decreases s.len(),
{
    if p.len() > 0 && has_prefix(s, p) {
        strip_all_prefix(s.skip(p.len() as int), p)
    } else {
        s
    }
}

/// Whether `p` occurs in `v` at index `i`.
fn matches_at(v: &Vec<char>, i: usize, p: &Vec<char>) -> (b: bool)
    requires
        i + p.len() <= v.len(),
    ensures
        b == (v@.subrange(i as int, i + p.len()) == p@),
{
    let mut j: usize = 0;
    while j < p.len()
        invariant
            j <= p.len(),
            i + p.len() <= v.len(),
            forall|k: int| 0 <= k < j ==> v@[i + k] == p@[k],
        decreases p.len() - j,
    {
        if v[i + j] != p[j] {
            assert(v@.subrange(i as int, i + p.len())[j as int] != p@[j as int]);
            return false;
        }
        j = j + 1;
    }
    assert(v@.subrange(i as int, i + p.len()) =~= p@);
    true
}

/// Whether `v[lo..hi]` begins with `p`.
pub fn span_starts_with(v: &Vec<char>, lo: usize, hi: usize, p: &Vec<char>) -> (b: bool)
    requires
        lo <= hi <= v.len(),
    ensures
        b == has_prefix(v@.subrange(lo as int, hi as int), p@),
{
    if p.len() > hi - lo {
        return false;
    }
    let r = matches_at(v, lo, p);
    assert(v@.subrange(lo as int, hi as int).take(p.len() as int) =~= v@.subrange(
        lo as int,
        lo + p.len(),
    ));
    r
}

/// Whether `v[lo..hi]` ends with `p`.
pub fn span_ends_with(v: &Vec<char>, lo: usize, hi: usize, p: &Vec<char>) -> (b: bool)
    requires
        lo <= hi <= v.len(),
    ensures
        b == has_suffix(v@.subrange(lo as int, hi as int), p@),
{
    if p.len() > hi - lo {
        return false;
    }
    let r = matches_at(v, hi - p.len(), p);
    let ghost s = v@.subrange(lo as int, hi as int);
    assert(s.skip(s.len() - p.len()) =~= v@.subrange(hi - p.len(), hi as int));
    r
}

/// Whether `p` occurs in `v[lo..hi]`.
pub fn span_contains(v: &Vec<char>, lo: usize, hi: usize, p: &Vec<char>) -> (b: bool)
    requires
        lo <= hi <= v.len(),
    ensures
        b == has_infix(v@.subrange(lo as int, hi as int), p@),
{
    let ghost s = v@.subrange(lo as int, hi as int);
    if p.len() > hi - lo {
        assert forall|i: int| !#[trigger] occurs_at(s, p@, i) by {}
        return false;
    }
    if p.len() == 0 {
        assert(s.subrange(0, 0) =~= p@);
        assert(occurs_at(s, p@, 0));
        return true;
    }
    let last = hi - p.len();
    let mut i = lo;
    while i <= last
        invariant
            lo <= i <= last + 1,
            last + p.len() == hi,
            p.len() > 0,
            hi <= v.len(),
            s == v@.subrange(lo as int, hi as int),
            forall|k: int| 0 <= k < i - lo ==> !#[trigger] occurs_at(s, p@, k),
        decreases last + 1 - i,
    {
        if matches_at(v, i, p) {
            assert(s.subrange(i - lo, i - lo + p.len()) =~= v@.subrange(
                i as int,
                i + p.len(),
            ));
            assert(occurs_at(s, p@, i - lo));
            return true;
        }
        assert(s.subrange(i - lo, i - lo + p.len()) =~= v@.subrange(i as int, i + p.len()));
        i = i + 1;
    }
    assert forall|k: int| !#[trigger] occurs_at(s, p@, k) by {
        if 0 <= k < i - lo {
        }
    }
    false
}

/// The start of what remains of `v[lo..hi]` once every leading copy of the
/// non-empty `p` is removed.
pub fn span_strip_all_prefix(v: &Vec<char>, lo: usize, hi: usize, p: &Vec<char>) -> (a: usize)
    requires
        lo <= hi <= v.len(),
        p.len() > 0,
    ensures
        lo <= a <= hi,
        v@.subrange(a as int, hi as int) == strip_all_prefix(
            v@.subrange(lo as int, hi as int),
            p@,
        ),
{
    let mut a = lo;
    while span_starts_with(v, a, hi, p)
        invariant
            lo <= a <= hi <= v.len(),
            p.len() > 0,
            strip_all_prefix(v@.subrange(lo as int, hi as int), p@) == strip_all_prefix(
                v@.subrange(a as int, hi as int),
                p@,
            ),
        decreases hi - a,
    {
        assert(v@.subrange(a as int, hi as int).skip(p.len() as int) =~= v@.subrange(
            a + p.len(),
            hi as int,
        ));
        a = a + p.len();
    }
    a
}

/// Whether `v[lo..hi]` is exactly `p`.
pub fn span_equals(v: &Vec<char>, lo: usize, hi: usize, p: &Vec<char>) -> (b: bool)
    requires
        lo <= hi <= v.len(),
    ensures
        b == (v@.subrange(lo as int, hi as int) == p@),
{
    if hi - lo != p.len() {
        assert(v@.subrange(lo as int, hi as int).len() != p@.len());
        return false;
    }
    matches_at(v, lo, p)
}

/// `s` without every trailing copy of `c` (`str::trim_end_matches` with a `char`).
pub open spec fn strip_trailing(s: Seq<char>, c: char) -> Seq<char>
    decreases s.len(),
{
    if s.len() > 0 && s.last() == c {
        strip_trailing(s.drop_last(), c)
    } else {
        s
    }
}

/// The end of what remains of `v[lo..hi]` once every trailing copy of `c` is removed.
pub fn span_strip_trailing(v: &Vec<char>, lo: usize, hi: usize, c: char) -> (b: usize)
    requires
        lo <= hi <= v.len(),
    ensures
        lo <= b <= hi,
        v@.subrange(lo as int, b as int) == strip_trailing(v@.subrange(lo as int, hi as int), c),
{
    let mut b = hi;
    while b > lo && v[b - 1] == c
        invariant
            lo <= b <= hi <= v.len(),
            strip_trailing(v@.subrange(lo as int, hi as int), c) == strip_trailing(
                v@.subrange(lo as int, b as int),
                c,
            ),
        decreases b - lo,
    {
        assert(v@.subrange(lo as int, b as int).drop_last() =~= v@.subrange(lo as int, b - 1));
        b = b - 1;
    }
    b
}

/// The index of the last `c` in `s`, if any (`str::rfind`, counted in characters).
pub open spec fn last_index_of(s: Seq<char>, c: char) -> Option<int>
    decreases s.len(),
{
    if s.len() == 0 {
        None
    } else if s.last() == c {
        Some(s.len() - 1)
    } else {
        last_index_of(s.drop_last(), c)
    }
}

/// The index of the last `c` in `v[lo..hi]`, counted from `lo`, if any.
pub fn span_rfind(v: &Vec<char>, lo: usize, hi: usize, c: char) -> (r: Option<usize>)
    requires
        lo <= hi <= v.len(),
    ensures
        match last_index_of(v@.subrange(lo as int, hi as int), c) {
            None => r is None,
            Some(i) => r matches Some(k) && k == lo + i,
        },
        r matches Some(k) ==> lo <= k < hi && v@[k as int] == c,
{
    let mut b = hi;
    while b > lo && v[b - 1] != c
        invariant
            lo <= b <= hi <= v.len(),
            last_index_of(v@.subrange(lo as int, hi as int), c) == last_index_of(
                v@.subrange(lo as int, b as int),
                c,
            ),
        decreases b - lo,
    {
        assert(v@.subrange(lo as int, b as int).drop_last() =~= v@.subrange(lo as int, b - 1));
        b = b - 1;
    }
    if b == lo {
        None
    } else {
        Some(b - 1)
    }
}

/// The characters `s@[a..b]` as a `String`.
pub fn substring(s: &str, a: usize, b: usize) -> (r: String)
    requires
        a <= b <= s@.len(),
    ensures
        r@ == s@.subrange(a as int, b as int),
{
    String::from_str(s.substring_char(a, b))
}

// ---------------------------------------------------------------------------
// Decimal integers
// ---------------------------------------------------------------------------

/// An ASCII decimal digit.
pub open spec fn is_digit(c: char) -> bool {
    0x30 <= (c as u32) <= 0x39
}

/// The value of an ASCII decimal digit.
pub open spec fn digit_value(c: char) -> nat {
    ((c as u32) - 0x30) as nat
}

/// Every character of `s` is an ASCII decimal digit.
pub open spec fn all_digits(s: Seq<char>) -> bool {
    forall|i: int| 0 <= i < s.len() ==> is_digit(#[trigger] s[i])
}

/// The number that the digits `s` write in base ten.
pub open spec fn digits_value(s: Seq<char>) -> nat
    decreases s.len(),
{
    if s.len() == 0 {
        0
    } else {
        digits_value(s.drop_last()) * 10 + digit_value(s.last())
    }
}

/// `s` without one leading `'+'`.
pub open spec fn unsigned_digits(s: Seq<char>) -> Seq<char> {
    if s.len() > 0 && s[0] == '+' {
        s.drop_first()
    } else {
        s
    }
}

/// What `FromStr` for an unsigned integer type whose largest value is `max`
/// makes of `s`: an optional `'+'` followed by at least one ASCII digit, whose
/// value must not exceed `max`.
pub open spec fn parse_unsigned(s: Seq<char>, max: nat) -> Option<nat> {
    let d = unsigned_digits(s);
    if d.len() > 0 && all_digits(d) && digits_value(d) <= max {
        Some(digits_value(d))
    } else {
        None
    }
}

/// What `s.parse::<u64>()` accepts, as an `Option`.
pub open spec fn parse_u64(s: Seq<char>) -> Option<u64> {
    match parse_unsigned(s, u64::MAX as nat) {
        Some(n) => Some(n as u64),
        None => None,
    }
}

/// What `s.parse::<u32>()` accepts, as an `Option`.
pub open spec fn parse_u32(s: Seq<char>) -> Option<u32> {
    match parse_unsigned(s, u32::MAX as nat) {
        Some(n) => Some(n as u32),
        None => None,
    }
}

/// The value of a prefix of a string of digits is at most the value of the whole.
pub proof fn lemma_digits_prefix_le(s: Seq<char>, k: int)
    requires
        all_digits(s),
        0 <= k <= s.len(),
    ensures
        digits_value(s.take(k)) <= digits_value(s),
    decreases s.len(),
{
    if k < s.len() {
        let t = s.drop_last();
        assert(t.take(k) =~= s.take(k));
        assert(all_digits(t)) by {
            assert forall|i: int| 0 <= i < t.len() implies is_digit(#[trigger] t[i]) by {
                assert(t[i] == s[i]);
            }
        }
        lemma_digits_prefix_le(t, k);
    } else {
        assert(s.take(k) =~= s);
    }
}

/// The value of `v[lo..hi]` as a `u64`, as `str::parse::<u64>` gives it.
pub fn parse_u64_span(v: &Vec<char>, lo: usize, hi: usize) -> (r: Option<u64>)
    requires
        lo <= hi <= v.len(),
    ensures
        r == parse_u64(v@.subrange(lo as int, hi as int)),
{
    let ghost s = v@.subrange(lo as int, hi as int);
    let mut a = lo;
    if a < hi && v[a] == '+' {
        a = a + 1;
    }
    let ghost d = v@.subrange(a as int, hi as int);
    assert(unsigned_digits(s) =~= d);
    if a == hi {
        return None;
    }
    let mut acc: u64 = 0;
    let mut i = a;
    assert(v@.subrange(a as int, a as int) =~= Seq::<char>::empty());
    while i < hi
        invariant
            lo <= a <= i <= hi <= v.len(),
            d == v@.subrange(a as int, hi as int),
            s == v@.subrange(lo as int, hi as int),
            unsigned_digits(s) == d,
            d.len() > 0,
            acc == digits_value(v@.subrange(a as int, i as int)),
            all_digits(v@.subrange(a as int, i as int)),
        decreases hi - i,
    {
        let u = v[i] as u32;
        if u < 0x30 || u > 0x39 {
            assert(d[i - a] == v@[i as int]);
            assert(!all_digits(d));
            return None;
        }
        let dig = (u - 0x30) as u64;
        let ghost next = v@.subrange(a as int, i + 1);
        assert(next.drop_last() =~= v@.subrange(a as int, i as int));
        assert(next.last() == v@[i as int]);
        assert(all_digits(next)) by {
            assert forall|k: int| 0 <= k < next.len() implies is_digit(#[trigger] next[k]) by {
                if k < next.len() - 1 {
                    assert(next[k] == v@.subrange(a as int, i as int)[k]);
                }
            }
        }
        if acc > (u64::MAX - dig) / 10 {
            assert(acc * 10 + dig > u64::MAX) by (nonlinear_arith)
                requires
                    acc > (u64::MAX - dig) / 10,
                    dig <= 9,
            ;
            proof {
                if all_digits(d) {
                    assert(d.take(i + 1 - a) =~= next);
                    lemma_digits_prefix_le(d, i + 1 - a);
                }
            }
            return None;
        }
        assert(acc * 10 + dig <= u64::MAX) by (nonlinear_arith)
            requires
                acc <= (u64::MAX - dig) / 10,
                dig <= 9,
        ;
        acc = acc * 10 + dig;
        i = i + 1;
    }
    assert(d =~= v@.subrange(a as int, i as int));
    Some(acc)
}

/// The value of `v[lo..hi]` as a `u32`, as `str::parse::<u32>` gives it.
pub fn parse_u32_span(v: &Vec<char>, lo: usize, hi: usize) -> (r: Option<u32>)
    requires
        lo <= hi <= v.len(),
    ensures
        r == parse_u32(v@.subrange(lo as int, hi as int)),
{
    match parse_u64_span(v, lo, hi) {
        Some(n) => {
            if n <= u32::MAX as u64 {
                Some(n as u32)
            } else {
                None
            }
        },
        None => None,
    }
}

// ---------------------------------------------------------------------------
// Decimal rendering
// ---------------------------------------------------------------------------

/// The ASCII digit for `d < 10`.
pub open spec fn digit_char(d: nat) -> char {
    ((d + 0x30) as u32) as char
}

/// The decimal digits of `n` without leading zeros, as `n.to_string()` writes them.
pub open spec fn decimal(n: nat) -> Seq<char>
    decreases n,
{
    if n < 10 {
        seq![digit_char(n)]
    } else {
        decimal(n / 10).push(digit_char(n % 10))
    }
}

/// Every character of `s` is white space.
pub open spec fn all_ws(s: Seq<char>) -> bool {
    forall|i: int| 0 <= i < s.len() ==> is_ws(#[trigger] s[i])
}

/// `decimal(n)` is a non-empty string of digits whose value is `n`.
pub proof fn lemma_decimal(n: nat)
    ensures
        decimal(n).len() > 0,
        all_digits(decimal(n)),
        digits_value(decimal(n)) == n,
    decreases n,
{
    if n >= 10 {
        lemma_decimal(n / 10);
        let s = decimal(n);
        assert(s.drop_last() =~= decimal(n / 10));
        assert forall|i: int| 0 <= i < s.len() implies is_digit(#[trigger] s[i]) by {
            if i < s.len() - 1 {
                assert(s[i] == decimal(n / 10)[i]);
            }
        }
        assert(digit_value(s.last()) == n % 10);
        assert(digits_value(s) == digits_value(decimal(n / 10)) * 10 + digit_value(s.last()));
        assert((n / 10) * 10 + n % 10 == n) by (nonlinear_arith);
    } else {
        assert(decimal(n).drop_last() =~= Seq::<char>::empty());
        assert(digit_value(decimal(n).last()) == n);
        assert(digits_value(decimal(n)) == digits_value(decimal(n).drop_last()) * 10 + n);
    }
}

/// Trimming white space from around a string that neither starts nor ends
/// with white space gives that string back.
pub proof fn lemma_trim_around(before: Seq<char>, mid: Seq<char>, after: Seq<char>)
    requires
        all_ws(before),
        all_ws(after),
        mid.len() > 0,
        !is_ws(mid[0]),
        !is_ws(mid.last()),
    ensures
        trim(before + mid + after) == mid,
    decreases before.len() + after.len(),
{
    if before.len() > 0 {
        let s = before + mid + after;
        assert(s[0] == before[0]);
        assert(s.drop_first() =~= before.drop_first() + mid + after);
        assert(all_ws(before.drop_first())) by {
            assert forall|i: int| 0 <= i < before.drop_first().len() implies is_ws(
                #[trigger] before.drop_first()[i],
            ) by {
                assert(before.drop_first()[i] == before[i + 1]);
            }
        }
        lemma_trim_around(before.drop_first(), mid, after);
    } else if after.len() > 0 {
        let s = before + mid + after;
        assert(s =~= mid + after);
        assert(s[0] == mid[0]);
        assert(trim_start(s) == s);
        assert(s.last() == after.last());
        assert(s.drop_last() =~= before + mid + after.drop_last());
        assert(all_ws(after.drop_last())) by {
            assert forall|i: int| 0 <= i < after.drop_last().len() implies is_ws(
                #[trigger] after.drop_last()[i],
            ) by {
                assert(after.drop_last()[i] == after[i]);
            }
        }
        lemma_trim_around(before, mid, after.drop_last());
        assert(trim_start(before + mid + after.drop_last()) == before + mid + after.drop_last())
            by {
            assert((before + mid + after.drop_last())[0] == mid[0]);
        }
    } else {
        let s = before + mid + after;
        assert(s =~= mid);
    }
}

/// The first word of white space, then a word `w`, then a white space
/// character and anything at all, is `w`.
pub proof fn lemma_first_word(before: Seq<char>, w: Seq<char>, sep: char, rest: Seq<char>)
    requires
        all_ws(before),
        w.len() > 0,
        forall|i: int| 0 <= i < w.len() ==> !is_ws(#[trigger] w[i]),
        is_ws(sep),
    ensures
        words(before + w + seq![sep] + rest).len() > 0,
        words(before + w + seq![sep] + rest)[0] == w,
    decreases before.len(),
{
    let s = before + w + seq![sep] + rest;
    if before.len() > 0 {
        assert(s[0] == before[0]);
        assert(s.drop_first() =~= before.drop_first() + w + seq![sep] + rest);
        assert(all_ws(before.drop_first())) by {
            assert forall|i: int| 0 <= i < before.drop_first().len() implies is_ws(
                #[trigger] before.drop_first()[i],
            ) by {
                assert(before.drop_first()[i] == before[i + 1]);
            }
        }
        lemma_first_word(before.drop_first(), w, sep, rest);
    } else {
        assert(s =~= w + (seq![sep] + rest));
        lemma_word_len_of(w, sep, rest);
        assert(s[0] == w[0]);
        lemma_word_len(s);
        assert(s.take(w.len() as int) =~= w);
    }
}

/// A word followed by a white space character counts its own length.
proof fn lemma_word_len_of(w: Seq<char>, sep: char, rest: Seq<char>)
    requires
        forall|i: int| 0 <= i < w.len() ==> !is_ws(#[trigger] w[i]),
        is_ws(sep),
    ensures
        word_len(w + (seq![sep] + rest)) == w.len(),
    decreases w.len(),
{
    let s = w + (seq![sep] + rest);
    if w.len() > 0 {
        assert(s[0] == w[0]);
        assert(s.drop_first() =~= w.drop_first() + (seq![sep] + rest));
        assert forall|i: int| 0 <= i < w.drop_first().len() implies !is_ws(
            #[trigger] w.drop_first()[i],
        ) by {
            assert(w.drop_first()[i] == w[i + 1]);
        }
        lemma_word_len_of(w.drop_first(), sep, rest);
    } else {
        assert(s[0] == sep);
    }
}

/// A run of characters none of which is white space counts its own length.
pub proof fn lemma_word_len_all(w: Seq<char>)
    requires
        forall|i: int| 0 <= i < w.len() ==> !is_ws(#[trigger] w[i]),
    ensures
        word_len(w) == w.len(),
    decreases w.len(),
{
    if w.len() > 0 {
        assert forall|i: int| 0 <= i < w.drop_first().len() implies !is_ws(
            #[trigger] w.drop_first()[i],
        ) by {
            assert(w.drop_first()[i] == w[i + 1]);
        }
        lemma_word_len_all(w.drop_first());
    }
}

/// A non-empty run of characters none of which is white space is one word.
pub proof fn lemma_words_single(w: Seq<char>)
    requires
        w.len() > 0,
        forall|i: int| 0 <= i < w.len() ==> !is_ws(#[trigger] w[i]),
    ensures
        words(w) == seq![w],
{
    lemma_word_len_all(w);
    assert(!is_ws(w[0]));
    assert(w.take(w.len() as int) =~= w);
    assert(w.skip(w.len() as int) =~= Seq::<char>::empty());
    assert(words(Seq::<char>::empty()) =~= Seq::<Seq<char>>::empty());
    assert(seq![w] + Seq::<Seq<char>>::empty() =~= seq![w]);
}

/// A word, then a white space character, then anything: that word, then the
/// words of the rest.
pub proof fn lemma_words_cons(w: Seq<char>, sep: char, rest: Seq<char>)
    requires
        w.len() > 0,
        forall|i: int| 0 <= i < w.len() ==> !is_ws(#[trigger] w[i]),
        is_ws(sep),
    ensures
        words(w + (seq![sep] + rest)) == seq![w] + words(rest),
{
    let s = w + (seq![sep] + rest);
    lemma_word_len_of(w, sep, rest);
    assert(s[0] == w[0]);
    assert(!is_ws(s[0]));
    assert(s.take(w.len() as int) =~= w);
    assert(s.skip(w.len() as int) =~= seq![sep] + rest);
    let t = seq![sep] + rest;
    assert(t[0] == sep);
    assert(t.drop_first() =~= rest);
    assert(words(t) == words(rest));
}

/// `c` does not occur in `s`.
pub open spec fn lacks(s: Seq<char>, c: char) -> bool {
    forall|i: int| 0 <= i < s.len() ==> #[trigger] s[i] != c
}

/// Before the first `c` of `a + c + b`, where `a` lacks `c`, stand the
/// characters of `a`.
pub proof fn lemma_len_before_split(a: Seq<char>, c: char, b: Seq<char>)
    requires
        lacks(a, c),
    ensures
        len_before(a + (seq![c] + b), c) == a.len(),
    decreases a.len(),
{
    let s = a + (seq![c] + b);
    if a.len() > 0 {
        assert(s[0] == a[0]);
        assert(s.drop_first() =~= a.drop_first() + (seq![c] + b));
        assert(lacks(a.drop_first(), c)) by {
            assert forall|i: int| 0 <= i < a.drop_first().len() implies #[trigger] a.drop_first()[i]
                != c by {
                assert(a.drop_first()[i] == a[i + 1]);
            }
        }
        lemma_len_before_split(a.drop_first(), c, b);
    } else {
        assert(s[0] == c);
    }
}

/// A string that lacks `c` has no `c` before its end.
pub proof fn lemma_len_before_absent(a: Seq<char>, c: char)
    requires
        lacks(a, c),
    ensures
        len_before(a, c) == a.len(),
    decreases a.len(),
{
    if a.len() > 0 {
        assert(lacks(a.drop_first(), c)) by {
            assert forall|i: int| 0 <= i < a.drop_first().len() implies #[trigger] a.drop_first()[i]
                != c by {
                assert(a.drop_first()[i] == a[i + 1]);
            }
        }
        lemma_len_before_absent(a.drop_first(), c);
    }
}

/// The last `c` of `x + c + y`, where `y` lacks `c`, is the one after `x`.
pub proof fn lemma_last_index_split(x: Seq<char>, c: char, y: Seq<char>)
    requires
        lacks(y, c),
    ensures
        last_index_of(x + seq![c] + y, c) == Some(x.len() as int),
    decreases y.len(),
{
    let s = x + seq![c] + y;
    if y.len() > 0 {
        assert(s.last() == y.last());
        assert(s.drop_last() =~= x + seq![c] + y.drop_last());
        assert(lacks(y.drop_last(), c)) by {
            assert forall|i: int| 0 <= i < y.drop_last().len() implies #[trigger] y.drop_last()[i]
                != c by {
                assert(y.drop_last()[i] == y[i]);
            }
        }
        lemma_last_index_split(x, c, y.drop_last());
    } else {
        assert(s.last() == c);
        assert(s.len() - 1 == x.len());
    }
}

/// A string that lacks `c` has no last `c`.
pub proof fn lemma_last_index_absent(y: Seq<char>, c: char)
    requires
        lacks(y, c),
    ensures
        last_index_of(y, c) is None,
    decreases y.len(),
{
    if y.len() > 0 {
        assert(lacks(y.drop_last(), c)) by {
            assert forall|i: int| 0 <= i < y.drop_last().len() implies #[trigger] y.drop_last()[i]
                != c by {
                assert(y.drop_last()[i] == y[i]);
            }
        }
        lemma_last_index_absent(y.drop_last(), c);
    }
}

/// Leading zeros add nothing to the value of a string of digits.
pub proof fn lemma_leading_zeros(k: nat, d: Seq<char>)
    requires
        all_digits(d),
    ensures
        all_digits(Seq::new(k, |i: int| '0') + d),
        digits_value(Seq::new(k, |i: int| '0') + d) == digits_value(d),
    decreases k + d.len(),
{
    let z = Seq::new(k, |i: int| '0');
    let s = z + d;
    assert forall|i: int| 0 <= i < s.len() implies is_digit(#[trigger] s[i]) by {
        if i < k {
            assert(s[i] == '0');
        } else {
            assert(s[i] == d[i - k]);
        }
    }
    if d.len() > 0 {
        assert(s.drop_last() =~= z + d.drop_last());
        assert(all_digits(d.drop_last())) by {
            assert forall|i: int| 0 <= i < d.drop_last().len() implies is_digit(
                #[trigger] d.drop_last()[i],
            ) by {
                assert(d.drop_last()[i] == d[i]);
            }
        }
        lemma_leading_zeros(k, d.drop_last());
    } else if k > 0 {
        let z1 = Seq::new((k - 1) as nat, |i: int| '0');
        assert(s.drop_last() =~= z1 + d);
        lemma_leading_zeros((k - 1) as nat, d);
        assert(digit_value(s.last()) == 0);
    } else {
        assert(s =~= d);
    }
}

/// What `str::parse::<u64>` accepts: the decimal digits of a `u64`, with an
/// optional leading `+` and any leading zeros; not a value above `u64::MAX`,
/// not a `-`, not an empty string, not a lone `+`.
pub proof fn law_parse_u64(n: u64, k: nat, m: nat, rest: Seq<char>)
    ensures
        parse_u64(decimal(n as nat)) == Some(n),
        parse_u64(seq!['+'] + decimal(n as nat)) == Some(n),
        parse_u64(Seq::new(k, |i: int| '0') + decimal(n as nat)) == Some(n),
        m > u64::MAX ==> parse_u64(decimal(m)) is None,
        parse_u64(seq!['-'] + rest) is None,
        parse_u64(Seq::<char>::empty()) is None,
        parse_u64(seq!['+']) is None,
{
    let d = decimal(n as nat);
    lemma_decimal(n as nat);
    assert(is_digit(d[0]));
    assert(unsigned_digits(d) == d);
    assert((seq!['+'] + d).drop_first() =~= d);
    let z = Seq::new(k, |i: int| '0');
    lemma_leading_zeros(k, d);
    if k > 0 {
        assert((z + d)[0] == '0');
    } else {
        assert(z + d =~= d);
    }
    lemma_decimal(m);
    assert(is_digit(decimal(m)[0]));
    let neg = seq!['-'] + rest;
    assert(neg[0] == '-');
    assert(!is_digit(neg[0]));
    assert(seq!['+'].drop_first() =~= Seq::<char>::empty());
}

/// Line splitting: a line ends at `\n`, a `\r` just before the `\n` is
/// dropped with it, and a last line needs no `\n`.
pub proof fn law_lines(a: Seq<char>, b: Seq<char>)
    requires
        lacks(a, '\n'),
    ensures
        (a.len() == 0 || a.last() != '\r') ==> lines(a + seq!['\n'] + b) == seq![a] + lines(b),
        lines(a + seq!['\r', '\n'] + b) == seq![a] + lines(b),
        a.len() > 0 ==> lines(a) == seq![a],
{
    let s = a + seq!['\n'] + b;
    assert(s =~= a + (seq!['\n'] + b));
    lemma_len_before_split(a, '\n', b);
    assert(s.take(a.len() as int) =~= a);
    assert(s.skip(a.len() + 1 as int) =~= b);
    let ar = a + seq!['\r'];
    assert(lacks(ar, '\n')) by {
        assert forall|i: int| 0 <= i < ar.len() implies #[trigger] ar[i] != '\n' by {
            if i < a.len() {
                assert(ar[i] == a[i]);
            }
        }
    }
    let s2 = a + seq!['\r', '\n'] + b;
    assert(s2 =~= ar + (seq!['\n'] + b));
    lemma_len_before_split(ar, '\n', b);
    assert(s2.take(ar.len() as int) =~= ar);
    assert(s2.skip(ar.len() + 1 as int) =~= b);
    assert(ar.drop_last() =~= a);
    lemma_len_before_absent(a, '\n');
}

} // verus!
