//! Character-level text helpers: conversion between strings and character
//! vectors, whitespace trimming, searching and decimal formatting.
use vstd::prelude::*;

verus! {

broadcast use vstd::string::group_string_axioms;

/// The characters of `s`.
pub fn to_chars(s: &str) -> (v: Vec<char>)
    ensures
        v@ == s@,
{
    let mut v: Vec<char> = Vec::new();
    for c in it: s.chars()
        invariant
            it.seq() == s@,
            v@ == s@.take(it.index()),
    {
        v.push(c);
        assert(v@ =~= s@.take(it.index() + 1));
    }
    assert(v@ =~= s@);
    v
}

/// A string holding the characters of `v` (std's `FromIterator<&char>` for
/// `String`, which appends each character in order).
#[verifier::external_body]
pub(crate) fn chars_to_string(v: &Vec<char>) -> (s: String)
    ensures
        s@ == v@,
{
    v.iter().collect()
}

/// `c` has the Unicode `White_Space` property (the set `char::is_whitespace`
/// tests).
pub open spec fn is_whitespace(c: char) -> bool {
    let u = c as u32;
    (0x9 <= u <= 0xD) || u == 0x20 || u == 0x85 || u == 0xA0 || u == 0x1680 || (0x2000 <= u
        <= 0x200A) || u == 0x2028 || u == 0x2029 || u == 0x202F || u == 0x205F || u == 0x3000
}

/// Whether `c` is a whitespace character.
pub fn char_is_whitespace(c: char) -> (b: bool)
    ensures
        b == is_whitespace(c),
{
    let u = c as u32;
    (0x9 <= u && u <= 0xD) || u == 0x20 || u == 0x85 || u == 0xA0 || u == 0x1680 || (0x2000 <= u
        && u <= 0x200A) || u == 0x2028 || u == 0x2029 || u == 0x202F || u == 0x205F || u == 0x3000
}

/// Start of `s[lo..hi]` with leading whitespace removed.
pub open spec fn trim_start_index(s: Seq<char>, lo: int, hi: int) -> int
    decreases hi - lo,
{
    if lo < hi && is_whitespace(s[lo]) {
        trim_start_index(s, lo + 1, hi)
    } else {
        lo
    }
}

/// End of `s[lo..hi]` with trailing whitespace removed.
pub open spec fn trim_end_index(s: Seq<char>, lo: int, hi: int) -> int
    decreases hi - lo,
{
    if lo < hi && is_whitespace(s[hi - 1]) {
        trim_end_index(s, lo, hi - 1)
    } else {
        hi
    }
}

/// `s[lo..hi]` with whitespace removed from both ends (as `str::trim`).
pub open spec fn trimmed(s: Seq<char>, lo: int, hi: int) -> Seq<char> {
    let a = trim_start_index(s, lo, hi);
    let b = trim_end_index(s, a, hi);
    s.subrange(a, b)
}

/// Bounds of `s[lo..hi]` once whitespace is removed from both ends.
pub fn trim_bounds(s: &Vec<char>, lo: usize, hi: usize) -> (r: (usize, usize))
    requires
        lo <= hi <= s@.len(),
    ensures
        r.0 == trim_start_index(s@, lo as int, hi as int),
        r.1 == trim_end_index(s@, r.0 as int, hi as int),
        lo <= r.0 <= r.1 <= hi,
{
    let mut a = lo;
    while a < hi && char_is_whitespace(s[a])
        invariant
            lo <= a <= hi <= s@.len(),
            trim_start_index(s@, a as int, hi as int) == trim_start_index(s@, lo as int, hi as int),
        decreases hi - a,
    {
        a = a + 1;
    }
    let mut b = hi;
    while b > a && char_is_whitespace(s[b - 1])
        invariant
            a <= b <= hi <= s@.len(),
            trim_end_index(s@, a as int, b as int) == trim_end_index(s@, a as int, hi as int),
        decreases b,
    {
        b = b - 1;
    }
    (a, b)
}

/// Position of the first `c` in `s[lo..hi]` (absolute), if any.
pub open spec fn find_char_from(s: Seq<char>, c: char, lo: int, hi: int) -> Option<int>
    decreases hi - lo,
{
    if lo >= hi {
        None
    } else if s[lo] == c {
        Some(lo)
    } else {
        find_char_from(s, c, lo + 1, hi)
    }
}

/// A position found by `find_char_from` lies in the searched range and
/// holds the character searched for.
pub proof fn lemma_find_char_bounds(s: Seq<char>, c: char, lo: int, hi: int)
    ensures
        find_char_from(s, c, lo, hi) matches Some(p) ==> lo <= p < hi && s[p] == c,
    decreases hi - lo,
{
    if lo < hi && s[lo] != c {
        lemma_find_char_bounds(s, c, lo + 1, hi);
    }
}

/// First position of `c` in `s[lo..hi]`.
pub fn find_char(s: &Vec<char>, c: char, lo: usize, hi: usize) -> (r: Option<usize>)
    requires
        lo <= hi <= s@.len(),
    ensures
        r matches Some(p) ==> find_char_from(s@, c, lo as int, hi as int) == Some(p as int)
            && lo <= p < hi,
        r is None ==> find_char_from(s@, c, lo as int, hi as int) is None,
{
    let mut i = lo;
    while i < hi
        invariant
            lo <= i <= hi <= s@.len(),
            find_char_from(s@, c, i as int, hi as int) == find_char_from(s@, c, lo as int, hi as int),
        decreases hi - i,
    {
        if s[i] == c {
            return Some(i);
        }
        i = i + 1;
    }
    None
}

/// The ASCII digit for `d < 10`.
pub open spec fn digit_char(d: nat) -> char {
    ((48 + d) as u32) as char
}

/// Decimal representation of `n` without leading zeros ("0" for zero).
pub open spec fn decimal_chars(n: nat) -> Seq<char>
    decreases n,
{
    if n < 10 {
        seq![digit_char(n)]
    } else {
        decimal_chars(n / 10).push(digit_char(n % 10))
    }
}

fn digit(d: u64) -> (c: char)
    requires
        d < 10,
    ensures
        c == digit_char(d as nat),
{
    let b: u8 = 48u8 + (d as u8);
    b as char
}

/// Append the decimal representation of `n` to `out`.
pub fn push_decimal(out: &mut Vec<char>, n: u64)
    ensures
        final(out)@ == old(out)@ + decimal_chars(n as nat),
    decreases n,
{
    if n >= 10 {
        push_decimal(out, n / 10);
    }
    out.push(digit(n % 10));
    assert(final(out)@ =~= old(out)@ + decimal_chars(n as nat));
}

/// Append the characters of `s` to `out`.
pub fn push_str(out: &mut Vec<char>, s: &str)
    ensures
        final(out)@ == old(out)@ + s@,
{
    let v = to_chars(s);
    let mut i: usize = 0;
    while i < v.len()
        invariant
            i <= v@.len(),
            v@ == s@,
            out@ == old(out)@ + v@.take(i as int),
        decreases v.len() - i,
    {
        out.push(v[i]);
        i = i + 1;
        assert(out@ =~= old(out)@ + v@.take(i as int));
    }
    assert(v@.take(v@.len() as int) =~= v@);
}

/// Whether two strings hold the same characters.
pub fn str_eq(a: &str, b: &str) -> (r: bool)
    ensures
        r == (a@ == b@),
{
    let x = to_chars(a);
    let y = to_chars(b);
    if x.len() != y.len() {
        return false;
    }
    let mut i: usize = 0;
    while i < x.len()
        invariant
            x@ == a@,
            y@ == b@,
            x@.len() == y@.len(),
            i <= x@.len(),
            forall|j: int| 0 <= j < i ==> x@[j] == y@[j],
        decreases x.len() - i,
    {
        if x[i] != y[i] {
            return false;
        }
        i = i + 1;
    }
    assert(x@ =~= y@);
    true
}

/// Whether `s` begins with `prefix`.
pub fn starts_with(s: &str, prefix: &str) -> (r: bool)
    ensures
        r == prefix@.is_prefix_of(s@),
{
    let x = to_chars(s);
    let p = to_chars(prefix);
    if p.len() > x.len() {
        return false;
    }
    let mut i: usize = 0;
    while i < p.len()
        invariant
            x@ == s@,
            p@ == prefix@,
            p@.len() <= x@.len(),
            i <= p@.len(),
            forall|j: int| 0 <= j < i ==> p@[j] == x@[j],
        decreases p.len() - i,
    {
        if p[i] != x[i] {
            return false;
        }
        i = i + 1;
    }
    assert(p@ =~= x@.subrange(0, p@.len() as int));
    true
}

/// `needle` occurs in `hay` as a run of consecutive characters.
pub open spec fn has_substring(hay: Seq<char>, needle: Seq<char>) -> bool {
    exists|i: int|
        0 <= i && i + needle.len() <= hay.len() && #[trigger] hay.subrange(i, i + needle.len())
            == needle
}

/// Whether `needle` occurs in `hay`.
pub fn contains_text(hay: &str, needle: &str) -> (r: bool)
    ensures
        r == has_substring(hay@, needle@),
{
    let h = to_chars(hay);
    let n = to_chars(needle);
    if n.len() == 0 {
        assert(hay@.subrange(0int, 0int + needle@.len()) =~= needle@);
        return true;
    }
    if n.len() > h.len() {
        return false;
    }
    let last = h.len() - n.len();
    let mut i: usize = 0;
    while i <= last
        invariant
            h@ == hay@,
            n@ == needle@,
            n@.len() >= 1,
            h@.len() <= usize::MAX,
            last + n@.len() == h@.len(),
            i <= last + 1,
            forall|k: int| 0 <= k < i ==> #[trigger] h@.subrange(k, k + n@.len()) != n@,
        decreases last + 1 - i,
    {
        let mut j: usize = 0;
        let mut same = true;
        while same && j < n.len()
            invariant
                h@ == hay@,
                n@ == needle@,
                i <= last,
                h@.len() <= usize::MAX,
                last + n@.len() == h@.len(),
                j <= n@.len(),
                forall|m: int| 0 <= m < j ==> h@[i + m] == n@[m],
                !same ==> h@.subrange(i as int, i + n@.len()) != n@,
            decreases n@.len() - j + (if same { 1int } else { 0int }),
        {
            if h[i + j] != n[j] {
                assert(h@.subrange(i as int, i + n@.len())[j as int] == h@[i + j]);
                same = false;
            } else {
                j = j + 1;
            }
        }
        if same {
            assert(h@.subrange(i as int, i + n@.len()) =~= n@);
            return true;
        }
        i = i + 1;
    }
    assert forall|k: int| 0 <= k && k + needle@.len() <= hay@.len() implies #[trigger] hay@.subrange(
        k,
        k + needle@.len(),
    ) != needle@ by {
        assert(k < i);
    }
    false
}

/// The texts of a sequence of strings.
pub open spec fn texts(v: Seq<String>) -> Seq<Seq<char>> {
    v.map_values(|s: String| s@)
}

/// The lower-case form of a text (std's `str::to_lowercase`, by Unicode's
/// case mapping).
pub uninterp spec fn lowercase(s: Seq<char>) -> Seq<char>;

/// Every character of `s` is ASCII.
pub open spec fn all_ascii(s: Seq<char>) -> bool {
    forall|i: int| 0 <= i < s.len() ==> (#[trigger] s[i] as u32) < 128
}

/// ASCII lower-casing of one character: `A`-`Z` become `a`-`z`.
pub open spec fn ascii_lower(c: char) -> char {
    if 65 <= (c as u32) <= 90 {
        ((c as u32) + 32) as char
    } else {
        c
    }
}

/// ASCII lower-casing of a text.
pub open spec fn ascii_lowered(s: Seq<char>) -> Seq<char> {
    s.map_values(|c: char| ascii_lower(c))
}

/// The lower-case form of a text, spelled out where it is ASCII.
pub open spec fn lowercase_key(s: Seq<char>) -> Seq<char> {
    if all_ascii(s) {
        ascii_lowered(s)
    } else {
        lowercase(s)
    }
}

/// The lower-case form of `s`, through std's `str::to_lowercase`. For
/// ASCII text that is the ASCII mapping of `A`-`Z` to `a`-`z` (the letters'
/// Unicode lower-case mappings); nothing more is stated of other text.
#[verifier::external_body]
pub(crate) fn to_lowercase(s: &str) -> (r: String)
    ensures
        r@ == lowercase(s@),
        all_ascii(s@) ==> r@ == ascii_lowered(s@),
{
    s.to_lowercase()
}

/// `a` comes no later than `b` in lexicographic order of their characters
/// (for UTF-8 text the same order as that of their bytes).
pub open spec fn lex_le(a: Seq<char>, b: Seq<char>) -> bool
    decreases a.len(),
{
    if a.len() == 0 {
        true
    } else if b.len() == 0 {
        false
    } else if (a[0] as int) < (b[0] as int) {
        true
    } else if a[0] == b[0] {
        lex_le(a.drop_first(), b.drop_first())
    } else {
        false
    }
}

/// The texts of `s` are in lexicographic order.
pub open spec fn sorted_texts(s: Seq<Seq<char>>) -> bool {
    forall|i: int, j: int| 0 <= i < j < s.len() ==> lex_le(#[trigger] s[i], #[trigger] s[j])
}

/// Sort strings into lexicographic order, through std's `slice::sort` (a
/// stable sort by `String`'s order, which compares the UTF-8 bytes).
#[verifier::external_body]
pub(crate) fn sort_strings(v: &mut Vec<String>)
    ensures
        texts(final(v)@).to_multiset() == texts(old(v)@).to_multiset(),
        sorted_texts(texts(final(v)@)),
{
    v.sort()
}

// ── Decimal digits ──────────────────────────────────────────────────────

/// `c` is an ASCII decimal digit.
pub open spec fn is_digit_char(c: char) -> bool {
    48 <= (c as u32) <= 57
}

/// Value of an ASCII decimal digit.
pub open spec fn digit_val(c: char) -> nat {
    ((c as u32) - 48) as nat
}

/// Every character of `s` is an ASCII decimal digit.
pub open spec fn all_digits(s: Seq<char>) -> bool {
    forall|i: int| 0 <= i < s.len() ==> is_digit_char(#[trigger] s[i])
}

/// Value of a string of decimal digits (0 for the empty string).
pub open spec fn digits_value(s: Seq<char>) -> nat
    decreases s.len(),
{
    if s.len() == 0 {
        0
    } else {
        digits_value(s.drop_last()) * 10 + digit_val(s.last())
    }
}

/// The digits of a prefix are worth no more than the whole.
/// The digits of a prefix are worth no more than the whole.
pub proof fn lemma_digits_value_prefix(s: Seq<char>, i: int)
    requires
        0 <= i <= s.len(),
    ensures
        digits_value(s.take(i)) <= digits_value(s),
    decreases s.len(),
{
    if i < s.len() {
        assert(s.drop_last().take(i) =~= s.take(i));
        lemma_digits_value_prefix(s.drop_last(), i);
    } else {
        assert(s.take(i) =~= s);
    }
}

/// Whether `c` is an ASCII decimal digit.
pub fn is_digit(c: char) -> (b: bool)
    ensures
        b == is_digit_char(c),
{
    let u = c as u32;
    48 <= u && u <= 57
}

/// Whether `t[a..b]` consists of decimal digits.
pub fn all_digits_in(t: &Vec<char>, a: usize, b: usize) -> (r: bool)
    requires
        a <= b <= t@.len(),
    ensures
        r == all_digits(t@.subrange(a as int, b as int)),
{
    let mut k = a;
    while k < b
        invariant
            a <= k <= b <= t@.len(),
            all_digits(t@.subrange(a as int, k as int)),
        decreases b - k,
    {
        if !is_digit(t[k]) {
            assert(t@.subrange(a as int, b as int)[k - a] == t@[k as int]);
            return false;
        }
        k = k + 1;
        assert forall|i: int| 0 <= i < k - a implies is_digit_char(
            #[trigger] t@.subrange(a as int, k as int)[i],
        ) by {
            if i < k - 1 - a {
                assert(t@.subrange(a as int, k as int)[i] == t@.subrange(a as int, (k - 1) as int)[i]);
            }
        }
    }
    true
}

/// Value of the digits `t[a..b]` when it is at most `cap`.
pub fn digits_upto(t: &Vec<char>, a: usize, b: usize, cap: u128) -> (r: Option<u128>)
    requires
        a <= b <= t@.len(),
        all_digits(t@.subrange(a as int, b as int)),
        cap <= 0x1_0000_0000_0000_0000_0000_0000_0000u128,
    ensures
        r matches Some(v) ==> v == digits_value(t@.subrange(a as int, b as int)) && v <= cap,
        r is None ==> digits_value(t@.subrange(a as int, b as int)) > cap,
{
    let mut acc: u128 = 0;
    let mut k = a;
    assert(t@.subrange(a as int, a as int) =~= Seq::<char>::empty());
    while k < b
        invariant
            a <= k <= b <= t@.len(),
            all_digits(t@.subrange(a as int, b as int)),
            cap <= 0x1_0000_0000_0000_0000_0000_0000_0000u128,
            acc == digits_value(t@.subrange(a as int, k as int)),
            acc <= cap,
        decreases b - k,
    {
        let ghost full = t@.subrange(a as int, b as int);
        assert(full[k - a] == t@[k as int]);
        assert(is_digit_char(full[k - a]));
        let d = (t[k] as u32 - 48) as u128;
        acc = acc * 10 + d;
        assert(t@.subrange(a as int, (k + 1) as int).drop_last() =~= t@.subrange(a as int, k as int));
        k = k + 1;
        if acc > cap {
            proof {
                assert(full.take(k - a) =~= t@.subrange(a as int, k as int));
                lemma_digits_value_prefix(full, k - a);
            }
            return None;
        }
    }
    Some(acc)
}

} // verus!
