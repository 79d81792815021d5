//! Synced lyrics: LRC parsing, LRCLIB query encoding and the decisions
//! around fetching lyrics for the current track.
use vstd::prelude::*;
use vstd::string::StringSliceAdditionalSpecFns;
use crate::converters::{lyrics_line_to_item, LyricsLine};
use crate::library::Track;
use crate::text::{
    all_digits, all_digits_in, chars_to_string, decimal_chars, digit_char, digit_val,
    digits_upto, digits_value, find_char, find_char_from, is_digit, is_digit_char,
    lemma_digits_value_prefix, lemma_find_char_bounds, push_decimal, push_str, to_chars,
    trim_bounds, trim_end_index, trim_start_index, trimmed,
};

verus! {

broadcast use vstd::string::group_string_axioms;

// ── URL encoding ─────────────────────────────────────────────────────────

/// Bytes that stand for themselves in a query parameter.
pub open spec fn is_unreserved(b: u8) -> bool {
    (65 <= b <= 90) || (97 <= b <= 122) || (48 <= b <= 57) || b == 45 || b == 46 || b == 95
        || b == 126
}

/// Upper-case hexadecimal digit for `d < 16`.
pub open spec fn hex_digit(d: nat) -> char {
    if d < 10 {
        digit_char(d)
    } else {
        ((55 + d) as u32) as char
    }
}

/// Encoding of one byte: unreserved bytes as themselves, space as `+`,
/// everything else as `%XX`.
pub open spec fn encode_byte(b: u8) -> Seq<char> {
    if is_unreserved(b) {
        seq![(b as u32) as char]
    } else if b == 32 {
        seq!['+']
    } else {
        seq!['%', hex_digit((b / 16) as nat), hex_digit((b % 16) as nat)]
    }
}

/// Query-parameter encoding of a byte string.
pub open spec fn url_encoded(bytes: Seq<u8>) -> Seq<char>
    decreases bytes.len(),
{
    if bytes.len() == 0 {
        Seq::empty()
    } else {
        url_encoded(bytes.drop_last()) + encode_byte(bytes.last())
    }
}

/// Value of a hexadecimal digit character (either case).
pub open spec fn hex_value(c: char) -> nat {
    let u = c as u32;
    if 48 <= u <= 57 {
        (u - 48) as nat
    } else if 65 <= u <= 70 {
        (u - 55) as nat
    } else if 97 <= u <= 102 {
        (u - 87) as nat
    } else {
        0
    }
}

/// Decoding of a query parameter, read from the front: `%XX` is the byte
/// with hexadecimal value `XX`, `+` is a space, and any other character
/// stands for its own code as a byte.
pub open spec fn url_decoded(s: Seq<char>) -> Seq<u8>
    decreases s.len(),
{
    if s.len() == 0 {
        Seq::empty()
    } else if s[0] == '%' && s.len() >= 3 {
        seq![(hex_value(s[1]) * 16 + hex_value(s[2])) as u8] + url_decoded(s.subrange(3, s.len() as int))
    } else if s[0] == '+' {
        seq![32u8] + url_decoded(s.drop_first())
    } else {
        seq![(s[0] as u32) as u8] + url_decoded(s.drop_first())
    }
}

proof fn lemma_encoded_front(bytes: Seq<u8>)
    requires
        bytes.len() > 0,
    ensures
        url_encoded(bytes) == encode_byte(bytes[0]) + url_encoded(bytes.drop_first()),
    decreases bytes.len(),
{
    if bytes.len() > 1 {
        lemma_encoded_front(bytes.drop_last());
        assert(bytes.drop_last().drop_first() =~= bytes.drop_first().drop_last());
        assert(bytes.drop_last()[0] == bytes[0]);
        assert(bytes.drop_first().last() == bytes.last());
        assert(url_encoded(bytes) =~= encode_byte(bytes[0]) + url_encoded(bytes.drop_first()));
    } else {
        assert(bytes.drop_first() =~= Seq::<u8>::empty());
        assert(bytes.drop_last() =~= Seq::<u8>::empty());
        assert(url_encoded(bytes.drop_last()) =~= Seq::<char>::empty());
        assert(url_encoded(bytes.drop_first()) =~= Seq::<char>::empty());
        assert(bytes.last() == bytes[0]);
        assert(url_encoded(bytes) =~= encode_byte(bytes[0]));
    }
}

proof fn lemma_decode_one(b: u8, rest: Seq<char>)
    ensures
        url_decoded(encode_byte(b) + rest) == seq![b] + url_decoded(rest),
{
    let e = encode_byte(b);
    let s = e + rest;
    if is_unreserved(b) {
        assert(s[0] == (b as u32) as char);
        assert(s.drop_first() =~= rest);
        assert(((b as u32) as char) as u32 == b as u32);
    } else if b == 32 {
        assert(s[0] == '+');
        assert(s.drop_first() =~= rest);
    } else {
        let hi = (b / 16) as nat;
        let lo = (b % 16) as nat;
        assert(s[0] == '%');
        assert(s[1] == hex_digit(hi));
        assert(s[2] == hex_digit(lo));
        assert(s.subrange(3, s.len() as int) =~= rest);
        assert(hex_value(hex_digit(hi)) == hi);
        assert(hex_value(hex_digit(lo)) == lo);
        assert(hi * 16 + lo == b);
    }
}

/// Decoding an encoded query parameter gives back the bytes it was made
/// from: every byte other than `A-Z a-z 0-9 - . _ ~` and space is written as
/// `%XX` (so a `+` or `%` in the text survives), and a space as `+`.
pub proof fn lemma_url_decode_inverts_encode(bytes: Seq<u8>)
    ensures
        url_decoded(url_encoded(bytes)) == bytes,
    decreases bytes.len(),
{
    if bytes.len() > 0 {
        lemma_encoded_front(bytes);
        lemma_decode_one(bytes[0], url_encoded(bytes.drop_first()));
        lemma_url_decode_inverts_encode(bytes.drop_first());
        assert(seq![bytes[0]] + bytes.drop_first() =~= bytes);
    } else {
        assert(url_encoded(bytes) =~= Seq::<char>::empty());
    }
}

fn hex(d: u8) -> (c: char)
    requires
        d < 16,
    ensures
        c == hex_digit(d as nat),
{
    if d < 10 {
        (48u8 + d) as char
    } else {
        (55u8 + d) as char
    }
}

/// Minimal URL-encoder for query parameters: the UTF-8 bytes of `s`,
/// with `A-Z a-z 0-9 - . _ ~` kept, space as `+`, and every other byte as
/// `%XX` in upper-case hexadecimal.
pub fn url_encode(s: &str) -> (out: String)
    ensures
        out@ == url_encoded(s.spec_bytes()),
{
    let bytes = s.as_bytes();
    let mut out: Vec<char> = Vec::new();
    let mut i: usize = 0;
    while i < bytes.len()
        invariant
            i <= bytes@.len(),
            bytes@ == s.spec_bytes(),
            out@ == url_encoded(bytes@.take(i as int)),
        decreases bytes.len() - i,
    {
        let b = bytes[i];
        let ghost before = out@;
        if (65 <= b && b <= 90) || (97 <= b && b <= 122) || (48 <= b && b <= 57) || b == 45 || b
            == 46 || b == 95 || b == 126 {
            out.push(b as char);
        } else if b == 32 {
            out.push('+');
        } else {
            out.push('%');
            out.push(hex(b / 16));
            out.push(hex(b % 16));
        }
        assert(bytes@.take(i + 1).drop_last() =~= bytes@.take(i as int));
        assert(out@ =~= before + encode_byte(b));
        i = i + 1;
    }
    assert(bytes@.take(bytes@.len() as int) =~= bytes@);
    chars_to_string(&out)
}

// ── LRC timestamps ───────────────────────────────────────────────────────

/// A leading `+` or `-` of `s` split off: whether it was `-`, and the rest.
pub open spec fn split_sign(s: Seq<char>) -> (bool, Seq<char>) {
    if s.len() > 0 && (s[0] == '+' || s[0] == '-') {
        (s[0] == '-', s.subrange(1, s.len() as int))
    } else {
        (false, s)
    }
}

/// An `i64` written as an optional sign followed by decimal digits (the
/// strings `i64::from_str` accepts).
pub open spec fn parse_i64_chars(s: Seq<char>) -> Option<int> {
    let (neg, d) = split_sign(s);
    if d.len() > 0 && all_digits(d) {
        let v = if neg {
            -(digits_value(d) as int)
        } else {
            digits_value(d) as int
        };
        if i64::MIN <= v <= i64::MAX {
            Some(v)
        } else {
            None
        }
    } else {
        None
    }
}

/// Thousandths held by the first three fraction digits of `f`.
pub open spec fn frac_millis(f: Seq<char>) -> nat {
    if f.len() == 0 {
        0
    } else if f.len() == 1 {
        digit_val(f[0]) * 100
    } else if f.len() == 2 {
        digit_val(f[0]) * 100 + digit_val(f[1]) * 10
    } else {
        digit_val(f[0]) * 100 + digit_val(f[1]) * 10 + digit_val(f[2])
    }
}

/// A seconds value written as `[+-]digits[.digits]` or `[+-].digits`,
/// in milliseconds rounded half away from zero (the fourth fraction digit
/// decides the rounding).
pub open spec fn parse_seconds_ms(s: Seq<char>) -> Option<int> {
    let (neg, d) = split_sign(s);
    let (ip, fp) = match find_char_from(d, '.', 0, d.len() as int) {
        Some(p) => (d.subrange(0, p), d.subrange(p + 1, d.len() as int)),
        None => (d, Seq::<char>::empty()),
    };
    if ip.len() + fp.len() > 0 && all_digits(ip) && all_digits(fp) {
        let up: nat = if fp.len() > 3 && digit_val(fp[3]) >= 5 {
            1
        } else {
            0
        };
        let mag = digits_value(ip) * 1000 + frac_millis(fp) + up;
        Some(
            if neg {
                -(mag as int)
            } else {
                mag as int
            },
        )
    } else {
        None
    }
}

/// Milliseconds of an LRC timestamp tag body `mm:ss[.xx]`: minutes before
/// the first `:`, seconds after it, each with surrounding whitespace
/// ignored; `None` for other tags and for values outside `i64`.
pub open spec fn parse_timestamp_chars(tag: Seq<char>) -> Option<int> {
    match find_char_from(tag, ':', 0, tag.len() as int) {
        None => None,
        Some(c) => {
            let m = parse_i64_chars(trimmed(tag, 0, c));
            let sec = parse_seconds_ms(trimmed(tag, c + 1, tag.len() as int));
            if m is Some && sec is Some {
                let t = m->0 * 60000 + sec->0;
                if i64::MIN <= t <= i64::MAX {
                    Some(t)
                } else {
                    None
                }
            } else {
                None
            }
        },
    }
}

/// Split a leading sign off `t[a..b]`: whether it is `-`, and where the
/// digits start.
fn sign_at(t: &Vec<char>, a: usize, b: usize) -> (r: (bool, usize))
    requires
        a <= b <= t@.len(),
    ensures
        a <= r.1 <= b,
        r.0 == split_sign(t@.subrange(a as int, b as int)).0,
        t@.subrange(r.1 as int, b as int) == split_sign(t@.subrange(a as int, b as int)).1,
{
    if a < b && (t[a] == '+' || t[a] == '-') {
        let neg = t[a] == '-';
        assert(t@.subrange(a as int, b as int).subrange(1, (b - a) as int) =~= t@.subrange(
            (a + 1) as int,
            b as int,
        ));
        (neg, a + 1)
    } else {
        (false, a)
    }
}

/// Parse `t[a..b]` as an `i64` (optional sign, then digits).
fn parse_i64_in(t: &Vec<char>, a: usize, b: usize) -> (r: Option<i128>)
    requires
        a <= b <= t@.len(),
    ensures
        r matches Some(v) ==> parse_i64_chars(t@.subrange(a as int, b as int)) == Some(v as int)
            && i64::MIN <= v <= i64::MAX,
        r is None ==> parse_i64_chars(t@.subrange(a as int, b as int)) is None,
{
    let (neg, d0) = sign_at(t, a, b);
    if d0 == b || !all_digits_in(t, d0, b) {
        return None;
    }
    let cap: u128 = 9223372036854775808u128;
    match digits_upto(t, d0, b, cap) {
        None => None,
        Some(v) => {
            let x: i128 = if neg {
                -(v as i128)
            } else {
                v as i128
            };
            if x < -9223372036854775808i128 || x > 9223372036854775807i128 {
                None
            } else {
                Some(x)
            }
        },
    }
}

/// Parse `t[a..b]` as seconds, in milliseconds; values whose magnitude is
/// beyond `10^25` are reported as `Err(())` (no such value fits a timestamp).
#[verifier::spinoff_prover]
#[verifier::rlimit(40)]
fn parse_seconds_in(t: &Vec<char>, a: usize, b: usize) -> (r: Option<Result<i128, ()>>)
    requires
        a <= b <= t@.len(),
    ensures
        r is None ==> parse_seconds_ms(t@.subrange(a as int, b as int)) is None,
        r matches Some(Ok(v)) ==> parse_seconds_ms(t@.subrange(a as int, b as int)) == Some(
            v as int,
        ) && -100_000_000_000_000_000_000_000_000_000i128 < v
            < 100_000_000_000_000_000_000_000_000_000i128,
        r matches Some(Err(_)) ==> parse_seconds_ms(t@.subrange(a as int, b as int)) matches Some(
            x,
        ) && (x > 10_000_000_000_000_000_000_000_000 || x < -10_000_000_000_000_000_000_000_000),
{
    let ghost s = t@.subrange(a as int, b as int);
    let (neg, d0) = sign_at(t, a, b);
    let ghost d = t@.subrange(d0 as int, b as int);
    let dot = find_char(t, '.', d0, b);
    proof {
        // the dot position within `d` corresponds to the absolute one
        assert forall|lo: int|
            0 <= lo <= d.len() implies #[trigger] find_char_from(d, '.', lo, d.len() as int)
            == (match find_char_from(t@, '.', d0 + lo, b as int) {
                Some(p) => Some(p - d0),
                None => None,
            }) by {
            lemma_find_shift(t@, '.', d0 as int, b as int, lo);
        }
    }
    let (ie, fs) = match dot {
        Some(p) => (p, p + 1),
        None => (b, b),
    };
    assert(d.subrange(0, (ie - d0) as int) =~= t@.subrange(d0 as int, ie as int));
    assert(match dot {
        Some(p) => d.subrange((p + 1 - d0) as int, d.len() as int) =~= t@.subrange(fs as int, b as int),
        None => true,
    });
    if (ie - d0) + (b - fs) == 0 || !all_digits_in(t, d0, ie) || !all_digits_in(t, fs, b) {
        assert(dot is None ==> Seq::<char>::empty() =~= t@.subrange(fs as int, b as int));
        return None;
    }
    assert(dot is None ==> Seq::<char>::empty() =~= t@.subrange(fs as int, b as int));
    let ghost fp = t@.subrange(fs as int, b as int);
    let cap: u128 = 10_000_000_000_000_000_000_000u128;
    let ip = match digits_upto(t, d0, ie, cap) {
        None => {
            return Some(Err(()));
        },
        Some(v) => v,
    };
    let nf = b - fs;
    let mut fm: u128 = 0;
    if nf >= 1 {
        assert(fp[0] == t@[fs as int]);
        fm = fm + (t[fs] as u32 - 48) as u128 * 100;
    }
    if nf >= 2 {
        assert(fp[1] == t@[fs + 1]);
        fm = fm + (t[fs + 1] as u32 - 48) as u128 * 10;
    }
    if nf >= 3 {
        assert(fp[2] == t@[fs + 2]);
        fm = fm + (t[fs + 2] as u32 - 48) as u128;
    }
    let mut up: u128 = 0;
    if nf > 3 {
        assert(fp[3] == t@[fs + 3]);
        if t[fs + 3] as u32 - 48 >= 5 {
            up = 1;
        }
    }
    assert(fm == frac_millis(fp));
    let mag: i128 = (ip * 1000 + fm + up) as i128;
    if neg {
        Some(Ok(-mag))
    } else {
        Some(Ok(mag))
    }
}

proof fn lemma_find_shift(t: Seq<char>, c: char, base: int, hi: int, lo: int)
    requires
        0 <= base <= hi <= t.len(),
        0 <= lo <= hi - base,
    ensures
        find_char_from(t.subrange(base, hi), c, lo, hi - base) == (match find_char_from(
            t,
            c,
            base + lo,
            hi,
        ) {
            Some(p) => Some(p - base),
            None => None,
        }),
    decreases hi - base - lo,
{
    if lo < hi - base {
        lemma_find_shift(t, c, base, hi, lo + 1);
    }
}

/// Milliseconds of the timestamp tag body held in `t`.
fn timestamp_from_chars(t: &Vec<char>) -> (r: Option<i64>)
    ensures
        r matches Some(x) ==> parse_timestamp_chars(t@) == Some(x as int),
        r is None ==> parse_timestamp_chars(t@) is None,
{
    let n = t.len();
    let c = match find_char(t, ':', 0, n) {
        None => {
            return None;
        },
        Some(c) => c,
    };
    let (ma, mb) = trim_bounds(t, 0, c);
    let (sa, sb) = trim_bounds(t, c + 1, n);
    let m = parse_i64_in(t, ma, mb);
    let sec = parse_seconds_in(t, sa, sb);
    match (m, sec) {
        (Some(mv), Some(Ok(sv))) => {
            let total: i128 = mv * 60000 + sv;
            if total < -9223372036854775808i128 || total > 9223372036854775807i128 {
                None
            } else {
                Some(total as i64)
            }
        },
        _ => None,
    }
}

/// Parse a single LRC timestamp tag body (e.g. `"01:23.45"` or `"01:23"`)
/// into milliseconds. Returns `None` for non-timestamp tags like `"ar:Foo"`.
/// The seconds are read as an exact decimal number (optional sign, digits,
/// optional fraction) and rounded to the millisecond half away from zero;
/// exponent forms, `inf` and `NaN` are not timestamps.
pub fn parse_lrc_timestamp(tag: &str) -> (r: Option<i64>)
    ensures
        r matches Some(x) ==> parse_timestamp_chars(tag@) == Some(x as int),
        r is None ==> parse_timestamp_chars(tag@) is None,
{
    let t = to_chars(tag);
    timestamp_from_chars(&t)
}

// ── LRC documents ────────────────────────────────────────────────────────

/// Timestamps of the bracketed tags in `s[lo..hi]`, in order, and where the
/// text after the last complete tag starts. Text between tags is skipped;
/// tags that are not timestamps contribute nothing.
pub open spec fn scan_tags(s: Seq<char>, lo: int, hi: int) -> (Seq<i64>, int)
    decreases hi - lo,
{
    if lo >= hi {
        (Seq::empty(), lo)
    } else {
        match find_char_from(s, '[', lo, hi) {
            None => (Seq::empty(), lo),
            Some(st) => match find_char_from(s, ']', st, hi) {
                None => (Seq::empty(), lo),
                Some(e) => {
                    proof {
                        lemma_find_char_bounds(s, '[', lo, hi);
                        lemma_find_char_bounds(s, ']', st, hi);
                    }
                    let rest = scan_tags(s, e + 1, hi);
                    let here = parse_timestamp_chars(s.subrange(st + 1, e));
                    (
                        if here is Some {
                            seq![here->0 as i64] + rest.0
                        } else {
                            rest.0
                        },
                        rest.1,
                    )
                },
            },
        }
    }
}

/// Entries of one line `s[lo..hi]`: after trimming, a line that starts with
/// `[` yields one `(timestamp, text)` pair per timestamp tag, where the text
/// is what follows the last tag, trimmed; lines without timestamps or
/// without text yield nothing.
pub open spec fn line_entries(s: Seq<char>, lo: int, hi: int) -> Seq<(i64, Seq<char>)> {
    let a = trim_start_index(s, lo, hi);
    let b = trim_end_index(s, a, hi);
    if a < b && s[a] == '[' {
        let (ts, t) = scan_tags(s, a, b);
        let text = trimmed(s, t, b);
        if ts.len() == 0 || text.len() == 0 {
            Seq::empty()
        } else {
            Seq::new(ts.len(), |i: int| (ts[i], text))
        }
    } else {
        Seq::empty()
    }
}

/// Entries of every `\n`-separated line of `s[lo..hi]`, in document order.
pub open spec fn lrc_entries(s: Seq<char>, lo: int, hi: int) -> Seq<(i64, Seq<char>)>
    decreases hi - lo,
{
    if lo >= hi {
        Seq::empty()
    } else {
        match find_char_from(s, '\n', lo, hi) {
            None => line_entries(s, lo, hi),
            Some(nl) => {
                proof {
                    lemma_find_char_bounds(s, '\n', lo, hi);
                }
                line_entries(s, lo, nl) + lrc_entries(s, nl + 1, hi)
            },
        }
    }
}

/// `s` with `x` placed after every element whose time is not later.
pub open spec fn insert_by_time<T>(s: Seq<(i64, T)>, x: (i64, T)) -> Seq<(i64, T)>
    decreases s.len(),
{
    if s.len() == 0 {
        seq![x]
    } else if s.last().0 <= x.0 {
        s.push(x)
    } else {
        insert_by_time(s.drop_last(), x).push(s.last())
    }
}

/// Stable sort of `s` by time.
pub open spec fn sort_by_time<T>(s: Seq<(i64, T)>) -> Seq<(i64, T)>
    decreases s.len(),
{
    if s.len() == 0 {
        Seq::empty()
    } else {
        insert_by_time(sort_by_time(s.drop_last()), s.last())
    }
}

/// Times in `s` never decrease.
pub open spec fn sorted_by_time<T>(s: Seq<(i64, T)>) -> bool {
    forall|i: int, j: int| 0 <= i <= j < s.len() ==> #[trigger] s[i].0 <= #[trigger] s[j].0
}

/// Views of the texts of parsed entries.
pub open spec fn entries_view(v: Seq<(i64, String)>) -> Seq<(i64, Seq<char>)> {
    v.map_values(|p: (i64, String)| (p.0, p.1@))
}

proof fn lemma_insert_at<T>(s: Seq<(i64, T)>, x: (i64, T), p: int)
    requires
        0 <= p <= s.len(),
        p == 0 || s[p - 1].0 <= x.0,
        forall|j: int| p <= j < s.len() ==> #[trigger] s[j].0 > x.0,
    ensures
        insert_by_time(s, x) == s.insert(p, x),
    decreases s.len(),
{
    if s.len() == 0 {
        assert(s.insert(p, x) =~= seq![x]);
    } else if p == s.len() {
        assert(s.insert(p, x) =~= s.push(x));
    } else {
        assert(s.last().0 > x.0);
        lemma_insert_at(s.drop_last(), x, p);
        assert(s.drop_last().insert(p, x).push(s.last()) =~= s.insert(p, x));
    }
}

/// Where `insert_by_time` places `x` in `s`.
pub open spec fn insert_pos<T>(s: Seq<(i64, T)>, x: (i64, T)) -> int
    decreases s.len(),
{
    if s.len() == 0 {
        0
    } else if s.last().0 <= x.0 {
        s.len() as int
    } else {
        insert_pos(s.drop_last(), x)
    }
}

proof fn lemma_insert_pos<T>(s: Seq<(i64, T)>, x: (i64, T))
    ensures
        0 <= insert_pos(s, x) <= s.len(),
        insert_pos(s, x) == 0 || s[insert_pos(s, x) - 1].0 <= x.0,
        forall|j: int| insert_pos(s, x) <= j < s.len() ==> #[trigger] s[j].0 > x.0,
    decreases s.len(),
{
    if s.len() > 0 && s.last().0 > x.0 {
        let d = s.drop_last();
        lemma_insert_pos(d, x);
        assert forall|j: int| insert_pos(s, x) <= j < s.len() implies #[trigger] s[j].0 > x.0 by {
            if j < d.len() {
                assert(s[j] == d[j]);
            }
        }
    }
}

proof fn lemma_insert_sorted<T>(s: Seq<(i64, T)>, x: (i64, T))
    requires
        sorted_by_time(s),
    ensures
        sorted_by_time(insert_by_time(s, x)),
        insert_by_time(s, x).len() == s.len() + 1,
{
    lemma_insert_pos(s, x);
    let p = insert_pos(s, x);
    lemma_insert_at(s, x, p);
    let r = s.insert(p, x);
    assert forall|i: int, j: int| 0 <= i <= j < r.len() implies #[trigger] r[i].0 <= #[trigger] r[j].0 by {
        if i < p && j < p {
            assert(r[i] == s[i] && r[j] == s[j]);
        } else if i < p && j == p {
            assert(s[i].0 <= s[p - 1].0);
        } else if i < p {
            assert(r[j] == s[j - 1]);
        } else if i == p && j > p {
            assert(r[j] == s[j - 1]);
        } else if i > p {
            assert(r[i] == s[i - 1] && r[j] == s[j - 1]);
        }
    }
}

/// The stable sort by time is ordered by time and keeps every entry.
pub proof fn lemma_sort_by_time_sorted<T>(s: Seq<(i64, T)>)
    ensures
        sorted_by_time(sort_by_time(s)),
        sort_by_time(s).len() == s.len(),
    decreases s.len(),
{
    if s.len() > 0 {
        lemma_sort_by_time_sorted(s.drop_last());
        lemma_insert_sorted(sort_by_time(s.drop_last()), s.last());
    }
}

proof fn lemma_insert_map(s: Seq<(i64, String)>, x: (i64, String))
    ensures
        entries_view(insert_by_time(s, x)) == insert_by_time(entries_view(s), (x.0, x.1@)),
    decreases s.len(),
{
    if s.len() == 0 {
        assert(entries_view(seq![x]) =~= seq![(x.0, x.1@)]);
    } else if s.last().0 <= x.0 {
        assert(entries_view(s.push(x)) =~= entries_view(s).push((x.0, x.1@)));
    } else {
        lemma_insert_map(s.drop_last(), x);
        assert(entries_view(s.drop_last()) =~= entries_view(s).drop_last());
        assert(entries_view(insert_by_time(s.drop_last(), x).push(s.last())) =~= entries_view(
            insert_by_time(s.drop_last(), x),
        ).push((s.last().0, s.last().1@)));
    }
}

fn copy_range(s: &Vec<char>, a: usize, b: usize) -> (v: Vec<char>)
    requires
        a <= b <= s@.len(),
    ensures
        v@ == s@.subrange(a as int, b as int),
{
    let mut v: Vec<char> = Vec::new();
    let mut k = a;
    while k < b
        invariant
            a <= k <= b <= s@.len(),
            v@ == s@.subrange(a as int, k as int),
        decreases b - k,
    {
        v.push(s[k]);
        k = k + 1;
        assert(v@ =~= s@.subrange(a as int, k as int));
    }
    v
}

/// Append the entries of the line `s[lo..hi]` to `out`.
fn push_line_entries(s: &Vec<char>, lo: usize, hi: usize, out: &mut Vec<(i64, String)>)
    requires
        lo <= hi <= s@.len(),
    ensures
        entries_view(final(out)@) == entries_view(old(out)@) + line_entries(s@, lo as int, hi as int),
{
    let (a, b) = trim_bounds(s, lo, hi);
    if !(a < b && s[a] == '[') {
        assert(entries_view(out@) + Seq::<(i64, Seq<char>)>::empty() =~= entries_view(out@));
        return;
    }
    let mut ts: Vec<i64> = Vec::new();
    let mut cur = a;
    loop
        invariant
            a <= cur <= b <= s@.len(),
            ts@ + scan_tags(s@, cur as int, b as int).0 == scan_tags(s@, a as int, b as int).0,
            scan_tags(s@, cur as int, b as int).1 == scan_tags(s@, a as int, b as int).1,
        ensures
            a <= cur <= b,
            ts@ == scan_tags(s@, a as int, b as int).0,
            cur == scan_tags(s@, a as int, b as int).1,
        decreases b - cur,
    {
        if cur >= b {
            assert(ts@ + Seq::<i64>::empty() =~= ts@);
            break;
        }
        let st = match find_char(s, '[', cur, b) {
            None => {
                assert(ts@ + Seq::<i64>::empty() =~= ts@);
                break;
            },
            Some(st) => st,
        };
        let e = match find_char(s, ']', st, b) {
            None => {
                assert(ts@ + Seq::<i64>::empty() =~= ts@);
                break;
            },
            Some(e) => e,
        };
        proof {
            lemma_find_char_bounds(s@, '[', cur as int, b as int);
            lemma_find_char_bounds(s@, ']', st as int, b as int);
        }
        let tag = copy_range(s, st + 1, e);
        let ghost before = ts@;
        match timestamp_from_chars(&tag) {
            Some(ms) => {
                ts.push(ms);
                assert(before + (seq![ms] + scan_tags(s@, (e + 1) as int, b as int).0) =~= ts@
                    + scan_tags(s@, (e + 1) as int, b as int).0);
            },
            None => {},
        }
        cur = e + 1;
    }
    let (ta, tb) = trim_bounds(s, cur, b);
    if ts.len() == 0 || ta == tb {
        assert(entries_view(out@) + Seq::<(i64, Seq<char>)>::empty() =~= entries_view(out@));
        return;
    }
    let text_chars = copy_range(s, ta, tb);
    let text = chars_to_string(&text_chars);
    let ghost text_view = s@.subrange(ta as int, tb as int);
    let ghost start = entries_view(out@);
    let mut i: usize = 0;
    while i < ts.len()
        invariant
            i <= ts@.len(),
            text@ == text_view,
            entries_view(out@) == start + Seq::new(i as nat, |k: int| (ts@[k], text_view)),
        decreases ts.len() - i,
    {
        let ghost prev = out@;
        out.push((ts[i], text.clone()));
        assert(entries_view(out@) =~= entries_view(prev).push((ts@[i as int], text_view)));
        i = i + 1;
        assert(entries_view(out@) =~= start + Seq::new(i as nat, |k: int| (ts@[k], text_view)));
    }
}

/// Parse LRC-format synced lyrics (`[mm:ss.xx] text` per line, optionally
/// with several timestamp tags on one line) into `(timestamp_ms, text)`
/// pairs sorted by timestamp (stable, so equal timestamps keep document
/// order). Metadata tags (`[ar:...]`, `[ti:...]`) are skipped since they do
/// not parse as timestamps.
pub fn parse_lrc(lrc: &str) -> (out: Vec<(i64, String)>)
    ensures
        entries_view(out@) == sort_by_time(lrc_entries(lrc@, 0, lrc@.len() as int)),
        sorted_by_time(entries_view(out@)),
{
    let s = to_chars(lrc);
    let n = s.len();
    let mut entries: Vec<(i64, String)> = Vec::new();
    let mut lo: usize = 0;
    while lo < n
        invariant
            lo <= n == s@.len(),
            s@ == lrc@,
            entries_view(entries@) + lrc_entries(s@, lo as int, n as int) == lrc_entries(
                s@,
                0,
                n as int,
            ),
        decreases n - lo,
    {
        let ghost before = entries_view(entries@);
        match find_char(&s, '\n', lo, n) {
            Some(nl) => {
                push_line_entries(&s, lo, nl, &mut entries);
                assert(before + (line_entries(s@, lo as int, nl as int) + lrc_entries(
                    s@,
                    (nl + 1) as int,
                    n as int,
                )) =~= entries_view(entries@) + lrc_entries(s@, (nl + 1) as int, n as int));
                lo = nl + 1;
            },
            None => {
                push_line_entries(&s, lo, n, &mut entries);
                assert(before + line_entries(s@, lo as int, n as int) =~= entries_view(entries@)
                    + lrc_entries(s@, n as int, n as int));
                lo = n;
            },
        }
    }
    assert(entries_view(entries@) + Seq::<(i64, Seq<char>)>::empty() =~= entries_view(entries@));
    // stable insertion sort by timestamp
    let mut sorted: Vec<(i64, String)> = Vec::new();
    let mut k: usize = 0;
    while k < entries.len()
        invariant
            k <= entries@.len(),
            sorted@ == sort_by_time(entries@.take(k as int)),
        decreases entries.len() - k,
    {
        let x = (entries[k].0, entries[k].1.clone());
        let mut p = sorted.len();
        while p > 0 && sorted[p - 1].0 > x.0
            invariant
                p <= sorted@.len(),
                forall|j: int| p <= j < sorted@.len() ==> #[trigger] sorted@[j].0 > x.0,
            decreases p,
        {
            p = p - 1;
        }
        proof {
            lemma_insert_at(sorted@, x, p as int);
            assert(entries@.take(k + 1).drop_last() =~= entries@.take(k as int));
            assert(x == entries@[k as int]);
        }
        sorted.insert(p, x);
        k = k + 1;
    }
    proof {
        assert(entries@.take(entries@.len() as int) =~= entries@);
        lemma_sort_map(entries@);
        lemma_sort_by_time_sorted(lrc_entries(lrc@, 0, lrc@.len() as int));
    }
    sorted
}

proof fn lemma_sort_map(s: Seq<(i64, String)>)
    ensures
        entries_view(sort_by_time(s)) == sort_by_time(entries_view(s)),
    decreases s.len(),
{
    if s.len() == 0 {
        assert(entries_view(Seq::<(i64, String)>::empty()) =~= Seq::<(i64, Seq<char>)>::empty());
    } else {
        lemma_sort_map(s.drop_last());
        lemma_insert_map(sort_by_time(s.drop_last()), s.last());
        assert(entries_view(s.drop_last()) =~= entries_view(s).drop_last());
    }
}

// ── Lyrics service decisions ─────────────────────────────────────────────

/// Events emitted by the lyrics service for UI feedback.
#[derive(Debug, Clone)]
pub enum LyricsEvent {
    /// Lyrics were fetched and written to the database; `synced` carries the
    /// synced lyrics, or the plain lyrics when no synced ones exist.
    Fetched { track_id: i64, synced: String },
    /// No lyrics were found for this track.
    NotFound { track_id: i64 },
    /// The fetch failed (network error, parse error, etc.).
    Failed { track_id: i64, error: String },
}

/// One LRCLIB `/get` or `/search` result (the fields the service reads).
#[derive(Debug, Clone)]
pub struct LrcLibSearchItem {
    pub synced_lyrics: Option<String>,
    pub plain_lyrics: Option<String>,
}

/// Lyrics obtained for a request, with a note of where they came from.
#[derive(Debug, Clone)]
pub struct FetchedLyrics {
    pub synced: Option<String>,
    pub plain: Option<String>,
    pub source: &'static str,
}

/// Default LRCLIB instance.
pub const LRCLIB_BASE_URL: &'static str = "https://lrclib.net";

/// Index of the last character of `s` that is not `/`, plus one.
pub open spec fn trailing_slash_trim(s: Seq<char>, hi: int) -> int
    decreases hi,
{
    if hi > 0 && s[hi - 1] == '/' {
        trailing_slash_trim(s, hi - 1)
    } else {
        hi
    }
}

/// The base URL in use for `configured`: trailing slashes removed, and the
/// default instance when nothing is left.
pub open spec fn effective_base_url(configured: Seq<char>) -> Seq<char> {
    let t = configured.take(trailing_slash_trim(configured, configured.len() as int));
    if t.len() == 0 {
        LRCLIB_BASE_URL@
    } else {
        t
    }
}

/// Query URL for an exact `/get` match.
pub open spec fn get_url_chars(
    base: Seq<char>,
    artist: Seq<u8>,
    album: Seq<u8>,
    title: Seq<u8>,
    duration_secs: i64,
) -> Seq<char> {
    base + "/get?artist="@ + url_encoded(artist) + "&album="@ + url_encoded(album) + "&title="@
        + url_encoded(title) + if duration_secs > 0 {
        "&duration="@ + decimal_chars(duration_secs as nat)
    } else {
        Seq::empty()
    }
}

/// Query URL for a fuzzy `/search`.
pub open spec fn search_url_chars(base: Seq<char>, artist: Seq<u8>, title: Seq<u8>) -> Seq<char> {
    base + "/search?artist="@ + url_encoded(artist) + "&track_name="@ + url_encoded(title)
}

/// Synced-lyrics service settings: whether network access is permitted, and
/// which LRCLIB instance to query.
pub struct LyricsService {
    enabled: bool,
    base_url: String,
}

impl LyricsService {
    /// Service settings; an empty `base_url` (after removing trailing
    /// slashes) selects the default `https://lrclib.net`.
    pub fn new(enabled: bool, base_url: &str) -> (svc: Self)
        ensures
            svc.is_enabled() == enabled,
            svc.base_url_view() == effective_base_url(base_url@),
    {
        let v = to_chars(base_url);
        let mut hi = v.len();
        while hi > 0 && v[hi - 1] == '/'
            invariant
                hi <= v@.len(),
                trailing_slash_trim(v@, hi as int) == trailing_slash_trim(v@, v@.len() as int),
            decreases hi,
        {
            hi = hi - 1;
        }
        let url = if hi == 0 {
            LRCLIB_BASE_URL.to_owned()
        } else {
            let t = copy_prefix(&v, hi);
            chars_to_string(&t)
        };
        LyricsService { enabled, base_url: url }
    }

    /// Whether network access is permitted.
    pub closed spec fn is_enabled(&self) -> bool {
        self.enabled
    }

    /// The configured base URL.
    pub closed spec fn base_url_view(&self) -> Seq<char> {
        self.base_url@
    }

    /// Enable or disable network access.
    pub fn set_enabled(&mut self, enabled: bool)
        ensures
            final(self).is_enabled() == enabled,
            final(self).base_url_view() == old(self).base_url_view(),
    {
        self.enabled = enabled;
    }

    /// The LRCLIB base URL in use.
    pub fn base_url(&self) -> (s: &str)
        ensures
            s@ == self.base_url_view(),
    {
        self.base_url.as_str()
    }

    /// Whether a fetch request should be queued: only when enabled and when
    /// the request channel has room (a full channel drops the request
    /// rather than block).
    pub fn fetch_for_track(&self, channel_has_room: bool) -> (send: bool)
        ensures
            send == (self.is_enabled() && channel_has_room),
    {
        self.enabled && channel_has_room
    }

    /// URL of the exact-match query; `duration_secs` is the track length in
    /// whole seconds and is only sent when positive.
    pub fn get_url(&self, artist: &str, album: &str, title: &str, duration_secs: i64) -> (u: String)
        ensures
            u@ == get_url_chars(
                self.base_url_view(),
                artist.spec_bytes(),
                album.spec_bytes(),
                title.spec_bytes(),
                duration_secs,
            ),
    {
        let mut out: Vec<char> = Vec::new();
        push_str(&mut out, self.base_url.as_str());
        push_str(&mut out, "/get?artist=");
        let a = url_encode(artist);
        push_str(&mut out, a.as_str());
        push_str(&mut out, "&album=");
        let b = url_encode(album);
        push_str(&mut out, b.as_str());
        push_str(&mut out, "&title=");
        let c = url_encode(title);
        push_str(&mut out, c.as_str());
        let ghost mid = out@;
        if duration_secs > 0 {
            push_str(&mut out, "&duration=");
            push_decimal(&mut out, duration_secs as u64);
        }
        assert(out@ =~= get_url_chars(
            self.base_url@,
            artist.spec_bytes(),
            album.spec_bytes(),
            title.spec_bytes(),
            duration_secs,
        ));
        chars_to_string(&out)
    }

    /// URL of the fuzzy search query.
    pub fn search_url(&self, artist: &str, title: &str) -> (u: String)
        ensures
            u@ == search_url_chars(self.base_url_view(), artist.spec_bytes(), title.spec_bytes()),
    {
        let mut out: Vec<char> = Vec::new();
        push_str(&mut out, self.base_url.as_str());
        push_str(&mut out, "/search?artist=");
        let a = url_encode(artist);
        push_str(&mut out, a.as_str());
        push_str(&mut out, "&track_name=");
        let c = url_encode(title);
        push_str(&mut out, c.as_str());
        assert(out@ =~= search_url_chars(self.base_url@, artist.spec_bytes(), title.spec_bytes()));
        chars_to_string(&out)
    }
}

fn copy_prefix(v: &Vec<char>, n: usize) -> (t: Vec<char>)
    requires
        n <= v@.len(),
    ensures
        t@ == v@.take(n as int),
{
    let mut t: Vec<char> = Vec::new();
    let mut k: usize = 0;
    while k < n
        invariant
            k <= n <= v@.len(),
            t@ == v@.take(k as int),
        decreases n - k,
    {
        t.push(v[k]);
        k = k + 1;
        assert(t@ =~= v@.take(k as int));
    }
    t
}

/// First index in `items` whose synced lyrics are present, if any.
pub open spec fn first_with_synced(items: Seq<LrcLibSearchItem>) -> Option<int> {
    if exists|i: int| 0 <= i < items.len() && items[i].synced_lyrics is Some {
        Some(choose|i: int| 0 <= i < items.len() && items[i].synced_lyrics is Some && forall|j: int|
            0 <= j < i ==> items[j].synced_lyrics is None)
    } else {
        None
    }
}

/// First index in `items` whose plain lyrics are present, if any.
pub open spec fn first_with_plain(items: Seq<LrcLibSearchItem>) -> Option<int> {
    if exists|i: int| 0 <= i < items.len() && items[i].plain_lyrics is Some {
        Some(choose|i: int| 0 <= i < items.len() && items[i].plain_lyrics is Some && forall|j: int|
            0 <= j < i ==> items[j].plain_lyrics is None)
    } else {
        None
    }
}

proof fn lemma_first_unique_synced(items: Seq<LrcLibSearchItem>, i: int)
    requires
        0 <= i < items.len(),
        items[i].synced_lyrics is Some,
        forall|j: int| 0 <= j < i ==> items[j].synced_lyrics is None,
    ensures
        first_with_synced(items) == Some(i),
{
    let k = choose|k: int| 0 <= k < items.len() && items[k].synced_lyrics is Some && forall|j: int|
        0 <= j < k ==> items[j].synced_lyrics is None;
    assert(k == i) by {
        if k < i {
            assert(items[k].synced_lyrics is None);
        }
        if i < k {
            assert(items[i].synced_lyrics is None);
        }
    }
}

proof fn lemma_first_unique_plain(items: Seq<LrcLibSearchItem>, i: int)
    requires
        0 <= i < items.len(),
        items[i].plain_lyrics is Some,
        forall|j: int| 0 <= j < i ==> items[j].plain_lyrics is None,
    ensures
        first_with_plain(items) == Some(i),
{
    let k = choose|k: int| 0 <= k < items.len() && items[k].plain_lyrics is Some && forall|j: int|
        0 <= j < k ==> items[j].plain_lyrics is None;
    assert(k == i) by {
        if k < i {
            assert(items[k].plain_lyrics is None);
        }
        if i < k {
            assert(items[i].plain_lyrics is None);
        }
    }
}

/// Choose among `/search` results: the first result with synced lyrics
/// (keeping its plain lyrics too), else the first with plain lyrics, else
/// nothing.
pub fn select_search_result(items: &Vec<LrcLibSearchItem>) -> (r: FetchedLyrics)
    ensures
        match first_with_synced(items@) {
            Some(i) => r.synced == items@[i].synced_lyrics && r.plain == items@[i].plain_lyrics
                && r.source@ == "lrclib /search (synced)"@,
            None => match first_with_plain(items@) {
                Some(i) => r.synced is None && r.plain == items@[i].plain_lyrics && r.source@
                    == "lrclib /search (plain)"@,
                None => r.synced is None && r.plain is None && r.source@
                    == "lrclib /search (empty)"@,
            },
        },
{
    let mut i: usize = 0;
    while i < items.len()
        invariant
            i <= items@.len(),
            forall|j: int| 0 <= j < i ==> (#[trigger] items@[j]).synced_lyrics is None,
        decreases items.len() - i,
    {
        if items[i].synced_lyrics.is_some() {
            proof {
                lemma_first_unique_synced(items@, i as int);
            }
            return FetchedLyrics {
                synced: items[i].synced_lyrics.clone(),
                plain: items[i].plain_lyrics.clone(),
                source: "lrclib /search (synced)",
            };
        }
        i = i + 1;
    }
    let mut k: usize = 0;
    while k < items.len()
        invariant
            k <= items@.len(),
            forall|j: int| 0 <= j < items@.len() ==> (#[trigger] items@[j]).synced_lyrics is None,
            forall|j: int| 0 <= j < k ==> (#[trigger] items@[j]).plain_lyrics is None,
        decreases items.len() - k,
    {
        if items[k].plain_lyrics.is_some() {
            proof {
                lemma_first_unique_plain(items@, k as int);
            }
            return FetchedLyrics {
                synced: None,
                plain: items[k].plain_lyrics.clone(),
                source: "lrclib /search (plain)",
            };
        }
        k = k + 1;
    }
    FetchedLyrics { synced: None, plain: None, source: "lrclib /search (empty)" }
}

/// What to do with the answer to the exact-match query.
#[derive(Debug, Clone, Copy, PartialEq, Eq, Structural)]
pub enum GetAnswer {
    /// A success status: its body holds the lyrics.
    UseBody,
    /// Neither success nor error (informational, redirect): use the body if
    /// it parses, otherwise search.
    TryBody,
    /// A client or server error (such as "not found"): search instead.
    Search,
}

/// How the exact-match answer with HTTP status `status` is used.
pub open spec fn get_answer(status: u16) -> GetAnswer {
    if 200 <= status <= 299 {
        GetAnswer::UseBody
    } else if 400 <= status <= 599 {
        GetAnswer::Search
    } else {
        GetAnswer::TryBody
    }
}

/// Classify the status of the exact-match answer.
pub fn classify_get_status(status: u16) -> (a: GetAnswer)
    ensures
        a == get_answer(status),
{
    if 200 <= status && status <= 299 {
        GetAnswer::UseBody
    } else if 400 <= status && status <= 599 {
        GetAnswer::Search
    } else {
        GetAnswer::TryBody
    }
}

/// Lyrics from the exact-match answer, as given.
pub fn fetched_from_get(item: LrcLibSearchItem) -> (r: FetchedLyrics)
    ensures
        r.synced == item.synced_lyrics,
        r.plain == item.plain_lyrics,
        r.source@ == "lrclib /get"@,
{
    FetchedLyrics { synced: item.synced_lyrics, plain: item.plain_lyrics, source: "lrclib /get" }
}

/// No lyrics: the search query got no successful answer.
pub fn search_unanswered() -> (r: FetchedLyrics)
    ensures
        r.synced is None,
        r.plain is None,
        r.source@ == "lrclib /search (no response)"@,
{
    FetchedLyrics { synced: None, plain: None, source: "lrclib /search (no response)" }
}

/// The event that reports a completed fetch for `track_id`: synced lyrics
/// when present, else plain lyrics, else "not found".
pub fn lyrics_event_for(track_id: i64, fetched: &FetchedLyrics) -> (e: LyricsEvent)
    ensures
        fetched.synced is Some ==> e == (LyricsEvent::Fetched {
            track_id,
            synced: fetched.synced->0,
        }),
        fetched.synced is None && fetched.plain is Some ==> e == (LyricsEvent::Fetched {
            track_id,
            synced: fetched.plain->0,
        }),
        fetched.synced is None && fetched.plain is None ==> e == (LyricsEvent::NotFound {
            track_id,
        }),
{
    match &fetched.synced {
        Some(t) => LyricsEvent::Fetched { track_id, synced: t.clone() },
        None => match &fetched.plain {
            Some(p) => LyricsEvent::Fetched { track_id, synced: p.clone() },
            None => LyricsEvent::NotFound { track_id },
        },
    }
}

/// Index of the last line whose timestamp is not after `position_ms` (the
/// line to highlight), if any.
pub fn current_lyrics_line(lines: &Vec<(i64, String)>, position_ms: i64) -> (r: Option<usize>)
    ensures
        r matches Some(i) ==> i < lines@.len() && lines@[i as int].0 <= position_ms && forall|j: int|
            i < j < lines@.len() ==> (#[trigger] lines@[j]).0 > position_ms,
        r is None ==> forall|j: int| 0 <= j < lines@.len() ==> (#[trigger] lines@[j]).0 > position_ms,
{
    let mut i = lines.len();
    while i > 0
        invariant
            i <= lines@.len(),
            forall|j: int| i <= j < lines@.len() ==> (#[trigger] lines@[j]).0 > position_ms,
        decreases i,
    {
        if lines[i - 1].0 <= position_ms {
            return Some(i - 1);
        }
        i = i - 1;
    }
    None
}

/// `r` is the first index of a track with id `id` in `tracks`, or `None`
/// when no track has that id.
pub open spec fn is_first_track_with_id(tracks: Seq<Track>, id: i64, r: Option<usize>) -> bool {
    match r {
        Some(i) => (i as int) < tracks.len() && tracks[i as int].id == id && forall|j: int|
            0 <= j < i ==> #[trigger] tracks[j].id != id,
        None => forall|j: int| 0 <= j < tracks.len() ==> #[trigger] tracks[j].id != id,
    }
}

/// First index of a track with id `id`.
pub fn find_track(tracks: &Vec<Track>, id: i64) -> (r: Option<usize>)
    ensures
        is_first_track_with_id(tracks@, id, r),
{
    let mut i: usize = 0;
    while i < tracks.len()
        invariant
            i <= tracks@.len(),
            forall|j: int| 0 <= j < i ==> #[trigger] tracks@[j].id != id,
        decreases tracks.len() - i,
    {
        if tracks[i].id == id {
            return Some(i);
        }
        i = i + 1;
    }
    None
}

/// The stored synced lyrics are present and non-empty.
pub open spec fn has_synced_lyrics(t: Track) -> bool {
    t.lyrics_synced matches Some(l) && l@.len() > 0
}

/// Decide whether to request lyrics for the current track. Nothing is
/// requested when no track is current (which also forgets the last request),
/// when this track was already handled, when the track is not in `tracks`,
/// when it already has synced lyrics, when fetching is disabled or not
/// wanted on play, or when the track has no title. Returns the index in
/// `tracks` of the track to request lyrics for.
pub fn maybe_fetch_lyrics(
    current_track_id: Option<i64>,
    lyrics_fetched_for: &mut Option<i64>,
    tracks: &Vec<Track>,
    enabled: bool,
    fetch_on_play: bool,
) -> (r: Option<usize>)
    ensures
        current_track_id is None ==> r is None && *final(lyrics_fetched_for) is None,
        current_track_id is Some && *old(lyrics_fetched_for) == current_track_id ==> r is None
            && *final(lyrics_fetched_for) == *old(lyrics_fetched_for),
        current_track_id is Some && *old(lyrics_fetched_for) != current_track_id ==> {
            &&& *final(lyrics_fetched_for) == current_track_id
            &&& exists|found: Option<usize>|
                is_first_track_with_id(tracks@, current_track_id->0, found) && r == (match found {
                    Some(i) => if !has_synced_lyrics(tracks@[i as int]) && enabled && fetch_on_play
                        && tracks@[i as int].title@.len() > 0 {
                        Some(i)
                    } else {
                        None
                    },
                    None => None,
                })
        },
{
    let track_id = match current_track_id {
        Some(id) => id,
        None => {
            *lyrics_fetched_for = None;
            return None;
        },
    };
    let same = match *lyrics_fetched_for {
        Some(f) => f == track_id,
        None => false,
    };
    if same {
        return None;
    }
    *lyrics_fetched_for = Some(track_id);
    let found = find_track(tracks, track_id);
    let i = match found {
        Some(i) => i,
        None => {
            return None;
        },
    };
    let has_synced = match &tracks[i].lyrics_synced {
        Some(l) => !l.as_str().is_empty(),
        None => false,
    };
    if has_synced {
        return None;
    }
    if !enabled || !fetch_on_play {
        return None;
    }
    if tracks[i].title.as_str().is_empty() {
        return None;
    }
    Some(i)
}

/// Apply a lyrics event to the in-memory tracks: fetched lyrics become the
/// synced lyrics of the first track with that id; other events change
/// nothing.
pub fn apply_lyrics_event(tracks: &mut Vec<Track>, event: LyricsEvent)
    ensures
        final(tracks)@.len() == old(tracks)@.len(),
        event matches LyricsEvent::Fetched { track_id, synced } ==> exists|found: Option<usize>|
            is_first_track_with_id(old(tracks)@, track_id, found) && match found {
                Some(i) => final(tracks)@ == old(tracks)@.update(
                    i as int,
                    Track { lyrics_synced: Some(synced), ..old(tracks)@[i as int] },
                ),
                None => final(tracks)@ == old(tracks)@,
            },
        !(event is Fetched) ==> final(tracks)@ == old(tracks)@,
{
    match event {
        LyricsEvent::Fetched { track_id, synced } => {
            match find_track(tracks, track_id) {
                Some(i) => {
                    let mut t = tracks.remove(i);
                    t.lyrics_synced = Some(synced);
                    tracks.insert(i, t);
                    assert(tracks@ =~= old(tracks)@.update(
                        i as int,
                        Track { lyrics_synced: Some(synced), ..old(tracks)@[i as int] },
                    ));
                },
                None => {},
            }
        },
        _ => {},
    }
}

/// `i` is the line to highlight among `lines` at `position_ms`: the last
/// whose timestamp is not after the position.
pub open spec fn is_current_line(lines: Seq<(i64, Seq<char>)>, i: int, position_ms: i64) -> bool {
    &&& 0 <= i < lines.len()
    &&& lines[i].0 <= position_ms
    &&& forall|j: int| i < j < lines.len() ==> (#[trigger] lines[j]).0 > position_ms
}

/// The lyrics panel for LRC text `synced` at `position_ms`: its lines in
/// time order, with the line reached by the position marked current.
pub fn lyrics_panel_lines(synced: &str, position_ms: i64) -> (rows: Vec<LyricsLine>)
    ensures
        ({
            let e = sort_by_time(lrc_entries(synced@, 0, synced@.len() as int));
            &&& rows@.len() == e.len()
            &&& forall|i: int|
                0 <= i < e.len() ==> {
                    &&& (#[trigger] rows@[i]).timestamp_ms == e[i].0 as i32
                    &&& rows@[i].text@ == e[i].1
                    &&& rows@[i].is_current == is_current_line(e, i, position_ms)
                }
        }),
{
    let lines = parse_lrc(synced);
    let ghost e = entries_view(lines@);
    let cur = current_lyrics_line(&lines, position_ms);
    let mut rows: Vec<LyricsLine> = Vec::new();
    let mut i: usize = 0;
    while i < lines.len()
        invariant
            i <= lines@.len(),
            e == entries_view(lines@),
            cur matches Some(c) ==> c < lines@.len() && lines@[c as int].0 <= position_ms && forall|
                j: int,
            | c < j < lines@.len() ==> (#[trigger] lines@[j]).0 > position_ms,
            cur is None ==> forall|j: int|
                0 <= j < lines@.len() ==> (#[trigger] lines@[j]).0 > position_ms,
            rows@.len() == i,
            forall|k: int|
                0 <= k < i ==> {
                    &&& (#[trigger] rows@[k]).timestamp_ms == e[k].0 as i32
                    &&& rows@[k].text@ == e[k].1
                    &&& rows@[k].is_current == is_current_line(e, k, position_ms)
                },
        decreases lines.len() - i,
    {
        let is_cur = match cur {
            Some(c) => c == i,
            None => false,
        };
        proof {
            assert(e[i as int] == (lines@[i as int].0, lines@[i as int].1@));
            assert forall|j: int| 0 <= j < lines@.len() implies #[trigger] e[j].0 == lines@[j].0 by {}
            if is_cur {
                assert(is_current_line(e, i as int, position_ms));
            } else {
                if is_current_line(e, i as int, position_ms) {
                    match cur {
                        Some(c) => {
                            if (c as int) < (i as int) {
                                assert(lines@[i as int].0 > position_ms);
                            } else {
                                assert(e[c as int].0 > position_ms);
                            }
                        },
                        None => {
                            assert(lines@[i as int].0 > position_ms);
                        },
                    }
                }
            }
        }
        rows.push(lyrics_line_to_item(lines[i].0, lines[i].1.as_str(), is_cur));
        i = i + 1;
    }
    rows
}

} // verus!
