//! Decimal numbers and character sequences.

use vstd::prelude::*;
use vstd::string::*;
use vstd::utf8::*;

verus! {

broadcast use vstd::string::group_string_axioms;

/// The character of a decimal digit `d` (`0 <= d < 10`).
pub open spec fn digit_char(d: nat) -> char {
    (48 + d) as char
}

/// Whether `c` is one of the ASCII digits `0`..`9`.
pub open spec fn is_digit(c: char) -> bool {
    '0' <= c <= '9'
}

/// The decimal representation of `n`, most significant digit first, without sign
/// or leading zeros (`0` is written as a single `0`).
pub open spec fn decimal_chars(n: nat) -> Seq<char>
    decreases n,
{
    if n < 10 {
        seq![digit_char(n)]
    } else {
        decimal_chars(n / 10).push(digit_char(n % 10))
    }
}

/// The number that the digit string `ds` denotes.
pub open spec fn digits_value(ds: Seq<char>) -> int
    decreases ds.len(),
{
    if ds.len() == 0 {
        0
    } else {
        digits_value(ds.drop_last()) * 10 + (ds.last() as int - 48)
    }
}

/// Whether `ds` is a non-empty run of ASCII digits.
pub open spec fn all_digits(ds: Seq<char>) -> bool {
    ds.len() > 0 && forall|i: int| 0 <= i < ds.len() ==> is_digit(#[trigger] ds[i])
}

/// What parsing `s` as an unsigned 64-bit integer gives: an optional `+`,
/// then one or more ASCII digits whose value fits in 64 bits.
pub open spec fn parse_u64_spec(s: Seq<char>) -> Option<u64> {
    let ds = if s.len() > 0 && s[0] == '+' { s.drop_first() } else { s };
    if all_digits(ds) && digits_value(ds) <= u64::MAX {
        Some(digits_value(ds) as u64)
    } else {
        None
    }
}

/// The single-character string of digit `d`.
fn digit_str(d: u64) -> (s: &'static str)
    requires
        d < 10,
    ensures
        s@ == seq![digit_char(d as nat)],
{
    proof {
        reveal_strlit("0");
        reveal_strlit("1");
        reveal_strlit("2");
        reveal_strlit("3");
        reveal_strlit("4");
        reveal_strlit("5");
        reveal_strlit("6");
        reveal_strlit("7");
        reveal_strlit("8");
        reveal_strlit("9");
    }
    match d {
        0 => "0",
        1 => "1",
        2 => "2",
        3 => "3",
        4 => "4",
        5 => "5",
        6 => "6",
        7 => "7",
        8 => "8",
        _ => "9",
    }
}

/// Writes `n` in decimal.
pub fn decimal_string(n: u64) -> (s: String)
    ensures
        s@ == decimal_chars(n as nat),
    decreases n,
{
    let d = digit_str(n % 10);
    if n < 10 {
        d.to_owned()
    } else {
        let mut s = decimal_string(n / 10);
        s.append(d);
        s
    }
}

/// The characters of `s`, one by one.
pub fn chars_of(s: &str) -> (v: Vec<char>)
    ensures
        v@ == s@,
{
    let mut v: Vec<char> = Vec::new();
    for c in it: s.chars()
        invariant
            v@ == it.seq().take(it.index() as int),
            it.seq() == s@,
    {
        v.push(c);
    }
    v
}

/// Parses `s` as an unsigned 64-bit decimal number, the way `str::parse::<u64>` does:
/// an optional leading `+`, at least one ASCII digit, no other character, and a value
/// that fits in 64 bits.
pub fn parse_u64(s: &str) -> (r: Option<u64>)
    ensures
        r == parse_u64_spec(s@),
{
    let cs = chars_of(s);
    let start: usize = if cs.len() > 0 && cs[0] == '+' { 1 } else { 0 };
    let ghost ds = if s@.len() > 0 && s@[0] == '+' { s@.drop_first() } else { s@ };
    assert(ds == cs@.subrange(start as int, cs@.len() as int));
    if start == cs.len() {
        return None;
    }
    let mut acc: u64 = 0;
    let mut i: usize = start;
    while i < cs.len()
        invariant
            start <= i <= cs.len(),
            start < cs.len(),
            ds == (if s@.len() > 0 && s@[0] == '+' { s@.drop_first() } else { s@ }),
            ds == cs@.subrange(start as int, cs@.len() as int),
            forall|j: int| start <= j < i ==> is_digit(#[trigger] cs@[j]),
            acc as int == digits_value(cs@.subrange(start as int, i as int)),
        decreases cs.len() - i,
    {
        let c = cs[i];
        if !('0' <= c && c <= '9') {
            assert(!is_digit(ds[i - start]));
            return None;
        }
        let d = (c as u32 - 48) as u64;
        assert(cs@.subrange(start as int, i + 1).drop_last() == cs@.subrange(start as int, i as int));
        match acc.checked_mul(10) {
            None => {
                proof { lemma_digits_prefix_bound(ds, (i + 1 - start) as int); }
                assert(ds.take((i + 1 - start) as int) == cs@.subrange(start as int, i + 1));
                return None;
            },
            Some(m) => match m.checked_add(d) {
                None => {
                    proof { lemma_digits_prefix_bound(ds, (i + 1 - start) as int); }
                    assert(ds.take((i + 1 - start) as int) == cs@.subrange(start as int, i + 1));
                    return None;
                },
                Some(v) => {
                    acc = v;
                },
            },
        }
        i = i + 1;
    }
    assert(cs@.subrange(start as int, i as int) == ds);
    Some(acc)
}

/// If `ds` is all digits, its value is at least that of any prefix.
proof fn lemma_digits_prefix_bound(ds: Seq<char>, k: int)
    requires
        0 <= k <= ds.len(),
    ensures
        all_digits(ds) ==> digits_value(ds) >= digits_value(ds.take(k)),
        all_digits(ds) ==> digits_value(ds.take(k)) >= 0,
    decreases ds.len(),
{
    if all_digits(ds) {
        if k == ds.len() {
            assert(ds.take(k) == ds);
            lemma_digits_nonneg(ds);
        } else {
            let front = ds.drop_last();
            if front.len() > 0 {
                assert forall|i: int| 0 <= i < front.len() implies is_digit(#[trigger] front[i]) by {
                    assert(front[i] == ds[i]);
                }
                lemma_digits_prefix_bound(front, k);
                assert(front.take(k) == ds.take(k));
            } else {
                assert(ds.take(k).len() == 0);
            }
            assert(is_digit(ds[ds.len() - 1]));
        }
    }
}

proof fn lemma_digits_nonneg(ds: Seq<char>)
    requires
        forall|i: int| 0 <= i < ds.len() ==> is_digit(#[trigger] ds[i]),
    ensures
        digits_value(ds) >= 0,
    decreases ds.len(),
{
    if ds.len() > 0 {
        let front = ds.drop_last();
        assert forall|i: int| 0 <= i < front.len() implies is_digit(#[trigger] front[i]) by {
            assert(front[i] == ds[i]);
        }
        lemma_digits_nonneg(front);
        assert(is_digit(ds[ds.len() - 1]));
    }
}

proof fn lemma_digit_char(d: nat)
    requires
        d < 10,
    ensures
        digit_char(d) as int == 48 + d,
        is_digit(digit_char(d)),
{
}

/// Digits of `decimal_chars(n)` and the number they denote.
proof fn lemma_decimal_chars(n: nat)
    ensures
        all_digits(decimal_chars(n)),
        digits_value(decimal_chars(n)) == n,
    decreases n,
{
    lemma_digit_char(n % 10);
    let s = decimal_chars(n);
    assert(s.last() == digit_char(n % 10));
    if n < 10 {
        assert(digits_value(s.drop_last()) == 0);
    }
    if n >= 10 {
        lemma_decimal_chars(n / 10);
        let s = decimal_chars(n);
        assert(s.drop_last() == decimal_chars(n / 10));
        assert forall|i: int| 0 <= i < s.len() implies is_digit(#[trigger] s[i]) by {
            if i < s.len() - 1 {
                assert(s[i] == decimal_chars(n / 10)[i]);
            }
        }
    }
}

/// Every character of `decimal_chars(n)` is a digit.
pub proof fn lemma_decimal_digits(n: nat)
    ensures
        forall|i: int| 0 <= i < decimal_chars(n).len() ==> is_digit(#[trigger] decimal_chars(n)[i]),
{
    lemma_decimal_chars(n);
}

/// Reading back what `decimal_string` wrote gives the number again: a
/// `Content-Length` written for an upload part is read by `parse_u64` as the same length.
pub proof fn lemma_decimal_parse_roundtrip(n: u64)
    ensures
        parse_u64_spec(decimal_chars(n as nat)) == Some(n),
{
    lemma_decimal_chars(n as nat);
    let s = decimal_chars(n as nat);
    assert(is_digit(s[0]));
}

/// UTF-8 encoding distributes over concatenation.
pub proof fn lemma_encode_utf8_concat(a: Seq<char>, b: Seq<char>)
    ensures
        encode_utf8(a + b) == encode_utf8(a) + encode_utf8(b),
    decreases a.len(),
{
    if a.len() > 0 {
        lemma_encode_utf8_concat(a.drop_first(), b);
        assert((a + b).drop_first() == a.drop_first() + b);
        assert((a + b)[0] == a[0]);
    } else {
        assert(a + b == b);
    }
}

} // verus!
