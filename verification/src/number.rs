//! Numbers as text: decimal in both directions, and hexadecimal bytes.

use crate::text;
use vstd::prelude::*;
use vstd::slice::slice_subrange;

verus! {

// ---- decimal ----

/// The character of the digit `d`, for `d` below 10.
pub open spec fn digit_char(d: nat) -> char {
    (('0' as u32) + d) as char
}

/// Whether `c` is one of the ten digits.
pub open spec fn is_digit(c: char) -> bool {
    '0' <= c <= '9'
}

/// `n` in decimal, without leading zeros.
pub open spec fn digits(n: nat) -> Seq<char>
    decreases n,
{
    if n < 10 {
        seq![digit_char(n)]
    } else {
        digits(n / 10).push(digit_char(n % 10))
    }
}

/// The number that a row of digits writes.
pub open spec fn value(s: Seq<char>) -> nat
    decreases s.len(),
{
    if s.len() == 0 {
        0
    } else {
        value(s.drop_last()) * 10 + ((s.last() as u32) - ('0' as u32)) as nat
    }
}

/// `s` without a plus sign at its start.
pub open spec fn after_plus(s: Seq<char>) -> Seq<char> {
    if s.len() > 0 && s[0] == '+' {
        s.skip(1)
    } else {
        s
    }
}

/// Whether `s` holds digits only.
pub open spec fn all_digits(s: Seq<char>) -> bool {
    forall|i: int| 0 <= i < s.len() ==> is_digit(#[trigger] s[i])
}

/// Reads an unsigned number of at most `max`: one or more digits, after an
/// optional plus sign.
pub open spec fn parse(s: Seq<char>, max: nat) -> Option<nat> {
    let d = after_plus(s);
    if d.len() > 0 && all_digits(d) && value(d) <= max {
        Some(value(d))
    } else {
        None
    }
}

fn to_digit_char(d: u8) -> (c: char)
    requires
        d < 10,
    ensures
        c == digit_char(d as nat),
{
    (48 + d) as char
}

/// `n` in decimal.
pub fn decimal(n: u64) -> (s: String)
    ensures
        s@ == digits(n as nat),
    decreases n,
{
    if n < 10 {
        let mut s: String = String::new();
        text::push_char(&mut s, to_digit_char(n as u8));
        assert(s@ =~= digits(n as nat));
        s
    } else {
        let mut s = decimal(n / 10);
        text::push_char(&mut s, to_digit_char((n % 10) as u8));
        s
    }
}

/// A prefix of a row of digits writes a number no larger than the whole.
pub proof fn lemma_value_prefix(s: Seq<char>, k: int)
    requires
        0 <= k <= s.len(),
        all_digits(s),
    ensures
        value(s.take(k)) <= value(s),
    decreases s.len() - k,
{
    if k == s.len() {
        assert(s.take(k) =~= s);
    } else {
        lemma_value_prefix(s, k + 1);
        assert(s.take(k + 1).drop_last() =~= s.take(k));
    }
}

/// Reads an unsigned number of at most `max`.
pub fn parse_number(s: &[char], max: u64) -> (r: Option<u64>)
    ensures
        match r {
            Some(n) => parse(s@, max as nat) == Some(n as nat),
            None => parse(s@, max as nat) is None,
        },
{
    let d = if s.len() > 0 && s[0] == '+' {
        slice_subrange(s, 1, s.len())
    } else {
        s
    };
    if d.len() == 0 {
        return None;
    }
    let mut acc: u64 = 0;
    let mut i: usize = 0;
    while i < d.len()
        invariant
            i <= d@.len(),
            acc <= max,
            acc == value(d@.take(i as int)),
            forall|j: int| 0 <= j < i ==> is_digit(#[trigger] d@[j]),
            d@ == after_plus(s@),
        decreases d@.len() - i,
    {
        let c = d[i];
        if c < '0' || c > '9' {
            assert(!is_digit(d@[i as int]));
            return None;
        }
        let v: u64 = (c as u8 - 48) as u64;
        assert(d@.take(i + 1).drop_last() =~= d@.take(i as int));
        assert(value(d@.take(i + 1)) == acc * 10 + v);
        if v > max || acc > (max - v) / 10 {
            proof {
                if all_digits(d@) {
                    lemma_value_prefix(d@, i + 1);
                    assert(acc * 10 + v > max);
                }
            }
            return None;
        }
        acc = acc * 10 + v;
        i = i + 1;
    }
    assert(d@.take(d@.len() as int) =~= d@);
    Some(acc)
}

/// Decimal text holds only digits, at least one.
pub proof fn lemma_digits(n: nat)
    ensures
        digits(n).len() > 0,
        all_digits(digits(n)),
    decreases n,
{
    if n >= 10 {
        lemma_digits(n / 10);
        let t = digits(n / 10);
        assert forall|i: int| 0 <= i < digits(n).len() implies is_digit(#[trigger] digits(n)[i]) by {
            if i < t.len() {
                assert(t[i] == digits(n)[i]);
            }
        }
    }
}

/// What decimal text writes is the number it was made from.
pub proof fn lemma_value_digits(n: nat)
    ensures
        value(digits(n)) == n,
    decreases n,
{
    reveal_with_fuel(value, 2);
    if n < 10 {
        assert(digits(n).drop_last() =~= Seq::<char>::empty());
    } else {
        lemma_value_digits(n / 10);
        assert(digits(n).drop_last() =~= digits(n / 10));
    }
}

/// A number that was written in decimal is read back as itself.
pub proof fn law_decimal_round_trip(n: nat, max: nat)
    requires
        n <= max,
    ensures
        parse(digits(n), max) == Some(n),
{
    lemma_digits(n);
    lemma_value_digits(n);
    assert(is_digit(digits(n)[0]));
}

// ---- hexadecimal ----

/// The small hexadecimal digit of `d`, for `d` below 16.
pub open spec fn hex_char(d: int) -> char {
    if d < 10 {
        (('0' as u32) + d) as char
    } else {
        (('a' as u32) + (d - 10)) as char
    }
}

/// The capital hexadecimal digit of `d`, for `d` below 16.
pub open spec fn hex_char_upper(d: int) -> char {
    if d < 10 {
        (('0' as u32) + d) as char
    } else {
        (('A' as u32) + (d - 10)) as char
    }
}

/// Each byte as two small hexadecimal digits, the high one first.
pub open spec fn hex(b: Seq<u8>) -> Seq<char> {
    Seq::new(
        2 * b.len(),
        |i: int|
            hex_char(
                if i % 2 == 0 {
                    b[i / 2] as int / 16
                } else {
                    b[i / 2] as int % 16
                },
            ),
    )
}

fn to_hex_char(d: u8) -> (c: char)
    requires
        d < 16,
    ensures
        c == hex_char(d as int),
{
    if d < 10 {
        (48 + d) as char
    } else {
        (97 + (d - 10)) as char
    }
}

/// The capital hexadecimal digit of `d`.
pub fn to_hex_char_upper(d: u8) -> (c: char)
    requires
        d < 16,
    ensures
        c == hex_char_upper(d as int),
{
    if d < 10 {
        (48 + d) as char
    } else {
        (65 + (d - 10)) as char
    }
}

/// Each byte as two small hexadecimal digits.
pub fn to_hex(b: &[u8]) -> (s: String)
    ensures
        s@ == hex(b@),
{
    let mut s: String = String::new();
    let mut i: usize = 0;
    while i < b.len()
        invariant
            i <= b@.len(),
            s@ == hex(b@.take(i as int)),
        decreases b@.len() - i,
    {
        let hi: u8 = b[i] / 16;
        let lo: u8 = b[i] % 16;
        text::push_char(&mut s, to_hex_char(hi));
        text::push_char(&mut s, to_hex_char(lo));
        i = i + 1;
        assert(s@ =~= hex(b@.take(i as int)));
    }
    assert(b@.take(b@.len() as int) =~= b@);
    s
}

}
