//! Decimal numbers as text: reading them, as the integer types of the
//! standard library read them, and writing them.

use crate::text::subrange;
use vstd::prelude::*;

verus! {

/// `c` is one of `0` to `9`.
pub open spec fn is_digit(c: char) -> bool {
    0x30 <= c as u32 <= 0x39
}

/// The number that the digit `c` stands for.
pub open spec fn digit_value(c: char) -> nat {
    (c as u32 - 0x30) as nat
}

/// The digit that stands for `d`, for `d` below ten.
pub open spec fn digit_char(d: nat) -> char {
    ((d + 0x30) as u8) as char
}

/// Every character of `s` is a digit.
pub open spec fn all_digits(s: Seq<char>) -> bool {
    forall|i: int| 0 <= i < s.len() ==> is_digit(#[trigger] s[i])
}

/// The number that the digit string `s` stands for, read in base ten.
pub open spec fn decimal_value(s: Seq<char>) -> nat
    decreases s.len(),
{
    if s.len() == 0 {
        0
    } else {
        decimal_value(s.drop_last()) * 10 + digit_value(s.last())
    }
}

/// `s` without the plus sign that may lead it.
pub open spec fn unsigned_digits(s: Seq<char>) -> Seq<char> {
    if s.len() > 0 && s[0] == '+' {
        s.skip(1)
    } else {
        s
    }
}

/// What an unsigned integer type with largest value `max` reads from `s`: an
/// optional plus sign, then one or more digits, whose value must not pass
/// `max`.
pub open spec fn parse_unsigned(s: Seq<char>, max: nat) -> Option<nat> {
    let d = unsigned_digits(s);
    if d.len() > 0 && all_digits(d) && decimal_value(d) <= max {
        Some(decimal_value(d))
    } else {
        None
    }
}

/// What a signed integer type with the range from `min` to `max` reads from
/// `s`: an optional sign, then one or more digits, whose value with the sign
/// must lie in the range.
pub open spec fn parse_signed(s: Seq<char>, min: int, max: int) -> Option<int> {
    if s.len() > 0 && s[0] == '-' {
        let d = s.skip(1);
        if d.len() > 0 && all_digits(d) && -(decimal_value(d) as int) >= min {
            Some(-(decimal_value(d) as int))
        } else {
            None
        }
    } else {
        match parse_unsigned(s, max as nat) {
            Some(n) => Some(n as int),
            None => None,
        }
    }
}

/// `n` written in base ten, without sign or leading zeros.
pub open spec fn render_decimal(n: nat) -> Seq<char>
    decreases n,
{
    if n < 10 {
        seq![digit_char(n)]
    } else {
        render_decimal(n / 10).push(digit_char(n % 10))
    }
}

/// A digit string is worth at least as much as any of its prefixes.
pub proof fn lemma_prefix_value(s: Seq<char>, k: int)
    requires
        0 <= k <= s.len(),
    ensures
        decimal_value(s.take(k)) <= decimal_value(s),
    decreases s.len() - k,
{
    if k < s.len() {
        lemma_prefix_value(s.drop_last(), k);
        assert(s.drop_last().take(k) == s.take(k));
    } else {
        assert(s.take(k) == s);
    }
}

/// A digit and the number it stands for determine each other.
pub proof fn lemma_digit_char(d: nat)
    requires
        d < 10,
    ensures
        is_digit(digit_char(d)),
        digit_value(digit_char(d)) == d,
        digit_char(d) != '+',
{
}

/// What `render_decimal` writes is a non-empty digit string worth `n`.
pub proof fn lemma_render_decimal(n: nat)
    ensures
        render_decimal(n).len() > 0,
        all_digits(render_decimal(n)),
        decimal_value(render_decimal(n)) == n,
    decreases n,
{
    if n < 10 {
        lemma_digit_char(n);
        let s = render_decimal(n);
        assert(s.drop_last() == Seq::<char>::empty());
        assert(decimal_value(s.drop_last()) == 0);
    } else {
        lemma_render_decimal(n / 10);
        lemma_digit_char(n % 10);
        let s = render_decimal(n);
        assert(s.drop_last() == render_decimal(n / 10));
    }
}

/// Reading back what was written gives the number again.
pub proof fn lemma_parse_render(n: nat, max: nat)
    requires
        n <= max,
    ensures
        parse_unsigned(render_decimal(n), max) == Some(n),
{
    lemma_render_decimal(n);
    let s = render_decimal(n);
    assert(is_digit(s[0]));
}

/// Reads an unsigned decimal number that must not pass `max`.
pub fn parse_bounded(s: &[char], max: u64) -> (r: Option<u64>)
    ensures
        match r {
            Some(n) => parse_unsigned(s@, max as nat) == Some(n as nat),
            None => parse_unsigned(s@, max as nat) is None,
        },
{
    let n: usize = s.len();
    let start: usize = if n > 0 && s[0] == '+' { 1 } else { 0 };
    if start == n {
        return None;
    }
    let ghost d = unsigned_digits(s@);
    assert(d == s@.skip(start as int));
    let mut acc: u64 = 0;
    let mut i: usize = start;
    assert(d.take(0) == Seq::<char>::empty());
    while i < n
        invariant
            start <= i <= n,
            n == s@.len(),
            d == s@.skip(start as int),
            d == unsigned_digits(s@),
            all_digits(d.take(i - start)),
            acc == decimal_value(d.take(i - start)),
            acc <= max,
        decreases n - i,
    {
        let v: u32 = s[i] as u32;
        if v < 0x30 || v > 0x39 {
            assert(!is_digit(d[i - start]));
            return None;
        }
        let dv: u64 = (v - 0x30) as u64;
        assert(d.take(i + 1 - start).drop_last() == d.take(i - start));
        assert(d.take(i + 1 - start).last() == s@[i as int]);
        if dv > max || acc > (max - dv) / 10 {
            proof {
                lemma_prefix_value(d, i + 1 - start);
            }
            return None;
        }
        acc = acc * 10 + dv;
        i += 1;
    }
    assert(d.take(n - start) == d);
    Some(acc)
}

/// Reads a `u8`.
pub fn parse_u8(s: &[char]) -> (r: Option<u8>)
    ensures
        match r {
            Some(n) => parse_unsigned(s@, u8::MAX as nat) == Some(n as nat),
            None => parse_unsigned(s@, u8::MAX as nat) is None,
        },
{
    match parse_bounded(s, 0xff) {
        Some(n) => Some(n as u8),
        None => None,
    }
}

/// Reads a `u32`.
pub fn parse_u32(s: &[char]) -> (r: Option<u32>)
    ensures
        match r {
            Some(n) => parse_unsigned(s@, u32::MAX as nat) == Some(n as nat),
            None => parse_unsigned(s@, u32::MAX as nat) is None,
        },
{
    match parse_bounded(s, 0xffff_ffff) {
        Some(n) => Some(n as u32),
        None => None,
    }
}

/// Reads a `u64`.
pub fn parse_u64(s: &[char]) -> (r: Option<u64>)
    ensures
        match r {
            Some(n) => parse_unsigned(s@, u64::MAX as nat) == Some(n as nat),
            None => parse_unsigned(s@, u64::MAX as nat) is None,
        },
{
    parse_bounded(s, 0xffff_ffff_ffff_ffff)
}

/// Reads an `i64`.
pub fn parse_i64(s: &[char]) -> (r: Option<i64>)
    ensures
        match r {
            Some(n) => parse_signed(s@, i64::MIN as int, i64::MAX as int) == Some(n as int),
            None => parse_signed(s@, i64::MIN as int, i64::MAX as int) is None,
        },
{
    let n: usize = s.len();
    if n > 0 && s[0] == '-' {
        let digits = subrange(s, 1, n);
        assert(digits@ == s@.skip(1));
        if digits.len() > 0 && digits[0] == '+' {
            assert(!is_digit(digits@[0]));
            return None;
        }
        match parse_bounded(digits.as_slice(), 0x8000_0000_0000_0000) {
            Some(m) => if m == 0x8000_0000_0000_0000 {
                Some(i64::MIN)
            } else {
                Some(0 - (m as i64))
            },
            None => None,
        }
    } else {
        match parse_bounded(s, 0x7fff_ffff_ffff_ffff) {
            Some(m) => Some(m as i64),
            None => None,
        }
    }
}

/// Writes `n` in base ten.
pub fn render_u64(n: u64) -> (r: Vec<char>)
    ensures
        r@ == render_decimal(n as nat),
{
    let mut r: Vec<char> = Vec::new();
    let mut m: u64 = n;
    r.push(((m % 10) as u8 + 0x30) as char);
    m = m / 10;
    while m > 0
        invariant
            render_decimal(n as nat) == if m > 0 {
                render_decimal(m as nat) + r@
            } else {
                r@
            },
        decreases m,
    {
        let ghost before = r@;
        let c: char = ((m % 10) as u8 + 0x30) as char;
        r.insert(0, c);
        assert(r@ == seq![c] + before);
        if m >= 10 {
            assert(render_decimal(m as nat) + before == render_decimal((m / 10) as nat) + (seq![c]
                + before));
        }
        m = m / 10;
    }
    r
}

} // verus!
