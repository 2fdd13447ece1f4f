use vstd::prelude::*;
use vstd::string::*;

use crate::text::{chars_of, is_digit, push_char};

verus! {

/// The value of a decimal digit.
pub open spec fn digit_value(c: char) -> int {
    (c as int) - ('0' as int)
}

/// All characters of `s` are decimal digits.
pub open spec fn all_digits(s: Seq<char>) -> bool {
    forall|i: int| 0 <= i < s.len() ==> is_digit(#[trigger] s[i])
}

/// The value of a sequence of decimal digits.
pub open spec fn digits_value(s: Seq<char>) -> nat
    decreases s.len(),
{
    if s.len() == 0 {
        0
    } else {
        (digits_value(s.drop_last()) * 10 + digit_value(s.last())) as nat
    }
}

/// What Rust's `str::parse::<u64>`-style parsing reads from `s` before the
/// range check: an optional `+`, then one or more digits.
pub open spec fn unsigned_magnitude(s: Seq<char>) -> Option<nat> {
    let d = if s.len() > 0 && s[0] == '+' { s.skip(1) } else { s };
    if d.len() > 0 && all_digits(d) { Some(digits_value(d)) } else { None }
}

/// What Rust's `str::parse::<u32>` gives.
pub open spec fn parse_u32_spec(s: Seq<char>) -> Option<u32> {
    match unsigned_magnitude(s) {
        Some(v) => if v <= u32::MAX { Some(v as u32) } else { None },
        None => None,
    }
}

/// What Rust's `str::parse::<u64>` gives.
pub open spec fn parse_u64_spec(s: Seq<char>) -> Option<u64> {
    match unsigned_magnitude(s) {
        Some(v) => if v <= u64::MAX { Some(v as u64) } else { None },
        None => None,
    }
}

/// What Rust's `str::parse::<i64>` gives: an optional sign, then one or
/// more digits, within the range of `i64`.
pub open spec fn parse_i64_spec(s: Seq<char>) -> Option<i64> {
    if s.len() > 0 && s[0] == '-' {
        let d = s.skip(1);
        if d.len() > 0 && all_digits(d) && digits_value(d) <= 0x8000_0000_0000_0000 {
            Some((0 - digits_value(d)) as i64)
        } else {
            None
        }
    } else {
        match unsigned_magnitude(s) {
            Some(v) => if v <= i64::MAX { Some(v as i64) } else { None },
            None => None,
        }
    }
}

/// The decimal digit for a value below 10.
pub open spec fn digit_char(d: nat) -> char {
    ((d + ('0' as nat)) as u32) as char
}

/// The shortest decimal representation of `n`.
pub open spec fn decimal(n: nat) -> Seq<char>
    decreases n,
{
    if n < 10 {
        seq![digit_char(n)]
    } else {
        decimal(n / 10).push(digit_char(n % 10))
    }
}

/// The decimal representation of a signed value, with `-` for negatives.
pub open spec fn decimal_signed(v: int) -> Seq<char> {
    if v < 0 { seq!['-'] + decimal((0 - v) as nat) } else { decimal(v as nat) }
}

/// Digits of a decimal representation are digits and read back to the value.
pub proof fn lemma_decimal(n: nat)
    ensures
        decimal(n).len() > 0,
        all_digits(decimal(n)),
        digits_value(decimal(n)) == n,
        decimal(n)[0] != '+' && decimal(n)[0] != '-',
    decreases n,
{
    if n < 10 {
        assert(digit_value(digit_char(n)) == n);
        assert(digits_value(decimal(n)) == digits_value(decimal(n).drop_last()) * 10 + digit_value(digit_char(n)));
        assert(decimal(n).drop_last() =~= Seq::<char>::empty());
    } else {
        lemma_decimal(n / 10);
        let d = decimal(n);
        assert(d.drop_last() =~= decimal(n / 10));
        assert(digit_value(digit_char(n % 10)) == n % 10);
        assert(forall|i: int| 0 <= i < d.len() ==> is_digit(#[trigger] d[i])) by {
            assert forall|i: int| 0 <= i < d.len() implies is_digit(#[trigger] d[i]) by {
                if i < d.len() - 1 {
                    assert(d[i] == decimal(n / 10)[i]);
                }
            }
        }
        assert((n / 10) * 10 + n % 10 == n) by (nonlinear_arith);
    }
}

/// Reading back the decimal representation of a value gives the value.
pub proof fn lemma_parse_decimal_i64(v: i64)
    ensures parse_i64_spec(decimal_signed(v as int)) == Some(v),
{
    if v < 0 {
        let m = (0 - v) as nat;
        lemma_decimal(m);
        let s = decimal_signed(v as int);
        assert(s.skip(1) =~= decimal(m));
    } else {
        lemma_decimal(v as nat);
    }
}

/// Parses an unsigned decimal, giving its value when it is at most `max`.
fn parse_unsigned(s: &Vec<char>, max: u64) -> (r: Option<u64>)
    requires max >= 9,
    ensures
        match unsigned_magnitude(s@) {
            Some(v) => if v <= max { r == Some(v as u64) } else { r is None },
            None => r is None,
        },
{
    let start: usize = if s.len() > 0 && s[0] == '+' { 1 } else { 0 };
    let ghost d = if s@.len() > 0 && s@[0] == '+' { s@.skip(1) } else { s@ };
    proof { assert(d =~= s@.skip(start as int)); }
    if start >= s.len() {
        return None;
    }
    let mut acc: u64 = 0;
    let mut i = start;
    while i < s.len()
        invariant
            start <= i <= s.len(),
            start <= 1,
            max >= 9,
            d =~= s@.skip(start as int),
            d.len() == s@.len() - start,
            d == (if s@.len() > 0 && s@[0] == '+' { s@.skip(1) } else { s@ }),
            forall|j: int| 0 <= j < i - start ==> is_digit(#[trigger] d[j]),
            acc as nat == digits_value(d.take(i - start)),
            acc <= max,
        decreases s.len() - i,
    {
        let c = s[i];
        if !('0' <= c && c <= '9') {
            proof { assert(!is_digit(d[i - start])); }
            return None;
        }
        let dv = (c as u64) - ('0' as u64);
        proof {
            assert(d.take(i - start + 1).drop_last() =~= d.take(i - start));
            assert(d.take(i - start + 1).last() == c);
        }
        if acc > (max - dv) / 10 {
            proof {
                assert(digits_value(d.take(i - start + 1)) > max) by (nonlinear_arith)
                    requires
                        digits_value(d.take(i - start + 1)) == acc * 10 + dv,
                        acc > (max - dv) / 10,
                        dv <= 9,
                        dv <= max;
            }
            // the value exceeds `max`; the remaining characters decide
            // between "not a number" and "out of range"
            let mut k = i + 1;
            while k < s.len()
                invariant
                    i < k <= s.len(),
                    start <= i,
                    d =~= s@.skip(start as int),
                    d.len() == s@.len() - start,
                    d == (if s@.len() > 0 && s@[0] == '+' { s@.skip(1) } else { s@ }),
                    digits_value(d.take(i - start + 1)) > max,
                    forall|j: int| 0 <= j < k - start ==> is_digit(#[trigger] d[j]),
                decreases s.len() - k,
            {
                if !('0' <= s[k] && s[k] <= '9') {
                    proof { assert(!is_digit(d[k - start])); }
                    return None;
                }
                k += 1;
            }
            proof {
                lemma_digits_value_prefix_mono(d, i - start + 1);
                assert(d.take(d.len() as int) =~= d);
            }
            return None;
        }
        proof {
            assert(acc * 10 + dv <= max) by (nonlinear_arith)
                requires acc <= (max - dv) / 10, dv <= 9, dv <= max;
        }
        acc = acc * 10 + dv;
        i += 1;
    }
    proof { assert(d.take(s.len() - start) =~= d); }
    Some(acc)
}

/// The value of a digit sequence is at least the value of any prefix.
pub proof fn lemma_digits_value_prefix_mono(d: Seq<char>, n: int)
    requires
        0 <= n <= d.len(),
        all_digits(d),
    ensures
        digits_value(d.take(n)) <= digits_value(d),
    decreases d.len() - n,
{
    if n < d.len() {
        lemma_digits_value_prefix_mono(d, n + 1);
        assert(d.take(n + 1).drop_last() =~= d.take(n));
        assert(is_digit(d[n]));
        assert(d.take(n + 1).last() == d[n]);
    } else {
        assert(d.take(n) =~= d);
    }
}

/// Rust's `str::parse::<u32>`.
pub fn parse_u32(s: &str) -> (r: Option<u32>)
    ensures r == parse_u32_spec(s@),
{
    let c = chars_of(s);
    match parse_unsigned(&c, u32::MAX as u64) {
        Some(v) => Some(v as u32),
        None => None,
    }
}

/// Rust's `str::parse::<u32>` on a character vector.
pub fn parse_u32_chars(c: &Vec<char>) -> (r: Option<u32>)
    ensures r == parse_u32_spec(c@),
{
    match parse_unsigned(c, u32::MAX as u64) {
        Some(v) => Some(v as u32),
        None => None,
    }
}

/// Rust's `str::parse::<u64>`.
pub fn parse_u64(s: &str) -> (r: Option<u64>)
    ensures r == parse_u64_spec(s@),
{
    let c = chars_of(s);
    parse_unsigned(&c, u64::MAX)
}

/// Rust's `str::parse::<i64>`.
pub fn parse_i64(s: &str) -> (r: Option<i64>)
    ensures r == parse_i64_spec(s@),
{
    let c = chars_of(s);
    parse_i64_chars(&c)
}

/// Rust's `str::parse::<i64>` on a character vector.
pub fn parse_i64_chars(c: &Vec<char>) -> (r: Option<i64>)
    ensures r == parse_i64_spec(c@),
{
    if c.len() > 0 && c[0] == '-' {
        let mut rest: Vec<char> = Vec::new();
        let mut i: usize = 1;
        while i < c.len()
            invariant
                1 <= i <= c.len(),
                rest@ == c@.subrange(1, i as int),
            decreases c.len() - i,
        {
            rest.push(c[i]);
            proof { assert(c@.subrange(1, i + 1) =~= c@.subrange(1, i as int).push(c@[i as int])); }
            i += 1;
        }
        proof { assert(rest@ =~= c@.skip(1)); }
        if rest.len() > 0 && rest[0] == '+' {
            proof { assert(!is_digit(rest@[0])); }
            return None;
        }
        match parse_unsigned(&rest, 0x8000_0000_0000_0000u64) {
            Some(v) => {
                if v == 0x8000_0000_0000_0000u64 {
                    Some(i64::MIN)
                } else {
                    let x: i64 = v as i64;
                    Some(-x)
                }
            },
            None => None,
        }
    } else {
        match parse_unsigned(c, i64::MAX as u64) {
            Some(v) => Some(v as i64),
            None => None,
        }
    }
}

/// The decimal representation of an unsigned value.
pub fn u64_to_decimal(v: u64) -> (s: String)
    ensures s@ == decimal(v as nat),
{
    let mut digits: Vec<char> = Vec::new();
    let mut n = v;
    // digits are collected least significant first
    while n >= 10
        invariant
            n <= v,
            decimal(v as nat) == decimal(n as nat) + digits@.reverse(),
        decreases n,
    {
        let d = n % 10;
        let ch: char = ((d as u8) + 48u8) as char;
        proof {
            assert(ch == digit_char(d as nat));
            assert(decimal(n as nat) == decimal((n / 10) as nat).push(ch));
        }
        let ghost before = digits@;
        digits.push(ch);
        proof {
            assert(digits@.reverse() =~= seq![ch] + before.reverse());
            assert(decimal(n as nat) + before.reverse() =~= decimal((n / 10) as nat) + digits@.reverse());
        }
        n = n / 10;
    }
    let ch: char = ((n as u8) + 48u8) as char;
    proof {
        assert(ch == digit_char(n as nat));
        assert(decimal(n as nat) == seq![ch]);
    }
    let ghost before = digits@;
    digits.push(ch);
    proof {
        assert(digits@.reverse() =~= seq![ch] + before.reverse());
    }
    let mut s = String::new();
    let mut i = digits.len();
    while i > 0
        invariant
            i <= digits.len(),
            s@ == digits@.reverse().take(digits.len() - i),
        decreases i,
    {
        i -= 1;
        push_char(&mut s, digits[i]);
        proof {
            assert(digits@.reverse().take(digits.len() - i) =~= digits@.reverse().take(digits.len() - i - 1).push(digits@[i as int]));
        }
    }
    proof { assert(digits@.reverse().take(digits.len() as int) =~= digits@.reverse()); }
    s
}

/// The decimal representation of a signed value.
pub fn i64_to_decimal(v: i64) -> (s: String)
    ensures s@ == decimal_signed(v as int),
{
    if v < 0 {
        let m: u64 = if v == i64::MIN { 0x8000_0000_0000_0000u64 } else { (-v) as u64 };
        let digits = u64_to_decimal(m);
        let mut s = String::new();
        push_char(&mut s, '-');
        s.append(digits.as_str());
        s
    } else {
        u64_to_decimal(v as u64)
    }
}

} // verus!
