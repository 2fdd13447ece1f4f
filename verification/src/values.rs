use vstd::prelude::*;

use chrono::{Datelike, NaiveDateTime, Timelike};

use crate::num::all_digits;
use crate::text::{char_is_digit, char_to_lower, chars_of, is_digit, lower_of};

verus! {

/// A date and time without zone.
#[derive(Debug, Clone, Copy, PartialEq, Eq)]
pub struct DateTime {
    pub year: i32,
    pub month: u32,
    pub day: u32,
    pub hour: u32,
    pub minute: u32,
    pub second: u32,
    pub nanosecond: u32,
}

impl DateTime {
    /// Year, month, day, hour, minute, second, nanosecond.
    pub open spec fn view(&self) -> (i32, u32, u32, u32, u32, u32, u32) {
        (self.year, self.month, self.day, self.hour, self.minute, self.second, self.nanosecond)
    }
}

/// What `chrono::NaiveDateTime::parse_from_str(value, format)` gives, as its
/// calendar fields.
pub uninterp spec fn naive_datetime_parsed(value: Seq<char>, format: Seq<char>) -> Option<(i32, u32, u32, u32, u32, u32, u32)>;

/// `chrono::NaiveDateTime::parse_from_str`: the date and time that `value`
/// holds in `format`, if it holds one. The result depends on the two texts
/// alone, and this contract names it without stating the format language.
#[verifier::external_body]
fn parse_naive_datetime(value: &str, format: &str) -> (r: Option<(i32, u32, u32, u32, u32, u32, u32)>)
    ensures r == naive_datetime_parsed(value@, format@),
{
    match NaiveDateTime::parse_from_str(value, format) {
        Ok(t) => Some((t.year(), t.month(), t.day(), t.hour(), t.minute(), t.second(), t.nanosecond())),
        Err(_) => None,
    }
}

/// The two layouts a date and time is accepted in.
pub open spec fn datetime_spaced() -> Seq<char> {
    "%Y-%m-%d %H:%M:%S"@
}

pub open spec fn datetime_t() -> Seq<char> {
    "%Y-%m-%dT%H:%M:%S"@
}

/// A date and time given as `YYYY-MM-DD HH:MM:SS` or `YYYY-MM-DDTHH:MM:SS`.
pub open spec fn datetime_of(value: Seq<char>) -> Option<(i32, u32, u32, u32, u32, u32, u32)> {
    match naive_datetime_parsed(value, datetime_spaced()) {
        Some(t) => Some(t),
        None => naive_datetime_parsed(value, datetime_t()),
    }
}

/// Reads a date and time given as `YYYY-MM-DD HH:MM:SS`, or else as
/// `YYYY-MM-DDTHH:MM:SS`.
pub fn parse_datetime(value: &str) -> (r: Option<DateTime>)
    ensures
        match r {
            Some(t) => datetime_of(value@) == Some(t@),
            None => datetime_of(value@) is None,
        },
{
    let t = match parse_naive_datetime(value, "%Y-%m-%d %H:%M:%S") {
        Some(t) => Some(t),
        None => parse_naive_datetime(value, "%Y-%m-%dT%H:%M:%S"),
    };
    match t {
        Some((year, month, day, hour, minute, second, nanosecond)) =>
            Some(DateTime { year, month, day, hour, minute, second, nanosecond }),
        None => None,
    }
}

/// Whether `serde_json::from_str::<serde_json::Value>` accepts `value`.
pub uninterp spec fn json_text_valid(value: Seq<char>) -> bool;

/// `serde_json::from_str::<serde_json::Value>`: whether `value` is one JSON
/// text. Only the verdict is kept.
#[verifier::external_body]
pub(crate) fn is_json_text(value: &str) -> (r: bool)
    ensures r == json_text_valid(value@),
{
    serde_json::from_str::<serde_json::Value>(value).is_ok()
}

} // verus!

verus! {

/// `s` with ascii letters in lower case.
pub open spec fn lowered(s: Seq<char>) -> Seq<char> {
    Seq::new(s.len(), |i: int| lower_of(s[i]))
}

/// `s` without one leading `+` or `-`.
pub open spec fn unsigned_part(s: Seq<char>) -> Seq<char> {
    if s.len() > 0 && (s[0] == '+' || s[0] == '-') { s.skip(1) } else { s }
}

/// One or more decimal digits.
pub open spec fn digit_run(s: Seq<char>) -> bool {
    s.len() > 0 && all_digits(s)
}

/// The position of the first `c` or `d` in `s`, or its length.
pub open spec fn first_of(s: Seq<char>, c: char, d: char) -> int {
    if exists|i: int| 0 <= i < s.len() && (s[i] == c || s[i] == d) {
        choose|i: int| 0 <= i < s.len() && (s[i] == c || s[i] == d)
            && forall|j: int| 0 <= j < i ==> !(s[j] == c || s[j] == d)
    } else {
        s.len() as int
    }
}

/// `Digit+ | Digit+ '.' Digit* | Digit* '.' Digit+`.
pub open spec fn float_mantissa(m: Seq<char>) -> bool {
    let d = first_of(m, '.', '.');
    if d == m.len() {
        digit_run(m)
    } else {
        let int_part = m.take(d);
        let frac = m.skip(d + 1);
        all_digits(int_part) && all_digits(frac) && (int_part.len() > 0 || frac.len() > 0)
    }
}

/// The text of a floating-point number, as std documents the grammar that
/// `str::parse` accepts for floats: a sign, then `inf`, `infinity`, `nan`
/// or a decimal number with an optional exponent, letters in either case.
pub open spec fn float_text(s: Seq<char>) -> bool {
    let body = unsigned_part(s);
    let l = lowered(body);
    if l == "inf"@ || l == "infinity"@ || l == "nan"@ {
        true
    } else {
        let e = first_of(body, 'e', 'E');
        float_mantissa(body.take(e)) && (e == body.len() || digit_run(unsigned_part(body.skip(e + 1))))
    }
}

fn first_of_exec(s: &Vec<char>, from: usize, to: usize, c: char, d: char) -> (r: usize)
    requires from <= to <= s@.len(),
    ensures r - from == first_of(s@.subrange(from as int, to as int), c, d), from <= r <= to,
{
    let ghost t = s@.subrange(from as int, to as int);
    let mut i = from;
    while i < to && s[i] != c && s[i] != d
        invariant
            from <= i <= to <= s@.len(),
            t == s@.subrange(from as int, to as int),
            forall|j: int| 0 <= j < i - from ==> !(t[j] == c || t[j] == d),
        decreases to - i,
    {
        i += 1;
    }
    proof {
        if i < to {
            assert(t[i - from] == c || t[i - from] == d);
            let k = choose|k: int| 0 <= k < t.len() && (t[k] == c || t[k] == d)
                && forall|j: int| 0 <= j < k ==> !(t[j] == c || t[j] == d);
            if k < i - from { } else if k > i - from { assert(!(t[i - from] == c || t[i - from] == d)); }
        } else {
            assert(!(exists|k: int| 0 <= k < t.len() && (t[k] == c || t[k] == d)));
        }
    }
    i
}

fn all_digits_in(s: &Vec<char>, from: usize, to: usize) -> (r: bool)
    requires from <= to <= s@.len(),
    ensures r == all_digits(s@.subrange(from as int, to as int)),
{
    let ghost t = s@.subrange(from as int, to as int);
    let mut i = from;
    while i < to
        invariant
            from <= i <= to <= s@.len(),
            t == s@.subrange(from as int, to as int),
            forall|j: int| 0 <= j < i - from ==> is_digit(#[trigger] t[j]),
        decreases to - i,
    {
        if !char_is_digit(s[i]) {
            proof { assert(!is_digit(t[i - from])); }
            return false;
        }
        i += 1;
    }
    true
}

fn lowered_is(s: &Vec<char>, from: usize, to: usize, word: &str) -> (r: bool)
    requires from <= to <= s@.len(),
    ensures r == (lowered(s@.subrange(from as int, to as int)) == word@),
{
    let w = chars_of(word);
    let ghost t = s@.subrange(from as int, to as int);
    if w.len() != to - from {
        proof { assert(lowered(t).len() != w@.len()); }
        return false;
    }
    let mut i: usize = 0;
    while i < w.len()
        invariant
            i <= w@.len() == to - from,
            w@ == word@,
            from <= to <= s@.len(),
            t == s@.subrange(from as int, to as int),
            forall|j: int| 0 <= j < i ==> lower_of(t[j]) == w@[j],
        decreases w.len() - i,
    {
        if char_to_lower(s[from + i]) != w[i] {
            proof {
                assert(t[i as int] == s@[from + i]);
                assert(lowered(t)[i as int] != w@[i as int]);
            }
            return false;
        }
        i += 1;
    }
    proof { assert(lowered(t) =~= w@); }
    true
}

fn mantissa_in(s: &Vec<char>, start: usize, e: usize) -> (r: bool)
    requires start <= e <= s@.len(),
    ensures r == float_mantissa(s@.subrange(start as int, e as int)),
{
    let ghost m = s@.subrange(start as int, e as int);
    let d = first_of_exec(s, start, e, '.', '.');
    proof { assert(m.take(d - start) == s@.subrange(start as int, d as int)); }
    if d == e {
        e > start && all_digits_in(s, start, e)
    } else {
        proof { assert(m.skip(d - start + 1) == s@.subrange(d + 1, e as int)); }
        all_digits_in(s, start, d) && all_digits_in(s, d + 1, e) && (d > start || e > d + 1)
    }
}

fn exponent_in(s: &Vec<char>, from: usize, n: usize) -> (r: bool)
    requires from <= n <= s@.len(),
    ensures r == digit_run(unsigned_part(s@.subrange(from as int, n as int))),
{
    let exp_start: usize = if from < n && (s[from] == '+' || s[from] == '-') { from + 1 } else { from };
    proof {
        assert(unsigned_part(s@.subrange(from as int, n as int)) == s@.subrange(exp_start as int, n as int));
    }
    exp_start < n && all_digits_in(s, exp_start, n)
}

/// Whether `str::parse` accepts `value` as a floating-point number.
pub fn is_float_text(value: &str) -> (r: bool)
    ensures r == float_text(value@),
{
    let s = chars_of(value);
    let n = s.len();
    let start: usize = if n > 0 && (s[0] == '+' || s[0] == '-') { 1 } else { 0 };
    proof {
        assert(unsigned_part(s@) == s@.subrange(start as int, n as int));
    }
    if lowered_is(&s, start, n, "inf") || lowered_is(&s, start, n, "infinity") || lowered_is(&s, start, n, "nan") {
        return true;
    }
    let ghost body = s@.subrange(start as int, n as int);
    let e = first_of_exec(&s, start, n, 'e', 'E');
    proof { assert(body.take(e - start) == s@.subrange(start as int, e as int)); }
    if !mantissa_in(&s, start, e) {
        return false;
    }
    if e == n {
        return true;
    }
    proof { assert(body.skip(e - start + 1) == s@.subrange(e + 1, n as int)); }
    exponent_in(&s, e + 1, n)
}

} // verus!
