use vstd::prelude::*;
use vstd::string::*;

verus! {

/// An ASCII lowercase letter.
pub open spec fn is_lower(c: char) -> bool {
    'a' <= c && c <= 'z'
}

/// An ASCII uppercase letter.
pub open spec fn is_upper(c: char) -> bool {
    'A' <= c && c <= 'Z'
}

/// An ASCII decimal digit.
pub open spec fn is_digit(c: char) -> bool {
    '0' <= c && c <= '9'
}

/// An ASCII letter or digit.
pub open spec fn is_alnum(c: char) -> bool {
    is_lower(c) || is_upper(c) || is_digit(c)
}

/// The ASCII lowercase form of a character; other characters are unchanged.
pub open spec fn lower_of(c: char) -> char {
    if is_upper(c) { ((c as u32) + 32) as char } else { c }
}

/// The ASCII uppercase form of a character; other characters are unchanged.
pub open spec fn upper_of(c: char) -> char {
    if is_lower(c) { ((c as u32) - 32) as char } else { c }
}

/// `s` ends with `suffix`.
pub open spec fn ends_with(s: Seq<char>, suffix: Seq<char>) -> bool {
    suffix.len() <= s.len() && s.subrange(s.len() - suffix.len(), s.len() as int) == suffix
}

/// `s` starts with `prefix`.
pub open spec fn starts_with(s: Seq<char>, prefix: Seq<char>) -> bool {
    prefix.len() <= s.len() && s.take(prefix.len() as int) == prefix
}

/// `s` without `suffix` when it ends with it, else `s` itself.
pub open spec fn strip_suffix_or_self(s: Seq<char>, suffix: Seq<char>) -> Seq<char> {
    if ends_with(s, suffix) { s.take(s.len() - suffix.len()) } else { s }
}

pub fn char_is_lower(c: char) -> (b: bool)
    ensures b == is_lower(c),
{
    'a' <= c && c <= 'z'
}

pub fn char_is_upper(c: char) -> (b: bool)
    ensures b == is_upper(c),
{
    'A' <= c && c <= 'Z'
}

pub fn char_is_digit(c: char) -> (b: bool)
    ensures b == is_digit(c),
{
    '0' <= c && c <= '9'
}

pub fn char_is_alnum(c: char) -> (b: bool)
    ensures b == is_alnum(c),
{
    char_is_lower(c) || char_is_upper(c) || char_is_digit(c)
}

pub fn char_to_lower(c: char) -> (r: char)
    ensures r == lower_of(c),
{
    if char_is_upper(c) {
        let v: u32 = (c as u32) + 32;
        proof { assert(v < 0xD800); }
        char_from_ascii(v)
    } else {
        c
    }
}

pub fn char_to_upper(c: char) -> (r: char)
    ensures r == upper_of(c),
{
    if char_is_lower(c) {
        let v: u32 = (c as u32) - 32;
        char_from_ascii(v)
    } else {
        c
    }
}

/// The character with an ASCII code point.
fn char_from_ascii(v: u32) -> (c: char)
    requires v < 128,
    ensures c == v as char,
{
    let b: u8 = v as u8;
    b as char
}

/// Appends one character to a string.
#[verifier::external_body]
pub fn push_char(s: &mut String, c: char)
    ensures
        final(s)@ == old(s)@.push(c),
{
    s.push(c);
}

/// Appends a string slice to a string.
pub fn push_str(s: &mut String, t: &str)
    ensures
        final(s)@ == old(s)@ + t@,
{
    s.append(t);
}

/// The characters of a string slice, in order.
pub fn chars_of(s: &str) -> (res: Vec<char>)
    ensures
        res@ == s@,
{
    let mut res: Vec<char> = Vec::new();
    for c in iter: s.chars()
        invariant
            res@ == iter.seq().take(iter.index() as int),
            iter.seq() == s@,
    {
        res.push(c);
    }
    res
}

/// A string holding the characters of `s[from..to]`.
pub fn string_of_range(s: &Vec<char>, from: usize, to: usize) -> (res: String)
    requires from <= to <= s.len(),
    ensures res@ == s@.subrange(from as int, to as int),
{
    let mut res = String::new();
    let mut i = from;
    while i < to
        invariant
            from <= i <= to <= s.len(),
            res@ == s@.subrange(from as int, i as int),
        decreases to - i,
    {
        push_char(&mut res, s[i]);
        proof {
            assert(s@.subrange(from as int, i + 1) == s@.subrange(from as int, i as int).push(s@[i as int]));
        }
        i += 1;
    }
    res
}

/// A string holding the characters of `s`.
pub fn string_of(s: &Vec<char>) -> (res: String)
    ensures res@ == s@,
{
    let r = string_of_range(s, 0, s.len());
    proof { assert(s@.subrange(0, s@.len() as int) == s@); }
    r
}

/// A fresh copy of a string slice.
pub fn owned(s: &str) -> (res: String)
    ensures res@ == s@,
{
    String::from_str(s)
}

/// Whether two character sequences are equal.
pub fn seq_eq(a: &Vec<char>, b: &Vec<char>) -> (r: bool)
    ensures r == (a@ == b@),
{
    if a.len() != b.len() {
        return false;
    }
    let mut i: usize = 0;
    while i < a.len()
        invariant
            a.len() == b.len(),
            i <= a.len(),
            forall|j: int| 0 <= j < i ==> a@[j] == b@[j],
        decreases a.len() - i,
    {
        if a[i] != b[i] {
            return false;
        }
        i += 1;
    }
    proof { assert(a@ =~= b@); }
    true
}

/// Whether two string slices hold the same characters.
pub fn str_eq(a: &str, b: &str) -> (r: bool)
    ensures r == (a@ == b@),
{
    let x = chars_of(a);
    let y = chars_of(b);
    seq_eq(&x, &y)
}

/// Whether `s[at..]` starts with `p`.
pub fn has_at(s: &Vec<char>, at: usize, p: &Vec<char>) -> (r: bool)
    requires at <= s.len(),
    ensures r == starts_with(s@.subrange(at as int, s@.len() as int), p@),
{
    if p.len() > s.len() - at {
        return false;
    }
    let mut i: usize = 0;
    while i < p.len()
        invariant
            at + p.len() <= s.len(),
            i <= p.len(),
            forall|j: int| 0 <= j < i ==> s@[at + j] == p@[j],
        decreases p.len() - i,
    {
        if s[at + i] != p[i] {
            assert(s@.subrange(at as int, s@.len() as int).take(p@.len() as int)[i as int] != p@[i as int]);
            return false;
        }
        i += 1;
    }
    assert(s@.subrange(at as int, s@.len() as int).take(p@.len() as int) =~= p@);
    true
}

/// Whether `s` ends with `p`.
pub fn has_suffix(s: &Vec<char>, p: &Vec<char>) -> (r: bool)
    ensures r == ends_with(s@, p@),
{
    if p.len() > s.len() {
        return false;
    }
    let at = s.len() - p.len();
    let r = has_at(s, at, p);
    proof {
        assert(s@.subrange(at as int, s@.len() as int).take(p@.len() as int)
            =~= s@.subrange(s@.len() - p@.len(), s@.len() as int));
    }
    r
}

} // verus!

verus! {

/// `a` comes strictly before `b` in lexicographic order of characters (the
/// order of Rust's `str` comparison).
pub open spec fn seq_lt(a: Seq<char>, b: Seq<char>) -> bool
    decreases a.len(),
{
    if a.len() == 0 {
        b.len() > 0
    } else if b.len() == 0 {
        false
    } else if a[0] != b[0] {
        a[0] < b[0]
    } else {
        seq_lt(a.skip(1), b.skip(1))
    }
}

/// The lexicographic order is irreflexive and asymmetric, total on distinct
/// sequences, and transitive.
pub proof fn lemma_seq_lt_irreflexive(a: Seq<char>)
    ensures !seq_lt(a, a),
    decreases a.len(),
{
    if a.len() > 0 {
        lemma_seq_lt_irreflexive(a.skip(1));
    }
}

pub proof fn lemma_seq_lt_total(a: Seq<char>, b: Seq<char>)
    ensures
        a != b ==> (seq_lt(a, b) || seq_lt(b, a)),
        !(seq_lt(a, b) && seq_lt(b, a)),
    decreases a.len(),
{
    if a.len() > 0 && b.len() > 0 && a[0] == b[0] {
        lemma_seq_lt_total(a.skip(1), b.skip(1));
        if a != b {
            assert(a.skip(1) != b.skip(1)) by {
                if a.skip(1) == b.skip(1) {
                    assert(a =~= seq![a[0]] + a.skip(1));
                    assert(b =~= seq![b[0]] + b.skip(1));
                }
            }
        }
    } else if a.len() == 0 && b.len() == 0 {
        assert(a =~= b);
    }
}

pub proof fn lemma_seq_lt_transitive(a: Seq<char>, b: Seq<char>, c: Seq<char>)
    requires seq_lt(a, b), seq_lt(b, c),
    ensures seq_lt(a, c),
    decreases a.len(),
{
    if a.len() > 0 && b.len() > 0 && c.len() > 0 && a[0] == b[0] && b[0] == c[0] {
        lemma_seq_lt_transitive(a.skip(1), b.skip(1), c.skip(1));
    }
}

/// Whether `a` comes strictly before `b`.
pub fn chars_lt(a: &Vec<char>, b: &Vec<char>) -> (r: bool)
    ensures r == seq_lt(a@, b@),
{
    let mut i: usize = 0;
    proof { assert(a@.skip(0) =~= a@); assert(b@.skip(0) =~= b@); }
    while i < a.len() && i < b.len()
        invariant
            i <= a.len(), i <= b.len(),
            seq_lt(a@, b@) == seq_lt(a@.skip(i as int), b@.skip(i as int)),
        decreases a.len() - i,
    {
        if a[i] != b[i] {
            proof { assert(a@.skip(i as int)[0] == a@[i as int]); assert(b@.skip(i as int)[0] == b@[i as int]); }
            return a[i] < b[i];
        }
        proof {
            assert(a@.skip(i as int).skip(1) =~= a@.skip(i + 1));
            assert(b@.skip(i as int).skip(1) =~= b@.skip(i + 1));
        }
        i += 1;
    }
    i == a.len() && i < b.len()
}

/// Whether the string `a` comes strictly before the string `b`.
pub fn str_lt(a: &str, b: &str) -> (r: bool)
    ensures r == seq_lt(a@, b@),
{
    let x = chars_of(a);
    let y = chars_of(b);
    chars_lt(&x, &y)
}

} // verus!
