//! Character-level helpers shared by the parser, the hint engine and the
//! score-file codec: ASCII classification, decimal digits, and conversion
//! between `String`/`&str` and `Vec<char>`.

use vstd::prelude::*;

verus! {

/// An ASCII letter, the only characters the hint engine ever masks.
pub open spec fn is_alpha(c: char) -> bool {
    ('a' as u32 <= c as u32 && c as u32 <= 'z' as u32) || ('A' as u32 <= c as u32 && c as u32
        <= 'Z' as u32)
}

pub fn is_ascii_alpha(c: char) -> (r: bool)
    ensures
        r == is_alpha(c),
{
    let u = c as u32;
    ('a' as u32 <= u && u <= 'z' as u32) || ('A' as u32 <= u && u <= 'Z' as u32)
}

/// An ASCII decimal digit.
pub open spec fn is_digit(c: char) -> bool {
    '0' as u32 <= c as u32 && c as u32 <= '9' as u32
}

pub fn is_ascii_digit(c: char) -> (r: bool)
    ensures
        r == is_digit(c),
{
    let u = c as u32;
    '0' as u32 <= u && u <= '9' as u32
}

/// The numeric value of a decimal digit character.
pub open spec fn digit_val(c: char) -> int {
    c as u32 - '0' as u32
}

pub fn digit_value(c: char) -> (r: u32)
    requires
        is_digit(c),
    ensures
        r == digit_val(c),
{
    c as u32 - '0' as u32
}

/// The decimal digit character for a value below ten.
pub open spec fn digit_char(d: int) -> char {
    if d == 0 {
        '0'
    } else if d == 1 {
        '1'
    } else if d == 2 {
        '2'
    } else if d == 3 {
        '3'
    } else if d == 4 {
        '4'
    } else if d == 5 {
        '5'
    } else if d == 6 {
        '6'
    } else if d == 7 {
        '7'
    } else if d == 8 {
        '8'
    } else {
        '9'
    }
}

pub fn digit_to_char(d: u32) -> (r: char)
    requires
        d < 10,
    ensures
        r == digit_char(d as int),
{
    match d {
        0 => '0',
        1 => '1',
        2 => '2',
        3 => '3',
        4 => '4',
        5 => '5',
        6 => '6',
        7 => '7',
        8 => '8',
        _ => '9',
    }
}

/// The characters of a string slice, in order.
pub fn string_chars(s: &str) -> (r: Vec<char>)
    ensures
        r@ == s@,
{
    let n = s.unicode_len();
    let mut r: Vec<char> = Vec::new();
    let mut i: usize = 0;
    while i < n
        invariant
            n == s@.len(),
            i <= n,
            r@ == s@.take(i as int),
        decreases n - i,
    {
        r.push(s.get_char(i));
        i = i + 1;
        assert(r@ =~= s@.take(i as int));
    }
    assert(r@ =~= s@);
    r
}

/// A copy of the characters of `cs` between `from` and `to`.
pub fn subvec(cs: &Vec<char>, from: usize, to: usize) -> (r: Vec<char>)
    requires
        from <= to <= cs@.len(),
    ensures
        r@ == cs@.subrange(from as int, to as int),
{
    let mut r: Vec<char> = Vec::new();
    let mut i: usize = from;
    while i < to
        invariant
            from <= i <= to <= cs@.len(),
            r@ == cs@.subrange(from as int, i as int),
        decreases to - i,
    {
        r.push(cs[i]);
        i = i + 1;
        assert(r@ =~= cs@.subrange(from as int, i as int));
    }
    r
}

/// Whether two string slices hold the same characters.
pub fn str_eq(a: &str, b: &str) -> (r: bool)
    ensures
        r == (a@ == b@),
{
    let n = a.unicode_len();
    if n != b.unicode_len() {
        return false;
    }
    let mut i: usize = 0;
    while i < n
        invariant
            n == a@.len(),
            n == b@.len(),
            i <= n,
            forall|j: int| 0 <= j < i ==> a@[j] == b@[j],
        decreases n - i,
    {
        if a.get_char(i) != b.get_char(i) {
            assert(a@[i as int] != b@[i as int]);
            return false;
        }
        i = i + 1;
    }
    assert(a@ =~= b@);
    true
}

/// Relies on `core::iter::Iterator::collect` for `String`: collecting
/// characters yields the string made of exactly those characters in order.
#[verifier::external_body]
pub fn chars_string(v: &Vec<char>) -> (r: String)
    ensures
        r@ == v@,
{
    v.iter().collect()
}

} // verus!
