//! Decimal numerals for the score file: formatting of unsigned and signed
//! counters, parsing in the style of Rust's integer `FromStr` (an optional
//! sign, then decimal digits, rejected on overflow), and the lemmas that
//! make the two inverse to each other.

use vstd::prelude::*;

use crate::chars::chars_string;
use crate::chars::digit_char;
use crate::chars::digit_to_char;
use crate::chars::digit_val;
use crate::chars::digit_value;
use crate::chars::is_ascii_digit;
use crate::chars::is_digit;
use crate::chars::string_chars;

verus! {

/// The decimal digits of `n`, most significant first.
pub open spec fn dec_digits(n: nat) -> Seq<char>
    decreases n,
{
    if n < 10 {
        seq![digit_char(n as int)]
    } else {
        dec_digits(n / 10).push(digit_char((n % 10) as int))
    }
}

/// The decimal form of a signed value: a minus sign before the magnitude.
pub open spec fn dec_signed(n: int) -> Seq<char> {
    if n < 0 {
        seq!['-'] + dec_digits((-n) as nat)
    } else {
        dec_digits(n as nat)
    }
}

/// Every character is a decimal digit.
pub open spec fn all_digits(s: Seq<char>) -> bool {
    forall|i: int| 0 <= i < s.len() ==> is_digit(s[i])
}

/// The value of a digit string, read left to right.
pub open spec fn dec_val(s: Seq<char>) -> nat
    decreases s.len(),
{
    if s.len() == 0 {
        0
    } else {
        (dec_val(s.drop_last()) * 10 + digit_val(s.last())) as nat
    }
}

/// What parsing an unsigned 32-bit counter field yields: an optional `+`,
/// then at least one digit, and a value that fits.
pub open spec fn parse_u32_spec(s: Seq<char>) -> Option<u32> {
    let t = if s.len() > 0 && s[0] == '+' {
        s.drop_first()
    } else {
        s
    };
    if t.len() > 0 && all_digits(t) && dec_val(t) <= u32::MAX {
        Some(dec_val(t) as u32)
    } else {
        None
    }
}

/// What parsing a signed 64-bit counter field yields: one optional sign,
/// then at least one digit, and a value in range.
pub open spec fn parse_i64_spec(s: Seq<char>) -> Option<i64> {
    if s.len() > 0 && s[0] == '-' {
        let t = s.drop_first();
        if t.len() > 0 && all_digits(t) && dec_val(t) <= 0x8000000000000000 {
            Some((0 - dec_val(s.drop_first())) as i64)
        } else {
            None
        }
    } else {
        let t = if s.len() > 0 && s[0] == '+' {
            s.drop_first()
        } else {
            s
        };
        if t.len() > 0 && all_digits(t) && dec_val(t) <= i64::MAX {
            Some(dec_val(t) as i64)
        } else {
            None
        }
    }
}

/// A numeral is made of digits, and reading it back gives the value.
pub proof fn lemma_dec_digits_val(n: nat)
    ensures
        dec_digits(n).len() >= 1,
        all_digits(dec_digits(n)),
        dec_val(dec_digits(n)) == n,
    decreases n,
{
    if n < 10 {
        let s = dec_digits(n);
        assert(s == seq![digit_char(n as int)]);
        assert(s.drop_last().len() == 0);
        assert(dec_val(s.drop_last()) == 0);
        assert(digit_val(digit_char(n as int)) == n);
        assert(dec_val(s) == n);
    } else {
        lemma_dec_digits_val(n / 10);
        let s = dec_digits(n);
        assert(s.drop_last() == dec_digits(n / 10));
        assert(s.last() == digit_char((n % 10) as int));
        assert(digit_val(digit_char((n % 10) as int)) == n % 10);
        assert(dec_val(s) == (n / 10) * 10 + n % 10);
        assert((n / 10) * 10 + n % 10 == n);
    }
}

/// Reading more digits never lowers the value.
pub proof fn lemma_dec_val_prefix(s: Seq<char>, i: int)
    requires
        0 <= i <= s.len(),
        all_digits(s),
    ensures
        dec_val(s.take(i)) <= dec_val(s),
    decreases s.len(),
{
    if i < s.len() {
        assert(forall|j: int| 0 <= j < s.drop_last().len() ==> is_digit(s.drop_last()[j]));
        assert(s.take(i) =~= s.drop_last().take(i));
        lemma_dec_val_prefix(s.drop_last(), i);
        assert(is_digit(s.last()));
        assert(digit_val(s.last()) >= 0);
        assert(dec_val(s) == dec_val(s.drop_last()) * 10 + digit_val(s.last()));
        assert(dec_val(s.drop_last()) * 10 >= dec_val(s.drop_last()));
    } else {
        assert(s.take(i) =~= s);
    }
}

/// The digits of `cs` from `from` on, as an unsigned value, refused when a
/// non-digit stands anywhere in the range, the range is empty, or the value
/// would pass `max`.
pub fn parse_digits(cs: &Vec<char>, from: usize, max: u64) -> (r: Option<u64>)
    requires
        from <= cs@.len(),
    ensures
        ({
            let t = cs@.skip(from as int);
            match r {
                Some(v) => t.len() > 0 && all_digits(t) && dec_val(t) == v && v <= max,
                None => !(t.len() > 0 && all_digits(t) && dec_val(t) <= max),
            }
        }),
{
    let ghost t = cs@.skip(from as int);
    let n = cs.len();
    if from == n {
        return None;
    }
    let mut acc: u64 = 0;
    let mut i: usize = from;
    while i < n
        invariant
            from <= i <= n,
            n == cs@.len(),
            t == cs@.skip(from as int),
            all_digits(cs@.subrange(from as int, i as int)),
            acc == dec_val(cs@.subrange(from as int, i as int)),
            acc <= max,
        decreases n - i,
    {
        let ghost pre = cs@.subrange(from as int, i as int);
        let c = cs[i];
        proof {
            assert(t[i - from] == cs@[i as int]);
        }
        if !is_ascii_digit(c) {
            return None;
        }
        let d = digit_value(c) as u64;
        if acc > max / 10 || (acc == max / 10 && d > max % 10) {
            proof {
                assert(acc * 10 + d > max) by {
                    assert(max == (max / 10) * 10 + max % 10);
                }
                assert(cs@.subrange(from as int, i + 1).drop_last() =~= pre);
                assert(cs@.subrange(from as int, i + 1).last() == cs@[i as int]);
                assert(dec_val(cs@.subrange(from as int, i + 1)) == acc * 10 + d);
                if all_digits(t) {
                    assert(t.take(i + 1 - from) =~= cs@.subrange(from as int, i + 1));
                    lemma_dec_val_prefix(t, i + 1 - from);
                    assert(dec_val(t) > max);
                }
            }
            return None;
        }
        proof {
            assert(acc * 10 + d <= max) by {
                assert(max == (max / 10) * 10 + max % 10);
            }
            assert(cs@.subrange(from as int, i + 1).drop_last() =~= pre);
            assert(cs@.subrange(from as int, i + 1).last() == cs@[i as int]);
        }
        acc = acc * 10 + d;
        i = i + 1;
    }
    proof {
        assert(cs@.subrange(from as int, n as int) =~= t);
        assert(t.len() > 0);
    }
    Some(acc)
}

/// The decimal digits of `n`, as characters.
pub fn format_u64(n: u64) -> (r: Vec<char>)
    ensures
        r@ == dec_digits(n as nat),
    decreases n,
{
    if n < 10 {
        let mut v: Vec<char> = Vec::new();
        v.push(digit_to_char(n as u32));
        proof {
            assert(v@ =~= seq![digit_char(n as int)]);
        }
        v
    } else {
        let mut v = format_u64(n / 10);
        v.push(digit_to_char((n % 10) as u32));
        v
    }
}

/// The decimal form of an unsigned 32-bit counter.
pub fn format_u32(n: u32) -> (r: String)
    ensures
        r@ == dec_digits(n as nat),
{
    let v = format_u64(n as u64);
    chars_string(&v)
}

/// The decimal form of a signed 64-bit counter.
pub fn format_i64(n: i64) -> (r: String)
    ensures
        r@ == dec_signed(n as int),
{
    if n >= 0 {
        let v = format_u64(n as u64);
        chars_string(&v)
    } else {
        let mag: u64 = ((-(n + 1)) as u64) + 1;
        proof {
            assert(mag == -(n as int));
        }
        let mut v: Vec<char> = Vec::new();
        v.push('-');
        let mut digits = format_u64(mag);
        v.append(&mut digits);
        proof {
            assert(v@ =~= seq!['-'] + dec_digits(mag as nat));
        }
        chars_string(&v)
    }
}

/// The ordinal ending that follows a try count: `st`, `nd` and `rd` for
/// exactly one, two and three, `th` for everything else.
pub open spec fn ordinal_suffix(n: nat) -> Seq<char> {
    if n == 1 {
        seq!['s', 't']
    } else if n == 2 {
        seq!['n', 'd']
    } else if n == 3 {
        seq!['r', 'd']
    } else {
        seq!['t', 'h']
    }
}

/// A try count as an ordinal, e.g. for the result banner after an answer.
pub fn ordinal_string(n: u32) -> (r: String)
    ensures
        r@ == dec_digits(n as nat) + ordinal_suffix(n as nat),
{
    let mut v = format_u64(n as u64);
    if n == 1 {
        v.push('s');
        v.push('t');
    } else if n == 2 {
        v.push('n');
        v.push('d');
    } else if n == 3 {
        v.push('r');
        v.push('d');
    } else {
        v.push('t');
        v.push('h');
    }
    proof {
        assert(v@ =~= dec_digits(n as nat) + ordinal_suffix(n as nat));
    }
    chars_string(&v)
}

/// Parse an unsigned 32-bit counter field.
pub fn parse_u32(s: &str) -> (r: Option<u32>)
    ensures
        r == parse_u32_spec(s@),
{
    let cs = string_chars(s);
    let n = cs.len();
    let from: usize = if n > 0 && cs[0] == '+' {
        1
    } else {
        0
    };
    proof {
        if n > 0 && cs@[0] == '+' {
            assert(s@.drop_first() =~= cs@.skip(1));
        } else {
            assert(s@ =~= cs@.skip(0));
        }
    }
    match parse_digits(&cs, from, 0xffffffffu64) {
        Some(v) => Some(v as u32),
        None => None,
    }
}

/// Parse a signed 64-bit counter field.
pub fn parse_i64(s: &str) -> (r: Option<i64>)
    ensures
        r == parse_i64_spec(s@),
{
    let cs = string_chars(s);
    let n = cs.len();
    if n > 0 && cs[0] == '-' {
        proof {
            assert(s@.drop_first() =~= cs@.skip(1));
        }
        match parse_digits(&cs, 1, 0x8000000000000000u64) {
            Some(v) => {
                let r: i64 = if v >= 0x8000000000000000u64 {
                    i64::MIN
                } else {
                    0i64 - (v as i64)
                };
                proof {
                    assert(r as int == 0 - dec_val(s@.drop_first()));
                }
                Some(r)
            },
            None => None,
        }
    } else {
        let from: usize = if n > 0 && cs[0] == '+' {
            1
        } else {
            0
        };
        proof {
            if n > 0 && cs@[0] == '+' {
                assert(s@.drop_first() =~= cs@.skip(1));
            } else {
                assert(s@ =~= cs@.skip(0));
            }
        }
        match parse_digits(&cs, from, 0x7fffffffffffffffu64) {
            Some(v) => Some(v as i64),
            None => None,
        }
    }
}

/// Parsing the decimal form of an unsigned counter gives the value back.
pub proof fn lemma_u32_round_trip(n: u32)
    ensures
        parse_u32_spec(dec_digits(n as nat)) == Some(n),
{
    lemma_dec_digits_val(n as nat);
    let s = dec_digits(n as nat);
    assert(is_digit(s[0]));
    assert(s[0] != '+');
}

/// Parsing the decimal form of a signed counter gives the value back.
pub proof fn lemma_i64_round_trip(n: i64)
    ensures
        parse_i64_spec(dec_signed(n as int)) == Some(n),
{
    let s = dec_signed(n as int);
    if n < 0 {
        lemma_dec_digits_val((-(n as int)) as nat);
        assert(s[0] == '-');
        assert(s.drop_first() =~= dec_digits((-(n as int)) as nat));
    } else {
        lemma_dec_digits_val(n as nat);
        assert(is_digit(s[0]));
        assert(s[0] != '+');
        assert(s[0] != '-');
    }
}

} // verus!
