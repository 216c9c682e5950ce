//! Decimal numbers in text: formatting unsigned integers the way `Display`
//! does, and parsing them the way `u32::from_str` / `u64::from_str` do (an
//! optional leading `+`, then one or more ASCII digits, no overflow).
use vstd::prelude::*;

use crate::text;

verus! {

pub open spec fn is_digit(c: char) -> bool {
    '0' <= c && c <= '9'
}

pub open spec fn digit_value(c: char) -> nat {
    (c as nat - '0' as nat) as nat
}

pub open spec fn digit_char(d: nat) -> char {
    if d == 0 {
        '0'
    } else if d == 1 {
        '1'
    } else if d == 2 {
        '2'
    } else if d == 3 {
        '3'
    } else if d == 4 {
        '4'
    } else if d == 5 {
        '5'
    } else if d == 6 {
        '6'
    } else if d == 7 {
        '7'
    } else if d == 8 {
        '8'
    } else {
        '9'
    }
}

pub proof fn lemma_digit_char(d: nat)
    requires
        d < 10,
    ensures
        digit_value(digit_char(d)) == d,
        is_digit(digit_char(d)),
        digit_char(d) != '+',
{
    assert('0' as nat == 48);
    assert('9' as nat == 57);
    if d == 0 {
    } else if d == 1 {
        assert('1' as nat == 49);
    } else if d == 2 {
        assert('2' as nat == 50);
    } else if d == 3 {
        assert('3' as nat == 51);
    } else if d == 4 {
        assert('4' as nat == 52);
    } else if d == 5 {
        assert('5' as nat == 53);
    } else if d == 6 {
        assert('6' as nat == 54);
    } else if d == 7 {
        assert('7' as nat == 55);
    } else if d == 8 {
        assert('8' as nat == 56);
    } else {
    }
}

/// The numeric value of an ASCII digit.
fn value_of_digit(c: char) -> (d: u64)
    requires
        is_digit(c),
    ensures
        d as nat == digit_value(c),
        d <= 9,
{
    (c as u32 - '0' as u32) as u64
}

/// The decimal digits of `n`, most significant first, no leading zeros.
pub open spec fn dec(n: nat) -> Seq<char>
    decreases n,
{
    if n < 10 {
        seq![digit_char(n)]
    } else {
        dec(n / 10).push(digit_char(n % 10))
    }
}

/// Every character is an ASCII digit.
pub open spec fn all_digits(s: Seq<char>) -> bool {
    forall|i: int| 0 <= i < s.len() ==> is_digit(#[trigger] s[i])
}

/// The value of a digit string.
pub open spec fn digits_value(s: Seq<char>) -> nat
    decreases s.len(),
{
    if s.len() == 0 {
        0
    } else {
        10 * digits_value(s.drop_last()) + digit_value(s.last())
    }
}

/// The digits of an integer literal after an optional leading `+`.
pub open spec fn unsigned_body(s: Seq<char>) -> Seq<char> {
    if s.len() > 0 && s[0] == '+' {
        s.drop_first()
    } else {
        s
    }
}

/// What `from_str` of an unsigned integer type reads from `s`: `Some(v)`
/// when `s` is an optional `+` then one or more digits, `None` otherwise
/// (overflow is left to the caller).
pub open spec fn parse_unsigned(s: Seq<char>) -> Option<nat> {
    let b = unsigned_body(s);
    if b.len() > 0 && all_digits(b) {
        Some(digits_value(b))
    } else {
        None
    }
}

/// `u32::from_str`.
pub open spec fn parse_u32_spec(s: Seq<char>) -> Option<u32> {
    match parse_unsigned(s) {
        Some(v) => if v <= u32::MAX {
            Some(v as u32)
        } else {
            None
        },
        None => None,
    }
}

/// `u64::from_str`.
pub open spec fn parse_u64_spec(s: Seq<char>) -> Option<u64> {
    match parse_unsigned(s) {
        Some(v) => if v <= u64::MAX {
            Some(v as u64)
        } else {
            None
        },
        None => None,
    }
}

pub proof fn lemma_digits_value_monotone(s: Seq<char>, i: int)
    requires
        0 <= i <= s.len(),
        all_digits(s),
    ensures
        digits_value(s.take(i)) <= digits_value(s),
    decreases s.len() - i,
{
    if i < s.len() {
        let t = s.drop_last();
        assert(all_digits(t)) by {
            assert forall|k: int| 0 <= k < t.len() implies is_digit(#[trigger] t[k]) by {
                assert(t[k] == s[k]);
            }
        }
        assert(s.take(i) =~= t.take(i));
        lemma_digits_value_monotone(t, i);
        assert(digits_value(t) <= digits_value(s));
    } else {
        assert(s.take(i) =~= s);
    }
}

/// Reads `digits` (all ASCII digits) as a number no larger than `limit`,
/// or `None` when its value exceeds `limit`.
fn digits_up_to(digits: &[char], limit: u64) -> (r: Option<u64>)
    requires
        all_digits(digits@),
        limit >= 9,
    ensures
        r matches Some(v) ==> v as nat == digits_value(digits@) && v <= limit,
        r is None ==> digits_value(digits@) > limit,
{
    let mut v: u64 = 0;
    let mut i: usize = 0;
    while i < digits.len()
        invariant
            i <= digits@.len(),
            all_digits(digits@),
            limit >= 9,
            v as nat == digits_value(digits@.take(i as int)),
            v <= limit,
        decreases digits.len() - i,
    {
        let c = digits[i];
        assert(is_digit(digits@[i as int]));
        let d = value_of_digit(c);
        proof {
            assert(digits@.take(i + 1).drop_last() =~= digits@.take(i as int));
        }
        if v > (limit - d) / 10 {
            proof {
                assert(digits_value(digits@.take(i + 1)) == 10 * v + d);
                assert(10 * v + d > limit) by (nonlinear_arith)
                    requires
                        v > (limit - d) / 10,
                        d <= 9,
                        d <= limit || true,
                ;
                lemma_digits_value_monotone(digits@, i + 1);
            }
            return None;
        }
        proof {
            assert(10 * v + d <= limit) by (nonlinear_arith)
                requires
                    v <= (limit - d) / 10,
                    d <= limit,
            ;
        }
        v = 10 * v + d;
        i = i + 1;
    }
    proof {
        assert(digits@.take(digits@.len() as int) =~= digits@);
    }
    Some(v)
}

/// `u64::from_str` over characters.
pub fn parse_u64_chars(s: &[char]) -> (r: Option<u64>)
    ensures
        r == parse_u64_spec(s@),
{
    let body = if s.len() > 0 && s[0] == '+' {
        text::slice_range(s, 1, s.len())
    } else {
        text::slice_range(s, 0, s.len())
    };
    assert(body@ =~= unsigned_body(s@));
    if body.len() == 0 {
        return None;
    }
    let mut i: usize = 0;
    while i < body.len()
        invariant
            i <= body@.len(),
            body@ == unsigned_body(s@),
            forall|k: int| 0 <= k < i ==> is_digit(#[trigger] body@[k]),
        decreases body.len() - i,
    {
        if !('0' <= body[i] && body[i] <= '9') {
            assert(!is_digit(body@[i as int]));
            assert(!all_digits(body@));
            return None;
        }
        i = i + 1;
    }
    digits_up_to(body.as_slice(), u64::MAX)
}

/// `u32::from_str` over characters.
pub fn parse_u32_chars(s: &[char]) -> (r: Option<u32>)
    ensures
        r == parse_u32_spec(s@),
{
    let body = if s.len() > 0 && s[0] == '+' {
        text::slice_range(s, 1, s.len())
    } else {
        text::slice_range(s, 0, s.len())
    };
    assert(body@ =~= unsigned_body(s@));
    if body.len() == 0 {
        return None;
    }
    let mut i: usize = 0;
    while i < body.len()
        invariant
            i <= body@.len(),
            body@ == unsigned_body(s@),
            forall|k: int| 0 <= k < i ==> is_digit(#[trigger] body@[k]),
        decreases body.len() - i,
    {
        if !('0' <= body[i] && body[i] <= '9') {
            assert(!is_digit(body@[i as int]));
            assert(!all_digits(body@));
            return None;
        }
        i = i + 1;
    }
    match digits_up_to(body.as_slice(), u32::MAX as u64) {
        Some(v) => Some(v as u32),
        None => None,
    }
}

/// `u64::from_str`.
pub fn parse_u64(s: &str) -> (r: Option<u64>)
    ensures
        r == parse_u64_spec(s@),
{
    let v = text::to_chars(s);
    parse_u64_chars(v.as_slice())
}

/// The decimal digits of `n` (`n.to_string()`).
pub fn dec_chars(n: u64) -> (r: Vec<char>)
    ensures
        r@ == dec(n as nat),
    decreases n,
{
    if n < 10 {
        let c = char_of_digit(n);
        let mut r: Vec<char> = Vec::new();
        r.push(c);
        assert(r@ =~= dec(n as nat));
        r
    } else {
        let mut r = dec_chars(n / 10);
        r.push(char_of_digit(n % 10));
        r
    }
}

fn char_of_digit(d: u64) -> (c: char)
    requires
        d < 10,
    ensures
        c == digit_char(d as nat),
{
    let c: char = match d {
        0 => '0',
        1 => '1',
        2 => '2',
        3 => '3',
        4 => '4',
        5 => '5',
        6 => '6',
        7 => '7',
        8 => '8',
        _ => '9',
    };
    c
}

/// `n.to_string()`.
pub fn to_decimal(n: u64) -> (r: String)
    ensures
        r@ == dec(n as nat),
{
    let v = dec_chars(n);
    text::from_chars(v.as_slice())
}

/// Appends the decimal digits of `n`.
pub fn append_decimal(dst: &mut Vec<char>, n: u64)
    ensures
        final(dst)@ == old(dst)@ + dec(n as nat),
{
    let v = dec_chars(n);
    text::append_chars(dst, v.as_slice());
}

pub proof fn lemma_dec_all_digits(n: nat)
    ensures
        all_digits(dec(n)),
        dec(n).len() > 0,
        digits_value(dec(n)) == n,
    decreases n,
{
    lemma_digit_char(n % 10);
    if n < 10 {
        assert(n % 10 == n);
        let d = dec(n);
        assert(d.drop_last() =~= Seq::<char>::empty());
        assert(digits_value(d.drop_last()) == 0);
        assert(d.last() == digit_char(n));
        assert(digits_value(d) == digit_value(digit_char(n)));
    } else {
        lemma_dec_all_digits(n / 10);
        let d = dec(n);
        assert(d.drop_last() =~= dec(n / 10));
        assert(d.last() == digit_char(n % 10));
        assert(digits_value(d) == 10 * (n / 10) + n % 10);
        assert(10 * (n / 10) + n % 10 == n);
        assert forall|i: int| 0 <= i < d.len() implies is_digit(#[trigger] d[i]) by {
            if i < d.len() - 1 {
                assert(d[i] == dec(n / 10)[i]);
            }
        }
    }
}

/// Formatting a number and reading it back gives the number: the decimal
/// text of `n` parses to `n`.
pub proof fn lemma_dec_parse_round_trip(n: u64)
    ensures
        parse_u64_spec(dec(n as nat)) == Some(n),
{
    lemma_dec_all_digits(n as nat);
    let d = dec(n as nat);
    assert(is_digit(d[0]));
    assert(unsigned_body(d) == d);
}

} // verus!
