//! Decimal numbers in text form: reading an integer from its digits and
//! writing one out.
//!
//! A number is an optional sign followed by one or more decimal digits, with
//! nothing before, between or after them. Unsigned numbers accept `+` only.

use vstd::prelude::*;
use vstd::string::StringExecFns;
use crate::utils::chars_of;

verus! {

pub open spec fn is_digit(c: char) -> bool {
    '0' <= c <= '9'
}

pub open spec fn digit_value(c: char) -> nat {
    (c as int - '0' as int) as nat
}

/// The character that stands for the digit `d`.
pub open spec fn digit_char(d: nat) -> char {
    (d + '0' as nat) as char
}

pub open spec fn all_digits(s: Seq<char>) -> bool {
    forall|i: int| 0 <= i < s.len() ==> is_digit(#[trigger] s[i])
}

/// The number that a run of digits denotes, most significant digit first.
pub open spec fn digits_value(s: Seq<char>) -> nat
    decreases s.len(),
{
    if s.len() == 0 {
        0
    } else {
        digits_value(s.drop_last()) * 10 + digit_value(s.last())
    }
}

/// The number that `s` denotes when it is an optional `+` and digits.
pub open spec fn parse_unsigned(s: Seq<char>) -> Option<nat> {
    let body = if s.len() > 0 && s[0] == '+' {
        s.subrange(1, s.len() as int)
    } else {
        s
    };
    if body.len() > 0 && all_digits(body) {
        Some(digits_value(body))
    } else {
        None
    }
}

/// The number that `s` denotes when it is an optional `+` or `-` and digits.
pub open spec fn parse_signed(s: Seq<char>) -> Option<int> {
    if s.len() > 0 && s[0] == '-' {
        let body = s.subrange(1, s.len() as int);
        if body.len() > 0 && all_digits(body) {
            Some(-(digits_value(body) as int))
        } else {
            None
        }
    } else {
        match parse_unsigned(s) {
            Some(n) => Some(n as int),
            None => None,
        }
    }
}

/// `parse_unsigned`, kept only where the number is at most `max`.
pub open spec fn parse_at_most(s: Seq<char>, max: nat) -> Option<nat> {
    match parse_unsigned(s) {
        Some(n) => if n <= max {
            Some(n)
        } else {
            None
        },
        None => None,
    }
}

/// `parse_signed`, kept only where the number fits in 64 bits.
pub open spec fn parse_i64_spec(s: Seq<char>) -> Option<int> {
    match parse_signed(s) {
        Some(n) => if i64::MIN <= n <= i64::MAX {
            Some(n)
        } else {
            None
        },
        None => None,
    }
}

/// The decimal digits of `n`, without leading zeros.
pub open spec fn nat_to_text(n: nat) -> Seq<char>
    decreases n,
{
    if n < 10 {
        seq![digit_char(n)]
    } else {
        nat_to_text(n / 10).push(digit_char(n % 10))
    }
}

/// The decimal form of `n`, with a leading `-` when it is negative.
pub open spec fn int_to_text(n: int) -> Seq<char> {
    if n < 0 {
        seq!['-'] + nat_to_text((-n) as nat)
    } else {
        nat_to_text(n as nat)
    }
}

/// A run of digits denotes at least what any of its prefixes denotes.
pub proof fn lemma_digits_value_prefix(s: Seq<char>, k: int)
    requires
        0 <= k <= s.len(),
    ensures
        digits_value(s.take(k)) <= digits_value(s),
    decreases s.len() - k,
{
    if k == s.len() {
        assert(s.take(k) =~= s);
    } else {
        lemma_digits_value_prefix(s, k + 1);
        assert(s.take(k + 1).drop_last() =~= s.take(k));
    }
}

/// Writing a number out gives digits only, at least one of them.
pub proof fn lemma_nat_to_text_digits(n: nat)
    ensures
        nat_to_text(n).len() > 0,
        all_digits(nat_to_text(n)),
    decreases n,
{
    if n >= 10 {
        lemma_nat_to_text_digits(n / 10);
    }
}

/// Writing a number out and reading the digits back gives the number.
pub proof fn lemma_digits_value_of_text(n: nat)
    ensures
        digits_value(nat_to_text(n)) == n,
    decreases n,
{
    if n < 10 {
        let s = nat_to_text(n);
        assert(digits_value(s.drop_last()) == 0);
    } else {
        lemma_digits_value_of_text(n / 10);
        let s = nat_to_text(n);
        assert(s.drop_last() =~= nat_to_text(n / 10));
    }
}

/// Reading back what was written: an unsigned number survives the round trip.
pub proof fn lemma_parse_unsigned_of_text(n: nat)
    ensures
        parse_unsigned(nat_to_text(n)) == Some(n),
{
    lemma_nat_to_text_digits(n);
    lemma_digits_value_of_text(n);
    let s = nat_to_text(n);
}

/// Reading back what was written: a signed number survives the round trip.
pub proof fn lemma_parse_signed_of_text(n: int)
    ensures
        parse_signed(int_to_text(n)) == Some(n),
{
    if n < 0 {
        let m = (-n) as nat;
        lemma_nat_to_text_digits(m);
        lemma_digits_value_of_text(m);
        let s = int_to_text(n);
        assert(s.subrange(1, s.len() as int) =~= nat_to_text(m));
    } else {
        lemma_parse_unsigned_of_text(n as nat);
        lemma_nat_to_text_digits(n as nat);
        let s = nat_to_text(n as nat);
    }
}

/// The value of the digit `c`, if it is one.
fn digit_of(c: char) -> (r: Option<u8>)
    ensures
        match r {
            Some(d) => is_digit(c) && d as nat == digit_value(c),
            None => !is_digit(c),
        },
{
    if '0' <= c && c <= '9' {
        Some((c as u32 - '0' as u32) as u8)
    } else {
        None
    }
}

/// Reads the digits of `v` from position `start` on, as long as the number
/// stays at most `max`.
fn digits_at_most(v: &Vec<char>, start: usize, max: u64) -> (r: Option<u64>)
    requires
        start <= v@.len(),
    ensures
        ({
            let body = v@.subrange(start as int, v@.len() as int);
            r == (if body.len() > 0 && all_digits(body) && digits_value(body) <= max {
                Some(digits_value(body) as u64)
            } else {
                None
            })
        }),
{
    let ghost body = v@.subrange(start as int, v@.len() as int);
    if start == v.len() {
        return None;
    }
    let mut acc: u64 = 0;
    let mut i: usize = start;
    while i < v.len()
        invariant
            start <= i <= v@.len(),
            body == v@.subrange(start as int, v@.len() as int),
            all_digits(body.take(i - start)),
            acc as nat == digits_value(body.take(i - start)),
            acc <= max,
        decreases v@.len() - i,
    {
        let ghost k = i - start;
        assert(body.take(k + 1).drop_last() =~= body.take(k));
        match digit_of(v[i]) {
            None => {
                assert(!is_digit(body[k]));
                return None;
            },
            Some(d) => {
                let next: u128 = acc as u128 * 10 + d as u128;
                if next > max as u128 {
                    proof {
                        lemma_digits_value_prefix(body, k + 1);
                    }
                    return None;
                }
                acc = next as u64;
            },
        }
        i += 1;
    }
    assert(body.take(i - start) =~= body);
    Some(acc)
}

/// Reads an unsigned decimal number of at most `max` from `s`.
pub fn parse_up_to(s: &str, max: u64) -> (r: Option<u64>)
    ensures
        match r {
            Some(n) => parse_at_most(s@, max as nat) == Some(n as nat),
            None => parse_at_most(s@, max as nat) is None,
        },
{
    let v = chars_of(s);
    let start: usize = if v.len() > 0 && v[0] == '+' {
        1
    } else {
        0
    };
    proof {
        if start == 0 {
            assert(v@.subrange(0, v@.len() as int) =~= v@);
        }
    }
    digits_at_most(&v, start, max)
}

/// Reads a signed decimal number that fits in 64 bits from `s`.
pub fn parse_i64(s: &str) -> (r: Option<i64>)
    ensures
        match r {
            Some(n) => parse_i64_spec(s@) == Some(n as int),
            None => parse_i64_spec(s@) is None,
        },
{
    let v = chars_of(s);
    if v.len() > 0 && v[0] == '-' {
        match digits_at_most(&v, 1, 0x8000_0000_0000_0000u64) {
            Some(m) => {
                if m == 0x8000_0000_0000_0000u64 {
                    Some(i64::MIN)
                } else {
                    Some(-(m as i64))
                }
            },
            None => None,
        }
    } else {
        let start: usize = if v.len() > 0 && v[0] == '+' {
            1
        } else {
            0
        };
        proof {
            if start == 0 {
                assert(v@.subrange(0, v@.len() as int) =~= v@);
            }
        }
        match digits_at_most(&v, start, 0x7fff_ffff_ffff_ffffu64) {
            Some(m) => Some(m as i64),
            None => None,
        }
    }
}

/// The text of one decimal digit.
fn digit_text(d: u8) -> (r: &'static str)
    requires
        d < 10,
    ensures
        r@ == seq![digit_char(d as nat)],
{
    proof {
        reveal_strlit("0");
        reveal_strlit("1");
        reveal_strlit("2");
        reveal_strlit("3");
        reveal_strlit("4");
        reveal_strlit("5");
        reveal_strlit("6");
        reveal_strlit("7");
        reveal_strlit("8");
        reveal_strlit("9");
    }
    let r = match d {
        0 => "0",
        1 => "1",
        2 => "2",
        3 => "3",
        4 => "4",
        5 => "5",
        6 => "6",
        7 => "7",
        8 => "8",
        _ => "9",
    };
    r
}

/// Appends the decimal digits of `n` to `out`.
fn push_decimal(out: &mut String, n: u128)
    ensures
        final(out)@ == old(out)@ + nat_to_text(n as nat),
    decreases n,
{
    if n >= 10 {
        push_decimal(out, n / 10);
    }
    let d: u8 = (n % 10) as u8;
    out.append(digit_text(d));
}

/// The decimal form of an unsigned number.
pub fn unsigned_to_string(n: u128) -> (r: String)
    ensures
        r@ == nat_to_text(n as nat),
{
    let mut out = String::new();
    push_decimal(&mut out, n);
    out
}

/// The decimal form of a signed number.
pub fn signed_to_string(n: i128) -> (r: String)
    ensures
        r@ == int_to_text(n as int),
{
    if n < 0 {
        let m: u128 = (-(n + 1)) as u128 + 1;
        let mut out = String::from_str("-");
        proof {
            reveal_strlit("-");
        }
        push_decimal(&mut out, m);
        out
    } else {
        unsigned_to_string(n as u128)
    }
}

} // verus!
