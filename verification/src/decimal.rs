//! Whole numbers written in decimal digits.

use vstd::prelude::*;
use crate::classes::is_ascii_digit;
use crate::text::chars_of;

verus! {

/// The number that the digit `c` stands for.
pub open spec fn digit_value(c: char) -> nat {
    if is_ascii_digit(c) {
        (c as int - '0' as int) as nat
    } else {
        0
    }
}

/// The digit that stands for `d`, where `d` is less than ten.
pub open spec fn digit_char(d: nat) -> char {
    ('0' as nat + d) as char
}

/// `s` is a numeral: one or more of the digits `0` to `9`.
pub open spec fn is_numeral(s: Seq<char>) -> bool {
    s.len() > 0 && forall|i: int| 0 <= i < s.len() ==> is_ascii_digit(#[trigger] s[i])
}

/// The number that the first `n` digits of `s` stand for, read in base
/// ten.
pub open spec fn value_of_first(s: Seq<char>, n: nat) -> nat
    decreases n,
{
    if n == 0 {
        0
    } else {
        10 * value_of_first(s, (n - 1) as nat) + digit_value(s[n - 1])
    }
}

/// The number that the numeral `s` stands for.
pub open spec fn numeral_value(s: Seq<char>) -> nat {
    value_of_first(s, s.len())
}

/// The number that `s` stands for, where `s` is a numeral and the number
/// fits a 32-bit signed integer.
pub open spec fn number(s: Seq<char>) -> Option<int> {
    if is_numeral(s) && numeral_value(s) <= i32::MAX {
        Some(numeral_value(s) as int)
    } else {
        None
    }
}

/// The numeral that stands for `n`, without leading zeros.
pub open spec fn numeral(n: nat) -> Seq<char>
    decreases n,
{
    if n < 10 {
        seq![digit_char(n)]
    } else {
        numeral(n / 10).push(digit_char(n % 10))
    }
}

/// The whole number `n` written in base ten, with a minus sign in front
/// where it is negative.
pub open spec fn decimal(n: int) -> Seq<char> {
    if n < 0 {
        seq!['-'] + numeral((-n) as nat)
    } else {
        numeral(n as nat)
    }
}

/// Reads `s` as a number: `Some` where `s` is made of the digits `0` to `9`
/// alone and its value fits, `None` otherwise.
pub fn parse_number(s: &str) -> (result: Option<i32>)
    ensures
        match result {
            Some(n) => number(s@) == Some(n as int),
            None => number(s@) is None,
        },
{
    let chars = chars_of(s);
    if chars.len() == 0 {
        return None;
    }
    let mut value: i64 = 0;
    let mut i: usize = 0;
    while i < chars.len()
        invariant
            chars@ == s@,
            0 <= i <= chars.len(),
            forall|j: int| 0 <= j < i ==> is_ascii_digit(#[trigger] chars@[j]),
            value == value_of_first(chars@, i as nat),
            0 <= value <= i32::MAX,
        decreases chars.len() - i,
    {
        let c = chars[i];
        if !('0' <= c && c <= '9') {
            return None;
        }
        let digit: i64 = (c as u32 - '0' as u32) as i64;
        value = value * 10 + digit;
        if value > i32::MAX as i64 {
            proof {
                lemma_value_grows(chars@, (i + 1) as nat, chars@.len());
            }
            return None;
        }
        i += 1;
    }
    Some(value as i32)
}

/// Writes the digits of `n` from the last to the first.
fn digits_backwards(n: u32) -> (digits: Vec<char>)
    ensures
        digits@.reverse() == numeral(n as nat),
{
    let mut digits: Vec<char> = Vec::new();
    let mut rest: u32 = n;
    digits.push(((rest % 10) as u8 + '0' as u8) as char);
    rest = rest / 10;
    assert(digits@.reverse() =~= seq![digit_char((n % 10) as nat)]);
    while rest > 0
        invariant
            digits@.len() > 0,
            numeral(n as nat) == if rest == 0 {
                digits@.reverse()
            } else {
                numeral(rest as nat) + digits@.reverse()
            },
        decreases rest,
    {
        let ghost before = digits@;
        let d = ((rest % 10) as u8 + '0' as u8) as char;
        digits.push(d);
        assert(digits@.reverse() =~= seq![d] + before.reverse());
        assert(numeral(rest as nat) + before.reverse() =~= if rest < 10 {
            digits@.reverse()
        } else {
            numeral((rest / 10) as nat) + digits@.reverse()
        });
        rest = rest / 10;
    }
    digits
}

/// Writes `n` in base ten.
pub fn decimal_text(n: i32) -> (text: String)
    ensures
        text@ == decimal(n as int),
{
    let mut text = String::new();
    let magnitude: u32 = if n < 0 {
        text.push('-');
        (-(n as i64)) as u32
    } else {
        n as u32
    };
    let digits = digits_backwards(magnitude);
    let ghost sign = text@;
    let mut i: usize = digits.len();
    while i > 0
        invariant
            0 <= i <= digits.len(),
            text@ == sign + digits@.reverse().take(digits.len() - i),
        decreases i,
    {
        i -= 1;
        text.push(digits[i]);
        assert(digits@.reverse().take(digits.len() - i) =~= digits@.reverse().take(
            digits.len() - i - 1,
        ).push(digits@[i as int]));
    }
    assert(digits@.reverse().take(digits.len() as int) =~= digits@.reverse());
    text
}

/// More digits stand for at least as much as fewer.
pub proof fn lemma_value_grows(s: Seq<char>, k: nat, n: nat)
    requires
        k <= n,
    ensures
        value_of_first(s, k) <= value_of_first(s, n),
    decreases n,
{
    if k < n {
        lemma_value_grows(s, k, (n - 1) as nat);
    }
}

} // verus!
