//! Numbers written out in decimal.

use vstd::prelude::*;
use vstd::string::StringExecFns;

verus! {

/// The character of one decimal digit.
pub open spec fn digit_char(digit: nat) -> char {
    if digit == 0 {
        '0'
    } else if digit == 1 {
        '1'
    } else if digit == 2 {
        '2'
    } else if digit == 3 {
        '3'
    } else if digit == 4 {
        '4'
    } else if digit == 5 {
        '5'
    } else if digit == 6 {
        '6'
    } else if digit == 7 {
        '7'
    } else if digit == 8 {
        '8'
    } else {
        '9'
    }
}

/// A number in decimal, without leading zeros.
pub open spec fn decimal_digits(n: nat) -> Seq<char>
    decreases n,
{
    if n < 10 {
        seq![digit_char(n)]
    } else {
        decimal_digits(n / 10).push(digit_char(n % 10))
    }
}

/// Two numbers that differ are written differently.
pub proof fn lemma_decimal_digits_differ(a: nat, b: nat)
    requires
        a != b,
    ensures
        decimal_digits(a) != decimal_digits(b),
    decreases a,
{
    lemma_decimal_digits_len(a);
    lemma_decimal_digits_len(b);
    if a >= 10 && b >= 10 {
        let head_a = decimal_digits(a / 10);
        let head_b = decimal_digits(b / 10);
        if decimal_digits(a) == decimal_digits(b) {
            assert(head_a.push(digit_char(a % 10)).drop_last() =~= head_a);
            assert(head_b.push(digit_char(b % 10)).drop_last() =~= head_b);
            assert(head_a.push(digit_char(a % 10)).last() == digit_char(a % 10));
            assert(head_b.push(digit_char(b % 10)).last() == digit_char(b % 10));
            assert(a % 10 == b % 10);
            if a / 10 != b / 10 {
                lemma_decimal_digits_differ(a / 10, b / 10);
            }
        }
    } else if a < 10 && b < 10 {
        assert(decimal_digits(a)[0] == digit_char(a));
        assert(decimal_digits(b)[0] == digit_char(b));
    }
}

/// A number below ten is written with one digit, any other with more.
pub proof fn lemma_decimal_digits_len(n: nat)
    ensures
        decimal_digits(n).len() >= 1,
        n >= 10 ==> decimal_digits(n).len() >= 2,
    decreases n,
{
    if n >= 10 {
        lemma_decimal_digits_len(n / 10);
    }
}

/// Digits that were collected lowest first, read highest first.
pub open spec fn highest_first(digits: Seq<u8>) -> Seq<char> {
    Seq::new(digits.len(), |i: int| digit_char(digits[digits.len() - 1 - i] as nat))
}

/// The text of one decimal digit.
fn digit_text(digit: u8) -> (text: &'static str)
    requires
        digit < 10,
    ensures
        text@ == seq![digit_char(digit as nat)],
{
    proof {
        reveal_strlit("0");
        reveal_strlit("1");
        reveal_strlit("2");
        reveal_strlit("3");
        reveal_strlit("4");
        reveal_strlit("5");
        reveal_strlit("6");
        reveal_strlit("7");
        reveal_strlit("8");
        reveal_strlit("9");
    }
    let text = if digit == 0 {
        "0"
    } else if digit == 1 {
        "1"
    } else if digit == 2 {
        "2"
    } else if digit == 3 {
        "3"
    } else if digit == 4 {
        "4"
    } else if digit == 5 {
        "5"
    } else if digit == 6 {
        "6"
    } else if digit == 7 {
        "7"
    } else if digit == 8 {
        "8"
    } else {
        "9"
    };
    text
}

/// Appends `n` in decimal to `text`.
pub fn append_decimal(text: &mut String, n: u128)
    ensures
        final(text)@ == old(text)@ + decimal_digits(n as nat),
{
    let mut digits: Vec<u8> = Vec::new();
    let mut rest: u128 = n;
    while rest >= 10
        invariant
            decimal_digits(n as nat) == decimal_digits(rest as nat) + highest_first(digits@),
            forall|i: int| 0 <= i < digits.len() ==> digits[i] < 10,
        decreases rest,
    {
        let low = (rest % 10) as u8;
        digits.push(low);
        rest = rest / 10;
    }
    text.append(digit_text(rest as u8));
    let mut left: usize = digits.len();
    while left > 0
        invariant
            left <= digits.len(),
            forall|i: int| 0 <= i < digits.len() ==> digits[i] < 10,
            text@ == old(text)@ + decimal_digits(rest as nat) + highest_first(digits@).take(
                digits.len() - left,
            ),
        decreases left,
    {
        left = left - 1;
        text.append(digit_text(digits[left]));
    }
}

} // verus!
