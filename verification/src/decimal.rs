//! Whole numbers in decimal notation.

use vstd::prelude::*;
use crate::text::string_of;

verus! {

/// The character of the digit `d`.
pub open spec fn digit(d: int) -> char {
    if d == 0 {
        '0'
    } else if d == 1 {
        '1'
    } else if d == 2 {
        '2'
    } else if d == 3 {
        '3'
    } else if d == 4 {
        '4'
    } else if d == 5 {
        '5'
    } else if d == 6 {
        '6'
    } else if d == 7 {
        '7'
    } else if d == 8 {
        '8'
    } else {
        '9'
    }
}

/// The digits of `n`, without leading zeros; `0` for zero.
pub open spec fn natural_text(n: nat) -> Seq<char>
    decreases n,
{
    if n < 10 {
        seq![digit(n as int)]
    } else {
        natural_text(n / 10).push(digit((n % 10) as int))
    }
}

/// The decimal notation of `n`: a minus sign where it is negative, then the
/// digits of its magnitude.
pub open spec fn decimal_text(n: int) -> Seq<char> {
    if n < 0 {
        seq!['-'] + natural_text((-n) as nat)
    } else {
        natural_text(n as nat)
    }
}

/// The character of the digit `d`.
pub fn digit_char(d: u8) -> (c: char)
    requires
        d < 10,
    ensures
        c == digit(d as int),
{
    if d == 0 {
        '0'
    } else if d == 1 {
        '1'
    } else if d == 2 {
        '2'
    } else if d == 3 {
        '3'
    } else if d == 4 {
        '4'
    } else if d == 5 {
        '5'
    } else if d == 6 {
        '6'
    } else if d == 7 {
        '7'
    } else if d == 8 {
        '8'
    } else {
        '9'
    }
}

/// The decimal notation of `n`.
pub fn decimal(n: i64) -> (out: String)
    ensures
        out@ == decimal_text(n as int),
{
    let wide: i128 = n as i128;
    let magnitude: i128 = if wide < 0 {
        -wide
    } else {
        wide
    };
    // The digits from the last to the first.
    let mut reversed: Vec<char> = Vec::new();
    let mut rest: i128 = magnitude;
    reversed.push(digit_char((rest % 10) as u8));
    rest = rest / 10;
    while rest > 0
        invariant
            0 <= rest <= magnitude,
            reversed@.len() > 0,
            natural_text(magnitude as nat) == if rest > 0 {
                natural_text(rest as nat) + reversed@.reverse()
            } else {
                reversed@.reverse()
            },
        decreases rest,
    {
        let ghost before = reversed@;
        reversed.push(digit_char((rest % 10) as u8));
        proof {
            let d = digit((rest % 10) as int);
            assert(reversed@.reverse() =~= seq![d] + before.reverse());
            if rest >= 10 {
                assert(natural_text(rest as nat) == natural_text((rest / 10) as nat).push(d));
                assert(natural_text(rest as nat) + before.reverse() =~= natural_text(
                    (rest / 10) as nat,
                ) + reversed@.reverse());
            } else {
                assert(natural_text(rest as nat) == seq![d]);
            }
        }
        rest = rest / 10;
    }
    let mut digits: Vec<char> = Vec::new();
    if wide < 0 {
        digits.push('-');
    }
    let ghost sign = digits@;
    let mut i: usize = reversed.len();
    while i > 0
        invariant
            i <= reversed.len(),
            digits@ == sign + reversed@.reverse().take(reversed.len() - i),
        decreases i,
    {
        i -= 1;
        digits.push(reversed[i]);
        assert(reversed@.reverse().take(reversed.len() - i) =~= reversed@.reverse().take(
            reversed.len() - i - 1,
        ).push(reversed@[i as int]));
    }
    assert(reversed@.reverse().take(reversed.len() as int) =~= reversed@.reverse());
    string_of(&digits)
}

} // verus!
