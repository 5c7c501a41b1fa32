//! Decoding of decimal digit sequences.

use vstd::prelude::*;
use vstd::std_specs::iter::IteratorSpec;
use crate::error::{GameError, GameErrorView};

verus! {

broadcast use vstd::string::group_string_axioms;

/// Whether `c` is one of `'0'` to `'9'`.
pub open spec fn is_digit(c: char) -> bool {
    '0' <= c && c <= '9'
}

/// The value of a decimal digit.
pub open spec fn digit_value(c: char) -> nat
    recommends
        is_digit(c),
{
    (c as u32 - '0' as u32) as nat
}

/// Whether every character of `s` is a decimal digit.
pub open spec fn all_digits(s: Seq<char>) -> bool {
    forall|i: int| 0 <= i < s.len() ==> is_digit(#[trigger] s[i])
}

/// Whether `i` is the place of the first character of `s` that is no digit.
pub open spec fn is_first_non_digit(s: Seq<char>, i: int) -> bool {
    &&& 0 <= i < s.len()
    &&& !is_digit(s[i])
    &&& forall|j: int| 0 <= j < i ==> is_digit(#[trigger] s[j])
}

/// The place of the first character of `s` that is no digit, if there is one.
pub open spec fn first_non_digit(s: Seq<char>) -> int {
    choose|i: int| is_first_non_digit(s, i)
}

/// The number that a sequence of decimal digits stands for; the empty
/// sequence stands for zero.
pub open spec fn decimal_value(s: Seq<char>) -> nat
    decreases s.len(),
{
    if s.len() == 0 {
        0
    } else {
        10 * decimal_value(s.drop_last()) + digit_value(s.last())
    }
}

/// What a token stands for: its decimal value if it holds digits only, else
/// `InvalidDigit` with its first character that is no digit.
pub open spec fn number_of(s: Seq<char>) -> Result<nat, GameErrorView> {
    if all_digits(s) {
        Ok(decimal_value(s))
    } else {
        Err(GameErrorView::InvalidDigit(s[first_non_digit(s)]))
    }
}

/// A sequence has at most one first character that is no digit, and has one
/// unless all of it is digits.
pub proof fn lemma_first_non_digit(s: Seq<char>, i: int)
    requires
        is_first_non_digit(s, i),
    ensures
        !all_digits(s),
        first_non_digit(s) == i,
{
    let j = first_non_digit(s);
    assert(is_first_non_digit(s, j));
    if j < i {
        assert(is_digit(s[j]));
    } else if i < j {
        assert(is_digit(s[i]));
    }
}

/// The value of one decimal digit, or `InvalidDigit` for any other character.
pub fn ascii_to_number(chart: char) -> (r: Result<u8, GameError>)
    ensures
        is_digit(chart) ==> r == Ok::<u8, GameError>(digit_value(chart) as u8),
        !is_digit(chart) ==> r == Err::<u8, GameError>(GameError::InvalidDigit(chart)),
{
    if chart < '0' || chart > '9' {
        return Err(GameError::InvalidDigit(chart));
    }
    let byte: u8 = chart as u8;
    Ok(byte - 48)
}

/// Ten digits at most nine long stay below one thousand million.
pub proof fn lemma_decimal_value_bound(s: Seq<char>)
    requires
        all_digits(s),
    ensures
        s.len() <= 9 ==> decimal_value(s) < 1_000_000_000,
        s.len() <= 9 ==> decimal_value(s) <= usize::MAX,
{
    lemma_decimal_value_below_power(s);
    if s.len() <= 9 {
        lemma_power_of_ten_monotonic(s.len(), 9);
        assert(power_of_ten(9) == 1_000_000_000) by {
            reveal_with_fuel(power_of_ten, 10);
        }
    }
}

/// Ten to the `n`.
pub open spec fn power_of_ten(n: nat) -> nat
    decreases n,
{
    if n == 0 {
        1
    } else {
        10 * power_of_ten((n - 1) as nat)
    }
}

proof fn lemma_power_of_ten_monotonic(m: nat, n: nat)
    requires
        m <= n,
    ensures
        power_of_ten(m) <= power_of_ten(n),
    decreases n,
{
    if m < n {
        lemma_power_of_ten_monotonic(m, (n - 1) as nat);
    }
}

/// A sequence of `n` digits stands for a number below ten to the `n`.
pub proof fn lemma_decimal_value_below_power(s: Seq<char>)
    requires
        all_digits(s),
    ensures
        decimal_value(s) < power_of_ten(s.len()),
    decreases s.len(),
{
    if s.len() > 0 {
        assert(all_digits(s.drop_last())) by {
            assert forall|i: int| 0 <= i < s.drop_last().len() implies is_digit(
                #[trigger] s.drop_last()[i],
            ) by {
                assert(s.drop_last()[i] == s[i]);
            }
        }
        lemma_decimal_value_below_power(s.drop_last());
        assert(is_digit(s.last()));
        assert(digit_value(s.last()) <= 9);
    }
}

/// The number that `slice` stands for in base ten, by accumulating
/// `value * 10 + digit` from the left. A character outside `'0'..='9'` is
/// refused with the first such character; a number above `usize::MAX` is
/// refused as too large. The slice carries no sign and no whitespace.
pub fn slice_to_number(slice: &str) -> (r: Result<usize, GameError>)
    ensures
        match number_of(slice@) {
            Ok(n) => if n <= usize::MAX {
                r == Ok::<usize, GameError>(n as usize)
            } else {
                r == Err::<usize, GameError>(GameError::NumberTooLarge)
            },
            Err(e) => r matches Err(err) && err@ == e,
        },
        all_digits(slice@) && slice@.len() <= 9 ==> r == Ok::<usize, GameError>(
            decimal_value(slice@) as usize,
        ),
{
    let mut n: usize = 0;
    let mut too_large = false;
    for c in it: slice.chars()
        invariant
            it.seq() == slice@,
            forall|j: int| 0 <= j < it.index() ==> is_digit(#[trigger] slice@[j]),
            !too_large ==> n == decimal_value(slice@.take(it.index() as int)),
            too_large ==> decimal_value(slice@.take(it.index() as int)) > usize::MAX,
    {
        let ghost i = it.index() as int;
        proof {
            assert(slice@.take(i + 1).drop_last() == slice@.take(i));
            assert(slice@.take(i + 1).last() == c);
        }
        match ascii_to_number(c) {
            Err(e) => {
                proof {
                    lemma_first_non_digit(slice@, i);
                }
                return Err(e);
            },
            Ok(d) => {
                if !too_large {
                    match n.checked_mul(10) {
                        None => {
                            too_large = true;
                        },
                        Some(m) => {
                            match m.checked_add(d as usize) {
                                None => {
                                    too_large = true;
                                },
                                Some(v) => {
                                    n = v;
                                },
                            }
                        },
                    }
                }
            },
        }
    }
    proof {
        assert(slice@.take(slice@.len() as int) == slice@);
        lemma_decimal_value_bound(slice@);
    }
    if too_large {
        Err(GameError::NumberTooLarge)
    } else {
        Ok(n)
    }
}

} // verus!
