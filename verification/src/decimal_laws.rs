//! How numbers are read and written in decimal notation.

use vstd::prelude::*;

use crate::decimal::{decimal, decimal_has_its_value, digits_value, is_digit, is_number, parsed};

verus! {

/// A text of one digit is read as the value of the digit.
pub proof fn one_digit_is_its_value(digit: char, max: nat)
    requires
        '0' <= digit <= '9',
        9 <= max,
    ensures
        parsed(seq![digit], max) == Some((digit as nat - '0' as nat) as nat),
{
    let text = seq![digit];
    assert(text.drop_last() =~= Seq::<char>::empty());
    assert(digits_value(text.drop_last()) == 0);
    assert(is_digit(text[0]));
}

/// One more digit at the end of a number makes it ten times as large, and adds the value
/// of the digit; where that is too large, there is no number.
pub proof fn one_more_digit_counts_ten_times(text: Seq<char>, digit: char, value: nat, max: nat)
    requires
        '0' <= digit <= '9',
        parsed(text, max) == Some(value),
    ensures
        ({
            let longer = 10 * value + (digit as int - '0' as int);
            parsed(text.push(digit), max) == if longer <= max {
                Some(longer as nat)
            } else {
                None
            }
        }),
{
    let longer = text.push(digit);
    if text[0] == '+' {
        let digits = text.skip(1);
        assert(longer.skip(1) =~= digits.push(digit));
        lemma_push(digits, digit);
    } else {
        lemma_push(text, digit);
    }
}

proof fn lemma_push(digits: Seq<char>, digit: char)
    requires
        is_number(digits),
        is_digit(digit),
    ensures
        is_number(digits.push(digit)),
        digits_value(digits.push(digit)) == 10 * digits_value(digits) + (digit as int - 48),
{
    let longer = digits.push(digit);
    assert(longer.drop_last() =~= digits);
    assert forall|i: int| 0 <= i < longer.len() implies is_digit(#[trigger] longer[i]) by {
        if i < digits.len() {
            assert(is_digit(digits[i]));
        }
    }
}

/// A number that is too large stays too large with one more digit.
pub proof fn one_more_digit_makes_no_number_smaller(text: Seq<char>, digit: char, max: nat)
    requires
        '0' <= digit <= '9',
        text.len() > 0,
        '0' <= text[0] <= '9',
        parsed(text, max) is None,
    ensures
        parsed(text.push(digit), max) is None,
{
    let longer = text.push(digit);
    assert(longer[0] == text[0]);
    if is_number(longer) {
        assert forall|i: int| 0 <= i < text.len() implies is_digit(#[trigger] text[i]) by {
            assert(is_digit(longer[i]));
        }
        lemma_push(text, digit);
    }
}

/// A plus sign before a digit makes no difference.
pub proof fn leading_plus_makes_no_difference(text: Seq<char>, max: nat)
    requires
        text.len() > 0,
        text[0] != '+',
    ensures
        parsed(seq!['+'] + text, max) == parsed(text, max),
{
    let signed = seq!['+'] + text;
    assert(signed.skip(1) =~= text);
    assert(signed[0] == '+');
}

/// A text with anything but digits in it, apart from a plus sign at its start, is no
/// number, and neither is the empty text or a plus sign alone.
pub proof fn only_digits_are_numbers(text: Seq<char>, max: nat, i: int)
    requires
        0 <= i < text.len(),
        !('0' <= text[i] <= '9'),
        i > 0 || text[0] != '+',
    ensures
        parsed(text, max) is None,
        parsed(Seq::empty(), max) is None,
        parsed(seq!['+'], max) is None,
{
    assert(!is_digit(text[i]));
    assert(seq!['+'].skip(1) =~= Seq::<char>::empty());
    if text[0] == '+' {
        assert(text.skip(1)[i - 1] == text[i]);
        assert(!is_digit(text.skip(1)[i - 1]));
    }
}

/// A larger type reads what a smaller one reads, and a smaller one reads what it can hold.
pub proof fn size_matters_only_for_what_fits(text: Seq<char>, max: nat, larger: nat)
    requires
        max <= larger,
    ensures
        parsed(text, max) == match parsed(text, larger) {
            Some(value) => if value <= max {
                Some(value)
            } else {
                None
            },
            None => None,
        },
{
}

/// The notation of a number is made of digits, and starts with a zero only where it is
/// the number zero, whose notation is that digit.
pub proof fn notation_has_no_leading_zero(n: nat)
    ensures
        decimal(n).len() > 0,
        forall|i: int| 0 <= i < decimal(n).len() ==> '0' <= #[trigger] decimal(n)[i] <= '9',
        decimal(n)[0] == '0' <==> n == 0,
        decimal(0) == seq!['0'],
    decreases n,
{
    decimal_has_its_value(n);
    assert forall|i: int| 0 <= i < decimal(n).len() implies '0' <= #[trigger] decimal(n)[i]
        <= '9' by {
        assert(is_digit(decimal(n)[i]));
    }
    if n >= 10 {
        notation_has_no_leading_zero(n / 10);
        assert(decimal(n)[0] == decimal(n / 10)[0]);
    }
    assert(decimal(0) =~= seq!['0']);
}

} // verus!
