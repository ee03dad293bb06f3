//! What the bytes of numbers in columns mean.

use vstd::arithmetic::power::pow;
use vstd::prelude::*;
use vstd::utf8::{encode_utf8, encode_utf8_decode_utf8, encode_utf8_valid_utf8, valid_utf8};

use crate::db::types::pg_numeric_u128::{
    digits_of, groups, groups_value, integer_digits, is_numeric, lemma_be16_holds,
    lemma_groups_hold_the_value, lemma_numeric_bytes_at, lemma_u128_has_few_groups,
    numeric_bytes, numeric_value, signed_groups,
};
use crate::db::types::pg_text_u128::{text_value, PgTextError};
use crate::db::types::wire::{be16, u16_at};
use crate::decimal::parsed;

verus! {

/// The two bytes at a place, the most significant first.
pub open spec fn two_bytes(raw: Seq<u8>, at: int) -> int {
    256 * raw[at] + raw[at + 1]
}

/// The value of the first digits of a `numeric`: each digit takes two bytes after the eight
/// of the header, and counts 10000 times as much as the next.
pub open spec fn leading_value(raw: Seq<u8>, count: nat) -> int
    decreases count,
{
    if count == 0 {
        0
    } else {
        10000 * leading_value(raw, (count - 1) as nat) + two_bytes(raw, 8 + 2 * (count - 1))
    }
}

/// Whether bytes hold a positive number as a `numeric`: a header, which holds the number of
/// digits, the weight of the first one, one less, no sign and no scale, and then the digits,
/// each below 10000 and the first not zero, whose value is the number.
pub open spec fn holds_number(raw: Seq<u8>, n: int) -> bool {
    let count = two_bytes(raw, 0);
    &&& count >= 1
    &&& raw.len() == 8 + 2 * count
    &&& two_bytes(raw, 2) == count - 1
    &&& two_bytes(raw, 4) == 0
    &&& two_bytes(raw, 6) == 0
    &&& forall|i: int| 0 <= i < count ==> 0 <= #[trigger] two_bytes(raw, 8 + 2 * i) < 10000
    &&& two_bytes(raw, 8) != 0
    &&& leading_value(raw, count as nat) == n
}

/// The bytes of a positive number below 2^128 hold that number.
pub proof fn numeric_bytes_hold_the_number(value: u128)
    requires
        value > 0,
    ensures
        holds_number(numeric_bytes(value as int), value as int),
{
    lemma_u128_has_few_groups(value);
    numeric_bytes_hold_any_number(value as nat);
}

/// The bytes of a positive number of at most 65535 digits hold that number.
pub proof fn numeric_bytes_hold_any_number(n: nat)
    requires
        n > 0,
        groups(n).len() <= u16::MAX,
    ensures
        holds_number(numeric_bytes(n as int), n as int),
{
    let raw = numeric_bytes(n as int);
    let digits = signed_groups(n as int);
    let count = digits.len() as int;
    lemma_groups_hold_the_value(n);
    lemma_first_group(n);
    assert(count == groups(n).len());
    lemma_numeric_bytes_at(n as int, 0);
    lemma_be16_holds(count);
    lemma_be16_holds(count - 1);
    lemma_be16_holds(0);
    assert forall|i: int| 0 <= i < count implies #[trigger] two_bytes(raw, 8 + 2 * i)
        == groups(n)[i] by {
        lemma_numeric_bytes_at(n as int, i);
        assert(digits[i] == groups(n)[i]);
        assert(groups(n)[i] < 10000);
        lemma_be16_holds(digits[i]);
    }
    assert(two_bytes(raw, 8 + 2 * 0int) == groups(n)[0]);
    assert forall|i: int| 0 <= i < count implies 0 <= #[trigger] two_bytes(raw, 8 + 2 * i)
        < 10000 by {
        assert(groups(n)[i] < 10000);
    }
    lemma_leading_value(raw, groups(n), count as nat);
    assert(groups(n).take(count) =~= groups(n));
}

/// The bytes of a negative number are those of the positive one, with each digit in two's
/// complement.
pub proof fn negative_digits_are_complements(n: nat, i: int)
    requires
        n > 0,
        groups(n).len() <= u16::MAX,
        0 <= i < two_bytes(numeric_bytes(n as int), 0),
    ensures
        ({
            let raw = numeric_bytes(n as int);
            let negative = numeric_bytes(-(n as int));
            &&& negative.len() == raw.len()
            &&& negative.take(8) == raw.take(8)
            &&& (two_bytes(raw, 8 + 2 * i) + two_bytes(negative, 8 + 2 * i)) % 65536 == 0
        }),
{
    let raw = numeric_bytes(n as int);
    let negative = numeric_bytes(-(n as int));
    let digits = signed_groups(n as int);
    let opposite = signed_groups(-(n as int));
    lemma_groups_hold_the_value(n);
    assert(digits.len() == groups(n).len());
    assert(opposite.len() == groups(n).len());
    let count = digits.len() as int;
    lemma_numeric_bytes_at(n as int, i);
    lemma_numeric_bytes_at(-(n as int), i);
    lemma_be16_holds(count);
    assert(two_bytes(raw, 0) == count);
    assert(negative.take(8) =~= raw.take(8));
    assert(groups(n)[i] < 10000);
    assert(opposite[i] == -digits[i]);
    lemma_complement(digits[i]);
}

proof fn lemma_complement(d: int)
    requires
        0 <= d < 10000,
    ensures
        256 * be16(d)[0] + be16(d)[1] == d,
        256 * be16(-d)[0] + be16(-d)[1] == if d == 0 {
            0
        } else {
            65536 - d
        },
{
    lemma_be16_holds(d);
    if d > 0 {
        assert((-d) % 65536 == 65536 - d);
        assert((-d) % 256 == (65536 - d) % 256);
    }
}

proof fn lemma_first_group(n: nat)
    requires
        n > 0,
    ensures
        groups(n).len() > 0,
        groups(n)[0] > 0,
    decreases n,
{
    if n >= 10000 {
        lemma_first_group(n / 10000);
    } else {
        assert(groups(n / 10000) == Seq::<nat>::empty());
    }
}

proof fn lemma_leading_value(raw: Seq<u8>, digits: Seq<nat>, count: nat)
    requires
        count <= digits.len(),
        forall|i: int|
            0 <= i < digits.len() ==> #[trigger] two_bytes(raw, 8 + 2 * i) == digits[i],
    ensures
        leading_value(raw, count) == groups_value(digits.take(count as int)),
    decreases count,
{
    if count > 0 {
        lemma_leading_value(raw, digits, (count - 1) as nat);
        assert(digits.take(count as int).drop_last() =~= digits.take(count - 1));
        assert(two_bytes(raw, 8 + 2 * (count - 1)) == digits[count - 1]);
    } else {
        assert(digits.take(0) =~= Seq::<nat>::empty());
    }
}

/// Bytes are a `numeric` exactly where they hold a header and as many digits as the header
/// says. What is read of it are the digits before the decimal point, as many as its weight,
/// a signed number, and one more. Where there are fewer digits than that, the missing ones
/// count four times in the exponent.
pub proof fn numeric_is_read_up_to_the_decimal_point(raw: Seq<u8>)
    ensures
        is_numeric(raw) <==> raw.len() >= 8 && raw.len() >= 8 + 2 * two_bytes(raw, 0),
        is_numeric(raw) ==> {
            let count = two_bytes(raw, 0);
            let unsigned = two_bytes(raw, 2);
            let before = if unsigned < 32768 {
                unsigned + 1
            } else {
                unsigned - 65535
            };
            &&& before <= 0 ==> numeric_value(raw) == 0
            &&& 0 < before <= count ==> numeric_value(raw) == leading_value(raw, before as nat)
            &&& count < before ==> numeric_value(raw) == leading_value(raw, count as nat) * pow(
                10000,
                (4 * (before - count)) as nat,
            )
        },
{
    if is_numeric(raw) {
        let digits = digits_of(raw);
        let count = two_bytes(raw, 0);
        assert forall|i: int| 0 <= i < digits.len() implies #[trigger] two_bytes(raw, 8 + 2 * i)
            == digits[i] by {}
        lemma_leading_value(raw, digits, count as nat);
        assert(digits.take(count) =~= digits);
        let before = integer_digits(raw);
        if 0 < before <= count {
            lemma_leading_value(raw, digits, before as nat);
        }
        if count < before {
            let exponent = (4 * (before - count)) as nat;
            vstd::arithmetic::power::lemma_pow_positive(10000, exponent);
            let v = groups_value(digits) as int;
            let p = pow(10000, exponent);
            assert(v * p >= 0) by (nonlinear_arith)
                requires
                    v >= 0,
                    p >= 1,
            ;
        }
    }
}

/// Sign and scale are not looked at: bytes that differ in them alone are read as the same
/// number.
pub proof fn sign_and_scale_make_no_difference(a: Seq<u8>, b: Seq<u8>)
    requires
        is_numeric(a),
        a.len() == b.len(),
        forall|i: int| 0 <= i < a.len() && !(4 <= i < 8) ==> #[trigger] a[i] == b[i],
    ensures
        is_numeric(b),
        numeric_value(a) == numeric_value(b),
{
    assert(a[0] == b[0] && a[1] == b[1] && a[2] == b[2] && a[3] == b[3]);
    assert forall|i: int|
        0 <= i < digits_of(a).len() implies digits_of(a)[i] == #[trigger] digits_of(b)[i] by {
        assert(a[8 + 2 * i] == b[8 + 2 * i]);
        assert(a[8 + 2 * i + 1] == b[8 + 2 * i + 1]);
    }
    assert(digits_of(a) =~= digits_of(b));
}

/// A text column is read as the number that its text denotes, and where it is no text or
/// its text no number, the error says which.
pub proof fn text_is_read_as_its_number(raw: Seq<u8>, text: Seq<char>)
    ensures
        text_value(raw) == Err::<u128, PgTextError>(PgTextError::Utf8) <==> !valid_utf8(raw),
        parsed(text, u128::MAX as nat) matches Some(value) ==> text_value(encode_utf8(text))
            == Ok::<u128, PgTextError>(value as u128),
        parsed(text, u128::MAX as nat) is None ==> text_value(encode_utf8(text)) == Err::<
            u128,
            PgTextError,
        >(PgTextError::ParseInt),
{
    encode_utf8_valid_utf8(text);
    encode_utf8_decode_utf8(text);
}

/// A 16-bit number is read from the byte at its place and the one after it, the first
/// counting 256 times as much.
pub proof fn number_at_a_place_takes_two_bytes(raw: Seq<u8>, at: int)
    ensures
        u16_at(raw, at) == 256 * raw[at] + raw[at + 1],
{
}

} // verus!
