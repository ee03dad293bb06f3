//! Numbers below 2^128 in a column of type `numeric`.
//!
//! On the wire a `numeric` is a header of four 16-bit fields, the number of
//! digits, the weight of the first digit, the sign and the scale, and then the
//! digits in base 10000, the most significant first.

use bytes::BytesMut;
use vstd::arithmetic::power::pow;
use vstd::prelude::*;

use crate::db::types::big_integer::{
    magnitude, truncated_quotient, truncated_remainder, BigInteger,
};
use crate::db::types::pg_text_u128::same_text;
use crate::db::types::wire::{
    be16, buffer_bytes, put_i16, put_u16, read_u16, reserve, u16_at, ByteCursor, IsNull,
};
use crate::decimal::{decimal_has_its_value, to_decimal};

verus! {

/// A number below 2^128 in a column of type `numeric`.
#[derive(Debug, Clone, Copy, PartialEq, Eq, Structural)]
pub struct PgNumericU128(pub u128);

/// The digits of a number in base 10000, the most significant first. Zero has
/// none.
pub open spec fn groups(n: nat) -> Seq<nat>
    decreases n,
{
    if n == 0 {
        Seq::empty()
    } else {
        groups(n / 10000).push(n % 10000)
    }
}

/// The digits of a signed number: those of its magnitude, with its sign.
pub open spec fn signed_groups(n: int) -> Seq<int> {
    groups(magnitude(n)).map_values(
        |digit: nat|
            if n < 0 {
                -(digit as int)
            } else {
                digit as int
            },
    )
}

/// The bytes of 16-bit numbers one after the other.
pub open spec fn be16_all(digits: Seq<int>) -> Seq<u8>
    decreases digits.len(),
{
    if digits.len() == 0 {
        Seq::empty()
    } else {
        be16_all(digits.drop_last()) + be16(digits.last())
    }
}

/// A number as a `numeric`, marked as positive and without decimals.
pub open spec fn numeric_bytes(n: int) -> Seq<u8> {
    let digits = signed_groups(n);
    be16(digits.len() as int) + be16(digits.len() - 1) + be16(0) + be16(0) + be16_all(digits)
}

proof fn lemma_signed_groups_step(n: int)
    requires
        n != 0,
    ensures
        signed_groups(n) == signed_groups(truncated_quotient(n, 10000)).push(
            truncated_remainder(n, 10000),
        ),
        magnitude(truncated_quotient(n, 10000)) < magnitude(n),
        -10000 < truncated_remainder(n, 10000) < 10000,
{
    let q = truncated_quotient(n, 10000);
    assert(magnitude(q) == magnitude(n) / 10000);
    assert(signed_groups(n) =~= signed_groups(q).push(truncated_remainder(n, 10000)));
}

proof fn lemma_be16_len(digits: Seq<int>)
    ensures
        be16_all(digits).len() == 2 * digits.len(),
    decreases digits.len(),
{
    if digits.len() > 0 {
        lemma_be16_len(digits.drop_last());
    }
}

proof fn lemma_weight_bytes(n: usize)
    requires
        0 < n <= 65535,
    ensures
        be16((n - 1) as usize as i16 as int) == be16(n - 1),
{
    let w = (n - 1) as usize;
    let t = w as i16;
    assert(w <= 65534 ==> (t == w || t == w - 65536)) by (bit_vector)
        requires
            t == w as i16,
    ;
}

/// Appends a number other than zero as a `numeric`.
pub fn write_big_uint_to_pg_numeric_bytes(num: BigInteger, out: &mut BytesMut)
    requires
        num@ != 0,
        signed_groups(num@).len() <= u16::MAX,
        buffer_bytes(*old(out)).len() + numeric_bytes(num@).len() <= isize::MAX,
    ensures
        buffer_bytes(*final(out)) == buffer_bytes(*old(out)) + numeric_bytes(num@),
{
    let ghost value = num@;
    let ghost all = signed_groups(value);
    let mut n = num;
    let base = BigInteger::from_u16(10000);
    let mut digits: Vec<i16> = Vec::new();
    assert(all =~= all + Seq::<int>::empty());
    while !n.is_zero()
        invariant
            base@ == 10000,
            all.len() <= u16::MAX,
            all == signed_groups(n@) + digits@.reverse().map_values(|d: i16| d as int),
        decreases magnitude(n@),
    {
        proof {
            lemma_signed_groups_step(n@);
        }
        let ghost before = digits@;
        let remainder: i16 = match n.rem(&base).to_i16() {
            Some(remainder) => remainder,
            None => {
                // A remainder is less than the base.
                assert(false);
                0
            },
        };
        n.div_assign(&base);
        digits.push(remainder);
        assert(digits@.reverse() =~= seq![remainder] + before.reverse());
        assert(all =~= signed_groups(n@) + digits@.reverse().map_values(|d: i16| d as int));
    }
    assert(all =~= digits@.reverse().map_values(|d: i16| d as int));

    let num_digits: usize = digits.len();
    proof {
        lemma_be16_len(all);
        lemma_signed_groups_step(value);
        lemma_weight_bytes(num_digits);
    }
    reserve(out, 8 + num_digits * 2);
    let ghost start = buffer_bytes(*out);
    put_u16(out, num_digits as u16);
    put_i16(out, #[verifier::truncate] ((num_digits - 1) as i16));
    put_u16(out, 0);
    put_u16(out, 0);
    let ghost header = be16(num_digits as int) + be16(num_digits - 1) + be16(0) + be16(0);
    assert(buffer_bytes(*out) =~= start + header);
    let mut i: usize = 0;
    assert(all.take(0) =~= Seq::<int>::empty());
    while i < num_digits
        invariant
            i <= num_digits,
            num_digits == digits@.len(),
            all.len() == num_digits,
            num_digits <= u16::MAX,
            all == digits@.reverse().map_values(|d: i16| d as int),
            header.len() == 8,
            start.len() + 8 + 2 * num_digits <= isize::MAX,
            buffer_bytes(*out) == start + header + be16_all(all.take(i as int)),
        decreases num_digits - i,
    {
        proof {
            lemma_be16_len(all.take(i as int));
            assert(all.take(i + 1).drop_last() =~= all.take(i as int));
            assert(all[i as int] == digits@[num_digits - 1 - i]);
        }
        put_i16(out, digits[num_digits - 1 - i]);
        assert(buffer_bytes(*out) =~= start + header + be16_all(all.take(i + 1)));
        i += 1;
    }
    assert(all.take(num_digits as int) =~= all);
    assert(buffer_bytes(*out) =~= start + numeric_bytes(value));
}

/// The value of digits in base 10000, the most significant first.
pub open spec fn groups_value(digits: Seq<nat>) -> nat
    decreases digits.len(),
{
    if digits.len() == 0 {
        0
    } else {
        groups_value(digits.drop_last()) * 10000 + digits.last()
    }
}

/// Whether the bytes hold a header and as many digits as it announces.
pub open spec fn is_numeric(raw: Seq<u8>) -> bool {
    raw.len() >= 8 && raw.len() >= 8 + 2 * u16_at(raw, 0)
}

/// The digits of a `numeric`.
pub open spec fn digits_of(raw: Seq<u8>) -> Seq<nat> {
    Seq::new(u16_at(raw, 0), |i: int| u16_at(raw, 8 + 2 * i))
}

/// How many digits of a `numeric` stand before the decimal point: one more than
/// its weight, which is a signed number.
pub open spec fn integer_digits(raw: Seq<u8>) -> int {
    let weight = u16_at(raw, 2) as int;
    if weight < 32768 {
        weight + 1
    } else {
        weight - 65536 + 1
    }
}

/// The number that a `numeric` is read as: the digits before the decimal point,
/// times 10000 to the power of four for each digit that is left out at the end.
pub open spec fn numeric_value(raw: Seq<u8>) -> nat {
    let digits = digits_of(raw);
    let count = integer_digits(raw);
    if count <= 0 {
        0
    } else if count > digits.len() {
        (groups_value(digits) * pow(10000, (4 * (count - digits.len())) as nat)) as nat
    } else {
        groups_value(digits.take(count))
    }
}

proof fn lemma_pow_is_nonnegative(exponent: nat)
    ensures
        pow(10000, exponent) >= 1,
{
    vstd::arithmetic::power::lemma_pow_positive(10000, exponent);
}

/// The number that a `numeric` holds, and nothing where the bytes end early.
fn read_numeric(raw: &[u8]) -> (r: Option<BigInteger>)
    ensures
        match r {
            Some(value) => is_numeric(raw@) && value@ == numeric_value(raw@),
            None => !is_numeric(raw@),
        },
{
    let mut cursor = ByteCursor { raw, position: 0 };
    let num_groups: u16 = match read_u16(&mut cursor) {
        Ok(n) => n,
        Err(_) => {
            return None;
        },
    };
    let weight: u16 = match read_u16(&mut cursor) {
        Ok(n) => n,
        Err(_) => {
            return None;
        },
    };
    if read_u16(&mut cursor).is_err() {
        return None;
    }
    if read_u16(&mut cursor).is_err() {
        return None;
    }
    let ghost digits = digits_of(raw@);
    let mut read: Vec<u16> = Vec::new();
    while read.len() < num_groups as usize
        invariant
            cursor.raw == raw,
            raw@.len() >= 8,
            num_groups == u16_at(raw@, 0),
            digits == digits_of(raw@),
            read.len() <= num_groups,
            cursor.position == 8 + 2 * read.len(),
            raw@.len() >= 8 + 2 * read.len(),
            forall|i: int| 0 <= i < read.len() ==> #[trigger] read@[i] == digits[i],
        decreases num_groups - read.len(),
    {
        match read_u16(&mut cursor) {
            Ok(n) => {
                read.push(n);
            },
            Err(_) => {
                return None;
            },
        }
    }

    let integers_part_count: i32 = if weight < 32768 {
        weight as i32 + 1
    } else {
        weight as i32 - 65535
    };
    let count: i32 = read.len() as i32;
    let mut result = BigInteger::from_u16(0);
    if integers_part_count > 0 {
        let start_integers: i32 = if integers_part_count > count {
            integers_part_count - count
        } else {
            0
        };
        let last: usize = if integers_part_count > count {
            read.len()
        } else {
            integers_part_count as usize
        };
        let base = BigInteger::from_u16(10000);
        let mut i: usize = 0;
        assert(digits.take(0) =~= Seq::<nat>::empty());
        while i < last
            invariant
                i <= last <= read.len(),
                read.len() == digits.len(),
                forall|k: int| 0 <= k < read.len() ==> #[trigger] read@[k] == digits[k],
                base@ == 10000,
                result@ == groups_value(digits.take(i as int)),
            decreases last - i,
        {
            assert(digits.take(i + 1).drop_last() =~= digits.take(i as int));
            let shifted = match result.checked_mul(&base) {
                Some(shifted) => shifted,
                None => {
                    return None;
                },
            };
            result = match shifted.checked_add(&BigInteger::from_u16(read[i])) {
                Some(sum) => sum,
                None => {
                    return None;
                },
            };
            i += 1;
        }
        let scale = base.pow(4 * start_integers as u32);
        proof {
            lemma_pow_is_nonnegative((4 * start_integers) as nat);
            vstd::arithmetic::power::lemma_pow0(10000);
            assert(digits.take(digits.len() as int) =~= digits);
            let v = result@;
            let p = scale@;
            assert(v * p >= 0) by (nonlinear_arith)
                requires
                    v >= 0,
                    p >= 1,
            ;
        }
        result = match result.checked_mul(&scale) {
            Some(scaled) => scaled,
            None => {
                return None;
            },
        };
    }
    Some(result)
}

/// Reads the number that a `numeric` holds.
pub fn big_uint_from_pg_numeric_bytes(raw: &[u8]) -> (r: BigInteger)
    requires
        is_numeric(raw@),
    ensures
        r@ == numeric_value(raw@),
{
    match read_numeric(raw) {
        Some(value) => value,
        None => {
            // `is_numeric` leaves no early end.
            assert(false);
            BigInteger::from_u16(0)
        },
    }
}

impl PgNumericU128 {
    /// Appends the number, which is not zero, as a `numeric`.
    pub fn to_sql(&self, out: &mut BytesMut) -> (r: IsNull)
        requires
            self.0 != 0,
            buffer_bytes(*old(out)).len() + numeric_bytes(self.0 as int).len() <= isize::MAX,
        ensures
            r == IsNull::No,
            buffer_bytes(*final(out)) == buffer_bytes(*old(out)) + numeric_bytes(self.0 as int),
    {
        proof {
            decimal_has_its_value(self.0 as nat);
            lemma_u128_has_few_groups(self.0);
        }
        let text = to_decimal(self.0);
        match BigInteger::parse_bytes(text.as_str()) {
            Some(num) => write_big_uint_to_pg_numeric_bytes(num, out),
            None => {},
        }
        IsNull::No
    }

    /// Reads a number below 2^128 from a `numeric`, and nothing from bytes that end
    /// early or hold a larger number.
    pub fn try_from_sql(raw: &[u8]) -> (r: Option<PgNumericU128>)
        ensures
            match r {
                Some(number) => is_numeric(raw@) && numeric_value(raw@) == number.0,
                None => !is_numeric(raw@) || numeric_value(raw@) > u128::MAX,
            },
    {
        match read_numeric(raw) {
            Some(value) => match value.to_u128() {
                Some(n) => Some(PgNumericU128(n)),
                None => None,
            },
            None => None,
        }
    }

    /// Reads a number below 2^128 from a `numeric`.
    pub fn from_sql(raw: &[u8]) -> (r: PgNumericU128)
        requires
            is_numeric(raw@),
            numeric_value(raw@) <= u128::MAX,
        ensures
            r.0 == numeric_value(raw@),
    {
        let result = big_uint_from_pg_numeric_bytes(raw);
        match result.to_u128() {
            Some(n) => PgNumericU128(n),
            None => {
                // The value is below 2^128.
                assert(false);
                PgNumericU128(0)
            },
        }
    }

    /// Whether the type of the name is that of the column.
    pub fn accepts(column_type: &str) -> (r: bool)
        ensures
            r == (column_type@ == "numeric"@),
    {
        same_text(column_type, "numeric")
    }
}

pub(crate) proof fn lemma_u128_has_few_groups(n: u128)
    ensures
        signed_groups(n as int).len() <= 10,
{
    reveal_with_fuel(groups, 11);
}

pub(crate) proof fn lemma_groups_hold_the_value(n: nat)
    ensures
        groups_value(groups(n)) == n,
        forall|i: int| 0 <= i < groups(n).len() ==> #[trigger] groups(n)[i] < 10000,
    decreases n,
{
    if n > 0 {
        lemma_groups_hold_the_value(n / 10000);
        assert(groups(n).drop_last() =~= groups(n / 10000));
    }
}

proof fn lemma_be16_all_at(digits: Seq<int>, i: int)
    requires
        0 <= i < digits.len(),
    ensures
        be16_all(digits).len() == 2 * digits.len(),
        be16_all(digits)[2 * i] == be16(digits[i])[0],
        be16_all(digits)[2 * i + 1] == be16(digits[i])[1],
    decreases digits.len(),
{
    lemma_be16_len(digits);
    lemma_be16_len(digits.drop_last());
    if i < digits.len() - 1 {
        lemma_be16_all_at(digits.drop_last(), i);
    }
}

/// The two bytes of a number below 65536 hold that number.
pub(crate) proof fn lemma_be16_holds(n: int)
    requires
        0 <= n < 65536,
    ensures
        256 * be16(n)[0] + be16(n)[1] == n,
{
    assert(n % 65536 == n);
    assert(256 * (n / 256) + n % 256 == n);
}

/// Where the bytes of a `numeric` stand.
pub(crate) proof fn lemma_numeric_bytes_at(n: int, i: int)
    ensures
        ({
            let digits = signed_groups(n);
            let raw = numeric_bytes(n);
            let count = digits.len() as int;
            &&& raw.len() == 8 + 2 * count
            &&& raw[0] == be16(count)[0] && raw[1] == be16(count)[1]
            &&& raw[2] == be16(count - 1)[0] && raw[3] == be16(count - 1)[1]
            &&& raw[4] == be16(0)[0] && raw[5] == be16(0)[1]
            &&& raw[6] == be16(0)[0] && raw[7] == be16(0)[1]
            &&& 0 <= i < count ==> raw[8 + 2 * i] == be16(digits[i])[0] && raw[8 + 2 * i + 1]
                == be16(digits[i])[1]
        }),
{
    let digits = signed_groups(n);
    lemma_be16_len(digits);
    if 0 <= i < digits.len() {
        lemma_be16_all_at(digits, i);
    }
}

/// A positive number of at most 32768 digits in base 10000 is read back as it
/// was written.
pub proof fn numeric_reads_back(n: nat)
    requires
        n > 0,
        groups(n).len() <= 32768,
    ensures
        is_numeric(numeric_bytes(n as int)),
        numeric_value(numeric_bytes(n as int)) == n,
{
    let digits = signed_groups(n as int);
    let raw = numeric_bytes(n as int);
    let count = digits.len() as int;
    lemma_groups_hold_the_value(n);
    assert(count == groups(n).len());
    lemma_numeric_bytes_at(n as int, 0);
    lemma_be16_holds(count);
    lemma_be16_holds(count - 1);
    assert(u16_at(raw, 0) == count);
    assert(u16_at(raw, 2) == count - 1);
    assert forall|i: int| 0 <= i < count implies #[trigger] digits_of(raw)[i] == groups(n)[i] by {
        lemma_numeric_bytes_at(n as int, i);
        assert(digits[i] == groups(n)[i]);
        assert(groups(n)[i] < 10000);
        lemma_be16_holds(digits[i]);
    }
    assert(digits_of(raw) =~= groups(n));
    assert(digits_of(raw).take(count) =~= groups(n));
}

/// Every number below 2^128 but zero is read back as it was written.
pub proof fn numeric_u128_reads_back(value: u128)
    requires
        value != 0,
    ensures
        is_numeric(numeric_bytes(value as int)),
        numeric_value(numeric_bytes(value as int)) == value,
{
    lemma_u128_has_few_groups(value);
    numeric_reads_back(value as nat);
}

} // verus!
