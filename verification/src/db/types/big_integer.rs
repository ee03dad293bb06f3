//! Integers of any size, as bytes, with the arithmetic of `num_bigint`.

use num_bigint::BigInt;
use num_traits::{ToPrimitive, Zero};
use vstd::arithmetic::power::pow;
use vstd::prelude::*;

use crate::decimal::{digits_value, is_number};

verus! {

/// The value of bytes as digits in base 256, the most significant first.
pub open spec fn unsigned_value(bytes: Seq<u8>) -> nat
    decreases bytes.len(),
{
    if bytes.len() == 0 {
        0
    } else {
        unsigned_value(bytes.drop_last()) * 256 + bytes.last() as nat
    }
}

/// The value of bytes in two's complement, the most significant first.
pub open spec fn signed_value(bytes: Seq<u8>) -> int {
    if bytes.len() > 0 && bytes[0] >= 128 {
        unsigned_value(bytes) - pow(256, bytes.len())
    } else {
        unsigned_value(bytes) as int
    }
}

/// The distance of a number from zero.
pub open spec fn magnitude(n: int) -> nat {
    if n < 0 {
        (-n) as nat
    } else {
        n as nat
    }
}

/// The quotient of a division that rounds towards zero.
pub open spec fn truncated_quotient(a: int, b: int) -> int {
    let quotient = (magnitude(a) / magnitude(b)) as int;
    if (a < 0) == (b < 0) {
        quotient
    } else {
        -quotient
    }
}

/// The remainder of a division that rounds towards zero: it has the sign of the
/// dividend.
pub open spec fn truncated_remainder(a: int, b: int) -> int {
    let remainder = (magnitude(a) % magnitude(b)) as int;
    if a < 0 {
        -remainder
    } else {
        remainder
    }
}

/// An integer of any size: its bytes in two's complement, the most significant
/// first. The model is its value.
#[derive(Debug, PartialEq, Eq)]
pub struct BigInteger {
    pub bytes: Vec<u8>,
}

impl View for BigInteger {
    type V = int;

    open spec fn view(&self) -> int {
        signed_value(self.bytes@)
    }
}

impl BigInteger {
    /// Calls `BigInt::from` for a 16-bit number: the integer has that value.
    #[verifier::external_body]
    pub(crate) fn from_u16(value: u16) -> (r: BigInteger)
        ensures
            r@ == value,
    {
        BigInteger { bytes: BigInt::from(value).to_signed_bytes_be() }
    }

    /// Calls `BigInt::parse_bytes` in base ten: a non-empty run of decimal digits
    /// is read as the number that it denotes.
    #[verifier::external_body]
    pub(crate) fn parse_bytes(text: &str) -> (r: Option<BigInteger>)
        requires
            is_number(text@),
        ensures
            r is Some,
            r->0@ == digits_value(text@),
    {
        BigInt::parse_bytes(text.as_bytes(), 10).map(
            |n| BigInteger { bytes: n.to_signed_bytes_be() },
        )
    }

    /// Calls `Zero::is_zero` of a `BigInt`: whether the value is zero.
    #[verifier::external_body]
    pub(crate) fn is_zero(&self) -> (r: bool)
        ensures
            r == (self@ == 0),
    {
        BigInt::from_signed_bytes_be(&self.bytes).is_zero()
    }

    /// Calls the operator `%` of `BigInt`: the remainder of a division that rounds
    /// towards zero.
    #[verifier::external_body]
    pub(crate) fn rem(&self, other: &BigInteger) -> (r: BigInteger)
        requires
            other@ != 0,
        ensures
            r@ == truncated_remainder(self@, other@),
    {
        let a = BigInt::from_signed_bytes_be(&self.bytes);
        let b = BigInt::from_signed_bytes_be(&other.bytes);
        BigInteger { bytes: (&a % &b).to_signed_bytes_be() }
    }

    /// Calls the operator `/=` of `BigInt`: the quotient of a division that rounds
    /// towards zero.
    #[verifier::external_body]
    pub(crate) fn div_assign(&mut self, other: &BigInteger)
        requires
            other@ != 0,
        ensures
            final(self)@ == truncated_quotient(old(self)@, other@),
    {
        let mut a = BigInt::from_signed_bytes_be(&self.bytes);
        a /= &BigInt::from_signed_bytes_be(&other.bytes);
        self.bytes = a.to_signed_bytes_be();
    }

    /// Calls `BigInt::checked_mul`: always the product.
    #[verifier::external_body]
    pub(crate) fn checked_mul(&self, other: &BigInteger) -> (r: Option<BigInteger>)
        ensures
            r is Some,
            r->0@ == self@ * other@,
    {
        let a = BigInt::from_signed_bytes_be(&self.bytes);
        let b = BigInt::from_signed_bytes_be(&other.bytes);
        a.checked_mul(&b).map(|n| BigInteger { bytes: n.to_signed_bytes_be() })
    }

    /// Calls `BigInt::checked_add`: always the sum.
    #[verifier::external_body]
    pub(crate) fn checked_add(&self, other: &BigInteger) -> (r: Option<BigInteger>)
        ensures
            r is Some,
            r->0@ == self@ + other@,
    {
        let a = BigInt::from_signed_bytes_be(&self.bytes);
        let b = BigInt::from_signed_bytes_be(&other.bytes);
        a.checked_add(&b).map(|n| BigInteger { bytes: n.to_signed_bytes_be() })
    }

    /// Calls `BigInt::pow`: the power.
    #[verifier::external_body]
    pub(crate) fn pow(&self, exponent: u32) -> (r: BigInteger)
        ensures
            r@ == pow(self@, exponent as nat),
    {
        let n = BigInt::from_signed_bytes_be(&self.bytes).pow(exponent);
        BigInteger { bytes: n.to_signed_bytes_be() }
    }

    /// Calls `ToPrimitive::to_i16` of a `BigInt`: the value where the type holds it.
    #[verifier::external_body]
    pub(crate) fn to_i16(&self) -> (r: Option<i16>)
        ensures
            match r {
                Some(n) => self@ == n,
                None => !(i16::MIN <= self@ <= i16::MAX),
            },
    {
        BigInt::from_signed_bytes_be(&self.bytes).to_i16()
    }

    /// Calls `ToPrimitive::to_u128` of a `BigInt`: the value where the type holds it.
    #[verifier::external_body]
    pub(crate) fn to_u128(&self) -> (r: Option<u128>)
        ensures
            match r {
                Some(n) => self@ == n,
                None => !(0 <= self@ <= u128::MAX),
            },
    {
        BigInt::from_signed_bytes_be(&self.bytes).to_u128()
    }
}

} // verus!
