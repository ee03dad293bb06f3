//! Numbers below 2^128 in a column of type `text`.

use bytes::BytesMut;
use vstd::prelude::*;
use vstd::utf8::{
    decode_utf8, encode_utf8, encode_utf8_decode_utf8, encode_utf8_valid_utf8, valid_utf8,
};
use vstd::string::StringSliceAdditionalSpecFns;

use crate::db::types::wire::{buffer_bytes, from_utf8, put_slice, IsNull};
use crate::decimal::{decimal, decimal_reads_back, parse_decimal, parsed, to_decimal};

verus! {

/// A number below 2^128 in a column of type `text`.
#[derive(Debug, Clone, Copy, PartialEq, Eq, Structural)]
pub struct PgTextU128(pub u128);

/// Why a column value is no number.
#[derive(Debug, Clone, Copy, PartialEq, Eq, Structural)]
pub enum PgTextError {
    /// The bytes are no valid UTF-8.
    Utf8,
    /// The text is no number below 2^128.
    ParseInt,
}

/// The number that the bytes of a text column hold.
pub open spec fn text_value(raw: Seq<u8>) -> Result<u128, PgTextError> {
    if !valid_utf8(raw) {
        Err(PgTextError::Utf8)
    } else {
        match parsed(decode_utf8(raw), u128::MAX as nat) {
            Some(value) => Ok(value as u128),
            None => Err(PgTextError::ParseInt),
        }
    }
}

/// What is written is read back, for every number.
pub proof fn text_reads_back(value: u128)
    ensures
        text_value(encode_utf8(decimal(value as nat))) == Ok::<u128, PgTextError>(value),
{
    encode_utf8_valid_utf8(decimal(value as nat));
    encode_utf8_decode_utf8(decimal(value as nat));
    decimal_reads_back(value as nat, u128::MAX as nat);
}

impl PgTextU128 {
    /// Appends the decimal notation of the number.
    pub fn to_sql(&self, out: &mut BytesMut) -> (r: IsNull)
        requires
            buffer_bytes(*old(out)).len() + encode_utf8(decimal(self.0 as nat)).len() <= isize::MAX,
        ensures
            r == IsNull::No,
            buffer_bytes(*final(out)) == buffer_bytes(*old(out)) + encode_utf8(
                decimal(self.0 as nat),
            ),
    {
        let text = to_decimal(self.0);
        put_slice(out, text.as_str().as_bytes());
        IsNull::No
    }

    /// Reads the number from the bytes of the column.
    pub fn from_sql(raw: &[u8]) -> (r: Result<PgTextU128, PgTextError>)
        ensures
            match r {
                Ok(number) => text_value(raw@) == Ok::<u128, PgTextError>(number.0),
                Err(error) => text_value(raw@) == Err::<u128, PgTextError>(error),
            },
    {
        match from_utf8(raw) {
            None => Err(PgTextError::Utf8),
            Some(text) => {
                proof {
                    encode_utf8_decode_utf8(text@);
                }
                match parse_decimal(text, u128::MAX) {
                    Some(value) => Ok(PgTextU128(value)),
                    None => Err(PgTextError::ParseInt),
                }
            },
        }
    }

    /// Whether the type of the name is that of the column.
    pub fn accepts(column_type: &str) -> (r: bool)
        ensures
            r == (column_type@ == "text"@),
    {
        same_text(column_type, "text")
    }

    /// Adds a number of the same column.
    pub fn add_assign(&mut self, other: Self)
        requires
            old(self).0 + other.0 <= u128::MAX,
        ensures
            final(self).0 == old(self).0 + other.0,
    {
        self.0 = self.0 + other.0;
    }

    /// Adds a plain number.
    pub fn add_assign_u128(&mut self, other: u128)
        requires
            old(self).0 + other <= u128::MAX,
        ensures
            final(self).0 == old(self).0 + other,
    {
        self.0 = self.0 + other;
    }

    /// Subtracts a number of the same column.
    pub fn sub_assign(&mut self, other: Self)
        requires
            old(self).0 >= other.0,
        ensures
            final(self).0 == old(self).0 - other.0,
    {
        self.0 = self.0 - other.0;
    }

    /// Subtracts a plain number.
    pub fn sub_assign_u128(&mut self, other: u128)
        requires
            old(self).0 >= other,
        ensures
            final(self).0 == old(self).0 - other,
    {
        self.0 = self.0 - other;
    }
}

/// Whether two texts are the same.
pub(crate) fn same_text(a: &str, b: &str) -> (r: bool)
    ensures
        r == (a@ == b@),
{
    let a = a.to_owned();
    let b = b.to_owned();
    a == b
}

} // verus!
