//! The buffers and integers that column values are written to and read from.

use bytes::{BufMut, BytesMut};
use vstd::prelude::*;
use vstd::utf8::valid_utf8;
use vstd::string::StringSliceAdditionalSpecFns;

verus! {

/// Whether a value that was written is a null.
#[derive(Debug, Clone, Copy, PartialEq, Eq, Structural)]
pub enum IsNull {
    Yes,
    No,
}

/// Declares `bytes::BytesMut`, the buffer that column values are written to. Nothing
/// is claimed of it but what [`buffer_bytes`] names.
#[verifier::external_type_specification]
#[verifier::external_body]
pub struct ExBytesMut(BytesMut);

/// The bytes that a buffer holds.
pub uninterp spec fn buffer_bytes(buffer: BytesMut) -> Seq<u8>;

/// The two bytes of a 16-bit integer, the most significant first, negative
/// numbers in two's complement.
pub open spec fn be16(n: int) -> Seq<u8> {
    seq![((n % 65536) / 256) as u8, (n % 256) as u8]
}

/// Calls `BytesMut::reserve`: the bytes in the buffer stay as they are. The
/// allocation itself is taken to succeed.
#[verifier::external_body]
pub(crate) fn reserve(buffer: &mut BytesMut, additional: usize)
    requires
        buffer_bytes(*old(buffer)).len() + additional <= isize::MAX,
    ensures
        buffer_bytes(*final(buffer)) == buffer_bytes(*old(buffer)),
{
    buffer.reserve(additional);
}

/// Calls `BufMut::put_u16` of a `BytesMut`: the two bytes of the number are
/// appended in big-endian order.
#[verifier::external_body]
pub(crate) fn put_u16(buffer: &mut BytesMut, n: u16)
    requires
        buffer_bytes(*old(buffer)).len() + 2 <= isize::MAX,
    ensures
        buffer_bytes(*final(buffer)) == buffer_bytes(*old(buffer)) + be16(n as int),
{
    buffer.put_u16(n);
}

/// Calls `BufMut::put_i16` of a `BytesMut`: the two bytes of the number are
/// appended in big-endian order.
#[verifier::external_body]
pub(crate) fn put_i16(buffer: &mut BytesMut, n: i16)
    requires
        buffer_bytes(*old(buffer)).len() + 2 <= isize::MAX,
    ensures
        buffer_bytes(*final(buffer)) == buffer_bytes(*old(buffer)) + be16(n as int),
{
    buffer.put_i16(n);
}

/// Calls `BufMut::put_slice` of a `BytesMut`: the bytes are appended.
#[verifier::external_body]
pub(crate) fn put_slice(buffer: &mut BytesMut, bytes: &[u8])
    requires
        buffer_bytes(*old(buffer)).len() + bytes@.len() <= isize::MAX,
    ensures
        buffer_bytes(*final(buffer)) == buffer_bytes(*old(buffer)) + bytes@,
{
    buffer.put_slice(bytes);
}

/// Calls `std::str::from_utf8`: the text whose UTF-8 encoding the bytes are,
/// and nothing where they are no valid UTF-8.
#[verifier::external_body]
pub(crate) fn from_utf8(bytes: &[u8]) -> (r: Option<&str>)
    ensures
        match r {
            Some(text) => valid_utf8(bytes@) && text.spec_bytes() == bytes@,
            None => !valid_utf8(bytes@),
        },
{
    std::str::from_utf8(bytes).ok()
}

/// The 16-bit number at a position, the most significant byte first.
pub open spec fn u16_at(raw: Seq<u8>, position: int) -> nat {
    (raw[position] * 256 + raw[position + 1]) as nat
}

/// The input has ended.
#[derive(Debug, Clone, Copy, PartialEq, Eq, Structural)]
pub struct UnexpectedEof;

/// A position in a sequence of bytes.
pub struct ByteCursor<'a> {
    pub raw: &'a [u8],
    pub position: usize,
}

/// Reads the next two bytes.
pub fn read_two_bytes(cursor: &mut ByteCursor<'_>) -> (r: Result<[u8; 2], UnexpectedEof>)
    ensures
        final(cursor).raw == old(cursor).raw,
        match r {
            Ok(bytes) => {
                &&& old(cursor).position + 2 <= old(cursor).raw@.len()
                &&& final(cursor).position == old(cursor).position + 2
                &&& bytes@ == old(cursor).raw@.subrange(
                    old(cursor).position as int,
                    old(cursor).position + 2,
                )
            },
            Err(_) => {
                &&& old(cursor).position + 2 > old(cursor).raw@.len()
                &&& final(cursor).position == old(cursor).position
            },
        },
{
    let len: usize = cursor.raw.len();
    let position: usize = cursor.position;
    if position > len || len - position < 2 {
        return Err(UnexpectedEof);
    }
    let bytes: [u8; 2] = [cursor.raw[position], cursor.raw[position + 1]];
    assert(bytes@ =~= cursor.raw@.subrange(position as int, position + 2));
    cursor.position = position + 2;
    Ok(bytes)
}

/// Reads the next 16-bit number.
pub fn read_u16(cursor: &mut ByteCursor<'_>) -> (r: Result<u16, UnexpectedEof>)
    ensures
        final(cursor).raw == old(cursor).raw,
        match r {
            Ok(n) => {
                &&& old(cursor).position + 2 <= old(cursor).raw@.len()
                &&& final(cursor).position == old(cursor).position + 2
                &&& n == u16_at(old(cursor).raw@, old(cursor).position as int)
            },
            Err(_) => {
                &&& old(cursor).position + 2 > old(cursor).raw@.len()
                &&& final(cursor).position == old(cursor).position
            },
        },
{
    match read_two_bytes(cursor) {
        Ok(bytes) => {
            assert(bytes@[0] == old(cursor).raw@[old(cursor).position as int]);
            assert(bytes@[1] == old(cursor).raw@[old(cursor).position + 1]);
            Ok(bytes[0] as u16 * 256 + bytes[1] as u16)
        },
        Err(error) => Err(error),
    }
}

} // verus!
