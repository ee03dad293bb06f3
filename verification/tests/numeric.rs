use bytes::BytesMut;
use runehook::db::types::big_integer::BigInteger;
use runehook::db::types::pg_numeric_u128::{
    big_uint_from_pg_numeric_bytes, write_big_uint_to_pg_numeric_bytes, PgNumericU128,
};
use runehook::db::types::wire::{read_two_bytes, read_u16, ByteCursor, IsNull, UnexpectedEof};

fn written(value: u128) -> Vec<u8> {
    let mut out = BytesMut::new();
    assert_eq!(PgNumericU128(value).to_sql(&mut out), IsNull::No);
    out.to_vec()
}

fn numeric(digits: &[u16], weight: i16) -> Vec<u8> {
    let mut raw: Vec<u8> = Vec::new();
    raw.extend_from_slice(&(digits.len() as u16).to_be_bytes());
    raw.extend_from_slice(&weight.to_be_bytes());
    raw.extend_from_slice(&[0, 0, 0, 0]);
    for digit in digits {
        raw.extend_from_slice(&digit.to_be_bytes());
    }
    raw
}

#[test]
fn numeric_is_written_in_base_ten_thousand() {
    assert_eq!(written(7), numeric(&[7], 0));
    assert_eq!(written(12345678), numeric(&[1234, 5678], 1));
    assert_eq!(written(10000), numeric(&[1, 0], 1));
}

#[test]
fn numeric_reads_back_what_was_written() {
    for value in [1, 9999, 10000, 80000000000000000, u64::MAX as u128, u128::MAX] {
        assert_eq!(PgNumericU128::from_sql(&written(value)), PgNumericU128(value));
        assert_eq!(PgNumericU128::try_from_sql(&written(value)), Some(PgNumericU128(value)));
    }
}

#[test]
fn numeric_is_appended_to_the_buffer() {
    let mut out = BytesMut::from(&b"x"[..]);
    PgNumericU128(2).to_sql(&mut out);
    assert_eq!(&out[..1], b"x");
    assert_eq!(&out[1..], &numeric(&[2], 0)[..]);
}

#[test]
fn numeric_without_integer_digits_is_zero() {
    assert_eq!(PgNumericU128::from_sql(&numeric(&[], 0)), PgNumericU128(0));
    assert_eq!(PgNumericU128::from_sql(&numeric(&[5000], -1)), PgNumericU128(0));
}

#[test]
fn numeric_drops_what_follows_the_decimal_point() {
    assert_eq!(PgNumericU128::from_sql(&numeric(&[12, 5000], 0)), PgNumericU128(12));
}

#[test]
fn numeric_scales_by_sixteen_decimal_places_for_a_digit_left_out() {
    assert_eq!(PgNumericU128::from_sql(&numeric(&[3], 1)), PgNumericU128(30000000000000000));
}

#[test]
fn numeric_that_ends_early_or_is_too_large_is_refused() {
    assert_eq!(PgNumericU128::try_from_sql(&[0, 1]), None);
    let mut short = numeric(&[1, 2], 1);
    short.pop();
    assert_eq!(PgNumericU128::try_from_sql(&short), None);
    assert_eq!(PgNumericU128::try_from_sql(&numeric(&[9999; 10], 9)), None);
}

#[test]
fn numeric_column_is_numeric() {
    assert!(PgNumericU128::accepts("numeric"));
    assert!(!PgNumericU128::accepts("text"));
}

#[test]
fn negative_numbers_are_written_with_negative_digits() {
    // 0xcfc7 is -12345 in two's complement.
    let mut out = BytesMut::new();
    write_big_uint_to_pg_numeric_bytes(BigInteger { bytes: vec![0xcf, 0xc7] }, &mut out);
    let mut expected = numeric(&[0, 0], 1);
    expected[8..10].copy_from_slice(&(-1i16).to_be_bytes());
    expected[10..12].copy_from_slice(&(-2345i16).to_be_bytes());
    assert_eq!(out.to_vec(), expected);
}

#[test]
fn integers_of_any_size_are_read() {
    // 10000^9 needs 120 bits.
    let value = big_uint_from_pg_numeric_bytes(&numeric(&[1, 0, 0, 0, 0, 0, 0, 0, 0, 0], 9));
    assert_eq!(value.bytes, 10000u128.pow(9).to_be_bytes().to_vec());
    let value = big_uint_from_pg_numeric_bytes(&numeric(&[1, 0, 0, 0, 0, 0, 0, 0, 0, 0, 0], 10));
    assert_eq!(value.bytes.len(), 17);
}

#[test]
fn two_bytes_are_read_at_a_time() {
    let raw = [0x12, 0x34, 0x56];
    let mut cursor = ByteCursor { raw: &raw, position: 0 };
    assert_eq!(read_u16(&mut cursor), Ok(0x1234));
    assert_eq!(cursor.position, 2);
    assert_eq!(read_two_bytes(&mut cursor), Err(UnexpectedEof));
    assert_eq!(cursor.position, 2);
    let mut again = ByteCursor { raw: &raw, position: 1 };
    assert_eq!(read_two_bytes(&mut again), Ok([0x34, 0x56]));
}
