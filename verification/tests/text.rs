use bytes::BytesMut;
use runehook::db::types::pg_text_u128::{PgTextError, PgTextU128};
use runehook::db::types::wire::IsNull;
use runehook::decimal::{parse_decimal, push_decimal, to_decimal};

#[test]
fn test_u128_to_postgres() {
    for val in [340282366920938463463374607431768211455u128, 80000000000000000, 0] {
        let value = PgTextU128(val);
        let mut out = BytesMut::new();
        let _ = value.to_sql(&mut out);
        let res = PgTextU128::from_sql(&out).unwrap();
        assert_eq!(res.0, value.0);
    }
}

#[test]
fn text_is_appended_to_the_buffer() {
    let mut out = BytesMut::from(&b"ab"[..]);
    assert_eq!(PgTextU128(1050).to_sql(&mut out), IsNull::No);
    assert_eq!(&out[..], b"ab1050");
}

#[test]
fn text_refuses_what_is_no_number() {
    assert_eq!(PgTextU128::from_sql(&[0xff, 0x31]), Err(PgTextError::Utf8));
    for text in ["", "+", "-1", "1 ", "0x10", "340282366920938463463374607431768211456"] {
        assert_eq!(PgTextU128::from_sql(text.as_bytes()), Err(PgTextError::ParseInt));
    }
}

#[test]
fn text_reads_a_plus_sign_and_leading_zeros() {
    assert_eq!(PgTextU128::from_sql(b"+7"), Ok(PgTextU128(7)));
    assert_eq!(PgTextU128::from_sql(b"0007"), Ok(PgTextU128(7)));
}

#[test]
fn text_column_is_text() {
    assert!(PgTextU128::accepts("text"));
    assert!(!PgTextU128::accepts("numeric"));
}

#[test]
fn text_numbers_add_and_subtract() {
    let mut number = PgTextU128(10);
    number.add_assign(PgTextU128(5));
    assert_eq!(number, PgTextU128(15));
    number.add_assign_u128(7);
    assert_eq!(number, PgTextU128(22));
    number.sub_assign(PgTextU128(5));
    assert_eq!(number, PgTextU128(17));
    number.sub_assign_u128(7);
    assert_eq!(number, PgTextU128(10));
}

#[test]
fn decimal_notation_is_that_of_std() {
    for n in [0, 9, 10, 1234567890, u64::MAX as u128, u128::MAX] {
        assert_eq!(to_decimal(n), n.to_string());
        assert_eq!(parse_decimal(&n.to_string(), u128::MAX), Some(n));
    }
    let mut text = "n=".to_string();
    push_decimal(&mut text, 305);
    assert_eq!(text, "n=305");
}

#[test]
fn decimal_notation_is_bounded() {
    assert_eq!(parse_decimal("255", 255), Some(255));
    assert_eq!(parse_decimal("256", 255), None);
    assert_eq!(parse_decimal("1a", 255), None);
}
