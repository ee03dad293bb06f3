//! The column types.

pub mod big_integer;
pub mod numeric_laws;
pub mod pg_bigint_u32;
pub mod pg_numeric_u128;
pub mod pg_numeric_u64;
pub mod pg_small_int_u8;
pub mod pg_text_u128;
pub mod wire;
