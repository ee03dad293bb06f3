//! The rows of the table of runes.

use vstd::prelude::*;

use crate::db::types::pg_bigint_u32::PgBigIntU32;
use crate::db::types::pg_numeric_u64::PgNumericU64;
use crate::db::types::pg_small_int_u8::PgSmallIntU8;
use crate::db::types::pg_text_u128::PgTextU128;

verus! {

/// A rune that was etched in a block, and the terms on which it is minted.
#[derive(Debug, PartialEq, Eq)]
pub struct DbRune {
    pub id: String,
    pub number: PgBigIntU32,
    pub name: String,
    pub spaced_name: String,
    pub block_hash: String,
    pub block_height: PgNumericU64,
    pub tx_index: PgBigIntU32,
    pub tx_id: String,
    pub divisibility: PgSmallIntU8,
    pub premine: PgTextU128,
    pub symbol: String,
    pub terms_amount: Option<PgTextU128>,
    pub terms_cap: Option<PgTextU128>,
    pub terms_height_start: Option<PgNumericU64>,
    pub terms_height_end: Option<PgNumericU64>,
    pub terms_offset_start: Option<PgNumericU64>,
    pub terms_offset_end: Option<PgNumericU64>,
    pub turbo: bool,
    pub timestamp: PgBigIntU32,
}

} // verus!
