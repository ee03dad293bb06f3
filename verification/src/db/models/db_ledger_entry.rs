//! The rows of the table of ledger entries.

use vstd::prelude::*;

use crate::db::models::db_ledger_operation::DbLedgerOperation;
use crate::db::types::pg_bigint_u32::PgBigIntU32;
use crate::db::types::pg_numeric_u64::PgNumericU64;
use crate::db::types::pg_text_u128::PgTextU128;

verus! {

/// A ledger entry of a transaction that is in a block.
#[derive(Debug, PartialEq, Eq)]
pub struct DbLedgerEntry {
    pub rune_id: String,
    pub block_hash: String,
    pub block_height: PgNumericU64,
    pub tx_index: PgBigIntU32,
    pub event_index: PgBigIntU32,
    pub tx_id: String,
    pub output: Option<PgBigIntU32>,
    pub address: Option<String>,
    pub receiver_address: Option<String>,
    pub amount: Option<PgTextU128>,
    pub operation: DbLedgerOperation,
    pub timestamp: PgBigIntU32,
}

} // verus!
