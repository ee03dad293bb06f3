//! The rows of the table of balance changes.

use vstd::prelude::*;

use crate::db::types::pg_numeric_u64::PgNumericU64;
use crate::db::types::pg_text_u128::PgTextU128;

verus! {

/// An update to the balance that an address holds of a rune.
#[derive(Debug, PartialEq, Eq)]
pub struct DbBalanceChange {
    pub rune_id: String,
    pub block_height: PgNumericU64,
    pub address: String,
    pub balance: PgTextU128,
    pub total_operations: i64,
}

impl Clone for DbBalanceChange {
    fn clone(&self) -> (r: Self)
        ensures
            r == *self,
    {
        DbBalanceChange {
            rune_id: self.rune_id.clone(),
            block_height: self.block_height,
            address: self.address.clone(),
            balance: self.balance,
            total_operations: self.total_operations,
        }
    }
}

} // verus!
