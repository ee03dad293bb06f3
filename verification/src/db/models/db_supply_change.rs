//! The rows of the table of supply changes.

use vstd::prelude::*;

use crate::db::types::pg_numeric_u64::PgNumericU64;
use crate::db::types::pg_text_u128::PgTextU128;

verus! {

/// An update to a rune that affects its total counts.
#[derive(Debug, PartialEq, Eq)]
pub struct DbSupplyChange {
    pub rune_id: String,
    pub block_height: PgNumericU64,
    pub minted: PgTextU128,
    pub total_mints: PgTextU128,
    pub burned: PgTextU128,
    pub total_burns: PgTextU128,
    pub total_operations: PgTextU128,
}

impl Clone for DbSupplyChange {
    fn clone(&self) -> (r: Self)
        ensures
            r == *self,
    {
        DbSupplyChange {
            rune_id: self.rune_id.clone(),
            block_height: self.block_height,
            minted: self.minted,
            total_mints: self.total_mints,
            burned: self.burned,
            total_burns: self.total_burns,
            total_operations: self.total_operations,
        }
    }
}

impl DbSupplyChange {
    /// Whether every mint and every burn is counted as an operation.
    pub open spec fn counts_every_operation(&self) -> bool {
        self.total_mints.0 + self.total_burns.0 <= self.total_operations.0
    }

    /// One mint of an amount.
    pub fn from_mint(id: String, block_height: PgNumericU64, amount: PgTextU128) -> (r: Self)
        ensures
            r == (DbSupplyChange {
                rune_id: id,
                block_height,
                minted: amount,
                total_mints: PgTextU128(1),
                burned: PgTextU128(0),
                total_burns: PgTextU128(0),
                total_operations: PgTextU128(1),
            }),
            r.counts_every_operation(),
    {
        DbSupplyChange {
            rune_id: id,
            block_height,
            minted: amount,
            total_mints: PgTextU128(1),
            burned: PgTextU128(0),
            total_burns: PgTextU128(0),
            total_operations: PgTextU128(1),
        }
    }

    /// One burn of an amount.
    pub fn from_burn(id: String, block_height: PgNumericU64, amount: PgTextU128) -> (r: Self)
        ensures
            r == (DbSupplyChange {
                rune_id: id,
                block_height,
                minted: PgTextU128(0),
                total_mints: PgTextU128(0),
                burned: amount,
                total_burns: PgTextU128(1),
                total_operations: PgTextU128(1),
            }),
            r.counts_every_operation(),
    {
        DbSupplyChange {
            rune_id: id,
            block_height,
            minted: PgTextU128(0),
            total_mints: PgTextU128(0),
            burned: amount,
            total_burns: PgTextU128(1),
            total_operations: PgTextU128(1),
        }
    }

    /// One operation that neither mints nor burns.
    pub fn from_operation(id: String, block_height: PgNumericU64) -> (r: Self)
        ensures
            r == (DbSupplyChange {
                rune_id: id,
                block_height,
                minted: PgTextU128(0),
                total_mints: PgTextU128(0),
                burned: PgTextU128(0),
                total_burns: PgTextU128(0),
                total_operations: PgTextU128(1),
            }),
            r.counts_every_operation(),
    {
        DbSupplyChange {
            rune_id: id,
            block_height,
            minted: PgTextU128(0),
            total_mints: PgTextU128(0),
            burned: PgTextU128(0),
            total_burns: PgTextU128(0),
            total_operations: PgTextU128(1),
        }
    }
}

} // verus!
