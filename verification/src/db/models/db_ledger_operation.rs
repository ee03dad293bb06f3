//! What a ledger entry records.

use vstd::prelude::*;

verus! {

/// The kind of a ledger entry.
#[derive(Debug, Clone, Copy, PartialEq, Eq, Structural)]
pub enum DbLedgerOperation {
    Etching,
    Mint,
    Burn,
    Send,
    Receive,
}

impl DbLedgerOperation {
    /// The name of the operation in the database.
    pub fn as_str(&self) -> (r: &'static str)
        ensures
            r@ == match *self {
                DbLedgerOperation::Etching => "etching"@,
                DbLedgerOperation::Mint => "mint"@,
                DbLedgerOperation::Burn => "burn"@,
                DbLedgerOperation::Send => "send"@,
                DbLedgerOperation::Receive => "receive"@,
            },
    {
        match self {
            DbLedgerOperation::Etching => "etching",
            DbLedgerOperation::Mint => "mint",
            DbLedgerOperation::Burn => "burn",
            DbLedgerOperation::Send => "send",
            DbLedgerOperation::Receive => "receive",
        }
    }
}

} // verus!
