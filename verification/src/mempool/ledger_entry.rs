//! The rows of the table of mempool ledger entries.

use vstd::prelude::*;

use crate::db::models::db_ledger_operation::DbLedgerOperation;
use crate::db::types::pg_bigint_u32::PgBigIntU32;
use crate::db::types::pg_numeric_u128::PgNumericU128;
use crate::mempool::movement::LedgerEvent;
use crate::runes::{rune_id_text, RuneId};

verus! {

/// A ledger entry of a transaction that is in the mempool.
#[derive(Debug, PartialEq, Eq)]
pub struct DBMempoolLedgerEntry {
    pub rune_id: String,
    pub event_index: PgBigIntU32,
    pub tx_id: String,
    pub output: Option<PgBigIntU32>,
    pub address: Option<String>,
    pub receiver_address: Option<String>,
    pub amount: Option<PgNumericU128>,
    pub operation: DbLedgerOperation,
}

/// An output index as a column value.
pub open spec fn output_column(output: Option<u32>) -> Option<PgBigIntU32> {
    match output {
        Some(index) => Some(PgBigIntU32(index)),
        None => None,
    }
}

/// An amount as a column value.
pub open spec fn amount_column(amount: Option<u128>) -> Option<PgNumericU128> {
    match amount {
        Some(value) => Some(PgNumericU128(value)),
        None => None,
    }
}

/// An optional text behind a reference.
pub open spec fn text_column(text: Option<&String>) -> Option<String> {
    match text {
        Some(text) => Some(*text),
        None => None,
    }
}

fn clone_text(text: Option<&String>) -> (r: Option<String>)
    ensures
        r == text_column(text),
{
    match text {
        Some(text) => Some(text.clone()),
        None => None,
    }
}

impl DBMempoolLedgerEntry {
    /// Whether the entry records an event of a transaction at a position in it.
    pub open spec fn records(&self, event: LedgerEvent, tx_id: String, event_index: int) -> bool {
        &&& self.rune_id@ == rune_id_text(event.rune_id)
        &&& self.event_index.0 == event_index
        &&& self.tx_id == tx_id
        &&& self.output == output_column(event.output)
        &&& self.address == event.address
        &&& self.receiver_address == event.receiver_address
        &&& self.amount == amount_column(event.amount)
        &&& self.operation == event.operation
    }

    /// An entry with the given contents.
    pub fn from_values(
        amount: Option<u128>,
        rune_id: RuneId,
        output: Option<u32>,
        address: Option<&String>,
        receiver_address: Option<&String>,
        operation: DbLedgerOperation,
        tx_id: &String,
        event_index: u32,
    ) -> (r: Self)
        ensures
            r.records(
                LedgerEvent {
                    rune_id,
                    output,
                    address: text_column(address),
                    receiver_address: text_column(receiver_address),
                    amount,
                    operation,
                },
                *tx_id,
                event_index as int,
            ),
    {
        DBMempoolLedgerEntry {
            rune_id: rune_id.to_text(),
            event_index: PgBigIntU32(event_index),
            tx_id: tx_id.clone(),
            output: match output {
                Some(index) => Some(PgBigIntU32(index)),
                None => None,
            },
            address: clone_text(address),
            receiver_address: clone_text(receiver_address),
            amount: match amount {
                Some(value) => Some(PgNumericU128(value)),
                None => None,
            },
            operation,
        }
    }

    /// An entry with the given contents at the next position, which moves on by one.
    pub fn new_mempool_entry_with_idx_incr(
        amount: Option<u128>,
        rune_id: RuneId,
        output: Option<u32>,
        address: Option<&String>,
        receiver_address: Option<&String>,
        operation: DbLedgerOperation,
        tx_id: &String,
        next_event_index: &mut u32,
    ) -> (r: Self)
        requires
            *old(next_event_index) < u32::MAX,
        ensures
            *final(next_event_index) == *old(next_event_index) + 1,
            r.records(
                LedgerEvent {
                    rune_id,
                    output,
                    address: text_column(address),
                    receiver_address: text_column(receiver_address),
                    amount,
                    operation,
                },
                *tx_id,
                *old(next_event_index) as int,
            ),
    {
        let entry = DBMempoolLedgerEntry::from_values(
            amount,
            rune_id,
            output,
            address,
            receiver_address,
            operation,
            tx_id,
            *next_event_index,
        );
        *next_event_index = *next_event_index + 1;
        entry
    }
}

/// Whether the entries record the events in order, numbered from zero.
pub open spec fn records_all(
    entries: Seq<DBMempoolLedgerEntry>,
    events: Seq<LedgerEvent>,
    tx_id: String,
) -> bool {
    &&& entries.len() == events.len()
    &&& forall|i: int|
        0 <= i < entries.len() ==> (#[trigger] entries[i]).records(events[i], tx_id, i)
}

/// The entries that record the events of a transaction.
pub fn record_events(events: &Vec<LedgerEvent>, tx_id: &String) -> (r: Vec<DBMempoolLedgerEntry>)
    requires
        events@.len() <= u32::MAX,
    ensures
        records_all(r@, events@, *tx_id),
{
    let mut next_event_index: u32 = 0;
    let mut entries: Vec<DBMempoolLedgerEntry> = Vec::new();
    let mut i: usize = 0;
    while i < events.len()
        invariant
            i <= events.len(),
            events@.len() <= u32::MAX,
            next_event_index == i,
            records_all(entries@, events@.take(i as int), *tx_id),
        decreases events.len() - i,
    {
        let event = &events[i];
        let entry = DBMempoolLedgerEntry::new_mempool_entry_with_idx_incr(
            event.amount,
            event.rune_id,
            event.output,
            event.address.as_ref(),
            event.receiver_address.as_ref(),
            event.operation,
            tx_id,
            &mut next_event_index,
        );
        assert(entry.records(events@[i as int], *tx_id, i as int));
        entries.push(entry);
        i += 1;
    }
    assert(events@.take(events.len() as int) =~= events@);
    entries
}

} // verus!
