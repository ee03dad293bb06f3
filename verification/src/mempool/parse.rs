//! From a transaction to its ledger entries.

use vstd::prelude::*;

use crate::chain::{outputs_view, Network, Transaction};
use crate::db::step::{Reply, Step, StepView};
use crate::mempool::decipher::{
    decipher_mempool_tx, holds_receivers, spends, spent_outputs, SpentOutput,
};
use crate::mempool::input_balances::{
    collect_input_rune_balances, denote_runes, group_input_rune_balances, grouped, joined,
    rows_denote_runes, select_input_balances, select_input_balances_statement, InputBalanceRow,
};
use crate::mempool::ledger::{ledger_entries, DecipheredTx};
use crate::mempool::ledger_entry::{records_all, DBMempoolLedgerEntry};
use crate::runes::deciphered;

verus! {

/// Whether this is what is known of a transaction with a protocol message.
pub open spec fn describes(message: DecipheredTx, tx: Transaction, network: Network) -> bool {
    &&& deciphered(outputs_view(tx.outputs@)) == Some(message.artifact@)
    &&& holds_receivers(message.receivers@, tx.outputs@, network)
    &&& message.total_outputs == tx.outputs@.len()
}

/// The ledger entries of a transaction with a protocol message, from what the
/// ledger knows its inputs to bring in. Gives up where a row denotes no rune id,
/// or where amounts or numbers do not fit their integer types.
pub fn message_entries(
    message: &DecipheredTx,
    tx_id: &String,
    rows: &Vec<InputBalanceRow>,
) -> (r: Step<Vec<DBMempoolLedgerEntry>>)
    ensures
        if !denote_runes(rows@) {
            r@ == StepView::<Vec<DBMempoolLedgerEntry>>::Abort("invalid rune id"@)
        } else if !message.fits(joined(grouped(rows@))) {
            r@ == StepView::<Vec<DBMempoolLedgerEntry>>::Abort("attempt to add with overflow"@)
        } else {
            r matches Step::Finish(entries) && records_all(
                entries@,
                message.events(joined(grouped(rows@))),
                *tx_id,
            )
        },
{
    if !rows_denote_runes(rows) {
        return Step::Abort("invalid rune id");
    }
    let inputs = group_input_rune_balances(rows);
    let balances = collect_input_rune_balances(&inputs);
    match ledger_entries(message, tx_id, balances) {
        Some(entries) => Step::Finish(entries),
        None => Step::Abort("attempt to add with overflow"),
    }
}

/// The ledger entries of a transaction. There are none where it has no protocol
/// message. Where it has one, the balances behind its inputs are read first, and
/// the process ends where that is refused.
pub fn parse_mempool_tx(
    tx: &Transaction,
    tx_id: &String,
    network: Network,
    reply: &Reply<InputBalanceRow>,
) -> (r: Step<Vec<DBMempoolLedgerEntry>>)
    requires
        tx.outputs@.len() <= u32::MAX,
    ensures
        deciphered(outputs_view(tx.outputs@)) is None ==> (r matches Step::Finish(entries)
            && entries@.len() == 0),
        deciphered(outputs_view(tx.outputs@)) is Some ==> match *reply {
            Reply::Begun => exists|spent: Seq<SpentOutput>| #[trigger]
                spends(spent, tx.inputs@) && r@ == StepView::<Vec<DBMempoolLedgerEntry>>::Run(
                    select_input_balances_statement(spent),
                ),
            Reply::Rows(rows) => exists|message: DecipheredTx| #[trigger]
                describes(message, *tx, network) && if !denote_runes(rows@) {
                    r@ == StepView::<Vec<DBMempoolLedgerEntry>>::Abort("invalid rune id"@)
                } else if !message.fits(joined(grouped(rows@))) {
                    r@ == StepView::<Vec<DBMempoolLedgerEntry>>::Abort(
                        "attempt to add with overflow"@,
                    )
                } else {
                    r matches Step::Finish(entries) && records_all(
                        entries@,
                        message.events(joined(grouped(rows@))),
                        *tx_id,
                    )
                },
            Reply::Failed => r@ == StepView::<Vec<DBMempoolLedgerEntry>>::Exit(1),
        },
{
    let message = match decipher_mempool_tx(tx, network) {
        Some(message) => message,
        None => {
            return Step::Finish(Vec::new());
        },
    };
    assert(describes(message, *tx, network));
    match reply {
        Reply::Begun => {
            let spent = spent_outputs(&tx.inputs);
            Step::Run(select_input_balances(&spent))
        },
        Reply::Rows(rows) => message_entries(&message, tx_id, rows),
        Reply::Failed => Step::Exit(1),
    }
}

} // verus!
