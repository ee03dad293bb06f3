//! What the entries of a transaction record, from its inputs and outputs on.

use vstd::prelude::*;

use crate::chain::{
    is_op_return_script, outputs_view, script_address, Network, Transaction, TxIn, TxOut,
};
use crate::db::models::db_ledger_operation::DbLedgerOperation;
use crate::db::statement::texts_view;
use crate::mempool::balances::{distinct_runes, RuneBalances, RuneInputsView};
use crate::mempool::cache::MempoolCache;
use crate::mempool::decipher::{
    holds_addresses, holds_eligible_outputs, spends, SpentOutput,
};
use crate::mempool::input_balances::{
    denote_runes, grouped, joined, InputBalanceRow, InputBalances,
};
use crate::mempool::input_laws::{
    amount_in_rows, balances_hold_what_each_address_has, joining_keeps_every_address, on_rune,
    on_rune_from,
};
use crate::mempool::ledger::{apply_edicts, DecipheredTx};
use crate::mempool::ledger_entry::{records_all, DBMempoolLedgerEntry};
use crate::mempool::ledger_laws::{
    all_in_blocks, cenotaph_burns_and_etches, each_fits, edict_in_no_block_undoes_the_message,
    every_address_gives_what_it_brings, has_address, input_count, ordinary_amounts_fit,
    runestone_gives_the_rest_to_its_pointer,
};
use crate::mempool::measures::{
    amount_where, burnt, given_by, held, held_of, lemma_held_of_listed, received_at,
};
use crate::mempool::movement::LedgerEvent;
use crate::mempool::parse::describes;
use crate::runes::{rune_id_reads_back, rune_id_value, Artifact, Edict, RuneId};

verus! {

/// An entry holds everything of the event that it records: the rune can be read from it,
/// and every field has its value.
pub proof fn entry_holds_its_event(
    entry: DBMempoolLedgerEntry,
    event: LedgerEvent,
    tx_id: String,
    index: int,
)
    requires
        entry.records(event, tx_id, index),
    ensures
        rune_id_value(entry.rune_id@) == Some(event.rune_id),
        entry.event_index.0 == index,
        entry.tx_id == tx_id,
        entry.output is Some <==> event.output is Some,
        entry.output matches Some(output) ==> output.0 == event.output->0,
        entry.address == event.address,
        entry.receiver_address == event.receiver_address,
        entry.amount is Some <==> event.amount is Some,
        entry.amount matches Some(amount) ==> amount.0 == event.amount->0,
        entry.operation == event.operation,
{
    rune_id_reads_back(event.rune_id);
}

/// An entry records one event only, of one transaction and at one place in it.
pub proof fn entry_determines_its_event(
    entry: DBMempoolLedgerEntry,
    a: LedgerEvent,
    b: LedgerEvent,
    tx_a: String,
    tx_b: String,
    i: int,
    j: int,
)
    requires
        entry.records(a, tx_a, i),
        entry.records(b, tx_b, j),
    ensures
        a == b,
        tx_a == tx_b,
        i == j,
{
    entry_holds_its_event(entry, a, tx_a, i);
    entry_holds_its_event(entry, b, tx_b, j);
}

/// The entries of a transaction record all its events, each once, in order and numbered
/// from zero.
pub proof fn entries_are_numbered_from_zero(
    entries: Seq<DBMempoolLedgerEntry>,
    events: Seq<LedgerEvent>,
    tx_id: String,
    i: int,
)
    requires
        records_all(entries, events, tx_id),
        0 <= i < events.len(),
    ensures
        entries.len() == events.len(),
        entries[i].event_index.0 == i,
        entries[i].tx_id == tx_id,
        entries[i].records(events[i], tx_id, i),
{
    assert(entries[i].records(events[i], tx_id, i));
}

/// The amount in the entries that are picked.
pub open spec fn amount_in_entries(
    entries: Seq<DBMempoolLedgerEntry>,
    pick: spec_fn(DBMempoolLedgerEntry) -> bool,
) -> int
    decreases entries.len(),
{
    if entries.len() == 0 {
        0
    } else {
        amount_in_entries(entries.drop_last(), pick) + match entries.last().amount {
            Some(amount) if pick(entries.last()) => amount.0 as int,
            _ => 0,
        }
    }
}

/// Picks the entries by which an address gives away of a rune.
pub open spec fn gives(rune_id: RuneId, address: String) -> spec_fn(DBMempoolLedgerEntry) -> bool {
    |entry: DBMempoolLedgerEntry|
        rune_id_value(entry.rune_id@) == Some(rune_id) && entry.address == Some(address) && (
        entry.operation == DbLedgerOperation::Send || entry.operation == DbLedgerOperation::Burn)
}

proof fn lemma_entries_hold_events(
    entries: Seq<DBMempoolLedgerEntry>,
    events: Seq<LedgerEvent>,
    tx_id: String,
    rune_id: RuneId,
    address: String,
)
    requires
        records_all(entries, events, tx_id),
    ensures
        amount_in_entries(entries, gives(rune_id, address)) == amount_where(
            events,
            given_by(rune_id, address),
        ),
    decreases entries.len(),
{
    if entries.len() > 0 {
        let n = entries.len() - 1;
        assert(entries[n].records(events[n], tx_id, n));
        entry_holds_its_event(entries[n], events[n], tx_id, n);
        let a = entries.drop_last();
        let b = events.drop_last();
        assert forall|i: int| 0 <= i < a.len() implies (#[trigger] a[i]).records(
            b[i],
            tx_id,
            i,
        ) by {
            assert(entries[i].records(events[i], tx_id, i));
        }
        lemma_entries_hold_events(a, b, tx_id, rune_id, address);
    }
}

/// Whether what the rows hold of each rune fits the integer type.
pub open spec fn rows_fit(rows: Seq<InputBalanceRow>) -> bool {
    forall|rune_id: RuneId| #[trigger] amount_in_rows(rows, on_rune(rune_id)) <= u128::MAX
}

proof fn lemma_joined_fits(rows: Seq<InputBalanceRow>)
    requires
        denote_runes(rows),
        rows_fit(rows),
    ensures
        distinct_runes(joined(grouped(rows))),
        each_fits(joined(grouped(rows))),
{
    let balances = joined(grouped(rows));
    joining_keeps_every_address(grouped(rows), RuneId { block: 0, tx: 0 }, arbitrary());
    assert forall|i: int| 0 <= i < balances.len() implies held((#[trigger] balances[i]).inputs)
        <= u128::MAX by {
        assert forall|k: int|
            0 <= k < balances.len() && k != i implies #[trigger] balances[k].rune_id
            != balances[i].rune_id by {
            if k < i {
                assert(balances[k].rune_id != balances[i].rune_id);
            } else {
                assert(balances[i].rune_id != balances[k].rune_id);
            }
        }
        lemma_held_of_listed(balances, i, arbitrary());
        balances_hold_what_each_address_has(rows, balances[i].rune_id, arbitrary());
        assert(amount_in_rows(rows, on_rune(balances[i].rune_id)) <= u128::MAX);
    }
}

/// From the rows of the ledger to the entries: of each rune, what the entries of a
/// transaction have each address give away is what the rows of its inputs hold from that
/// address. This is so unless an edict is on a rune that is in no block yet.
pub proof fn entries_give_what_the_rows_hold(
    message: DecipheredTx,
    rows: Seq<InputBalanceRow>,
    entries: Seq<DBMempoolLedgerEntry>,
    tx_id: String,
    rune_id: RuneId,
    address: String,
)
    requires
        denote_runes(rows),
        rows_fit(rows),
        records_all(entries, message.events(joined(grouped(rows))), tx_id),
        message.artifact matches Artifact::Runestone { edicts, .. } ==> all_in_blocks(edicts@),
    ensures
        amount_in_entries(entries, gives(rune_id, address)) == amount_in_rows(
            rows,
            on_rune_from(rune_id, address),
        ),
{
    let balances = joined(grouped(rows));
    lemma_joined_fits(rows);
    lemma_entries_hold_events(entries, message.events(balances), tx_id, rune_id, address);
    every_address_gives_what_it_brings(
        message.artifact@,
        balances,
        message.receivers@,
        message.total_outputs,
        rune_id,
        address,
    );
    balances_hold_what_each_address_has(rows, rune_id, address);
}

/// What a transaction with a well-formed message does is what its edicts do, one after the
/// other, with its outputs, and then what they leave goes to the output of its pointer.
pub proof fn message_carries_out_its_edicts_and_pointer(
    message: DecipheredTx,
    edicts: Vec<Edict>,
    pointer: Option<u32>,
    balances: Seq<RuneInputsView>,
    rune_id: RuneId,
)
    requires
        message.artifact == (Artifact::Runestone { edicts, pointer }),
        distinct_runes(balances),
        each_fits(balances),
        all_in_blocks(edicts@),
    ensures
        ({
            let events = message.events(balances);
            let outcome = apply_edicts(
                edicts@,
                balances,
                message.receivers@,
                message.total_outputs,
            );
            let left = held_of(outcome.balances, rune_id);
            &&& outcome.events.is_prefix_of(events)
            &&& has_address(pointer, message.receivers@) ==> {
                &&& amount_where(events, received_at(rune_id, pointer)) == amount_where(
                    outcome.events,
                    received_at(rune_id, pointer),
                ) + left
                &&& amount_where(events, burnt(rune_id)) == amount_where(
                    outcome.events,
                    burnt(rune_id),
                )
            }
        }),
{
    runestone_gives_the_rest_to_its_pointer(
        edicts@,
        pointer,
        balances,
        message.receivers@,
        message.total_outputs,
        rune_id,
    );
}

/// A transaction with a malformed message burns all that its inputs bring in, and etches
/// where the message does.
pub proof fn malformed_message_burns_everything(
    message: DecipheredTx,
    etching: Option<u128>,
    balances: Seq<RuneInputsView>,
    rune_id: RuneId,
)
    requires
        message.artifact == (Artifact::Cenotaph { etching }),
    ensures
        ({
            let events = message.events(balances);
            &&& events.len() == input_count(balances) + if etching is Some {
                1int
            } else {
                0int
            }
            &&& amount_where(events, burnt(rune_id)) == held_of(balances, rune_id)
            &&& etching is Some ==> events.last().operation == DbLedgerOperation::Etching
        }),
{
    cenotaph_burns_and_etches(
        etching,
        balances,
        message.receivers@,
        message.total_outputs,
        rune_id,
    );
}

/// The eligible outputs of a transaction are those whose script does not start with the
/// byte of `OP_RETURN`, and each has the address of its script.
pub proof fn eligible_outputs_have_their_addresses(
    message: DecipheredTx,
    tx: Transaction,
    network: Network,
    i: u32,
)
    requires
        describes(message, tx, network),
    ensures
        message.total_outputs == tx.outputs@.len(),
        ({
            let receivers = message.receivers@;
            let script = tx.outputs@[i as int].script_pubkey@;
            &&& i >= tx.outputs@.len() ==> !receivers.contains_key(i)
            &&& i < tx.outputs@.len() ==> {
                &&& receivers.contains_key(i) <==> !(script.len() > 0 && script[0] == 0x6a)
                &&& receivers.contains_key(i) ==> match script_address(script, network) {
                    Some(address) => receivers[i] is Some && receivers[i]->0@ == address,
                    None => receivers[i] is None,
                }
            }
        }),
{
    assert(message.receivers@.contains_key(i) <==> i < tx.outputs@.len() && !is_op_return_script(
        tx.outputs@[i as int].script_pubkey@,
    ));
}

/// The outputs that are looked up are those that the inputs spend, each under the index of
/// its input.
pub proof fn inputs_are_looked_up_by_what_they_spend(
    spent: Seq<SpentOutput>,
    inputs: Seq<TxIn>,
    i: int,
)
    requires
        spends(spent, inputs),
        0 <= i < inputs.len(),
    ensures
        spent.len() == inputs.len(),
        inputs.len() <= u32::MAX ==> spent[i].input_index == i,
        spent[i].output == inputs[i].vout,
        spent[i].tx_id@ == crate::chain::hash_text(inputs[i].txid@),
{
}

/// Balances show every rune that they list, and all of its inputs.
pub proof fn balances_show_every_entry(balances: RuneBalances, inputs: InputBalances, i: int)
    requires
        0 <= i < balances.entries@.len(),
    ensures
        balances@.len() == balances.entries@.len(),
        balances@[i].rune_id == balances.entries@[i].rune_id,
        balances@[i].inputs == balances.entries@[i].inputs@,
        inputs@.index == inputs.index,
        inputs@.balances == inputs.balances@,
{
}

/// A transaction can be recorded as soon as what the rows of its inputs hold of each rune fits
/// the integer type and its events can be numbered. This is so unless an edict is on a rune
/// that is in no block yet.
pub proof fn ordinary_message_fits(message: DecipheredTx, rows: Seq<InputBalanceRow>)
    requires
        denote_runes(rows),
        rows_fit(rows),
        message.events(joined(grouped(rows))).len() <= u32::MAX,
        message.artifact matches Artifact::Runestone { edicts, .. } ==> all_in_blocks(edicts@),
    ensures
        message.fits(joined(grouped(rows))),
{
    lemma_joined_fits(rows);
    ordinary_amounts_fit(
        message.artifact@,
        joined(grouped(rows)),
        message.receivers@,
        message.total_outputs,
    );
}

/// A transaction with an edict on a rune that is in no block yet has no events, and can be
/// recorded as soon as those of the edicts before it can be numbered.
pub proof fn message_with_edict_in_no_block_is_empty(
    message: DecipheredTx,
    edicts: Vec<Edict>,
    pointer: Option<u32>,
    balances: Seq<RuneInputsView>,
    n: int,
)
    requires
        message.artifact == (Artifact::Runestone { edicts, pointer }),
        0 <= n < edicts@.len(),
        edicts@[n].id.block == 0 && edicts@[n].id.tx == 0,
        all_in_blocks(edicts@.take(n)),
        distinct_runes(balances),
        each_fits(balances),
    ensures
        message.events(balances).len() == 0,
        message.fits(balances) <==> apply_edicts(
            edicts@.take(n),
            balances,
            message.receivers@,
            message.total_outputs,
        ).events.len() <= u32::MAX,
{
    edict_in_no_block_undoes_the_message(
        edicts@,
        pointer,
        balances,
        message.receivers@,
        message.total_outputs,
        n,
    );
}

/// The scripts that are kept are those of the outputs whose script does not start with the
/// byte of `OP_RETURN`, each under the index of its output, and each then has its address.
pub proof fn kept_scripts_are_those_of_their_outputs(
    receivers: Map<u32, Option<String>>,
    scripts: Map<u32, Vec<u8>>,
    outputs: Seq<TxOut>,
    network: Network,
    i: u32,
)
    requires
        holds_eligible_outputs(scripts, outputs),
        holds_addresses(receivers, scripts, network),
    ensures
        ({
            let script = outputs[i as int].script_pubkey@;
            &&& scripts.contains_key(i) <==> i < outputs.len() && !(script.len() > 0 && script[0]
                == 0x6a)
            &&& scripts.contains_key(i) ==> scripts[i]@ == script
            &&& receivers.contains_key(i) <==> scripts.contains_key(i)
            &&& receivers.contains_key(i) ==> match script_address(script, network) {
                Some(address) => receivers[i] is Some && receivers[i]->0@ == address,
                None => receivers[i] is None,
            }
        }),
{
    assert(scripts.contains_key(i) <==> i < outputs.len() && !is_op_return_script(
        outputs[i as int].script_pubkey@,
    ));
    assert(receivers.dom().contains(i) == scripts.dom().contains(i));
    assert(receivers.contains_key(i) == receivers.dom().contains(i));
    if scripts.contains_key(i) {
        assert(scripts[i]@ == outputs[i as int].script_pubkey@);
    }
}

/// A transaction shows everything that its hash is made from: every input and every output
/// with all their fields.
pub proof fn transaction_shows_its_inputs_and_outputs(tx: Transaction, i: int)
    ensures
        tx@.version == tx.version,
        tx@.lock_time == tx.lock_time,
        tx@.inputs.len() == tx.inputs@.len(),
        tx@.outputs.len() == tx.outputs@.len(),
        tx@.outputs == outputs_view(tx.outputs@),
        0 <= i < tx.inputs@.len() ==> {
            let input = tx.inputs@[i];
            let shown = tx@.inputs[i];
            &&& shown.txid == input.txid@
            &&& shown.vout == input.vout
            &&& shown.script_sig == input.script_sig@
            &&& shown.sequence == input.sequence
        },
        0 <= i < tx.outputs@.len() ==> {
            let output = tx.outputs@[i];
            let shown = tx@.outputs[i];
            &&& shown.value == output.value
            &&& shown.script_pubkey == output.script_pubkey@
        },
{
}

/// A cache shows exactly the ids that it lists.
pub proof fn cache_shows_the_ids_that_it_lists(cache: MempoolCache, tx_id: Seq<char>)
    ensures
        cache@.contains(tx_id) <==> exists|i: int|
            0 <= i < cache.tx_ids@.len() && (#[trigger] cache.tx_ids@[i])@ == tx_id,
{
    let shown = texts_view(cache.tx_ids@);
    if shown.contains(tx_id) {
        let i = choose|i: int| 0 <= i < shown.len() && shown[i] == tx_id;
        assert(cache.tx_ids@[i]@ == tx_id);
    }
    if exists|i: int|
        0 <= i < cache.tx_ids@.len() && (#[trigger] cache.tx_ids@[i])@ == tx_id {
        let i = choose|i: int|
            0 <= i < cache.tx_ids@.len() && (#[trigger] cache.tx_ids@[i])@ == tx_id;
        assert(shown[i] == tx_id);
    }
}

} // verus!
