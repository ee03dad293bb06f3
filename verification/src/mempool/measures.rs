//! Amounts that are counted over balances and over events, by whose they are and
//! where they go.

use vstd::prelude::*;

use crate::db::models::db_ledger_operation::DbLedgerOperation;
use crate::db::models::input_rune_balance::{total_amount, InputRuneBalance};
use crate::mempool::balances::RuneInputsView;
use crate::mempool::movement::LedgerEvent;
use crate::runes::RuneId;

verus! {

/// What the inputs hold.
pub open spec fn held(inputs: Seq<InputRuneBalance>) -> int
    decreases inputs.len(),
{
    if inputs.len() == 0 {
        0
    } else {
        held(inputs.drop_last()) + inputs.last().amount
    }
}

/// What the inputs hold from an address.
pub open spec fn held_from(inputs: Seq<InputRuneBalance>, address: String) -> int
    decreases inputs.len(),
{
    if inputs.len() == 0 {
        0
    } else {
        held_from(inputs.drop_last(), address) + if inputs.last().address == Some(address) {
            inputs.last().amount as int
        } else {
            0
        }
    }
}

/// What balances hold of a rune.
pub open spec fn held_of(balances: Seq<RuneInputsView>, rune_id: RuneId) -> int
    decreases balances.len(),
{
    if balances.len() == 0 {
        0
    } else {
        held_of(balances.drop_last(), rune_id) + if balances.last().rune_id == rune_id {
            held(balances.last().inputs)
        } else {
            0
        }
    }
}

/// What balances hold of a rune from an address.
pub open spec fn held_of_from(
    balances: Seq<RuneInputsView>,
    rune_id: RuneId,
    address: String,
) -> int
    decreases balances.len(),
{
    if balances.len() == 0 {
        0
    } else {
        held_of_from(balances.drop_last(), rune_id, address) + if balances.last().rune_id
            == rune_id {
            held_from(balances.last().inputs, address)
        } else {
            0
        }
    }
}

/// The amount in the events that are picked.
pub open spec fn amount_where(
    events: Seq<LedgerEvent>,
    pick: spec_fn(LedgerEvent) -> bool,
) -> int
    decreases events.len(),
{
    if events.len() == 0 {
        0
    } else {
        amount_where(events.drop_last(), pick) + if pick(events.last()) && events.last().amount
            is Some {
            events.last().amount->0 as int
        } else {
            0
        }
    }
}

/// Picks what an address gives away of a rune: what it sends and what it burns.
pub open spec fn given_by(rune_id: RuneId, address: String) -> spec_fn(LedgerEvent) -> bool {
    |event: LedgerEvent|
        event.rune_id == rune_id && event.address == Some(address) && (event.operation
            == DbLedgerOperation::Send || event.operation == DbLedgerOperation::Burn)
}

/// Picks what is received of a rune at an output.
pub open spec fn received_at(rune_id: RuneId, output: Option<u32>) -> spec_fn(LedgerEvent) -> bool {
    |event: LedgerEvent|
        event.rune_id == rune_id && event.output == output && event.operation
            == DbLedgerOperation::Receive
}

/// Picks what is burnt of a rune at an output.
pub open spec fn burnt_at(rune_id: RuneId, output: Option<u32>) -> spec_fn(LedgerEvent) -> bool {
    |event: LedgerEvent|
        event.rune_id == rune_id && event.output == output && event.operation
            == DbLedgerOperation::Burn
}

/// Picks what is burnt of a rune.
pub open spec fn burnt(rune_id: RuneId) -> spec_fn(LedgerEvent) -> bool {
    |event: LedgerEvent| event.rune_id == rune_id && event.operation == DbLedgerOperation::Burn
}

/// Picks what is received of a rune.
pub open spec fn received(rune_id: RuneId) -> spec_fn(LedgerEvent) -> bool {
    |event: LedgerEvent| event.rune_id == rune_id && event.operation == DbLedgerOperation::Receive
}

/// Picks what is sent of a rune.
pub open spec fn sent(rune_id: RuneId) -> spec_fn(LedgerEvent) -> bool {
    |event: LedgerEvent| event.rune_id == rune_id && event.operation == DbLedgerOperation::Send
}

/// Picks what is sent of a rune to an output.
pub open spec fn sent_at(rune_id: RuneId, output: Option<u32>) -> spec_fn(LedgerEvent) -> bool {
    |event: LedgerEvent|
        event.rune_id == rune_id && event.output == output && event.operation
            == DbLedgerOperation::Send
}

/// What is held is the total.
pub proof fn lemma_held_is_the_total(inputs: Seq<InputRuneBalance>)
    ensures
        held(inputs) == total_amount(inputs),
    decreases inputs.len(),
{
    if inputs.len() > 0 {
        lemma_held_is_the_total(inputs.drop_last());
    }
}

/// Two runs of events hold the sum of what each holds.
pub proof fn lemma_amount_of_both(
    a: Seq<LedgerEvent>,
    b: Seq<LedgerEvent>,
    pick: spec_fn(LedgerEvent) -> bool,
)
    ensures
        amount_where(a + b, pick) == amount_where(a, pick) + amount_where(b, pick),
    decreases b.len(),
{
    if b.len() == 0 {
        assert(a + b =~= a);
    } else {
        assert((a + b).drop_last() =~= a + b.drop_last());
        lemma_amount_of_both(a, b.drop_last(), pick);
    }
}

/// Events none of which is picked hold nothing.
pub proof fn lemma_amount_of_none(events: Seq<LedgerEvent>, pick: spec_fn(LedgerEvent) -> bool)
    requires
        forall|i: int| 0 <= i < events.len() ==> !pick(#[trigger] events[i]),
    ensures
        amount_where(events, pick) == 0,
    decreases events.len(),
{
    if events.len() > 0 {
        let rest = events.drop_last();
        assert forall|i: int| 0 <= i < rest.len() implies !pick(#[trigger] rest[i]) by {
            assert(rest[i] == events[i]);
        }
        assert(!pick(events[events.len() - 1]));
        lemma_amount_of_none(rest, pick);
    }
}

/// Two ways of picking that agree on the events pick the same amount.
pub proof fn lemma_amount_of_the_same(
    events: Seq<LedgerEvent>,
    a: spec_fn(LedgerEvent) -> bool,
    b: spec_fn(LedgerEvent) -> bool,
)
    requires
        forall|i: int| 0 <= i < events.len() ==> a(#[trigger] events[i]) == b(events[i]),
    ensures
        amount_where(events, a) == amount_where(events, b),
    decreases events.len(),
{
    if events.len() > 0 {
        let rest = events.drop_last();
        assert forall|i: int| 0 <= i < rest.len() implies a(#[trigger] rest[i]) == b(rest[i]) by {
            assert(rest[i] == events[i]);
        }
        assert(a(events[events.len() - 1]) == b(events[events.len() - 1]));
        lemma_amount_of_the_same(rest, a, b);
    }
}

/// Of a rune that is not listed, nothing is held.
pub proof fn lemma_held_of_unlisted(
    balances: Seq<RuneInputsView>,
    rune_id: RuneId,
    address: String,
)
    requires
        forall|i: int| 0 <= i < balances.len() ==> #[trigger] balances[i].rune_id != rune_id,
    ensures
        held_of(balances, rune_id) == 0,
        held_of_from(balances, rune_id, address) == 0,
    decreases balances.len(),
{
    if balances.len() > 0 {
        let rest = balances.drop_last();
        assert forall|i: int| 0 <= i < rest.len() implies #[trigger] rest[i].rune_id != rune_id by {
            assert(rest[i] == balances[i]);
        }
        assert(balances[balances.len() - 1].rune_id != rune_id);
        lemma_held_of_unlisted(rest, rune_id, address);
    }
}

/// Of a rune that is listed once, what its inputs hold is held.
pub proof fn lemma_held_of_listed(
    balances: Seq<RuneInputsView>,
    n: int,
    address: String,
)
    requires
        0 <= n < balances.len(),
        forall|i: int|
            0 <= i < balances.len() && i != n ==> #[trigger] balances[i].rune_id
                != balances[n].rune_id,
    ensures
        held_of(balances, balances[n].rune_id) == held(balances[n].inputs),
        held_of_from(balances, balances[n].rune_id, address) == held_from(
            balances[n].inputs,
            address,
        ),
    decreases balances.len(),
{
    let rest = balances.drop_last();
    let rune_id = balances[n].rune_id;
    if n == balances.len() - 1 {
        assert forall|i: int| 0 <= i < rest.len() implies #[trigger] rest[i].rune_id != rune_id by {
            assert(rest[i] == balances[i]);
        }
        lemma_held_of_unlisted(rest, rune_id, address);
    } else {
        assert(rest[n] == balances[n]);
        assert forall|i: int| 0 <= i < rest.len() && i != n implies #[trigger] rest[i].rune_id
            != rest[n].rune_id by {
            assert(rest[i] == balances[i]);
        }
        assert(balances[balances.len() - 1].rune_id != rune_id);
        lemma_held_of_listed(rest, n, address);
    }
}

} // verus!
