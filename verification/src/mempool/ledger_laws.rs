//! What the message of a transaction does with the runes that its inputs bring in.

use vstd::prelude::*;

use crate::db::models::db_ledger_operation::DbLedgerOperation;
use crate::db::models::input_rune_balance::{total_amount, InputRuneBalance};
use crate::mempool::balances::{
    distinct_runes, lemma_inputs_of_listed, lemma_inputs_of_unlisted, RuneInputsView,
};
use crate::mempool::edict_laws::known_senders;
use crate::mempool::edicts::{
    ascending, distribute, edict_distribution, edict_fits, edict_outcome, equal_shares,
    is_unincluded, same_amount, EdictOutcome,
};
use crate::mempool::ledger::{
    allocation_events, allocation_fits, apply_edicts, artifact_events, artifact_fits, burn_events,
    burn_inputs, edicts_fit, included,
};
use crate::mempool::measures::{
    amount_where, burnt, burnt_at, given_by, held, held_from, held_of, held_of_from,
    lemma_amount_of_both, lemma_amount_of_none, lemma_amount_of_the_same, lemma_held_is_the_total,
    lemma_held_of_listed, received, received_at, sent, sent_at,
};
use crate::mempool::movement::{asked, move_events, receiver_of, take, LedgerEvent};
use crate::mempool::movement_laws::{
    is_move_event, movement_takes_and_records, movement_to_a_receiver_sends,
    movement_without_receiver_burns,
};
use crate::runes::{ArtifactView, Edict, RuneId};

verus! {

/// Whether an output is eligible and has an address.
pub open spec fn has_address(output: Option<u32>, receivers: Map<u32, Option<String>>) -> bool {
    output matches Some(index) && receivers.contains_key(index) && receivers[index] is Some
}

/// Whether what the inputs hold of each rune fits the integer type.
pub open spec fn each_fits(balances: Seq<RuneInputsView>) -> bool {
    forall|i: int|
        0 <= i < balances.len() ==> held((#[trigger] balances[i]).inputs) <= u128::MAX
}

/// Whether every input of every rune that holds something comes from a known address.
pub open spec fn all_known_senders(balances: Seq<RuneInputsView>) -> bool {
    forall|i: int| 0 <= i < balances.len() ==> known_senders((#[trigger] balances[i]).inputs)
}

/// Whether no edict is on a rune that is in no block yet.
pub open spec fn all_in_blocks(edicts: Seq<Edict>) -> bool {
    forall|k: int|
        0 <= k < edicts.len() ==> !((#[trigger] edicts[k]).id.block == 0 && edicts[k].id.tx == 0)
}

/// How many inputs carry a rune, for all runes together.
pub open spec fn input_count(balances: Seq<RuneInputsView>) -> nat
    decreases balances.len(),
{
    if balances.len() == 0 {
        0
    } else {
        input_count(balances.drop_last()) + balances.last().inputs.len()
    }
}

/// What is left goes to the output of the pointer, all of it and for every rune: where
/// that output is eligible and has an address, the address receives everything and
/// nothing is burnt; where it is not, nothing is received. As far as the senders are
/// known, everything is sent in the first case and burnt in the second. Every event names
/// the output of the pointer. Each address gives all that it holds.
pub proof fn allocation_gives_everything_to_the_pointer(
    balances: Seq<RuneInputsView>,
    pointer: Option<u32>,
    receivers: Map<u32, Option<String>>,
    rune_id: RuneId,
    address: String,
)
    requires
        each_fits(balances),
    ensures
        ({
            let events = allocation_events(balances, pointer, receivers);
            &&& has_address(pointer, receivers) ==> {
                &&& amount_where(events, received_at(rune_id, pointer)) == held_of(
                    balances,
                    rune_id,
                )
                &&& all_known_senders(balances) ==> amount_where(
                    events,
                    sent_at(rune_id, pointer),
                ) == held_of(balances, rune_id)
                &&& amount_where(events, burnt(rune_id)) == 0
                &&& forall|i: int|
                    0 <= i < events.len() ==> is_move_event(
                        #[trigger] events[i],
                        events[i].rune_id,
                        pointer,
                        receivers[pointer->0],
                    )
            }
            &&& !has_address(pointer, receivers) ==> {
                &&& amount_where(events, received(rune_id)) == 0
                &&& all_known_senders(balances) ==> amount_where(
                    events,
                    burnt_at(rune_id, pointer),
                ) == held_of(balances, rune_id)
                &&& forall|i: int|
                    0 <= i < events.len() ==> is_move_event(
                        #[trigger] events[i],
                        events[i].rune_id,
                        pointer,
                        None,
                    )
            }
            &&& amount_where(events, given_by(rune_id, address)) == held_of_from(
                balances,
                rune_id,
                address,
            )
        }),
    decreases balances.len(),
{
    if balances.len() > 0 {
        let rest = balances.drop_last();
        let last = balances.last();
        assert forall|i: int| 0 <= i < rest.len() implies held((#[trigger] rest[i]).inputs)
            <= u128::MAX by {
            assert(rest[i] == balances[i]);
        }
        if all_known_senders(balances) {
            assert forall|i: int| 0 <= i < rest.len() implies known_senders(
                (#[trigger] rest[i]).inputs,
            ) by {
                assert(rest[i] == balances[i]);
            }
            assert(known_senders(balances[balances.len() - 1].inputs));
        }
        assert(held(balances[balances.len() - 1].inputs) <= u128::MAX);
        allocation_gives_everything_to_the_pointer(rest, pointer, receivers, rune_id, address);
        let before = allocation_events(rest, pointer, receivers);
        let receiver = receiver_of(pointer, receivers);
        let moved = move_events(last.rune_id, pointer, receiver, last.inputs, None);
        let events = before + moved;
        movement_takes_and_records(last.rune_id, pointer, receiver, last.inputs, None, address);
        lemma_nothing_is_held(take(last.inputs, None, 0).rest, address);
        if known_senders(last.inputs) {
            match receiver {
                Some(known) => {
                    movement_to_a_receiver_sends(
                        last.rune_id,
                        pointer,
                        known,
                        last.inputs,
                        None,
                    );
                },
                None => {
                    movement_without_receiver_burns(last.rune_id, pointer, last.inputs, None);
                },
            }
        }
        lemma_amount_of_both(before, moved, received_at(rune_id, pointer));
        lemma_amount_of_both(before, moved, received(rune_id));
        lemma_amount_of_both(before, moved, burnt(rune_id));
        lemma_amount_of_both(before, moved, burnt_at(rune_id, pointer));
        lemma_amount_of_both(before, moved, sent_at(rune_id, pointer));
        lemma_amount_of_both(before, moved, given_by(rune_id, address));
        if rune_id == last.rune_id {
            lemma_amount_of_the_same(moved, sent_at(rune_id, pointer), sent(rune_id));
            lemma_amount_of_the_same(moved, received_at(rune_id, pointer), received(rune_id));
            lemma_amount_of_the_same(moved, burnt_at(rune_id, pointer), burnt(rune_id));
            if receiver is Some {
                lemma_amount_of_none(moved, burnt(rune_id));
            }
        } else {
            lemma_amount_of_none(moved, received_at(rune_id, pointer));
            lemma_amount_of_none(moved, received(rune_id));
            lemma_amount_of_none(moved, burnt(rune_id));
            lemma_amount_of_none(moved, burnt_at(rune_id, pointer));
            lemma_amount_of_none(moved, sent_at(rune_id, pointer));
            lemma_amount_of_none(moved, given_by(rune_id, address));
        }
        assert forall|i: int| 0 <= i < events.len() implies is_move_event(
            #[trigger] events[i],
            events[i].rune_id,
            pointer,
            receiver,
        ) by {
            if i < before.len() {
                assert(events[i] == before[i]);
            } else {
                assert(events[i] == moved[i - before.len()]);
            }
        }
    }
}

proof fn lemma_nothing_is_held(rest: Seq<InputRuneBalance>, address: String)
    ensures
        held(rest) == 0 ==> held_from(rest, address) == 0,
        held(rest) >= 0,
        0 <= held_from(rest, address) <= held(rest),
    decreases rest.len(),
{
    if rest.len() > 0 {
        lemma_nothing_is_held(rest.drop_last(), address);
    }
}

/// Burning everything burns it for every rune: there is one event for each input, each
/// is a burn without an output or a receiver, of each rune all that is held is burnt, and
/// each address gives all that it holds.
pub proof fn burning_burns_each_input(
    balances: Seq<RuneInputsView>,
    rune_id: RuneId,
    address: String,
)
    ensures
        ({
            let events = burn_events(balances);
            &&& events.len() == input_count(balances)
            &&& forall|i: int|
                0 <= i < events.len() ==> {
                    &&& (#[trigger] events[i]).operation == DbLedgerOperation::Burn
                    &&& events[i].output is None
                    &&& events[i].receiver_address is None
                    &&& events[i].amount is Some
                }
            &&& amount_where(events, burnt(rune_id)) == held_of(balances, rune_id)
            &&& amount_where(events, given_by(rune_id, address)) == held_of_from(
                balances,
                rune_id,
                address,
            )
        }),
    decreases balances.len(),
{
    if balances.len() > 0 {
        let rest = balances.drop_last();
        let last = balances.last();
        burning_burns_each_input(rest, rune_id, address);
        lemma_burn_inputs(last.rune_id, last.inputs, rune_id, address);
        let before = burn_events(rest);
        let more = burn_inputs(last.rune_id, last.inputs);
        let events = before + more;
        lemma_amount_of_both(before, more, burnt(rune_id));
        lemma_amount_of_both(before, more, given_by(rune_id, address));
        assert forall|i: int| 0 <= i < events.len() implies {
            &&& (#[trigger] events[i]).operation == DbLedgerOperation::Burn
            &&& events[i].output is None
            &&& events[i].receiver_address is None
            &&& events[i].amount is Some
        } by {
            if i < before.len() {
                assert(events[i] == before[i]);
            }
        }
    }
}

proof fn lemma_burn_inputs(
    rune_id: RuneId,
    inputs: Seq<InputRuneBalance>,
    other: RuneId,
    address: String,
)
    ensures
        ({
            let events = burn_inputs(rune_id, inputs);
            &&& amount_where(events, burnt(other)) == if other == rune_id {
                held(inputs)
            } else {
                0
            }
            &&& amount_where(events, given_by(other, address)) == if other == rune_id {
                held_from(inputs, address)
            } else {
                0
            }
        }),
    decreases inputs.len(),
{
    if inputs.len() > 0 {
        let events = burn_inputs(rune_id, inputs);
        assert(events.drop_last() =~= burn_inputs(rune_id, inputs.drop_last()));
        lemma_burn_inputs(rune_id, inputs.drop_last(), other, address);
    }
}

proof fn lemma_distribute_gives(
    rune_id: RuneId,
    outputs: Seq<u32>,
    amounts: Seq<nat>,
    inputs: Seq<InputRuneBalance>,
    receivers: Map<u32, Option<String>>,
    address: String,
)
    requires
        held(inputs) <= u128::MAX,
    ensures
        ({
            let done = distribute(rune_id, outputs, amounts, inputs, receivers);
            &&& held(done.rest) <= held(inputs)
            &&& amount_where(done.events, given_by(rune_id, address)) == held_from(inputs, address)
                - held_from(done.rest, address)
            &&& forall|i: int|
                0 <= i < done.events.len() ==> (#[trigger] done.events[i]).rune_id == rune_id
        }),
    decreases outputs.len(),
{
    if outputs.len() > 0 {
        let before = distribute(
            rune_id,
            outputs.drop_last(),
            amounts.drop_last(),
            inputs,
            receivers,
        );
        lemma_distribute_gives(
            rune_id,
            outputs.drop_last(),
            amounts.drop_last(),
            inputs,
            receivers,
            address,
        );
        let output = Some(outputs.last());
        let receiver = receiver_of(output, receivers);
        let amount = Some(amounts.last());
        let moved = move_events(rune_id, output, receiver, before.rest, amount);
        lemma_nothing_is_held(before.rest, address);
        movement_takes_and_records(rune_id, output, receiver, before.rest, amount, address);
        lemma_amount_of_both(before.events, moved, given_by(rune_id, address));
        let done = distribute(rune_id, outputs, amounts, inputs, receivers);
        assert(done.events == before.events + moved);
        assert forall|i: int| 0 <= i < done.events.len() implies (
        #[trigger] done.events[i]).rune_id == rune_id by {
            if i < before.events.len() {
                assert(done.events[i] == before.events[i]);
            } else {
                assert(done.events[i] == moved[i - before.events.len()]);
            }
        }
    }
}

proof fn lemma_edict_distribution_gives(
    edict: Edict,
    inputs: Seq<InputRuneBalance>,
    receivers: Map<u32, Option<String>>,
    total_outputs: u32,
    address: String,
)
    requires
        held(inputs) <= u128::MAX,
    ensures
        ({
            let done = edict_distribution(edict, inputs, receivers, total_outputs);
            &&& held(done.rest) <= held(inputs)
            &&& amount_where(done.events, given_by(edict.id, address)) == held_from(
                inputs,
                address,
            ) - held_from(done.rest, address)
            &&& forall|i: int|
                0 <= i < done.events.len() ==> (#[trigger] done.events[i]).rune_id == edict.id
        }),
{
    lemma_held_is_the_total(inputs);
    let unallocated = total_amount(inputs);
    let amount = edict.amount as nat;
    let outputs = ascending(receivers.dom());
    let count = outputs.len();
    let each = if amount <= unallocated {
        amount
    } else {
        unallocated
    };
    let shares = equal_shares(unallocated, count);
    lemma_distribute_gives(edict.id, outputs, shares, inputs, receivers, address);
    let same = same_amount(each, count);
    lemma_distribute_gives(edict.id, outputs, same, inputs, receivers, address);
    lemma_nothing_is_held(inputs, address);
    let to_one = Some(
        if amount == 0 {
            unallocated
        } else {
            amount
        },
    );
    let output = Some(edict.output);
    let receiver = receiver_of(output, receivers);
    movement_takes_and_records(edict.id, output, receiver, inputs, to_one, address);
    movement_takes_and_records(
        edict.id,
        None,
        receiver_of(None, receivers),
        inputs,
        asked(edict.amount),
        address,
    );
}

/// An edict leaves the runes where they are listed, takes nothing of another rune and
/// records nothing of it, and adds to none.
pub proof fn edict_touches_its_rune_only(
    edict: Edict,
    balances: Seq<RuneInputsView>,
    receivers: Map<u32, Option<String>>,
    total_outputs: u32,
    address: String,
)
    requires
        distinct_runes(balances),
        each_fits(balances),
    ensures
        ({
            let outcome = edict_outcome(edict, balances, receivers, total_outputs);
            &&& outcome.balances.len() == balances.len()
            &&& forall|k: int|
                0 <= k < balances.len() ==> {
                    &&& (#[trigger] outcome.balances[k]).rune_id == balances[k].rune_id
                    &&& held(outcome.balances[k].inputs) <= held(balances[k].inputs)
                    &&& balances[k].rune_id != edict.id ==> outcome.balances[k] == balances[k]
                }
            &&& forall|i: int|
                0 <= i < outcome.events.len() ==> (#[trigger] outcome.events[i]).rune_id
                    == edict.id
            &&& amount_where(outcome.events, given_by(edict.id, address)) == held_of_from(
                balances,
                edict.id,
                address,
            ) - held_of_from(outcome.balances, edict.id, address)
        }),
{
    let outcome = edict_outcome(edict, balances, receivers, total_outputs);
    if exists|n: int| 0 <= n < balances.len() && balances[n].rune_id == edict.id {
        let n = choose|n: int| 0 <= n < balances.len() && balances[n].rune_id == edict.id;
        lemma_inputs_of_listed(balances, n);
        assert(held(balances[n].inputs) <= u128::MAX);
        lemma_edict_distribution_gives(
            edict,
            balances[n].inputs,
            receivers,
            total_outputs,
            address,
        );
        assert forall|i: int|
            0 <= i < balances.len() && i != n implies #[trigger] balances[i].rune_id
            != balances[n].rune_id by {
            if i < n {
                assert(balances[i].rune_id != balances[n].rune_id);
            } else {
                assert(balances[n].rune_id != balances[i].rune_id);
            }
        }
        lemma_held_of_listed(balances, n, address);
        if !is_unincluded(edict.id) {
            let after = outcome.balances;
            assert(after[n].rune_id == edict.id);
            assert forall|i: int| 0 <= i < after.len() && i != n implies #[trigger] after[i].rune_id
                != after[n].rune_id by {
                assert(balances[i].rune_id != balances[n].rune_id);
            }
            lemma_held_of_listed(after, n, address);
        }
    } else {
        lemma_inputs_of_unlisted(balances, edict.id);
    }
}

/// Edicts work one after the other: what two lists of edicts do together is what the
/// second does with what the first leaves, after it.
pub proof fn edicts_work_in_order(
    first: Seq<Edict>,
    second: Seq<Edict>,
    balances: Seq<RuneInputsView>,
    receivers: Map<u32, Option<String>>,
    total_outputs: u32,
)
    ensures
        ({
            let one = apply_edicts(first, balances, receivers, total_outputs);
            let two = apply_edicts(second, one.balances, receivers, total_outputs);
            let both = apply_edicts(first + second, balances, receivers, total_outputs);
            &&& both.events == one.events + two.events
            &&& both.balances == two.balances
        }),
    decreases second.len(),
{
    let one = apply_edicts(first, balances, receivers, total_outputs);
    if second.len() == 0 {
        assert(first + second =~= first);
        assert(one.events + Seq::<LedgerEvent>::empty() =~= one.events);
    } else {
        assert((first + second).drop_last() =~= first + second.drop_last());
        edicts_work_in_order(first, second.drop_last(), balances, receivers, total_outputs);
        let before = apply_edicts(second.drop_last(), one.balances, receivers, total_outputs);
        let last = edict_outcome(second.last(), before.balances, receivers, total_outputs);
        assert((one.events + before.events) + last.events =~= one.events + (before.events
            + last.events));
    }
}

/// A single edict among edicts does what it does alone.
pub proof fn single_edict_does_what_it_does(
    edict: Edict,
    balances: Seq<RuneInputsView>,
    receivers: Map<u32, Option<String>>,
    total_outputs: u32,
)
    ensures
        apply_edicts(seq![edict], balances, receivers, total_outputs).events == edict_outcome(
            edict,
            balances,
            receivers,
            total_outputs,
        ).events,
        apply_edicts(seq![edict], balances, receivers, total_outputs).balances == edict_outcome(
            edict,
            balances,
            receivers,
            total_outputs,
        ).balances,
{
    let none = seq![edict].drop_last();
    assert(none =~= Seq::<Edict>::empty());
    let before = apply_edicts(none, balances, receivers, total_outputs);
    assert(before == EdictOutcome { events: Seq::empty(), balances });
    let alone = edict_outcome(edict, balances, receivers, total_outputs);
    assert(before.events + alone.events =~= alone.events);
}

proof fn lemma_edicts_give(
    edicts: Seq<Edict>,
    balances: Seq<RuneInputsView>,
    receivers: Map<u32, Option<String>>,
    total_outputs: u32,
    rune_id: RuneId,
    address: String,
)
    requires
        distinct_runes(balances),
        each_fits(balances),
    ensures
        ({
            let outcome = apply_edicts(edicts, balances, receivers, total_outputs);
            &&& outcome.balances.len() == balances.len()
            &&& distinct_runes(outcome.balances)
            &&& each_fits(outcome.balances)
            &&& forall|k: int|
                0 <= k < balances.len() ==> {
                    &&& (#[trigger] outcome.balances[k]).rune_id == balances[k].rune_id
                    &&& held(outcome.balances[k].inputs) <= held(balances[k].inputs)
                    &&& (forall|i: int|
                        0 <= i < edicts.len() ==> (#[trigger] edicts[i]).id != balances[k].rune_id)
                        ==> outcome.balances[k] == balances[k]
                }
            &&& amount_where(outcome.events, given_by(rune_id, address)) == held_of_from(
                balances,
                rune_id,
                address,
            ) - held_of_from(outcome.balances, rune_id, address)
            &&& (forall|i: int| 0 <= i < edicts.len() ==> (#[trigger] edicts[i]).id != rune_id)
                ==> forall|i: int|
                0 <= i < outcome.events.len() ==> (#[trigger] outcome.events[i]).rune_id != rune_id
        }),
    decreases edicts.len(),
{
    if edicts.len() > 0 {
        let rest = edicts.drop_last();
        let edict = edicts.last();
        lemma_edicts_give(rest, balances, receivers, total_outputs, rune_id, address);
        let before = apply_edicts(rest, balances, receivers, total_outputs);
        edict_touches_its_rune_only(edict, before.balances, receivers, total_outputs, address);
        let one = edict_outcome(edict, before.balances, receivers, total_outputs);
        let outcome = apply_edicts(edicts, balances, receivers, total_outputs);
        assert(outcome.events == before.events + one.events);
        assert(edicts[edicts.len() - 1] == edict);
        assert forall|i: int, j: int|
            0 <= i < j < outcome.balances.len() implies #[trigger] outcome.balances[i].rune_id
            != #[trigger] outcome.balances[j].rune_id by {
            assert(one.balances[i].rune_id == before.balances[i].rune_id);
            assert(one.balances[j].rune_id == before.balances[j].rune_id);
        }
        assert forall|i: int| 0 <= i < outcome.balances.len() implies held(
            (#[trigger] outcome.balances[i]).inputs,
        ) <= u128::MAX by {
            assert(held(before.balances[i].inputs) <= u128::MAX);
        }
        lemma_amount_of_both(before.events, one.events, given_by(rune_id, address));
        if rune_id != edict.id {
            lemma_amount_of_none(one.events, given_by(rune_id, address));
            lemma_same_elsewhere(before.balances, one.balances, edict.id, rune_id, address);
        }
        assert forall|k: int| 0 <= k < balances.len() implies {
            &&& (#[trigger] outcome.balances[k]).rune_id == balances[k].rune_id
            &&& held(outcome.balances[k].inputs) <= held(balances[k].inputs)
            &&& (forall|i: int|
                0 <= i < edicts.len() ==> (#[trigger] edicts[i]).id != balances[k].rune_id)
                ==> outcome.balances[k] == balances[k]
        } by {
            assert(before.balances[k].rune_id == balances[k].rune_id);
            if forall|i: int|
                0 <= i < edicts.len() ==> (#[trigger] edicts[i]).id != balances[k].rune_id {
                assert forall|i: int| 0 <= i < rest.len() implies (#[trigger] rest[i]).id
                    != balances[k].rune_id by {
                    assert(rest[i] == edicts[i]);
                }
                assert(edict.id != balances[k].rune_id);
            }
        }
        if forall|i: int| 0 <= i < edicts.len() ==> (#[trigger] edicts[i]).id != rune_id {
            assert forall|i: int| 0 <= i < rest.len() implies (#[trigger] rest[i]).id
                != rune_id by {
                assert(rest[i] == edicts[i]);
            }
            assert forall|i: int| 0 <= i < outcome.events.len() implies (
            #[trigger] outcome.events[i]).rune_id != rune_id by {
                if i < before.events.len() {
                    assert(outcome.events[i] == before.events[i]);
                } else {
                    assert(outcome.events[i] == one.events[i - before.events.len()]);
                }
            }
        }
    }
}

proof fn lemma_same_elsewhere(
    a: Seq<RuneInputsView>,
    b: Seq<RuneInputsView>,
    changed: RuneId,
    rune_id: RuneId,
    address: String,
)
    requires
        a.len() == b.len(),
        rune_id != changed,
        forall|k: int|
            0 <= k < a.len() ==> (#[trigger] b[k]).rune_id == a[k].rune_id && (a[k].rune_id
                != changed ==> b[k] == a[k]),
    ensures
        held_of(a, rune_id) == held_of(b, rune_id),
        held_of_from(a, rune_id, address) == held_of_from(b, rune_id, address),
    decreases a.len(),
{
    if a.len() > 0 {
        let c = a.drop_last();
        let d = b.drop_last();
        assert forall|k: int| 0 <= k < c.len() implies (#[trigger] d[k]).rune_id == c[k].rune_id
            && (c[k].rune_id != changed ==> d[k] == c[k]) by {
            assert(d[k] == b[k]);
        }
        assert(b[b.len() - 1].rune_id == a[a.len() - 1].rune_id);
        lemma_same_elsewhere(c, d, changed, rune_id, address);
    }
}

proof fn lemma_all_included(edicts: Seq<Edict>)
    requires
        all_in_blocks(edicts),
    ensures
        included(edicts) == edicts.len(),
    decreases edicts.len(),
{
    if edicts.len() > 0 {
        let rest = edicts.drop_last();
        assert forall|k: int| 0 <= k < rest.len() implies !((#[trigger] rest[k]).id.block == 0
            && rest[k].id.tx == 0) by {
            assert(rest[k] == edicts[k]);
        }
        lemma_all_included(rest);
        assert(edicts[edicts.len() - 1] == edicts.last());
    }
}

/// Whatever the message of a transaction says, each known address gives away, of each
/// rune, exactly what the inputs bring in from it: by sending or by burning. This is so
/// unless an edict is on a rune that is in no block yet.
pub proof fn every_address_gives_what_it_brings(
    artifact: ArtifactView,
    balances: Seq<RuneInputsView>,
    receivers: Map<u32, Option<String>>,
    total_outputs: u32,
    rune_id: RuneId,
    address: String,
)
    requires
        distinct_runes(balances),
        each_fits(balances),
        artifact matches ArtifactView::Runestone { edicts, .. } ==> all_in_blocks(edicts),
    ensures
        amount_where(
            artifact_events(artifact, balances, receivers, total_outputs),
            given_by(rune_id, address),
        ) == held_of_from(balances, rune_id, address),
{
    match artifact {
        ArtifactView::Cenotaph { etching } => {
            burning_burns_each_input(balances, rune_id, address);
            let events = artifact_events(artifact, balances, receivers, total_outputs);
            if etching is Some {
                assert(events.drop_last() =~= burn_events(balances));
            }
        },
        ArtifactView::Runestone { edicts, pointer } => {
            lemma_all_included(edicts);
            lemma_edicts_give(edicts, balances, receivers, total_outputs, rune_id, address);
            let outcome = apply_edicts(edicts, balances, receivers, total_outputs);
            let rest = outcome.balances;
            allocation_gives_everything_to_the_pointer(rest, pointer, receivers, rune_id, address);
            lemma_amount_of_both(
                outcome.events,
                allocation_events(rest, pointer, receivers),
                given_by(rune_id, address),
            );
        },
    }
}

/// A well-formed message carries out its edicts first, and then what they leave goes to
/// the output of the pointer: where that output is eligible and has an address, it
/// receives all that the edicts leave of each rune, and nothing of that is burnt.
pub proof fn runestone_gives_the_rest_to_its_pointer(
    edicts: Seq<Edict>,
    pointer: Option<u32>,
    balances: Seq<RuneInputsView>,
    receivers: Map<u32, Option<String>>,
    total_outputs: u32,
    rune_id: RuneId,
)
    requires
        distinct_runes(balances),
        each_fits(balances),
        all_in_blocks(edicts),
    ensures
        ({
            let artifact = ArtifactView::Runestone { edicts, pointer };
            let events = artifact_events(artifact, balances, receivers, total_outputs);
            let outcome = apply_edicts(edicts, balances, receivers, total_outputs);
            let left = held_of(outcome.balances, rune_id);
            &&& outcome.events.is_prefix_of(events)
            &&& has_address(pointer, receivers) ==> {
                &&& amount_where(events, received_at(rune_id, pointer)) == amount_where(
                    outcome.events,
                    received_at(rune_id, pointer),
                ) + left
                &&& amount_where(events, burnt(rune_id)) == amount_where(
                    outcome.events,
                    burnt(rune_id),
                )
            }
            &&& !has_address(pointer, receivers) ==> amount_where(events, received(rune_id))
                == amount_where(outcome.events, received(rune_id))
        }),
{
    lemma_all_included(edicts);
    lemma_edicts_give(edicts, balances, receivers, total_outputs, rune_id, arbitrary());
    let outcome = apply_edicts(edicts, balances, receivers, total_outputs);
    let rest = outcome.balances;
    let more = allocation_events(rest, pointer, receivers);
    allocation_gives_everything_to_the_pointer(rest, pointer, receivers, rune_id, arbitrary());
    lemma_amount_of_both(outcome.events, more, received_at(rune_id, pointer));
    lemma_amount_of_both(outcome.events, more, received(rune_id));
    lemma_amount_of_both(outcome.events, more, burnt(rune_id));
}

/// A rune that no edict names goes whole to the output of the pointer, where that output
/// is eligible and has an address, and nothing of it is burnt; otherwise nothing of it is
/// received and, as far as the senders are known, it is burnt whole.
pub proof fn unnamed_rune_goes_to_the_pointer(
    edicts: Seq<Edict>,
    pointer: Option<u32>,
    balances: Seq<RuneInputsView>,
    receivers: Map<u32, Option<String>>,
    total_outputs: u32,
    n: int,
)
    requires
        distinct_runes(balances),
        each_fits(balances),
        all_in_blocks(edicts),
        0 <= n < balances.len(),
        forall|k: int| 0 <= k < edicts.len() ==> (#[trigger] edicts[k]).id != balances[n].rune_id,
    ensures
        ({
            let artifact = ArtifactView::Runestone { edicts, pointer };
            let events = artifact_events(artifact, balances, receivers, total_outputs);
            let rune_id = balances[n].rune_id;
            let whole = held(balances[n].inputs);
            &&& has_address(pointer, receivers) ==> {
                &&& amount_where(events, received_at(rune_id, pointer)) == whole
                &&& amount_where(events, received(rune_id)) == whole
                &&& amount_where(events, burnt(rune_id)) == 0
            }
            &&& !has_address(pointer, receivers) ==> {
                &&& amount_where(events, received(rune_id)) == 0
                &&& known_senders(balances[n].inputs) ==> amount_where(
                    events,
                    burnt_at(rune_id, pointer),
                ) == whole
            }
        }),
{
    let rune_id = balances[n].rune_id;
    lemma_all_included(edicts);
    lemma_edicts_give(edicts, balances, receivers, total_outputs, rune_id, arbitrary());
    let outcome = apply_edicts(edicts, balances, receivers, total_outputs);
    let rest = outcome.balances;
    let more = allocation_events(rest, pointer, receivers);
    assert(rest[n] == balances[n]);
    assert forall|i: int| 0 <= i < rest.len() && i != n implies #[trigger] rest[i].rune_id
        != rest[n].rune_id by {
        if i < n {
            assert(rest[i].rune_id != rest[n].rune_id);
        } else {
            assert(rest[n].rune_id != rest[i].rune_id);
        }
    }
    lemma_held_of_listed(rest, n, arbitrary());
    allocation_gives_everything_to_the_pointer(rest, pointer, receivers, rune_id, arbitrary());
    lemma_amount_of_none(outcome.events, received_at(rune_id, pointer));
    lemma_amount_of_none(outcome.events, received(rune_id));
    lemma_amount_of_none(outcome.events, burnt(rune_id));
    lemma_amount_of_none(outcome.events, burnt_at(rune_id, pointer));
    lemma_amount_of_both(outcome.events, more, received_at(rune_id, pointer));
    lemma_amount_of_both(outcome.events, more, received(rune_id));
    lemma_amount_of_both(outcome.events, more, burnt(rune_id));
    lemma_amount_of_both(outcome.events, more, burnt_at(rune_id, pointer));
    if has_address(pointer, receivers) {
        lemma_amount_of_the_same(more, received_at(rune_id, pointer), received(rune_id));
    } else if known_senders(balances[n].inputs) {
        lemma_one_rune_is_burnt(rest, pointer, receivers, n);
    }
}

proof fn lemma_one_rune_is_burnt(
    balances: Seq<RuneInputsView>,
    pointer: Option<u32>,
    receivers: Map<u32, Option<String>>,
    n: int,
)
    requires
        distinct_runes(balances),
        each_fits(balances),
        0 <= n < balances.len(),
        known_senders(balances[n].inputs),
        !has_address(pointer, receivers),
    ensures
        amount_where(
            allocation_events(balances, pointer, receivers),
            burnt_at(balances[n].rune_id, pointer),
        ) == held(balances[n].inputs),
    decreases balances.len(),
{
    let rest = balances.drop_last();
    let last = balances.last();
    let rune_id = balances[n].rune_id;
    assert(held(balances[balances.len() - 1].inputs) <= u128::MAX);
    assert forall|i: int| 0 <= i < rest.len() implies held((#[trigger] rest[i]).inputs)
        <= u128::MAX by {
        assert(rest[i] == balances[i]);
    }
    assert forall|i: int, j: int| 0 <= i < j < rest.len() implies #[trigger] rest[i].rune_id
        != #[trigger] rest[j].rune_id by {
        assert(balances[i].rune_id != balances[j].rune_id);
    }
    let before = allocation_events(rest, pointer, receivers);
    let moved = move_events(last.rune_id, pointer, None, last.inputs, None);
    assert(allocation_events(balances, pointer, receivers) == before + moved);
    lemma_amount_of_both(before, moved, burnt_at(rune_id, pointer));
    movement_takes_and_records(last.rune_id, pointer, None, last.inputs, None, arbitrary());
    if n == balances.len() - 1 {
        movement_without_receiver_burns(rune_id, pointer, last.inputs, None);
        lemma_amount_of_the_same(moved, burnt_at(rune_id, pointer), burnt(rune_id));
        lemma_no_events_of(rest, pointer, receivers, rune_id);
        lemma_amount_of_none(before, burnt_at(rune_id, pointer));
    } else {
        assert(rest[n] == balances[n]);
        assert(balances[n].rune_id != balances[balances.len() - 1].rune_id);
        lemma_one_rune_is_burnt(rest, pointer, receivers, n);
        lemma_amount_of_none(moved, burnt_at(rune_id, pointer));
    }
}

proof fn lemma_no_events_of(
    balances: Seq<RuneInputsView>,
    pointer: Option<u32>,
    receivers: Map<u32, Option<String>>,
    rune_id: RuneId,
)
    requires
        each_fits(balances),
        forall|i: int| 0 <= i < balances.len() ==> #[trigger] balances[i].rune_id != rune_id,
    ensures
        forall|i: int|
            0 <= i < allocation_events(balances, pointer, receivers).len() ==> (
            #[trigger] allocation_events(balances, pointer, receivers)[i]).rune_id != rune_id,
    decreases balances.len(),
{
    if balances.len() > 0 {
        let rest = balances.drop_last();
        let last = balances.last();
        assert(balances[balances.len() - 1].rune_id != rune_id);
        assert(held(balances[balances.len() - 1].inputs) <= u128::MAX);
        assert forall|i: int| 0 <= i < rest.len() implies held((#[trigger] rest[i]).inputs)
            <= u128::MAX by {
            assert(rest[i] == balances[i]);
        }
        assert forall|i: int| 0 <= i < rest.len() implies #[trigger] rest[i].rune_id != rune_id by {
            assert(rest[i] == balances[i]);
        }
        lemma_no_events_of(rest, pointer, receivers, rune_id);
        let receiver = receiver_of(pointer, receivers);
        movement_takes_and_records(
            last.rune_id,
            pointer,
            receiver,
            last.inputs,
            None,
            arbitrary(),
        );
        let before = allocation_events(rest, pointer, receivers);
        let moved = move_events(last.rune_id, pointer, receiver, last.inputs, None);
        let events = allocation_events(balances, pointer, receivers);
        assert(events == before + moved);
        assert forall|i: int| 0 <= i < events.len() implies (#[trigger] events[i]).rune_id
            != rune_id by {
            if i < before.len() {
                assert(events[i] == before[i]);
            } else {
                assert(events[i] == moved[i - before.len()]);
            }
        }
    }
}

/// A malformed message burns every input, and then etches a rune that is in no block yet
/// where it etches one: that is the last event, and the only one that is no burn.
pub proof fn cenotaph_burns_and_etches(
    etching: Option<u128>,
    balances: Seq<RuneInputsView>,
    receivers: Map<u32, Option<String>>,
    total_outputs: u32,
    rune_id: RuneId,
)
    ensures
        ({
            let artifact = ArtifactView::Cenotaph { etching };
            let events = artifact_events(artifact, balances, receivers, total_outputs);
            let burns = input_count(balances) as int;
            &&& events.len() == burns + if etching is Some {
                1int
            } else {
                0int
            }
            &&& forall|i: int|
                0 <= i < burns ==> (#[trigger] events[i]).operation == DbLedgerOperation::Burn
                    && events[i].output is None
            &&& amount_where(events, burnt(rune_id)) == held_of(balances, rune_id)
            &&& etching is Some ==> {
                let etched = events.last();
                &&& etched.operation == DbLedgerOperation::Etching
                &&& etched.rune_id.block == 0
                &&& etched.rune_id.tx == 0
                &&& etched.amount is None
                &&& etched.output is None
                &&& etched.address is None
                &&& etched.receiver_address is None
            }
        }),
{
    burning_burns_each_input(balances, rune_id, arbitrary());
    let artifact = ArtifactView::Cenotaph { etching };
    let events = artifact_events(artifact, balances, receivers, total_outputs);
    if etching is Some {
        assert(events.drop_last() =~= burn_events(balances));
    }
}

/// A transaction can be recorded as soon as what its inputs hold of each rune fits the
/// integer type and its events can be numbered.
pub proof fn ordinary_amounts_fit(
    artifact: ArtifactView,
    balances: Seq<RuneInputsView>,
    receivers: Map<u32, Option<String>>,
    total_outputs: u32,
)
    requires
        distinct_runes(balances),
        each_fits(balances),
        artifact_events(artifact, balances, receivers, total_outputs).len() <= u32::MAX,
        artifact matches ArtifactView::Runestone { edicts, .. } ==> all_in_blocks(edicts),
    ensures
        artifact_fits(artifact, balances, receivers, total_outputs),
{
    if let ArtifactView::Runestone { edicts, pointer } = artifact {
        lemma_all_included(edicts);
        assert(edicts.take(edicts.len() as int) =~= edicts);
        lemma_edicts_fit(edicts, balances, receivers, total_outputs);
        lemma_edicts_give(
            edicts,
            balances,
            receivers,
            total_outputs,
            RuneId { block: 0, tx: 0 },
            arbitrary(),
        );
        let rest = apply_edicts(edicts, balances, receivers, total_outputs).balances;
        assert forall|i: int| 0 <= i < rest.len() implies total_amount(
            (#[trigger] rest[i]).inputs,
        ) <= u128::MAX by {
            lemma_held_is_the_total(rest[i].inputs);
        }
        assert(allocation_fits(rest));
    }
}

proof fn lemma_edicts_fit(
    edicts: Seq<Edict>,
    balances: Seq<RuneInputsView>,
    receivers: Map<u32, Option<String>>,
    total_outputs: u32,
)
    requires
        distinct_runes(balances),
        each_fits(balances),
    ensures
        edicts_fit(edicts, balances, receivers, total_outputs),
    decreases edicts.len(),
{
    if edicts.len() > 0 {
        let rest = edicts.drop_last();
        let id = edicts.last().id;
        lemma_edicts_fit(rest, balances, receivers, total_outputs);
        lemma_edicts_give(rest, balances, receivers, total_outputs, id, arbitrary());
        let left = apply_edicts(rest, balances, receivers, total_outputs).balances;
        if exists|n: int| 0 <= n < left.len() && left[n].rune_id == id {
            let n = choose|n: int| 0 <= n < left.len() && left[n].rune_id == id;
            lemma_inputs_of_listed(left, n);
            lemma_held_is_the_total(left[n].inputs);
            assert(held(left[n].inputs) <= u128::MAX);
        } else {
            lemma_inputs_of_unlisted(left, id);
        }
        assert(edict_fits(edicts.last(), left));
    }
}

proof fn lemma_included_before(edicts: Seq<Edict>, n: int)
    requires
        0 <= n < edicts.len(),
        edicts[n].id.block == 0 && edicts[n].id.tx == 0,
        all_in_blocks(edicts.take(n)),
    ensures
        included(edicts) == n,
    decreases edicts.len(),
{
    let rest = edicts.drop_last();
    if n == edicts.len() - 1 {
        assert(rest =~= edicts.take(n));
        lemma_all_included(rest);
    } else {
        assert(rest[n] == edicts[n]);
        assert(rest.take(n) =~= edicts.take(n));
        lemma_included_before(rest, n);
    }
}

/// An edict on a rune that is in no block yet undoes the whole message: nothing is recorded,
/// whatever comes before and after it, and the message can be recorded as soon as the events
/// of the edicts before it can be numbered.
pub proof fn edict_in_no_block_undoes_the_message(
    edicts: Seq<Edict>,
    pointer: Option<u32>,
    balances: Seq<RuneInputsView>,
    receivers: Map<u32, Option<String>>,
    total_outputs: u32,
    n: int,
)
    requires
        0 <= n < edicts.len(),
        edicts[n].id.block == 0 && edicts[n].id.tx == 0,
        all_in_blocks(edicts.take(n)),
        distinct_runes(balances),
        each_fits(balances),
    ensures
        ({
            let artifact = ArtifactView::Runestone { edicts, pointer };
            let before = apply_edicts(edicts.take(n), balances, receivers, total_outputs);
            &&& artifact_events(artifact, balances, receivers, total_outputs).len() == 0
            &&& artifact_fits(artifact, balances, receivers, total_outputs)
                <==> before.events.len() <= u32::MAX
        }),
{
    lemma_included_before(edicts, n);
    lemma_edicts_fit(edicts.take(n), balances, receivers, total_outputs);
}

} // verus!
