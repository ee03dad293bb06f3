//! What an edict does: how much it takes, to which outputs it goes, and what is
//! recorded.

use vstd::prelude::*;

use crate::db::models::input_rune_balance::InputRuneBalance;
use crate::mempool::balances::{
    distinct_runes, lemma_inputs_of_listed, lemma_inputs_of_unlisted, RuneInputsView,
};
use crate::mempool::edicts::{
    ascending_list_is_its_own_order, distribute, edict_distribution, edict_outcome, equal_shares,
    equal_split_gives_each_its_share, equal_split_leaves_nothing, same_amount,
    same_amount_until_nothing_is_left,
};
use crate::mempool::measures::{
    amount_where, burnt, burnt_at, given_by, held, held_from, lemma_amount_of_both,
    lemma_amount_of_none, lemma_amount_of_the_same, lemma_held_is_the_total, received,
    received_at, sent, sent_at,
};
use crate::mempool::movement::{
    asked, move_events, receiver_of, take, taking_gives_what_is_asked_or_everything, LedgerEvent,
};
use crate::mempool::movement_laws::{
    are_move_events, is_move_event, leaves, movement_takes_and_records,
    movement_takes_from_the_end, movement_to_a_receiver_sends, movement_without_receiver_burns,
};
use crate::runes::{Edict, RuneId};

verus! {

/// Whether an edict finds its rune at a place in the balances, and the amounts can be
/// added up.
pub open spec fn finds_its_rune(edict: Edict, balances: Seq<RuneInputsView>, n: int) -> bool {
    &&& 0 <= n < balances.len()
    &&& balances[n].rune_id == edict.id
    &&& !(edict.id.block == 0 && edict.id.tx == 0)
    &&& distinct_runes(balances)
    &&& held(balances[n].inputs) <= u128::MAX
}

/// Whether balances differ at one place only, where the rune is the same.
pub open spec fn differ_at(a: Seq<RuneInputsView>, b: Seq<RuneInputsView>, n: int) -> bool {
    &&& a.len() == b.len()
    &&& 0 <= n < a.len()
    &&& a[n].rune_id == b[n].rune_id
    &&& forall|k: int| 0 <= k < a.len() && k != n ==> #[trigger] a[k] == b[k]
}

/// Whether every input that holds something comes from a known address.
pub open spec fn known_senders(inputs: Seq<InputRuneBalance>) -> bool {
    forall|i: int|
        0 <= i < inputs.len() ==> (#[trigger] inputs[i]).amount > 0 ==> inputs[i].address is Some
}

/// Whether a list holds the eligible outputs, in order.
pub open spec fn lists_outputs(outputs: Seq<u32>, receivers: Map<u32, Option<String>>) -> bool {
    &&& forall|i: int, j: int| 0 <= i < j < outputs.len() ==> outputs[i] < outputs[j]
    &&& forall|output: u32| #[trigger]
        receivers.contains_key(output) <==> exists|k: int|
            0 <= k < outputs.len() && #[trigger] outputs[k] == output
}

proof fn lemma_outcome(
    edict: Edict,
    balances: Seq<RuneInputsView>,
    receivers: Map<u32, Option<String>>,
    total_outputs: u32,
    n: int,
)
    requires
        finds_its_rune(edict, balances, n),
    ensures
        ({
            let outcome = edict_outcome(edict, balances, receivers, total_outputs);
            let done = edict_distribution(
                edict,
                balances[n].inputs,
                receivers,
                total_outputs,
            );
            &&& outcome.events == done.events
            &&& differ_at(outcome.balances, balances, n)
            &&& outcome.balances[n].inputs == done.rest
        }),
{
    lemma_inputs_of_listed(balances, n);
    let outcome = edict_outcome(edict, balances, receivers, total_outputs);
    assert forall|k: int| 0 <= k < balances.len() && k != n implies #[trigger] outcome.balances[k]
        == balances[k] by {
        if k < n {
            assert(balances[k].rune_id != balances[n].rune_id);
        } else {
            assert(balances[n].rune_id != balances[k].rune_id);
        }
    }
}

proof fn lemma_some_output_is_eligible(receivers: Map<u32, Option<String>>, eligible: u32)
    requires
        receivers.dom().finite(),
        receivers.contains_key(eligible),
    ensures
        receivers.dom().len() > 0,
{
    if receivers.dom().len() == 0 {
        receivers.dom().lemma_len0_is_empty();
        assert(receivers.dom().contains(eligible));
    }
}

/// An edict on an output of the transaction takes its amount out of the inputs that
/// carry its rune, or all they hold where that is less or where its amount is zero.
/// Every event is of that rune and that output. Where the output is eligible and has an
/// address, that address receives all of it and nothing is burnt; where it is not
/// eligible or has no address, nothing is received. As far as the senders are known, all
/// of it is sent in the first case and burnt in the second. Of each address, what the
/// inputs lose is what it gives.
pub proof fn edict_moves_to_its_output(
    edict: Edict,
    balances: Seq<RuneInputsView>,
    receivers: Map<u32, Option<String>>,
    total_outputs: u32,
    n: int,
    eligible: u32,
    address: String,
)
    requires
        finds_its_rune(edict, balances, n),
        edict.output < total_outputs,
        receivers.dom().finite(),
        receivers.contains_key(eligible),
    ensures
        ({
            let outcome = edict_outcome(edict, balances, receivers, total_outputs);
            let inputs = balances[n].inputs;
            let rest = outcome.balances[n].inputs;
            let moved = if edict.amount == 0 || edict.amount > held(inputs) {
                held(inputs)
            } else {
                edict.amount as int
            };
            let output = Some(edict.output);
            let has_address = receivers.contains_key(edict.output) && receivers[edict.output]
                is Some;
            &&& differ_at(outcome.balances, balances, n)
            &&& held(rest) == held(inputs) - moved
            &&& has_address ==> {
                &&& are_move_events(outcome.events, edict.id, output, receivers[edict.output])
                &&& amount_where(outcome.events, received(edict.id)) == moved
                &&& known_senders(inputs) ==> amount_where(outcome.events, sent(edict.id))
                    == moved
                &&& amount_where(outcome.events, burnt(edict.id)) == 0
            }
            &&& !has_address ==> {
                &&& are_move_events(outcome.events, edict.id, output, None)
                &&& amount_where(outcome.events, received(edict.id)) == 0
                &&& known_senders(inputs) ==> amount_where(outcome.events, burnt(edict.id))
                    == moved
            }
            &&& amount_where(outcome.events, given_by(edict.id, address)) == held_from(
                inputs,
                address,
            ) - held_from(rest, address)
        }),
{
    lemma_outcome(edict, balances, receivers, total_outputs, n);
    lemma_some_output_is_eligible(receivers, eligible);
    let inputs = balances[n].inputs;
    let outcome = edict_outcome(edict, balances, receivers, total_outputs);
    lemma_held_is_the_total(inputs);
    let output = Some(edict.output);
    let receiver = receiver_of(output, receivers);
    let amount = Some(
        if edict.amount == 0 {
            held(inputs) as nat
        } else {
            edict.amount as nat
        },
    );
    assert(outcome.events == move_events(edict.id, output, receiver, inputs, amount));
    movement_takes_and_records(edict.id, output, receiver, inputs, amount, address);
    if receiver is Some {
        lemma_amount_of_none(outcome.events, burnt(edict.id));
        if known_senders(inputs) {
            movement_to_a_receiver_sends(edict.id, output, receiver->0, inputs, amount);
        }
    } else if known_senders(inputs) {
        movement_without_receiver_burns(edict.id, output, inputs, amount);
    }
}

/// An edict without an output to go to, because the transaction does not have it or no
/// output is eligible, takes its amount, or all there is where that is less or where its
/// amount is zero. Nothing is received, no output is named, and as far as the senders are
/// known, all of it is burnt.
pub proof fn edict_without_output_burns(
    edict: Edict,
    balances: Seq<RuneInputsView>,
    receivers: Map<u32, Option<String>>,
    total_outputs: u32,
    n: int,
    address: String,
)
    requires
        finds_its_rune(edict, balances, n),
        receivers.dom().finite(),
        edict.output > total_outputs || forall|output: u32| !receivers.contains_key(output),
    ensures
        ({
            let outcome = edict_outcome(edict, balances, receivers, total_outputs);
            let inputs = balances[n].inputs;
            let rest = outcome.balances[n].inputs;
            let gone = if edict.amount == 0 || edict.amount > held(inputs) {
                held(inputs)
            } else {
                edict.amount as int
            };
            &&& differ_at(outcome.balances, balances, n)
            &&& held(rest) == held(inputs) - gone
            &&& are_move_events(outcome.events, edict.id, None, None)
            &&& amount_where(outcome.events, received(edict.id)) == 0
            &&& known_senders(inputs) ==> amount_where(outcome.events, burnt(edict.id)) == gone
            &&& amount_where(outcome.events, given_by(edict.id, address)) == held_from(
                inputs,
                address,
            ) - held_from(rest, address)
        }),
{
    lemma_outcome(edict, balances, receivers, total_outputs, n);
    let inputs = balances[n].inputs;
    let outcome = edict_outcome(edict, balances, receivers, total_outputs);
    if edict.output <= total_outputs {
        assert(receivers.dom() =~= Set::<u32>::empty());
    }
    let amount = asked(edict.amount);
    assert(outcome.events == move_events(edict.id, None, None, inputs, amount));
    movement_takes_and_records(edict.id, None, None, inputs, amount, address);
    if known_senders(inputs) {
        movement_without_receiver_burns(edict.id, None, inputs, amount);
    }
}

/// An edict on a rune that no input carries, or on a rune that is in no block yet, does
/// nothing.
pub proof fn edict_without_its_rune_does_nothing(
    edict: Edict,
    balances: Seq<RuneInputsView>,
    receivers: Map<u32, Option<String>>,
    total_outputs: u32,
)
    requires
        edict.id.block == 0 && edict.id.tx == 0 || forall|k: int|
            0 <= k < balances.len() ==> #[trigger] balances[k].rune_id != edict.id,
    ensures
        edict_outcome(edict, balances, receivers, total_outputs).events.len() == 0,
        edict_outcome(edict, balances, receivers, total_outputs).balances == balances,
{
    if !(edict.id.block == 0 && edict.id.tx == 0) {
        lemma_inputs_of_unlisted(balances, edict.id);
    }
}

proof fn lemma_rest_has_known_senders(inputs: Seq<InputRuneBalance>, amount: Option<nat>)
    requires
        known_senders(inputs),
    ensures
        known_senders(take(inputs, amount, 0).rest),
{
    movement_takes_from_the_end(inputs, amount);
    let rest = take(inputs, amount, 0).rest;
    assert forall|i: int| 0 <= i < rest.len() && (#[trigger] rest[i]).amount
        > 0 implies rest[i].address is Some by {
        assert(inputs[i].amount >= rest[i].amount);
    }
}

/// Whether an event is of moving a rune to one of the outputs.
pub open spec fn goes_to_one_of(
    event: LedgerEvent,
    rune_id: RuneId,
    outputs: Seq<u32>,
    receivers: Map<u32, Option<String>>,
) -> bool {
    exists|k: int|
        0 <= k < outputs.len() && is_move_event(
            event,
            rune_id,
            Some(#[trigger] outputs[k]),
            receivers[outputs[k]],
        )
}

proof fn lemma_distribute(
    rune_id: RuneId,
    outputs: Seq<u32>,
    amounts: Seq<nat>,
    inputs: Seq<InputRuneBalance>,
    receivers: Map<u32, Option<String>>,
    at: int,
    address: String,
)
    requires
        held(inputs) <= u128::MAX,
        amounts.len() == outputs.len(),
        forall|i: int, j: int| 0 <= i < j < outputs.len() ==> outputs[i] < outputs[j],
        forall|k: int| 0 <= k < outputs.len() ==> receivers.contains_key(#[trigger] outputs[k]),
        0 <= at,
    ensures
        ({
            let done = distribute(rune_id, outputs, amounts, inputs, receivers);
            &&& held(done.rest) <= held(inputs)
            &&& known_senders(inputs) ==> known_senders(done.rest)
            &&& amount_where(done.events, given_by(rune_id, address)) == held_from(inputs, address)
                - held_from(done.rest, address)
            &&& forall|i: int|
                0 <= i < done.events.len() ==> goes_to_one_of(
                    #[trigger] done.events[i],
                    rune_id,
                    outputs,
                    receivers,
                )
            &&& at < outputs.len() ==> {
                let before = distribute(
                    rune_id,
                    outputs.take(at),
                    amounts.take(at),
                    inputs,
                    receivers,
                ).rest;
                let got = leaves(before, Some(amounts[at]));
                let output = Some(outputs[at]);
                if receivers[outputs[at]] is Some {
                    &&& amount_where(done.events, received_at(rune_id, output)) == got
                    &&& known_senders(inputs) ==> amount_where(
                        done.events,
                        sent_at(rune_id, output),
                    ) == got
                    &&& amount_where(done.events, burnt_at(rune_id, output)) == 0
                } else {
                    &&& amount_where(done.events, received_at(rune_id, output)) == 0
                    &&& known_senders(inputs) ==> amount_where(
                        done.events,
                        burnt_at(rune_id, output),
                    ) == got
                }
            }
        }),
    decreases outputs.len(),
{
    if outputs.len() > 0 {
        let rest_outputs = outputs.drop_last();
        let rest_amounts = amounts.drop_last();
        let last = outputs.last();
        let m = outputs.len() - 1;
        assert(receivers.contains_key(outputs[m]));
        assert forall|k: int| 0 <= k < rest_outputs.len() implies receivers.contains_key(
            #[trigger] rest_outputs[k],
        ) by {
            assert(receivers.contains_key(outputs[k]));
        }
        lemma_distribute(rune_id, rest_outputs, rest_amounts, inputs, receivers, at, address);
        let before = distribute(rune_id, rest_outputs, rest_amounts, inputs, receivers);
        let done = distribute(rune_id, outputs, amounts, inputs, receivers);
        let amount = Some(amounts.last());
        let moved = move_events(rune_id, Some(last), receivers[last], before.rest, amount);
        assert(done.events == before.events + moved);
        lemma_held_is_the_total(before.rest);
        movement_takes_and_records(
            rune_id,
            Some(last),
            receivers[last],
            before.rest,
            amount,
            address,
        );
        if known_senders(inputs) {
            lemma_rest_has_known_senders(before.rest, amount);
        }
        lemma_amount_of_both(before.events, moved, given_by(rune_id, address));
        assert forall|i: int| 0 <= i < done.events.len() implies goes_to_one_of(
            #[trigger] done.events[i],
            rune_id,
            outputs,
            receivers,
        ) by {
            if i < before.events.len() {
                assert(done.events[i] == before.events[i]);
                assert(goes_to_one_of(before.events[i], rune_id, rest_outputs, receivers));
                let k = choose|k: int|
                    0 <= k < rest_outputs.len() && is_move_event(
                        before.events[i],
                        rune_id,
                        Some(#[trigger] rest_outputs[k]),
                        receivers[rest_outputs[k]],
                    );
                assert(outputs[k] == rest_outputs[k]);
            } else {
                assert(done.events[i] == moved[i - before.events.len()]);
                assert(outputs[m] == last);
            }
        }
        if at < outputs.len() {
            let output = Some(outputs[at]);
            lemma_amount_of_both(before.events, moved, received_at(rune_id, output));
            lemma_amount_of_both(before.events, moved, burnt_at(rune_id, output));
            lemma_amount_of_both(before.events, moved, sent_at(rune_id, output));
            if at < m {
                assert(rest_outputs.take(at) =~= outputs.take(at));
                assert(rest_amounts.take(at) =~= amounts.take(at));
                assert(outputs[at] < outputs[m]);
                lemma_amount_of_none(moved, received_at(rune_id, output));
                lemma_amount_of_none(moved, burnt_at(rune_id, output));
                lemma_amount_of_none(moved, sent_at(rune_id, output));
            } else {
                assert(outputs.take(at) =~= rest_outputs);
                assert(amounts.take(at) =~= rest_amounts);
                assert forall|i: int| 0 <= i < before.events.len() implies !received_at(
                    rune_id,
                    output,
                )(#[trigger] before.events[i]) && !burnt_at(rune_id, output)(before.events[i])
                    && !sent_at(rune_id, output)(before.events[i]) by {
                    assert(goes_to_one_of(before.events[i], rune_id, rest_outputs, receivers));
                    let k = choose|k: int|
                        0 <= k < rest_outputs.len() && is_move_event(
                            before.events[i],
                            rune_id,
                            Some(#[trigger] rest_outputs[k]),
                            receivers[rest_outputs[k]],
                        );
                    assert(outputs[k] < outputs[m]);
                }
                lemma_amount_of_none(before.events, received_at(rune_id, output));
                lemma_amount_of_none(before.events, burnt_at(rune_id, output));
                lemma_amount_of_none(before.events, sent_at(rune_id, output));
                lemma_amount_of_the_same(moved, sent_at(rune_id, output), sent(rune_id));
                lemma_amount_of_the_same(
                    moved,
                    received_at(rune_id, output),
                    received(rune_id),
                );
                lemma_amount_of_the_same(moved, burnt_at(rune_id, output), burnt(rune_id));
                if receivers[last] is Some {
                    lemma_amount_of_none(moved, burnt(rune_id));
                    if known_senders(inputs) {
                        movement_to_a_receiver_sends(
                            rune_id,
                            Some(last),
                            receivers[last]->0,
                            before.rest,
                            amount,
                        );
                    }
                } else if known_senders(inputs) {
                    movement_without_receiver_burns(rune_id, Some(last), before.rest, amount);
                }
            }
        }
    }
}

/// What an edict for all outputs gives to the eligible output at a place: with amount
/// zero an equal share of everything, one unit more for the first outputs as far as the
/// remainder goes; otherwise the amount, as long as there is enough.
pub open spec fn share_of(total: int, amount: int, outputs: int, place: int) -> int {
    if amount == 0 {
        total / outputs + if place < total % outputs {
            1int
        } else {
            0int
        }
    } else if total - place * amount >= amount {
        amount
    } else if total - place * amount > 0 {
        total - place * amount
    } else {
        0
    }
}

/// An edict whose output is the number of outputs gives every eligible output its share,
/// in order. An eligible output with an address receives its share, and nothing is burnt
/// there; at one without, nothing is received. As far as the senders are known, the share
/// is sent in the first case and burnt in the second. Every event is of one of these outputs. With amount zero nothing is
/// left. Of each address, what the inputs lose is what it gives.
pub proof fn edict_for_all_outputs_gives_shares(
    edict: Edict,
    balances: Seq<RuneInputsView>,
    receivers: Map<u32, Option<String>>,
    total_outputs: u32,
    n: int,
    outputs: Seq<u32>,
    place: int,
    address: String,
)
    requires
        finds_its_rune(edict, balances, n),
        edict.output == total_outputs,
        lists_outputs(outputs, receivers),
        0 <= place < outputs.len(),
    ensures
        ({
            let outcome = edict_outcome(edict, balances, receivers, total_outputs);
            let inputs = balances[n].inputs;
            let rest = outcome.balances[n].inputs;
            let output = Some(outputs[place]);
            let share = share_of(
                held(inputs),
                edict.amount as int,
                outputs.len() as int,
                place,
            );
            &&& differ_at(outcome.balances, balances, n)
            &&& edict.amount == 0 ==> held(rest) == 0
            &&& edict.amount > 0 ==> held(rest) == if held(inputs) >= outputs.len()
                * edict.amount {
                held(inputs) - outputs.len() * edict.amount
            } else {
                0
            }
            &&& receivers[outputs[place]] is Some ==> {
                &&& amount_where(outcome.events, received_at(edict.id, output)) == share
                &&& known_senders(inputs) ==> amount_where(
                    outcome.events,
                    sent_at(edict.id, output),
                ) == share
                &&& amount_where(outcome.events, burnt_at(edict.id, output)) == 0
            }
            &&& receivers[outputs[place]] is None ==> {
                &&& amount_where(outcome.events, received_at(edict.id, output)) == 0
                &&& known_senders(inputs) ==> amount_where(
                    outcome.events,
                    burnt_at(edict.id, output),
                ) == share
            }
            &&& forall|i: int|
                0 <= i < outcome.events.len() ==> goes_to_one_of(
                    #[trigger] outcome.events[i],
                    edict.id,
                    outputs,
                    receivers,
                )
            &&& amount_where(outcome.events, given_by(edict.id, address)) == held_from(
                inputs,
                address,
            ) - held_from(rest, address)
        }),
{
    lemma_outcome(edict, balances, receivers, total_outputs, n);
    let inputs = balances[n].inputs;
    let total = held(inputs);
    let count = outputs.len();
    lemma_held_is_the_total(inputs);
    assert(receivers.dom() =~= outputs.to_set()) by {
        assert forall|output: u32| receivers.dom().contains(output) <==> outputs.to_set().contains(
            output,
        ) by {
            if outputs.to_set().contains(output) {
                let k = choose|k: int| 0 <= k < outputs.len() && outputs[k] == output;
                assert(receivers.contains_key(outputs[k]));
            }
            if receivers.contains_key(output) {
                let k = choose|k: int| 0 <= k < outputs.len() && #[trigger] outputs[k] == output;
                assert(outputs.contains(outputs[k]));
            }
        }
    }
    ascending_list_is_its_own_order(outputs);
    assert(outputs.no_duplicates());
    outputs.unique_seq_to_set();
    assert forall|k: int| 0 <= k < outputs.len() implies receivers.contains_key(
        #[trigger] outputs[k],
    ) by {}
    let amount = edict.amount as nat;
    let whole = count as int;
    assert(outputs.take(whole) =~= outputs);
    if amount == 0 {
        let shares = equal_shares(total as nat, count);
        lemma_distribute(edict.id, outputs, shares, inputs, receivers, place, address);
        equal_split_gives_each_its_share(edict.id, outputs, inputs, receivers, place);
        equal_split_leaves_nothing(edict.id, outputs, inputs, receivers);
        let rest = distribute(edict.id, outputs, shares, inputs, receivers).rest;
        lemma_held_is_the_total(rest);
        let before = distribute(
            edict.id,
            outputs.take(place),
            shares.take(place),
            inputs,
            receivers,
        ).rest;
        lemma_held_is_the_total(before);
        taking_gives_what_is_asked_or_everything(before, shares[place], 0);
    } else {
        let each = if amount <= total {
            amount
        } else {
            total as nat
        };
        let amounts = same_amount(each, count);
        lemma_distribute(edict.id, outputs, amounts, inputs, receivers, place, address);
        same_amount_until_nothing_is_left(edict.id, outputs, inputs, receivers, each, place);
        same_amount_until_nothing_is_left(edict.id, outputs, inputs, receivers, each, whole);
        assert(amounts.take(whole) =~= amounts);
        let rest = distribute(edict.id, outputs, amounts, inputs, receivers).rest;
        lemma_held_is_the_total(rest);
        let before = distribute(
            edict.id,
            outputs.take(place),
            amounts.take(place),
            inputs,
            receivers,
        ).rest;
        lemma_held_is_the_total(before);
        if amount > total {
            lemma_more_than_there_is(total, amount as int, place);
            lemma_more_than_there_is(total, amount as int, whole);
        }
    }
}

proof fn lemma_more_than_there_is(total: int, amount: int, k: int)
    by (nonlinear_arith)
    requires
        0 <= total < amount,
        0 <= k,
    ensures
        k >= 1 ==> k * total >= total,
        k >= 1 ==> k * amount >= amount,
        k == 0 ==> k * total == 0 && k * amount == 0,
{
}

} // verus!
