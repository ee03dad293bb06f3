//! In which order events are recorded, where a movement stops, and which inputs stay.

use vstd::prelude::*;

use crate::db::models::db_ledger_operation::DbLedgerOperation;
use crate::db::models::input_rune_balance::{total_amount, InputRuneBalance};
use crate::mempool::balances::{lemma_inputs_of_listed, RuneInputsView};
use crate::mempool::edict_laws::{finds_its_rune, lists_outputs};
use crate::mempool::edicts::{
    ascending, ascending_list_is_its_own_order, distribute, edict_outcome, equal_shares,
    same_amount,
};
use crate::mempool::ledger::{allocation_events, burn_events, burn_inputs};
use crate::mempool::ledger_laws::has_address;
use crate::mempool::measures::{held, lemma_held_is_the_total};
use crate::mempool::movement::{
    asked, asking_for_everything_takes_everything, move_events, portion, receive_events,
    receiver_of, sender_events, take, taking_gives_what_is_asked_or_everything, LedgerEvent,
    TakenPart,
};
use crate::mempool::movement_laws::{
    leaves, movement_takes_and_records, movement_takes_from_the_end,
};
use crate::runes::{Edict, RuneId};

verus! {

/// Whether inputs are the first ones of others, as they were, but for the last of them,
/// which may hold less.
pub open spec fn front_of(rest: Seq<InputRuneBalance>, inputs: Seq<InputRuneBalance>) -> bool {
    &&& rest.len() <= inputs.len()
    &&& forall|i: int| 0 <= i < rest.len() - 1 ==> #[trigger] rest[i] == inputs[i]
    &&& rest.len() > 0 ==> {
        &&& rest.last().address == inputs[rest.len() - 1].address
        &&& rest.last().amount <= inputs[rest.len() - 1].amount
    }
}

/// Of the last inputs, as many as are counted, those from known addresses, from the end.
pub open spec fn known_givers(inputs: Seq<InputRuneBalance>, count: nat) -> Seq<InputRuneBalance>
    decreases count,
{
    if count == 0 {
        Seq::empty()
    } else {
        let before = known_givers(inputs, (count - 1) as nat);
        let input = inputs[inputs.len() - count];
        if input.address is Some {
            before.push(input)
        } else {
            before
        }
    }
}

/// Whether the events record a movement out of the last inputs, as many as are counted, in
/// order. What is received stands first, where there is anything. Then there is one event
/// for each input that gives and is from a known address, from the last input on: each gives
/// all that it holds, up to the last that gives. They are the fewest inputs that hold what is
/// asked for, but one at least, and all of them where everything is asked for or they hold
/// less.
pub open spec fn recorded_from(
    events: Seq<LedgerEvent>,
    inputs: Seq<InputRuneBalance>,
    amount: Option<nat>,
    receives: bool,
    count: int,
) -> bool {
    let first: int = if receives && leaves(inputs, amount) > 0 {
        1
    } else {
        0
    };
    let len = inputs.len() as int;
    let known = known_givers(inputs, count as nat);
    &&& 0 <= count <= len
    &&& len > 0 ==> count > 0
    &&& match amount {
        Some(limit) => {
            &&& count >= 2 ==> held(inputs.skip(len - (count - 1))) < limit
            &&& held(inputs) < limit ==> count == len
        },
        None => count == len,
    }
    &&& events.len() == first + known.len()
    &&& first == 1 ==> events[0].operation == DbLedgerOperation::Receive && events[0].amount
        == Some(leaves(inputs, amount) as u128)
    &&& forall|k: int|
        0 <= k < known.len() ==> {
            &&& (#[trigger] known[k]).address == events[first + k].address
            &&& events[first + k].operation != DbLedgerOperation::Receive
        }
    &&& count > 0 ==> forall|k: int|
        0 <= k < known_givers(inputs, (count - 1) as nat).len() ==> Some(
            (#[trigger] known_givers(inputs, (count - 1) as nat)[k]).amount,
        ) == events[first + k].amount
}

/// Whether the events record a movement out of inputs, in order.
pub open spec fn recorded(
    events: Seq<LedgerEvent>,
    inputs: Seq<InputRuneBalance>,
    amount: Option<nat>,
    receives: bool,
) -> bool {
    exists|count: int| #[trigger] recorded_from(events, inputs, amount, receives, count)
}

proof fn lemma_where_it_stops(inputs: Seq<InputRuneBalance>, amount: Option<nat>, sent: nat)
    requires
        amount matches Some(limit) ==> sent <= limit,
    ensures
        ({
            let count = take(inputs, amount, sent).parts.len() as int;
            let len = inputs.len() as int;
            &&& count <= len
            &&& match amount {
                Some(limit) => {
                    &&& count >= 2 ==> sent + held(inputs.skip(len - (count - 1))) < limit
                    &&& sent + held(inputs) < limit ==> count == len
                },
                None => count == len,
            }
        }),
    decreases inputs.len(),
{
    if inputs.len() > 0 {
        let input = inputs.last();
        let rest = inputs.drop_last();
        let got = portion(input.amount as nat, amount, sent);
        lemma_held_is_the_total(rest);
        if got < input.amount {
        } else if amount == Some(sent + got) {
        } else {
            lemma_where_it_stops(rest, amount, sent + got);
            let more = take(rest, amount, sent + got).parts.len() as int;
            let len = inputs.len() as int;
            if more >= 2 {
                let tail = inputs.skip(len - more);
                assert(tail.drop_last() =~= rest.skip(len - 1 - (more - 1)));
            } else if more == 1 {
                let tail = inputs.skip(len - 1);
                assert(tail.drop_last() =~= Seq::<InputRuneBalance>::empty());
                assert(held(tail.drop_last()) == 0);
            }
        }
    }
}

proof fn lemma_parts(inputs: Seq<InputRuneBalance>, amount: Option<nat>, sent: nat)
    requires
        amount matches Some(limit) ==> sent <= limit,
    ensures
        ({
            let parts = take(inputs, amount, sent).parts;
            &&& parts.len() <= inputs.len()
            &&& inputs.len() > 0 ==> parts.len() > 0
            &&& forall|k: int|
                0 <= k < parts.len() ==> {
                    let input = inputs[inputs.len() - 1 - k];
                    &&& (#[trigger] parts[k]).address == input.address
                    &&& parts[k].amount <= input.amount
                    &&& k < parts.len() - 1 ==> parts[k].amount == input.amount
                }
        }),
    decreases inputs.len(),
{
    if inputs.len() > 0 {
        let input = inputs.last();
        let rest = inputs.drop_last();
        let got = portion(input.amount as nat, amount, sent);
        if got < input.amount {
        } else if amount == Some(sent + got) {
        } else {
            lemma_parts(rest, amount, sent + got);
            let more = take(rest, amount, sent + got).parts;
            let parts = take(inputs, amount, sent).parts;
            assert(parts == seq![TakenPart { amount: got, address: input.address }] + more);
            assert forall|k: int| 0 <= k < parts.len() implies {
                let input = inputs[inputs.len() - 1 - k];
                &&& (#[trigger] parts[k]).address == input.address
                &&& parts[k].amount <= input.amount
                &&& k < parts.len() - 1 ==> parts[k].amount == input.amount
            } by {
                if k > 0 {
                    assert(parts[k] == more[k - 1]);
                    assert(rest[rest.len() - 1 - (k - 1)] == inputs[inputs.len() - 1 - k]);
                }
            }
        }
    }
}

proof fn lemma_events_follow_the_parts(
    rune_id: RuneId,
    output: Option<u32>,
    receiver: Option<String>,
    parts: Seq<TakenPart>,
    inputs: Seq<InputRuneBalance>,
    count: nat,
)
    requires
        count <= parts.len() <= inputs.len(),
        forall|k: int|
            0 <= k < parts.len() ==> {
                let input = inputs[inputs.len() - 1 - k];
                &&& (#[trigger] parts[k]).address == input.address
                &&& parts[k].amount <= input.amount
                &&& k < parts.len() - 1 ==> parts[k].amount == input.amount
            },
    ensures
        ({
            let events = sender_events(rune_id, output, receiver, parts.take(count as int));
            let known = known_givers(inputs, count);
            &&& events.len() == known.len()
            &&& forall|k: int|
                0 <= k < known.len() ==> {
                    &&& (#[trigger] known[k]).address == events[k].address
                    &&& events[k].operation != DbLedgerOperation::Receive
                    &&& count < parts.len() ==> Some(known[k].amount) == events[k].amount
                }
            &&& count > 0 ==> forall|k: int|
                0 <= k < known_givers(inputs, (count - 1) as nat).len() ==> Some(
                    (#[trigger] known_givers(inputs, (count - 1) as nat)[k]).amount,
                ) == events[k].amount
        }),
    decreases count,
{
    if count > 0 {
        let fewer = (count - 1) as nat;
        lemma_events_follow_the_parts(rune_id, output, receiver, parts, inputs, fewer);
        assert(parts.take(count as int).drop_last() =~= parts.take(count - 1));
        let before = sender_events(rune_id, output, receiver, parts.take(count - 1));
        let events = sender_events(rune_id, output, receiver, parts.take(count as int));
        let known = known_givers(inputs, count);
        let part = parts[count - 1];
        assert(part.address == inputs[inputs.len() - count].address);
        assert forall|k: int| 0 <= k < known_givers(inputs, fewer).len() implies Some(
            (#[trigger] known_givers(inputs, fewer)[k]).amount,
        ) == events[k].amount by {
            assert(events[k] == before[k]);
        }
        assert forall|k: int| 0 <= k < known.len() implies {
            &&& (#[trigger] known[k]).address == events[k].address
            &&& events[k].operation != DbLedgerOperation::Receive
            &&& count < parts.len() ==> Some(known[k].amount) == events[k].amount
        } by {
            if k < before.len() {
                assert(events[k] == before[k]);
                assert(known[k] == known_givers(inputs, fewer)[k]);
            }
        }
    }
}

/// A movement is recorded in order.
pub proof fn movement_is_recorded_in_order(
    rune_id: RuneId,
    output: Option<u32>,
    receiver: Option<String>,
    inputs: Seq<InputRuneBalance>,
    amount: Option<nat>,
)
    requires
        held(inputs) <= u128::MAX,
    ensures
        recorded(
            move_events(rune_id, output, receiver, inputs, amount),
            inputs,
            amount,
            receiver is Some,
        ),
{
    let taken = take(inputs, amount, 0);
    let count = taken.parts.len() as int;
    lemma_where_it_stops(inputs, amount, 0);
    lemma_parts(inputs, amount, 0);
    lemma_events_follow_the_parts(
        rune_id,
        output,
        receiver,
        taken.parts,
        inputs,
        count as nat,
    );
    assert(taken.parts.take(count) =~= taken.parts);
    lemma_held_is_the_total(inputs);
    match amount {
        Some(limit) => {
            taking_gives_what_is_asked_or_everything(inputs, limit, 0);
        },
        None => {
            asking_for_everything_takes_everything(inputs, 0);
        },
    }
    let got = receive_events(rune_id, output, receiver, taken.total);
    let sent = sender_events(rune_id, output, receiver, taken.parts);
    let events = move_events(rune_id, output, receiver, inputs, amount);
    let known = known_givers(inputs, count as nat);
    assert(got.len() == if receiver is Some && leaves(inputs, amount) > 0 {
        1int
    } else {
        0int
    });
    if got.len() == 1 {
        assert(events[0] == got[0]);
    }
    assert forall|k: int| 0 <= k < known.len() implies {
        &&& (#[trigger] known[k]).address == events[got.len() + k].address
        &&& events[got.len() + k].operation != DbLedgerOperation::Receive
    } by {
        assert(events[got.len() + k] == sent[k]);
    }
    if count > 0 {
        let whole = known_givers(inputs, (count - 1) as nat);
        assert forall|k: int| 0 <= k < whole.len() implies Some((#[trigger] whole[k]).amount)
            == events[got.len() + k].amount by {
            assert(events[got.len() + k] == sent[k]);
        }
    }
    assert(recorded_from(events, inputs, amount, receiver is Some, count));
}

/// An edict on an output of the transaction, or on one that it does not have, is recorded in
/// order. With amount zero, an edict on an output of the
/// transaction asks for exactly what the inputs hold, and one on an output that it does not
/// have for everything.
pub proof fn edict_is_recorded_in_order(
    edict: Edict,
    balances: Seq<RuneInputsView>,
    receivers: Map<u32, Option<String>>,
    total_outputs: u32,
    n: int,
    eligible: u32,
)
    requires
        finds_its_rune(edict, balances, n),
        edict.output != total_outputs,
        receivers.dom().finite(),
        receivers.contains_key(eligible),
    ensures
        ({
            let events = edict_outcome(edict, balances, receivers, total_outputs).events;
            let inputs = balances[n].inputs;
            let receives = edict.output < total_outputs && receivers.contains_key(edict.output)
                && receivers[edict.output] is Some;
            let amount = if edict.amount > 0 {
                Some(edict.amount as nat)
            } else if edict.output < total_outputs {
                Some(held(inputs) as nat)
            } else {
                None
            };
            recorded(events, inputs, amount, receives)
        }),
{
    let inputs = balances[n].inputs;
    lemma_inputs_of_listed(balances, n);
    lemma_held_is_the_total(inputs);
    lemma_not_empty(receivers, eligible);
    let amount = if edict.amount > 0 {
        Some(edict.amount as nat)
    } else if edict.output < total_outputs {
        Some(held(inputs) as nat)
    } else {
        None
    };
    let output = Some(edict.output);
    let receiver = receiver_of(output, receivers);
    movement_is_recorded_in_order(edict.id, output, receiver, inputs, amount);
    movement_is_recorded_in_order(edict.id, None, None, inputs, amount);
}

proof fn lemma_not_empty(receivers: Map<u32, Option<String>>, output: u32)
    requires
        receivers.contains_key(output),
        receivers.dom().finite(),
    ensures
        receivers.dom().len() > 0,
{
    if receivers.dom().len() == 0 {
        receivers.dom().lemma_len0_is_empty();
        assert(receivers.dom().contains(output));
    }
}

proof fn lemma_front_of_front(
    a: Seq<InputRuneBalance>,
    b: Seq<InputRuneBalance>,
    c: Seq<InputRuneBalance>,
)
    requires
        front_of(a, b),
        front_of(b, c),
    ensures
        front_of(a, c),
{
    assert forall|i: int| 0 <= i < a.len() - 1 implies #[trigger] a[i] == c[i] by {
        assert(a[i] == b[i]);
        assert(b[i] == c[i]);
    }
    if a.len() > 0 {
        let last = a.len() - 1;
        if last < b.len() - 1 {
            assert(b[last] == c[last]);
        }
    }
}

proof fn lemma_distribution_leaves_the_first(
    rune_id: RuneId,
    outputs: Seq<u32>,
    amounts: Seq<nat>,
    inputs: Seq<InputRuneBalance>,
    receivers: Map<u32, Option<String>>,
)
    ensures
        front_of(distribute(rune_id, outputs, amounts, inputs, receivers).rest, inputs),
    decreases outputs.len(),
{
    if outputs.len() > 0 {
        lemma_distribution_leaves_the_first(
            rune_id,
            outputs.drop_last(),
            amounts.drop_last(),
            inputs,
            receivers,
        );
        let before = distribute(
            rune_id,
            outputs.drop_last(),
            amounts.drop_last(),
            inputs,
            receivers,
        ).rest;
        let amount = Some(amounts.last());
        movement_takes_from_the_end(before, amount);
        lemma_front_of_front(take(before, amount, 0).rest, before, inputs);
    }
}

/// Whatever an edict does, the inputs that stay are the first ones of those that carried its
/// rune, as they were, but for the last of them, which may have given a part.
pub proof fn edict_leaves_the_first_inputs(
    edict: Edict,
    balances: Seq<RuneInputsView>,
    receivers: Map<u32, Option<String>>,
    total_outputs: u32,
    n: int,
)
    requires
        finds_its_rune(edict, balances, n),
    ensures
        front_of(
            edict_outcome(edict, balances, receivers, total_outputs).balances[n].inputs,
            balances[n].inputs,
        ),
{
    let inputs = balances[n].inputs;
    lemma_inputs_of_listed(balances, n);
    let unallocated = total_amount(inputs);
    let amount = edict.amount as nat;
    let outputs = ascending(receivers.dom());
    let count = outputs.len();
    let each = if amount <= unallocated {
        amount
    } else {
        unallocated
    };
    let shares = equal_shares(unallocated, count);
    lemma_distribution_leaves_the_first(edict.id, outputs, shares, inputs, receivers);
    let same = same_amount(each, count);
    lemma_distribution_leaves_the_first(edict.id, outputs, same, inputs, receivers);
    movement_takes_from_the_end(inputs, asked(edict.amount));
    movement_takes_from_the_end(inputs, Some(amount));
    movement_takes_from_the_end(inputs, Some(unallocated));
}

proof fn lemma_distribution_in_order(
    rune_id: RuneId,
    outputs: Seq<u32>,
    amounts: Seq<nat>,
    inputs: Seq<InputRuneBalance>,
    receivers: Map<u32, Option<String>>,
)
    requires
        held(inputs) <= u128::MAX,
        forall|i: int, j: int| 0 <= i < j < outputs.len() ==> outputs[i] < outputs[j],
    ensures
        ({
            let done = distribute(rune_id, outputs, amounts, inputs, receivers);
            &&& held(done.rest) <= held(inputs)
            &&& forall|i: int|
                0 <= i < done.events.len() ==> (#[trigger] done.events[i]).output is Some
                    && outputs.len() > 0 && done.events[i].output->0 <= outputs.last()
            &&& forall|i: int, j: int|
                0 <= i <= j < done.events.len() ==> (#[trigger] done.events[i]).output->0 <= (
                #[trigger] done.events[j]).output->0
        }),
    decreases outputs.len(),
{
    if outputs.len() > 0 {
        let fewer = outputs.drop_last();
        let before = distribute(rune_id, fewer, amounts.drop_last(), inputs, receivers);
        lemma_distribution_in_order(rune_id, fewer, amounts.drop_last(), inputs, receivers);
        let output = Some(outputs.last());
        let receiver = receiver_of(output, receivers);
        let amount = Some(amounts.last());
        lemma_held_is_the_total(before.rest);
        movement_takes_and_records(
            rune_id,
            output,
            receiver,
            before.rest,
            amount,
            arbitrary(),
        );
        let moved = move_events(rune_id, output, receiver, before.rest, amount);
        let done = distribute(rune_id, outputs, amounts, inputs, receivers);
        assert(done.events == before.events + moved);
        assert forall|i: int| 0 <= i < done.events.len() implies (
        #[trigger] done.events[i]).output is Some && done.events[i].output->0
            <= outputs.last() by {
            if i < before.events.len() {
                assert(done.events[i] == before.events[i]);
                assert(fewer.last() == outputs[outputs.len() - 2]);
                assert(outputs[outputs.len() - 2] < outputs[outputs.len() - 1]);
            } else {
                assert(done.events[i] == moved[i - before.events.len()]);
            }
        }
        assert forall|i: int, j: int| 0 <= i <= j < done.events.len() implies (
        #[trigger] done.events[i]).output->0 <= (#[trigger] done.events[j]).output->0 by {
            if j < before.events.len() {
                assert(done.events[i] == before.events[i]);
                assert(done.events[j] == before.events[j]);
            } else {
                assert(done.events[j] == moved[j - before.events.len()]);
            }
        }
    }
}

/// An edict for all outputs goes through them in order: no event of an output comes before
/// one of a lower output.
pub proof fn edict_for_all_outputs_goes_in_order(
    edict: Edict,
    balances: Seq<RuneInputsView>,
    receivers: Map<u32, Option<String>>,
    total_outputs: u32,
    n: int,
    outputs: Seq<u32>,
    i: int,
    j: int,
)
    requires
        finds_its_rune(edict, balances, n),
        edict.output == total_outputs,
        lists_outputs(outputs, receivers),
        outputs.len() > 0,
        0 <= i <= j < edict_outcome(edict, balances, receivers, total_outputs).events.len(),
    ensures
        ({
            let events = edict_outcome(edict, balances, receivers, total_outputs).events;
            &&& events[i].output is Some
            &&& events[j].output is Some
            &&& events[i].output->0 <= events[j].output->0
        }),
{
    let inputs = balances[n].inputs;
    lemma_inputs_of_listed(balances, n);
    lemma_held_is_the_total(inputs);
    lemma_listed_outputs(outputs, receivers);
    let unallocated = total_amount(inputs);
    let amount = edict.amount as nat;
    let count = outputs.len();
    let each = if amount <= unallocated {
        amount
    } else {
        unallocated
    };
    let shares = equal_shares(unallocated, count);
    lemma_distribution_in_order(edict.id, outputs, shares, inputs, receivers);
    let same = same_amount(each, count);
    lemma_distribution_in_order(edict.id, outputs, same, inputs, receivers);
}

proof fn lemma_listed_outputs(outputs: Seq<u32>, receivers: Map<u32, Option<String>>)
    requires
        lists_outputs(outputs, receivers),
        outputs.len() > 0,
    ensures
        ascending(receivers.dom()) == outputs,
        receivers.dom().len() == outputs.len(),
{
    assert(outputs.to_set() =~= receivers.dom()) by {
        assert forall|output: u32| outputs.to_set().contains(
            output,
        ) == receivers.dom().contains(output) by {
            assert(outputs.to_set().contains(output) == outputs.contains(output));
            assert(receivers.contains_key(output) == receivers.dom().contains(output));
        }
    }
    ascending_list_is_its_own_order(outputs);
    outputs.unique_seq_to_set();
}

/// What is left is allocated rune by rune: for two runs of runes, the events of the first
/// come before those of the second. The events of a single rune are recorded in order.
pub proof fn allocation_goes_rune_by_rune(
    a: Seq<RuneInputsView>,
    b: Seq<RuneInputsView>,
    single: RuneInputsView,
    pointer: Option<u32>,
    receivers: Map<u32, Option<String>>,
)
    ensures
        allocation_events(a + b, pointer, receivers) == allocation_events(a, pointer, receivers)
            + allocation_events(b, pointer, receivers),
        held(single.inputs) <= u128::MAX ==> recorded(
            allocation_events(seq![single], pointer, receivers),
            single.inputs,
            None,
            has_address(pointer, receivers),
        ),
    decreases b.len(),
{
    if b.len() == 0 {
        assert(a + b =~= a);
        assert(allocation_events(b, pointer, receivers) =~= Seq::<LedgerEvent>::empty());
    } else {
        allocation_goes_rune_by_rune(a, b.drop_last(), single, pointer, receivers);
        assert((a + b).drop_last() =~= a + b.drop_last());
    }
    assert(allocation_events(a + b, pointer, receivers) =~= allocation_events(
        a,
        pointer,
        receivers,
    ) + allocation_events(b, pointer, receivers));
    if held(single.inputs) <= u128::MAX {
        let receiver = receiver_of(pointer, receivers);
        movement_is_recorded_in_order(single.rune_id, pointer, receiver, single.inputs, None);
        let moved = move_events(single.rune_id, pointer, receiver, single.inputs, None);
        let none = seq![single].drop_last();
        assert(none =~= Seq::<RuneInputsView>::empty());
        assert(allocation_events(none, pointer, receivers) == Seq::<LedgerEvent>::empty());
        assert(allocation_events(seq![single], pointer, receivers) =~= moved);
    }
}

/// Everything is burnt rune by rune and input by input: for two runs of runes, the events of
/// the first come before those of the second, and the event of an input of a single rune
/// stands at the place of the input and holds its address and its amount.
pub proof fn burning_goes_input_by_input(
    a: Seq<RuneInputsView>,
    b: Seq<RuneInputsView>,
    single: RuneInputsView,
    i: int,
)
    requires
        0 <= i < single.inputs.len(),
    ensures
        burn_events(a + b) == burn_events(a) + burn_events(b),
        burn_events(seq![single]).len() == single.inputs.len(),
        burn_events(seq![single])[i].rune_id == single.rune_id,
        burn_events(seq![single])[i].address == single.inputs[i].address,
        burn_events(seq![single])[i].amount == Some(single.inputs[i].amount),
    decreases b.len(),
{
    if b.len() == 0 {
        assert(a + b =~= a);
        assert(burn_events(b) =~= Seq::<LedgerEvent>::empty());
    } else {
        burning_goes_input_by_input(a, b.drop_last(), single, i);
        assert((a + b).drop_last() =~= a + b.drop_last());
    }
    assert(burn_events(a + b) =~= burn_events(a) + burn_events(b));
    let none = seq![single].drop_last();
    assert(none =~= Seq::<RuneInputsView>::empty());
    assert(burn_events(none) == Seq::<LedgerEvent>::empty());
    assert(burn_events(seq![single]) =~= burn_inputs(single.rune_id, single.inputs));
}

} // verus!
