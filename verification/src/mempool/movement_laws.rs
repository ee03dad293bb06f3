//! What moving a rune does: how much leaves, whose it was, and what is recorded.

use vstd::prelude::*;

use crate::db::models::db_ledger_operation::DbLedgerOperation;
use crate::db::models::input_rune_balance::InputRuneBalance;
use crate::mempool::measures::{
    amount_where, burnt, given_by, held, held_from, lemma_amount_of_both, lemma_amount_of_none,
    lemma_held_is_the_total, received, sent,
};
use crate::mempool::movement::{
    asking_for_everything_takes_everything, move_events, portion, receive_events, sender_events,
    take, taking_conserves_the_total, taking_gives_what_is_asked_or_everything, LedgerEvent,
    TakenPart,
};
use crate::runes::RuneId;

verus! {

/// Whether an event is one of moving a rune to an output. Where the output has an
/// address, the address receives, or a known address sends to it; where it has none,
/// a known address burns.
pub open spec fn is_move_event(
    event: LedgerEvent,
    rune_id: RuneId,
    output: Option<u32>,
    receiver: Option<String>,
) -> bool {
    &&& event.rune_id == rune_id
    &&& event.output == output
    &&& event.amount is Some
    &&& event.address is Some
    &&& match receiver {
        Some(_) => {
            ||| event.operation == DbLedgerOperation::Receive && event.address == receiver
                && event.receiver_address is None
            ||| event.operation == DbLedgerOperation::Send && event.receiver_address == receiver
        },
        None => event.operation == DbLedgerOperation::Burn && event.receiver_address is None,
    }
}

/// Whether all events are of moving a rune to an output.
pub open spec fn are_move_events(
    events: Seq<LedgerEvent>,
    rune_id: RuneId,
    output: Option<u32>,
    receiver: Option<String>,
) -> bool {
    forall|i: int|
        0 <= i < events.len() ==> is_move_event(#[trigger] events[i], rune_id, output, receiver)
}

/// What leaves the inputs when an amount is asked for: the amount, or everything
/// where there is less; without an amount, everything.
pub open spec fn leaves(inputs: Seq<InputRuneBalance>, amount: Option<nat>) -> int {
    match amount {
        Some(limit) => if limit <= held(inputs) {
            limit as int
        } else {
            held(inputs)
        },
        None => held(inputs),
    }
}

spec fn parts_from(parts: Seq<TakenPart>, address: String) -> int
    decreases parts.len(),
{
    if parts.len() == 0 {
        0
    } else {
        parts_from(parts.drop_last(), address) + if parts.last().address == Some(address) {
            parts.last().amount as int
        } else {
            0
        }
    }
}

spec fn parts_total(parts: Seq<TakenPart>) -> int
    decreases parts.len(),
{
    if parts.len() == 0 {
        0
    } else {
        parts_total(parts.drop_last()) + parts.last().amount
    }
}

proof fn lemma_parts_first(part: TakenPart, parts: Seq<TakenPart>, address: String)
    ensures
        parts_total(seq![part] + parts) == part.amount + parts_total(parts),
        parts_from(seq![part] + parts, address) == parts_from(parts, address) + if part.address
            == Some(address) {
            part.amount as int
        } else {
            0
        },
    decreases parts.len(),
{
    let all = seq![part] + parts;
    if parts.len() == 0 {
        assert(all.drop_last() =~= Seq::<TakenPart>::empty());
        assert(parts_total(all.drop_last()) == 0);
        assert(parts_from(all.drop_last(), address) == 0);
    } else {
        assert(all.drop_last() =~= seq![part] + parts.drop_last());
        lemma_parts_first(part, parts.drop_last(), address);
    }
}

proof fn lemma_held_push(
    inputs: Seq<InputRuneBalance>,
    balance: InputRuneBalance,
    address: String,
)
    ensures
        held(inputs.push(balance)) == held(inputs) + balance.amount,
        held_from(inputs.push(balance), address) == held_from(inputs, address)
            + if balance.address == Some(address) {
            balance.amount as int
        } else {
            0
        },
{
    assert(inputs.push(balance).drop_last() =~= inputs);
}

proof fn lemma_take_by_address(
    inputs: Seq<InputRuneBalance>,
    amount: Option<nat>,
    sent: nat,
    address: String,
)
    requires
        amount matches Some(limit) ==> sent <= limit,
    ensures
        ({
            let taken = take(inputs, amount, sent);
            &&& sent + parts_total(taken.parts) == taken.total
            &&& parts_from(taken.parts, address) + held_from(taken.rest, address) == held_from(
                inputs,
                address,
            )
            &&& forall|i: int|
                0 <= i < taken.parts.len() ==> (#[trigger] taken.parts[i]).amount <= u128::MAX
        }),
    decreases inputs.len(),
{
    if inputs.len() > 0 {
        let input = inputs.last();
        let rest = inputs.drop_last();
        let got = portion(input.amount as nat, amount, sent);
        let part = TakenPart { amount: got, address: input.address };
        lemma_parts_first(part, Seq::empty(), address);
        assert(seq![part] + Seq::<TakenPart>::empty() =~= seq![part]);
        if got < input.amount {
            lemma_held_push(
                rest,
                InputRuneBalance {
                    address: input.address,
                    amount: (input.amount - got) as u128,
                },
                address,
            );
        } else if amount == Some(sent + got) {
        } else {
            lemma_take_by_address(rest, amount, sent + got, address);
            let more = take(rest, amount, sent + got);
            lemma_parts_first(part, more.parts, address);
            let parts = seq![part] + more.parts;
            assert forall|i: int| 0 <= i < parts.len() implies (#[trigger] parts[i]).amount
                <= u128::MAX by {
                if i > 0 {
                    assert(parts[i] == more.parts[i - 1]);
                }
            }
        }
    }
}

proof fn lemma_sender_events(
    rune_id: RuneId,
    output: Option<u32>,
    receiver: Option<String>,
    parts: Seq<TakenPart>,
    address: String,
)
    requires
        forall|i: int| 0 <= i < parts.len() ==> (#[trigger] parts[i]).amount <= u128::MAX,
    ensures
        ({
            let events = sender_events(rune_id, output, receiver, parts);
            &&& are_move_events(events, rune_id, output, receiver)
            &&& forall|i: int|
                0 <= i < events.len() ==> (#[trigger] events[i]).operation
                    != DbLedgerOperation::Receive
            &&& amount_where(events, given_by(rune_id, address)) == parts_from(parts, address)
        }),
    decreases parts.len(),
{
    if parts.len() > 0 {
        let rest = parts.drop_last();
        assert forall|i: int| 0 <= i < rest.len() implies (#[trigger] rest[i]).amount
            <= u128::MAX by {
            assert(rest[i] == parts[i]);
        }
        lemma_sender_events(rune_id, output, receiver, rest, address);
        let before = sender_events(rune_id, output, receiver, rest);
        let events = sender_events(rune_id, output, receiver, parts);
        assert(parts[parts.len() - 1].amount <= u128::MAX);
        if parts.last().address is Some {
            assert(events.drop_last() =~= before);
            assert forall|i: int| 0 <= i < events.len() implies is_move_event(
                #[trigger] events[i],
                rune_id,
                output,
                receiver,
            ) && events[i].operation != DbLedgerOperation::Receive by {
                if i < before.len() {
                    assert(events[i] == before[i]);
                }
            }
        }
    }
}

/// What a movement does. The amount that is asked for leaves the inputs, or everything
/// where there is less. Every event is of this rune and this output. Where the output
/// has an address, that address receives all that leaves and nothing is burnt; where it
/// has none, nothing is received. Of each known address, what the inputs lose is what
/// it sends or burns.
pub proof fn movement_takes_and_records(
    rune_id: RuneId,
    output: Option<u32>,
    receiver: Option<String>,
    inputs: Seq<InputRuneBalance>,
    amount: Option<nat>,
    address: String,
)
    requires
        held(inputs) <= u128::MAX,
    ensures
        ({
            let events = move_events(rune_id, output, receiver, inputs, amount);
            let rest = take(inputs, amount, 0).rest;
            &&& held(rest) == held(inputs) - leaves(inputs, amount)
            &&& are_move_events(events, rune_id, output, receiver)
            &&& amount_where(events, received(rune_id)) == if receiver is Some {
                leaves(inputs, amount)
            } else {
                0
            }
            &&& amount_where(events, given_by(rune_id, address)) == held_from(inputs, address)
                - held_from(rest, address)
        }),
{
    let taken = take(inputs, amount, 0);
    lemma_held_is_the_total(inputs);
    lemma_held_is_the_total(taken.rest);
    taking_conserves_the_total(inputs, amount, 0);
    match amount {
        Some(limit) => {
            taking_gives_what_is_asked_or_everything(inputs, limit, 0);
        },
        None => {
            asking_for_everything_takes_everything(inputs, 0);
        },
    }
    lemma_take_by_address(inputs, amount, 0, address);
    lemma_sender_events(rune_id, output, receiver, taken.parts, address);
    let got = receive_events(rune_id, output, receiver, taken.total);
    let sent = sender_events(rune_id, output, receiver, taken.parts);
    assert(got.len() > 0 ==> got.drop_last() =~= Seq::<LedgerEvent>::empty());
    assert(amount_where(Seq::<LedgerEvent>::empty(), received(rune_id)) == 0);
    assert(amount_where(Seq::<LedgerEvent>::empty(), given_by(rune_id, address)) == 0);
    lemma_amount_of_both(got, sent, received(rune_id));
    lemma_amount_of_both(got, sent, given_by(rune_id, address));
    lemma_amount_of_none(sent, received(rune_id));
    let events = got + sent;
    assert forall|i: int| 0 <= i < events.len() implies is_move_event(
        #[trigger] events[i],
        rune_id,
        output,
        receiver,
    ) by {
        if i >= got.len() {
            assert(events[i] == sent[i - got.len()]);
        }
    }
}

/// A movement takes from the end: the inputs that stay are the first ones, as they
/// were, but for the last of them, which may have given a part.
pub proof fn movement_takes_from_the_end(inputs: Seq<InputRuneBalance>, amount: Option<nat>)
    ensures
        ({
            let rest = take(inputs, amount, 0).rest;
            &&& rest.len() <= inputs.len()
            &&& forall|i: int| 0 <= i < rest.len() - 1 ==> #[trigger] rest[i] == inputs[i]
            &&& rest.len() > 0 ==> {
                &&& rest.last().address == inputs[rest.len() - 1].address
                &&& rest.last().amount <= inputs[rest.len() - 1].amount
            }
        }),
{
    lemma_takes_from_the_end(inputs, amount, 0);
}

proof fn lemma_takes_from_the_end(
    inputs: Seq<InputRuneBalance>,
    amount: Option<nat>,
    sent: nat,
)
    requires
        amount matches Some(limit) ==> sent <= limit,
    ensures
        ({
            let rest = take(inputs, amount, sent).rest;
            &&& rest.len() <= inputs.len()
            &&& forall|i: int| 0 <= i < rest.len() - 1 ==> #[trigger] rest[i] == inputs[i]
            &&& rest.len() > 0 ==> {
                &&& rest.last().address == inputs[rest.len() - 1].address
                &&& rest.last().amount <= inputs[rest.len() - 1].amount
            }
        }),
    decreases inputs.len(),
{
    if inputs.len() > 0 {
        let got = portion(inputs.last().amount as nat, amount, sent);
        if got < inputs.last().amount {
        } else if amount == Some(sent + got) {
        } else {
            lemma_takes_from_the_end(inputs.drop_last(), amount, sent + got);
        }
    }
}

/// Where every input that holds something comes from a known address and the output
/// has no address, all that leaves is burnt.
pub proof fn movement_without_receiver_burns(
    rune_id: RuneId,
    output: Option<u32>,
    inputs: Seq<InputRuneBalance>,
    amount: Option<nat>,
)
    requires
        held(inputs) <= u128::MAX,
        forall|i: int|
            0 <= i < inputs.len() ==> (#[trigger] inputs[i]).amount > 0 ==> inputs[i].address
                is Some,
    ensures
        amount_where(move_events(rune_id, output, None, inputs, amount), burnt(rune_id)) == leaves(
            inputs,
            amount,
        ),
{
    let taken = take(inputs, amount, 0);
    lemma_held_is_the_total(inputs);
    match amount {
        Some(limit) => {
            taking_gives_what_is_asked_or_everything(inputs, limit, 0);
        },
        None => {
            asking_for_everything_takes_everything(inputs, 0);
        },
    }
    lemma_take_by_address(inputs, amount, 0, arbitrary());
    lemma_parts_known(inputs, amount, 0);
    lemma_burnt_parts(rune_id, output, taken.parts);
    let got = receive_events(rune_id, output, None, taken.total);
    let sent = sender_events(rune_id, output, None, taken.parts);
    assert(got + sent =~= sent);
}

proof fn lemma_parts_known(inputs: Seq<InputRuneBalance>, amount: Option<nat>, sent: nat)
    requires
        amount matches Some(limit) ==> sent <= limit,
        forall|i: int|
            0 <= i < inputs.len() ==> (#[trigger] inputs[i]).amount > 0 ==> inputs[i].address
                is Some,
    ensures
        forall|i: int|
            0 <= i < take(inputs, amount, sent).parts.len() ==> {
                let part = #[trigger] take(inputs, amount, sent).parts[i];
                part.amount > 0 ==> part.address is Some
            },
    decreases inputs.len(),
{
    if inputs.len() > 0 {
        let input = inputs[inputs.len() - 1];
        let rest = inputs.drop_last();
        let got = portion(input.amount as nat, amount, sent);
        assert forall|i: int| 0 <= i < rest.len() && (#[trigger] rest[i]).amount
            > 0 implies rest[i].address is Some by {
            assert(inputs[i].amount > 0);
        }
        if got < input.amount {
        } else if amount == Some(sent + got) {
        } else {
            lemma_parts_known(rest, amount, sent + got);
            let more = take(rest, amount, sent + got).parts;
            let part = TakenPart { amount: got, address: input.address };
            let parts = seq![part] + more;
            assert(take(inputs, amount, sent).parts == parts);
            assert forall|i: int| 0 <= i < parts.len() && (#[trigger] parts[i]).amount
                > 0 implies parts[i].address is Some by {
                if i > 0 {
                    assert(parts[i] == more[i - 1]);
                }
            }
        }
    }
}

proof fn lemma_burnt_parts(rune_id: RuneId, output: Option<u32>, parts: Seq<TakenPart>)
    requires
        forall|i: int|
            0 <= i < parts.len() ==> (#[trigger] parts[i]).amount <= u128::MAX && (parts[i].amount
                > 0 ==> parts[i].address is Some),
    ensures
        amount_where(sender_events(rune_id, output, None, parts), burnt(rune_id)) == parts_total(
            parts,
        ),
    decreases parts.len(),
{
    if parts.len() > 0 {
        let rest = parts.drop_last();
        assert forall|i: int| 0 <= i < rest.len() implies (#[trigger] rest[i]).amount <= u128::MAX
            && (rest[i].amount > 0 ==> rest[i].address is Some) by {
            assert(rest[i] == parts[i]);
        }
        lemma_burnt_parts(rune_id, output, rest);
        assert(parts[parts.len() - 1].amount <= u128::MAX);
        if parts.last().address is Some {
            let events = sender_events(rune_id, output, None, parts);
            assert(events.drop_last() =~= sender_events(rune_id, output, None, rest));
        }
    }
}

/// Where every input that holds something comes from a known address and the output
/// has an address, all that leaves is sent.
pub proof fn movement_to_a_receiver_sends(
    rune_id: RuneId,
    output: Option<u32>,
    receiver: String,
    inputs: Seq<InputRuneBalance>,
    amount: Option<nat>,
)
    requires
        held(inputs) <= u128::MAX,
        forall|i: int|
            0 <= i < inputs.len() ==> (#[trigger] inputs[i]).amount > 0 ==> inputs[i].address
                is Some,
    ensures
        amount_where(
            move_events(rune_id, output, Some(receiver), inputs, amount),
            sent(rune_id),
        ) == leaves(inputs, amount),
{
    let taken = take(inputs, amount, 0);
    lemma_held_is_the_total(inputs);
    match amount {
        Some(limit) => {
            taking_gives_what_is_asked_or_everything(inputs, limit, 0);
        },
        None => {
            asking_for_everything_takes_everything(inputs, 0);
        },
    }
    lemma_take_by_address(inputs, amount, 0, arbitrary());
    lemma_parts_known(inputs, amount, 0);
    lemma_sent_parts(rune_id, output, receiver, taken.parts);
    let got = receive_events(rune_id, output, Some(receiver), taken.total);
    let sends = sender_events(rune_id, output, Some(receiver), taken.parts);
    lemma_amount_of_none(got, sent(rune_id));
    lemma_amount_of_both(got, sends, sent(rune_id));
}

proof fn lemma_sent_parts(
    rune_id: RuneId,
    output: Option<u32>,
    receiver: String,
    parts: Seq<TakenPart>,
)
    requires
        forall|i: int|
            0 <= i < parts.len() ==> (#[trigger] parts[i]).amount <= u128::MAX && (parts[i].amount
                > 0 ==> parts[i].address is Some),
    ensures
        amount_where(sender_events(rune_id, output, Some(receiver), parts), sent(rune_id))
            == parts_total(parts),
    decreases parts.len(),
{
    if parts.len() > 0 {
        let rest = parts.drop_last();
        assert forall|i: int| 0 <= i < rest.len() implies (#[trigger] rest[i]).amount <= u128::MAX
            && (rest[i].amount > 0 ==> rest[i].address is Some) by {
            assert(rest[i] == parts[i]);
        }
        lemma_sent_parts(rune_id, output, receiver, rest);
        assert(parts[parts.len() - 1].amount <= u128::MAX);
        if parts.last().address is Some {
            let events = sender_events(rune_id, output, Some(receiver), parts);
            assert(events.drop_last() =~= sender_events(rune_id, output, Some(receiver), rest));
        }
    }
}

/// A movement records each input that it takes from, one event each, from the end:
/// the event names the address of its input, and the amount of its input where it is
/// not the last one taken from. The event of receiving, where there is one, stands
/// before them.
pub proof fn movement_records_each_input(
    rune_id: RuneId,
    output: Option<u32>,
    receiver: Option<String>,
    inputs: Seq<InputRuneBalance>,
    amount: Option<nat>,
)
    requires
        held(inputs) <= u128::MAX,
        forall|i: int| 0 <= i < inputs.len() ==> (#[trigger] inputs[i]).address is Some,
    ensures
        ({
            let events = move_events(rune_id, output, receiver, inputs, amount);
            let first: int = if receiver is Some && leaves(inputs, amount) > 0 {
                1
            } else {
                0
            };
            &&& first <= events.len() <= first + inputs.len()
            &&& inputs.len() > 0 ==> events.len() > first
            &&& first == 1 ==> events[0].operation == DbLedgerOperation::Receive
            &&& forall|k: int|
                first <= k < events.len() ==> {
                    let input = inputs[inputs.len() - 1 - (k - first)];
                    &&& (#[trigger] events[k]).operation != DbLedgerOperation::Receive
                    &&& events[k].address == input.address
                    &&& k < events.len() - 1 ==> events[k].amount == Some(input.amount)
                }
        }),
{
    let taken = take(inputs, amount, 0);
    lemma_held_is_the_total(inputs);
    match amount {
        Some(limit) => {
            taking_gives_what_is_asked_or_everything(inputs, limit, 0);
        },
        None => {
            asking_for_everything_takes_everything(inputs, 0);
        },
    }
    lemma_take_by_address(inputs, amount, 0, arbitrary());
    lemma_parts_of_inputs(inputs, amount, 0);
    assert forall|k: int| 0 <= k < taken.parts.len() implies (#[trigger] taken.parts[k]).address
        is Some by {
        assert(inputs[inputs.len() - 1 - k].address is Some);
    }
    lemma_events_of_parts(rune_id, output, receiver, taken.parts);
    let got = receive_events(rune_id, output, receiver, taken.total);
    let sent = sender_events(rune_id, output, receiver, taken.parts);
    let events = got + sent;
    assert forall|k: int| got.len() <= k < events.len() implies {
        let input = inputs[inputs.len() - 1 - (k - got.len())];
        &&& (#[trigger] events[k]).operation != DbLedgerOperation::Receive
        &&& events[k].address == input.address
        &&& k < events.len() - 1 ==> events[k].amount == Some(input.amount)
    } by {
        assert(events[k] == sent[k - got.len()]);
        assert(taken.parts[k - got.len()].amount <= u128::MAX);
    }
}

proof fn lemma_parts_of_inputs(inputs: Seq<InputRuneBalance>, amount: Option<nat>, sent: nat)
    requires
        amount matches Some(limit) ==> sent <= limit,
    ensures
        ({
            let parts = take(inputs, amount, sent).parts;
            &&& parts.len() <= inputs.len()
            &&& inputs.len() > 0 ==> parts.len() > 0
            &&& forall|k: int|
                0 <= k < parts.len() ==> {
                    &&& (#[trigger] parts[k]).address == inputs[inputs.len() - 1 - k].address
                    &&& k < parts.len() - 1 ==> parts[k].amount == inputs[inputs.len() - 1
                        - k].amount
                }
        }),
    decreases inputs.len(),
{
    if inputs.len() > 0 {
        let input = inputs.last();
        let rest = inputs.drop_last();
        let got = portion(input.amount as nat, amount, sent);
        if got < input.amount {
        } else if amount == Some(sent + got) {
        } else {
            lemma_parts_of_inputs(rest, amount, sent + got);
            let more = take(rest, amount, sent + got).parts;
            let part = TakenPart { amount: got, address: input.address };
            let parts = seq![part] + more;
            assert(take(inputs, amount, sent).parts == parts);
            assert forall|k: int| 0 <= k < parts.len() implies {
                &&& (#[trigger] parts[k]).address == inputs[inputs.len() - 1 - k].address
                &&& k < parts.len() - 1 ==> parts[k].amount == inputs[inputs.len() - 1 - k].amount
            } by {
                if k > 0 {
                    assert(parts[k] == more[k - 1]);
                    assert(rest[rest.len() - 1 - (k - 1)] == inputs[inputs.len() - 1 - k]);
                }
            }
        }
    }
}

proof fn lemma_events_of_parts(
    rune_id: RuneId,
    output: Option<u32>,
    receiver: Option<String>,
    parts: Seq<TakenPart>,
)
    requires
        forall|k: int| 0 <= k < parts.len() ==> (#[trigger] parts[k]).address is Some,
    ensures
        ({
            let events = sender_events(rune_id, output, receiver, parts);
            &&& events.len() == parts.len()
            &&& forall|k: int|
                0 <= k < parts.len() ==> {
                    &&& (#[trigger] events[k]).operation != DbLedgerOperation::Receive
                    &&& events[k].address == parts[k].address
                    &&& events[k].amount == Some(parts[k].amount as u128)
                }
        }),
    decreases parts.len(),
{
    if parts.len() > 0 {
        let rest = parts.drop_last();
        assert forall|k: int| 0 <= k < rest.len() implies (#[trigger] rest[k]).address is Some by {
            assert(rest[k] == parts[k]);
        }
        lemma_events_of_parts(rune_id, output, receiver, rest);
        assert(parts[parts.len() - 1].address is Some);
        let before = sender_events(rune_id, output, receiver, rest);
        let events = sender_events(rune_id, output, receiver, parts);
        assert forall|k: int| 0 <= k < parts.len() implies {
            &&& (#[trigger] events[k]).operation != DbLedgerOperation::Receive
            &&& events[k].address == parts[k].address
            &&& events[k].amount == Some(parts[k].amount as u128)
        } by {
            if k < rest.len() {
                assert(events[k] == before[k]);
                assert(rest[k] == parts[k]);
            }
        }
    }
}

} // verus!
