//! What comes in with the inputs of a transaction and what its events account for.

use vstd::prelude::*;

use crate::db::models::db_ledger_operation::DbLedgerOperation;
use crate::db::models::input_rune_balance::{total_amount, InputRuneBalance};
use crate::mempool::balances::{
    distinct_runes, inputs_of, lemma_inputs_of_unlisted, lemma_inputs_of_with_inputs, rune_total,
    RuneInputsView,
};
use crate::mempool::edicts::{
    ascending, distribute, edict_distribution, edict_fits, edict_outcome, equal_shares,
    is_unincluded, same_amount,
};
use crate::mempool::ledger::{
    allocation_events, allocation_fits, apply_edicts, artifact_events, artifact_fits, burn_events,
    burn_inputs, edicts_fit, etching_event, included,
};
use crate::mempool::movement::{
    asked, asking_for_everything_takes_everything, move_events, portion, receive_events,
    receiver_of, sender_events, take, taking_conserves_the_total, LedgerEvent, TakenPart,
};
use crate::runes::{ArtifactView, Edict, RuneId};

verus! {

/// The amount of a rune in the events of an operation.
pub open spec fn amount_in(
    events: Seq<LedgerEvent>,
    rune_id: RuneId,
    operation: DbLedgerOperation,
) -> nat
    decreases events.len(),
{
    if events.len() == 0 {
        0
    } else {
        let event = events.last();
        amount_in(events.drop_last(), rune_id, operation) + if event.rune_id == rune_id
            && event.operation == operation && event.amount is Some {
            event.amount->0 as nat
        } else {
            0
        }
    }
}

/// Whether the events account for a total of a rune: all of it is sent or burnt,
/// and what is sent is received.
pub open spec fn account_for(events: Seq<LedgerEvent>, rune_id: RuneId, total: nat) -> bool {
    let sent = amount_in(events, rune_id, DbLedgerOperation::Send);
    &&& amount_in(events, rune_id, DbLedgerOperation::Receive) == sent
    &&& sent + amount_in(events, rune_id, DbLedgerOperation::Burn) == total
}

/// Whether every input that holds something comes from a known address.
pub open spec fn traceable(inputs: Seq<InputRuneBalance>) -> bool {
    forall|i: int|
        0 <= i < inputs.len() ==> (#[trigger] inputs[i]).amount > 0 ==> inputs[i].address is Some
}

/// Whether every input of every rune is traceable.
pub open spec fn all_traceable(balances: Seq<RuneInputsView>) -> bool {
    forall|i: int| 0 <= i < balances.len() ==> traceable((#[trigger] balances[i]).inputs)
}

proof fn lemma_amount_in_both(
    a: Seq<LedgerEvent>,
    b: Seq<LedgerEvent>,
    rune_id: RuneId,
    operation: DbLedgerOperation,
)
    ensures
        amount_in(a + b, rune_id, operation) == amount_in(a, rune_id, operation) + amount_in(
            b,
            rune_id,
            operation,
        ),
    decreases b.len(),
{
    if b.len() == 0 {
        assert(a + b =~= a);
    } else {
        assert((a + b).drop_last() =~= a + b.drop_last());
        lemma_amount_in_both(a, b.drop_last(), rune_id, operation);
    }
}

/// Two runs of events account for the sum of what each accounts for.
proof fn lemma_account_for_both(
    a: Seq<LedgerEvent>,
    b: Seq<LedgerEvent>,
    rune_id: RuneId,
    m: nat,
    n: nat,
)
    requires
        account_for(a, rune_id, m),
        account_for(b, rune_id, n),
    ensures
        account_for(a + b, rune_id, m + n),
{
    lemma_amount_in_both(a, b, rune_id, DbLedgerOperation::Receive);
    lemma_amount_in_both(a, b, rune_id, DbLedgerOperation::Send);
    lemma_amount_in_both(a, b, rune_id, DbLedgerOperation::Burn);
}

/// The amount in parts.
spec fn parts_total(parts: Seq<TakenPart>) -> nat
    decreases parts.len(),
{
    if parts.len() == 0 {
        0
    } else {
        parts_total(parts.drop_last()) + parts.last().amount
    }
}

spec fn parts_traceable(parts: Seq<TakenPart>) -> bool {
    forall|i: int|
        0 <= i < parts.len() ==> (#[trigger] parts[i]).amount <= u128::MAX && (parts[i].amount > 0
            ==> parts[i].address is Some)
}

proof fn lemma_parts_total_first(part: TakenPart, parts: Seq<TakenPart>)
    ensures
        parts_total(seq![part] + parts) == part.amount + parts_total(parts),
    decreases parts.len(),
{
    let all = seq![part] + parts;
    if parts.len() == 0 {
        assert(all.drop_last() =~= Seq::<TakenPart>::empty());
        assert(parts_total(all.drop_last()) == 0);
    } else {
        assert(all.drop_last() =~= seq![part] + parts.drop_last());
        lemma_parts_total_first(part, parts.drop_last());
    }
}

/// What is taken is the sum of its parts, the parts come from known addresses, and
/// what stays is traceable.
proof fn lemma_take_is_traceable(inputs: Seq<InputRuneBalance>, amount: Option<nat>, sent: nat)
    requires
        traceable(inputs),
        amount matches Some(limit) ==> sent <= limit,
    ensures
        sent + parts_total(take(inputs, amount, sent).parts) == take(inputs, amount, sent).total,
        parts_traceable(take(inputs, amount, sent).parts),
        traceable(take(inputs, amount, sent).rest),
    decreases inputs.len(),
{
    if inputs.len() > 0 {
        let input = inputs[inputs.len() - 1];
        let taken = portion(input.amount as nat, amount, sent);
        let part = TakenPart { amount: taken, address: input.address };
        assert(traceable(inputs.drop_last())) by {
            let rest = inputs.drop_last();
            assert forall|i: int| 0 <= i < rest.len() && (#[trigger] rest[i]).amount
                > 0 implies rest[i].address is Some by {
                assert(inputs[i].amount > 0);
            }
        }
        lemma_parts_total_first(part, Seq::empty());
        assert(seq![part] + Seq::<TakenPart>::empty() =~= seq![part]);
        if taken < input.amount {
        } else if amount == Some(sent + taken) {
        } else {
            lemma_take_is_traceable(inputs.drop_last(), amount, sent + taken);
            let more = take(inputs.drop_last(), amount, sent + taken);
            lemma_parts_total_first(part, more.parts);
            let parts = seq![part] + more.parts;
            assert forall|i: int| 0 <= i < parts.len() implies (#[trigger] parts[i]).amount
                <= u128::MAX && (parts[i].amount > 0 ==> parts[i].address is Some) by {
                if i > 0 {
                    assert(more.parts[i - 1].amount <= u128::MAX);
                }
            }
        }
    }
}

proof fn lemma_sender_amounts(
    rune_id: RuneId,
    output: Option<u32>,
    receiver: Option<String>,
    parts: Seq<TakenPart>,
    other: RuneId,
)
    requires
        parts_traceable(parts),
    ensures
        ({
            let events = sender_events(rune_id, output, receiver, parts);
            let total = if other == rune_id {
                parts_total(parts)
            } else {
                0
            };
            &&& amount_in(events, other, DbLedgerOperation::Receive) == 0
            &&& amount_in(events, other, DbLedgerOperation::Send) == if receiver is Some {
                total
            } else {
                0
            }
            &&& amount_in(events, other, DbLedgerOperation::Burn) == if receiver is Some {
                0
            } else {
                total
            }
        }),
    decreases parts.len(),
{
    if parts.len() > 0 {
        let rest = parts.drop_last();
        assert(parts_traceable(rest)) by {
            assert forall|i: int| 0 <= i < rest.len() implies (#[trigger] rest[i]).amount
                <= u128::MAX && (rest[i].amount > 0 ==> rest[i].address is Some) by {
                assert(parts[i].amount <= u128::MAX);
            }
        }
        lemma_sender_amounts(rune_id, output, receiver, rest, other);
        assert(parts[parts.len() - 1].amount <= u128::MAX);
        if parts.last().address is Some {
            let events = sender_events(rune_id, output, receiver, parts);
            assert(events.drop_last() =~= sender_events(rune_id, output, receiver, rest));
        }
    }
}

/// A movement accounts for what it takes.
proof fn lemma_move_accounts(
    rune_id: RuneId,
    output: Option<u32>,
    receiver: Option<String>,
    inputs: Seq<InputRuneBalance>,
    amount: Option<nat>,
    other: RuneId,
)
    requires
        traceable(inputs),
        take(inputs, amount, 0).total <= u128::MAX,
    ensures
        account_for(
            move_events(rune_id, output, receiver, inputs, amount),
            other,
            if other == rune_id {
                take(inputs, amount, 0).total
            } else {
                0
            },
        ),
        traceable(take(inputs, amount, 0).rest),
{
    let taken = take(inputs, amount, 0);
    lemma_take_is_traceable(inputs, amount, 0);
    lemma_sender_amounts(rune_id, output, receiver, taken.parts, other);
    let received = receive_events(rune_id, output, receiver, taken.total);
    let sent = sender_events(rune_id, output, receiver, taken.parts);
    assert(received.len() > 0 ==> received.drop_last() =~= Seq::<LedgerEvent>::empty());
    assert(amount_in(Seq::<LedgerEvent>::empty(), other, DbLedgerOperation::Receive) == 0);
    assert(amount_in(Seq::<LedgerEvent>::empty(), other, DbLedgerOperation::Send) == 0);
    assert(amount_in(Seq::<LedgerEvent>::empty(), other, DbLedgerOperation::Burn) == 0);
    lemma_amount_in_both(received, sent, other, DbLedgerOperation::Receive);
    lemma_amount_in_both(received, sent, other, DbLedgerOperation::Send);
    lemma_amount_in_both(received, sent, other, DbLedgerOperation::Burn);
}

proof fn lemma_distribute_accounts(
    rune_id: RuneId,
    outputs: Seq<u32>,
    amounts: Seq<nat>,
    inputs: Seq<InputRuneBalance>,
    receivers: Map<u32, Option<String>>,
    other: RuneId,
)
    requires
        traceable(inputs),
        total_amount(inputs) <= u128::MAX,
    ensures
        ({
            let done = distribute(rune_id, outputs, amounts, inputs, receivers);
            &&& traceable(done.rest)
            &&& total_amount(done.rest) <= total_amount(inputs)
            &&& account_for(
                done.events,
                other,
                if other == rune_id {
                    (total_amount(inputs) - total_amount(done.rest)) as nat
                } else {
                    0
                },
            )
        }),
    decreases outputs.len(),
{
    if outputs.len() > 0 {
        let before = distribute(
            rune_id,
            outputs.drop_last(),
            amounts.drop_last(),
            inputs,
            receivers,
        );
        lemma_distribute_accounts(
            rune_id,
            outputs.drop_last(),
            amounts.drop_last(),
            inputs,
            receivers,
            other,
        );
        let output = Some(outputs.last());
        let receiver = receiver_of(output, receivers);
        let amount = Some(amounts.last());
        taking_conserves_the_total(before.rest, amount, 0);
        lemma_move_accounts(rune_id, output, receiver, before.rest, amount, other);
        let moved = move_events(rune_id, output, receiver, before.rest, amount);
        if other == rune_id {
            lemma_account_for_both(
                before.events,
                moved,
                other,
                (total_amount(inputs) - total_amount(before.rest)) as nat,
                take(before.rest, amount, 0).total,
            );
        } else {
            lemma_account_for_both(before.events, moved, other, 0, 0);
        }
    }
}

proof fn lemma_found_inputs_are_traceable(balances: Seq<RuneInputsView>, rune_id: RuneId)
    requires
        all_traceable(balances),
    ensures
        inputs_of(balances, rune_id) matches Some(inputs) ==> traceable(inputs),
    decreases balances.len(),
{
    if balances.len() > 0 {
        let rest = balances.drop_last();
        assert(all_traceable(rest)) by {
            assert forall|i: int| 0 <= i < rest.len() implies traceable(
                (#[trigger] rest[i]).inputs,
            ) by {
                assert(traceable(balances[i].inputs));
            }
        }
        lemma_found_inputs_are_traceable(rest, rune_id);
        assert(traceable(balances[balances.len() - 1].inputs));
    }
}

/// An edict accounts for what it takes from the inputs of its rune.
proof fn lemma_edict_distribution_accounts(
    edict: Edict,
    inputs: Seq<InputRuneBalance>,
    receivers: Map<u32, Option<String>>,
    total_outputs: u32,
    other: RuneId,
)
    requires
        traceable(inputs),
        total_amount(inputs) <= u128::MAX,
    ensures
        ({
            let done = edict_distribution(edict, inputs, receivers, total_outputs);
            &&& traceable(done.rest)
            &&& total_amount(done.rest) <= total_amount(inputs)
            &&& account_for(
                done.events,
                other,
                if other == edict.id {
                    (total_amount(inputs) - total_amount(done.rest)) as nat
                } else {
                    0
                },
            )
        }),
{
    let unallocated = total_amount(inputs);
    let amount = edict.amount as nat;
    let outputs = ascending(receivers.dom());
    let count = outputs.len();
    let each = if amount <= unallocated {
        amount
    } else {
        unallocated
    };
    lemma_distribute_accounts(
        edict.id,
        outputs,
        equal_shares(unallocated, count),
        inputs,
        receivers,
        other,
    );
    lemma_distribute_accounts(
        edict.id,
        outputs,
        same_amount(each, count),
        inputs,
        receivers,
        other,
    );
    let output = Some(edict.output);
    let moved = Some(
        if amount == 0 {
            unallocated
        } else {
            amount
        },
    );
    let burnt = asked(edict.amount);
    taking_conserves_the_total(inputs, burnt, 0);
    taking_conserves_the_total(inputs, moved, 0);
    lemma_move_accounts(edict.id, None, receiver_of(None, receivers), inputs, burnt, other);
    lemma_move_accounts(edict.id, output, receiver_of(output, receivers), inputs, moved, other);
}

/// An edict accounts for what it takes from the balances, rune by rune, and takes
/// nothing of any rune but its own.
pub proof fn edict_accounts_for_what_it_takes(
    edict: Edict,
    balances: Seq<RuneInputsView>,
    receivers: Map<u32, Option<String>>,
    total_outputs: u32,
    rune_id: RuneId,
)
    requires
        distinct_runes(balances),
        all_traceable(balances),
        edict_fits(edict, balances),
    ensures
        ({
            let outcome = edict_outcome(edict, balances, receivers, total_outputs);
            &&& distinct_runes(outcome.balances)
            &&& all_traceable(outcome.balances)
            &&& rune_id != edict.id ==> inputs_of(outcome.balances, rune_id) == inputs_of(
                balances,
                rune_id,
            )
            &&& rune_total(outcome.balances, rune_id) <= rune_total(balances, rune_id)
            &&& account_for(
                outcome.events,
                rune_id,
                (rune_total(balances, rune_id) - rune_total(outcome.balances, rune_id)) as nat,
            )
        }),
{
    let outcome = edict_outcome(edict, balances, receivers, total_outputs);
    match inputs_of(balances, edict.id) {
        Some(inputs) if !is_unincluded(edict.id) => {
            let done = edict_distribution(edict, inputs, receivers, total_outputs);
            lemma_found_inputs_are_traceable(balances, edict.id);
            lemma_edict_distribution_accounts(edict, inputs, receivers, total_outputs, rune_id);
            lemma_inputs_of_with_inputs(balances, edict.id, done.rest, rune_id);
            assert forall|i: int, j: int|
                0 <= i < j < outcome.balances.len() implies #[trigger] outcome.balances[i].rune_id
                != #[trigger] outcome.balances[j].rune_id by {
                assert(balances[i].rune_id != balances[j].rune_id);
            }
            assert forall|i: int| 0 <= i < outcome.balances.len() implies traceable(
                (#[trigger] outcome.balances[i]).inputs,
            ) by {
                assert(traceable(balances[i].inputs));
            }
        },
        _ => {},
    }
}

/// Edicts account for what they take from the balances, rune by rune.
pub proof fn edicts_account_for_what_they_take(
    edicts: Seq<Edict>,
    balances: Seq<RuneInputsView>,
    receivers: Map<u32, Option<String>>,
    total_outputs: u32,
    rune_id: RuneId,
)
    requires
        distinct_runes(balances),
        all_traceable(balances),
        edicts_fit(edicts, balances, receivers, total_outputs),
    ensures
        ({
            let outcome = apply_edicts(edicts, balances, receivers, total_outputs);
            &&& distinct_runes(outcome.balances)
            &&& all_traceable(outcome.balances)
            &&& rune_total(outcome.balances, rune_id) <= rune_total(balances, rune_id)
            &&& account_for(
                outcome.events,
                rune_id,
                (rune_total(balances, rune_id) - rune_total(outcome.balances, rune_id)) as nat,
            )
        }),
    decreases edicts.len(),
{
    if edicts.len() > 0 {
        let rest = edicts.drop_last();
        edicts_account_for_what_they_take(rest, balances, receivers, total_outputs, rune_id);
        let before = apply_edicts(rest, balances, receivers, total_outputs);
        edict_accounts_for_what_it_takes(
            edicts.last(),
            before.balances,
            receivers,
            total_outputs,
            rune_id,
        );
        let outcome = edict_outcome(edicts.last(), before.balances, receivers, total_outputs);
        lemma_account_for_both(
            before.events,
            outcome.events,
            rune_id,
            (rune_total(balances, rune_id) - rune_total(before.balances, rune_id)) as nat,
            (rune_total(before.balances, rune_id) - rune_total(
                outcome.balances,
                rune_id,
            )) as nat,
        );
    }
}

proof fn lemma_rest_of_balances(balances: Seq<RuneInputsView>, rune_id: RuneId)
    requires
        balances.len() > 0,
        distinct_runes(balances),
        all_traceable(balances),
    ensures
        distinct_runes(balances.drop_last()),
        all_traceable(balances.drop_last()),
        traceable(balances.last().inputs),
        rune_total(balances, rune_id) == rune_total(balances.drop_last(), rune_id) + if rune_id
            == balances.last().rune_id {
            total_amount(balances.last().inputs)
        } else {
            0
        },
{
    let rest = balances.drop_last();
    assert(traceable(balances[balances.len() - 1].inputs));
    assert forall|i: int| 0 <= i < rest.len() implies traceable((#[trigger] rest[i]).inputs) by {
        assert(traceable(balances[i].inputs));
    }
    assert forall|i: int, j: int| 0 <= i < j < rest.len() implies #[trigger] rest[i].rune_id
        != #[trigger] rest[j].rune_id by {
        assert(balances[i].rune_id != balances[j].rune_id);
    }
    if rune_id == balances.last().rune_id {
        assert forall|i: int| 0 <= i < rest.len() implies #[trigger] rest[i].rune_id != rune_id by {
            assert(balances[i].rune_id != balances[balances.len() - 1].rune_id);
        }
        lemma_inputs_of_unlisted(rest, rune_id);
    }
}

/// Moving all that is left accounts for all that is left.
pub proof fn allocation_accounts_for_everything(
    balances: Seq<RuneInputsView>,
    pointer: Option<u32>,
    receivers: Map<u32, Option<String>>,
    rune_id: RuneId,
)
    requires
        distinct_runes(balances),
        all_traceable(balances),
        allocation_fits(balances),
    ensures
        account_for(
            allocation_events(balances, pointer, receivers),
            rune_id,
            rune_total(balances, rune_id),
        ),
    decreases balances.len(),
{
    if balances.len() > 0 {
        let rest = balances.drop_last();
        let last = balances.last();
        lemma_rest_of_balances(balances, rune_id);
        assert(allocation_fits(rest)) by {
            assert forall|i: int| 0 <= i < rest.len() implies total_amount(
                (#[trigger] rest[i]).inputs,
            ) <= u128::MAX by {
                assert(total_amount(balances[i].inputs) <= u128::MAX);
            }
        }
        allocation_accounts_for_everything(rest, pointer, receivers, rune_id);
        assert(total_amount(balances[balances.len() - 1].inputs) <= u128::MAX);
        asking_for_everything_takes_everything(last.inputs, 0);
        let receiver = receiver_of(pointer, receivers);
        lemma_move_accounts(last.rune_id, pointer, receiver, last.inputs, None, rune_id);
        let moved = move_events(last.rune_id, pointer, receiver, last.inputs, None);
        lemma_account_for_both(
            allocation_events(rest, pointer, receivers),
            moved,
            rune_id,
            rune_total(rest, rune_id),
            if rune_id == last.rune_id {
                total_amount(last.inputs)
            } else {
                0
            },
        );
    }
}

proof fn lemma_burn_inputs_account(
    rune_id: RuneId,
    inputs: Seq<InputRuneBalance>,
    other: RuneId,
)
    ensures
        ({
            let events = burn_inputs(rune_id, inputs);
            &&& amount_in(events, other, DbLedgerOperation::Receive) == 0
            &&& amount_in(events, other, DbLedgerOperation::Send) == 0
            &&& amount_in(events, other, DbLedgerOperation::Burn) == if other == rune_id {
                total_amount(inputs)
            } else {
                0
            }
        }),
    decreases inputs.len(),
{
    if inputs.len() > 0 {
        let events = burn_inputs(rune_id, inputs);
        assert(events.drop_last() =~= burn_inputs(rune_id, inputs.drop_last()));
        lemma_burn_inputs_account(rune_id, inputs.drop_last(), other);
    }
}

/// A malformed message burns everything that its transaction brings in: nothing is
/// sent, nothing is received, and of each rune all of it is burnt.
pub proof fn burning_accounts_for_everything(balances: Seq<RuneInputsView>, rune_id: RuneId)
    requires
        distinct_runes(balances),
    ensures
        ({
            let events = burn_events(balances);
            &&& amount_in(events, rune_id, DbLedgerOperation::Receive) == 0
            &&& amount_in(events, rune_id, DbLedgerOperation::Send) == 0
            &&& amount_in(events, rune_id, DbLedgerOperation::Burn) == rune_total(
                balances,
                rune_id,
            )
        }),
    decreases balances.len(),
{
    if balances.len() > 0 {
        let rest = balances.drop_last();
        let last = balances.last();
        assert forall|i: int, j: int| 0 <= i < j < rest.len() implies #[trigger] rest[i].rune_id
            != #[trigger] rest[j].rune_id by {
            assert(balances[i].rune_id != balances[j].rune_id);
        }
        burning_accounts_for_everything(rest, rune_id);
        lemma_burn_inputs_account(last.rune_id, last.inputs, rune_id);
        let burnt = burn_inputs(last.rune_id, last.inputs);
        lemma_amount_in_both(burn_events(rest), burnt, rune_id, DbLedgerOperation::Receive);
        lemma_amount_in_both(burn_events(rest), burnt, rune_id, DbLedgerOperation::Send);
        lemma_amount_in_both(burn_events(rest), burnt, rune_id, DbLedgerOperation::Burn);
        if rune_id == last.rune_id {
            assert forall|i: int| 0 <= i < rest.len() implies #[trigger] rest[i].rune_id
                != rune_id by {
                assert(balances[i].rune_id != balances[balances.len() - 1].rune_id);
            }
            lemma_inputs_of_unlisted(rest, rune_id);
        }
    }
}

/// Runes are neither made nor lost: whatever the protocol message of a transaction
/// says, of each rune all that its inputs bring in is sent or burnt, and what is
/// sent is received. This is so where every input that holds something comes from a
/// known address, and no edict is on a rune that is in no block yet.
pub proof fn transaction_conserves_runes(
    artifact: ArtifactView,
    balances: Seq<RuneInputsView>,
    receivers: Map<u32, Option<String>>,
    total_outputs: u32,
    rune_id: RuneId,
)
    requires
        distinct_runes(balances),
        all_traceable(balances),
        artifact_fits(artifact, balances, receivers, total_outputs),
        artifact matches ArtifactView::Runestone { edicts, .. } ==> included(edicts)
            == edicts.len(),
    ensures
        account_for(
            artifact_events(artifact, balances, receivers, total_outputs),
            rune_id,
            rune_total(balances, rune_id),
        ),
{
    match artifact {
        ArtifactView::Cenotaph { etching } => {
            burning_accounts_for_everything(balances, rune_id);
            let etched = burn_events(balances).push(etching_event(RuneId { block: 0, tx: 0 }));
            assert(etched.drop_last() =~= burn_events(balances));
        },
        ArtifactView::Runestone { edicts, pointer } => {
            assert(edicts.take(edicts.len() as int) =~= edicts);
            edicts_account_for_what_they_take(edicts, balances, receivers, total_outputs, rune_id);
            let outcome = apply_edicts(edicts, balances, receivers, total_outputs);
            allocation_accounts_for_everything(outcome.balances, pointer, receivers, rune_id);
            lemma_account_for_both(
                outcome.events,
                allocation_events(outcome.balances, pointer, receivers),
                rune_id,
                (rune_total(balances, rune_id) - rune_total(outcome.balances, rune_id)) as nat,
                rune_total(outcome.balances, rune_id),
            );
        },
    }
}

/// One edict on a rune that is in no block yet is enough for nothing to be
/// recorded.
pub proof fn unincluded_edict_records_nothing(
    edicts: Seq<Edict>,
    pointer: Option<u32>,
    balances: Seq<RuneInputsView>,
    receivers: Map<u32, Option<String>>,
    total_outputs: u32,
    position: int,
)
    requires
        0 <= position < edicts.len(),
        is_unincluded(edicts[position].id),
    ensures
        artifact_events(
            ArtifactView::Runestone { edicts, pointer },
            balances,
            receivers,
            total_outputs,
        ) == Seq::<LedgerEvent>::empty(),
{
    lemma_included_stops(edicts, position);
}

proof fn lemma_included_stops(edicts: Seq<Edict>, position: int)
    requires
        0 <= position < edicts.len(),
        is_unincluded(edicts[position].id),
    ensures
        included(edicts) <= position,
    decreases edicts.len(),
{
    if position < edicts.len() - 1 {
        lemma_included_stops(edicts.drop_last(), position);
    } else {
        lemma_included_is_bounded(edicts.drop_last());
    }
}

proof fn lemma_included_is_bounded(edicts: Seq<Edict>)
    ensures
        included(edicts) <= edicts.len(),
    decreases edicts.len(),
{
    if edicts.len() > 0 {
        lemma_included_is_bounded(edicts.drop_last());
    }
}

} // verus!
