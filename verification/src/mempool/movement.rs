//! Moving a rune from the inputs of a transaction to one of its outputs.

use std::collections::HashMap;

use vstd::prelude::*;

use crate::db::models::db_ledger_operation::DbLedgerOperation;
use crate::db::models::input_rune_balance::{
    clone_address, lemma_total_push, total_amount, InputRuneBalance,
};
use crate::runes::RuneId;

verus! {

broadcast use vstd::std_specs::hash::group_hash_axioms;

/// One thing that happens to a rune in a transaction: a ledger entry without
/// the transaction id and the position in the transaction.
#[derive(Debug, PartialEq, Eq)]
pub struct LedgerEvent {
    pub rune_id: RuneId,
    pub output: Option<u32>,
    pub address: Option<String>,
    pub receiver_address: Option<String>,
    pub amount: Option<u128>,
    pub operation: DbLedgerOperation,
}

/// What is taken from one input.
pub struct TakenPart {
    pub amount: nat,
    pub address: Option<String>,
}

/// What is taken from a stack of inputs, and what stays on it.
pub struct Taken {
    pub parts: Seq<TakenPart>,
    pub rest: Seq<InputRuneBalance>,
    pub total: nat,
}

/// How much is taken from an input that holds `available` when `sent` has been
/// taken before. Without an amount, everything is asked for.
pub open spec fn portion(available: nat, amount: Option<nat>, sent: nat) -> nat {
    match amount {
        None => available,
        Some(amount) => if available <= amount - sent {
            available
        } else {
            (amount - sent) as nat
        },
    }
}

/// Takes an amount from the inputs, the last one first, when `sent` of it has been
/// taken before, and everything without an amount. An input that holds more than is
/// asked of it keeps the difference and ends the taking, as does reaching exactly the
/// amount: an amount of zero is reached with the first input.
pub open spec fn take(inputs: Seq<InputRuneBalance>, amount: Option<nat>, sent: nat) -> Taken
    decreases inputs.len(),
{
    if inputs.len() == 0 {
        Taken { parts: Seq::empty(), rest: Seq::empty(), total: sent }
    } else {
        let input = inputs.last();
        let taken = portion(input.amount as nat, amount, sent);
        let part = TakenPart { amount: taken, address: input.address };
        if taken < input.amount {
            Taken {
                parts: seq![part],
                rest: inputs.drop_last().push(
                    InputRuneBalance {
                        address: input.address,
                        amount: (input.amount - taken) as u128,
                    },
                ),
                total: sent + taken,
            }
        } else if amount == Some(sent + taken) {
            Taken { parts: seq![part], rest: inputs.drop_last(), total: sent + taken }
        } else {
            let more = take(inputs.drop_last(), amount, sent + taken);
            Taken { parts: seq![part] + more.parts, rest: more.rest, total: more.total }
        }
    }
}

/// The event of receiving what was taken, where there is a receiver and
/// something was taken.
pub open spec fn receive_events(
    rune_id: RuneId,
    output: Option<u32>,
    receiver: Option<String>,
    total: nat,
) -> Seq<LedgerEvent> {
    if receiver is Some && total > 0 {
        seq![
            LedgerEvent {
                rune_id,
                output,
                address: receiver,
                receiver_address: None,
                amount: Some(total as u128),
                operation: DbLedgerOperation::Receive,
            },
        ]
    } else {
        Seq::empty()
    }
}

/// One event for each part that came from a known address: sent where there is
/// a receiver, burnt where there is none.
pub open spec fn sender_events(
    rune_id: RuneId,
    output: Option<u32>,
    receiver: Option<String>,
    parts: Seq<TakenPart>,
) -> Seq<LedgerEvent>
    decreases parts.len(),
{
    if parts.len() == 0 {
        Seq::empty()
    } else {
        let before = sender_events(rune_id, output, receiver, parts.drop_last());
        let part = parts.last();
        if part.address is Some {
            before.push(
                LedgerEvent {
                    rune_id,
                    output,
                    address: part.address,
                    receiver_address: receiver,
                    amount: Some(part.amount as u128),
                    operation: if receiver is Some {
                        DbLedgerOperation::Send
                    } else {
                        DbLedgerOperation::Burn
                    },
                },
            )
        } else {
            before
        }
    }
}

/// What an amount in an instruction asks for: zero asks for everything.
pub open spec fn asked(amount: u128) -> Option<nat> {
    if amount == 0 {
        None
    } else {
        Some(amount as nat)
    }
}

/// The events of moving an amount of a rune out of `inputs` to a receiver, and
/// everything without an amount.
pub open spec fn move_events(
    rune_id: RuneId,
    output: Option<u32>,
    receiver: Option<String>,
    inputs: Seq<InputRuneBalance>,
    amount: Option<nat>,
) -> Seq<LedgerEvent> {
    let taken = take(inputs, amount, 0);
    receive_events(rune_id, output, receiver, taken.total) + sender_events(
        rune_id,
        output,
        receiver,
        taken.parts,
    )
}

/// The address behind an output, where the output is eligible and its script
/// has an address.
pub open spec fn receiver_of(
    output: Option<u32>,
    receivers: Map<u32, Option<String>>,
) -> Option<String> {
    match output {
        Some(index) => if receivers.contains_key(index) {
            receivers[index]
        } else {
            None
        },
        None => None,
    }
}

/// Whatever is taken leaves the inputs, and nothing else does.
pub proof fn taking_conserves_the_total(
    inputs: Seq<InputRuneBalance>,
    amount: Option<nat>,
    sent: nat,
)
    requires
        amount matches Some(limit) ==> sent <= limit,
    ensures
        take(inputs, amount, sent).total + total_amount(take(inputs, amount, sent).rest)
            == sent + total_amount(inputs),
        take(inputs, amount, sent).total >= sent,
    decreases inputs.len(),
{
    if inputs.len() > 0 {
        let input = inputs.last();
        let taken = portion(input.amount as nat, amount, sent);
        if taken < input.amount {
            lemma_total_push(
                inputs.drop_last(),
                InputRuneBalance {
                    address: input.address,
                    amount: (input.amount - taken) as u128,
                },
            );
        } else if amount == Some(sent + taken) {
        } else {
            taking_conserves_the_total(inputs.drop_last(), amount, sent + taken);
        }
    }
}

/// Asking for an amount takes that amount, or everything where there is less.
pub proof fn taking_gives_what_is_asked_or_everything(
    inputs: Seq<InputRuneBalance>,
    amount: nat,
    sent: nat,
)
    requires
        sent <= amount,
    ensures
        take(inputs, Some(amount), sent).total == if sent + total_amount(inputs) <= amount {
            sent + total_amount(inputs)
        } else {
            amount
        },
    decreases inputs.len(),
{
    if inputs.len() > 0 {
        let input = inputs.last();
        let taken = portion(input.amount as nat, Some(amount), sent);
        if taken < input.amount {
        } else if sent + taken == amount {
        } else {
            taking_gives_what_is_asked_or_everything(inputs.drop_last(), amount, sent + taken);
        }
    }
}

/// Asking for everything takes everything.
pub proof fn asking_for_everything_takes_everything(
    inputs: Seq<InputRuneBalance>,
    sent: nat,
)
    ensures
        take(inputs, None, sent).total == sent + total_amount(inputs),
        take(inputs, None, sent).rest == Seq::<InputRuneBalance>::empty(),
    decreases inputs.len(),
{
    if inputs.len() > 0 {
        asking_for_everything_takes_everything(
            inputs.drop_last(),
            sent + inputs.last().amount as nat,
        );
    }
}

/// The amount that is asked for, as a number.
pub open spec fn limit_of(amount: Option<u128>) -> Option<nat> {
    match amount {
        Some(amount) => Some(amount as nat),
        None => None,
    }
}

/// Moves `amount` of a rune from the inputs to an output, and everything where
/// `amount` is zero. Without an output, or with one that has no address, the
/// runes are burnt.
pub fn move_rune_balance_to_output(
    output: Option<u32>,
    rune_id: &RuneId,
    input_balances: &mut Vec<InputRuneBalance>,
    receivers: &HashMap<u32, Option<String>>,
    amount: u128,
) -> (results: Vec<LedgerEvent>)
    requires
        take(old(input_balances)@, asked(amount), 0).total <= u128::MAX,
    ensures
        final(input_balances)@ == take(old(input_balances)@, asked(amount), 0).rest,
        results@ == move_events(
            *rune_id,
            output,
            receiver_of(output, receivers@),
            old(input_balances)@,
            asked(amount),
        ),
{
    let limit: Option<u128> = if amount == 0 {
        None
    } else {
        Some(amount)
    };
    move_balance(output, rune_id, input_balances, receivers, limit)
}

/// Moves exactly the given amount of a rune, as far as there is one, and everything
/// without an amount.
pub(crate) fn move_balance(
    output: Option<u32>,
    rune_id: &RuneId,
    input_balances: &mut Vec<InputRuneBalance>,
    receivers: &HashMap<u32, Option<String>>,
    amount: Option<u128>,
) -> (results: Vec<LedgerEvent>)
    requires
        take(old(input_balances)@, limit_of(amount), 0).total <= u128::MAX,
    ensures
        final(input_balances)@ == take(old(input_balances)@, limit_of(amount), 0).rest,
        results@ == move_events(
            *rune_id,
            output,
            receiver_of(output, receivers@),
            old(input_balances)@,
            limit_of(amount),
        ),
{
    let receiver_address: Option<String> = match output {
        Some(index) => match receivers.get(&index) {
            Some(address) => clone_address(address),
            None => None,
        },
        None => None,
    };
    let ghost receiver = receiver_of(output, receivers@);
    assert(receiver_address == receiver);
    let operation = if receiver_address.is_some() {
        DbLedgerOperation::Send
    } else {
        DbLedgerOperation::Burn
    };

    let ghost whole = take(input_balances@, limit_of(amount), 0);
    let ghost mut parts: Seq<TakenPart> = Seq::empty();
    let mut total_sent: u128 = 0;
    let mut senders: Vec<LedgerEvent> = Vec::new();
    let mut done: bool = false;
    assert(parts + whole.parts =~= whole.parts);
    while !done
        invariant
            receiver_address == receiver,
            operation == if receiver is Some {
                DbLedgerOperation::Send
            } else {
                DbLedgerOperation::Burn
            },
            amount matches Some(limit) ==> total_sent <= limit,
            whole.total <= u128::MAX,
            !done ==> {
                let more = take(input_balances@, limit_of(amount), total_sent as nat);
                &&& whole.parts == parts + more.parts
                &&& whole.rest == more.rest
                &&& whole.total == more.total
            },
            done ==> whole.parts == parts && whole.rest == input_balances@ && whole.total
                == total_sent,
            senders@ == sender_events(*rune_id, output, receiver, parts),
        decreases input_balances@.len(), if done { 0int } else { 1int },
    {
        let ghost before = input_balances@;
        let ghost sent = total_sent as nat;
        proof {
            taking_conserves_the_total(before, limit_of(amount), sent);
        }
        match input_balances.pop() {
            None => {
                assert(parts + Seq::<TakenPart>::empty() =~= parts);
                done = true;
            },
            Some(input) => {
                assert(input_balances@ =~= before.drop_last());
                let balance_taken: u128 = match amount {
                    None => input.amount,
                    Some(limit) => if input.amount <= limit - total_sent {
                        input.amount
                    } else {
                        limit - total_sent
                    },
                };
                proof {
                    taking_conserves_the_total(
                        before.drop_last(),
                        limit_of(amount),
                        sent + balance_taken as nat,
                    );
                    let part = TakenPart { amount: balance_taken as nat, address: input.address };
                    assert(parts.push(part).drop_last() =~= parts);
                    assert(parts + seq![part] =~= parts.push(part));
                    let more = take(
                        before.drop_last(),
                        limit_of(amount),
                        sent + balance_taken as nat,
                    );
                    assert(parts + (seq![part] + more.parts) =~= parts.push(part) + more.parts);
                    parts = parts.push(part);
                }
                total_sent = total_sent + balance_taken;
                match &input.address {
                    Some(sender) => {
                        senders.push(
                            LedgerEvent {
                                rune_id: *rune_id,
                                output,
                                address: Some(sender.clone()),
                                receiver_address: clone_address(&receiver_address),
                                amount: Some(balance_taken),
                                operation,
                            },
                        );
                    },
                    None => {},
                }
                if balance_taken < input.amount {
                    input_balances.push(
                        InputRuneBalance {
                            address: input.address,
                            amount: input.amount - balance_taken,
                        },
                    );
                    done = true;
                } else {
                    done = match amount {
                        None => false,
                        Some(limit) => total_sent == limit,
                    };
                }
            },
        }
    }

    let mut results: Vec<LedgerEvent> = Vec::new();
    if receiver_address.is_some() && total_sent > 0 {
        results.push(
            LedgerEvent {
                rune_id: *rune_id,
                output,
                address: receiver_address,
                receiver_address: None,
                amount: Some(total_sent),
                operation: DbLedgerOperation::Receive,
            },
        );
    }
    assert(results@ =~= receive_events(*rune_id, output, receiver, whole.total));
    results.append(&mut senders);
    results
}

} // verus!
