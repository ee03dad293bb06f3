//! Carrying out the edicts of a runestone.

use std::collections::HashMap;

use vstd::prelude::*;

use crate::db::models::input_rune_balance::{total_amount, InputRuneBalance};
use crate::mempool::balances::{
    checked_total, inputs_of, with_inputs, RuneBalances, RuneInputsView,
};
use crate::mempool::movement::{
    asked, move_balance, move_events, move_rune_balance_to_output, receiver_of, take,
    taking_conserves_the_total, taking_gives_what_is_asked_or_everything, LedgerEvent,
};
use crate::runes::{Edict, RuneId};

verus! {

broadcast use vstd::std_specs::hash::group_hash_axioms;

/// Each index is greater than the one before it.
pub open spec fn strictly_ascending(keys: Seq<u32>) -> bool {
    forall|i: int, j: int| 0 <= i < j < keys.len() ==> keys[i] < keys[j]
}

/// The indices of a set in ascending order.
pub open spec fn ascending(indices: Set<u32>) -> Seq<u32> {
    choose|keys: Seq<u32>| strictly_ascending(keys) && #[trigger] keys.to_set() == indices
}

proof fn lemma_ascending_is_unique(a: Seq<u32>, b: Seq<u32>)
    requires
        strictly_ascending(a),
        strictly_ascending(b),
        a.to_set() == b.to_set(),
    ensures
        a == b,
    decreases a.len(),
{
    if a.len() == 0 {
        if b.len() > 0 {
            assert(b.to_set().contains(b[0]));
            assert(a.to_set().contains(b[0]));
        }
        assert(a =~= b);
    } else {
        assert(a.to_set().contains(a.last()));
        assert(b.to_set().contains(a.last()));
        let j = choose|j: int| 0 <= j < b.len() && b[j] == a.last();
        assert(b.to_set().contains(b.last()));
        assert(a.to_set().contains(b.last()));
        let i = choose|i: int| 0 <= i < a.len() && a[i] == b.last();
        assert(a.last() == b.last());
        let a0 = a.drop_last();
        let b0 = b.drop_last();
        assert forall|x: u32| a0.to_set().contains(x) <==> b0.to_set().contains(x) by {
            if a0.to_set().contains(x) {
                let k = choose|k: int| 0 <= k < a0.len() && a0[k] == x;
                assert(a[k] == x);
                assert(a.to_set().contains(x));
                assert(b.to_set().contains(x));
                let m = choose|m: int| 0 <= m < b.len() && b[m] == x;
                assert(m < b.len() - 1);
                assert(b0[m] == x);
            }
            if b0.to_set().contains(x) {
                let k = choose|k: int| 0 <= k < b0.len() && b0[k] == x;
                assert(b[k] == x);
                assert(b.to_set().contains(x));
                assert(a.to_set().contains(x));
                let m = choose|m: int| 0 <= m < a.len() && a[m] == x;
                assert(m < a.len() - 1);
                assert(a0[m] == x);
            }
        }
        assert(a0.to_set() =~= b0.to_set());
        lemma_ascending_is_unique(a0, b0);
        assert(a =~= a0.push(a.last()));
        assert(b =~= b0.push(b.last()));
    }
}

/// A list that ascends is the ascending order of what it lists.
pub proof fn ascending_list_is_its_own_order(keys: Seq<u32>)
    requires
        strictly_ascending(keys),
    ensures
        ascending(keys.to_set()) == keys,
{
    lemma_ascending_is_unique(ascending(keys.to_set()), keys);
}

/// The keys of a map in ascending order.
fn sorted_outputs(receivers: &HashMap<u32, Option<String>>) -> (r: Vec<u32>)
    ensures
        strictly_ascending(r@),
        r@ == ascending(receivers@.dom()),
        r@.to_set() == receivers@.dom(),
        r@.len() == receivers@.dom().len(),
{
    let mut sorted: Vec<u32> = Vec::new();
    for key in it: receivers.keys()
        invariant
            it.seq().unref().to_set() == receivers@.dom(),
            strictly_ascending(sorted@),
            sorted@.to_set() == it.seq().unref().take(it.index() as int).to_set(),
            it.index() == it.seq().len() ==> sorted@.to_set() == receivers@.dom(),
    {
        let ghost seen = it.seq().unref().take(it.index() as int);
        let ghost before = sorted@;
        let mut at: usize = 0;
        while at < sorted.len() && sorted[at] < *key
            invariant
                at <= sorted.len(),
                sorted@ == before,
                forall|k: int| 0 <= k < at ==> before[k] < *key,
            decreases sorted.len() - at,
        {
            at += 1;
        }
        if at == sorted.len() || sorted[at] != *key {
            sorted.insert(at, *key);
        }
        proof {
            let next = it.seq().unref().take(it.index() + 1);
            assert(next =~= seen.push(*key));
            assert forall|x: u32| sorted@.to_set().contains(x) <==> next.to_set().contains(x) by {
                if sorted@.contains(x) {
                    let k = choose|k: int| 0 <= k < sorted@.len() && sorted@[k] == x;
                    if x != *key {
                        assert(before.contains(x)) by {
                            if sorted@ != before {
                                assert(before[if k < at { k } else { k - 1 }] == x);
                            }
                        }
                        assert(seen.to_set().contains(x));
                        let m = choose|m: int| 0 <= m < seen.len() && seen[m] == x;
                        assert(next[m] == x);
                    } else {
                        assert(next[seen.len() as int] == x);
                    }
                }
                if next.contains(x) {
                    let m = choose|m: int| 0 <= m < next.len() && next[m] == x;
                    if m < seen.len() {
                        assert(seen[m] == x);
                        assert(before.to_set().contains(x));
                        let k = choose|k: int| 0 <= k < before.len() && before[k] == x;
                        if sorted@ != before {
                            assert(sorted@[if k < at { k } else { k + 1 }] == x);
                        }
                    } else {
                        assert(sorted@[at as int] == x);
                    }
                }
            }
            assert(sorted@.to_set() =~= next.to_set());
            assert(it.index() + 1 == it.seq().len() ==> next =~= it.seq().unref());
        }
    }
    proof {
        assert(sorted@.to_set() == receivers@.dom());
        lemma_ascending_is_unique(sorted@, ascending(receivers@.dom()));
        sorted@.unique_seq_to_set();
    }
    sorted
}

/// The share of each of `count` outputs when `total` is divided equally: the
/// remainder goes to the first outputs, one unit each.
pub open spec fn equal_shares(total: nat, count: nat) -> Seq<nat> {
    Seq::new(
        count,
        |i: int|
            if i < total % count {
                total / count + 1
            } else {
                total / count
            },
    )
}

/// The same amount for each of `count` outputs.
pub open spec fn same_amount(amount: nat, count: nat) -> Seq<nat> {
    Seq::new(count, |i: int| amount)
}

/// What several movements of one rune bring about, and what they leave.
pub struct Distribution {
    pub events: Seq<LedgerEvent>,
    pub rest: Seq<InputRuneBalance>,
}

/// Moves an amount of a rune to each of the outputs, one after the other. An amount
/// of zero is reached with the first input, so that it takes no more than one that is
/// empty.
pub open spec fn distribute(
    rune_id: RuneId,
    outputs: Seq<u32>,
    amounts: Seq<nat>,
    inputs: Seq<InputRuneBalance>,
    receivers: Map<u32, Option<String>>,
) -> Distribution
    decreases outputs.len(),
{
    if outputs.len() == 0 {
        Distribution { events: Seq::empty(), rest: inputs }
    } else {
        let before = distribute(
            rune_id,
            outputs.drop_last(),
            amounts.drop_last(),
            inputs,
            receivers,
        );
        let output = Some(outputs.last());
        Distribution {
            events: before.events + move_events(
                rune_id,
                output,
                receiver_of(output, receivers),
                before.rest,
                Some(amounts.last()),
            ),
            rest: take(before.rest, Some(amounts.last()), 0).rest,
        }
    }
}

/// A single movement, of everything without an amount.
pub open spec fn single_move(
    rune_id: RuneId,
    output: Option<u32>,
    amount: Option<nat>,
    inputs: Seq<InputRuneBalance>,
    receivers: Map<u32, Option<String>>,
) -> Distribution {
    Distribution {
        events: move_events(rune_id, output, receiver_of(output, receivers), inputs, amount),
        rest: take(inputs, amount, 0).rest,
    }
}

/// What an edict does with the inputs that carry its rune. Without eligible
/// outputs, or with an output that the transaction does not have, it burns its
/// amount. With an output equal to the number of outputs it gives its amount to
/// each eligible output in order, or equal shares of everything where the amount
/// is zero. Otherwise it moves its amount, or everything where that is zero, to
/// its output.
pub open spec fn edict_distribution(
    edict: Edict,
    inputs: Seq<InputRuneBalance>,
    receivers: Map<u32, Option<String>>,
    total_outputs: u32,
) -> Distribution {
    let unallocated = total_amount(inputs);
    let amount = edict.amount as nat;
    let outputs = ascending(receivers.dom());
    let count = outputs.len();
    if receivers.dom().len() == 0 {
        single_move(edict.id, None, asked(edict.amount), inputs, receivers)
    } else if edict.output == total_outputs {
        if amount == 0 {
            distribute(edict.id, outputs, equal_shares(unallocated, count), inputs, receivers)
        } else {
            let each = if amount <= unallocated {
                amount
            } else {
                unallocated
            };
            distribute(edict.id, outputs, same_amount(each, count), inputs, receivers)
        }
    } else if edict.output < total_outputs {
        single_move(
            edict.id,
            Some(edict.output),
            Some(
                if amount == 0 {
                    unallocated
                } else {
                    amount
                },
            ),
            inputs,
            receivers,
        )
    } else {
        single_move(edict.id, None, asked(edict.amount), inputs, receivers)
    }
}

/// What an edict does in a transaction.
pub struct EdictOutcome {
    pub events: Seq<LedgerEvent>,
    pub balances: Seq<RuneInputsView>,
}

/// The id of a rune that is in no block yet.
pub open spec fn is_unincluded(id: RuneId) -> bool {
    id.block == 0 && id.tx == 0
}

/// What an edict does with the balances of a transaction: nothing where its rune
/// is in no block yet or no input carries it.
pub open spec fn edict_outcome(
    edict: Edict,
    balances: Seq<RuneInputsView>,
    receivers: Map<u32, Option<String>>,
    total_outputs: u32,
) -> EdictOutcome {
    match inputs_of(balances, edict.id) {
        Some(inputs) if !is_unincluded(edict.id) => {
            let done = edict_distribution(edict, inputs, receivers, total_outputs);
            EdictOutcome {
                events: done.events,
                balances: with_inputs(balances, edict.id, done.rest),
            }
        },
        _ => EdictOutcome { events: Seq::empty(), balances },
    }
}

/// Whether the amounts that an edict adds up fit the integer type.
pub open spec fn edict_fits(edict: Edict, balances: Seq<RuneInputsView>) -> bool {
    match inputs_of(balances, edict.id) {
        Some(inputs) => is_unincluded(edict.id) || total_amount(inputs) <= u128::MAX,
        None => true,
    }
}

/// Moving a rune never adds to what its inputs hold.
proof fn lemma_distribute_leaves_no_more(
    rune_id: RuneId,
    outputs: Seq<u32>,
    amounts: Seq<nat>,
    inputs: Seq<InputRuneBalance>,
    receivers: Map<u32, Option<String>>,
)
    ensures
        total_amount(distribute(rune_id, outputs, amounts, inputs, receivers).rest)
            <= total_amount(inputs),
    decreases outputs.len(),
{
    if outputs.len() > 0 {
        lemma_distribute_leaves_no_more(
            rune_id,
            outputs.drop_last(),
            amounts.drop_last(),
            inputs,
            receivers,
        );
        let before = distribute(
            rune_id,
            outputs.drop_last(),
            amounts.drop_last(),
            inputs,
            receivers,
        );
        taking_conserves_the_total(before.rest, Some(amounts.last()), 0);
    }
}

/// The sum of the first amounts.
pub open spec fn first_amounts(amounts: Seq<nat>, count: int) -> nat
    decreases count,
{
    if count <= 0 {
        0
    } else {
        first_amounts(amounts, count - 1) + amounts[count - 1]
    }
}

proof fn lemma_first_shares(total: nat, count: nat, k: int)
    requires
        0 <= k <= count,
        count > 0,
    ensures
        first_amounts(equal_shares(total, count), k) == k * (total / count) + if k < total
            % count {
            k
        } else {
            (total % count) as int
        },
    decreases k,
{
    if k > 0 {
        lemma_first_shares(total, count, k - 1);
        let each = (total / count) as int;
        assert(k * each == (k - 1) * each + each) by (nonlinear_arith);
    } else {
        assert(0 * (total / count) as int == 0) by (nonlinear_arith);
    }
}

/// Equal shares add up to what is shared, and no two differ by more than one.
pub proof fn equal_shares_add_up(total: nat, count: nat)
    requires
        count > 0,
    ensures
        first_amounts(equal_shares(total, count), count as int) == total,
        forall|i: int, j: int|
            0 <= i <= j < count ==> #[trigger] equal_shares(total, count)[j]
                <= #[trigger] equal_shares(total, count)[i] <= equal_shares(total, count)[j] + 1,
{
    lemma_first_shares(total, count, count as int);
    vstd::arithmetic::div_mod::lemma_fundamental_div_mod(total as int, count as int);
}

proof fn lemma_first_shares_are_bounded(total: nat, count: nat, k: int)
    requires
        0 <= k <= count,
        count > 0,
    ensures
        first_amounts(equal_shares(total, count), k) <= total,
        k < count && equal_shares(total, count)[k] == 0 ==> first_amounts(
            equal_shares(total, count),
            k,
        ) == total,
    decreases count - k,
{
    let shares = equal_shares(total, count);
    if k == count {
        equal_shares_add_up(total, count);
    } else {
        lemma_first_shares_are_bounded(total, count, k + 1);
        assert(first_amounts(shares, k + 1) == first_amounts(shares, k) + shares[k]);
        if shares[k] == 0 {
            lemma_first_shares(total, count, k);
            vstd::arithmetic::div_mod::lemma_fundamental_div_mod(total as int, count as int);
            assert(k * (total / count) as int == 0) by (nonlinear_arith)
                requires
                    total / count == 0,
            ;
            assert(count * (total / count) == 0) by (nonlinear_arith)
                requires
                    total / count == 0,
            ;
        }
    }
}

/// Dividing everything equally gives each output its share in turn, and what is
/// left after some outputs is what their shares leave.
pub proof fn equal_split_gives_each_its_share(
    rune_id: RuneId,
    outputs: Seq<u32>,
    inputs: Seq<InputRuneBalance>,
    receivers: Map<u32, Option<String>>,
    k: int,
)
    requires
        0 <= k <= outputs.len(),
        outputs.len() > 0,
    ensures
        ({
            let shares = equal_shares(total_amount(inputs), outputs.len());
            let done = distribute(rune_id, outputs.take(k), shares.take(k), inputs, receivers);
            &&& total_amount(done.rest) == total_amount(inputs) - first_amounts(shares, k)
            &&& k < outputs.len() ==> take(done.rest, Some(shares[k]), 0).total == shares[k]
        }),
    decreases k,
{
    let total = total_amount(inputs);
    let shares = equal_shares(total, outputs.len());
    let done = distribute(rune_id, outputs.take(k), shares.take(k), inputs, receivers);
    lemma_first_shares_are_bounded(total, outputs.len(), k);
    if k > 0 {
        equal_split_gives_each_its_share(rune_id, outputs, inputs, receivers, k - 1);
        assert(outputs.take(k).drop_last() =~= outputs.take(k - 1));
        assert(shares.take(k).drop_last() =~= shares.take(k - 1));
        let before = distribute(
            rune_id,
            outputs.take(k - 1),
            shares.take(k - 1),
            inputs,
            receivers,
        );
        taking_conserves_the_total(before.rest, Some(shares[k - 1]), 0);
    }
    if k < outputs.len() {
        lemma_first_shares_are_bounded(total, outputs.len(), k + 1);
        assert(first_amounts(shares, k + 1) == first_amounts(shares, k) + shares[k]);
        taking_gives_what_is_asked_or_everything(done.rest, shares[k], 0);
    }
}

/// Dividing everything equally leaves nothing.
pub proof fn equal_split_leaves_nothing(
    rune_id: RuneId,
    outputs: Seq<u32>,
    inputs: Seq<InputRuneBalance>,
    receivers: Map<u32, Option<String>>,
)
    requires
        outputs.len() > 0,
    ensures
        ({
            let shares = equal_shares(total_amount(inputs), outputs.len());
            total_amount(distribute(rune_id, outputs, shares, inputs, receivers).rest) == 0
        }),
{
    let shares = equal_shares(total_amount(inputs), outputs.len());
    equal_split_gives_each_its_share(rune_id, outputs, inputs, receivers, outputs.len() as int);
    equal_shares_add_up(total_amount(inputs), outputs.len());
    assert(outputs.take(outputs.len() as int) =~= outputs);
    assert(shares.take(outputs.len() as int) =~= shares);
}

/// Giving an amount to each output goes on until nothing is left: after some
/// outputs, as many times the amount are gone, or everything.
pub proof fn same_amount_until_nothing_is_left(
    rune_id: RuneId,
    outputs: Seq<u32>,
    inputs: Seq<InputRuneBalance>,
    receivers: Map<u32, Option<String>>,
    amount: nat,
    k: int,
)
    requires
        0 <= k <= outputs.len(),
    ensures
        ({
            let amounts = same_amount(amount, outputs.len());
            let done = distribute(rune_id, outputs.take(k), amounts.take(k), inputs, receivers);
            total_amount(done.rest) == if k * amount <= total_amount(inputs) {
                total_amount(inputs) - k * amount
            } else {
                0
            }
        }),
    decreases k,
{
    let amounts = same_amount(amount, outputs.len());
    if k > 0 {
        same_amount_until_nothing_is_left(rune_id, outputs, inputs, receivers, amount, k - 1);
        assert(outputs.take(k).drop_last() =~= outputs.take(k - 1));
        assert(amounts.take(k).drop_last() =~= amounts.take(k - 1));
        let before = distribute(
            rune_id,
            outputs.take(k - 1),
            amounts.take(k - 1),
            inputs,
            receivers,
        );
        assert(k * amount == (k - 1) * amount + amount) by (nonlinear_arith);
        taking_conserves_the_total(before.rest, Some(amount), 0);
        taking_gives_what_is_asked_or_everything(before.rest, amount, 0);
    } else {
        assert(0 * amount == 0) by (nonlinear_arith);
    }
}

/// Moves an amount of a rune to each of the outputs in order: equal shares of
/// `total` where `shares` is set, and `total` itself where it is not.
fn distribute_to_outputs(
    rune_id: &RuneId,
    outputs: &Vec<u32>,
    total: u128,
    shares: bool,
    inputs: &mut Vec<InputRuneBalance>,
    receivers: &HashMap<u32, Option<String>>,
) -> (results: Vec<LedgerEvent>)
    requires
        outputs@.len() > 0,
        total_amount(old(inputs)@) <= u128::MAX,
    ensures
        ({
            let count = outputs@.len();
            let amounts = if shares {
                equal_shares(total as nat, count)
            } else {
                same_amount(total as nat, count)
            };
            let done = distribute(*rune_id, outputs@, amounts, old(inputs)@, receivers@);
            results@ == done.events && final(inputs)@ == done.rest
        }),
{
    let count: u128 = outputs.len() as u128;
    let ghost amounts = if shares {
        equal_shares(total as nat, count as nat)
    } else {
        same_amount(total as nat, count as nat)
    };
    let ghost start = inputs@;
    let per_output: u128 = if shares {
        total / count
    } else {
        total
    };
    let mut remainder: u128 = if shares {
        total % count
    } else {
        0
    };
    let ghost extra = remainder;
    let mut results: Vec<LedgerEvent> = Vec::new();
    let mut i: usize = 0;
    proof {
        vstd::arithmetic::div_mod::lemma_fundamental_div_mod(total as int, count as int);
    }
    while i < outputs.len()
        invariant
            i <= outputs.len(),
            count == outputs@.len(),
            amounts.len() == count,
            amounts == if shares {
                equal_shares(total as nat, count as nat)
            } else {
                same_amount(total as nat, count as nat)
            },
            per_output == if shares {
                total / count
            } else {
                total
            },
            extra == if shares {
                total % count
            } else {
                0
            },
            remainder == if i < extra {
                extra - i
            } else {
                0
            },
            shares ==> total == count * (total / count) + total % count,
            total_amount(start) <= u128::MAX,
            ({
                let done = distribute(
                    *rune_id,
                    outputs@.take(i as int),
                    amounts.take(i as int),
                    start,
                    receivers@,
                );
                results@ == done.events && inputs@ == done.rest
            }),
        decreases outputs.len() - i,
    {
        let ghost before = inputs@;
        let amount: u128 = if remainder > 0 {
            remainder = remainder - 1;
            proof {
                assert(per_output < u128::MAX) by (nonlinear_arith)
                    requires
                        per_output == total / count,
                        total == count * (total / count) + total % count,
                        total % count > 0,
                        count > 0,
                        total <= u128::MAX,
                ;
            }
            per_output + 1
        } else {
            per_output
        };
        assert(amount == amounts[i as int]);
        proof {
            lemma_distribute_leaves_no_more(
                *rune_id,
                outputs@.take(i as int),
                amounts.take(i as int),
                start,
                receivers@,
            );
            taking_conserves_the_total(before, Some(amount as nat), 0);
            assert(outputs@.take(i + 1).drop_last() =~= outputs@.take(i as int));
            assert(amounts.take(i + 1).drop_last() =~= amounts.take(i as int));
        }
        let mut moved = move_balance(Some(outputs[i]), rune_id, inputs, receivers, Some(amount));
        results.append(&mut moved);
        i += 1;
    }
    assert(outputs@.take(outputs.len() as int) =~= outputs@);
    assert(amounts.take(outputs.len() as int) =~= amounts);
    results
}

/// Carries out an edict on the balances that are left, and returns what happened.
pub fn collect_edicts(
    edict: &Edict,
    input_runes_balances: &mut RuneBalances,
    receivers: &HashMap<u32, Option<String>>,
    tx_total_outputs: u32,
) -> (results: Vec<LedgerEvent>)
    requires
        old(input_runes_balances).wf(),
        edict_fits(*edict, old(input_runes_balances)@),
    ensures
        final(input_runes_balances).wf(),
        ({
            let outcome = edict_outcome(
                *edict,
                old(input_runes_balances)@,
                receivers@,
                tx_total_outputs,
            );
            &&& results@ == outcome.events
            &&& final(input_runes_balances)@ == outcome.balances
        }),
{
    if edict.id.block == 0 && edict.id.tx == 0 {
        return Vec::new();
    }
    let position: usize = match input_runes_balances.position(&edict.id) {
        Some(position) => position,
        None => {
            return Vec::new();
        },
    };
    let ghost balances = input_runes_balances@;
    let ghost inputs = balances[position as int].inputs;
    let unallocated: u128 = match checked_total(&input_runes_balances.entries[position].inputs) {
        Some(total) => total,
        None => {
            // `edict_fits` leaves no such total.
            assert(false);
            0
        },
    };
    proof {
        taking_conserves_the_total(inputs, None, 0);
        taking_conserves_the_total(inputs, Some(edict.amount as nat), 0);
        taking_conserves_the_total(inputs, Some(unallocated as nat), 0);
    }
    let available = &mut input_runes_balances.entries[position].inputs;
    let results = if receivers.len() == 0 {
        move_rune_balance_to_output(None, &edict.id, available, receivers, edict.amount)
    } else if edict.output == tx_total_outputs {
        let outputs = sorted_outputs(receivers);
        if edict.amount == 0 {
            distribute_to_outputs(&edict.id, &outputs, unallocated, true, available, receivers)
        } else {
            let amount: u128 = if edict.amount <= unallocated {
                edict.amount
            } else {
                unallocated
            };
            distribute_to_outputs(&edict.id, &outputs, amount, false, available, receivers)
        }
    } else if edict.output < tx_total_outputs {
        let amount: u128 = if edict.amount == 0 {
            unallocated
        } else {
            edict.amount
        };
        move_balance(Some(edict.output), &edict.id, available, receivers, Some(amount))
    } else {
        move_rune_balance_to_output(None, &edict.id, available, receivers, edict.amount)
    };
    proof {
        let done = edict_distribution(*edict, inputs, receivers@, tx_total_outputs);
        assert(input_runes_balances@ =~= with_inputs(balances, edict.id, done.rest));
    }
    results
}

} // verus!
