//! What the inputs of a transaction bring in is what the rows of the ledger say.

use vstd::prelude::*;

use crate::db::models::input_rune_balance::InputRuneBalance;
use crate::mempool::balances::{
    distinct_runes, extend_balances, extending_keeps_runes_distinct, inputs_of,
    lemma_inputs_of_listed, lemma_inputs_of_unlisted, lemma_inputs_of_with_inputs, RuneInputsView,
};
use crate::mempool::input_balances::{
    denote_runes, distinct_inputs, extend_all, grouped, grouping_keeps_every_amount, input_position,
    joined, row_balance, row_rune_id, with_balance, InputBalanceRow, InputBalancesView,
};
use crate::mempool::measures::{
    held, held_from, held_of, held_of_from, lemma_held_of_listed, lemma_held_of_unlisted,
};
use crate::runes::{rune_id_reads_back, rune_id_text, rune_id_value, RuneId};

verus! {

/// The amount in the rows that are picked.
pub open spec fn amount_in_rows(
    rows: Seq<InputBalanceRow>,
    pick: spec_fn(InputBalanceRow) -> bool,
) -> int
    decreases rows.len(),
{
    if rows.len() == 0 {
        0
    } else {
        amount_in_rows(rows.drop_last(), pick) + if pick(rows.last()) {
            rows.last().amount.0 as int
        } else {
            0
        }
    }
}

/// Picks the rows of a rune.
pub open spec fn on_rune(rune_id: RuneId) -> spec_fn(InputBalanceRow) -> bool {
    |row: InputBalanceRow| rune_id_value(row.rune_id@) == Some(rune_id)
}

/// Picks the rows of a rune whose balance comes from an address.
pub open spec fn on_rune_from(rune_id: RuneId, address: String) -> spec_fn(
    InputBalanceRow,
) -> bool {
    |row: InputBalanceRow|
        rune_id_value(row.rune_id@) == Some(rune_id) && row.address == Some(address)
}

/// What inputs hold of a rune.
pub open spec fn brought(inputs: Seq<InputBalancesView>, rune_id: RuneId) -> int
    decreases inputs.len(),
{
    if inputs.len() == 0 {
        0
    } else {
        brought(inputs.drop_last(), rune_id) + held_of(inputs.last().balances, rune_id)
    }
}

/// What inputs hold of a rune from an address.
pub open spec fn brought_from(
    inputs: Seq<InputBalancesView>,
    rune_id: RuneId,
    address: String,
) -> int
    decreases inputs.len(),
{
    if inputs.len() == 0 {
        0
    } else {
        brought_from(inputs.drop_last(), rune_id, address) + held_of_from(
            inputs.last().balances,
            rune_id,
            address,
        )
    }
}

/// Whether a balance is the one that a row holds.
pub open spec fn is_balance_of(balance: InputRuneBalance, row: InputBalanceRow) -> bool {
    balance.address == row.address && balance.amount == row.amount.0
}

/// How many rows an input has for a rune.
pub open spec fn rows_for(rows: Seq<InputBalanceRow>, index: u32, rune_id: RuneId) -> nat
    decreases rows.len(),
{
    if rows.len() == 0 {
        0
    } else {
        rows_for(rows.drop_last(), index, rune_id) + if rows.last().index.0 == index
            && rune_id_value(rows.last().rune_id@) == Some(rune_id) {
            1nat
        } else {
            0
        }
    }
}

proof fn lemma_held_of_both(
    a: Seq<InputRuneBalance>,
    b: Seq<InputRuneBalance>,
    address: String,
)
    ensures
        held(a + b) == held(a) + held(b),
        held_from(a + b, address) == held_from(a, address) + held_from(b, address),
    decreases b.len(),
{
    if b.len() == 0 {
        assert(a + b =~= a);
    } else {
        assert((a + b).drop_last() =~= a + b.drop_last());
        lemma_held_of_both(a, b.drop_last(), address);
    }
}

proof fn lemma_listed_or_not(balances: Seq<RuneInputsView>, rune_id: RuneId, address: String)
    requires
        distinct_runes(balances),
    ensures
        match inputs_of(balances, rune_id) {
            Some(inputs) => held_of(balances, rune_id) == held(inputs) && held_of_from(
                balances,
                rune_id,
                address,
            ) == held_from(inputs, address),
            None => held_of(balances, rune_id) == 0 && held_of_from(balances, rune_id, address)
                == 0,
        },
{
    if exists|n: int| 0 <= n < balances.len() && balances[n].rune_id == rune_id {
        let n = choose|n: int| 0 <= n < balances.len() && balances[n].rune_id == rune_id;
        lemma_inputs_of_listed(balances, n);
        assert forall|i: int|
            0 <= i < balances.len() && i != n implies #[trigger] balances[i].rune_id
            != balances[n].rune_id by {
            if i < n {
                assert(balances[i].rune_id != balances[n].rune_id);
            } else {
                assert(balances[n].rune_id != balances[i].rune_id);
            }
        }
        lemma_held_of_listed(balances, n, address);
    } else {
        lemma_inputs_of_unlisted(balances, rune_id);
        lemma_held_of_unlisted(balances, rune_id, address);
    }
}

/// Further inputs for a rune add what they hold from each address to that rune, and
/// nothing to another.
pub proof fn extending_adds_from_each_address(
    balances: Seq<RuneInputsView>,
    rune_id: RuneId,
    inputs: Seq<InputRuneBalance>,
    other: RuneId,
    address: String,
)
    requires
        distinct_runes(balances),
    ensures
        ({
            let after = extend_balances(balances, rune_id, inputs);
            &&& held_of(after, other) == held_of(balances, other) + if other == rune_id {
                held(inputs)
            } else {
                0
            }
            &&& held_of_from(after, other, address) == held_of_from(balances, other, address)
                + if other == rune_id {
                held_from(inputs, address)
            } else {
                0
            }
        }),
{
    let after = extend_balances(balances, rune_id, inputs);
    extending_keeps_runes_distinct(balances, rune_id, inputs);
    lemma_listed_or_not(balances, other, address);
    lemma_listed_or_not(after, other, address);
    match inputs_of(balances, rune_id) {
        Some(listed) => {
            lemma_inputs_of_with_inputs(balances, rune_id, listed + inputs, other);
            lemma_held_of_both(listed, inputs, address);
        },
        None => {
            assert(after.drop_last() =~= balances);
        },
    }
}

proof fn lemma_brought_of_update(
    inputs: Seq<InputBalancesView>,
    at: int,
    input: InputBalancesView,
    rune_id: RuneId,
    address: String,
)
    requires
        0 <= at < inputs.len(),
    ensures
        brought(inputs.update(at, input), rune_id) + held_of(inputs[at].balances, rune_id)
            == brought(inputs, rune_id) + held_of(input.balances, rune_id),
        brought_from(inputs.update(at, input), rune_id, address) + held_of_from(
            inputs[at].balances,
            rune_id,
            address,
        ) == brought_from(inputs, rune_id, address) + held_of_from(
            input.balances,
            rune_id,
            address,
        ),
    decreases inputs.len(),
{
    let after = inputs.update(at, input);
    if at == inputs.len() - 1 {
        assert(after.drop_last() =~= inputs.drop_last());
    } else {
        assert(after.drop_last() =~= inputs.drop_last().update(at, input));
        lemma_brought_of_update(inputs.drop_last(), at, input, rune_id, address);
    }
}

proof fn lemma_position(inputs: Seq<InputBalancesView>, index: u32)
    ensures
        match input_position(inputs, index) {
            Some(at) => 0 <= at < inputs.len() && inputs[at].index == index,
            None => forall|i: int| 0 <= i < inputs.len() ==> (#[trigger] inputs[i]).index != index,
        },
    decreases inputs.len(),
{
    if inputs.len() > 0 {
        let rest = inputs.drop_last();
        lemma_position(rest, index);
        if inputs.last().index != index && input_position(rest, index) is None {
            assert forall|i: int| 0 <= i < inputs.len() implies (#[trigger] inputs[i]).index
                != index by {
                if i < rest.len() {
                    assert(rest[i].index != index);
                }
            }
        }
    }
}

proof fn lemma_one(balance: InputRuneBalance, address: String)
    ensures
        held(seq![balance]) == balance.amount,
        held_from(seq![balance], address) == if balance.address == Some(address) {
            balance.amount as int
        } else {
            0
        },
{
    let none = seq![balance].drop_last();
    assert(none =~= Seq::<InputRuneBalance>::empty());
    assert(held(none) == 0);
    assert(held_from(none, address) == 0);
}

proof fn lemma_rows_but_the_last(rows: Seq<InputBalanceRow>)
    requires
        denote_runes(rows),
        rows.len() > 0,
    ensures
        denote_runes(rows.drop_last()),
        rune_id_value(rows.last().rune_id@) == Some(row_rune_id(rows.last())),
{
    let rest = rows.drop_last();
    assert forall|i: int| 0 <= i < rest.len() implies rune_id_value(
        (#[trigger] rest[i]).rune_id@,
    ) is Some by {
        assert(rest[i] == rows[i]);
    }
    assert(rune_id_value(rows[rows.len() - 1].rune_id@) is Some);
}

/// Grouping rows by input and by rune keeps every amount with the address that it comes
/// from: of each rune, from each address and in all, the inputs hold what the rows hold.
pub proof fn grouping_keeps_every_address(
    rows: Seq<InputBalanceRow>,
    rune_id: RuneId,
    address: String,
)
    requires
        denote_runes(rows),
    ensures
        brought(grouped(rows), rune_id) == amount_in_rows(rows, on_rune(rune_id)),
        brought_from(grouped(rows), rune_id, address) == amount_in_rows(
            rows,
            on_rune_from(rune_id, address),
        ),
    decreases rows.len(),
{
    if rows.len() > 0 {
        let row = rows.last();
        let before = grouped(rows.drop_last());
        lemma_rows_but_the_last(rows);
        grouping_keeps_every_address(rows.drop_last(), rune_id, address);
        grouping_keeps_every_amount(rows.drop_last(), rune_id);
        let balance = row_balance(row);
        let id = row_rune_id(row);
        lemma_one(balance, address);
        lemma_position(before, row.index.0);
        match input_position(before, row.index.0) {
            Some(at) => {
                assert(distinct_runes(before[at].balances));
                extending_adds_from_each_address(
                    before[at].balances,
                    id,
                    seq![balance],
                    rune_id,
                    address,
                );
                let input = InputBalancesView {
                    index: row.index.0,
                    balances: extend_balances(before[at].balances, id, seq![balance]),
                };
                lemma_brought_of_update(before, at, input, rune_id, address);
            },
            None => {
                let none = Seq::<RuneInputsView>::empty();
                extending_adds_from_each_address(none, id, seq![balance], rune_id, address);
                let input = InputBalancesView {
                    index: row.index.0,
                    balances: extend_balances(none, id, seq![balance]),
                };
                assert(held_of(none, rune_id) == 0);
                assert(held_of_from(none, rune_id, address) == 0);
                assert(before.push(input).drop_last() =~= before);
            },
        }
    }
}

proof fn lemma_extend_all_holds(
    balances: Seq<RuneInputsView>,
    others: Seq<RuneInputsView>,
    rune_id: RuneId,
    address: String,
)
    requires
        distinct_runes(balances),
    ensures
        distinct_runes(extend_all(balances, others)),
        held_of(extend_all(balances, others), rune_id) == held_of(balances, rune_id) + held_of(
            others,
            rune_id,
        ),
        held_of_from(extend_all(balances, others), rune_id, address) == held_of_from(
            balances,
            rune_id,
            address,
        ) + held_of_from(others, rune_id, address),
    decreases others.len(),
{
    if others.len() > 0 {
        let rest = others.drop_last();
        let last = others.last();
        lemma_extend_all_holds(balances, rest, rune_id, address);
        let before = extend_all(balances, rest);
        extending_adds_from_each_address(before, last.rune_id, last.inputs, rune_id, address);
        extending_keeps_runes_distinct(before, last.rune_id, last.inputs);
    }
}

/// Joining the balances of all inputs keeps every amount with the address that it comes
/// from.
pub proof fn joining_keeps_every_address(
    inputs: Seq<InputBalancesView>,
    rune_id: RuneId,
    address: String,
)
    ensures
        distinct_runes(joined(inputs)),
        held_of(joined(inputs), rune_id) == brought(inputs, rune_id),
        held_of_from(joined(inputs), rune_id, address) == brought_from(inputs, rune_id, address),
    decreases inputs.len(),
{
    if inputs.len() > 0 {
        let rest = inputs.drop_last();
        joining_keeps_every_address(rest, rune_id, address);
        lemma_extend_all_holds(joined(rest), inputs.last().balances, rune_id, address);
    }
}

/// The balances that a transaction is read with hold, of each rune and from each address,
/// what the rows of its inputs hold of that rune from that address.
pub proof fn balances_hold_what_each_address_has(
    rows: Seq<InputBalanceRow>,
    rune_id: RuneId,
    address: String,
)
    requires
        denote_runes(rows),
    ensures
        held_of(joined(grouped(rows)), rune_id) == amount_in_rows(rows, on_rune(rune_id)),
        held_of_from(joined(grouped(rows)), rune_id, address) == amount_in_rows(
            rows,
            on_rune_from(rune_id, address),
        ),
{
    grouping_keeps_every_address(rows, rune_id, address);
    joining_keeps_every_address(grouped(rows), rune_id, address);
}

/// Whether the balances listed for an input and a rune are those of the rows of that input
/// and that rune: as many as there are rows, and the balance of each row at the place that
/// the rows before it leave to it.
pub open spec fn lists_rows(
    balances: Seq<InputRuneBalance>,
    rows: Seq<InputBalanceRow>,
    index: u32,
    rune_id: RuneId,
) -> bool {
    &&& balances.len() == rows_for(rows, index, rune_id)
    &&& forall|i: int|
        0 <= i < rows.len() && (#[trigger] rows[i]).index.0 == index && rune_id_value(
            rows[i].rune_id@,
        ) == Some(rune_id) ==> {
            let place = rows_for(rows.take(i), index, rune_id) as int;
            place < balances.len() && is_balance_of(balances[place], rows[i])
        }
}

proof fn lemma_rows_for_is_monotone(
    rows: Seq<InputBalanceRow>,
    i: int,
    index: u32,
    rune_id: RuneId,
)
    requires
        0 <= i <= rows.len(),
    ensures
        rows_for(rows.take(i), index, rune_id) <= rows_for(rows, index, rune_id),
        i < rows.len() && rows[i].index.0 == index && rune_id_value(rows[i].rune_id@) == Some(
            rune_id,
        ) ==> rows_for(rows.take(i), index, rune_id) < rows_for(rows, index, rune_id),
    decreases rows.len() - i,
{
    if i < rows.len() {
        assert(rows.take(i + 1).drop_last() =~= rows.take(i));
        lemma_rows_for_is_monotone(rows, i + 1, index, rune_id);
    } else {
        assert(rows.take(i) =~= rows);
    }
}

/// The balances of an input and a rune in the grouped rows, or none.
spec fn listed_for(inputs: Seq<InputBalancesView>, index: u32, rune_id: RuneId) -> Seq<
    InputRuneBalance,
> {
    match input_position(inputs, index) {
        Some(at) => match inputs_of(inputs[at].balances, rune_id) {
            Some(balances) => balances,
            None => Seq::empty(),
        },
        None => Seq::empty(),
    }
}

proof fn lemma_position_is_unique(inputs: Seq<InputBalancesView>, at: int)
    requires
        0 <= at < inputs.len(),
        distinct_inputs(inputs),
    ensures
        input_position(inputs, inputs[at].index) == Some(at),
{
    lemma_position(inputs, inputs[at].index);
    match input_position(inputs, inputs[at].index) {
        Some(found) => {
            if found < at {
                assert(inputs[found].index != inputs[at].index);
            } else if at < found {
                assert(inputs[at].index != inputs[found].index);
            }
        },
        None => {},
    }
}

proof fn lemma_listed_for_after(
    inputs: Seq<InputBalancesView>,
    index: u32,
    rune_id: RuneId,
    balance: InputRuneBalance,
    other_index: u32,
    other: RuneId,
)
    requires
        distinct_inputs(inputs),
    ensures
        listed_for(with_balance(inputs, index, rune_id, balance), other_index, other) == if
            other_index == index && other == rune_id {
            listed_for(inputs, index, rune_id).push(balance)
        } else {
            listed_for(inputs, other_index, other)
        },
        distinct_inputs(with_balance(inputs, index, rune_id, balance)),
{
    crate::mempool::input_balances::one_more_balance_keeps_inputs_distinct(
        inputs,
        index,
        rune_id,
        balance,
    );
    let after = with_balance(inputs, index, rune_id, balance);
    lemma_position(inputs, index);
    lemma_position(inputs, other_index);
    lemma_position(after, other_index);
    match input_position(inputs, index) {
        Some(at) => {
            lemma_position_is_unique(after, at);
            if other_index != index {
                match input_position(inputs, other_index) {
                    Some(place) => {
                        assert(after[place] == inputs[place]);
                        lemma_position_is_unique(after, place);
                    },
                    None => {
                        match input_position(after, other_index) {
                            Some(place) => {
                                assert(inputs[place].index == other_index);
                            },
                            None => {},
                        }
                    },
                }
            } else {
                lemma_extended_inputs(inputs[at].balances, rune_id, balance, other);
            }
        },
        None => {
            lemma_position_is_unique(after, inputs.len() as int);
            if other_index != index {
                match input_position(inputs, other_index) {
                    Some(place) => {
                        assert(after[place] == inputs[place]);
                        lemma_position_is_unique(after, place);
                    },
                    None => {
                        match input_position(after, other_index) {
                            Some(place) => {
                                assert(inputs[place].index == other_index);
                            },
                            None => {},
                        }
                    },
                }
            } else {
                lemma_extended_inputs(Seq::empty(), rune_id, balance, other);
                assert(after[inputs.len() as int].balances == extend_balances(
                    Seq::empty(),
                    rune_id,
                    seq![balance],
                ));
            }
        },
    }
}

proof fn lemma_extended_inputs(
    balances: Seq<RuneInputsView>,
    rune_id: RuneId,
    balance: InputRuneBalance,
    other: RuneId,
)
    ensures
        inputs_of(extend_balances(balances, rune_id, seq![balance]), other) == if other == rune_id {
            Some(
                match inputs_of(balances, rune_id) {
                    Some(listed) => listed.push(balance),
                    None => Seq::empty().push(balance),
                },
            )
        } else {
            inputs_of(balances, other)
        },
{
    let after = extend_balances(balances, rune_id, seq![balance]);
    match inputs_of(balances, rune_id) {
        Some(listed) => {
            lemma_inputs_of_with_inputs(balances, rune_id, listed + seq![balance], other);
            assert(listed + seq![balance] =~= listed.push(balance));
        },
        None => {
            assert(after.drop_last() =~= balances);
            assert(seq![balance] =~= Seq::empty().push(balance));
        },
    }
}

proof fn lemma_groups_list_rows(rows: Seq<InputBalanceRow>, index: u32, rune_id: RuneId)
    requires
        denote_runes(rows),
    ensures
        lists_rows(listed_for(grouped(rows), index, rune_id), rows, index, rune_id),
    decreases rows.len(),
{
    if rows.len() > 0 {
        let rest = rows.drop_last();
        let row = rows.last();
        lemma_rows_but_the_last(rows);
        lemma_groups_list_rows(rest, index, rune_id);
        grouping_keeps_every_amount(rest, rune_id);
        let id = row_rune_id(row);
        lemma_listed_for_after(
            grouped(rest),
            row.index.0,
            id,
            row_balance(row),
            index,
            rune_id,
        );
        let before = listed_for(grouped(rest), index, rune_id);
        let balances = listed_for(grouped(rows), index, rune_id);
        assert forall|i: int|
            0 <= i < rows.len() && (#[trigger] rows[i]).index.0 == index && rune_id_value(
                rows[i].rune_id@,
            ) == Some(rune_id) implies {
            let place = rows_for(rows.take(i), index, rune_id) as int;
            place < balances.len() && is_balance_of(balances[place], rows[i])
        } by {
            if i < rest.len() {
                assert(rest[i] == rows[i]);
                assert(rest.take(i) =~= rows.take(i));
                let place = rows_for(rest.take(i), index, rune_id) as int;
                assert(place < before.len() && is_balance_of(before[place], rest[i]));
            } else {
                assert(rows.take(i) =~= rest);
            }
        }
    }
}

proof fn lemma_nothing_empty(rows: Seq<InputBalanceRow>)
    ensures
        forall|k: int, n: int|
            0 <= k < grouped(rows).len() && 0 <= n < grouped(rows)[k].balances.len() ==> (
            #[trigger] grouped(rows)[k].balances[n]).inputs.len() > 0,
        forall|k: int|
            0 <= k < grouped(rows).len() ==> (#[trigger] grouped(rows)[k]).balances.len() > 0,
    decreases rows.len(),
{
    if rows.len() > 0 {
        let row = rows.last();
        let before = grouped(rows.drop_last());
        let after = grouped(rows);
        lemma_nothing_empty(rows.drop_last());
        lemma_position(before, row.index.0);
        assert forall|k: int| 0 <= k < after.len() implies (
        #[trigger] after[k]).balances.len() > 0 by {
            if k < before.len() {
                assert(before[k].balances.len() > 0);
            }
        }
        assert forall|k: int, n: int|
            0 <= k < after.len() && 0 <= n < after[k].balances.len() implies (
        #[trigger] after[k].balances[n]).inputs.len() > 0 by {
            if k < before.len() && n < before[k].balances.len() {
                assert(before[k].balances[n].inputs.len() > 0);
            }
        }
    }
}

/// The rows are grouped by the input and the rune that they name: every group holds
/// exactly the balances of the rows of its input and its rune, in the order of the rows,
/// no group is empty, and the balance of every row is in the group of its input and rune.
pub proof fn groups_hold_exactly_their_rows(rows: Seq<InputBalanceRow>)
    requires
        denote_runes(rows),
    ensures
        distinct_inputs(grouped(rows)),
        forall|k: int, n: int|
            0 <= k < grouped(rows).len() && 0 <= n < grouped(rows)[k].balances.len() ==> {
                let group = #[trigger] grouped(rows)[k].balances[n];
                &&& group.inputs.len() > 0
                &&& lists_rows(group.inputs, rows, grouped(rows)[k].index, group.rune_id)
            },
        forall|i: int|
            0 <= i < rows.len() ==> exists|k: int, n: int|
                {
                    &&& 0 <= k < grouped(rows).len()
                    &&& 0 <= n < grouped(rows)[k].balances.len()
                    &&& grouped(rows)[k].index == (#[trigger] rows[i]).index.0
                    &&& rune_id_value(rows[i].rune_id@) == Some(
                        (#[trigger] grouped(rows)[k].balances[n]).rune_id,
                    )
                },
{
    let inputs = grouped(rows);
    grouping_keeps_every_amount(rows, RuneId { block: 0, tx: 0 });
    lemma_nothing_empty(rows);
    assert forall|k: int, n: int|
        0 <= k < inputs.len() && 0 <= n < inputs[k].balances.len() implies {
        let group = #[trigger] inputs[k].balances[n];
        &&& group.inputs.len() > 0
        &&& lists_rows(group.inputs, rows, inputs[k].index, group.rune_id)
    } by {
        let group = inputs[k].balances[n];
        assert(group.inputs.len() > 0);
        lemma_groups_list_rows(rows, inputs[k].index, group.rune_id);
        lemma_position_is_unique(inputs, k);
        assert(distinct_runes(inputs[k].balances));
        lemma_inputs_of_listed(inputs[k].balances, n);
    }
    assert forall|i: int| 0 <= i < rows.len() implies exists|k: int, n: int|
        {
            &&& 0 <= k < inputs.len()
            &&& 0 <= n < inputs[k].balances.len()
            &&& inputs[k].index == (#[trigger] rows[i]).index.0
            &&& rune_id_value(rows[i].rune_id@) == Some(
                (#[trigger] inputs[k].balances[n]).rune_id,
            )
        } by {
        let index = rows[i].index.0;
        let rune_id = rune_id_value(rows[i].rune_id@)->0;
        lemma_groups_list_rows(rows, index, rune_id);
        lemma_rows_for_is_monotone(rows, i, index, rune_id);
        lemma_position(inputs, index);
        let k = input_position(inputs, index)->0;
        if forall|n: int|
            0 <= n < inputs[k].balances.len() ==> #[trigger] inputs[k].balances[n].rune_id
                != rune_id {
            lemma_inputs_of_unlisted(inputs[k].balances, rune_id);
        }
        let n = choose|n: int|
            0 <= n < inputs[k].balances.len() && #[trigger] inputs[k].balances[n].rune_id
                == rune_id;
        assert(inputs[k].balances[n].rune_id == rune_id);
    }
}

/// The balances of one more input come after those of the inputs before it, for every rune
/// that it brings in, and no other rune changes.
pub proof fn joining_appends_in_order(
    inputs: Seq<InputBalancesView>,
    more: InputBalancesView,
    n: int,
)
    requires
        distinct_runes(more.balances),
        0 <= n < joined(inputs.push(more)).len(),
    ensures
        ({
            let group = joined(inputs.push(more))[n];
            let earlier = if n < joined(inputs).len() {
                joined(inputs)[n].inputs
            } else {
                Seq::empty()
            };
            &&& n < joined(inputs).len() ==> group.rune_id == joined(inputs)[n].rune_id
            &&& forall|m: int|
                0 <= m < more.balances.len() && (#[trigger] more.balances[m]).rune_id
                    == group.rune_id ==> group.inputs == earlier + more.balances[m].inputs
            &&& (forall|m: int|
                0 <= m < more.balances.len() ==> (#[trigger] more.balances[m]).rune_id
                    != group.rune_id) ==> n < joined(inputs).len() && group.inputs == earlier
        }),
{
    joining_keeps_every_address(inputs, RuneId { block: 0, tx: 0 }, arbitrary());
    joining_keeps_every_address(inputs.push(more), RuneId { block: 0, tx: 0 }, arbitrary());
    assert(inputs.push(more).drop_last() =~= inputs);
    let before = joined(inputs);
    let after = joined(inputs.push(more));
    let rune_id = after[n].rune_id;
    lemma_extend_all_in_order(before, more.balances, rune_id);
    lemma_inputs_of_listed(after, n);
    lemma_extend_all_positions(before, more.balances);
    if n < before.len() {
        lemma_inputs_of_listed(before, n);
    } else {
        assert forall|i: int| 0 <= i < before.len() implies #[trigger] before[i].rune_id
            != rune_id by {
            assert(after[i].rune_id != after[n].rune_id);
        }
        lemma_inputs_of_unlisted(before, rune_id);
    }
    if forall|m: int|
        0 <= m < more.balances.len() ==> (#[trigger] more.balances[m]).rune_id != rune_id {
        lemma_inputs_of_unlisted(more.balances, rune_id);
    }
    assert forall|m: int|
        0 <= m < more.balances.len() && (#[trigger] more.balances[m]).rune_id
            == rune_id implies after[n].inputs == (if n < before.len() {
        before[n].inputs
    } else {
        Seq::empty()
    }) + more.balances[m].inputs by {
        lemma_inputs_of_listed(more.balances, m);
    }
}

proof fn lemma_extend_all_positions(
    balances: Seq<RuneInputsView>,
    others: Seq<RuneInputsView>,
)
    ensures
        extend_all(balances, others).len() >= balances.len(),
        forall|i: int|
            0 <= i < balances.len() ==> #[trigger] extend_all(balances, others)[i].rune_id
                == balances[i].rune_id,
    decreases others.len(),
{
    if others.len() > 0 {
        lemma_extend_all_positions(balances, others.drop_last());
        let before = extend_all(balances, others.drop_last());
        assert forall|i: int| 0 <= i < balances.len() implies #[trigger] extend_all(
            balances,
            others,
        )[i].rune_id == balances[i].rune_id by {
            assert(before[i].rune_id == balances[i].rune_id);
        }
    }
}

proof fn lemma_extend_all_in_order(
    balances: Seq<RuneInputsView>,
    others: Seq<RuneInputsView>,
    rune_id: RuneId,
)
    requires
        distinct_runes(others),
    ensures
        inputs_of(extend_all(balances, others), rune_id) == match inputs_of(others, rune_id) {
            Some(more) => Some(
                match inputs_of(balances, rune_id) {
                    Some(listed) => listed + more,
                    None => Seq::empty() + more,
                },
            ),
            None => inputs_of(balances, rune_id),
        },
    decreases others.len(),
{
    if others.len() > 0 {
        let rest = others.drop_last();
        let last = others.last();
        assert forall|i: int, j: int| 0 <= i < j < rest.len() implies #[trigger] rest[i].rune_id
            != #[trigger] rest[j].rune_id by {
            assert(others[i].rune_id != others[j].rune_id);
        }
        lemma_extend_all_in_order(balances, rest, rune_id);
        let before = extend_all(balances, rest);
        if last.rune_id == rune_id {
            assert forall|i: int| 0 <= i < rest.len() implies #[trigger] rest[i].rune_id
                != rune_id by {
                assert(others[i].rune_id != others[others.len() - 1].rune_id);
            }
            lemma_inputs_of_unlisted(rest, rune_id);
        }
        match inputs_of(before, last.rune_id) {
            Some(listed) => {
                lemma_inputs_of_with_inputs(before, last.rune_id, listed + last.inputs, rune_id);
            },
            None => {
                let after = extend_all(balances, others);
                assert(after.drop_last() =~= before);
                assert(Seq::empty() + last.inputs =~= last.inputs);
            },
        }
    }
}

/// Rows denote runes where each of them holds the notation of a rune id, and do not where one
/// of them denotes none.
pub proof fn rows_with_rune_ids_denote_runes(rows: Seq<InputBalanceRow>, ids: Seq<RuneId>)
    requires
        rows.len() == ids.len(),
    ensures
        (forall|i: int|
            0 <= i < rows.len() ==> (#[trigger] rows[i]).rune_id@ == rune_id_text(ids[i]))
            ==> denote_runes(rows),
        forall|i: int|
            0 <= i < rows.len() && rune_id_value((#[trigger] rows[i]).rune_id@) is None
                ==> !denote_runes(rows),
        (forall|i: int|
            0 <= i < rows.len() ==> rune_id_value((#[trigger] rows[i]).rune_id@) is Some)
            ==> denote_runes(rows),
{
    assert forall|i: int|
        0 <= i < rows.len() && (#[trigger] rows[i]).rune_id@ == rune_id_text(
            ids[i],
        ) implies rune_id_value(rows[i].rune_id@) is Some by {
        rune_id_reads_back(ids[i]);
    }
}

} // verus!
