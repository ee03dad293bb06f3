//! The rune balances behind the inputs of a transaction, as the ledger knows
//! them.

use vstd::prelude::*;

use crate::db::models::input_rune_balance::{clone_address, total_amount, InputRuneBalance};
use crate::db::placeholders::{placeholder, push_placeholder};
use crate::db::statement::{
    flattened, params_view, PgParam, PgParamView, Statement, StatementView,
};
use crate::db::step::{Reply, Step, StepView};
use crate::db::types::pg_bigint_u32::PgBigIntU32;
use crate::db::types::pg_text_u128::PgTextU128;
use crate::mempool::balances::{
    distinct_runes, extend_balances, extending_adds_to_one_rune, extending_keeps_runes_distinct,
    lemma_inputs_of_unlisted, rune_total, RuneBalances,
    RuneInputsView,
};
use crate::mempool::decipher::SpentOutput;
use crate::runes::{rune_id_value, RuneId};

verus! {

/// What the ledger knows an input to bring in: the index of the input, the
/// notation of the rune id, the address that the balance comes from and the amount.
#[derive(Debug, PartialEq, Eq)]
pub struct InputBalanceRow {
    pub index: PgBigIntU32,
    pub rune_id: String,
    pub address: Option<String>,
    pub amount: PgTextU128,
}

/// The balances that one input brings in.
#[derive(Debug, PartialEq, Eq)]
pub struct InputBalances {
    pub index: u32,
    pub balances: RuneBalances,
}

/// The model of [`InputBalances`].
pub struct InputBalancesView {
    pub index: u32,
    pub balances: Seq<RuneInputsView>,
}

impl View for InputBalances {
    type V = InputBalancesView;

    open spec fn view(&self) -> InputBalancesView {
        InputBalancesView { index: self.index, balances: self.balances@ }
    }
}

/// The models of the balances that inputs bring in.
pub open spec fn inputs_view(inputs: Seq<InputBalances>) -> Seq<InputBalancesView> {
    inputs.map_values(|input: InputBalances| input@)
}

/// No input is listed twice, and no rune twice for an input.
pub open spec fn distinct_inputs(inputs: Seq<InputBalancesView>) -> bool {
    &&& forall|i: int, j: int|
        0 <= i < j < inputs.len() ==> (#[trigger] inputs[i]).index != (#[trigger] inputs[j]).index
    &&& forall|i: int| 0 <= i < inputs.len() ==> distinct_runes((#[trigger] inputs[i]).balances)
}

/// The position of an input, where it is listed.
pub open spec fn input_position(inputs: Seq<InputBalancesView>, index: u32) -> Option<int>
    decreases inputs.len(),
{
    if inputs.len() == 0 {
        None
    } else if inputs.last().index == index {
        Some(inputs.len() - 1)
    } else {
        input_position(inputs.drop_last(), index)
    }
}

/// The inputs with one more balance for an input, which is listed last where it
/// was not listed before.
pub open spec fn with_balance(
    inputs: Seq<InputBalancesView>,
    index: u32,
    rune_id: RuneId,
    balance: InputRuneBalance,
) -> Seq<InputBalancesView> {
    match input_position(inputs, index) {
        Some(at) => inputs.update(
            at,
            InputBalancesView {
                index,
                balances: extend_balances(inputs[at].balances, rune_id, seq![balance]),
            },
        ),
        None => inputs.push(
            InputBalancesView {
                index,
                balances: extend_balances(Seq::empty(), rune_id, seq![balance]),
            },
        ),
    }
}

/// The balance in a row.
pub open spec fn row_balance(row: InputBalanceRow) -> InputRuneBalance {
    InputRuneBalance { address: row.address, amount: row.amount.0 }
}

/// The rune id that a row denotes.
pub open spec fn row_rune_id(row: InputBalanceRow) -> RuneId {
    rune_id_value(row.rune_id@)->0
}

/// The rows by input and by rune.
pub open spec fn grouped(rows: Seq<InputBalanceRow>) -> Seq<InputBalancesView>
    decreases rows.len(),
{
    if rows.len() == 0 {
        Seq::empty()
    } else {
        with_balance(
            grouped(rows.drop_last()),
            rows.last().index.0,
            row_rune_id(rows.last()),
            row_balance(rows.last()),
        )
    }
}

/// Balances with others added, rune by rune.
pub open spec fn extend_all(balances: Seq<RuneInputsView>, others: Seq<RuneInputsView>) -> Seq<
    RuneInputsView,
>
    decreases others.len(),
{
    if others.len() == 0 {
        balances
    } else {
        extend_balances(
            extend_all(balances, others.drop_last()),
            others.last().rune_id,
            others.last().inputs,
        )
    }
}

/// The balances of all inputs together.
pub open spec fn joined(inputs: Seq<InputBalancesView>) -> Seq<RuneInputsView>
    decreases inputs.len(),
{
    if inputs.len() == 0 {
        Seq::empty()
    } else {
        extend_all(joined(inputs.drop_last()), inputs.last().balances)
    }
}

/// Whether each row denotes a rune id.
pub open spec fn denote_runes(rows: Seq<InputBalanceRow>) -> bool {
    forall|i: int|
        0 <= i < rows.len() ==> rune_id_value((#[trigger] rows[i]).rune_id@) is Some
}

/// What rows hold of a rune in all.
pub open spec fn rows_total(rows: Seq<InputBalanceRow>, rune_id: RuneId) -> nat
    decreases rows.len(),
{
    if rows.len() == 0 {
        0
    } else {
        rows_total(rows.drop_last(), rune_id) + if row_rune_id(rows.last()) == rune_id {
            rows.last().amount.0 as nat
        } else {
            0
        }
    }
}

/// What inputs bring in of a rune in all.
pub open spec fn inputs_total(inputs: Seq<InputBalancesView>, rune_id: RuneId) -> nat
    decreases inputs.len(),
{
    if inputs.len() == 0 {
        0
    } else {
        inputs_total(inputs.drop_last(), rune_id) + rune_total(inputs.last().balances, rune_id)
    }
}

proof fn lemma_input_position(inputs: Seq<InputBalancesView>, index: u32)
    ensures
        match input_position(inputs, index) {
            Some(at) => 0 <= at < inputs.len() && inputs[at].index == index,
            None => forall|i: int| 0 <= i < inputs.len() ==> (#[trigger] inputs[i]).index != index,
        },
    decreases inputs.len(),
{
    if inputs.len() > 0 {
        let rest = inputs.drop_last();
        lemma_input_position(rest, index);
        if inputs.last().index != index && input_position(rest, index) is None {
            assert forall|i: int| 0 <= i < inputs.len() implies (#[trigger] inputs[i]).index
                != index by {
                if i < rest.len() {
                    assert(rest[i].index != index);
                }
            }
        }
    }
}

proof fn lemma_total_of_update(
    inputs: Seq<InputBalancesView>,
    at: int,
    input: InputBalancesView,
    rune_id: RuneId,
)
    requires
        0 <= at < inputs.len(),
    ensures
        inputs_total(inputs.update(at, input), rune_id) + rune_total(inputs[at].balances, rune_id)
            == inputs_total(inputs, rune_id) + rune_total(input.balances, rune_id),
    decreases inputs.len(),
{
    let after = inputs.update(at, input);
    if at == inputs.len() - 1 {
        assert(after.drop_last() =~= inputs.drop_last());
    } else {
        assert(after.drop_last() =~= inputs.drop_last().update(at, input));
        lemma_total_of_update(inputs.drop_last(), at, input, rune_id);
    }
}

proof fn lemma_one_balance(balance: InputRuneBalance)
    ensures
        total_amount(seq![balance]) == balance.amount,
{
    assert(seq![balance].drop_last() =~= Seq::<InputRuneBalance>::empty());
    assert(total_amount(seq![balance].drop_last()) == 0);
}

/// One more balance leaves no input listed twice, nor a rune for an input.
pub proof fn one_more_balance_keeps_inputs_distinct(
    inputs: Seq<InputBalancesView>,
    index: u32,
    rune_id: RuneId,
    balance: InputRuneBalance,
)
    requires
        distinct_inputs(inputs),
    ensures
        distinct_inputs(with_balance(inputs, index, rune_id, balance)),
{
    let after = with_balance(inputs, index, rune_id, balance);
    lemma_input_position(inputs, index);
    match input_position(inputs, index) {
        Some(at) => {
            extending_keeps_runes_distinct(inputs[at].balances, rune_id, seq![balance]);
            assert forall|i: int, j: int| 0 <= i < j < after.len() implies (
            #[trigger] after[i]).index != (#[trigger] after[j]).index by {
                assert(inputs[i].index != inputs[j].index);
            }
            assert forall|i: int| 0 <= i < after.len() implies distinct_runes(
                (#[trigger] after[i]).balances,
            ) by {
                assert(distinct_runes(inputs[i].balances));
            }
        },
        None => {
            extending_keeps_runes_distinct(Seq::empty(), rune_id, seq![balance]);
        },
    }
}

proof fn lemma_total_with_balance(
    inputs: Seq<InputBalancesView>,
    index: u32,
    rune_id: RuneId,
    balance: InputRuneBalance,
    other: RuneId,
)
    ensures
        inputs_total(with_balance(inputs, index, rune_id, balance), other) == inputs_total(
            inputs,
            other,
        ) + if other == rune_id {
            balance.amount as nat
        } else {
            0
        },
{
    lemma_input_position(inputs, index);
    lemma_one_balance(balance);
    match input_position(inputs, index) {
        Some(at) => {
            let balances = extend_balances(inputs[at].balances, rune_id, seq![balance]);
            extending_adds_to_one_rune(inputs[at].balances, rune_id, seq![balance], other);
            lemma_total_of_update(inputs, at, InputBalancesView { index, balances }, other);
        },
        None => {
            let balances = extend_balances(Seq::empty(), rune_id, seq![balance]);
            extending_adds_to_one_rune(Seq::empty(), rune_id, seq![balance], other);
            assert(inputs.push(InputBalancesView { index, balances }).drop_last() =~= inputs);
        },
    }
}

/// Grouping rows by input and by rune loses nothing: the inputs bring in of a rune
/// what the rows hold of it.
pub proof fn grouping_keeps_every_amount(rows: Seq<InputBalanceRow>, rune_id: RuneId)
    ensures
        distinct_inputs(grouped(rows)),
        inputs_total(grouped(rows), rune_id) == rows_total(rows, rune_id),
    decreases rows.len(),
{
    if rows.len() > 0 {
        let row = rows.last();
        let before = grouped(rows.drop_last());
        grouping_keeps_every_amount(rows.drop_last(), rune_id);
        one_more_balance_keeps_inputs_distinct(
            before,
            row.index.0,
            row_rune_id(row),
            row_balance(row),
        );
        lemma_total_with_balance(
            before,
            row.index.0,
            row_rune_id(row),
            row_balance(row),
            rune_id,
        );
    }
}

proof fn lemma_extend_all(
    balances: Seq<RuneInputsView>,
    others: Seq<RuneInputsView>,
    rune_id: RuneId,
)
    requires
        distinct_runes(balances),
        distinct_runes(others),
    ensures
        distinct_runes(extend_all(balances, others)),
        rune_total(extend_all(balances, others), rune_id) == rune_total(balances, rune_id)
            + rune_total(others, rune_id),
    decreases others.len(),
{
    if others.len() > 0 {
        let rest = others.drop_last();
        let last = others.last();
        assert(distinct_runes(rest)) by {
            assert forall|i: int, j: int| 0 <= i < j < rest.len() implies #[trigger] rest[i].rune_id
                != #[trigger] rest[j].rune_id by {
                assert(others[i].rune_id != others[j].rune_id);
            }
        }
        lemma_extend_all(balances, rest, rune_id);
        extending_adds_to_one_rune(extend_all(balances, rest), last.rune_id, last.inputs, rune_id);
        extending_keeps_runes_distinct(extend_all(balances, rest), last.rune_id, last.inputs);
        if last.rune_id == rune_id {
            assert forall|i: int| 0 <= i < rest.len() implies #[trigger] rest[i].rune_id
                != rune_id by {
                assert(others[i].rune_id != others[others.len() - 1].rune_id);
            }
            lemma_inputs_of_unlisted(rest, rune_id);
        }
    }
}

/// Joining the balances of all inputs loses nothing.
pub proof fn joining_keeps_every_amount(inputs: Seq<InputBalancesView>, rune_id: RuneId)
    requires
        distinct_inputs(inputs),
    ensures
        distinct_runes(joined(inputs)),
        rune_total(joined(inputs), rune_id) == inputs_total(inputs, rune_id),
    decreases inputs.len(),
{
    if inputs.len() > 0 {
        let rest = inputs.drop_last();
        assert(distinct_inputs(rest)) by {
            assert forall|i: int, j: int| 0 <= i < j < rest.len() implies (
            #[trigger] rest[i]).index != (#[trigger] rest[j]).index by {
                assert(inputs[i].index != inputs[j].index);
            }
            assert forall|i: int| 0 <= i < rest.len() implies distinct_runes(
                (#[trigger] rest[i]).balances,
            ) by {
                assert(distinct_runes(inputs[i].balances));
            }
        }
        joining_keeps_every_amount(rest, rune_id);
        assert(distinct_runes(inputs[inputs.len() - 1].balances));
        lemma_extend_all(joined(rest), inputs.last().balances, rune_id);
    }
}

/// The balances that a transaction is read with hold of each rune what the rows
/// of its inputs hold of it.
pub proof fn input_balances_hold_the_rows(rows: Seq<InputBalanceRow>, rune_id: RuneId)
    ensures
        rune_total(joined(grouped(rows)), rune_id) == rows_total(rows, rune_id),
{
    grouping_keeps_every_amount(rows, rune_id);
    joining_keeps_every_amount(grouped(rows), rune_id);
}

fn position_of(inputs: &Vec<InputBalances>, index: u32) -> (r: Option<usize>)
    ensures
        match r {
            Some(at) => at < inputs@.len() && input_position(inputs_view(inputs@), index) == Some(
                at as int,
            ),
            None => input_position(inputs_view(inputs@), index) is None,
        },
{
    let ghost listed = inputs_view(inputs@);
    let mut i: usize = inputs.len();
    assert(listed.take(i as int) =~= listed);
    while i > 0
        invariant
            i <= inputs.len(),
            listed == inputs_view(inputs@),
            input_position(listed, index) == input_position(listed.take(i as int), index),
        decreases i,
    {
        i -= 1;
        assert(listed.take(i + 1).drop_last() =~= listed.take(i as int));
        assert(listed[i as int].index == inputs@[i as int].index);
        if inputs[i].index == index {
            return Some(i);
        }
    }
    None
}

fn add_balance(
    inputs: &mut Vec<InputBalances>,
    index: u32,
    rune_id: RuneId,
    balance: InputRuneBalance,
)
    requires
        distinct_inputs(inputs_view(old(inputs)@)),
    ensures
        inputs_view(final(inputs)@) == with_balance(
            inputs_view(old(inputs)@),
            index,
            rune_id,
            balance,
        ),
        distinct_inputs(inputs_view(final(inputs)@)),
{
    let ghost before = inputs_view(inputs@);
    proof {
        one_more_balance_keeps_inputs_distinct(before, index, rune_id, balance);
    }
    let mut added: Vec<InputRuneBalance> = Vec::new();
    added.push(balance);
    assert(added@ =~= seq![balance]);
    match position_of(inputs, index) {
        Some(at) => {
            proof {
                lemma_input_position(before, index);
                assert(distinct_runes(before[at as int].balances));
            }
            inputs[at].balances.extend(rune_id, &added);
            assert(inputs_view(inputs@) =~= with_balance(before, index, rune_id, balance));
        },
        None => {
            let mut balances = RuneBalances::new();
            balances.extend(rune_id, &added);
            inputs.push(InputBalances { index, balances });
            assert(inputs_view(inputs@) =~= with_balance(before, index, rune_id, balance));
        },
    }
}

/// Groups rows by input and by rune.
pub fn group_input_rune_balances(rows: &Vec<InputBalanceRow>) -> (r: Vec<InputBalances>)
    requires
        denote_runes(rows@),
    ensures
        inputs_view(r@) == grouped(rows@),
        distinct_inputs(inputs_view(r@)),
{
    let mut inputs: Vec<InputBalances> = Vec::new();
    let mut i: usize = 0;
    assert(inputs_view(inputs@) =~= Seq::<InputBalancesView>::empty());
    while i < rows.len()
        invariant
            i <= rows.len(),
            denote_runes(rows@),
            inputs_view(inputs@) == grouped(rows@.take(i as int)),
            distinct_inputs(inputs_view(inputs@)),
        decreases rows.len() - i,
    {
        let row = &rows[i];
        assert(rune_id_value(rows@[i as int].rune_id@) is Some);
        let rune_id = match RuneId::from_text(row.rune_id.as_str()) {
            Some(rune_id) => rune_id,
            None => {
                // `denote_runes` leaves no such row.
                assert(false);
                RuneId { block: 0, tx: 0 }
            },
        };
        let balance = InputRuneBalance {
            address: clone_address(&row.address),
            amount: row.amount.0,
        };
        add_balance(&mut inputs, row.index.0, rune_id, balance);
        assert(rows@.take(i + 1).drop_last() =~= rows@.take(i as int));
        i += 1;
    }
    assert(rows@.take(rows.len() as int) =~= rows@);
    inputs
}

/// Whether each row denotes a rune id.
pub fn rows_denote_runes(rows: &Vec<InputBalanceRow>) -> (r: bool)
    ensures
        r == denote_runes(rows@),
{
    let mut i: usize = 0;
    while i < rows.len()
        invariant
            i <= rows.len(),
            forall|k: int|
                0 <= k < i ==> rune_id_value((#[trigger] rows@[k]).rune_id@) is Some,
        decreases rows.len() - i,
    {
        if RuneId::from_text(rows[i].rune_id.as_str()).is_none() {
            assert(rune_id_value(rows@[i as int].rune_id@) is None);
            return false;
        }
        i += 1;
    }
    true
}

/// Joins the balances of all inputs.
pub fn collect_input_rune_balances(inputs: &Vec<InputBalances>) -> (r: RuneBalances)
    requires
        distinct_inputs(inputs_view(inputs@)),
    ensures
        r.wf(),
        r@ == joined(inputs_view(inputs@)),
{
    let ghost listed = inputs_view(inputs@);
    let mut joint = RuneBalances::new();
    let mut i: usize = 0;
    while i < inputs.len()
        invariant
            i <= inputs.len(),
            listed == inputs_view(inputs@),
            joint.wf(),
            joint@ == joined(listed.take(i as int)),
        decreases inputs.len() - i,
    {
        let balances = &inputs[i].balances;
        let ghost others = balances@;
        let ghost before = joint@;
        let mut k: usize = 0;
        while k < balances.entries.len()
            invariant
                k <= balances.entries.len(),
                others == balances@,
                joint.wf(),
                joint@ == extend_all(before, others.take(k as int)),
            decreases balances.entries.len() - k,
        {
            let entry = &balances.entries[k];
            assert(others[k as int] == entry@);
            joint.extend(entry.rune_id, &entry.inputs);
            assert(others.take(k + 1).drop_last() =~= others.take(k as int));
            k += 1;
        }
        proof {
            assert(others.take(others.len() as int) =~= others);
            assert(listed[i as int].balances == others);
            assert(listed.take(i + 1).drop_last() =~= listed.take(i as int));
        }
        i += 1;
    }
    assert(listed.take(listed.len() as int) =~= listed);
    joint
}

pub const SELECT_INPUTS: &'static str = "WITH inputs (index, tx_id, output) AS (VALUES ";

pub const SELECT_INPUT_BALANCES: &'static str = ")
                SELECT i.index, l.rune_id, l.address, l.amount
                FROM ledger AS l
                INNER JOIN inputs AS i USING (tx_id, output)
                WHERE l.operation = 'receive'";

/// The placeholders of an input.
pub open spec fn input_placeholders(input: nat) -> Seq<char> {
    "("@ + placeholder(3 * input + 1) + "::bigint,"@ + placeholder(3 * input + 2) + ","@
        + placeholder(3 * input + 3) + "::bigint)"@
}

/// The placeholders of several inputs, numbered from one.
pub open spec fn inputs_placeholders(inputs: nat) -> Seq<char>
    decreases inputs,
{
    if inputs == 0 {
        Seq::empty()
    } else if inputs == 1 {
        input_placeholders(0)
    } else {
        inputs_placeholders((inputs - 1) as nat) + ","@ + input_placeholders((inputs - 1) as nat)
    }
}

/// The columns of an input.
pub open spec fn input_columns(spent: SpentOutput) -> Seq<PgParamView> {
    seq![
        PgParamView::BigIntU32(Some(PgBigIntU32(spent.input_index))),
        PgParamView::Text(Some(spent.tx_id@)),
        PgParamView::BigIntU32(Some(PgBigIntU32(spent.output))),
    ]
}

/// The columns of several inputs.
pub open spec fn inputs_columns(outputs: Seq<SpentOutput>) -> Seq<PgParamView> {
    flattened(outputs, |spent: SpentOutput| input_columns(spent))
}

/// The statement that reads what the spent outputs received.
pub open spec fn select_input_balances_statement(outputs: Seq<SpentOutput>) -> StatementView {
    StatementView {
        sql: SELECT_INPUTS@ + inputs_placeholders(outputs.len()) + SELECT_INPUT_BALANCES@,
        params: inputs_columns(outputs),
    }
}

fn push_input_placeholders(text: &mut String, input: usize)
    ensures
        final(text)@ == old(text)@ + input_placeholders(input as nat),
{
    let first: u128 = 3 * input as u128 + 1;
    text.append("(");
    push_placeholder(text, first);
    text.append("::bigint,");
    push_placeholder(text, first + 1);
    text.append(",");
    push_placeholder(text, first + 2);
    text.append("::bigint)");
    assert(text@ =~= old(text)@ + input_placeholders(input as nat));
}

fn push_input(params: &mut Vec<PgParam>, spent: &SpentOutput)
    ensures
        params_view(final(params)@) == params_view(old(params)@) + input_columns(*spent),
{
    params.push(PgParam::BigIntU32(Some(PgBigIntU32(spent.input_index))));
    params.push(PgParam::text(&spent.tx_id));
    params.push(PgParam::BigIntU32(Some(PgBigIntU32(spent.output))));
    assert(params_view(params@) =~= params_view(old(params)@) + input_columns(*spent));
}

/// Reads what the spent outputs received.
pub(crate) fn select_input_balances(outputs: &Vec<SpentOutput>) -> (r: Statement)
    ensures
        r@ == select_input_balances_statement(outputs@),
{
    let mut sql = SELECT_INPUTS.to_owned();
    let mut params: Vec<PgParam> = Vec::new();
    let mut i: usize = 0;
    assert(params_view(params@) =~= Seq::<PgParamView>::empty());
    assert(sql@ =~= SELECT_INPUTS@ + Seq::<char>::empty());
    while i < outputs.len()
        invariant
            i <= outputs.len(),
            sql@ == SELECT_INPUTS@ + inputs_placeholders(i as nat),
            params_view(params@) == inputs_columns(outputs@.take(i as int)),
        decreases outputs.len() - i,
    {
        if i > 0 {
            sql.append(",");
        }
        push_input_placeholders(&mut sql, i);
        push_input(&mut params, &outputs[i]);
        assert(sql@ =~= SELECT_INPUTS@ + inputs_placeholders((i + 1) as nat));
        assert(outputs@.take(i + 1).drop_last() =~= outputs@.take(i as int));
        i += 1;
    }
    assert(outputs@.take(outputs.len() as int) =~= outputs@);
    sql.append(SELECT_INPUT_BALANCES);
    Statement { sql, params }
}

/// Reads the rune balances behind the outputs that the inputs of a transaction
/// spend, by input. The process ends where the statement is refused.
pub fn pg_get_input_rune_balances(
    outputs: &Vec<SpentOutput>,
    reply: &Reply<InputBalanceRow>,
) -> (r: Step<Vec<InputBalances>>)
    requires
        *reply matches Reply::Rows(rows) ==> denote_runes(rows@),
    ensures
        match *reply {
            Reply::Begun => r@ == StepView::<Vec<InputBalances>>::Run(
                select_input_balances_statement(outputs@),
            ),
            Reply::Rows(rows) => r matches Step::Finish(inputs) && inputs_view(inputs@) == grouped(
                rows@,
            ) && distinct_inputs(inputs_view(inputs@)),
            Reply::Failed => r@ == StepView::<Vec<InputBalances>>::Exit(1),
        },
{
    match reply {
        Reply::Begun => Step::Run(select_input_balances(outputs)),
        Reply::Rows(rows) => Step::Finish(group_input_rune_balances(rows)),
        Reply::Failed => Step::Exit(1),
    }
}

} // verus!
