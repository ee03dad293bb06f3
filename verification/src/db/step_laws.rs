//! What the steps of a piece of work on the database come to.

use vstd::prelude::*;

use crate::db::block_height::{height_in, height_statement, roll_back_tables};
use crate::db::placeholders::{placeholder, placeholders, row_placeholders, rows_placeholders};
use crate::db::runes::rune_statement;
use crate::db::statement::{PgParamView, StatementView};
use crate::db::step::{
    batch_rows, insert_step, merge_step, MergeReply, Progress, Step, StepView,
};
use crate::db::types::pg_numeric_u64::PgNumericU64;
use crate::decimal::decimal;
use crate::runes::{rune_id_reads_back, rune_id_value, RuneId};

verus! {

/// Whether a batch holds the rows from a place on: 500 of them, or all where fewer are left.
pub open spec fn holds_rows_from<R>(batch: Seq<R>, rows: Seq<R>, start: int) -> bool {
    &&& 0 < batch.len() <= 500
    &&& start + batch.len() <= rows.len()
    &&& batch.len() < 500 ==> start + batch.len() == rows.len()
    &&& forall|k: int| 0 <= k < batch.len() ==> #[trigger] batch[k] == rows[start + k]
}

/// Rows are inserted 500 at a time and in order. As long as nothing was refused and rows are
/// left, the next step is the statement for the next of them, and when none is left, the
/// work is done; a refusal ends the process.
pub proof fn rows_are_inserted_in_order<R>(
    rows: Seq<R>,
    batch: nat,
    last: Progress,
    statement: spec_fn(Seq<R>) -> StatementView,
)
    ensures
        ({
            let step = insert_step(rows, batch, last, statement);
            &&& last == Progress::Failed ==> step == StepView::<bool>::Exit(1)
            &&& last != Progress::Failed && 500 * batch < rows.len() ==> exists|chunk: Seq<R>|
                #[trigger] holds_rows_from(chunk, rows, 500 * batch as int) && step
                    == StepView::<bool>::Run(statement(chunk))
            &&& last != Progress::Failed && rows.len() <= 500 * batch ==> step
                == StepView::<bool>::Finish(true)
        }),
{
    if 500 * batch < rows.len() {
        assert(holds_rows_from(batch_rows(rows, batch), rows, 500 * batch as int));
    }
}

/// Rows are merged 500 at a time and in order: the records before some rows are read, and
/// then the records after the same rows inserted. Where the reading is refused, its error is
/// the result; where the inserting is, the process ends.
pub proof fn rows_are_merged_in_order<R>(
    rows: Seq<R>,
    batch: nat,
    previous: Vec<R>,
    select: spec_fn(Seq<R>) -> StatementView,
    insert: spec_fn(Seq<R>, Seq<R>) -> StatementView,
)
    ensures
        500 * batch < rows.len() ==> exists|chunk: Seq<R>|
            {
                &&& #[trigger] holds_rows_from(chunk, rows, 500 * batch as int)
                &&& merge_step(rows, batch, MergeReply::Begun, select, insert) == StepView::<
                    bool,
                >::Run(select(chunk))
                &&& merge_step(rows, batch, MergeReply::Inserted, select, insert) == StepView::<
                    bool,
                >::Run(select(chunk))
                &&& merge_step(rows, batch, MergeReply::Previous(previous), select, insert)
                    == StepView::<bool>::Run(insert(chunk, previous@))
            },
        rows.len() <= 500 * batch ==> {
            &&& merge_step(rows, batch, MergeReply::Begun, select, insert) == StepView::<
                bool,
            >::Finish(true)
            &&& merge_step(rows, batch, MergeReply::Inserted, select, insert) == StepView::<
                bool,
            >::Finish(true)
        },
        merge_step(rows, batch, MergeReply::ReadFailed, select, insert) == StepView::<bool>::Fail,
        merge_step(rows, batch, MergeReply::InsertFailed, select, insert) == StepView::<
            bool,
        >::Exit(1),
{
    if 500 * batch < rows.len() {
        assert(holds_rows_from(batch_rows(rows, batch), rows, 500 * batch as int));
    }
}

/// A step shows what is to be done.
pub proof fn step_shows_what_is_to_be_done<T>(step: Step<T>)
    ensures
        match step {
            Step::Run(statement) => step@ == StepView::<T>::Run(statement@),
            Step::Finish(result) => step@ == StepView::Finish(result),
            Step::Fail => step@ == StepView::<T>::Fail,
            Step::Exit(status) => step@ == StepView::<T>::Exit(status),
            Step::Abort(message) => step@ == StepView::<T>::Abort(message@),
        },
{
}

/// One placeholder is a dollar sign and the number of its parameter, and the placeholders of
/// more parameters are those of the first ones, a separator, and those of the others.
pub proof fn placeholders_are_numbered_in_order(
    first: nat,
    a: nat,
    b: nat,
    separator: Seq<char>,
)
    requires
        a > 0,
        b > 0,
    ensures
        placeholders(first, 0, separator) == Seq::<char>::empty(),
        placeholders(first, 1, separator) == seq!['$'] + decimal(first),
        placeholders(first, a + b, separator) == placeholders(first, a, separator) + separator
            + placeholders(first + a, b, separator),
    decreases b,
{
    reveal_strlit("$");
    assert(placeholder(first) =~= seq!['$'] + decimal(first));
    if b > 1 {
        placeholders_are_numbered_in_order(first, a, (b - 1) as nat, separator);
        assert(placeholders(first, a + b, separator) =~= placeholders(first, a, separator)
            + separator + placeholders(first + a, b, separator));
    }
}

/// The placeholders of one row stand in brackets, and one more row takes the numbers after
/// those of the rows before it.
pub proof fn rows_are_numbered_in_order(rows: nat, columns: nat, separator: Seq<char>)
    requires
        rows > 0,
    ensures
        rows_placeholders(0, columns, separator) == Seq::<char>::empty(),
        rows_placeholders(1, columns, separator) == seq!['('] + placeholders(1, columns, separator)
            + seq![')'],
        rows_placeholders(rows + 1, columns, separator) == rows_placeholders(
            rows,
            columns,
            separator,
        ) + separator + seq!['('] + placeholders(rows * columns + 1, columns, separator)
            + seq![')'],
{
    reveal_strlit("(");
    reveal_strlit(")");
    assert(0 * columns == 0) by (nonlinear_arith);
    assert(row_placeholders(0, columns, separator) =~= seq!['('] + placeholders(
        1,
        columns,
        separator,
    ) + seq![')']);
    assert(rows_placeholders(rows + 1, columns, separator) =~= rows_placeholders(
        rows,
        columns,
        separator,
    ) + separator + seq!['('] + placeholders(rows * columns + 1, columns, separator) + seq![')']);
}

/// A height that is written is read back, for every height, and no height is read where
/// there is no row or the row holds none.
pub proof fn height_reads_back(sql: Seq<char>, height: u64)
    ensures
        height_statement(sql, height).sql == sql,
        height_statement(sql, height).params.len() == 1,
        height_statement(sql, height).params[0] matches PgParamView::NumericU64(stored)
            && height_in(Some(stored)) == Some(height),
        height_in(Some(None)) is None,
        height_in(None) is None,
{
}

/// A block is rolled back table by table, and no table twice: every statement deletes by the
/// height of the block alone.
pub proof fn block_is_rolled_back_by_its_height(height: u64, i: int, j: int)
    requires
        0 <= i < 4,
        0 <= j < 4,
        i != j,
    ensures
        roll_back_tables().len() == 4,
        roll_back_tables()[i].0 != roll_back_tables()[j].0,
        height_statement(roll_back_tables()[i].0, height).params == seq![
            PgParamView::NumericU64(Some(PgNumericU64(height))),
        ],
{
    reveal_strlit("DELETE FROM balance_changes WHERE block_height = $1");
    reveal_strlit("DELETE FROM supply_changes WHERE block_height = $1");
    reveal_strlit("DELETE FROM ledger WHERE block_height = $1");
    reveal_strlit("DELETE FROM runes WHERE block_height = $1");
    assert("DELETE FROM balance_changes WHERE block_height = $1"@[12] == 'b');
    assert("DELETE FROM supply_changes WHERE block_height = $1"@[12] == 's');
    assert("DELETE FROM ledger WHERE block_height = $1"@[12] == 'l');
    assert("DELETE FROM runes WHERE block_height = $1"@[12] == 'r');
}

/// A rune is asked for by the notation of its id, which denotes that rune and no other.
pub proof fn rune_is_asked_for_by_its_id(sql: Seq<char>, id: RuneId)
    ensures
        rune_statement(sql, id).sql == sql,
        rune_statement(sql, id).params.len() == 1,
        rune_statement(sql, id).params[0] matches PgParamView::Text(Some(text)) && rune_id_value(
            text,
        ) == Some(id),
{
    rune_id_reads_back(id);
}

} // verus!
