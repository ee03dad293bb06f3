//! The table of mempool ledger entries.

use vstd::prelude::*;

use crate::db::placeholders::{
    placeholders, push_placeholders, push_rows_placeholders, rows_placeholders,
};
use crate::db::statement::{
    flattened, params_view, text_view, PgParam, PgParamView, Statement, StatementView,
};
use crate::db::step::{Progress, Step, StepView};
use crate::mempool::ledger_entry::DBMempoolLedgerEntry;

verus! {

pub const INSERT_MEMPOOL_LEDGER_ENTRIES: &'static str = "INSERT INTO mempool_ledger
                    (rune_id, event_index, tx_id, output, address, receiver_address, amount,
                    operation)
                    VALUES ";

pub const DELETE_MEMPOOL_LEDGER_ENTRIES: &'static str =
    "DELETE FROM mempool_ledger WHERE transaction_id IN (";

pub const SELECT_MEMPOOL_TX_IDS: &'static str = "SELECT tx_id FROM mempool_ledger;";

/// The columns of a mempool ledger entry.
pub open spec fn mempool_entry_columns(row: DBMempoolLedgerEntry) -> Seq<PgParamView> {
    seq![
        PgParamView::Text(Some(row.rune_id@)),
        PgParamView::BigIntU32(Some(row.event_index)),
        PgParamView::Text(Some(row.tx_id@)),
        PgParamView::BigIntU32(row.output),
        PgParamView::Text(text_view(row.address)),
        PgParamView::Text(text_view(row.receiver_address)),
        PgParamView::NumericU128(row.amount),
        PgParamView::Operation(row.operation),
    ]
}

/// The columns of several mempool ledger entries.
pub open spec fn mempool_entries_columns(rows: Seq<DBMempoolLedgerEntry>) -> Seq<PgParamView> {
    flattened(rows, |row: DBMempoolLedgerEntry| mempool_entry_columns(row))
}

/// The statement that inserts mempool ledger entries.
pub open spec fn insert_mempool_entries_statement(
    rows: Seq<DBMempoolLedgerEntry>,
) -> StatementView {
    StatementView {
        sql: INSERT_MEMPOOL_LEDGER_ENTRIES@ + rows_placeholders(rows.len(), 8, ","@),
        params: mempool_entries_columns(rows),
    }
}

fn push_mempool_entry(params: &mut Vec<PgParam>, row: &DBMempoolLedgerEntry)
    ensures
        params_view(final(params)@) == params_view(old(params)@) + mempool_entry_columns(*row),
{
    params.push(PgParam::text(&row.rune_id));
    params.push(PgParam::BigIntU32(Some(row.event_index)));
    params.push(PgParam::text(&row.tx_id));
    params.push(PgParam::BigIntU32(row.output));
    params.push(PgParam::optional_text(&row.address));
    params.push(PgParam::optional_text(&row.receiver_address));
    params.push(PgParam::NumericU128(row.amount));
    params.push(PgParam::Operation(row.operation));
    assert(params_view(params@) =~= params_view(old(params)@) + mempool_entry_columns(*row));
}

/// Inserts mempool ledger entries in one statement, and tells whether there were
/// any. The process ends where the statement is refused.
pub fn pg_insert_mempool_ledger_entries(
    rows: &Vec<DBMempoolLedgerEntry>,
    last: Progress,
) -> (r: Step<bool>)
    ensures
        r@ == if rows@.len() == 0 {
            StepView::Finish(false)
        } else {
            match last {
                Progress::Begun => StepView::Run(insert_mempool_entries_statement(rows@)),
                Progress::Succeeded => StepView::Finish(true),
                Progress::Failed => StepView::Exit(1),
            }
        },
{
    if rows.len() == 0 {
        return Step::Finish(false);
    }
    match last {
        Progress::Succeeded => Step::Finish(true),
        Progress::Failed => Step::Exit(1),
        Progress::Begun => {
            let mut sql = INSERT_MEMPOOL_LEDGER_ENTRIES.to_owned();
            push_rows_placeholders(&mut sql, rows.len(), 8, ",");
            let mut params: Vec<PgParam> = Vec::new();
            let mut i: usize = 0;
            assert(params_view(params@) =~= Seq::<PgParamView>::empty());
            while i < rows.len()
                invariant
                    i <= rows.len(),
                    params_view(params@) == mempool_entries_columns(rows@.take(i as int)),
                decreases rows.len() - i,
            {
                push_mempool_entry(&mut params, &rows[i]);
                assert(rows@.take(i + 1).drop_last() =~= rows@.take(i as int));
                i += 1;
            }
            assert(rows@.take(rows.len() as int) =~= rows@);
            Step::Run(Statement { sql, params })
        },
    }
}

/// Texts as parameters.
pub open spec fn text_params(texts: Seq<String>) -> Seq<PgParamView> {
    texts.map_values(|text: String| PgParamView::Text(Some(text@)))
}

/// The statement that deletes the entries of transactions.
pub open spec fn remove_mempool_tx_statement(tx_ids: Seq<String>) -> StatementView {
    StatementView {
        sql: DELETE_MEMPOOL_LEDGER_ENTRIES@ + placeholders(1, tx_ids.len(), ","@) + ")"@,
        params: text_params(tx_ids),
    }
}

/// Deletes the entries of transactions. The process ends where the statement is
/// refused.
pub fn pg_remove_mempool_tx(tx_ids: &Vec<String>, last: Progress) -> (r: Step<()>)
    ensures
        r@ == match last {
            Progress::Begun => StepView::Run(remove_mempool_tx_statement(tx_ids@)),
            Progress::Succeeded => StepView::Finish(()),
            Progress::Failed => StepView::Exit(1),
        },
{
    match last {
        Progress::Succeeded => Step::Finish(()),
        Progress::Failed => Step::Exit(1),
        Progress::Begun => {
            let mut sql = DELETE_MEMPOOL_LEDGER_ENTRIES.to_owned();
            push_placeholders(&mut sql, 1, tx_ids.len(), ",");
            sql.append(")");
            let mut params: Vec<PgParam> = Vec::new();
            let mut i: usize = 0;
            while i < tx_ids.len()
                invariant
                    i <= tx_ids.len(),
                    params_view(params@) == text_params(tx_ids@.take(i as int)),
                decreases tx_ids.len() - i,
            {
                let ghost before = params@;
                params.push(PgParam::text(&tx_ids[i]));
                proof {
                    assert(params_view(params@) =~= params_view(before).push(params@.last()@));
                    assert(text_params(tx_ids@.take(i + 1)) =~= text_params(
                        tx_ids@.take(i as int),
                    ).push(PgParamView::Text(Some(tx_ids@[i as int]@))));
                }
                i += 1;
            }
            assert(tx_ids@.take(tx_ids.len() as int) =~= tx_ids@);
            Step::Run(Statement { sql, params })
        },
    }
}

} // verus!
