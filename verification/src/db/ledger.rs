//! The table of ledger entries.

use vstd::prelude::*;

use crate::db::models::db_ledger_entry::DbLedgerEntry;
use crate::db::placeholders::{push_rows_placeholders, rows_placeholders};
use crate::db::statement::{
    flattened, params_view, text_view, PgParam, PgParamView, Statement, StatementView,
};
use crate::db::step::{batch_range, batch_rows, insert_step, Progress, Step};

verus! {

pub const INSERT_LEDGER_ENTRIES: &'static str = "INSERT INTO ledger
                    (rune_id, block_hash, block_height, tx_index, event_index, tx_id, output, address, receiver_address, amount,
                    operation, timestamp)
                    VALUES ";

/// The columns of a ledger entry.
pub open spec fn ledger_entry_columns(row: DbLedgerEntry) -> Seq<PgParamView> {
    seq![
        PgParamView::Text(Some(row.rune_id@)),
        PgParamView::Text(Some(row.block_hash@)),
        PgParamView::NumericU64(Some(row.block_height)),
        PgParamView::BigIntU32(Some(row.tx_index)),
        PgParamView::BigIntU32(Some(row.event_index)),
        PgParamView::Text(Some(row.tx_id@)),
        PgParamView::BigIntU32(row.output),
        PgParamView::Text(text_view(row.address)),
        PgParamView::Text(text_view(row.receiver_address)),
        PgParamView::TextU128(row.amount),
        PgParamView::Operation(row.operation),
        PgParamView::BigIntU32(Some(row.timestamp)),
    ]
}

/// The columns of several ledger entries.
pub open spec fn ledger_entries_columns(rows: Seq<DbLedgerEntry>) -> Seq<PgParamView> {
    flattened(rows, |row: DbLedgerEntry| ledger_entry_columns(row))
}

/// The statement that inserts ledger entries.
pub open spec fn insert_ledger_entries_statement(rows: Seq<DbLedgerEntry>) -> StatementView {
    StatementView {
        sql: INSERT_LEDGER_ENTRIES@ + rows_placeholders(rows.len(), 12, ","@),
        params: ledger_entries_columns(rows),
    }
}

fn push_ledger_entry(params: &mut Vec<PgParam>, row: &DbLedgerEntry)
    ensures
        params_view(final(params)@) == params_view(old(params)@) + ledger_entry_columns(*row),
{
    params.push(PgParam::text(&row.rune_id));
    params.push(PgParam::text(&row.block_hash));
    params.push(PgParam::NumericU64(Some(row.block_height)));
    params.push(PgParam::BigIntU32(Some(row.tx_index)));
    params.push(PgParam::BigIntU32(Some(row.event_index)));
    params.push(PgParam::text(&row.tx_id));
    params.push(PgParam::BigIntU32(row.output));
    params.push(PgParam::optional_text(&row.address));
    params.push(PgParam::optional_text(&row.receiver_address));
    params.push(PgParam::TextU128(row.amount));
    params.push(PgParam::Operation(row.operation));
    params.push(PgParam::BigIntU32(Some(row.timestamp)));
    assert(params_view(params@) =~= params_view(old(params)@) + ledger_entry_columns(*row));
}

/// Inserts ledger entries in batches. `batch` is the number of batches that were
/// run.
pub fn pg_insert_ledger_entries(
    rows: &Vec<DbLedgerEntry>,
    batch: usize,
    last: Progress,
) -> (r: Step<bool>)
    ensures
        r@ == insert_step(
            rows@,
            batch as nat,
            last,
            |rows: Seq<DbLedgerEntry>| insert_ledger_entries_statement(rows),
        ),
{
    if last == Progress::Failed {
        return Step::Exit(1);
    }
    let (start, end): (usize, usize) = match batch_range(rows.len(), batch) {
        Some(range) => range,
        None => {
            return Step::Finish(true);
        },
    };
    let ghost chunk = batch_rows(rows@, batch as nat);
    let mut sql = INSERT_LEDGER_ENTRIES.to_owned();
    push_rows_placeholders(&mut sql, end - start, 12, ",");
    let mut params: Vec<PgParam> = Vec::new();
    let mut i: usize = start;
    assert(params_view(params@) =~= Seq::<PgParamView>::empty());
    while i < end
        invariant
            start <= i <= end <= rows.len(),
            chunk == rows@.subrange(start as int, end as int),
            params_view(params@) == ledger_entries_columns(chunk.take(i - start)),
        decreases end - i,
    {
        push_ledger_entry(&mut params, &rows[i]);
        assert(chunk.take(i + 1 - start).drop_last() =~= chunk.take(i - start));
        i += 1;
    }
    assert(chunk.take(chunk.len() as int) =~= chunk);
    Step::Run(Statement { sql, params })
}

} // verus!
