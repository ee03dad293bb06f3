//! The table of runes.

use vstd::prelude::*;

use crate::db::models::db_rune::DbRune;
use crate::db::placeholders::{push_rows_placeholders, rows_placeholders};
use crate::db::statement::{
    bare, bare_statement, flattened, params_view, PgParam, PgParamView, Statement, StatementView,
};
use crate::db::step::{
    batch_range, batch_rows, insert_step, Progress, RowReply, Step, StepView,
};
use crate::db::types::pg_bigint_u32::PgBigIntU32;
use crate::db::types::pg_text_u128::PgTextU128;
use crate::runes::{rune_id_text, RuneId};

verus! {

pub const INSERT_RUNES: &'static str = "INSERT INTO runes
                    (id, number, name, spaced_name, block_hash, block_height, tx_index, tx_id, divisibility, premine, symbol,
                    terms_amount, terms_cap, terms_height_start, terms_height_end, terms_offset_start, terms_offset_end, turbo,
                    timestamp) VALUES ";

pub const IGNORE_KNOWN_RUNES: &'static str = "
                    ON CONFLICT (name) DO NOTHING";

pub const SELECT_MAX_RUNE_NUMBER: &'static str = "SELECT MAX(number) AS max FROM runes";

pub const SELECT_RUNE: &'static str = "SELECT * FROM runes WHERE id = $1";

pub const SELECT_TOTAL_MINTS: &'static str = "SELECT total_mints FROM supply_changes WHERE rune_id = $1 ORDER BY block_height DESC LIMIT 1";

/// The columns of a rune.
pub open spec fn rune_columns(row: DbRune) -> Seq<PgParamView> {
    seq![
        PgParamView::Text(Some(row.id@)),
        PgParamView::BigIntU32(Some(row.number)),
        PgParamView::Text(Some(row.name@)),
        PgParamView::Text(Some(row.spaced_name@)),
        PgParamView::Text(Some(row.block_hash@)),
        PgParamView::NumericU64(Some(row.block_height)),
        PgParamView::BigIntU32(Some(row.tx_index)),
        PgParamView::Text(Some(row.tx_id@)),
        PgParamView::SmallIntU8(row.divisibility),
        PgParamView::TextU128(Some(row.premine)),
        PgParamView::Text(Some(row.symbol@)),
        PgParamView::TextU128(row.terms_amount),
        PgParamView::TextU128(row.terms_cap),
        PgParamView::NumericU64(row.terms_height_start),
        PgParamView::NumericU64(row.terms_height_end),
        PgParamView::NumericU64(row.terms_offset_start),
        PgParamView::NumericU64(row.terms_offset_end),
        PgParamView::Bool(row.turbo),
        PgParamView::BigIntU32(Some(row.timestamp)),
    ]
}

/// The columns of several runes.
pub open spec fn runes_columns(rows: Seq<DbRune>) -> Seq<PgParamView> {
    flattened(rows, |row: DbRune| rune_columns(row))
}

/// The statement that inserts runes and passes over those whose name is known.
pub open spec fn insert_runes_statement(rows: Seq<DbRune>) -> StatementView {
    StatementView {
        sql: INSERT_RUNES@ + rows_placeholders(rows.len(), 19, ","@) + IGNORE_KNOWN_RUNES@,
        params: runes_columns(rows),
    }
}

fn push_rune(params: &mut Vec<PgParam>, row: &DbRune)
    ensures
        params_view(final(params)@) == params_view(old(params)@) + rune_columns(*row),
{
    params.push(PgParam::text(&row.id));
    params.push(PgParam::BigIntU32(Some(row.number)));
    params.push(PgParam::text(&row.name));
    params.push(PgParam::text(&row.spaced_name));
    params.push(PgParam::text(&row.block_hash));
    params.push(PgParam::NumericU64(Some(row.block_height)));
    params.push(PgParam::BigIntU32(Some(row.tx_index)));
    params.push(PgParam::text(&row.tx_id));
    params.push(PgParam::SmallIntU8(row.divisibility));
    params.push(PgParam::TextU128(Some(row.premine)));
    params.push(PgParam::text(&row.symbol));
    params.push(PgParam::TextU128(row.terms_amount));
    params.push(PgParam::TextU128(row.terms_cap));
    params.push(PgParam::NumericU64(row.terms_height_start));
    params.push(PgParam::NumericU64(row.terms_height_end));
    params.push(PgParam::NumericU64(row.terms_offset_start));
    params.push(PgParam::NumericU64(row.terms_offset_end));
    params.push(PgParam::Bool(row.turbo));
    params.push(PgParam::BigIntU32(Some(row.timestamp)));
    assert(params_view(params@) =~= params_view(old(params)@) + rune_columns(*row));
}

/// Inserts runes in batches. `batch` is the number of batches that were run.
pub fn pg_insert_runes(rows: &Vec<DbRune>, batch: usize, last: Progress) -> (r: Step<bool>)
    ensures
        r@ == insert_step(
            rows@,
            batch as nat,
            last,
            |rows: Seq<DbRune>| insert_runes_statement(rows),
        ),
{
    if last == Progress::Failed {
        return Step::Exit(1);
    }
    let (start, end): (usize, usize) = match batch_range(rows.len(), batch) {
        Some(range) => range,
        None => {
            return Step::Finish(true);
        },
    };
    let ghost chunk = batch_rows(rows@, batch as nat);
    let mut sql = INSERT_RUNES.to_owned();
    push_rows_placeholders(&mut sql, end - start, 19, ",");
    sql.append(IGNORE_KNOWN_RUNES);
    let mut params: Vec<PgParam> = Vec::new();
    let mut i: usize = start;
    assert(params_view(params@) =~= Seq::<PgParamView>::empty());
    while i < end
        invariant
            start <= i <= end <= rows.len(),
            chunk == rows@.subrange(start as int, end as int),
            params_view(params@) == runes_columns(chunk.take(i - start)),
        decreases end - i,
    {
        push_rune(&mut params, &rows[i]);
        assert(chunk.take(i + 1 - start).drop_last() =~= chunk.take(i - start));
        i += 1;
    }
    assert(chunk.take(chunk.len() as int) =~= chunk);
    Step::Run(Statement { sql, params })
}

/// Reads the greatest number of a rune, which is zero where no row comes back.
pub fn pg_get_max_rune_number(reply: RowReply<PgBigIntU32>) -> (r: Step<u32>)
    ensures
        r@ == match reply {
            RowReply::Begun => StepView::Run(bare_statement(SELECT_MAX_RUNE_NUMBER@)),
            RowReply::Row(Some(max)) => StepView::Finish(max.0),
            RowReply::Row(None) => StepView::Finish(0),
            RowReply::Failed => StepView::Abort("error getting max rune number"@),
        },
{
    match reply {
        RowReply::Begun => Step::Run(bare(SELECT_MAX_RUNE_NUMBER)),
        RowReply::Row(Some(max)) => Step::Finish(max.0),
        RowReply::Row(None) => Step::Finish(0),
        RowReply::Failed => Step::Abort("error getting max rune number"),
    }
}

/// A statement with the notation of a rune id as its only parameter.
pub open spec fn rune_statement(sql: Seq<char>, id: RuneId) -> StatementView {
    StatementView { sql, params: seq![PgParamView::Text(Some(rune_id_text(id)))] }
}

fn with_rune(sql: &str, id: &RuneId) -> (r: Statement)
    ensures
        r@ == rune_statement(sql@, *id),
{
    let mut params: Vec<PgParam> = Vec::new();
    params.push(PgParam::Text(Some(id.to_text())));
    let statement = Statement { sql: sql.to_owned(), params };
    assert(statement@.params =~= rune_statement(sql@, *id).params);
    statement
}

/// Reads a rune, where it is known. The process ends where the statement is
/// refused.
pub fn pg_get_rune_by_id(id: &RuneId, reply: RowReply<DbRune>) -> (r: Step<Option<DbRune>>)
    ensures
        r@ == match reply {
            RowReply::Begun => StepView::Run(rune_statement(SELECT_RUNE@, *id)),
            RowReply::Row(row) => StepView::Finish(row),
            RowReply::Failed => StepView::Exit(1),
        },
{
    match reply {
        RowReply::Begun => Step::Run(with_rune(SELECT_RUNE, id)),
        RowReply::Row(row) => Step::Finish(row),
        RowReply::Failed => Step::Exit(1),
    }
}

/// Reads how often a rune was minted, where it has a record. The process ends
/// where the statement is refused.
pub fn pg_get_rune_total_mints(id: &RuneId, reply: RowReply<PgTextU128>) -> (r: Step<Option<u128>>)
    ensures
        r@ == match reply {
            RowReply::Begun => StepView::Run(rune_statement(SELECT_TOTAL_MINTS@, *id)),
            RowReply::Row(Some(minted)) => StepView::Finish(Some(minted.0)),
            RowReply::Row(None) => StepView::Finish(None),
            RowReply::Failed => StepView::Exit(1),
        },
{
    match reply {
        RowReply::Begun => Step::Run(with_rune(SELECT_TOTAL_MINTS, id)),
        RowReply::Row(Some(minted)) => Step::Finish(Some(minted.0)),
        RowReply::Row(None) => Step::Finish(None),
        RowReply::Failed => Step::Exit(1),
    }
}

} // verus!
