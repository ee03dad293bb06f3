//! The parameters of the statements that insert rows are the fields of the rows.

use vstd::prelude::*;

use crate::db::balance::{
    balance_change_columns, insert_balance_changes_statement, select_balance_changes_statement,
};
use crate::db::ledger::{insert_ledger_entries_statement, ledger_entry_columns};
use crate::db::models::db_balance_change::DbBalanceChange;
use crate::db::models::db_ledger_entry::DbLedgerEntry;
use crate::db::models::db_rune::DbRune;
use crate::db::models::db_supply_change::DbSupplyChange;
use crate::db::runes::{insert_runes_statement, rune_columns};
use crate::db::statement::{
    parameters_match_placeholders, PgParam, PgParamView, Statement,
};
use crate::db::supply::{
    insert_supply_changes_statement, select_supply_changes_statement, supply_change_columns,
};

verus! {

/// A text that may be null as a parameter.
pub open spec fn nullable_text(text: Option<String>) -> PgParamView {
    match text {
        Some(some) => PgParamView::Text(Some(some@)),
        None => PgParamView::Text(None),
    }
}

/// Each parameter of the statement that inserts ledger entries is the field of an entry that
/// its column is named after: column by column in an entry, and entry by entry.
pub proof fn ledger_parameters_are_the_fields(rows: Seq<DbLedgerEntry>, i: int)
    requires
        0 <= i < rows.len(),
    ensures
        ({
            let params = insert_ledger_entries_statement(rows).params;
            let row = rows[i];
            &&& params.len() == rows.len() * 12
            &&& params[i * 12] == PgParamView::Text(Some(row.rune_id@))
            &&& params[i * 12 + 1] == PgParamView::Text(Some(row.block_hash@))
            &&& params[i * 12 + 2] == PgParamView::NumericU64(Some(row.block_height))
            &&& params[i * 12 + 3] == PgParamView::BigIntU32(Some(row.tx_index))
            &&& params[i * 12 + 4] == PgParamView::BigIntU32(Some(row.event_index))
            &&& params[i * 12 + 5] == PgParamView::Text(Some(row.tx_id@))
            &&& params[i * 12 + 6] == PgParamView::BigIntU32(row.output)
            &&& params[i * 12 + 7] == nullable_text(row.address)
            &&& params[i * 12 + 8] == nullable_text(row.receiver_address)
            &&& params[i * 12 + 9] == PgParamView::TextU128(row.amount)
            &&& params[i * 12 + 10] == PgParamView::Operation(row.operation)
            &&& params[i * 12 + 11] == PgParamView::BigIntU32(Some(row.timestamp))
        }),
{
    let columns = |row: DbLedgerEntry| ledger_entry_columns(row);
    assert forall|k: int| 0 <= k < rows.len() implies columns(#[trigger] rows[k]).len()
        == 12 by {
    }
    parameters_match_placeholders(rows, columns, 12, i, 0);
    parameters_match_placeholders(rows, columns, 12, i, 1);
    parameters_match_placeholders(rows, columns, 12, i, 2);
    parameters_match_placeholders(rows, columns, 12, i, 3);
    parameters_match_placeholders(rows, columns, 12, i, 4);
    parameters_match_placeholders(rows, columns, 12, i, 5);
    parameters_match_placeholders(rows, columns, 12, i, 6);
    parameters_match_placeholders(rows, columns, 12, i, 7);
    parameters_match_placeholders(rows, columns, 12, i, 8);
    parameters_match_placeholders(rows, columns, 12, i, 9);
    parameters_match_placeholders(rows, columns, 12, i, 10);
    parameters_match_placeholders(rows, columns, 12, i, 11);
}

/// Each parameter of the statement that inserts runes is the field of a rune that its column
/// is named after: column by column in a rune, and rune by rune.
pub proof fn rune_parameters_are_the_fields(rows: Seq<DbRune>, i: int)
    requires
        0 <= i < rows.len(),
    ensures
        ({
            let params = insert_runes_statement(rows).params;
            let row = rows[i];
            &&& params.len() == rows.len() * 19
            &&& params[i * 19] == PgParamView::Text(Some(row.id@))
            &&& params[i * 19 + 1] == PgParamView::BigIntU32(Some(row.number))
            &&& params[i * 19 + 2] == PgParamView::Text(Some(row.name@))
            &&& params[i * 19 + 3] == PgParamView::Text(Some(row.spaced_name@))
            &&& params[i * 19 + 4] == PgParamView::Text(Some(row.block_hash@))
            &&& params[i * 19 + 5] == PgParamView::NumericU64(Some(row.block_height))
            &&& params[i * 19 + 6] == PgParamView::BigIntU32(Some(row.tx_index))
            &&& params[i * 19 + 7] == PgParamView::Text(Some(row.tx_id@))
            &&& params[i * 19 + 8] == PgParamView::SmallIntU8(row.divisibility)
            &&& params[i * 19 + 9] == PgParamView::TextU128(Some(row.premine))
            &&& params[i * 19 + 10] == PgParamView::Text(Some(row.symbol@))
            &&& params[i * 19 + 11] == PgParamView::TextU128(row.terms_amount)
            &&& params[i * 19 + 12] == PgParamView::TextU128(row.terms_cap)
            &&& params[i * 19 + 13] == PgParamView::NumericU64(row.terms_height_start)
            &&& params[i * 19 + 14] == PgParamView::NumericU64(row.terms_height_end)
            &&& params[i * 19 + 15] == PgParamView::NumericU64(row.terms_offset_start)
            &&& params[i * 19 + 16] == PgParamView::NumericU64(row.terms_offset_end)
            &&& params[i * 19 + 17] == PgParamView::Bool(row.turbo)
            &&& params[i * 19 + 18] == PgParamView::BigIntU32(Some(row.timestamp))
        }),
{
    let columns = |row: DbRune| rune_columns(row);
    assert forall|k: int| 0 <= k < rows.len() implies columns(#[trigger] rows[k]).len()
        == 19 by {
    }
    parameters_match_placeholders(rows, columns, 19, i, 0);
    parameters_match_placeholders(rows, columns, 19, i, 1);
    parameters_match_placeholders(rows, columns, 19, i, 2);
    parameters_match_placeholders(rows, columns, 19, i, 3);
    parameters_match_placeholders(rows, columns, 19, i, 4);
    parameters_match_placeholders(rows, columns, 19, i, 5);
    parameters_match_placeholders(rows, columns, 19, i, 6);
    parameters_match_placeholders(rows, columns, 19, i, 7);
    parameters_match_placeholders(rows, columns, 19, i, 8);
    parameters_match_placeholders(rows, columns, 19, i, 9);
    parameters_match_placeholders(rows, columns, 19, i, 10);
    parameters_match_placeholders(rows, columns, 19, i, 11);
    parameters_match_placeholders(rows, columns, 19, i, 12);
    parameters_match_placeholders(rows, columns, 19, i, 13);
    parameters_match_placeholders(rows, columns, 19, i, 14);
    parameters_match_placeholders(rows, columns, 19, i, 15);
    parameters_match_placeholders(rows, columns, 19, i, 16);
    parameters_match_placeholders(rows, columns, 19, i, 17);
    parameters_match_placeholders(rows, columns, 19, i, 18);
}

/// Each parameter of the statement that inserts supply records is the field of a record that
/// its column is named after: column by column in a record, and record by record.
pub proof fn supply_parameters_are_the_fields(rows: Seq<DbSupplyChange>, i: int)
    requires
        0 <= i < rows.len(),
    ensures
        ({
            let params = insert_supply_changes_statement(rows).params;
            let row = rows[i];
            &&& params.len() == rows.len() * 7
            &&& params[i * 7] == PgParamView::Text(Some(row.rune_id@))
            &&& params[i * 7 + 1] == PgParamView::NumericU64(Some(row.block_height))
            &&& params[i * 7 + 2] == PgParamView::TextU128(Some(row.minted))
            &&& params[i * 7 + 3] == PgParamView::TextU128(Some(row.total_mints))
            &&& params[i * 7 + 4] == PgParamView::TextU128(Some(row.burned))
            &&& params[i * 7 + 5] == PgParamView::TextU128(Some(row.total_burns))
            &&& params[i * 7 + 6] == PgParamView::TextU128(Some(row.total_operations))
        }),
{
    let columns = |row: DbSupplyChange| supply_change_columns(row);
    assert forall|k: int| 0 <= k < rows.len() implies columns(#[trigger] rows[k]).len()
        == 7 by {
    }
    parameters_match_placeholders(rows, columns, 7, i, 0);
    parameters_match_placeholders(rows, columns, 7, i, 1);
    parameters_match_placeholders(rows, columns, 7, i, 2);
    parameters_match_placeholders(rows, columns, 7, i, 3);
    parameters_match_placeholders(rows, columns, 7, i, 4);
    parameters_match_placeholders(rows, columns, 7, i, 5);
    parameters_match_placeholders(rows, columns, 7, i, 6);
}

/// Each parameter of the statement that inserts balance records is the field of a record that
/// its column is named after: column by column in a record, and record by record.
pub proof fn balance_parameters_are_the_fields(rows: Seq<DbBalanceChange>, i: int)
    requires
        0 <= i < rows.len(),
    ensures
        ({
            let params = insert_balance_changes_statement(rows).params;
            let row = rows[i];
            &&& params.len() == rows.len() * 5
            &&& params[i * 5] == PgParamView::Text(Some(row.rune_id@))
            &&& params[i * 5 + 1] == PgParamView::NumericU64(Some(row.block_height))
            &&& params[i * 5 + 2] == PgParamView::Text(Some(row.address@))
            &&& params[i * 5 + 3] == PgParamView::TextU128(Some(row.balance))
            &&& params[i * 5 + 4] == PgParamView::BigInt(row.total_operations)
        }),
{
    let columns = |row: DbBalanceChange| balance_change_columns(row);
    assert forall|k: int| 0 <= k < rows.len() implies columns(#[trigger] rows[k]).len()
        == 5 by {
    }
    parameters_match_placeholders(rows, columns, 5, i, 0);
    parameters_match_placeholders(rows, columns, 5, i, 1);
    parameters_match_placeholders(rows, columns, 5, i, 2);
    parameters_match_placeholders(rows, columns, 5, i, 3);
    parameters_match_placeholders(rows, columns, 5, i, 4);
}

/// The statement that reads the supply records before a batch asks for the rune of every
/// change, in order.
pub proof fn supply_records_are_asked_for_by_rune(rows: Seq<DbSupplyChange>, i: int)
    requires
        0 <= i < rows.len(),
    ensures
        ({
            let params = select_supply_changes_statement(rows).params;
            &&& params.len() == 1
            &&& params[0] matches PgParamView::TextArray(runes) && runes.len() == rows.len()
                && runes[i] == rows[i].rune_id@
        }),
{
}

/// The statement that reads the balance records before a batch asks for the rune and the
/// address of every change, in order.
pub proof fn balance_records_are_asked_for_by_rune_and_address(
    rows: Seq<DbBalanceChange>,
    i: int,
)
    requires
        0 <= i < rows.len(),
    ensures
        ({
            let params = select_balance_changes_statement(rows).params;
            &&& params.len() == 2
            &&& params[0] matches PgParamView::TextArray(runes) && runes.len() == rows.len()
                && runes[i] == rows[i].rune_id@
            &&& params[1] matches PgParamView::TextArray(addresses) && addresses.len()
                == rows.len() && addresses[i] == rows[i].address@
        }),
{
}

/// A parameter shows the value that it holds.
pub proof fn parameter_shows_its_value(param: PgParam)
    ensures
        match param {
            PgParam::Text(Some(text)) => param@ == PgParamView::Text(Some(text@)),
            PgParam::Text(None) => param@ == PgParamView::Text(None),
            PgParam::TextArray(texts) => param@ matches PgParamView::TextArray(shown)
                && shown.len() == texts@.len() && forall|i: int|
                0 <= i < texts@.len() ==> #[trigger] shown[i] == texts@[i]@,
            PgParam::BigIntU32(value) => param@ == PgParamView::BigIntU32(value),
            PgParam::BigInt(value) => param@ == PgParamView::BigInt(value),
            PgParam::SmallIntU8(value) => param@ == PgParamView::SmallIntU8(value),
            PgParam::NumericU64(value) => param@ == PgParamView::NumericU64(value),
            PgParam::NumericU128(value) => param@ == PgParamView::NumericU128(value),
            PgParam::TextU128(value) => param@ == PgParamView::TextU128(value),
            PgParam::Bool(value) => param@ == PgParamView::Bool(value),
            PgParam::Operation(value) => param@ == PgParamView::Operation(value),
        },
{
}

/// A statement shows its text and every one of its parameters.
pub proof fn statement_shows_its_parameters(statement: Statement, i: int)
    requires
        0 <= i < statement.params@.len(),
    ensures
        statement@.sql == statement.sql@,
        statement@.params.len() == statement.params@.len(),
        statement@.params[i] == statement.params@[i]@,
{
}

} // verus!
