//! The parameters of the statements on the mempool ledger are the fields of its entries.

use vstd::prelude::*;

use crate::db::statement::{parameters_match_placeholders, PgParamView};
use crate::db::table_laws::nullable_text;
use crate::db::types::pg_bigint_u32::PgBigIntU32;
use crate::mempool::decipher::SpentOutput;
use crate::mempool::input_balances::{input_columns, select_input_balances_statement};
use crate::mempool::ledger_entry::DBMempoolLedgerEntry;
use crate::mempool::table::{
    insert_mempool_entries_statement, mempool_entry_columns, remove_mempool_tx_statement,
};

verus! {

/// Each parameter of the statement that inserts mempool ledger entries is the field of an
/// entry that its column is named after: column by column in an entry, and entry by entry.
pub proof fn mempool_parameters_are_the_fields(rows: Seq<DBMempoolLedgerEntry>, i: int)
    requires
        0 <= i < rows.len(),
    ensures
        ({
            let params = insert_mempool_entries_statement(rows).params;
            let row = rows[i];
            &&& params.len() == rows.len() * 8
            &&& params[i * 8] == PgParamView::Text(Some(row.rune_id@))
            &&& params[i * 8 + 1] == PgParamView::BigIntU32(Some(row.event_index))
            &&& params[i * 8 + 2] == PgParamView::Text(Some(row.tx_id@))
            &&& params[i * 8 + 3] == PgParamView::BigIntU32(row.output)
            &&& params[i * 8 + 4] == nullable_text(row.address)
            &&& params[i * 8 + 5] == nullable_text(row.receiver_address)
            &&& params[i * 8 + 6] == PgParamView::NumericU128(row.amount)
            &&& params[i * 8 + 7] == PgParamView::Operation(row.operation)
        }),
{
    let columns = |row: DBMempoolLedgerEntry| mempool_entry_columns(row);
    assert forall|k: int| 0 <= k < rows.len() implies columns(#[trigger] rows[k]).len()
        == 8 by {
    }
    parameters_match_placeholders(rows, columns, 8, i, 0);
    parameters_match_placeholders(rows, columns, 8, i, 1);
    parameters_match_placeholders(rows, columns, 8, i, 2);
    parameters_match_placeholders(rows, columns, 8, i, 3);
    parameters_match_placeholders(rows, columns, 8, i, 4);
    parameters_match_placeholders(rows, columns, 8, i, 5);
    parameters_match_placeholders(rows, columns, 8, i, 6);
    parameters_match_placeholders(rows, columns, 8, i, 7);
}

/// Whether two optional texts are the same.
pub open spec fn same_optional_text(a: Option<String>, b: Option<String>) -> bool {
    match (a, b) {
        (Some(x), Some(y)) => x@ == y@,
        (None, None) => true,
        _ => false,
    }
}

/// The parameters determine the entries: where two lists of entries are inserted with the
/// same parameters, they are as long, and every two entries agree in every field.
pub proof fn mempool_parameters_determine_the_entries(
    a: Seq<DBMempoolLedgerEntry>,
    b: Seq<DBMempoolLedgerEntry>,
    i: int,
)
    requires
        insert_mempool_entries_statement(a).params == insert_mempool_entries_statement(b).params,
        0 <= i < a.len(),
    ensures
        a.len() == b.len(),
        a[i].rune_id@ == b[i].rune_id@,
        a[i].event_index == b[i].event_index,
        a[i].tx_id@ == b[i].tx_id@,
        a[i].output == b[i].output,
        same_optional_text(a[i].address, b[i].address),
        same_optional_text(a[i].receiver_address, b[i].receiver_address),
        a[i].amount == b[i].amount,
        a[i].operation == b[i].operation,
{
    mempool_parameters_are_the_fields(a, 0);
    if b.len() > 0 {
        mempool_parameters_are_the_fields(b, 0);
    }
    mempool_parameters_are_the_fields(a, i);
    mempool_parameters_are_the_fields(b, i);
}

/// Each parameter of the statement that reads what spent outputs received is the index of an
/// input, the transaction that it spends from or the output that it spends: input by input.
pub proof fn spent_output_parameters_are_the_fields(rows: Seq<SpentOutput>, i: int)
    requires
        0 <= i < rows.len(),
    ensures
        ({
            let params = select_input_balances_statement(rows).params;
            let row = rows[i];
            &&& params.len() == rows.len() * 3
            &&& params[i * 3] == PgParamView::BigIntU32(Some(PgBigIntU32(row.input_index)))
            &&& params[i * 3 + 1] == PgParamView::Text(Some(row.tx_id@))
            &&& params[i * 3 + 2] == PgParamView::BigIntU32(Some(PgBigIntU32(row.output)))
        }),
{
    let columns = |row: SpentOutput| input_columns(row);
    assert forall|k: int| 0 <= k < rows.len() implies columns(#[trigger] rows[k]).len()
        == 3 by {
    }
    parameters_match_placeholders(rows, columns, 3, i, 0);
    parameters_match_placeholders(rows, columns, 3, i, 1);
    parameters_match_placeholders(rows, columns, 3, i, 2);
}

/// The statement that deletes the entries of transactions names every transaction, in order.
pub proof fn removed_transactions_are_the_parameters(tx_ids: Seq<String>, i: int)
    requires
        0 <= i < tx_ids.len(),
    ensures
        remove_mempool_tx_statement(tx_ids).params.len() == tx_ids.len(),
        remove_mempool_tx_statement(tx_ids).params[i] == PgParamView::Text(Some(tx_ids[i]@)),
{
}

} // verus!
