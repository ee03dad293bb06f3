//! The texts of the statements, whatever rows they are for.

use vstd::prelude::*;

use crate::db::balance::{insert_balance_changes_statement, select_balance_changes_statement};
use crate::db::ledger::insert_ledger_entries_statement;
use crate::db::models::db_balance_change::DbBalanceChange;
use crate::db::models::db_ledger_entry::DbLedgerEntry;
use crate::db::models::db_rune::DbRune;
use crate::db::models::db_supply_change::DbSupplyChange;
use crate::db::placeholders::rows_placeholders;
use crate::db::runes::{insert_runes_statement, rune_statement, SELECT_RUNE, SELECT_TOTAL_MINTS};
use crate::db::supply::{insert_supply_changes_statement, select_supply_changes_statement};
use crate::runes::RuneId;

verus! {

/// Ledger entries are inserted into the table of ledger entries, under the names of their
/// fields, in the order of their parameters.
pub proof fn ledger_entries_are_inserted_by_column(rows: Seq<DbLedgerEntry>)
    ensures
        insert_ledger_entries_statement(rows).sql
            == "INSERT INTO ledger\n                    \
            (rune_id, block_hash, block_height, tx_index, event_index, tx_id, output, \
            address, receiver_address, amount,\n                    \
            operation, timestamp)\n                    \
            VALUES "@
            + rows_placeholders(rows.len(), 12, ","@),
{
}

/// Runes are inserted into the table of runes, under the names of their fields, in the order
/// of their parameters, and those whose name is known are passed over.
pub proof fn runes_are_inserted_by_column(rows: Seq<DbRune>)
    ensures
        insert_runes_statement(rows).sql
            == "INSERT INTO runes\n                    \
            (id, number, name, spaced_name, block_hash, block_height, tx_index, tx_id, \
            divisibility, premine, symbol,\n                    \
            terms_amount, terms_cap, terms_height_start, terms_height_end, \
            terms_offset_start, terms_offset_end, turbo,\n                    \
            timestamp) VALUES "@
            + rows_placeholders(rows.len(), 19, ","@)
            + "\n                    \
            ON CONFLICT (name) DO NOTHING"@,
{
}

/// Supply records are inserted into their table, under the names of their fields, in the order
/// of their parameters, and take the place of a record of the same rune and height in every
/// number.
pub proof fn supply_records_are_inserted_by_column(rows: Seq<DbSupplyChange>)
    ensures
        insert_supply_changes_statement(rows).sql
            == "INSERT INTO supply_changes (rune_id, block_height, minted, total_mints, burned, \
            total_burns, total_operations)\n                 \
            VALUES "@
            + rows_placeholders(rows.len(), 7, ", "@)
            + " \n                 \
            ON CONFLICT (rune_id, block_height) DO UPDATE SET\n                     \
            minted = EXCLUDED.minted,\n                     \
            total_mints = EXCLUDED.total_mints,\n                     \
            burned = EXCLUDED.burned,\n                     \
            total_burns = EXCLUDED.total_burns,\n                     \
            total_operations = EXCLUDED.total_operations"@,
{
}

/// Balance records are inserted into their table, under the names of their fields, in the
/// order of their parameters, and take the place of a record of the same rune, height and
/// address in every number.
pub proof fn balance_records_are_inserted_by_column(rows: Seq<DbBalanceChange>)
    ensures
        insert_balance_changes_statement(rows).sql
            == "INSERT INTO balance_changes \n                        \
            (rune_id, block_height, address, balance, \
            total_operations)\n                    \
            VALUES "@
            + rows_placeholders(rows.len(), 5, ", "@)
            + "\n                    \
            ON CONFLICT (rune_id, block_height, address) DO UPDATE \
            SET\n                        \
            balance = EXCLUDED.balance,\n                        \
            total_operations = EXCLUDED.total_operations"@,
{
}

/// The supply records that are read are the latest ones of the runes that are asked for.
pub proof fn latest_supply_records_are_read(rows: Seq<DbSupplyChange>)
    ensures
        select_supply_changes_statement(rows).sql
            == "SELECT * FROM (\n                \
            SELECT DISTINCT ON (rune_id) *\n                \
            FROM supply_changes\n                \
            WHERE rune_id = ANY($1::text[])\n                \
            ORDER BY rune_id, block_height DESC\n            \
            ) sub"@,
{
}

/// The balance records that are read are the latest ones of the runes and addresses that are
/// asked for.
pub proof fn latest_balance_records_are_read(rows: Seq<DbBalanceChange>)
    ensures
        select_balance_changes_statement(rows).sql
            == "SELECT DISTINCT ON (rune_id, address) *\n             \
            FROM balance_changes\n             \
            WHERE (rune_id, address) IN (\n                 \
            SELECT rune_id, address \n                 \
            FROM unnest($1::text[], $2::text[]) AS t(rune_id, address)\n             \
            )\n             \
            ORDER BY rune_id, address, block_height DESC"@,
{
}

/// A rune is read by its id, and its mints from the latest of its supply records.
pub proof fn runes_and_mints_are_read_by_id(id: RuneId)
    ensures
        rune_statement(SELECT_RUNE@, id).sql
            == "SELECT * FROM runes WHERE id = $1"@,
        rune_statement(SELECT_TOTAL_MINTS@, id).sql
            == "SELECT total_mints FROM supply_changes WHERE rune_id = $1 ORDER BY block_height \
            DESC LIMIT 1"@,
{
}

} // verus!
