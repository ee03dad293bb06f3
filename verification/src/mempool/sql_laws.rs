//! The texts of the statements on the mempool ledger, whatever rows they are for.

use vstd::prelude::*;

use crate::db::placeholders::{placeholder, placeholders, rows_placeholders};
use crate::decimal::decimal;
use crate::mempool::decipher::SpentOutput;
use crate::mempool::input_balances::{
    input_placeholders, inputs_placeholders, select_input_balances_statement,
};
use crate::mempool::ledger_entry::DBMempoolLedgerEntry;
use crate::mempool::table::{insert_mempool_entries_statement, remove_mempool_tx_statement};

verus! {

/// Mempool ledger entries are inserted into their table, under the names of their fields, in
/// the order of their parameters.
pub proof fn mempool_entries_are_inserted_by_column(rows: Seq<DBMempoolLedgerEntry>)
    ensures
        insert_mempool_entries_statement(rows).sql
            == "INSERT INTO mempool_ledger\n                    \
            (rune_id, event_index, tx_id, output, address, receiver_address, \
            amount,\n                    \
            operation)\n                    \
            VALUES "@
            + rows_placeholders(rows.len(), 8, ","@),
{
}

/// Mempool ledger entries are deleted by the ids of their transactions.
pub proof fn mempool_entries_are_deleted_by_transaction(tx_ids: Seq<String>)
    ensures
        remove_mempool_tx_statement(tx_ids).sql
            == "DELETE FROM mempool_ledger WHERE transaction_id IN ("@
            + placeholders(1, tx_ids.len(), ","@) + ")"@,
{
}

/// What is read of the outputs that inputs spend is what they received: the index of the
/// input, the rune, the address and the amount.
pub proof fn received_balances_are_read(outputs: Seq<SpentOutput>)
    ensures
        select_input_balances_statement(outputs).sql
            == "WITH inputs (index, tx_id, output) AS (VALUES "@
            + inputs_placeholders(outputs.len())
            + ")\n                \
            SELECT i.index, l.rune_id, l.address, l.amount\n                \
            FROM ledger AS l\n                \
            INNER JOIN inputs AS i USING (tx_id, output)\n                \
            WHERE l.operation = 'receive'"@,
{
}

/// An input takes three numbers, after those of the inputs before it: its index, the
/// transaction that it spends from and the output that it spends.
pub proof fn inputs_are_numbered_in_order(inputs: nat)
    requires
        inputs > 0,
    ensures
        inputs_placeholders(inputs + 1) == inputs_placeholders(inputs) + ","@ + "($"@ + decimal(
            3 * inputs + 1,
        ) + "::bigint,$"@ + decimal(3 * inputs + 2) + ",$"@ + decimal(3 * inputs + 3)
            + "::bigint)"@,
        inputs_placeholders(0) == Seq::<char>::empty(),
        inputs_placeholders(1) == "($"@ + decimal(1) + "::bigint,$"@ + decimal(2) + ",$"@
            + decimal(3) + "::bigint)"@,
{
    lemma_input_placeholders(0);
    lemma_input_placeholders(inputs);
    assert(inputs_placeholders(inputs + 1) =~= inputs_placeholders(inputs) + ","@ + "($"@
        + decimal(3 * inputs + 1) + "::bigint,$"@ + decimal(3 * inputs + 2) + ",$"@ + decimal(
        3 * inputs + 3,
    ) + "::bigint)"@);
}

proof fn lemma_input_placeholders(input: nat)
    ensures
        input_placeholders(input) == "($"@ + decimal(3 * input + 1) + "::bigint,$"@ + decimal(
            3 * input + 2,
        ) + ",$"@ + decimal(3 * input + 3) + "::bigint)"@,
{
    reveal_strlit("(");
    reveal_strlit("$");
    reveal_strlit("($");
    reveal_strlit(",");
    reveal_strlit(",$");
    reveal_strlit("::bigint,");
    reveal_strlit("::bigint,$");
    assert("($"@ =~= "("@ + "$"@);
    assert(",$"@ =~= ","@ + "$"@);
    assert("::bigint,$"@ =~= "::bigint,"@ + "$"@);
    assert(placeholder(3 * input + 1) == "$"@ + decimal(3 * input + 1));
    assert(input_placeholders(input) =~= "($"@ + decimal(3 * input + 1) + "::bigint,$"@ + decimal(
        3 * input + 2,
    ) + ",$"@ + decimal(3 * input + 3) + "::bigint)"@);
}

} // verus!
