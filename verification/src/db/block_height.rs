//! The height up to which blocks are indexed, and rolling blocks back.

use vstd::prelude::*;

use crate::db::statement::{
    bare, bare_statement, PgParam, PgParamView, Statement, StatementView,
};
use crate::db::step::{CountReply, Progress, RowReply, Step, StepView};
use crate::db::types::pg_numeric_u64::PgNumericU64;

verus! {

pub const DELETE_BALANCE_CHANGES: &'static str = "DELETE FROM balance_changes WHERE block_height = $1";

pub const DELETE_SUPPLY_CHANGES: &'static str = "DELETE FROM supply_changes WHERE block_height = $1";

pub const DELETE_LEDGER_ENTRIES: &'static str = "DELETE FROM ledger WHERE block_height = $1";

pub const DELETE_RUNES: &'static str = "DELETE FROM runes WHERE block_height = $1";

pub const SELECT_BLOCK_HEIGHT: &'static str = "SELECT MAX(block_height) AS max FROM ledger";

pub const SELECT_LAST_BLOCK_HEIGHT: &'static str =
    "SELECT last_scanned_height as height FROM block_height";

pub const UPDATE_BLOCK_HEIGHT: &'static str = "UPDATE block_height SET last_scanned_height = $1;";

/// A statement with a height as its only parameter.
pub open spec fn height_statement(sql: Seq<char>, height: u64) -> StatementView {
    StatementView { sql, params: seq![PgParamView::NumericU64(Some(PgNumericU64(height)))] }
}

fn with_height(sql: &str, height: u64) -> (r: Statement)
    ensures
        r@ == height_statement(sql@, height),
{
    let mut params: Vec<PgParam> = Vec::new();
    params.push(PgParam::NumericU64(Some(PgNumericU64(height))));
    let statement = Statement { sql: sql.to_owned(), params };
    assert(statement@.params =~= height_statement(sql@, height).params);
    statement
}

/// The tables that a block is deleted from, in order: the statement for each, and
/// the message where it is refused.
pub open spec fn roll_back_tables() -> Seq<(Seq<char>, Seq<char>)> {
    seq![
        (DELETE_BALANCE_CHANGES@, "error rolling back balance_changes"@),
        (DELETE_SUPPLY_CHANGES@, "error rolling back supply_changes"@),
        (DELETE_LEDGER_ENTRIES@, "error rolling back ledger"@),
        (DELETE_RUNES@, "error rolling back runes"@),
    ]
}

/// Deletes everything that a block brought in. `done` is the number of tables that
/// it was deleted from.
pub fn pg_roll_back_block(block_height: u64, done: usize, last: Progress) -> (r: Step<()>)
    requires
        last == Progress::Failed ==> done < 4,
    ensures
        r@ == if last == Progress::Failed {
            StepView::Abort(roll_back_tables()[done as int].1)
        } else if done < roll_back_tables().len() {
            StepView::Run(height_statement(roll_back_tables()[done as int].0, block_height))
        } else {
            StepView::Finish(())
        },
{
    let (sql, message): (&'static str, &'static str) = match done {
        0 => (DELETE_BALANCE_CHANGES, "error rolling back balance_changes"),
        1 => (DELETE_SUPPLY_CHANGES, "error rolling back supply_changes"),
        2 => (DELETE_LEDGER_ENTRIES, "error rolling back ledger"),
        3 => (DELETE_RUNES, "error rolling back runes"),
        _ => {
            return Step::Finish(());
        },
    };
    if last == Progress::Failed {
        Step::Abort(message)
    } else {
        Step::Run(with_height(sql, block_height))
    }
}

/// The height in a row, where there is a row and it is not null.
pub open spec fn height_in(row: Option<Option<PgNumericU64>>) -> Option<u64> {
    match row {
        Some(Some(height)) => Some(height.0),
        _ => None,
    }
}

fn read_height(sql: &str, reply: RowReply<Option<PgNumericU64>>) -> (r: Step<Option<u64>>)
    ensures
        r@ == match reply {
            RowReply::Begun => StepView::Run(bare_statement(sql@)),
            RowReply::Row(row) => StepView::Finish(height_in(row)),
            RowReply::Failed => StepView::Abort("error getting max block height"@),
        },
{
    match reply {
        RowReply::Begun => Step::Run(bare(sql)),
        RowReply::Row(Some(Some(height))) => Step::Finish(Some(height.0)),
        RowReply::Row(_) => Step::Finish(None),
        RowReply::Failed => Step::Abort("error getting max block height"),
    }
}

/// Reads the height of the last block with a ledger entry, where there is one.
pub fn pg_get_block_height(reply: RowReply<Option<PgNumericU64>>) -> (r: Step<Option<u64>>)
    ensures
        r@ == match reply {
            RowReply::Begun => StepView::Run(bare_statement(SELECT_BLOCK_HEIGHT@)),
            RowReply::Row(row) => StepView::Finish(height_in(row)),
            RowReply::Failed => StepView::Abort("error getting max block height"@),
        },
{
    read_height(SELECT_BLOCK_HEIGHT, reply)
}

/// Reads the height of the last block that was scanned, where there is one.
pub fn pg_get_last_block_height(reply: RowReply<Option<PgNumericU64>>) -> (r: Step<Option<u64>>)
    ensures
        r@ == match reply {
            RowReply::Begun => StepView::Run(bare_statement(SELECT_LAST_BLOCK_HEIGHT@)),
            RowReply::Row(row) => StepView::Finish(height_in(row)),
            RowReply::Failed => StepView::Abort("error getting max block height"@),
        },
{
    read_height(SELECT_LAST_BLOCK_HEIGHT, reply)
}

/// Sets the height of the last block that was scanned. A refusal by the database
/// is passed over; an update that returns rows is not.
pub fn pg_update_block_height(new_block_height: u64, reply: CountReply) -> (r: Step<()>)
    ensures
        r@ == match reply {
            CountReply::Begun => StepView::Run(
                height_statement(UPDATE_BLOCK_HEIGHT@, new_block_height),
            ),
            CountReply::Rows(count) => if count == 0 {
                StepView::Finish(())
            } else {
                StepView::Abort("assertion `left == right` failed"@)
            },
            CountReply::Failed => StepView::Finish(()),
        },
{
    match reply {
        CountReply::Begun => Step::Run(with_height(UPDATE_BLOCK_HEIGHT, new_block_height)),
        CountReply::Rows(count) => if count == 0 {
            Step::Finish(())
        } else {
            Step::Abort("assertion `left == right` failed")
        },
        CountReply::Failed => Step::Finish(()),
    }
}

} // verus!
