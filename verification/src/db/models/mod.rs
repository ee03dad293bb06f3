//! The rows of the database.

pub mod db_balance_change;
pub mod db_ledger_entry;
pub mod db_ledger_operation;
pub mod db_rune;
pub mod db_supply_change;
pub mod input_rune_balance;
