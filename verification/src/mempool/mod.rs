//! Transactions that are in the mempool and not yet in a block.

pub mod balances;
pub mod cache;
pub mod conservation;
pub mod decipher;
pub mod edict_laws;
pub mod edicts;
pub mod entry_laws;
pub mod input_balances;
pub mod input_laws;
pub mod ledger;
pub mod ledger_entry;
pub mod ledger_laws;
pub mod measures;
pub mod movement;
pub mod movement_laws;
pub mod order_laws;
pub mod parse;
pub mod scan;
pub mod scan_run;
pub mod sql_laws;
pub mod table;
pub mod table_laws;
pub mod walk;
pub mod watch;
pub mod watch_laws;
pub mod watch_run;
