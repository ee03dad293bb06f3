//! Rune bookkeeping for a Bitcoin indexer: the ledger entries that a mempool
//! transaction gives rise to, the database statements that store them, and
//! the wire formats of the database columns.

pub mod chain;
pub mod config;
pub mod db;
pub mod decimal;
pub mod decimal_laws;
pub mod mempool;
pub mod runes;
