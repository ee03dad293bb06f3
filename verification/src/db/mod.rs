//! What the indexer keeps in Postgres.

pub mod balance;
pub mod block_height;
pub mod connect;
pub mod keyed;
pub mod ledger;
pub mod merge_laws;
pub mod models;
pub mod placeholders;
pub mod runes;
pub mod sql_laws;
pub mod statement;
pub mod step;
pub mod step_laws;
pub mod supply;
pub mod table_laws;
pub mod types;
