//! The settings of the indexer.

pub mod file;
