//! The sections of the configuration file.

use vstd::prelude::*;

verus! {

/// What is logged.
#[derive(Debug, Clone)]
pub struct LogConfigFile {
    pub runes_internals: Option<bool>,
    pub chainhook_internals: Option<bool>,
}

/// How the database is reached.
#[derive(Debug, Clone)]
pub struct PostgresConfigFile {
    pub database: Option<String>,
    pub host: Option<String>,
    pub port: Option<u16>,
    pub username: Option<String>,
    pub password: Option<String>,
}

/// How predicates are served.
#[derive(Debug, Clone)]
pub struct PredicatesApiConfigFile {
    pub http_port: Option<u16>,
    pub database_uri: Option<String>,
    pub display_logs: Option<bool>,
    pub disabled: Option<bool>,
}

/// The resources that the indexer may use.
#[derive(Debug, Clone)]
pub struct ResourcesConfigFile {
    pub lru_cache_size: Option<usize>,
}

} // verus!
