//! The typed command set: one module per command, the shared parsing
//! helpers, and the dispatcher that tries each parser in a fixed order.

pub mod config_get;
pub mod echo;
pub mod executor;
pub mod get;
pub mod info_replication;
pub mod keys;
pub mod parser;
pub mod ping;
pub mod set;
