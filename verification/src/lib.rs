//! A single-node, in-memory key-value server library speaking a text-framed
//! request/response protocol.
//!
//! The library holds the verified core: the wire codec, the keyspace engine
//! with millisecond expiry, the snapshot loader, the command parsers and
//! executors, and the per-frame dispatch. Networking, clocks and file I/O
//! stay outside; callers hand in raw frame bytes and a wall-clock reading
//! and get raw reply bytes back.

pub mod cmd;
pub mod command;
pub mod config;
pub mod repository;
pub mod resp;
pub mod runner;
pub mod snapshot;
pub mod text;
