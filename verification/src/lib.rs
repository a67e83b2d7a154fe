//! An in-memory key/value store that speaks RESP, reads and writes binary
//! snapshots, keeps append-only streams and replicates writes from a master
//! to its replicas. Every function here carries a contract checked by Verus;
//! sockets, timers and tasks live outside this crate and hand it plain values.

pub mod cmd;
pub mod command;
pub mod compression;
pub mod config;
pub mod constants;
pub mod data_entry;
pub mod decimal;
pub mod endian;
pub mod engine_laws;
pub mod parser;
pub mod rdb;
pub mod redis;
pub mod replication;
pub mod resp;
pub mod server;
pub mod slave_meta;
pub mod snapshot_laws;
pub mod stream_entry;
pub mod utils;
pub mod wire_laws;
