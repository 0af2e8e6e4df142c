//! Relay between SQL table functions and a compute daemon.

pub mod app;
pub mod audit;
pub mod audit_stdout;
pub mod error;
pub mod frame;
pub mod ipc;
pub mod keys;
pub mod kv_store;
pub mod name_table;
pub mod outside;
pub mod protocol;
pub mod read_cache;
pub mod registry;
pub mod relay;
pub mod row;
pub mod schema;
pub mod sorting;
pub mod storage;
pub mod storage_local;
pub mod storage_memory;
pub mod storage_walk;
pub mod table_function;
pub mod text;
pub mod write_coordinator;
