//! Verified core of a MongoDB desktop client: the in-memory state of its
//! JSON-backed stores, the native-menu gating table, SSH host-key trust,
//! CSV reading and writing, field masking, SQL-migration helpers and the
//! small text transforms the commands share.

pub mod text;
pub mod menu;
pub mod error;
pub mod kv;
pub mod seqs;
pub mod collection_history;
pub mod folders;
pub mod default_queries;
pub mod commands;
pub mod export_watermarks;
pub mod keybindings;
pub mod node_tags;
pub mod history;
pub mod known_hosts;
pub mod value;
pub mod numbers;
pub mod operations;
