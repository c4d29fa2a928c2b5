//! The computing cores of the app's commands, free of connections and files.

pub mod admin;
pub mod duplicate;
pub mod gridfs;
pub mod csv;
pub mod csv_utf8;
pub mod import;
pub mod export;
pub mod masking;
pub mod migration;
pub mod reschema;
pub mod portmap;
pub mod functions;
pub mod quotes;
pub mod sql_json;
pub mod sql_model;
pub mod sql;
pub mod sql_parse;
pub mod tasks;
pub mod search;
pub mod schema;
pub mod schema_types;
pub mod diagnostics;
pub mod stats;
pub mod users;
pub mod compare;
pub mod query;
pub mod ejson;
pub mod restore;
