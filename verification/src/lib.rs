//! Detection of DynamoDB items that violate the key schema of an index or the
//! expected shape of a TTL attribute.

pub mod assemble;
pub mod aws;
pub mod config;
pub mod domain;
pub mod encode;
pub mod export;
pub mod rules;
pub mod scan;
pub mod shell;
pub mod state;
pub mod text;
pub mod tui;
