use vstd::prelude::*;

pub mod audit;
pub mod audit_merge;
pub mod audit_parse;
pub mod audit_runner;
pub mod audit_sqlite;
pub mod audit_time;
pub mod batch;
pub mod capability;
pub mod config;
pub mod coordinator;
pub mod digest;
pub mod engine;
pub mod format;
pub mod guard;
pub mod guard_commands;
pub mod lifecycle;
pub mod markdown_block;
pub mod model;
pub mod order;
pub mod operation_audit;
pub mod ownership;
pub mod journal;
pub mod json;
pub mod role_commands;
pub mod roles;
pub mod roles_store;
pub mod schema;
pub mod text;
pub mod transaction;
pub mod validate;
pub mod view;
pub mod view_groups;
pub mod toml_doc;
pub mod toml_path;
pub mod json_check;
