//! Tool protocol framework: verified decision logic for an agent's tool set.
pub mod text;
pub mod json;
pub mod error;
pub mod tool;
pub mod wildcard;
pub mod counts;
pub mod permission;
pub mod guardrails;
pub mod security;
pub mod limits;
pub mod deferred;
pub mod paths;
pub mod content;
pub mod search;
pub mod scan;
pub mod parallel;
pub mod storage;
pub mod budget;
pub mod dispatch;
pub mod schema;
pub mod todo;
pub mod config;
pub mod readfile;
pub mod terminal;
pub mod listing;
pub mod ranking;
pub mod edits;
pub mod finder;
pub mod tasks;
pub mod remote;
pub mod registry;
pub mod tools;
pub mod laws;
