//! Rule-driven file organisation: a boolean pattern language over file names,
//! ordered rule matching with whitelists, collision-free move targets and a
//! queue of deferred deletions.

pub mod actions;
pub mod commands;
pub mod condition;
pub mod config;
pub mod encoding;
pub mod glob;
pub mod ids;
pub mod lexer;
pub mod models;
pub mod naming;
pub mod parser;
pub mod printer;
pub mod regexp;
pub mod roundtrip;
pub mod rules;
pub mod scan;
pub mod schedule;
pub mod scheduler;
pub mod store;
pub mod text;
