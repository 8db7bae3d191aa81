//! Verified core of the agent evaluation harness: the decisions that drive an
//! agent CLI through a suite of scenarios, and the text processing around each
//! subprocess invocation.

pub mod command;
pub mod config;
pub mod text;
pub mod scenario;
pub mod suite_run;
pub mod laws;
pub mod process_tree;
pub mod prompt;
pub mod runner;
