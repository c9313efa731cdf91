//! Batch concatenation of media clips: spec compilation, job decisions and
//! encoder command construction.
pub mod args;
pub mod command;
pub mod env;
pub mod job;
pub mod parse;
pub mod paths;
pub mod plan;
pub mod probe;
pub mod runner;
pub mod text;
