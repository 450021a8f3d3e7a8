//! A fixture-based conformance harness for formatting and lint checkers.

pub mod checker;
pub mod faithful;
pub mod fixture;
pub mod parser;
pub mod pipeline;
pub mod report;
pub mod samples;
pub mod scratch;
pub mod store;
pub mod suite;
pub mod tags;
pub mod text;
pub mod tool_run;
