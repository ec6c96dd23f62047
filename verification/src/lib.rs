//! Streaming extractor for the line-oriented progress protocol that a test
//! runner prints: a state machine over input lines that emits typed events,
//! and an aggregation model that a display layer builds from those events.
#![verifier::loop_isolation(false)]

pub mod grammar;
pub mod machine;
pub mod parser;
pub mod text;
pub mod ui;
