//! Submission execution and grading pipeline for an instructor-provided test
//! harness: harness archive validation, the two-stage (compile, then run)
//! grading state machine, and the line-oriented result-report decoder.

pub mod harness;
pub mod output;
pub mod pipeline;
pub mod report;
