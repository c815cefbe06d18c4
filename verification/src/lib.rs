//! Aggregation of a contributor's pull-request and issue activity and the
//! deterministic construction of the completion request that summarises it.
//!
//! The crate holds the decisions of the pipeline: how raw activity records are
//! normalised, for which items discussion comments are sampled, how the
//! statistics are counted, and the exact text of the prompt. Running queries
//! and sending requests is left to the caller, which hands plain values in and
//! takes plain values back.

pub mod completion;
pub mod error;
pub mod json;
pub mod model;
pub mod normalizer;
pub mod prompt;
pub mod record;
pub mod source;
pub mod stats;
pub mod text;
