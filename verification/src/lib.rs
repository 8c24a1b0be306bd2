//! Batch geocoding pipeline: reconciles recorded site addresses against a
//! geocoding service under a bounded-concurrency admission limiter, collects one
//! outcome per input record, and reduces the outcomes under a configurable
//! failure policy.

pub mod address;
pub mod args;
pub mod decimal;
pub mod geocoding;
pub mod pipeline;
pub mod text;
