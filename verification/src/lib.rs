//! Telemetry ingestion library: a binary wire codec for log and counter
//! events, counter aggregation per (name, time bucket), the buffering-loop
//! flush policy, SQL text generation for batched writes, and configuration
//! defaults.

pub mod aggregate;
pub mod config;
pub mod buffer;
pub mod message;
pub mod sql;
