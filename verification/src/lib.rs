//! An asynchronous logging library whose hot path never blocks: arguments
//! are encoded into per-thread single-producer/single-consumer byte queues,
//! and a backend decodes, formats and hands them to sinks.
//!
//! This crate holds the wire format, the record header, decoding, the
//! pattern formatter, the queues' bookkeeping, loggers and registries, and
//! the backend worker's decisions, each with its contract.

pub mod level;
pub mod bytes;
pub mod encode;
pub mod record;
pub mod decode;
pub mod text;
pub mod metadata;
pub mod formatter;
pub mod ring;
pub mod queue2;
pub mod queue;
pub mod per_thread_queue;
pub mod logger;
pub mod sink;
pub mod backend;
pub mod backend_runner;
pub mod rotation;
pub mod legacy;
