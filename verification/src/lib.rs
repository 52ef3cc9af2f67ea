//! Maintenance logic for a content-addressed compilation cache: usage
//! statistics with a textual sidecar codec, a best-effort cross-process
//! file lock protocol, classification of the cache tree, quota-driven
//! sweep planning, recompression of hot artifacts, and the bounded event
//! queue that feeds a background worker.

pub mod codec;
pub mod digits;
pub mod locks;
pub mod queue;
pub mod recompress;
pub mod scan;
pub mod stats;
pub mod sweep;
