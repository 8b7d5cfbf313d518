//! Streaming restoration: per-stream restorers, the manager of open
//! streams, and the decisions of a streaming connection.

pub mod restorer;
pub mod socket;

pub use restorer::{StreamError, StreamGuard, StreamManager, StreamRestorer};
