//! Request bookkeeping, the field loops of the privacy endpoints, and their
//! detection summaries.

pub mod clean;
pub mod metrics;
pub mod privacy;
