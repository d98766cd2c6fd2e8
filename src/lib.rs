//! Version reconciliation for a poll-based merge-request resource: candidate
//! filtering, latest-per-entity reduction, persisted deduplication state and
//! the one-shot resurrection of stuck versions.

pub mod decimal;
pub mod error;
pub mod filter;
pub mod laws;
pub mod model;
pub mod reconcile;
pub mod reduce;
pub mod state;
pub mod target;
pub mod time;
pub mod version;
