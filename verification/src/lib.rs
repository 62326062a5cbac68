//! Reconciliation of fleet telemetry: deciding, zone by zone, which freshly
//! observed vehicle logs are worth persisting, and keeping the per-zone
//! snapshot of last-known logs current.

pub mod actions;
pub mod cache;
pub mod error;
pub mod instant;
pub mod laws;
pub mod models;
pub mod poller;
pub mod reconcile;
pub mod significance;
pub mod tier;
