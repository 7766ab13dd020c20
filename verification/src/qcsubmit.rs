//! Data models for archived quantum-chemistry calculation records.
//!
//! These are the request bodies and result-collection records that a client
//! of a calculation archive exchanges; the network transport itself lives
//! outside this crate and hands these values in and out.

pub mod client;
pub mod results;
