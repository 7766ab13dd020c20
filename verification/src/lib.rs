//! A force-field parameter typing engine for molecular systems.
//!
//! The crate models molecules as atom/bond graphs, groups the molecules of a
//! topology into classes of chemically identical (graph-isomorphic) instances,
//! and assigns force-field parameters to atom tuples by matching each
//! parameter's substructure pattern and resolving overlaps by hierarchical
//! override: among all parameters whose pattern matches a tuple, the one
//! registered last wins.
//!
//! Substructure pattern matching itself is an external service, reached
//! through the [`matcher::PatternMatcher`] trait; the engine guarantees that
//! it is consulted exactly once per (unique molecule, parameter) pair.

pub mod matcher;
pub mod qcsubmit;
pub mod smirnoff;
pub mod topology;
