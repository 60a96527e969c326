//! An engine for bidirectional relationship graphs between versioned,
//! content-addressed records.
//!
//! Records live in a replicated store (`Store`). Each record has a stable
//! identity address, a chain of immutable revisions, and may be tombstoned.
//! Relationships between records are tagged edges between anchor addresses,
//! created in reciprocal pairs so they can be traversed from either end.
//! Edge maintenance is diff-based and idempotent: `update_index` converges
//! the edge set under a (source, tag) pair to a desired state. When the two
//! halves of a relationship live in different storage domains, the reciprocal
//! half is requested from the remote domain and a failure of that request is
//! reported per edge instead of rolling back the local half.

pub mod agreement;
pub mod errors;
pub mod graph;
pub mod guarantees;
pub mod identity;
pub mod index_strategy;
pub mod local_indexes;
pub mod maybe_undefined;
pub mod record_interface;
pub mod remote_indexes;
pub mod store;
pub mod unit;
