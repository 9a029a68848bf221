//! A tiered blob store for trees of generated files: enumeration of a tree
//! into path keys, content-type classification, the decisions of ingestion and
//! retrieval across an inline relational tier and an object-storage tier, and
//! batch migration between them.
use vstd::prelude::*;

pub mod mime;
pub mod store;
pub mod walk;

verus! {

/// The failures that the store's operations report.
#[derive(Debug, Clone, Copy, PartialEq, Eq, Structural)]
pub enum FileError {
    /// The path does not exist locally, or the store holds no row for it.
    NotFound,
    /// The content sniffer could not be set up or could not classify.
    Classification,
    /// An offloaded payload could not be fetched from object storage.
    Fetch,
    /// An upload to the configured object storage failed.
    StorageFatal,
    /// A relational transaction could not be begun or committed.
    Transaction,
}

} // verus!
