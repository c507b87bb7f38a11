//! The store's error taxonomy. Absence of a record is never an error;
//! these cover the medium itself failing or lying.

use vstd::prelude::*;

verus! {

/// What can go wrong underneath the store.
#[derive(Debug, Clone, Copy, PartialEq, Eq, Structural)]
pub enum StoreError {
    /// A durable backend could not be opened or created, or the chosen
    /// backend is not available in this build.
    OpenFailed,
    /// The medium failed on a read or a write.
    MediumFailure,
    /// A stored value is present but is not a well-formed record.
    CorruptValue,
}

} // verus!
