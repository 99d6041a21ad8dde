use vstd::prelude::*;

verus! {

/// Failure taxonomy of the cache layer.
///
/// Connection and command failures propagate to the caller; a
/// deserialization failure is partially self-healed (the offending key is
/// deleted) before propagating.
#[derive(Clone, Copy, Debug, PartialEq, Eq, Structural)]
pub enum CacheError {
    /// The backing store could not be reached or its connection pool was
    /// exhausted.
    ConnectionFailure,
    /// A value could not be encoded for storage.
    SerializationFailure,
    /// A stored payload did not decode as the expected type.
    DeserializationFailure,
    /// The store rejected or errored on a specific command.
    StoreCommandFailure,
}

} // verus!
