//! Errors of transcoding a value through its schema: deserializing it, then serializing it
//! again.
use vstd::prelude::*;

verus! {

/// Errors encountered when transcoding a value
#[derive(Debug, Clone, PartialEq, Eq)]
pub enum Error<DeserializeError, SerializeError> {
    /// Reading the value failed
    Deserialize(DeserializeError),
    /// Writing the value failed
    Serialize(SerializeError),
}

} // verus!
