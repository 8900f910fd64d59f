use vstd::prelude::*;

verus! {

/// The errors this library reports to its callers.
#[derive(Debug, Clone, PartialEq)]
pub enum Error {
    /// A network-level failure in the transport layer, with its description.
    TransportError(String),
    /// The outgoing request could not be encoded.
    SerializationError(String),
    /// The response text could not be decoded as the expected shape: carries
    /// the raw response text verbatim, and a description of what failed.
    ApiError(String, String),
    /// A full response held an empty `choices` list, so there is no first
    /// message to read.
    EmptyChoices,
}

} // verus!
