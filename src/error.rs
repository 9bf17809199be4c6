use vstd::prelude::*;

verus! {

/// The ways in which decoding can fail.
#[derive(Debug, PartialEq)]
pub enum Error {
    /// Reading the leading marker byte failed.
    InvalidMarkerRead,
    /// Reading the payload that follows a marker failed.
    InvalidDataRead,
    /// The marker is not valid where it was found.
    TypeMismatch(rmp::Marker),
    /// A number does not fit the requested type.
    OutOfRange,
    /// A sequence did not have the expected length.
    LengthMismatch(u32),
    /// Some other protocol violation, explained by the message.
    Uncategorized(String),
    /// The consuming type rejected the data, explained by the message.
    Syntax(String),
    /// A string payload is not valid UTF-8.
    Utf8Error,
    /// Containers are nested deeper than allowed.
    DepthLimitExceeded,
}

} // verus!
