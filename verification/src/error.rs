//! The closed set of failure kinds that library operations return.

use vstd::prelude::*;

verus! {

/// Everything that can go wrong in this library, by category:
/// configuration (`InvalidKey`), parameter validation (`OutOfBounds`,
/// `InvalidInput`), the network (`Transport`), and response decoding
/// (`Deserialization`).
#[derive(Debug, Clone, PartialEq)]
pub enum AirlyError {
    /// The API key is not exactly 32 header-safe characters.
    InvalidKey,
    /// A geographic coordinate or a circle radius is out of its valid range.
    OutOfBounds,
    /// A required request parameter is missing (an index type with no name).
    InvalidInput,
    /// The HTTP GET itself failed; the payload describes the failure.
    Transport(String),
    /// The response body does not match the expected JSON schema.
    Deserialization(String),
}

impl AirlyError {
    /// A short fixed description of the error category.
    pub fn category(&self) -> (r: &'static str)
        ensures
            r@ == match self {
                AirlyError::InvalidKey => "invalid key"@,
                AirlyError::OutOfBounds => "out of bounds"@,
                AirlyError::InvalidInput => "invalid input"@,
                AirlyError::Transport(_) => "transport"@,
                AirlyError::Deserialization(_) => "deserialization"@,
            },
    {
        match self {
            AirlyError::InvalidKey => "invalid key",
            AirlyError::OutOfBounds => "out of bounds",
            AirlyError::InvalidInput => "invalid input",
            AirlyError::Transport(_) => "transport",
            AirlyError::Deserialization(_) => "deserialization",
        }
    }
}

} // verus!
