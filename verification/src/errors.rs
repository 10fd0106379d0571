//! The closed set of failure kinds reported by the sanitization and parsing
//! operations.

use vstd::prelude::*;

verus! {

/// Declares `std::io::Error` so that [`InputError::Io`] can carry the
/// original cause of a failed read.  The value is opaque to verification.
#[verifier::external_type_specification]
#[verifier::external_body]
pub struct ExIoError(std::io::Error);

/// Errors that can occur when validating or parsing external input.
#[derive(Debug)]
pub enum InputError {
    /// The provided input was empty after trimming whitespace.
    Empty,
    /// The provided input exceeded the allowed length.
    TooLong { max: usize, actual: usize },
    /// The provided input contained a disallowed character.
    InvalidCharacter(char),
    /// The provided input could not be represented as the requested number.
    NumericOverflow,
    /// Wrapper for I/O failures while reading from the input source.
    Io(std::io::Error),
}

} // verus!
