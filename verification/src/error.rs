//! Error kinds surfaced by the library.

use vstd::prelude::*;

verus! {

/// Failure categories for decoding and device access.
///
/// Structural absence (a magic mismatch when probing, a missing path
/// component) is represented as an `Option`, not as one of these errors;
/// the errors mark device failures and mid-walk structural violations.
/// The attached strings are diagnostics only and carry no meaning for
/// control flow.
#[derive(Debug)]
pub enum Error {
    /// A caller-supplied value is out of its domain.
    InvalidInput(String),
    /// A named entity does not exist.
    NotFound(String),
    /// The underlying device failed.
    IOError(String),
    /// A short read against a fixed-size record.
    UnexpectedEof(String),
    /// An on-disk structure fails a structural invariant.
    InvalidData(String),
    /// Reserved for a future writer; unused here.
    FileExists(String),
}

impl Error {
    pub fn invalid_input() -> (r: Error)
        ensures
            r is InvalidInput,
    {
        Error::InvalidInput(String::new())
    }

    pub fn not_found() -> (r: Error)
        ensures
            r is NotFound,
    {
        Error::NotFound(String::new())
    }

    pub fn io_error() -> (r: Error)
        ensures
            r is IOError,
    {
        Error::IOError(String::new())
    }

    pub fn unexpected_eof() -> (r: Error)
        ensures
            r is UnexpectedEof,
    {
        Error::UnexpectedEof(String::new())
    }

    pub fn invalid_data() -> (r: Error)
        ensures
            r is InvalidData,
    {
        Error::InvalidData(String::new())
    }
}

} // verus!
