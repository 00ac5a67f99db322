//! The one error type of the library.

use vstd::prelude::*;

verus! {

/// [`std::io::Error`], which the library carries along and never looks
/// into.
#[verifier::external_type_specification]
#[verifier::external_body]
pub struct ExIoError(std::io::Error);

/// What can go wrong between accepting a connection and answering it.
#[derive(Debug)]
pub enum HpptError {
    /// The request line is malformed. Reading more bytes cannot mend it.
    Parsing,
    /// The request line is not all there yet. More bytes may complete it.
    IncompleteRequest,
    /// The request names a protocol version other than HTTP/1.1.
    UnsupportedHttpVersion,
    /// The read buffer filled up before a request was found in it.
    RequestTooLarge,
    /// The peer stopped sending before it had sent a request.
    BadRequest,
    /// The transport failed.
    IoError(std::io::Error),
}

pub type HpptResult<T> = Result<T, HpptError>;

impl From<std::io::Error> for HpptError {
    fn from(e: std::io::Error) -> (r: HpptError)
    {
        HpptError::IoError(e)
    }
}

impl vstd::std_specs::convert::FromSpecImpl<std::io::Error> for HpptError {
    open spec fn obeys_from_spec() -> bool {
        true
    }

    open spec fn from_spec(e: std::io::Error) -> HpptError {
        HpptError::IoError(e)
    }
}

} // verus!
