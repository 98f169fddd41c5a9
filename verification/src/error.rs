use vstd::prelude::*;

verus! {

/// Declares the standard I/O error type, so that reading a map file can
/// hand its failure through the parse error unchanged.
#[verifier::external_type_specification]
#[verifier::external_body]
pub struct ExIoError(std::io::Error);

/// Errors from building a world out of its textual description.
#[derive(Debug)]
pub enum ParseError {
    /// An I/O operation failed while the description was read.
    IoError(std::io::Error),
    /// A line of the description is malformed.
    InvalidLine(String),
    /// A direction token names none of the four directions.
    InvalidDirection(String),
}

impl From<std::io::Error> for ParseError {
    fn from(err: std::io::Error) -> (r: ParseError) {
        ParseError::IoError(err)
    }
}

impl vstd::std_specs::convert::FromSpecImpl<std::io::Error> for ParseError {
    open spec fn obeys_from_spec() -> bool {
        true
    }

    open spec fn from_spec(err: std::io::Error) -> ParseError {
        ParseError::IoError(err)
    }
}

} // verus!
