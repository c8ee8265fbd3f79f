//! The errors of the client.

use vstd::prelude::*;

verus! {

/// `std::io::Error`, carried through as it stands: nothing is read inside it.
#[verifier::external_type_specification]
#[verifier::external_body]
pub struct ExIoError(std::io::Error);

/// What can go wrong while talking to an NNTP server.
#[derive(Debug)]
pub enum NNTPError {
    /// Reading from or writing to the connection failed.
    IO(std::io::Error),
    /// The server answered with a status code other than the one the command needs;
    /// the field holds the start of its reply line.
    UnexpectedCode(String),
    ReadLineFailed,
    TLSFailed,
    Other,
}

impl From<std::io::Error> for NNTPError {
    fn from(err: std::io::Error) -> (r: Self) {
        NNTPError::IO(err)
    }
}

impl vstd::std_specs::convert::FromSpecImpl<std::io::Error> for NNTPError {
    open spec fn obeys_from_spec() -> bool {
        true
    }

    open spec fn from_spec(err: std::io::Error) -> Self {
        NNTPError::IO(err)
    }
}

} // verus!
