//! The error that the codec reports to its callers.

use vstd::prelude::*;

use crate::admission::AdmissionError;

verus! {

/// An encoded value that the codec does not accept.
#[derive(Clone, Copy, Debug, PartialEq, Eq, Structural)]
pub enum Error {
    /// The bytes are no valid value of the expected kind.
    InvalidValue,
    /// Whatever else a decoder of message bodies reports.
    Message,
}

impl From<AdmissionError> for Error {
    fn from(_error: AdmissionError) -> (error: Self) {
        Error::InvalidValue
    }
}

impl vstd::std_specs::convert::FromSpecImpl<AdmissionError> for Error {
    open spec fn obeys_from_spec() -> bool {
        true
    }

    open spec fn from_spec(_error: AdmissionError) -> Error {
        Error::InvalidValue
    }
}

} // verus!
