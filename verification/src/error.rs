//! The errors that reading a bitmap and the bit-plane codec report.

use std::array::TryFromSliceError;
use vstd::prelude::*;
use vstd::std_specs::convert::FromSpecImpl;

verus! {

/// `std::io::Error`, carried through as an opaque value.
#[verifier::external_type_specification]
#[verifier::external_body]
pub struct ExIoError(std::io::Error);

/// `std::array::TryFromSliceError`, which a slice of the wrong length gives
/// when an array is asked of it; an opaque value.
#[verifier::external_type_specification]
#[verifier::external_body]
pub struct ExTryFromSliceError(TryFromSliceError);

/// What can go wrong while reading a bitmap or coding a message.
#[derive(Debug)]
pub enum ImageError {
    /// The container cannot be read as a bitmap at all.
    InvalidFormat,
    /// A field, a length or the recovered text is not what it has to be.
    ParseError(String),
    /// A failure of the file layer, carried through unchanged.
    IoError(std::io::Error),
}

/// Why a slice of the wrong length is not read as a field.
pub open spec fn reason_slice() -> Seq<char> {
    "slice conversion failed"@
}

/// The error holds a string, and no value of the specification language
/// names one: what `from` returns is said by its own contract.
impl FromSpecImpl<TryFromSliceError> for ImageError {
    open spec fn obeys_from_spec() -> bool {
        false
    }

    open spec fn from_spec(e: TryFromSliceError) -> Self {
        ImageError::InvalidFormat
    }
}

impl From<TryFromSliceError> for ImageError {
    /// A field that could not be cut out of the input is a parse error.
    fn from(e: TryFromSliceError) -> (r: Self)
        ensures
            r matches ImageError::ParseError(reason) && reason@ == reason_slice(),
    {
        ImageError::ParseError("slice conversion failed".to_string())
    }
}

} // verus!
