//! The decode error taxonomy: every way a byte string can be rejected, as an
//! explicit value. Decoding never panics and never returns a partial payload.

use vstd::prelude::*;

verus! {

/// Why a byte string was rejected by decoding.
#[derive(Clone, Copy, Debug, PartialEq, Eq, Structural)]
pub enum DecodeError {
    /// The input ended before a fixed-width field could be read.
    NotEnoughData,
    /// The two version bytes of an envelope held something other than zero.
    UnexpectedVersion,
    /// The two version bytes of a payload decoded directly held something
    /// other than zero.
    ExpectedVersionZero,
    /// A method header byte set presence bits that the format does not define.
    InvalidFlags,
    /// A name field did not hold UTF-8 bytes.
    InvalidName,
    /// A constraints length byte pointed past the end of the input.
    InvalidConstraints,
    /// Bytes were left over after a complete payload.
    TrailingData,
}

impl DecodeError {
    /// A human-readable description of the error.
    pub fn message(&self) -> (r: String)
        ensures
            *self is NotEnoughData ==> r@ == "not enough data to fill buffer"@,
            *self is UnexpectedVersion ==> r@ == "unexpected version"@,
            *self is ExpectedVersionZero ==> r@ == "expected version : 0"@,
            *self is InvalidFlags ==> r@ == "unknown format flags"@,
            *self is InvalidName ==> r@ == "names should be utf8 encoded"@,
            *self is InvalidConstraints ==> r@ == "invalid constraints codec"@,
            *self is TrailingData ==> r@ == "unexpected data after the payload"@,
    {
        match self {
            DecodeError::NotEnoughData => "not enough data to fill buffer".to_owned(),
            DecodeError::UnexpectedVersion => "unexpected version".to_owned(),
            DecodeError::ExpectedVersionZero => "expected version : 0".to_owned(),
            DecodeError::InvalidFlags => "unknown format flags".to_owned(),
            DecodeError::InvalidName => "names should be utf8 encoded".to_owned(),
            DecodeError::InvalidConstraints => "invalid constraints codec".to_owned(),
            DecodeError::TrailingData => "unexpected data after the payload".to_owned(),
        }
    }
}

} // verus!
