//! Structured errors for the codec, the key derivation and the
//! identifier transcoder.
use vstd::prelude::*;

verus! {

/// Why an operation failed. Every failure is reported synchronously and
/// is scoped to the single call that produced it.
#[derive(Clone, Copy, Debug, PartialEq, Eq, Structural)]
pub enum CodecError {
    /// A numeric value does not fit the hinted width, or a decoded value
    /// cannot be represented as a 64-bit signed integer.
    OutOfRange,
    /// A key segment is not a valid hexadecimal string.
    InvalidHex,
    /// Decoded string bytes are not valid UTF-8.
    InvalidUtf8,
    /// An identifier string is not valid base-58 text.
    InvalidBase58,
    /// An identifier's embedded checksum does not match its payload.
    BadChecksum,
    /// A field's declared width does not fit in the remaining buffer.
    Underrun,
    /// A boolean field holds a byte other than 0 or 1.
    InvalidBool,
    /// A compact integer is not in its canonical (minimal) form.
    NonCanonical,
    /// A hint string is not one of the recognized selectors.
    UnknownHint,
    /// A target-type tag is not one of the recognized codes.
    UnknownTag,
    /// Parallel input sequences differ in length, or the wrong number of
    /// path or key segments was supplied.
    ArityMismatch,
    /// A raw key is not exactly the width its curve family requires.
    BadKeyLength,
    /// A network version is outside the representable range.
    BadVersion,
}

impl CodecError {
    /// A short human-readable description of the failure.
    pub fn message(&self) -> &'static str {
        match self {
            CodecError::OutOfRange => "numeric value out of range for the hinted width",
            CodecError::InvalidHex => "invalid hexadecimal string",
            CodecError::InvalidUtf8 => "decoded bytes are not valid UTF-8",
            CodecError::InvalidBase58 => "invalid base-58 string",
            CodecError::BadChecksum => "identifier checksum mismatch",
            CodecError::Underrun => "field does not fit in the remaining buffer",
            CodecError::InvalidBool => "boolean byte is neither 0 nor 1",
            CodecError::NonCanonical => "compact integer is not in canonical form",
            CodecError::UnknownHint => "unrecognized encoding hint",
            CodecError::UnknownTag => "unrecognized target-type tag",
            CodecError::ArityMismatch => "wrong number of inputs",
            CodecError::BadKeyLength => "raw key has the wrong length",
            CodecError::BadVersion => "network version out of range",
        }
    }
}

} // verus!
