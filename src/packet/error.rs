//! Errors that may occur while decoding or encoding a message.
use vstd::prelude::*;

verus! {

/// Non-I/O errors that may occur during message decoding and encoding.
#[derive(Debug, PartialEq, Eq, Clone, Copy, Structural)]
#[non_exhaustive]
pub enum Error {
    /// The end of the message was reached while more data was expected.
    Eof,
    /// A domain name pointer pointed into itself or further into the message.
    PointerLoop,
    /// A field was set to an invalid (reserved for future use or illegal) value.
    InvalidValue,
    /// Returned when finishing an encoder whose buffer was too small to hold the whole message.
    Truncated,
    /// An empty label was encountered where it is not allowed.
    InvalidEmptyLabel,
    /// A label exceeded the maximum allowable length of a label.
    LabelTooLong,
}

impl Error {
    /// Returns a short, human-readable description of the error.
    pub fn description(&self) -> (r: &'static str)
        ensures
            *self == Error::Eof ==> r@ == "unexpected end of data"@,
            *self == Error::PointerLoop ==> r@ == "encountered domain name pointer loop"@,
            *self == Error::InvalidValue ==> r@ == "invalid value"@,
            *self == Error::Truncated ==> r@ == "packet truncated"@,
            *self == Error::InvalidEmptyLabel ==> r@ == "invalid empty label"@,
            *self == Error::LabelTooLong ==> r@ == "label too long"@,
    {
        match self {
            Error::Eof => "unexpected end of data",
            Error::PointerLoop => "encountered domain name pointer loop",
            Error::InvalidValue => "invalid value",
            Error::Truncated => "packet truncated",
            Error::InvalidEmptyLabel => "invalid empty label",
            Error::LabelTooLong => "label too long",
        }
    }
}

} // verus!
