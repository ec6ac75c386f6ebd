use vstd::prelude::*;

verus! {

/// The error kinds a SIRD decode can produce.
#[derive(Clone, Copy, Debug, PartialEq, Eq, Structural)]
pub enum Error {
    /// The magic number was not correct.
    BadMagicNumber,
    /// A record was larger than expected.
    NotEnoughBytes,
    /// A record name contained invalid UTF-8.
    StringDecodeError,
}

impl Error {
    /// A short human-readable description of the error.
    pub fn message(&self) -> (r: &'static str)
        ensures
            r@ == match self {
                Error::BadMagicNumber => "incorrect magic number in SIRD file"@,
                Error::NotEnoughBytes => "not enough bytes for record"@,
                Error::StringDecodeError => "error decoding utf-8 string"@,
            },
    {
        match self {
            Error::BadMagicNumber => "incorrect magic number in SIRD file",
            Error::NotEnoughBytes => "not enough bytes for record",
            Error::StringDecodeError => "error decoding utf-8 string",
        }
    }
}

} // verus!
