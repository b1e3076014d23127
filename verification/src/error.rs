use vstd::prelude::*;

verus! {

/// Everything that can go wrong while decoding a stream.
#[derive(Clone, PartialEq, Eq, Debug)]
pub enum VisitError {
    /// The source ran out of bytes in the middle of a value: a short read.
    EndOfStream,
    /// A name was not valid UTF-8.
    InvalidUtf8,
    /// The stream does not begin with the magic marker.
    NotSupportedFormat,
    /// A binary field carried a type tag outside the known table.
    UnknownFieldType(u8),
    /// A text-grammar violation, carrying the offending token.
    User(String),
    /// A numeric token failed to parse.
    InvalidNumber,
    /// A `data` or `podarray` payload was not valid base64.
    InvalidBase64,
    /// A `uuid` token was not a valid UUID.
    InvalidUuid,
}

/// The mathematical value of a [`VisitError`]: the same cases, with the
/// offending token as a character sequence.
pub enum ErrS {
    EndOfStream,
    InvalidUtf8,
    NotSupportedFormat,
    UnknownFieldType(u8),
    User(Seq<char>),
    InvalidNumber,
    InvalidBase64,
    InvalidUuid,
}

impl View for VisitError {
    type V = ErrS;

    open spec fn view(&self) -> ErrS {
        match self {
            VisitError::EndOfStream => ErrS::EndOfStream,
            VisitError::InvalidUtf8 => ErrS::InvalidUtf8,
            VisitError::NotSupportedFormat => ErrS::NotSupportedFormat,
            VisitError::UnknownFieldType(t) => ErrS::UnknownFieldType(*t),
            VisitError::User(s) => ErrS::User(s@),
            VisitError::InvalidNumber => ErrS::InvalidNumber,
            VisitError::InvalidBase64 => ErrS::InvalidBase64,
            VisitError::InvalidUuid => ErrS::InvalidUuid,
        }
    }
}

/// Outcome of every decode step, at either the value or the stream level.
pub type VisitResult = Result<(), VisitError>;

} // verus!
