//! The codec's error model: typed error codes with an optional stream
//! position.

use vstd::prelude::*;

use crate::marker::Marker;

verus! {

/// What went wrong during an encode or decode call.
#[derive(Copy, Clone, PartialEq, Eq, Debug, Structural)]
pub enum ErrorCode {
    /// The reader returned fewer bytes than required.
    UnexpectedEndOfFile,
    /// The current byte's marker is not the expected one.
    InvalidType {
        /// The marker the caller required.
        expected: Marker,
        /// The marker the byte actually carries.
        unexpected: Marker,
    },
    /// A string body failed UTF-8 validation.
    InvalidUtf8,
    /// A decoded length does not fit the platform's index type, or an integer
    /// magnitude exceeds what the value type can hold.
    NumberOutOfRange,
    /// Reserved header bits are non-zero.
    InvalidHeader,
    /// An error propagated from the reader or writer.
    IoError,
}

/// An encode or decode failure: an [`ErrorCode`], optionally attributed to
/// the byte position at the start of the offending datum.
#[derive(Copy, Clone, Debug)]
pub struct Error {
    /// What went wrong.
    pub code: ErrorCode,
    /// Where in the stream it went wrong, when attributable.
    pub pos: Option<usize>,
}

impl Error {
    /// Creates an error from its parts.
    pub fn new(code: ErrorCode, pos: Option<usize>) -> (r: Error)
        ensures
            r.code == code,
            r.pos == pos,
    {
        Error { code, pos }
    }

    /// The error's code.
    pub fn code(&self) -> (r: ErrorCode)
        ensures
            r == self.code,
    {
        self.code
    }

    /// The byte position at the start of the offending datum, when one could
    /// be attributed.
    pub fn pos(&self) -> (r: Option<usize>)
        ensures
            r == self.pos,
    {
        self.pos
    }

    /// An end-of-input error at `pos`.
    pub fn unexpected_end_of_file(pos: Option<usize>) -> (r: Error)
        ensures
            r.code == ErrorCode::UnexpectedEndOfFile,
            r.pos == pos,
    {
        Error { code: ErrorCode::UnexpectedEndOfFile, pos }
    }

    /// A marker mismatch at `pos`.
    pub fn invalid_type(expected: Marker, unexpected: Marker, pos: Option<usize>) -> (r: Error)
        ensures
            r.code == (ErrorCode::InvalidType { expected, unexpected }),
            r.pos == pos,
    {
        Error { code: ErrorCode::InvalidType { expected, unexpected }, pos }
    }

    /// A UTF-8 validation failure at `pos`.
    pub fn invalid_utf8(pos: Option<usize>) -> (r: Error)
        ensures
            r.code == ErrorCode::InvalidUtf8,
            r.pos == pos,
    {
        Error { code: ErrorCode::InvalidUtf8, pos }
    }

    /// A number that does not fit its destination, at `pos`.
    pub fn number_out_of_range(pos: Option<usize>) -> (r: Error)
        ensures
            r.code == ErrorCode::NumberOutOfRange,
            r.pos == pos,
    {
        Error { code: ErrorCode::NumberOutOfRange, pos }
    }

    /// A malformed header byte at `pos`.
    pub fn invalid_header(pos: Option<usize>) -> (r: Error)
        ensures
            r.code == ErrorCode::InvalidHeader,
            r.pos == pos,
    {
        Error { code: ErrorCode::InvalidHeader, pos }
    }

    /// A reader or writer failure at `pos`.
    pub fn io_error(pos: Option<usize>) -> (r: Error)
        ensures
            r.code == ErrorCode::IoError,
            r.pos == pos,
    {
        Error { code: ErrorCode::IoError, pos }
    }
}

} // verus!
