//! The ways in which decoding fails.
use std::num::ParseFloatError;
use std::num::ParseIntError;
use std::string::FromUtf8Error;
use vstd::prelude::*;

verus! {

/// `std::num::ParseIntError`, carried as the cause of a bad integer or count.
#[verifier::external_type_specification]
#[verifier::external_body]
pub struct ExParseIntError(ParseIntError);

/// `std::num::ParseFloatError`, carried as the cause of a bad double.
#[verifier::external_type_specification]
#[verifier::external_body]
pub struct ExParseFloatError(ParseFloatError);

/// `std::string::FromUtf8Error`, carried as the cause of a bad text payload.
#[verifier::external_type_specification]
#[verifier::external_body]
pub struct ExFromUtf8Error(FromUtf8Error);

/// Which failure a [`RespError`] reports, without what it carries.
///
/// `NotComplete` asks for more bytes; every other kind is a protocol
/// violation.
#[derive(Clone, Copy, Debug, PartialEq, Eq, Structural)]
pub enum ErrorKind {
    InvalidFrame,
    InvalidFrameType,
    InvalidFrameLength,
    NotComplete,
    ParseIntError,
    ParseFloatError,
    Utf8Error,
}

/// A failure as contracts speak of it: its kind and what it carries. That
/// is the text of a message; or the error that the parser of numerals gave;
/// or, for a bad text, the bytes that were no text, by which the error is
/// known.
pub enum Failure {
    InvalidFrame(Seq<char>),
    InvalidFrameType(Seq<char>),
    InvalidFrameLength(int),
    NotComplete,
    ParseIntError(ParseIntError),
    ParseFloatError(ParseFloatError),
    Utf8Error(Seq<u8>),
}

/// The bytes that a `FromUtf8Error` holds: those that were to be a text,
/// as `FromUtf8Error::as_bytes` gives them.
pub uninterp spec fn utf8_error_bytes(e: FromUtf8Error) -> Seq<u8>;

/// A decoding failure, with a message or the underlying parse error.
#[derive(Debug, PartialEq, Eq)]
pub enum RespError {
    InvalidFrame(String),
    InvalidFrameType(String),
    InvalidFrameLength(isize),
    NotComplete,
    ParseIntError(ParseIntError),
    ParseFloatError(ParseFloatError),
    Utf8Error(FromUtf8Error),
}

impl View for RespError {
    type V = Failure;

    open spec fn view(&self) -> Failure {
        match self {
            RespError::InvalidFrame(message) => Failure::InvalidFrame(message@),
            RespError::InvalidFrameType(message) => Failure::InvalidFrameType(message@),
            RespError::InvalidFrameLength(len) => Failure::InvalidFrameLength(*len as int),
            RespError::NotComplete => Failure::NotComplete,
            RespError::ParseIntError(e) => Failure::ParseIntError(*e),
            RespError::ParseFloatError(e) => Failure::ParseFloatError(*e),
            RespError::Utf8Error(e) => Failure::Utf8Error(utf8_error_bytes(*e)),
        }
    }
}

impl Failure {
    /// The kind of the failure.
    pub open spec fn kind(self) -> ErrorKind {
        match self {
            Failure::InvalidFrame(_) => ErrorKind::InvalidFrame,
            Failure::InvalidFrameType(_) => ErrorKind::InvalidFrameType,
            Failure::InvalidFrameLength(_) => ErrorKind::InvalidFrameLength,
            Failure::NotComplete => ErrorKind::NotComplete,
            Failure::ParseIntError(_) => ErrorKind::ParseIntError,
            Failure::ParseFloatError(_) => ErrorKind::ParseFloatError,
            Failure::Utf8Error(_) => ErrorKind::Utf8Error,
        }
    }
}

/// The message for a buffer that starts with no frame.
pub open spec fn invalid_frame_text() -> Seq<char> {
    "invalid frame type"@
}

/// The message that `format!` makes of the name of an expected frame and
/// of the bytes of a buffer, printed as `bytes::BytesMut` prints them.
pub uninterp spec fn unexpected_frame_text(expect_type: Seq<char>, buf: Seq<u8>) -> Seq<char>;

/// The message that `format!` makes of the bytes of a buffer that does not
/// start with the expected byte.
pub uninterp spec fn unexpected_prefix_text(buf: Seq<u8>) -> Seq<char>;

/// A message for a buffer that does not start with the expected fixed
/// frame: `format!` with the name of the frame and the buffer as
/// `bytes::BytesMut` prints it. The two decide the message.
#[verifier::external_body]
pub(crate) fn unexpected_frame_message(expect_type: &str, buf: &[u8]) -> (message: String)
    ensures
        message@ == unexpected_frame_text(expect_type@, buf@),
{
    format!("expect: {}, got: {:?}", expect_type, bytes::BytesMut::from(buf))
}

/// A message for a buffer that does not start with the expected prefix
/// byte: `format!` with the bytes of the buffer, which decide the message.
#[verifier::external_body]
pub(crate) fn unexpected_prefix_message(buf: &[u8]) -> (message: String)
    ensures
        message@ == unexpected_prefix_text(buf@),
{
    format!("expected SimpleString(+)' but got {:?}", buf)
}

impl ErrorKind {
    /// A failure that more bytes can mend.
    pub open spec fn recoverable(self) -> bool {
        self == ErrorKind::NotComplete
    }
}

impl RespError {
    /// The kind of this failure.
    pub fn kind(&self) -> (k: ErrorKind)
        ensures
            k == self@.kind(),
    {
        match self {
            RespError::InvalidFrame(_) => ErrorKind::InvalidFrame,
            RespError::InvalidFrameType(_) => ErrorKind::InvalidFrameType,
            RespError::InvalidFrameLength(_) => ErrorKind::InvalidFrameLength,
            RespError::NotComplete => ErrorKind::NotComplete,
            RespError::ParseIntError(_) => ErrorKind::ParseIntError,
            RespError::ParseFloatError(_) => ErrorKind::ParseFloatError,
            RespError::Utf8Error(_) => ErrorKind::Utf8Error,
        }
    }

    /// Whether the caller should wait for more bytes and decode again.
    pub fn is_not_complete(&self) -> (r: bool)
        ensures
            r == self@.kind().recoverable(),
    {
        match self {
            RespError::NotComplete => true,
            _ => false,
        }
    }
}

} // verus!
