//! Errors of the library.
use crate::frames::payloads::{error_code_name, trace_flags_name, ErrorCode, ErrorMsg, Tracing};
use crate::frames::{frame_type_name, TFrameId, Type};
use crate::messages::raw::{quoted, quoted_text};
use crate::text::{concat2, decimal, decimal_text, owned};
use std::string::FromUtf8Error;
use vstd::prelude::*;

verus! {

/// Failure to parse a name into one of the library's enums.
#[derive(Debug, Clone, Copy, PartialEq, Eq, Structural)]
pub enum ParseError {
    VariantNotFound,
}

/// An I/O failure, described by its message.
#[derive(Debug)]
pub struct IoError {
    pub message: String,
}

impl PartialEq for IoError {
    fn eq(&self, other: &Self) -> (r: bool) {
        false
    }
}

impl vstd::std_specs::cmp::PartialEqSpecImpl for IoError {
    open spec fn obeys_eq_spec() -> bool {
        true
    }

    open spec fn eq_spec(&self, other: &IoError) -> bool {
        false
    }
}

/// A frame that could not be handed on because its receiver was gone.
#[derive(Debug)]
pub struct SendError(pub TFrameId);

impl PartialEq for SendError {
    fn eq(&self, other: &Self) -> (r: bool) {
        false
    }
}

impl vstd::std_specs::cmp::PartialEqSpecImpl for SendError {
    open spec fn obeys_eq_spec() -> bool {
        true
    }

    open spec fn eq_spec(&self, other: &SendError) -> bool {
        false
    }
}

/// General TChannel error.
#[derive(Debug, PartialEq)]
pub enum TChannelError {
    /// Represents general error.
    Error(String),
    CodecError(CodecError),
    ConnectionError(ConnectionError),
    ConnectionPoolError(PoolError),
}

/// Frame encoding error.
#[derive(Debug, PartialEq)]
pub enum CodecError {
    Error(String),
    /// Represents all cases of `std::io::Error`.
    IoError(IoError),
    FormattingError,
    StringDecodingError(FromUtf8Error),
    ParseError(ParseError),
}

/// Host connection error.
#[derive(Debug, PartialEq)]
pub enum ConnectionError {
    /// Represents general error.
    Error(String),
    /// Represents all cases of `std::io::Error`.
    IoError(IoError),
    /// Frames codec related error.
    FrameError(CodecError),
    SendError(SendError),
    MessageError(ErrorMsg),
    MessageErrorId(ErrorMsg, u32),
    UnexpectedResponseError(Type),
}

/// Failure to get a connection out of a connection pool.
#[derive(Debug, PartialEq)]
pub enum PoolError {
    /// Connecting failed.
    User(ConnectionError),
    /// No connection became available in time.
    TimedOut,
}

/// Error of a request handler, or of a request answered with an error message.
#[derive(Debug, PartialEq)]
pub enum HandlerError<MES> {
    /// Represents general error.
    Error(String),
    RegistrationError(String),
    /// The response is an error message.
    MessageError(MES),
    /// The request could not be carried out.
    InternalError(TChannelError),
}

impl From<CodecError> for TChannelError {
    fn from(err: CodecError) -> (r: Self) {
        TChannelError::CodecError(err)
    }
}

impl vstd::std_specs::convert::FromSpecImpl<CodecError> for TChannelError {
    open spec fn obeys_from_spec() -> bool {
        true
    }

    open spec fn from_spec(err: CodecError) -> TChannelError {
        TChannelError::CodecError(err)
    }
}

impl From<ConnectionError> for TChannelError {
    fn from(err: ConnectionError) -> (r: Self) {
        TChannelError::ConnectionError(err)
    }
}

impl vstd::std_specs::convert::FromSpecImpl<ConnectionError> for TChannelError {
    open spec fn obeys_from_spec() -> bool {
        true
    }

    open spec fn from_spec(err: ConnectionError) -> TChannelError {
        TChannelError::ConnectionError(err)
    }
}

impl From<CodecError> for ConnectionError {
    fn from(err: CodecError) -> (r: Self) {
        ConnectionError::FrameError(err)
    }
}

impl vstd::std_specs::convert::FromSpecImpl<CodecError> for ConnectionError {
    open spec fn obeys_from_spec() -> bool {
        true
    }

    open spec fn from_spec(err: CodecError) -> ConnectionError {
        ConnectionError::FrameError(err)
    }
}

impl From<String> for TChannelError {
    fn from(err: String) -> (r: Self) {
        TChannelError::Error(err)
    }
}

impl vstd::std_specs::convert::FromSpecImpl<String> for TChannelError {
    open spec fn obeys_from_spec() -> bool {
        true
    }

    open spec fn from_spec(err: String) -> TChannelError {
        TChannelError::Error(err)
    }
}

impl From<String> for ConnectionError {
    fn from(err: String) -> (r: Self) {
        ConnectionError::Error(err)
    }
}

impl vstd::std_specs::convert::FromSpecImpl<String> for ConnectionError {
    open spec fn obeys_from_spec() -> bool {
        true
    }

    open spec fn from_spec(err: String) -> ConnectionError {
        ConnectionError::Error(err)
    }
}

impl From<String> for CodecError {
    fn from(err: String) -> (r: Self) {
        CodecError::Error(err)
    }
}

impl vstd::std_specs::convert::FromSpecImpl<String> for CodecError {
    open spec fn obeys_from_spec() -> bool {
        true
    }

    open spec fn from_spec(err: String) -> CodecError {
        CodecError::Error(err)
    }
}

impl From<FromUtf8Error> for CodecError {
    fn from(err: FromUtf8Error) -> (r: Self) {
        CodecError::StringDecodingError(err)
    }
}

impl vstd::std_specs::convert::FromSpecImpl<FromUtf8Error> for CodecError {
    open spec fn obeys_from_spec() -> bool {
        true
    }

    open spec fn from_spec(err: FromUtf8Error) -> CodecError {
        CodecError::StringDecodingError(err)
    }
}

impl From<ParseError> for CodecError {
    fn from(err: ParseError) -> (r: Self) {
        CodecError::ParseError(err)
    }
}

impl vstd::std_specs::convert::FromSpecImpl<ParseError> for CodecError {
    open spec fn obeys_from_spec() -> bool {
        true
    }

    open spec fn from_spec(err: ParseError) -> CodecError {
        CodecError::ParseError(err)
    }
}

/// The debug rendering of an error payload with the given fields: its
/// code's name, its tracing numbers and flags, and its message quoted.
pub open spec fn error_msg_debug(code: ErrorCode, tracing: Tracing, message: Seq<char>) -> Seq<char> {
    "ErrorMsg { code: "@ + error_code_name(code) + ", tracing: Tracing { span_id: "@ + decimal(tracing.span_id)
        + ", parent_id: "@ + decimal(tracing.parent_id) + ", trace_id: "@ + decimal(tracing.trace_id)
        + ", trace_flags: "@ + trace_flags_name(tracing.trace_flags) + " }, message: "@ + quoted(message) + " }"@
}

/// Renders an error payload for error messages.
fn error_msg_debug_text(e: &ErrorMsg) -> (s: String)
    ensures
        s@ == error_msg_debug(e.code, e.tracing, e.message@),
{
    let mut s: String = concat2("ErrorMsg { code: ", e.code.name());
    s.append(", tracing: Tracing { span_id: ");
    s.append(decimal_text(e.tracing.span_id).as_str());
    s.append(", parent_id: ");
    s.append(decimal_text(e.tracing.parent_id).as_str());
    s.append(", trace_id: ");
    s.append(decimal_text(e.tracing.trace_id).as_str());
    s.append(", trace_flags: ");
    s.append(e.tracing.trace_flags.name());
    s.append(" }, message: ");
    s.append(quoted_text(&e.message).as_str());
    s.append(" }");
    s
}

/// Renders a UTF-8 decoding error with its `Display` formatting
/// (`FromUtf8Error::to_string`); nothing is claimed of the text.
#[verifier::external_body]
fn utf8_error_text(e: &FromUtf8Error) -> String {
    e.to_string()
}

/// Whether `s` is the text of codec error `e` (the text of a UTF-8 decoding
/// error is std's and left open).
pub open spec fn codec_error_text(e: CodecError, s: Seq<char>) -> bool {
    match e {
        CodecError::Error(m) => s == "Codec error: "@ + m@,
        CodecError::IoError(io) => s == io.message@,
        CodecError::FormattingError => s == "an error occurred when formatting an argument"@,
        CodecError::StringDecodingError(_) => true,
        CodecError::ParseError(_) => s == "Matching variant not found"@,
    }
}

/// Whether `s` is the text of connection error `e`.
pub open spec fn connection_error_text(e: ConnectionError, s: Seq<char>) -> bool {
    match e {
        ConnectionError::Error(m) => s == "Connection error: "@ + m@,
        ConnectionError::IoError(io) => s == io.message@,
        ConnectionError::FrameError(c) => codec_error_text(c, s),
        ConnectionError::SendError(_) => s == "channel closed"@,
        ConnectionError::MessageError(m) => s == "Error message: "@ + error_msg_debug(m.code, m.tracing, m.message@),
        ConnectionError::MessageErrorId(m, _) => s == "Error message: "@ + error_msg_debug(
            m.code,
            m.tracing,
            m.message@,
        ),
        ConnectionError::UnexpectedResponseError(t) => s == "Unexpected response: "@ + frame_type_name(t),
    }
}

/// Whether `s` is the text of pool error `e`.
pub open spec fn pool_error_text(e: PoolError, s: Seq<char>) -> bool {
    match e {
        PoolError::User(c) => connection_error_text(c, s),
        PoolError::TimedOut => s == "Timed out in bb8"@,
    }
}

/// Whether `s` is the text of error `e`.
pub open spec fn tchannel_error_text(e: TChannelError, s: Seq<char>) -> bool {
    match e {
        TChannelError::Error(m) => s == "TChannel error: "@ + m@,
        TChannelError::CodecError(c) => codec_error_text(c, s),
        TChannelError::ConnectionError(c) => connection_error_text(c, s),
        TChannelError::ConnectionPoolError(p) => pool_error_text(p, s),
    }
}

impl CodecError {
    /// The text of the error.
    pub fn to_string(&self) -> (s: String)
        ensures
            codec_error_text(*self, s@),
    {
        match self {
            CodecError::Error(m) => concat2("Codec error: ", m.as_str()),
            CodecError::IoError(io) => io.message.clone(),
            CodecError::FormattingError => owned("an error occurred when formatting an argument"),
            CodecError::StringDecodingError(e) => utf8_error_text(e),
            CodecError::ParseError(_) => owned("Matching variant not found"),
        }
    }
}

impl ConnectionError {
    /// The text of the error.
    pub fn to_string(&self) -> (s: String)
        ensures
            connection_error_text(*self, s@),
    {
        match self {
            ConnectionError::Error(m) => concat2("Connection error: ", m.as_str()),
            ConnectionError::IoError(io) => io.message.clone(),
            ConnectionError::FrameError(c) => c.to_string(),
            ConnectionError::SendError(_) => owned("channel closed"),
            ConnectionError::MessageError(m) => concat2("Error message: ", error_msg_debug_text(m).as_str()),
            ConnectionError::MessageErrorId(m, _) => concat2("Error message: ", error_msg_debug_text(m).as_str()),
            ConnectionError::UnexpectedResponseError(t) => concat2("Unexpected response: ", t.name()),
        }
    }
}

impl PoolError {
    /// The text of the error.
    pub fn to_string(&self) -> (s: String)
        ensures
            pool_error_text(*self, s@),
    {
        match self {
            PoolError::User(c) => c.to_string(),
            PoolError::TimedOut => owned("Timed out in bb8"),
        }
    }
}

impl TChannelError {
    /// The text of the error.
    pub fn to_string(&self) -> (s: String)
        ensures
            tchannel_error_text(*self, s@),
    {
        match self {
            TChannelError::Error(m) => concat2("TChannel error: ", m.as_str()),
            TChannelError::CodecError(c) => c.to_string(),
            TChannelError::ConnectionError(c) => c.to_string(),
            TChannelError::ConnectionPoolError(p) => p.to_string(),
        }
    }
}

} // verus!
