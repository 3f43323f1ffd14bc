//! Payloads of frames and their codecs.
//!
//! Every payload type has a serialization (`ser_*`) and a parser (`parse_*`)
//! written as spec functions over byte sequences; the executable `encode`
//! and `decode` methods are proved to follow them, and the `lemma_*_roundtrip`
//! proofs show that parsing what was serialized gives the value back.
use crate::errors::CodecError;
use crate::name_map::{
    has_key, insert_entry, key_index, keys_distinct, lemma_insert_distinct, lemma_key_index,
    NameMap,
};
use crate::text::{
    concat2, concat3, decimal, decimal_text, lemma_utf8_roundtrip, owned, string_byte_len,
    string_bytes, string_from_utf8, utf8_bytes,
};
use crate::wire::{
    be16, be32, be64, copy_range, get_u16, get_u32, get_u64, holds_at, lemma_read16,
    lemma_read32, lemma_read64, put_slice, put_u16, put_u32, put_u64, put_u8, read16, read32,
    read64,
};
use vstd::prelude::*;
use vstd::utf8::{decode_utf8, valid_utf8};

verus! {

/// The protocol version this library speaks.
pub const PROTOCOL_VERSION: u16 = 2;

/// Length of the tracing field.
pub const TRACING_HEADER_LENGTH: u8 = 25;

/// Largest number of arguments a frame carries.
pub const MAX_FRAME_ARGS: usize = 3;

/// Length of an argument's length field (2 bytes, u16).
pub const ARG_LEN_LEN: usize = 2;

/// Result of encoding or decoding.
pub type CodecResult<T> = Result<T, CodecError>;

// ---------------------------------------------------------------------------
// Decoding failures

/// Why a payload could not be decoded.
pub enum DecodeError {
    /// The payload ends before a field does.
    Truncated,
    /// A flag or code byte has no meaning.
    UnknownFlag(u8),
    /// The payload has no room for arguments.
    MissingArgs,
    /// Bytes remain after the last argument a frame can hold.
    IncorrectFrameLength,
    /// Fewer than two bytes remain where an argument's length should be.
    ArgLengthUnreadable,
    /// An argument is longer than what remains of the payload.
    WrongArgLength(u16),
    /// A string is not valid UTF-8.
    InvalidUtf8,
}

/// Whether `e` is the error that reports `d`.
pub open spec fn reports(e: CodecError, d: DecodeError) -> bool {
    match d {
        DecodeError::Truncated => e matches CodecError::Error(m) && m@ == "Not enough bytes to decode"@,
        DecodeError::UnknownFlag(b) => e matches CodecError::Error(m) && m@ == "Unknown flag: "@
            + decimal(b as u64),
        DecodeError::MissingArgs => e matches CodecError::Error(m) && m@ == "Frame missing args"@,
        DecodeError::IncorrectFrameLength => e matches CodecError::Error(m) && m@
            == "Incorrect frame length"@,
        DecodeError::ArgLengthUnreadable => e matches CodecError::Error(m) && m@
            == "Cannot read arg length"@,
        DecodeError::WrongArgLength(l) => e matches CodecError::Error(m) && m@ == "Wrong arg length: "@
            + decimal(l as u64),
        DecodeError::InvalidUtf8 => e is StringDecodingError,
    }
}

/// The outcome of parsing at a position: the value and the position after it.
pub type Parsed<V> = Result<(V, int), DecodeError>;

/// Whether the executable result `r` matches the parse outcome `p`.
pub open spec fn decoded_as<T, V>(r: CodecResult<(T, usize)>, p: Parsed<V>, view: spec_fn(T) -> V) -> bool {
    match p {
        Ok((v, end)) => r matches Ok((t, e)) && view(t) == v && e == end,
        Err(d) => r matches Err(e) && reports(e, d),
    }
}

fn truncated() -> (e: CodecError)
    ensures
        reports(e, DecodeError::Truncated),
{
    CodecError::Error(owned("Not enough bytes to decode"))
}

fn unknown_flag(b: u8) -> (e: CodecError)
    ensures
        reports(e, DecodeError::UnknownFlag(b)),
{
    CodecError::Error(concat2("Unknown flag: ", decimal_text(b as u64).as_str()))
}

// ---------------------------------------------------------------------------
// Fixed-width fields

/// A byte at `pos`.
pub open spec fn parse_u8(s: Seq<u8>, pos: int) -> Parsed<u8> {
    if 0 <= pos && pos + 1 <= s.len() {
        Ok((s[pos], pos + 1))
    } else {
        Err(DecodeError::Truncated)
    }
}

/// A big-endian `u16` at `pos`.
pub open spec fn parse_u16(s: Seq<u8>, pos: int) -> Parsed<u16> {
    if 0 <= pos && pos + 2 <= s.len() {
        Ok((read16(s, pos), pos + 2))
    } else {
        Err(DecodeError::Truncated)
    }
}

/// A big-endian `u32` at `pos`.
pub open spec fn parse_u32(s: Seq<u8>, pos: int) -> Parsed<u32> {
    if 0 <= pos && pos + 4 <= s.len() {
        Ok((read32(s, pos), pos + 4))
    } else {
        Err(DecodeError::Truncated)
    }
}

/// A big-endian `u64` at `pos`.
pub open spec fn parse_u64(s: Seq<u8>, pos: int) -> Parsed<u64> {
    if 0 <= pos && pos + 8 <= s.len() {
        Ok((read64(s, pos), pos + 8))
    } else {
        Err(DecodeError::Truncated)
    }
}

fn take_u8(src: &[u8], pos: usize) -> (r: CodecResult<(u8, usize)>)
    ensures
        decoded_as(r, parse_u8(src@, pos as int), |x: u8| x),
{
    if pos < src.len() {
        Ok((src[pos], pos + 1))
    } else {
        Err(truncated())
    }
}

fn take_u16(src: &[u8], pos: usize) -> (r: CodecResult<(u16, usize)>)
    ensures
        decoded_as(r, parse_u16(src@, pos as int), |x: u16| x),
{
    if pos <= src.len() && src.len() - pos >= 2 {
        Ok((get_u16(src, pos), pos + 2))
    } else {
        Err(truncated())
    }
}

fn take_u32(src: &[u8], pos: usize) -> (r: CodecResult<(u32, usize)>)
    ensures
        decoded_as(r, parse_u32(src@, pos as int), |x: u32| x),
{
    if pos <= src.len() && src.len() - pos >= 4 {
        Ok((get_u32(src, pos), pos + 4))
    } else {
        Err(truncated())
    }
}

fn take_u64(src: &[u8], pos: usize) -> (r: CodecResult<(u64, usize)>)
    ensures
        decoded_as(r, parse_u64(src@, pos as int), |x: u64| x),
{
    if pos <= src.len() && src.len() - pos >= 8 {
        Ok((get_u64(src, pos), pos + 8))
    } else {
        Err(truncated())
    }
}

/// Where `s` holds `a + b` at `pos`, it holds `a` at `pos` and `b` right after.
pub proof fn lemma_holds_split(s: Seq<u8>, pos: int, a: Seq<u8>, b: Seq<u8>)
    requires
        holds_at(s, pos, a + b),
    ensures
        holds_at(s, pos, a),
        holds_at(s, pos + a.len(), b),
{
    let t = s.subrange(pos, pos + a.len() + b.len());
    assert(t == a + b);
    assert(s.subrange(pos, pos + a.len()) =~= t.subrange(0, a.len() as int));
    assert(t.subrange(0, a.len() as int) =~= a);
    assert(s.subrange(pos + a.len(), pos + a.len() + b.len()) =~= t.subrange(
        a.len() as int,
        (a.len() + b.len()) as int,
    ));
    assert(t.subrange(a.len() as int, (a.len() + b.len()) as int) =~= b);
}

pub proof fn lemma_parse_u8(s: Seq<u8>, pos: int, n: u8)
    requires
        holds_at(s, pos, seq![n]),
    ensures
        parse_u8(s, pos) == Ok::<(u8, int), DecodeError>((n, pos + 1)),
{
    assert(s[pos] == s.subrange(pos, pos + 1)[0]);
}

pub proof fn lemma_parse_u16(s: Seq<u8>, pos: int, n: u16)
    requires
        holds_at(s, pos, be16(n)),
    ensures
        parse_u16(s, pos) == Ok::<(u16, int), DecodeError>((n, pos + 2)),
{
    lemma_read16(s, pos, n);
}

pub proof fn lemma_parse_u32(s: Seq<u8>, pos: int, n: u32)
    requires
        holds_at(s, pos, be32(n)),
    ensures
        parse_u32(s, pos) == Ok::<(u32, int), DecodeError>((n, pos + 4)),
{
    lemma_read32(s, pos, n);
}

pub proof fn lemma_parse_u64(s: Seq<u8>, pos: int, n: u64)
    requires
        holds_at(s, pos, be64(n)),
    ensures
        parse_u64(s, pos) == Ok::<(u64, int), DecodeError>((n, pos + 8)),
{
    lemma_read64(s, pos, n);
}


// ---------------------------------------------------------------------------
// Codes and flags

/// Kinds of checksums of frame arguments.
#[derive(Debug, Clone, Copy, PartialEq, Eq, Structural)]
pub enum ChecksumType {
    /// No checksum.
    NoChecksum,
    /// crc-32 (adler-32)
    Crc32,
    /// Farmhash Fingerprint32
    Farmhash,
    /// crc-32C
    Crc32C,
}

/// The wire code of a checksum type.
pub open spec fn checksum_code(t: ChecksumType) -> u8 {
    match t {
        ChecksumType::NoChecksum => 0x00,
        ChecksumType::Crc32 => 0x01,
        ChecksumType::Farmhash => 0x02,
        ChecksumType::Crc32C => 0x03,
    }
}

/// The checksum type with wire code `b`.
pub open spec fn checksum_of_code(b: u8) -> Option<ChecksumType> {
    if b == 0x00 {
        Some(ChecksumType::NoChecksum)
    } else if b == 0x01 {
        Some(ChecksumType::Crc32)
    } else if b == 0x02 {
        Some(ChecksumType::Farmhash)
    } else if b == 0x03 {
        Some(ChecksumType::Crc32C)
    } else {
        None
    }
}

impl ChecksumType {
    /// The wire code.
    pub fn to_u8(&self) -> (b: u8)
        ensures
            b == checksum_code(*self),
    {
        match self {
            ChecksumType::NoChecksum => 0x00,
            ChecksumType::Crc32 => 0x01,
            ChecksumType::Farmhash => 0x02,
            ChecksumType::Crc32C => 0x03,
        }
    }

    /// The checksum type with wire code `b`.
    pub fn from_u8(b: u8) -> (r: Option<ChecksumType>)
        ensures
            r == checksum_of_code(b),
    {
        if b == 0x00 {
            Some(ChecksumType::NoChecksum)
        } else if b == 0x01 {
            Some(ChecksumType::Crc32)
        } else if b == 0x02 {
            Some(ChecksumType::Farmhash)
        } else if b == 0x03 {
            Some(ChecksumType::Crc32C)
        } else {
            None
        }
    }
}

/// The code of a call response.
#[derive(Debug, Clone, Copy, PartialEq, Eq, Structural)]
pub enum ResponseCode {
    Success,
    Error,
}

/// The wire code of a response code.
pub open spec fn response_code(c: ResponseCode) -> u8 {
    match c {
        ResponseCode::Success => 0x00,
        ResponseCode::Error => 0x01,
    }
}

/// The response code with wire code `b`.
pub open spec fn response_of_code(b: u8) -> Option<ResponseCode> {
    if b == 0x00 {
        Some(ResponseCode::Success)
    } else if b == 0x01 {
        Some(ResponseCode::Error)
    } else {
        None
    }
}

impl ResponseCode {
    /// The wire code.
    pub fn to_u8(&self) -> (b: u8)
        ensures
            b == response_code(*self),
    {
        match self {
            ResponseCode::Success => 0x00,
            ResponseCode::Error => 0x01,
        }
    }

    /// The response code with wire code `b`.
    pub fn from_u8(b: u8) -> (r: Option<ResponseCode>)
        ensures
            r == response_of_code(b),
    {
        if b == 0x00 {
            Some(ResponseCode::Success)
        } else if b == 0x01 {
            Some(ResponseCode::Error)
        } else {
            None
        }
    }
}

/// Codes of protocol level errors.
#[derive(Debug, Clone, Copy, PartialEq, Eq, Structural)]
pub enum ErrorCode {
    /// Not a valid value for code. Do not use.
    Invalid,
    /// No nodes responded successfully within the ttl deadline.
    Timeout,
    /// Request was cancelled with a cancel message.
    Cancelled,
    /// Node is too busy, this request is safe to retry elsewhere if desired.
    Busy,
    /// Node declined request for reasons other than load.
    Declined,
    /// Request resulted in an unexpected error. The request may have been completed before the error.
    UnexpectedError,
    /// Request args do not match expectations, request will never be satisfied, do not retry.
    BadRequest,
    /// A network error (e.g. socket error) occurred.
    NetworkError,
    /// A relay on the network declined to forward the request to an unhealthy node, do not retry.
    Unhealthy,
    /// Connection will close after this frame. message ID of this frame should be 0xFFFFFFFF.
    FatalProtocolError,
}

/// The name of an error code.
pub open spec fn error_code_name(c: ErrorCode) -> Seq<char> {
    match c {
        ErrorCode::Invalid => "Invalid"@,
        ErrorCode::Timeout => "Timeout"@,
        ErrorCode::Cancelled => "Cancelled"@,
        ErrorCode::Busy => "Busy"@,
        ErrorCode::Declined => "Declined"@,
        ErrorCode::UnexpectedError => "UnexpectedError"@,
        ErrorCode::BadRequest => "BadRequest"@,
        ErrorCode::NetworkError => "NetworkError"@,
        ErrorCode::Unhealthy => "Unhealthy"@,
        ErrorCode::FatalProtocolError => "FatalProtocolError"@,
    }
}

/// The wire code of an error code.
pub open spec fn error_code(c: ErrorCode) -> u8 {
    match c {
        ErrorCode::Invalid => 0x00,
        ErrorCode::Timeout => 0x01,
        ErrorCode::Cancelled => 0x02,
        ErrorCode::Busy => 0x03,
        ErrorCode::Declined => 0x04,
        ErrorCode::UnexpectedError => 0x05,
        ErrorCode::BadRequest => 0x06,
        ErrorCode::NetworkError => 0x07,
        ErrorCode::Unhealthy => 0x08,
        ErrorCode::FatalProtocolError => 0xff,
    }
}

/// The error code with wire code `b`.
pub open spec fn error_of_code(b: u8) -> Option<ErrorCode> {
    if b == 0x00 {
        Some(ErrorCode::Invalid)
    } else if b == 0x01 {
        Some(ErrorCode::Timeout)
    } else if b == 0x02 {
        Some(ErrorCode::Cancelled)
    } else if b == 0x03 {
        Some(ErrorCode::Busy)
    } else if b == 0x04 {
        Some(ErrorCode::Declined)
    } else if b == 0x05 {
        Some(ErrorCode::UnexpectedError)
    } else if b == 0x06 {
        Some(ErrorCode::BadRequest)
    } else if b == 0x07 {
        Some(ErrorCode::NetworkError)
    } else if b == 0x08 {
        Some(ErrorCode::Unhealthy)
    } else if b == 0xff {
        Some(ErrorCode::FatalProtocolError)
    } else {
        None
    }
}

impl ErrorCode {
    /// The name of the code.
    pub fn name(&self) -> (s: &'static str)
        ensures
            s@ == error_code_name(*self),
    {
        match self {
            ErrorCode::Invalid => "Invalid",
            ErrorCode::Timeout => "Timeout",
            ErrorCode::Cancelled => "Cancelled",
            ErrorCode::Busy => "Busy",
            ErrorCode::Declined => "Declined",
            ErrorCode::UnexpectedError => "UnexpectedError",
            ErrorCode::BadRequest => "BadRequest",
            ErrorCode::NetworkError => "NetworkError",
            ErrorCode::Unhealthy => "Unhealthy",
            ErrorCode::FatalProtocolError => "FatalProtocolError",
        }
    }

    /// The wire code.
    pub fn to_u8(&self) -> (b: u8)
        ensures
            b == error_code(*self),
    {
        match self {
            ErrorCode::Invalid => 0x00,
            ErrorCode::Timeout => 0x01,
            ErrorCode::Cancelled => 0x02,
            ErrorCode::Busy => 0x03,
            ErrorCode::Declined => 0x04,
            ErrorCode::UnexpectedError => 0x05,
            ErrorCode::BadRequest => 0x06,
            ErrorCode::NetworkError => 0x07,
            ErrorCode::Unhealthy => 0x08,
            ErrorCode::FatalProtocolError => 0xff,
        }
    }

    /// The error code with wire code `b`.
    pub fn from_u8(b: u8) -> (r: Option<ErrorCode>)
        ensures
            r == error_of_code(b),
    {
        if b == 0x00 {
            Some(ErrorCode::Invalid)
        } else if b == 0x01 {
            Some(ErrorCode::Timeout)
        } else if b == 0x02 {
            Some(ErrorCode::Cancelled)
        } else if b == 0x03 {
            Some(ErrorCode::Busy)
        } else if b == 0x04 {
            Some(ErrorCode::Declined)
        } else if b == 0x05 {
            Some(ErrorCode::UnexpectedError)
        } else if b == 0x06 {
            Some(ErrorCode::BadRequest)
        } else if b == 0x07 {
            Some(ErrorCode::NetworkError)
        } else if b == 0x08 {
            Some(ErrorCode::Unhealthy)
        } else if b == 0xff {
            Some(ErrorCode::FatalProtocolError)
        } else {
            None
        }
    }
}

/// Flags of call frames.
#[allow(non_camel_case_types)]
#[derive(Debug, Clone, Copy, PartialEq, Eq, Structural)]
pub enum Flags {
    NONE,
    MORE_FRAGMENTS_FOLLOW,
    IS_REQUEST_STREAMING,
    MORE_FRAGMENTS_FOLLOW_AND_IS_REQUEST_STREAMING,
}

/// The bits of flags.
pub open spec fn flag_bits(f: Flags) -> u8 {
    match f {
        Flags::NONE => 0x00,
        Flags::MORE_FRAGMENTS_FOLLOW => 0x01,
        Flags::IS_REQUEST_STREAMING => 0x02,
        Flags::MORE_FRAGMENTS_FOLLOW_AND_IS_REQUEST_STREAMING => 0x03,
    }
}

/// The flags with bits `b`: only the two lowest bits have a meaning.
pub open spec fn flags_of_bits(b: u8) -> Option<Flags> {
    if b == 0 {
        Some(Flags::NONE)
    } else if b == 1 {
        Some(Flags::MORE_FRAGMENTS_FOLLOW)
    } else if b == 2 {
        Some(Flags::IS_REQUEST_STREAMING)
    } else if b == 3 {
        Some(Flags::MORE_FRAGMENTS_FOLLOW_AND_IS_REQUEST_STREAMING)
    } else {
        None
    }
}

/// Whether flags say that more fragments follow.
pub open spec fn more_follow(f: Flags) -> bool {
    f == Flags::MORE_FRAGMENTS_FOLLOW || f == Flags::MORE_FRAGMENTS_FOLLOW_AND_IS_REQUEST_STREAMING
}

/// Whether all flags of `b` are set in `a`.
pub open spec fn flags_contain(a: Flags, b: Flags) -> bool {
    match b {
        Flags::NONE => true,
        Flags::MORE_FRAGMENTS_FOLLOW => more_follow(a),
        Flags::IS_REQUEST_STREAMING => a == Flags::IS_REQUEST_STREAMING || a
            == Flags::MORE_FRAGMENTS_FOLLOW_AND_IS_REQUEST_STREAMING,
        Flags::MORE_FRAGMENTS_FOLLOW_AND_IS_REQUEST_STREAMING => a
            == Flags::MORE_FRAGMENTS_FOLLOW_AND_IS_REQUEST_STREAMING,
    }
}

impl Flags {
    /// The raw bits.
    pub fn bits(&self) -> (b: u8)
        ensures
            b == flag_bits(*self),
    {
        match self {
            Flags::NONE => 0x00,
            Flags::MORE_FRAGMENTS_FOLLOW => 0x01,
            Flags::IS_REQUEST_STREAMING => 0x02,
            Flags::MORE_FRAGMENTS_FOLLOW_AND_IS_REQUEST_STREAMING => 0x03,
        }
    }

    /// The flags with bits `b`, if no unknown bit is set.
    pub fn from_bits(b: u8) -> (r: Option<Flags>)
        ensures
            r == flags_of_bits(b),
    {
        if b == 0 {
            Some(Flags::NONE)
        } else if b == 1 {
            Some(Flags::MORE_FRAGMENTS_FOLLOW)
        } else if b == 2 {
            Some(Flags::IS_REQUEST_STREAMING)
        } else if b == 3 {
            Some(Flags::MORE_FRAGMENTS_FOLLOW_AND_IS_REQUEST_STREAMING)
        } else {
            None
        }
    }

    /// Whether all flags of `other` are set.
    pub fn contains(&self, other: Flags) -> (b: bool)
        ensures
            b == flags_contain(*self, other),
    {
        match other {
            Flags::NONE => true,
            Flags::MORE_FRAGMENTS_FOLLOW => match self {
                Flags::MORE_FRAGMENTS_FOLLOW => true,
                Flags::MORE_FRAGMENTS_FOLLOW_AND_IS_REQUEST_STREAMING => true,
                _ => false,
            },
            Flags::IS_REQUEST_STREAMING => match self {
                Flags::IS_REQUEST_STREAMING => true,
                Flags::MORE_FRAGMENTS_FOLLOW_AND_IS_REQUEST_STREAMING => true,
                _ => false,
            },
            Flags::MORE_FRAGMENTS_FOLLOW_AND_IS_REQUEST_STREAMING => match self {
                Flags::MORE_FRAGMENTS_FOLLOW_AND_IS_REQUEST_STREAMING => true,
                _ => false,
            },
        }
    }
}

/// Every flags value's bits give it back.
pub proof fn lemma_flag_bits(f: Flags)
    ensures
        flags_of_bits(flag_bits(f)) == Some(f),
{
}

/// Flags of tracing.
#[allow(non_camel_case_types)]
#[derive(Debug, Clone, Copy, PartialEq, Eq, Structural)]
pub enum TraceFlags {
    NONE,
    ENABLED,
}

/// The name of trace flags.
pub open spec fn trace_flags_name(f: TraceFlags) -> Seq<char> {
    match f {
        TraceFlags::NONE => "NONE"@,
        TraceFlags::ENABLED => "ENABLED"@,
    }
}

/// The bits of trace flags.
pub open spec fn trace_flag_bits(f: TraceFlags) -> u8 {
    match f {
        TraceFlags::NONE => 0x00,
        TraceFlags::ENABLED => 0x01,
    }
}

/// The trace flags with bits `b`: only the lowest bit has a meaning.
pub open spec fn trace_flags_of_bits(b: u8) -> Option<TraceFlags> {
    if b == 0 {
        Some(TraceFlags::NONE)
    } else if b == 1 {
        Some(TraceFlags::ENABLED)
    } else {
        None
    }
}

impl TraceFlags {
    /// The name of the flags.
    pub fn name(&self) -> (s: &'static str)
        ensures
            s@ == trace_flags_name(*self),
    {
        match self {
            TraceFlags::NONE => "NONE",
            TraceFlags::ENABLED => "ENABLED",
        }
    }

    /// The raw bits.
    pub fn bits(&self) -> (b: u8)
        ensures
            b == trace_flag_bits(*self),
    {
        match self {
            TraceFlags::NONE => 0x00,
            TraceFlags::ENABLED => 0x01,
        }
    }

    /// The trace flags with bits `b`, if no unknown bit is set.
    pub fn from_bits(b: u8) -> (r: Option<TraceFlags>)
        ensures
            r == trace_flags_of_bits(b),
    {
        if b == 0 {
            Some(TraceFlags::NONE)
        } else if b == 1 {
            Some(TraceFlags::ENABLED)
        } else {
            None
        }
    }
}

/// A byte read through a table of meanings; an unknown byte is an error.
pub open spec fn parse_coded<T>(s: Seq<u8>, pos: int, table: spec_fn(u8) -> Option<T>) -> Parsed<T> {
    match parse_u8(s, pos) {
        Ok((b, end)) => match table(b) {
            Some(t) => Ok((t, end)),
            None => Err(DecodeError::UnknownFlag(b)),
        },
        Err(e) => Err(e),
    }
}

// ---------------------------------------------------------------------------
// Tracing

/// Tracing information of a call.
#[derive(Debug, Clone, Copy, PartialEq, Eq, Structural)]
pub struct Tracing {
    pub span_id: u64,
    pub parent_id: u64,
    pub trace_id: u64,
    pub trace_flags: TraceFlags,
}

/// The bytes of tracing information.
pub open spec fn ser_tracing(t: Tracing) -> Seq<u8> {
    be64(t.span_id) + be64(t.parent_id) + be64(t.trace_id) + seq![trace_flag_bits(t.trace_flags)]
}

/// Tracing information at `pos`.
pub open spec fn parse_tracing(s: Seq<u8>, pos: int) -> Parsed<Tracing> {
    match parse_u64(s, pos) {
        Err(e) => Err(e),
        Ok((span_id, p1)) => match parse_u64(s, p1) {
            Err(e) => Err(e),
            Ok((parent_id, p2)) => match parse_u64(s, p2) {
                Err(e) => Err(e),
                Ok((trace_id, p3)) => match parse_coded(s, p3, |b: u8| trace_flags_of_bits(b)) {
                    Err(e) => Err(e),
                    Ok((trace_flags, p4)) => Ok((Tracing { span_id, parent_id, trace_id, trace_flags }, p4)),
                },
            },
        },
    }
}

impl Tracing {
    /// Tracing information with the given ids and flags.
    pub fn new(span_id: u64, parent_id: u64, trace_id: u64, trace_flags: TraceFlags) -> (t: Tracing)
        ensures
            t == (Tracing { span_id, parent_id, trace_id, trace_flags }),
    {
        Tracing { span_id, parent_id, trace_id, trace_flags }
    }

    /// Appends the bytes of the tracing information.
    pub fn encode(self, dst: &mut Vec<u8>) -> (r: CodecResult<()>)
        ensures
            r is Ok,
            final(dst)@ == old(dst)@ + ser_tracing(self),
    {
        put_u64(dst, self.span_id);
        put_u64(dst, self.parent_id);
        put_u64(dst, self.trace_id);
        put_u8(dst, self.trace_flags.bits());
        assert(dst@ =~= old(dst)@ + ser_tracing(self));
        Ok(())
    }

    /// Reads tracing information at `pos`.
    pub fn decode_at(src: &[u8], pos: usize) -> (r: CodecResult<(Tracing, usize)>)
        ensures
            decoded_as(r, parse_tracing(src@, pos as int), |t: Tracing| t),
    {
        let (span_id, p1) = take_u64(src, pos)?;
        let (parent_id, p2) = take_u64(src, p1)?;
        let (trace_id, p3) = take_u64(src, p2)?;
        let (b, p4) = take_u8(src, p3)?;
        match TraceFlags::from_bits(b) {
            Some(trace_flags) => Ok((Tracing { span_id, parent_id, trace_id, trace_flags }, p4)),
            None => Err(unknown_flag(b)),
        }
    }
}

impl Default for Tracing {
    fn default() -> (t: Tracing)
        ensures
            t == (Tracing { span_id: 0, parent_id: 0, trace_id: 0, trace_flags: TraceFlags::NONE }),
    {
        Tracing { span_id: 0, parent_id: 0, trace_id: 0, trace_flags: TraceFlags::NONE }
    }
}

/// Parsing the bytes of tracing information gives it back.
pub proof fn lemma_tracing_roundtrip(s: Seq<u8>, pos: int, t: Tracing)
    requires
        holds_at(s, pos, ser_tracing(t)),
    ensures
        parse_tracing(s, pos) == Ok::<(Tracing, int), DecodeError>((t, pos + 25)),
{
    let a = be64(t.span_id);
    let b = be64(t.parent_id);
    let c = be64(t.trace_id);
    let d = seq![trace_flag_bits(t.trace_flags)];
    assert(ser_tracing(t) == a + b + c + d);
    lemma_holds_split(s, pos, a + b + c, d);
    lemma_holds_split(s, pos, a + b, c);
    lemma_holds_split(s, pos, a, b);
    lemma_parse_u64(s, pos, t.span_id);
    lemma_parse_u64(s, pos + 8, t.parent_id);
    lemma_parse_u64(s, pos + 16, t.trace_id);
    lemma_parse_u8(s, pos + 24, trace_flag_bits(t.trace_flags));
}

/// A protocol level error.
#[derive(Debug, PartialEq)]
pub struct ErrorMsg {
    pub code: ErrorCode,
    pub tracing: Tracing,
    pub message: String,
}

// ---------------------------------------------------------------------------
// Strings

/// The largest length a string's length field can hold.
pub open spec fn len_limit(small: bool) -> int {
    if small {
        255
    } else {
        65535
    }
}

/// The bytes of a length field.
pub open spec fn ser_len(n: int, small: bool) -> Seq<u8> {
    if small {
        seq![n as u8]
    } else {
        be16(n as u16)
    }
}

/// The bytes of a string: its UTF-8 length (one byte when `small`, two bytes
/// otherwise), then its UTF-8 bytes.
pub open spec fn ser_string(v: Seq<char>, small: bool) -> Seq<u8> {
    ser_len(utf8_bytes(v).len() as int, small) + utf8_bytes(v)
}

/// Whether a string's length fits its length field.
pub open spec fn string_fits(v: Seq<char>, small: bool) -> bool {
    utf8_bytes(v).len() <= len_limit(small)
}

/// A length field at `pos`.
pub open spec fn parse_len(s: Seq<u8>, pos: int, small: bool) -> Parsed<int> {
    if small {
        match parse_u8(s, pos) {
            Ok((n, p)) => Ok((n as int, p)),
            Err(e) => Err(e),
        }
    } else {
        match parse_u16(s, pos) {
            Ok((n, p)) => Ok((n as int, p)),
            Err(e) => Err(e),
        }
    }
}

/// A string at `pos`.
pub open spec fn parse_string(s: Seq<u8>, pos: int, small: bool) -> Parsed<Seq<char>> {
    match parse_len(s, pos, small) {
        Err(e) => Err(e),
        Ok((n, p)) => if p + n > s.len() {
            Err(DecodeError::Truncated)
        } else if !valid_utf8(s.subrange(p, p + n)) {
            Err(DecodeError::InvalidUtf8)
        } else {
            Ok((decode_utf8(s.subrange(p, p + n)), p + n))
        },
    }
}

/// The message of the error for a length that does not fit its field.
pub open spec fn cast_len_message(n: int) -> Seq<char> {
    "Failed to cast '"@ + decimal(n as u64) + "' len."@
}

/// Appends a length field.
fn encode_len(dst: &mut Vec<u8>, n: usize, small: bool) -> (r: CodecResult<()>)
    ensures
        r is Ok <==> n <= len_limit(small),
        r is Ok ==> final(dst)@ == old(dst)@ + ser_len(n as int, small),
        r matches Err(e) ==> e matches CodecError::Error(m) && m@ == cast_len_message(n as int),
        r is Err ==> final(dst)@ == old(dst)@,
{
    if small {
        if n <= 255 {
            put_u8(dst, n as u8);
            Ok(())
        } else {
            Err(CodecError::Error(concat3("Failed to cast '", decimal_text(n as u64).as_str(), "' len.")))
        }
    } else {
        if n <= 65535 {
            put_u16(dst, n as u16);
            Ok(())
        } else {
            Err(CodecError::Error(concat3("Failed to cast '", decimal_text(n as u64).as_str(), "' len.")))
        }
    }
}

/// Appends the bytes of a string.
pub fn encode_string(value: &String, dst: &mut Vec<u8>, small: bool) -> (r: CodecResult<()>)
    ensures
        r is Ok <==> string_fits(value@, small),
        r is Ok ==> final(dst)@ == old(dst)@ + ser_string(value@, small),
        r matches Err(e) ==> e matches CodecError::Error(m) && m@ == cast_len_message(
            utf8_bytes(value@).len() as int,
        ),
{
    let bytes: Vec<u8> = string_bytes(value);
    encode_len(dst, bytes.len(), small)?;
    put_slice(dst, bytes.as_slice());
    assert(dst@ =~= old(dst)@ + ser_string(value@, small));
    Ok(())
}

fn decode_len(src: &[u8], pos: usize, small: bool) -> (r: CodecResult<(usize, usize)>)
    ensures
        decoded_as(r, parse_len(src@, pos as int, small), |x: usize| x as int),
        r matches Ok((n, p)) ==> p <= src@.len() && n <= 65535,
{
    if small {
        let (n, p) = take_u8(src, pos)?;
        Ok((n as usize, p))
    } else {
        let (n, p) = take_u16(src, pos)?;
        Ok((n as usize, p))
    }
}

/// Reads a string at `pos`.
pub fn decode_string(src: &[u8], pos: usize, small: bool) -> (r: CodecResult<(String, usize)>)
    ensures
        decoded_as(r, parse_string(src@, pos as int, small), |x: String| x@),
{
    let (n, p) = decode_len(src, pos, small)?;
    if src.len() - p < n {
        return Err(truncated());
    }
    let bytes: Vec<u8> = copy_range(src, p, n);
    match string_from_utf8(bytes) {
        Ok(value) => Ok((value, p + n)),
        Err(e) => Err(CodecError::StringDecodingError(e)),
    }
}

/// Parsing the bytes of a string that fits gives it back.
pub proof fn lemma_string_roundtrip(s: Seq<u8>, pos: int, v: Seq<char>, small: bool)
    requires
        holds_at(s, pos, ser_string(v, small)),
        string_fits(v, small),
    ensures
        parse_string(s, pos, small) == Ok::<(Seq<char>, int), DecodeError>(
            (v, pos + ser_string(v, small).len()),
        ),
{
    let b = utf8_bytes(v);
    let n = b.len() as int;
    lemma_holds_split(s, pos, ser_len(n, small), b);
    if small {
        lemma_parse_u8(s, pos, n as u8);
    } else {
        lemma_parse_u16(s, pos, n as u16);
    }
    let p = pos + ser_len(n, small).len();
    assert(s.subrange(p, p + n) == b);
    lemma_utf8_roundtrip(v);
}

// ---------------------------------------------------------------------------
// Headers

/// Headers of a frame: names mapped to values.
pub type Headers = NameMap<String>;

/// The text of header entries.
pub open spec fn headers_text(es: Seq<(Seq<char>, String)>) -> Seq<(Seq<char>, Seq<char>)> {
    es.map_values(|e: (Seq<char>, String)| (e.0, e.1@))
}

/// The bytes of header entries, each key then value.
pub open spec fn ser_pairs(es: Seq<(Seq<char>, Seq<char>)>, small: bool) -> Seq<u8>
    decreases es.len(),
{
    if es.len() == 0 {
        Seq::empty()
    } else {
        ser_pairs(es.drop_last(), small) + ser_string(es.last().0, small) + ser_string(
            es.last().1,
            small,
        )
    }
}

/// The bytes of headers: their count, then the entries. Small headers have
/// one-byte counts and lengths, others two-byte ones.
pub open spec fn ser_headers(es: Seq<(Seq<char>, Seq<char>)>, small: bool) -> Seq<u8> {
    ser_len(es.len() as int, small) + ser_pairs(es, small)
}

/// Whether headers fit their count and length fields.
pub open spec fn headers_fit(es: Seq<(Seq<char>, Seq<char>)>, small: bool) -> bool {
    &&& es.len() <= len_limit(small)
    &&& forall|i: int| 0 <= i < es.len() ==> string_fits(#[trigger] es[i].0, small) && string_fits(
        es[i].1,
        small,
    )
}

/// The message of the error for the first header entry whose key or value
/// is too long.
pub open spec fn pairs_error_message(es: Seq<(Seq<char>, Seq<char>)>, small: bool) -> Seq<char>
    decreases es.len(),
{
    if es.len() == 0 {
        Seq::empty()
    } else if !string_fits(es[0].0, small) {
        cast_len_message(utf8_bytes(es[0].0).len() as int)
    } else if !string_fits(es[0].1, small) {
        cast_len_message(utf8_bytes(es[0].1).len() as int)
    } else {
        pairs_error_message(es.drop_first(), small)
    }
}

/// The message of the error for headers that cannot be encoded: too many
/// entries, or the first entry too long.
pub open spec fn headers_error_message(es: Seq<(Seq<char>, Seq<char>)>, small: bool) -> Seq<char> {
    if es.len() > len_limit(small) {
        cast_len_message(es.len() as int)
    } else {
        pairs_error_message(es, small)
    }
}

/// Entries that fit do not decide the error of headers.
proof fn lemma_pairs_error_skip(es: Seq<(Seq<char>, Seq<char>)>, small: bool, i: int)
    requires
        0 <= i <= es.len(),
        forall|j: int| 0 <= j < i ==> string_fits(#[trigger] es[j].0, small) && string_fits(es[j].1, small),
    ensures
        pairs_error_message(es, small) == pairs_error_message(es.skip(i), small),
    decreases i,
{
    if i > 0 {
        let t = es.drop_first();
        assert(string_fits(es[0].0, small) && string_fits(es[0].1, small));
        assert forall|j: int| 0 <= j < i - 1 implies string_fits(#[trigger] t[j].0, small) && string_fits(
            t[j].1,
            small,
        ) by {
            assert(t[j] == es[j + 1]);
        }
        lemma_pairs_error_skip(t, small, i - 1);
        assert(t.skip(i - 1) =~= es.skip(i));
    } else {
        assert(es.skip(0) =~= es);
    }
}

/// `n` header entries at `pos`, stored into `acc` in order.
pub open spec fn parse_pairs(
    s: Seq<u8>,
    pos: int,
    small: bool,
    n: nat,
    acc: Seq<(Seq<char>, Seq<char>)>,
) -> Parsed<Seq<(Seq<char>, Seq<char>)>>
    decreases n,
{
    if n == 0 {
        Ok((acc, pos))
    } else {
        match parse_string(s, pos, small) {
            Err(e) => Err(e),
            Ok((k, p1)) => match parse_string(s, p1, small) {
                Err(e) => Err(e),
                Ok((v, p2)) => parse_pairs(s, p2, small, (n - 1) as nat, insert_entry(acc, k, v)),
            },
        }
    }
}

/// Headers at `pos`; an entry with a repeated key replaces the earlier one.
pub open spec fn parse_headers(s: Seq<u8>, pos: int, small: bool) -> Parsed<Seq<(Seq<char>, Seq<char>)>> {
    match parse_len(s, pos, small) {
        Err(e) => Err(e),
        Ok((n, p)) => parse_pairs(s, p, small, n as nat, Seq::empty()),
    }
}

pub proof fn lemma_headers_text_insert(es: Seq<(Seq<char>, String)>, k: String, v: String)
    requires
        keys_distinct(es),
    ensures
        headers_text(insert_entry(es, k@, v)) == insert_entry(headers_text(es), k@, v@),
{
    let t = headers_text(es);
    assert(forall|i: int| 0 <= i < es.len() ==> #[trigger] t[i].0 == es[i].0);
    assert(keys_distinct(t)) by {
        assert forall|i: int, j: int| 0 <= i < t.len() && 0 <= j < t.len() && i != j implies t[i].0
            != t[j].0 by {
            assert(es[i].0 != es[j].0);
        }
    }
    if has_key(es, k@) {
        let i = key_index(es, k@);
        assert(es[i].0 == k@);
        lemma_key_index(es, i);
        assert(t[i].0 == k@);
        lemma_key_index(t, i);
        assert(headers_text(insert_entry(es, k@, v)) =~= insert_entry(t, k@, v@));
    } else {
        assert(!has_key(t, k@)) by {
            if has_key(t, k@) {
                let j = key_index(t, k@);
                assert(es[j].0 == k@);
            }
        }
        assert(headers_text(insert_entry(es, k@, v)) =~= insert_entry(t, k@, v@));
    }
}

/// Appends the bytes of headers.
pub fn encode_headers(headers: &Headers, dst: &mut Vec<u8>, small: bool) -> (r: CodecResult<()>)
    ensures
        r is Ok <==> headers_fit(headers_text(headers@), small),
        r is Ok ==> final(dst)@ == old(dst)@ + ser_headers(headers_text(headers@), small),
        r matches Err(e) ==> e matches CodecError::Error(m) && m@ == headers_error_message(headers_text(headers@), small),
{
    let ghost es = headers_text(headers@);
    let count: usize = headers.len();
    encode_len(dst, count, small)?;
    let ghost start = dst@;
    let mut i: usize = 0;
    while i < count
        invariant
            i <= count,
            count == headers@.len(),
            es == headers_text(headers@),
            count <= len_limit(small),
            start == old(dst)@ + ser_len(count as int, small),
            dst@ == start + ser_pairs(es.take(i as int), small),
            forall|j: int| 0 <= j < i ==> string_fits(#[trigger] es[j].0, small) && string_fits(es[j].1, small),
        decreases count - i,
    {
        let (key, value) = headers.entry_at(i);
        assert(es[i as int].0 == key@ && es[i as int].1 == value@);
        assert(es.take(i + 1).drop_last() =~= es.take(i as int));
        let r1 = encode_string(key, dst, small);
        if r1.is_err() {
            proof {
                lemma_pairs_error_skip(es, small, i as int);
                assert(es.skip(i as int)[0] == es[i as int]);
            }
            return r1;
        }
        assert(string_fits(key@, small));
        let r2 = encode_string(value, dst, small);
        if r2.is_err() {
            proof {
                lemma_pairs_error_skip(es, small, i as int);
                assert(es.skip(i as int)[0] == es[i as int]);
            }
            return r2;
        }
        assert(string_fits(value@, small));
        let ghost k = i as int;
        assert(string_fits(es[k].0, small) && string_fits(es[k].1, small));
        i = i + 1;
        assert forall|j: int| 0 <= j < i implies string_fits(#[trigger] es[j].0, small) && string_fits(
            es[j].1,
            small,
        ) by {
            if j == k {
                assert(string_fits(es[j].0, small));
                assert(string_fits(es[j].1, small));
            } else {
                assert(j < k);
                assert(string_fits(es[j].0, small));
                assert(string_fits(es[j].1, small));
            }
        }
        assert(dst@ =~= start + ser_pairs(es.take(i as int), small));
    }
    assert(es.take(count as int) =~= es);
    assert(dst@ =~= old(dst)@ + ser_headers(es, small));
    Ok(())
}

/// Reads headers at `pos`.
pub fn decode_headers(src: &[u8], pos: usize, small: bool) -> (r: CodecResult<(Headers, usize)>)
    ensures
        decoded_as(r, parse_headers(src@, pos as int, small), |h: Headers| headers_text(h@)),
{
    let (n, p0) = decode_len(src, pos, small)?;
    let mut headers: Headers = NameMap::new();
    let mut p: usize = p0;
    let mut i: usize = 0;
    assert(headers_text(headers@) =~= Seq::<(Seq<char>, Seq<char>)>::empty());
    while i < n
        invariant
            i <= n,
            keys_distinct(headers@),
            parse_headers(src@, pos as int, small) == parse_pairs(
                src@,
                p as int,
                small,
                (n - i) as nat,
                headers_text(headers@),
            ),
        decreases n - i,
    {
        let (key, p1) = decode_string(src, p, small)?;
        let (value, p2) = decode_string(src, p1, small)?;
        proof {
            lemma_headers_text_insert(headers@, key, value);
        }
        headers.insert(key, value);
        p = p2;
        i = i + 1;
    }
    Ok((headers, p))
}

/// Inserting entries with distinct keys one after another rebuilds them.
proof fn lemma_inserts_rebuild(es: Seq<(Seq<char>, Seq<char>)>, i: int)
    requires
        keys_distinct(es),
        0 <= i < es.len(),
    ensures
        insert_entry(es.take(i), es[i].0, es[i].1) == es.take(i + 1),
{
    let pre = es.take(i);
    assert(!has_key(pre, es[i].0)) by {
        if has_key(pre, es[i].0) {
            let j = key_index(pre, es[i].0);
            assert(es[j].0 == es[i].0);
        }
    }
    assert(pre.push((es[i].0, es[i].1)) =~= es.take(i + 1));
}

/// Parsing the bytes of headers with distinct keys that fit gives them back.
pub proof fn lemma_headers_roundtrip(s: Seq<u8>, pos: int, es: Seq<(Seq<char>, Seq<char>)>, small: bool)
    requires
        holds_at(s, pos, ser_headers(es, small)),
        headers_fit(es, small),
        keys_distinct(es),
    ensures
        parse_headers(s, pos, small) == Ok::<(Seq<(Seq<char>, Seq<char>)>, int), DecodeError>(
            (es, pos + ser_headers(es, small).len()),
        ),
{
    let n = es.len() as int;
    lemma_holds_split(s, pos, ser_len(n, small), ser_pairs(es, small));
    if small {
        lemma_parse_u8(s, pos, n as u8);
    } else {
        lemma_parse_u16(s, pos, n as u16);
    }
    let p = pos + ser_len(n, small).len();
    lemma_pairs_roundtrip(s, p, es, small, 0);
    assert(es.take(0) =~= Seq::<(Seq<char>, Seq<char>)>::empty());
}

/// From the `k`-th entry on, parsing the pair bytes finishes the entries.
proof fn lemma_pairs_roundtrip(
    s: Seq<u8>,
    p: int,
    es: Seq<(Seq<char>, Seq<char>)>,
    small: bool,
    k: int,
)
    requires
        holds_at(s, p, ser_pairs(es, small)),
        headers_fit(es, small),
        keys_distinct(es),
        0 <= k <= es.len(),
    ensures
        parse_pairs(s, p + ser_pairs(es.take(k), small).len(), small, (es.len() - k) as nat, es.take(k))
            == Ok::<(Seq<(Seq<char>, Seq<char>)>, int), DecodeError>((es, p + ser_pairs(es, small).len())),
    decreases es.len() - k,
{
    if k == es.len() {
        assert(es.take(k) =~= es);
    } else {
        lemma_pairs_prefix(es, small, k + 1);
        let pre = ser_pairs(es.take(k), small);
        let a = ser_string(es[k].0, small);
        let b = ser_string(es[k].1, small);
        assert(es.take(k + 1).drop_last() =~= es.take(k));
        assert(ser_pairs(es.take(k + 1), small) == pre + a + b);
        lemma_holds_prefix(s, p, ser_pairs(es, small), pre + a + b);
        lemma_holds_split(s, p, pre + a, b);
        lemma_holds_split(s, p, pre, a);
        lemma_string_roundtrip(s, p + pre.len(), es[k].0, small);
        lemma_string_roundtrip(s, p + pre.len() + a.len(), es[k].1, small);
        lemma_inserts_rebuild(es, k);
        lemma_pairs_roundtrip(s, p, es, small, k + 1);
    }
}

/// The pair bytes of a prefix of the entries are a prefix of their pair bytes.
proof fn lemma_pairs_prefix(es: Seq<(Seq<char>, Seq<char>)>, small: bool, k: int)
    requires
        0 <= k <= es.len(),
    ensures
        ser_pairs(es, small).len() >= ser_pairs(es.take(k), small).len(),
        ser_pairs(es, small).subrange(0, ser_pairs(es.take(k), small).len() as int) == ser_pairs(
            es.take(k),
            small,
        ),
    decreases es.len() - k,
{
    if k == es.len() {
        assert(es.take(k) =~= es);
        assert(ser_pairs(es, small).subrange(0, ser_pairs(es, small).len() as int) =~= ser_pairs(es, small));
    } else {
        lemma_pairs_prefix(es, small, k + 1);
        let t = es.take(k + 1);
        assert(t.drop_last() =~= es.take(k));
        let whole = ser_pairs(es, small);
        let big = ser_pairs(t, small);
        let small_one = ser_pairs(es.take(k), small);
        assert(big == small_one + ser_string(t.last().0, small) + ser_string(t.last().1, small));
        assert(whole.subrange(0, small_one.len() as int) =~= big.subrange(0, small_one.len() as int));
        assert(big.subrange(0, small_one.len() as int) =~= small_one);
    }
}

/// Where `s` holds `t` at `pos`, it holds every prefix of `t` there.
pub proof fn lemma_holds_prefix(s: Seq<u8>, pos: int, t: Seq<u8>, pre: Seq<u8>)
    requires
        holds_at(s, pos, t),
        pre.len() <= t.len(),
        t.subrange(0, pre.len() as int) == pre,
    ensures
        holds_at(s, pos, pre),
{
    assert(s.subrange(pos, pos + pre.len()) =~= t.subrange(0, pre.len() as int));
}

// ---------------------------------------------------------------------------
// Checksums

/// The bytes of a checksum: the type code, then the value unless the type is
/// `NoChecksum`.
pub open spec fn ser_checksum(t: ChecksumType, c: Option<u32>) -> Seq<u8> {
    if t == ChecksumType::NoChecksum {
        seq![checksum_code(t)]
    } else {
        seq![checksum_code(t)] + be32(c.unwrap())
    }
}

/// A checksum at `pos`.
pub open spec fn parse_checksum(s: Seq<u8>, pos: int) -> Parsed<(ChecksumType, Option<u32>)> {
    match parse_coded(s, pos, |b: u8| checksum_of_code(b)) {
        Err(e) => Err(e),
        Ok((t, p)) => if t == ChecksumType::NoChecksum {
            Ok(((t, None), p))
        } else {
            match parse_u32(s, p) {
                Err(e) => Err(e),
                Ok((c, p2)) => Ok(((t, Some(c)), p2)),
            }
        },
    }
}

/// Appends the bytes of a checksum; a checksum type other than `NoChecksum`
/// needs a value.
pub fn encode_checksum(checksum_type: ChecksumType, value: Option<u32>, dst: &mut Vec<u8>) -> (r:
    CodecResult<()>)
    ensures
        r is Ok <==> (checksum_type == ChecksumType::NoChecksum || value is Some),
        r is Ok ==> final(dst)@ == old(dst)@ + ser_checksum(checksum_type, value),
        r matches Err(e) ==> e matches CodecError::Error(m) && m@ == "Missing checksum value."@,
{
    put_u8(dst, checksum_type.to_u8());
    match checksum_type {
        ChecksumType::NoChecksum => {
            Ok(())
        },
        _ => match value {
            Some(c) => {
                put_u32(dst, c);
                assert(dst@ =~= old(dst)@ + ser_checksum(checksum_type, value));
                Ok(())
            },
            None => Err(CodecError::Error(owned("Missing checksum value."))),
        },
    }
}

/// Reads a checksum at `pos`.
pub fn decode_checksum(src: &[u8], pos: usize) -> (r: CodecResult<((ChecksumType, Option<u32>), usize)>)
    ensures
        decoded_as(r, parse_checksum(src@, pos as int), |x: (ChecksumType, Option<u32>)| x),
{
    let (b, p) = take_u8(src, pos)?;
    let checksum_type: ChecksumType = match ChecksumType::from_u8(b) {
        Some(t) => t,
        None => return Err(unknown_flag(b)),
    };
    match checksum_type {
        ChecksumType::NoChecksum => Ok(((ChecksumType::NoChecksum, None), p)),
        _ => {
            let (c, p2) = take_u32(src, p)?;
            Ok(((checksum_type, Some(c)), p2))
        },
    }
}

// ---------------------------------------------------------------------------
// Arguments

/// The bytes of one argument: its length, then its bytes. An absent argument
/// has length zero.
pub open spec fn ser_arg(a: Option<Seq<u8>>) -> Seq<u8> {
    match a {
        None => be16(0),
        Some(b) => be16(b.len() as u16) + b,
    }
}

/// The bytes of a list of arguments.
pub open spec fn ser_arg_list(args: Seq<Option<Seq<u8>>>) -> Seq<u8>
    decreases args.len(),
{
    if args.len() == 0 {
        Seq::empty()
    } else {
        ser_arg_list(args.drop_last()) + ser_arg(args.last())
    }
}

/// Whether a list of arguments can be encoded: one to three arguments, each
/// no longer than a length field can say.
pub open spec fn args_fit(args: Seq<Option<Seq<u8>>>) -> bool {
    &&& 1 <= args.len() <= 3
    &&& forall|i: int| 0 <= i < args.len() ==> (#[trigger] args[i] matches Some(b) ==> b.len() <= 65535)
}

/// Whether no argument is present but empty (such an argument is encoded
/// like an absent one).
pub open spec fn args_normal(args: Seq<Option<Seq<u8>>>) -> bool {
    forall|i: int| 0 <= i < args.len() ==> (#[trigger] args[i] matches Some(b) ==> b.len() > 0)
}

/// One argument at `pos`.
pub open spec fn parse_arg(s: Seq<u8>, pos: int) -> Parsed<Option<Seq<u8>>> {
    if s.len() - pos < 2 {
        Err(DecodeError::ArgLengthUnreadable)
    } else if read16(s, pos) == 0 {
        Ok((None, pos + 2))
    } else if read16(s, pos) > s.len() - pos - 2 {
        Err(DecodeError::WrongArgLength(read16(s, pos)))
    } else {
        Ok((Some(s.subrange(pos + 2, pos + 2 + read16(s, pos))), pos + 2 + read16(s, pos)))
    }
}

/// Arguments from `pos` until the end of `s` or until three have been read.
pub open spec fn parse_arg_list(s: Seq<u8>, pos: int, acc: Seq<Option<Seq<u8>>>) -> Parsed<
    Seq<Option<Seq<u8>>>,
>
    decreases 3 - acc.len(),
{
    if pos >= s.len() || acc.len() >= 3 {
        Ok((acc, pos))
    } else {
        match parse_arg(s, pos) {
            Err(e) => Err(e),
            Ok((a, p)) => parse_arg_list(s, p, acc.push(a)),
        }
    }
}

/// The arguments of a frame, which fill the rest of its payload.
pub open spec fn parse_args(s: Seq<u8>, pos: int) -> Parsed<Seq<Option<Seq<u8>>>> {
    if pos >= s.len() {
        Err(DecodeError::MissingArgs)
    } else {
        match parse_arg_list(s, pos, Seq::empty()) {
            Err(e) => Err(e),
            Ok((args, p)) => if p < s.len() {
                Err(DecodeError::IncorrectFrameLength)
            } else {
                Ok((args, p))
            },
        }
    }
}

/// The bytes of arguments as sequences.
pub open spec fn args_view(args: Seq<Option<Vec<u8>>>) -> Seq<Option<Seq<u8>>> {
    args.map_values(|a: Option<Vec<u8>>| match a {
        Some(b) => Some(b@),
        None => None,
    })
}

/// The message of the error for a wrong number of arguments.
pub open spec fn arg_count_message(n: int) -> Seq<char> {
    "Wrong number of frame args "@ + decimal(n as u64)
}

/// The message of the error for arguments that cannot be encoded.
pub open spec fn args_error_message(args: Seq<Option<Seq<u8>>>) -> Seq<char> {
    if args.len() == 0 || args.len() > 3 {
        arg_count_message(args.len() as int)
    } else {
        "Not enough capacity to encode arg"@
    }
}

/// Appends the bytes of a list of arguments.
pub fn encode_args(args: &Vec<Option<Vec<u8>>>, dst: &mut Vec<u8>) -> (r: CodecResult<()>)
    ensures
        r is Ok <==> args_fit(args_view(args@)),
        r is Ok ==> final(dst)@ == old(dst)@ + ser_arg_list(args_view(args@)),
        r matches Err(e) ==> e matches CodecError::Error(m) && m@ == args_error_message(args_view(args@)),
        args@.len() == 0 || args@.len() > 3 ==> (r matches Err(CodecError::Error(m)) && m@
            == arg_count_message(args@.len() as int)) && final(dst)@ == old(dst)@,
        1 <= args@.len() <= 3 && r is Err ==> exists|k: int|
            #![trigger args_view(args@)[k]]
            {
                &&& 0 <= k < args@.len()
                &&& (args_view(args@)[k] matches Some(b) && b.len() > 65535)
                &&& final(dst)@ == old(dst)@ + ser_arg_list(args_view(args@).take(k))
                &&& (r matches Err(CodecError::Error(m)) && m@ == "Not enough capacity to encode arg"@)
            },
{
    let ghost v = args_view(args@);
    let args_len: usize = args.len();
    if args_len == 0 || args_len > MAX_FRAME_ARGS {
        return Err(
            CodecError::Error(concat2("Wrong number of frame args ", decimal_text(args_len as u64).as_str())),
        );
    }
    let mut i: usize = 0;
    while i < args_len
        invariant
            i <= args_len,
            1 <= args_len <= 3,
            args_len == args@.len(),
            v == args_view(args@),
            dst@ == old(dst)@ + ser_arg_list(v.take(i as int)),
            forall|j: int| 0 <= j < i ==> (#[trigger] v[j] matches Some(b) ==> b.len() <= 65535),
        decreases args_len - i,
    {
        assert(v.take(i + 1).drop_last() =~= v.take(i as int));
        match &args[i] {
            None => {
                assert(v[i as int] == None::<Seq<u8>>);
                put_u16(dst, 0);
            },
            Some(arg) => {
                let len: usize = arg.len();
                assert(v[i as int] == Some(arg@));
                if len > 65535 {
                    assert(v[i as int] matches Some(b) && b.len() > 65535);
                    return Err(CodecError::Error(owned("Not enough capacity to encode arg")));
                }
                put_u16(dst, len as u16);
                put_slice(dst, arg.as_slice());
            },
        }
        i = i + 1;
        assert(dst@ =~= old(dst)@ + ser_arg_list(v.take(i as int)));
    }
    assert(v.take(args_len as int) =~= v);
    Ok(())
}

fn decode_arg(src: &[u8], pos: usize) -> (r: CodecResult<(Option<Vec<u8>>, usize)>)
    requires
        pos <= src@.len(),
    ensures
        decoded_as(
            r,
            parse_arg(src@, pos as int),
            |a: Option<Vec<u8>>| match a {
                Some(b) => Some(b@),
                None => None,
            },
        ),
        r matches Ok((_, p)) ==> pos < p <= src@.len(),
{
    let remaining: usize = src.len() - pos;
    if remaining < 2 {
        return Err(CodecError::Error(owned("Cannot read arg length")));
    }
    let len: u16 = get_u16(src, pos);
    if len == 0 {
        Ok((None, pos + 2))
    } else if len as usize > remaining - 2 {
        Err(CodecError::Error(concat2("Wrong arg length: ", decimal_text(len as u64).as_str())))
    } else {
        Ok((Some(copy_range(src, pos + 2, len as usize)), pos + 2 + len as usize))
    }
}

/// Reads the arguments that fill `src` from `pos` on.
pub fn decode_args(src: &[u8], pos: usize) -> (r: CodecResult<(Vec<Option<Vec<u8>>>, usize)>)
    ensures
        decoded_as(r, parse_args(src@, pos as int), |a: Vec<Option<Vec<u8>>>| args_view(a@)),
        r matches Ok((_, p)) ==> p == src@.len(),
{
    if pos >= src.len() {
        return Err(CodecError::Error(owned("Frame missing args")));
    }
    let mut args: Vec<Option<Vec<u8>>> = Vec::new();
    let mut p: usize = pos;
    assert(args_view(args@) =~= Seq::<Option<Seq<u8>>>::empty());
    while p < src.len() && args.len() < MAX_FRAME_ARGS
        invariant
            p <= src@.len(),
            args@.len() <= 3,
            parse_arg_list(src@, pos as int, Seq::empty()) == parse_arg_list(src@, p as int, args_view(args@)),
        decreases 3 - args@.len(),
    {
        let (a, p2) = decode_arg(src, p)?;
        let ghost before = args_view(args@);
        args.push(a);
        assert(args_view(args@) =~= before.push(
            match args@.last() {
                Some(b) => Some(b@),
                None => None,
            },
        ));
        p = p2;
    }
    if p < src.len() {
        return Err(CodecError::Error(owned("Incorrect frame length")));
    }
    Ok((args, p))
}

/// The argument bytes of a prefix are a prefix of the argument bytes.
proof fn lemma_arg_list_prefix(args: Seq<Option<Seq<u8>>>, k: int)
    requires
        0 <= k <= args.len(),
    ensures
        ser_arg_list(args).len() >= ser_arg_list(args.take(k)).len(),
        ser_arg_list(args).subrange(0, ser_arg_list(args.take(k)).len() as int) == ser_arg_list(
            args.take(k),
        ),
        k < args.len() ==> ser_arg_list(args).len() >= ser_arg_list(args.take(k + 1)).len(),
    decreases args.len() - k,
{
    if k == args.len() {
        assert(args.take(k) =~= args);
        assert(ser_arg_list(args).subrange(0, ser_arg_list(args).len() as int) =~= ser_arg_list(args));
    } else {
        lemma_arg_list_prefix(args, k + 1);
        let t = args.take(k + 1);
        assert(t.drop_last() =~= args.take(k));
        let whole = ser_arg_list(args);
        let big = ser_arg_list(t);
        let pre = ser_arg_list(args.take(k));
        assert(big == pre + ser_arg(t.last()));
        assert(whole.subrange(0, pre.len() as int) =~= big.subrange(0, pre.len() as int));
        assert(big.subrange(0, pre.len() as int) =~= pre);
    }
}

proof fn lemma_ser_arg_len(a: Option<Seq<u8>>)
    ensures
        ser_arg(a).len() >= 2,
{
}

/// Parsing the bytes of arguments that fill the payload gives them back.
pub proof fn lemma_args_roundtrip(s: Seq<u8>, pos: int, args: Seq<Option<Seq<u8>>>)
    requires
        holds_at(s, pos, ser_arg_list(args)),
        pos + ser_arg_list(args).len() == s.len(),
        args_fit(args),
        args_normal(args),
    ensures
        parse_args(s, pos) == Ok::<(Seq<Option<Seq<u8>>>, int), DecodeError>((args, s.len() as int)),
{
    lemma_arg_list_prefix(args, 1);
    let first = args.take(1);
    assert(first.drop_last() =~= Seq::<Option<Seq<u8>>>::empty());
    lemma_ser_arg_len(first.last());
    assert(args.take(0) =~= Seq::<Option<Seq<u8>>>::empty());
    lemma_arg_list_roundtrip(s, pos, args, 0);
}

proof fn lemma_arg_list_roundtrip(s: Seq<u8>, pos: int, args: Seq<Option<Seq<u8>>>, k: int)
    requires
        holds_at(s, pos, ser_arg_list(args)),
        pos + ser_arg_list(args).len() == s.len(),
        args_fit(args),
        args_normal(args),
        0 <= k <= args.len(),
    ensures
        parse_arg_list(s, pos + ser_arg_list(args.take(k)).len(), args.take(k)) == Ok::<
            (Seq<Option<Seq<u8>>>, int),
            DecodeError,
        >((args, s.len() as int)),
    decreases args.len() - k,
{
    if k == args.len() {
        assert(args.take(k) =~= args);
    } else {
        lemma_arg_list_prefix(args, k);
        lemma_arg_list_prefix(args, k + 1);
        let pre = ser_arg_list(args.take(k));
        let a = ser_arg(args[k]);
        assert(args.take(k + 1).drop_last() =~= args.take(k));
        assert(ser_arg_list(args.take(k + 1)) == pre + a);
        lemma_holds_prefix(s, pos, ser_arg_list(args), pre + a);
        lemma_holds_split(s, pos, pre, a);
        let p = pos + pre.len();
        match args[k] {
            None => {
                lemma_read16(s, p, 0);
            },
            Some(b) => {
                assert(b.len() <= 65535);
                assert(b.len() > 0);
                lemma_holds_split(s, p, be16(b.len() as u16), b);
                lemma_read16(s, p, b.len() as u16);
                assert(s.subrange(p + 2, p + 2 + b.len()) == b);
            },
        }
        assert(args.take(k).push(args[k]) =~= args.take(k + 1));
        lemma_arg_list_roundtrip(s, pos, args, k + 1);
    }
}

/// Checksum and arguments of a call frame.
#[derive(Debug, Clone, PartialEq, Eq)]
pub struct CallArgs {
    /// csumtype:1
    pub checksum_type: ChecksumType,
    /// (csum:4){0,1}
    pub checksum: Option<u32>,
    /// arg1~2 arg2~2 arg3~2
    pub args: Vec<Option<Vec<u8>>>,
}

/// Checksum and argument bytes of a call frame.
pub struct CallArgsView {
    pub checksum_type: ChecksumType,
    pub checksum: Option<u32>,
    pub args: Seq<Option<Seq<u8>>>,
}

impl View for CallArgs {
    type V = CallArgsView;

    open spec fn view(&self) -> CallArgsView {
        CallArgsView {
            checksum_type: self.checksum_type,
            checksum: self.checksum,
            args: args_view(self.args@),
        }
    }
}

/// The bytes of a call's checksum and arguments.
pub open spec fn ser_call_args(a: CallArgsView) -> Seq<u8> {
    ser_checksum(a.checksum_type, a.checksum) + ser_arg_list(a.args)
}

/// Whether a call's checksum and arguments can be encoded.
pub open spec fn call_args_fit(a: CallArgsView) -> bool {
    (a.checksum_type == ChecksumType::NoChecksum || a.checksum is Some) && args_fit(a.args)
}

/// The message of the error for checksum and arguments that cannot be
/// encoded.
pub open spec fn call_args_error_message(a: CallArgsView) -> Seq<char> {
    if !(a.checksum_type == ChecksumType::NoChecksum || a.checksum is Some) {
        "Missing checksum value."@
    } else {
        args_error_message(a.args)
    }
}

/// Checksum and arguments at `pos`, filling the rest of `s`.
pub open spec fn parse_call_args(s: Seq<u8>, pos: int) -> Parsed<CallArgsView> {
    match parse_checksum(s, pos) {
        Err(e) => Err(e),
        Ok(((t, c), p)) => match parse_args(s, p) {
            Err(e) => Err(e),
            Ok((args, p2)) => Ok((CallArgsView { checksum_type: t, checksum: c, args }, p2)),
        },
    }
}

impl CallArgs {
    /// Checksum and arguments.
    pub fn new(checksum_type: ChecksumType, checksum: Option<u32>, args: Vec<Option<Vec<u8>>>) -> (r:
        CallArgs)
        ensures
            r.checksum_type == checksum_type,
            r.checksum == checksum,
            r.args == args,
    {
        CallArgs { checksum_type, checksum, args }
    }

    /// The checksum type.
    pub fn checksum_type(&self) -> (t: &ChecksumType)
        ensures
            *t == self.checksum_type,
    {
        &self.checksum_type
    }

    /// The arguments.
    pub fn args(&self) -> (a: &Vec<Option<Vec<u8>>>)
        ensures
            *a == self.args,
    {
        &self.args
    }

    /// The arguments, mutable.
    pub fn args_mut(&mut self) -> (a: &mut Vec<Option<Vec<u8>>>)
        ensures
            *a == old(self).args,
            final(self).args == *final(a),
            final(self).checksum_type == old(self).checksum_type,
            final(self).checksum == old(self).checksum,
    {
        &mut self.args
    }

    /// Appends the bytes of the checksum and arguments.
    pub fn encode(&self, dst: &mut Vec<u8>) -> (r: CodecResult<()>)
        ensures
            r is Ok <==> call_args_fit(self@),
            r is Ok ==> final(dst)@ == old(dst)@ + ser_call_args(self@),
            r matches Err(e) ==> e matches CodecError::Error(m) && m@ == call_args_error_message(self@),
    {
        encode_checksum(self.checksum_type, self.checksum, dst)?;
        encode_args(&self.args, dst)?;
        assert(dst@ =~= old(dst)@ + ser_call_args(self@));
        Ok(())
    }

    /// Reads checksum and arguments filling `src` from `pos` on.
    pub fn decode_at(src: &[u8], pos: usize) -> (r: CodecResult<(CallArgs, usize)>)
        ensures
            decoded_as(r, parse_call_args(src@, pos as int), |a: CallArgs| a@),
            r matches Ok((_, p)) ==> p == src@.len(),
    {
        let ((checksum_type, checksum), p) = decode_checksum(src, pos)?;
        let (args, p2) = decode_args(src, p)?;
        Ok((CallArgs { checksum_type, checksum, args }, p2))
    }
}

/// Parsing the bytes of a call's checksum and arguments that fill the rest of
/// the payload gives them back.
pub proof fn lemma_call_args_roundtrip(s: Seq<u8>, pos: int, a: CallArgsView)
    requires
        holds_at(s, pos, ser_call_args(a)),
        pos + ser_call_args(a).len() == s.len(),
        call_args_fit(a),
        args_normal(a.args),
        a.checksum_type == ChecksumType::NoChecksum ==> a.checksum is None,
    ensures
        parse_call_args(s, pos) == Ok::<(CallArgsView, int), DecodeError>((a, s.len() as int)),
{
    let c = ser_checksum(a.checksum_type, a.checksum);
    lemma_holds_split(s, pos, c, ser_arg_list(a.args));
    if a.checksum_type == ChecksumType::NoChecksum {
        lemma_parse_u8(s, pos, checksum_code(a.checksum_type));
    } else {
        lemma_holds_split(s, pos, seq![checksum_code(a.checksum_type)], be32(a.checksum.unwrap()));
        lemma_parse_u8(s, pos, checksum_code(a.checksum_type));
        lemma_parse_u32(s, pos + 1, a.checksum.unwrap());
    }
    lemma_args_roundtrip(s, pos + c.len(), a.args);
}

// ---------------------------------------------------------------------------
// Whole payloads

/// Removes the first `n` bytes of `src`.
fn advance(src: &mut Vec<u8>, n: usize)
    requires
        n <= old(src)@.len(),
    ensures
        final(src)@ == old(src)@.skip(n as int),
{
    let mut rest: Vec<u8> = src.split_off(n);
    std::mem::swap(src, &mut rest);
}

/// Whether `r` is the outcome of decoding a whole payload whose parse is `p`
/// and which consumes what was parsed from `before`, leaving `after`.
pub open spec fn consumed_as<T, V>(
    r: CodecResult<T>,
    p: Parsed<V>,
    view: spec_fn(T) -> V,
    before: Seq<u8>,
    after: Seq<u8>,
) -> bool {
    match p {
        Ok((v, end)) => r matches Ok(t) && view(t) == v && after == before.skip(end),
        Err(d) => r matches Err(e) && reports(e, d) && after == before,
    }
}

/// The fields of a call request.
#[derive(Debug, PartialEq)]
pub struct CallRequestFields {
    /// ttl:4
    pub ttl: u32,
    /// tracing:25
    pub tracing: Tracing,
    /// service~1
    pub service: String,
    /// nh:1 (hk~1, hv~1){nh}
    pub headers: Headers,
}

/// The fields of a call request, as values.
pub struct RequestFieldsView {
    pub ttl: u32,
    pub tracing: Tracing,
    pub service: Seq<char>,
    pub headers: Seq<(Seq<char>, Seq<char>)>,
}

impl View for CallRequestFields {
    type V = RequestFieldsView;

    open spec fn view(&self) -> RequestFieldsView {
        RequestFieldsView {
            ttl: self.ttl,
            tracing: self.tracing,
            service: self.service@,
            headers: headers_text(self.headers@),
        }
    }
}

/// The bytes of a call request's fields.
pub open spec fn ser_request_fields(f: RequestFieldsView) -> Seq<u8> {
    be32(f.ttl) + ser_tracing(f.tracing) + ser_string(f.service, true) + ser_headers(f.headers, true)
}

/// Whether a call request's fields can be encoded.
pub open spec fn request_fields_fit(f: RequestFieldsView) -> bool {
    string_fits(f.service, true) && headers_fit(f.headers, true)
}

/// The message of the error for call request fields that cannot be
/// encoded: a too long service name, or headers that cannot be.
pub open spec fn request_fields_error_message(f: RequestFieldsView) -> Seq<char> {
    if !string_fits(f.service, true) {
        cast_len_message(utf8_bytes(f.service).len() as int)
    } else {
        headers_error_message(f.headers, true)
    }
}

/// A call request's fields at `pos`.
pub open spec fn parse_request_fields(s: Seq<u8>, pos: int) -> Parsed<RequestFieldsView> {
    match parse_u32(s, pos) {
        Err(e) => Err(e),
        Ok((ttl, p1)) => match parse_tracing(s, p1) {
            Err(e) => Err(e),
            Ok((tracing, p2)) => match parse_string(s, p2, true) {
                Err(e) => Err(e),
                Ok((service, p3)) => match parse_headers(s, p3, true) {
                    Err(e) => Err(e),
                    Ok((headers, p4)) => Ok((RequestFieldsView { ttl, tracing, service, headers }, p4)),
                },
            },
        },
    }
}

impl CallRequestFields {
    /// Fields of a call request.
    pub fn new(ttl: u32, tracing: Tracing, service: String, headers: Headers) -> (f: CallRequestFields)
        ensures
            f.ttl == ttl,
            f.tracing == tracing,
            f.service == service,
            f.headers == headers,
    {
        CallRequestFields { ttl, tracing, service, headers }
    }

    /// The name of the called service.
    pub fn service(&self) -> (s: &String)
        ensures
            *s == self.service,
    {
        &self.service
    }

    /// The transport headers.
    pub fn headers(&self) -> (h: &Headers)
        ensures
            *h == self.headers,
    {
        &self.headers
    }

    /// Appends the bytes of the fields.
    pub fn encode(&self, dst: &mut Vec<u8>) -> (r: CodecResult<()>)
        ensures
            r is Ok <==> request_fields_fit(self@),
            r is Ok ==> final(dst)@ == old(dst)@ + ser_request_fields(self@),
            r matches Err(e) ==> e matches CodecError::Error(m) && m@ == request_fields_error_message(self@),
    {
        put_u32(dst, self.ttl);
        let _ = self.tracing.encode(dst);
        encode_string(&self.service, dst, true)?;
        encode_headers(&self.headers, dst, true)?;
        assert(dst@ =~= old(dst)@ + ser_request_fields(self@));
        Ok(())
    }

    /// The bytes of the fields.
    pub fn encode_bytes(&self) -> (r: CodecResult<Vec<u8>>)
        ensures
            r is Ok <==> request_fields_fit(self@),
            r matches Ok(b) ==> b@ == ser_request_fields(self@),
            r matches Err(e) ==> e matches CodecError::Error(m) && m@ == request_fields_error_message(self@),
    {
        let mut bytes: Vec<u8> = Vec::new();
        self.encode(&mut bytes)?;
        assert(bytes@ =~= ser_request_fields(self@));
        Ok(bytes)
    }

    /// Reads the fields at `pos`.
    pub fn decode_at(src: &[u8], pos: usize) -> (r: CodecResult<(CallRequestFields, usize)>)
        ensures
            decoded_as(r, parse_request_fields(src@, pos as int), |f: CallRequestFields| f@),
    {
        let (ttl, p1) = take_u32(src, pos)?;
        let (tracing, p2) = Tracing::decode_at(src, p1)?;
        let (service, p3) = decode_string(src, p2, true)?;
        let (headers, p4) = decode_headers(src, p3, true)?;
        Ok((CallRequestFields { ttl, tracing, service, headers }, p4))
    }
}

/// The fields of a call response.
#[derive(Debug, PartialEq)]
pub struct CallResponseFields {
    /// code:1
    pub code: ResponseCode,
    /// tracing:25
    pub tracing: Tracing,
    /// nh:1 (hk~1, hv~1){nh}
    pub headers: Headers,
}

/// The fields of a call response, as values.
pub struct ResponseFieldsView {
    pub code: ResponseCode,
    pub tracing: Tracing,
    pub headers: Seq<(Seq<char>, Seq<char>)>,
}

impl View for CallResponseFields {
    type V = ResponseFieldsView;

    open spec fn view(&self) -> ResponseFieldsView {
        ResponseFieldsView {
            code: self.code,
            tracing: self.tracing,
            headers: headers_text(self.headers@),
        }
    }
}

/// The bytes of a call response's fields.
pub open spec fn ser_response_fields(f: ResponseFieldsView) -> Seq<u8> {
    seq![response_code(f.code)] + ser_tracing(f.tracing) + ser_headers(f.headers, true)
}

/// A call response's fields at `pos`.
pub open spec fn parse_response_fields(s: Seq<u8>, pos: int) -> Parsed<ResponseFieldsView> {
    match parse_coded(s, pos, |b: u8| response_of_code(b)) {
        Err(e) => Err(e),
        Ok((code, p1)) => match parse_tracing(s, p1) {
            Err(e) => Err(e),
            Ok((tracing, p2)) => match parse_headers(s, p2, true) {
                Err(e) => Err(e),
                Ok((headers, p3)) => Ok((ResponseFieldsView { code, tracing, headers }, p3)),
            },
        },
    }
}

impl CallResponseFields {
    /// Fields of a call response.
    pub fn new(code: ResponseCode, tracing: Tracing, headers: Headers) -> (f: CallResponseFields)
        ensures
            f.code == code,
            f.tracing == tracing,
            f.headers == headers,
    {
        CallResponseFields { code, tracing, headers }
    }

    /// The response code.
    pub fn code(&self) -> (c: &ResponseCode)
        ensures
            *c == self.code,
    {
        &self.code
    }

    /// The transport headers.
    pub fn headers(&self) -> (h: &Headers)
        ensures
            *h == self.headers,
    {
        &self.headers
    }

    /// Appends the bytes of the fields.
    pub fn encode(&self, dst: &mut Vec<u8>) -> (r: CodecResult<()>)
        ensures
            r is Ok <==> headers_fit(self@.headers, true),
            r is Ok ==> final(dst)@ == old(dst)@ + ser_response_fields(self@),
            r matches Err(e) ==> e matches CodecError::Error(m) && m@ == headers_error_message(self@.headers, true),
    {
        put_u8(dst, self.code.to_u8());
        let _ = self.tracing.encode(dst);
        encode_headers(&self.headers, dst, true)?;
        assert(dst@ =~= old(dst)@ + ser_response_fields(self@));
        Ok(())
    }

    /// Reads the fields at `pos`.
    pub fn decode_at(src: &[u8], pos: usize) -> (r: CodecResult<(CallResponseFields, usize)>)
        ensures
            decoded_as(r, parse_response_fields(src@, pos as int), |f: CallResponseFields| f@),
    {
        let (b, p1) = take_u8(src, pos)?;
        let code: ResponseCode = match ResponseCode::from_u8(b) {
            Some(c) => c,
            None => return Err(unknown_flag(b)),
        };
        let (tracing, p2) = Tracing::decode_at(src, p1)?;
        let (headers, p3) = decode_headers(src, p2, true)?;
        Ok((CallResponseFields { code, tracing, headers }, p3))
    }
}

/// Flags read through their table.
pub open spec fn parse_flags(s: Seq<u8>, pos: int) -> Parsed<Flags> {
    parse_coded(s, pos, |b: u8| flags_of_bits(b))
}

fn take_flags(src: &[u8], pos: usize) -> (r: CodecResult<(Flags, usize)>)
    ensures
        decoded_as(r, parse_flags(src@, pos as int), |f: Flags| f),
{
    let (b, p) = take_u8(src, pos)?;
    match Flags::from_bits(b) {
        Some(f) => Ok((f, p)),
        None => Err(unknown_flag(b)),
    }
}

/// A call request frame's payload.
#[derive(Debug, PartialEq)]
pub struct CallRequest {
    /// flags:1
    pub flags: Flags,
    /// ttl, tracing, service name, headers
    pub fields: CallRequestFields,
    /// checksum type, checksum, args
    pub args: CallArgs,
}

/// A call request's payload, as values.
pub struct CallRequestView {
    pub flags: Flags,
    pub fields: RequestFieldsView,
    pub args: CallArgsView,
}

impl View for CallRequest {
    type V = CallRequestView;

    open spec fn view(&self) -> CallRequestView {
        CallRequestView { flags: self.flags, fields: self.fields@, args: self.args@ }
    }
}

/// The bytes of a call request's payload.
pub open spec fn ser_call_request(c: CallRequestView) -> Seq<u8> {
    seq![flag_bits(c.flags)] + ser_request_fields(c.fields) + ser_call_args(c.args)
}

/// A call request's payload at `pos`, filling the rest of `s`.
pub open spec fn parse_call_request(s: Seq<u8>, pos: int) -> Parsed<CallRequestView> {
    match parse_flags(s, pos) {
        Err(e) => Err(e),
        Ok((flags, p1)) => match parse_request_fields(s, p1) {
            Err(e) => Err(e),
            Ok((fields, p2)) => match parse_call_args(s, p2) {
                Err(e) => Err(e),
                Ok((args, p3)) => Ok((CallRequestView { flags, fields, args }, p3)),
            },
        },
    }
}

impl CallRequest {
    /// A call request payload.
    pub fn new(flags: Flags, fields: CallRequestFields, args: CallArgs) -> (c: CallRequest)
        ensures
            c.flags == flags,
            c.fields == fields,
            c.args == args,
    {
        CallRequest { flags, fields, args }
    }

    /// The flags.
    pub fn flags(&self) -> (f: &Flags)
        ensures
            *f == self.flags,
    {
        &self.flags
    }

    /// The fields.
    pub fn fields(&self) -> (f: &CallRequestFields)
        ensures
            *f == self.fields,
    {
        &self.fields
    }

    /// The checksum and arguments.
    pub fn args(&self) -> (a: &CallArgs)
        ensures
            *a == self.args,
    {
        &self.args
    }

    /// The checksum and arguments, mutable.
    pub fn args_mut(&mut self) -> (a: &mut CallArgs)
        ensures
            *a == old(self).args,
            final(self).args == *final(a),
            final(self).flags == old(self).flags,
            final(self).fields == old(self).fields,
    {
        &mut self.args
    }

    /// Appends the bytes of the payload.
    pub fn encode(&self, dst: &mut Vec<u8>) -> (r: CodecResult<()>)
        ensures
            r is Ok <==> request_fields_fit(self@.fields) && call_args_fit(self@.args),
            r is Ok ==> final(dst)@ == old(dst)@ + ser_call_request(self@),
            r matches Err(e) ==> e matches CodecError::Error(m) && m@ == (if !request_fields_fit(self@.fields) {
                request_fields_error_message(self@.fields)
            } else {
                call_args_error_message(self@.args)
            }),
    {
        put_u8(dst, self.flags.bits());
        self.fields.encode(dst)?;
        self.args.encode(dst)?;
        assert(dst@ =~= old(dst)@ + ser_call_request(self@));
        Ok(())
    }

    /// The bytes of the payload.
    pub fn encode_bytes(&self) -> (r: CodecResult<Vec<u8>>)
        ensures
            r is Ok <==> request_fields_fit(self@.fields) && call_args_fit(self@.args),
            r matches Ok(b) ==> b@ == ser_call_request(self@),
            r matches Err(e) ==> e matches CodecError::Error(m) && m@ == (if !request_fields_fit(self@.fields) {
                request_fields_error_message(self@.fields)
            } else {
                call_args_error_message(self@.args)
            }),
    {
        let mut bytes: Vec<u8> = Vec::new();
        self.encode(&mut bytes)?;
        assert(bytes@ =~= ser_call_request(self@));
        Ok(bytes)
    }

    /// Reads the payload at `pos`.
    pub fn decode_at(src: &[u8], pos: usize) -> (r: CodecResult<(CallRequest, usize)>)
        ensures
            decoded_as(r, parse_call_request(src@, pos as int), |c: CallRequest| c@),
            r matches Ok((_, p)) ==> p == src@.len(),
    {
        let (flags, p1) = take_flags(src, pos)?;
        let (fields, p2) = CallRequestFields::decode_at(src, p1)?;
        let (args, p3) = CallArgs::decode_at(src, p2)?;
        Ok((CallRequest { flags, fields, args }, p3))
    }

    /// Takes a call request payload off the front of `src`.
    pub fn decode(src: &mut Vec<u8>) -> (r: CodecResult<CallRequest>)
        ensures
            consumed_as(r, parse_call_request(old(src)@, 0), |c: CallRequest| c@, old(src)@, final(src)@),
    {
        let (c, end) = CallRequest::decode_at(src.as_slice(), 0)?;
        advance(src, end);
        Ok(c)
    }
}

/// A call response frame's payload.
#[derive(Debug, PartialEq)]
pub struct CallResponse {
    /// flags:1
    pub flags: Flags,
    /// code, tracing, headers
    pub fields: CallResponseFields,
    /// checksum type, checksum, args
    pub args: CallArgs,
}

/// A call response's payload, as values.
pub struct CallResponseView {
    pub flags: Flags,
    pub fields: ResponseFieldsView,
    pub args: CallArgsView,
}

impl View for CallResponse {
    type V = CallResponseView;

    open spec fn view(&self) -> CallResponseView {
        CallResponseView { flags: self.flags, fields: self.fields@, args: self.args@ }
    }
}

/// The bytes of a call response's payload.
pub open spec fn ser_call_response(c: CallResponseView) -> Seq<u8> {
    seq![flag_bits(c.flags)] + ser_response_fields(c.fields) + ser_call_args(c.args)
}

/// A call response's payload at `pos`, filling the rest of `s`.
pub open spec fn parse_call_response(s: Seq<u8>, pos: int) -> Parsed<CallResponseView> {
    match parse_flags(s, pos) {
        Err(e) => Err(e),
        Ok((flags, p1)) => match parse_response_fields(s, p1) {
            Err(e) => Err(e),
            Ok((fields, p2)) => match parse_call_args(s, p2) {
                Err(e) => Err(e),
                Ok((args, p3)) => Ok((CallResponseView { flags, fields, args }, p3)),
            },
        },
    }
}

impl CallResponse {
    /// A call response payload.
    pub fn new(flags: Flags, fields: CallResponseFields, args: CallArgs) -> (c: CallResponse)
        ensures
            c.flags == flags,
            c.fields == fields,
            c.args == args,
    {
        CallResponse { flags, fields, args }
    }

    /// The flags.
    pub fn flags(&self) -> (f: &Flags)
        ensures
            *f == self.flags,
    {
        &self.flags
    }

    /// The fields.
    pub fn fields(&self) -> (f: &CallResponseFields)
        ensures
            *f == self.fields,
    {
        &self.fields
    }

    /// The checksum and arguments.
    pub fn args(&self) -> (a: &CallArgs)
        ensures
            *a == self.args,
    {
        &self.args
    }

    /// The checksum and arguments, mutable.
    pub fn args_mut(&mut self) -> (a: &mut CallArgs)
        ensures
            *a == old(self).args,
            final(self).args == *final(a),
            final(self).flags == old(self).flags,
            final(self).fields == old(self).fields,
    {
        &mut self.args
    }

    /// Appends the bytes of the payload.
    pub fn encode(&self, dst: &mut Vec<u8>) -> (r: CodecResult<()>)
        ensures
            r is Ok <==> headers_fit(self@.fields.headers, true) && call_args_fit(self@.args),
            r is Ok ==> final(dst)@ == old(dst)@ + ser_call_response(self@),
            r matches Err(e) ==> e matches CodecError::Error(m) && m@ == (if !headers_fit(self@.fields.headers, true) {
                headers_error_message(self@.fields.headers, true)
            } else {
                call_args_error_message(self@.args)
            }),
    {
        put_u8(dst, self.flags.bits());
        self.fields.encode(dst)?;
        self.args.encode(dst)?;
        assert(dst@ =~= old(dst)@ + ser_call_response(self@));
        Ok(())
    }

    /// The bytes of the payload.
    pub fn encode_bytes(&self) -> (r: CodecResult<Vec<u8>>)
        ensures
            r is Ok <==> headers_fit(self@.fields.headers, true) && call_args_fit(self@.args),
            r matches Ok(b) ==> b@ == ser_call_response(self@),
            r matches Err(e) ==> e matches CodecError::Error(m) && m@ == (if !headers_fit(self@.fields.headers, true) {
                headers_error_message(self@.fields.headers, true)
            } else {
                call_args_error_message(self@.args)
            }),
    {
        let mut bytes: Vec<u8> = Vec::new();
        self.encode(&mut bytes)?;
        assert(bytes@ =~= ser_call_response(self@));
        Ok(bytes)
    }

    /// Reads the payload at `pos`.
    pub fn decode_at(src: &[u8], pos: usize) -> (r: CodecResult<(CallResponse, usize)>)
        ensures
            decoded_as(r, parse_call_response(src@, pos as int), |c: CallResponse| c@),
            r matches Ok((_, p)) ==> p == src@.len(),
    {
        let (flags, p1) = take_flags(src, pos)?;
        let (fields, p2) = CallResponseFields::decode_at(src, p1)?;
        let (args, p3) = CallArgs::decode_at(src, p2)?;
        Ok((CallResponse { flags, fields, args }, p3))
    }

    /// Takes a call response payload off the front of `src`.
    pub fn decode(src: &mut Vec<u8>) -> (r: CodecResult<CallResponse>)
        ensures
            consumed_as(r, parse_call_response(old(src)@, 0), |c: CallResponse| c@, old(src)@, final(src)@),
    {
        let (c, end) = CallResponse::decode_at(src.as_slice(), 0)?;
        advance(src, end);
        Ok(c)
    }
}

/// A continuation frame's payload: flags, then more arguments.
#[derive(Debug, PartialEq)]
pub struct CallContinue {
    /// flags:1
    pub flags: Flags,
    /// checksum type, checksum, args
    pub args: CallArgs,
}

/// A continuation's payload, as values.
pub struct CallContinueView {
    pub flags: Flags,
    pub args: CallArgsView,
}

impl View for CallContinue {
    type V = CallContinueView;

    open spec fn view(&self) -> CallContinueView {
        CallContinueView { flags: self.flags, args: self.args@ }
    }
}

/// The bytes of a continuation's payload.
pub open spec fn ser_call_continue(c: CallContinueView) -> Seq<u8> {
    seq![flag_bits(c.flags)] + ser_call_args(c.args)
}

/// A continuation's payload at `pos`, filling the rest of `s`.
pub open spec fn parse_call_continue(s: Seq<u8>, pos: int) -> Parsed<CallContinueView> {
    match parse_flags(s, pos) {
        Err(e) => Err(e),
        Ok((flags, p1)) => match parse_call_args(s, p1) {
            Err(e) => Err(e),
            Ok((args, p2)) => Ok((CallContinueView { flags, args }, p2)),
        },
    }
}

impl CallContinue {
    /// A continuation payload.
    pub fn new(flags: Flags, args: CallArgs) -> (c: CallContinue)
        ensures
            c.flags == flags,
            c.args == args,
    {
        CallContinue { flags, args }
    }

    /// The flags.
    pub fn flags(&self) -> (f: &Flags)
        ensures
            *f == self.flags,
    {
        &self.flags
    }

    /// The checksum and arguments, mutable.
    pub fn args_mut(&mut self) -> (a: &mut CallArgs)
        ensures
            *a == old(self).args,
            final(self).args == *final(a),
            final(self).flags == old(self).flags,
    {
        &mut self.args
    }

    /// Appends the bytes of the payload.
    pub fn encode(&self, dst: &mut Vec<u8>) -> (r: CodecResult<()>)
        ensures
            r is Ok <==> call_args_fit(self@.args),
            r is Ok ==> final(dst)@ == old(dst)@ + ser_call_continue(self@),
            r matches Err(e) ==> e matches CodecError::Error(m) && m@ == call_args_error_message(self@.args),
    {
        put_u8(dst, self.flags.bits());
        self.args.encode(dst)?;
        assert(dst@ =~= old(dst)@ + ser_call_continue(self@));
        Ok(())
    }

    /// The bytes of the payload.
    pub fn encode_bytes(&self) -> (r: CodecResult<Vec<u8>>)
        ensures
            r is Ok <==> call_args_fit(self@.args),
            r matches Ok(b) ==> b@ == ser_call_continue(self@),
            r matches Err(e) ==> e matches CodecError::Error(m) && m@ == call_args_error_message(self@.args),
    {
        let mut bytes: Vec<u8> = Vec::new();
        self.encode(&mut bytes)?;
        assert(bytes@ =~= ser_call_continue(self@));
        Ok(bytes)
    }

    /// Reads the payload at `pos`.
    pub fn decode_at(src: &[u8], pos: usize) -> (r: CodecResult<(CallContinue, usize)>)
        ensures
            decoded_as(r, parse_call_continue(src@, pos as int), |c: CallContinue| c@),
            r matches Ok((_, p)) ==> p == src@.len(),
    {
        let (flags, p1) = take_flags(src, pos)?;
        let (args, p2) = CallArgs::decode_at(src, p1)?;
        Ok((CallContinue { flags, args }, p2))
    }

    /// Takes a continuation payload off the front of `src`.
    pub fn decode(src: &mut Vec<u8>) -> (r: CodecResult<CallContinue>)
        ensures
            consumed_as(r, parse_call_continue(old(src)@, 0), |c: CallContinue| c@, old(src)@, final(src)@),
    {
        let (c, end) = CallContinue::decode_at(src.as_slice(), 0)?;
        advance(src, end);
        Ok(c)
    }
}

/// The first frame of a call whose fields are already encoded.
#[derive(Debug, PartialEq)]
pub struct CallWithFieldsEncoded {
    /// flags:1
    pub flags: Flags,
    /// the encoded fields
    pub fields: Vec<u8>,
    /// checksum type, checksum, args
    pub args: CallArgs,
}

/// The bytes of a call's first frame with encoded fields.
pub open spec fn ser_with_fields(flags: Flags, fields: Seq<u8>, args: CallArgsView) -> Seq<u8> {
    seq![flag_bits(flags)] + fields + ser_call_args(args)
}

impl CallWithFieldsEncoded {
    /// A first frame from flags, encoded fields and arguments.
    pub fn new(flags: Flags, fields: Vec<u8>, args: CallArgs) -> (c: CallWithFieldsEncoded)
        ensures
            c.flags == flags,
            c.fields == fields,
            c.args == args,
    {
        CallWithFieldsEncoded { flags, fields, args }
    }

    /// Appends the bytes of the payload.
    pub fn encode(&self, dst: &mut Vec<u8>) -> (r: CodecResult<()>)
        ensures
            r is Ok <==> call_args_fit(self.args@),
            r is Ok ==> final(dst)@ == old(dst)@ + ser_with_fields(self.flags, self.fields@, self.args@),
            r matches Err(e) ==> e matches CodecError::Error(m) && m@ == call_args_error_message(self.args@),
    {
        put_u8(dst, self.flags.bits());
        put_slice(dst, self.fields.as_slice());
        self.args.encode(dst)?;
        assert(dst@ =~= old(dst)@ + ser_with_fields(self.flags, self.fields@, self.args@));
        Ok(())
    }

    /// The bytes of the payload.
    pub fn encode_bytes(&self) -> (r: CodecResult<Vec<u8>>)
        ensures
            r is Ok <==> call_args_fit(self.args@),
            r matches Ok(b) ==> b@ == ser_with_fields(self.flags, self.fields@, self.args@),
            r matches Err(e) ==> e matches CodecError::Error(m) && m@ == call_args_error_message(self.args@),
    {
        let mut bytes: Vec<u8> = Vec::new();
        self.encode(&mut bytes)?;
        assert(bytes@ =~= ser_with_fields(self.flags, self.fields@, self.args@));
        Ok(bytes)
    }
}

/// Checksum and arguments that encode without loss: no present but empty
/// argument, and no checksum value when there is no checksum.
pub open spec fn call_args_normal(a: CallArgsView) -> bool {
    args_normal(a.args) && (a.checksum_type == ChecksumType::NoChecksum ==> a.checksum is None)
}

/// Parsing the bytes of a call request's fields gives them back.
pub proof fn lemma_request_fields_roundtrip(s: Seq<u8>, pos: int, f: RequestFieldsView)
    requires
        holds_at(s, pos, ser_request_fields(f)),
        request_fields_fit(f),
        keys_distinct(f.headers),
    ensures
        parse_request_fields(s, pos) == Ok::<(RequestFieldsView, int), DecodeError>(
            (f, pos + ser_request_fields(f).len()),
        ),
{
    let a = be32(f.ttl);
    let b = ser_tracing(f.tracing);
    let c = ser_string(f.service, true);
    let d = ser_headers(f.headers, true);
    assert(ser_request_fields(f) == a + b + c + d);
    lemma_holds_split(s, pos, a + b + c, d);
    lemma_holds_split(s, pos, a + b, c);
    lemma_holds_split(s, pos, a, b);
    lemma_parse_u32(s, pos, f.ttl);
    lemma_tracing_roundtrip(s, pos + 4, f.tracing);
    lemma_string_roundtrip(s, pos + 29, f.service, true);
    lemma_headers_roundtrip(s, pos + 29 + c.len(), f.headers, true);
}

/// Parsing the bytes of a call response's fields gives them back.
pub proof fn lemma_response_fields_roundtrip(s: Seq<u8>, pos: int, f: ResponseFieldsView)
    requires
        holds_at(s, pos, ser_response_fields(f)),
        headers_fit(f.headers, true),
        keys_distinct(f.headers),
    ensures
        parse_response_fields(s, pos) == Ok::<(ResponseFieldsView, int), DecodeError>(
            (f, pos + ser_response_fields(f).len()),
        ),
{
    let a = seq![response_code(f.code)];
    let b = ser_tracing(f.tracing);
    let d = ser_headers(f.headers, true);
    assert(ser_response_fields(f) == a + b + d);
    lemma_holds_split(s, pos, a + b, d);
    lemma_holds_split(s, pos, a, b);
    lemma_parse_u8(s, pos, response_code(f.code));
    lemma_tracing_roundtrip(s, pos + 1, f.tracing);
    lemma_headers_roundtrip(s, pos + 26, f.headers, true);
}

/// Decoding the bytes of a call request gives it back.
pub proof fn lemma_call_request_roundtrip(c: CallRequestView)
    requires
        request_fields_fit(c.fields),
        keys_distinct(c.fields.headers),
        call_args_fit(c.args),
        call_args_normal(c.args),
    ensures
        parse_call_request(ser_call_request(c), 0) == Ok::<(CallRequestView, int), DecodeError>(
            (c, ser_call_request(c).len() as int),
        ),
{
    let s = ser_call_request(c);
    let a = seq![flag_bits(c.flags)];
    let b = ser_request_fields(c.fields);
    let d = ser_call_args(c.args);
    assert(s.subrange(0, s.len() as int) =~= s);
    lemma_holds_split(s, 0, a + b, d);
    lemma_holds_split(s, 0, a, b);
    lemma_parse_u8(s, 0, flag_bits(c.flags));
    lemma_flag_bits(c.flags);
    lemma_request_fields_roundtrip(s, 1, c.fields);
    lemma_call_args_roundtrip(s, 1 + b.len() as int, c.args);
}

/// Decoding the bytes of a call response gives it back.
pub proof fn lemma_call_response_roundtrip(c: CallResponseView)
    requires
        headers_fit(c.fields.headers, true),
        keys_distinct(c.fields.headers),
        call_args_fit(c.args),
        call_args_normal(c.args),
    ensures
        parse_call_response(ser_call_response(c), 0) == Ok::<(CallResponseView, int), DecodeError>(
            (c, ser_call_response(c).len() as int),
        ),
{
    let s = ser_call_response(c);
    let a = seq![flag_bits(c.flags)];
    let b = ser_response_fields(c.fields);
    let d = ser_call_args(c.args);
    assert(s.subrange(0, s.len() as int) =~= s);
    lemma_holds_split(s, 0, a + b, d);
    lemma_holds_split(s, 0, a, b);
    lemma_parse_u8(s, 0, flag_bits(c.flags));
    lemma_flag_bits(c.flags);
    lemma_response_fields_roundtrip(s, 1, c.fields);
    lemma_call_args_roundtrip(s, 1 + b.len() as int, c.args);
}

/// Decoding the bytes of a continuation gives it back.
pub proof fn lemma_call_continue_roundtrip(c: CallContinueView)
    requires
        call_args_fit(c.args),
        call_args_normal(c.args),
    ensures
        parse_call_continue(ser_call_continue(c), 0) == Ok::<(CallContinueView, int), DecodeError>(
            (c, ser_call_continue(c).len() as int),
        ),
{
    let s = ser_call_continue(c);
    let a = seq![flag_bits(c.flags)];
    let d = ser_call_args(c.args);
    assert(s.subrange(0, s.len() as int) =~= s);
    lemma_holds_split(s, 0, a, d);
    lemma_parse_u8(s, 0, flag_bits(c.flags));
    lemma_flag_bits(c.flags);
    lemma_call_args_roundtrip(s, 1, c.args);
}

// ---------------------------------------------------------------------------
// Init, cancel, claim and error payloads

/// The payload of init requests and responses.
#[derive(Debug, PartialEq)]
pub struct Init {
    pub version: u16,
    pub headers: Headers,
}

/// An init payload, as values.
pub struct InitView {
    pub version: u16,
    pub headers: Seq<(Seq<char>, Seq<char>)>,
}

impl View for Init {
    type V = InitView;

    open spec fn view(&self) -> InitView {
        InitView { version: self.version, headers: headers_text(self.headers@) }
    }
}

/// The bytes of an init payload: the version, then headers with two-byte
/// counts and lengths.
pub open spec fn ser_init(i: InitView) -> Seq<u8> {
    be16(i.version) + ser_headers(i.headers, false)
}

/// An init payload at `pos`.
pub open spec fn parse_init(s: Seq<u8>, pos: int) -> Parsed<InitView> {
    match parse_u16(s, pos) {
        Err(e) => Err(e),
        Ok((version, p1)) => match parse_headers(s, p1, false) {
            Err(e) => Err(e),
            Ok((headers, p2)) => Ok((InitView { version, headers }, p2)),
        },
    }
}

impl Init {
    /// An init payload.
    pub fn new(version: u16, headers: Headers) -> (i: Init)
        ensures
            i.version == version,
            i.headers == headers,
    {
        Init { version, headers }
    }

    /// The protocol version.
    pub fn version(&self) -> (v: &u16)
        ensures
            *v == self.version,
    {
        &self.version
    }

    /// The headers.
    pub fn headers(&self) -> (h: &Headers)
        ensures
            *h == self.headers,
    {
        &self.headers
    }

    /// Appends the bytes of the payload.
    pub fn encode(&self, dst: &mut Vec<u8>) -> (r: CodecResult<()>)
        ensures
            r is Ok <==> headers_fit(self@.headers, false),
            r is Ok ==> final(dst)@ == old(dst)@ + ser_init(self@),
            r matches Err(e) ==> e matches CodecError::Error(m) && m@ == headers_error_message(self@.headers, false),
    {
        put_u16(dst, self.version);
        encode_headers(&self.headers, dst, false)?;
        assert(dst@ =~= old(dst)@ + ser_init(self@));
        Ok(())
    }

    /// The bytes of the payload.
    pub fn encode_bytes(&self) -> (r: CodecResult<Vec<u8>>)
        ensures
            r is Ok <==> headers_fit(self@.headers, false),
            r matches Ok(b) ==> b@ == ser_init(self@),
            r matches Err(e) ==> e matches CodecError::Error(m) && m@ == headers_error_message(self@.headers, false),
    {
        let mut bytes: Vec<u8> = Vec::new();
        self.encode(&mut bytes)?;
        assert(bytes@ =~= ser_init(self@));
        Ok(bytes)
    }

    /// Reads the payload at `pos`.
    pub fn decode_at(src: &[u8], pos: usize) -> (r: CodecResult<(Init, usize)>)
        ensures
            decoded_as(r, parse_init(src@, pos as int), |i: Init| i@),
    {
        let (version, p1) = take_u16(src, pos)?;
        let (headers, p2) = decode_headers(src, p1, false)?;
        Ok((Init { version, headers }, p2))
    }

    /// Takes an init payload off the front of `src`.
    pub fn decode(src: &mut Vec<u8>) -> (r: CodecResult<Init>)
        ensures
            consumed_as(r, parse_init(old(src)@, 0), |i: Init| i@, old(src)@, final(src)@),
    {
        let (i, end) = Init::decode_at(src.as_slice(), 0)?;
        proof {
            lemma_parse_init_end(src@, 0);
        }
        advance(src, end);
        Ok(i)
    }
}

impl Default for Init {
    fn default() -> (i: Init)
        ensures
            i.version == PROTOCOL_VERSION,
            i@.headers.len() == 0,
    {
        let i = Init { version: PROTOCOL_VERSION, headers: NameMap::new() };
        assert(i@.headers.len() == 0);
        i
    }
}

/// Parsed strings end inside the input.
proof fn lemma_parse_string_end(s: Seq<u8>, pos: int, small: bool)
    ensures
        parse_string(s, pos, small) matches Ok((_, p)) ==> pos < p <= s.len(),
{
}

proof fn lemma_parse_pairs_end(
    s: Seq<u8>,
    pos: int,
    small: bool,
    n: nat,
    acc: Seq<(Seq<char>, Seq<char>)>,
)
    requires
        0 <= pos <= s.len(),
    ensures
        parse_pairs(s, pos, small, n, acc) matches Ok((_, p)) ==> pos <= p <= s.len(),
    decreases n,
{
    if n > 0 {
        lemma_parse_string_end(s, pos, small);
        if let Ok((k, p1)) = parse_string(s, pos, small) {
            lemma_parse_string_end(s, p1, small);
            if let Ok((v, p2)) = parse_string(s, p1, small) {
                lemma_parse_pairs_end(s, p2, small, (n - 1) as nat, insert_entry(acc, k, v));
            }
        }
    }
}

proof fn lemma_parse_init_end(s: Seq<u8>, pos: int)
    requires
        0 <= pos <= s.len(),
    ensures
        parse_init(s, pos) matches Ok((_, p)) ==> pos <= p <= s.len(),
{
    if let Ok((_, p1)) = parse_u16(s, pos) {
        if let Ok((n, p2)) = parse_len(s, p1, false) {
            lemma_parse_pairs_end(s, p2, false, n as nat, Seq::empty());
        }
    }
}

/// Decoding the bytes of an init payload gives it back.
pub proof fn lemma_init_roundtrip(i: InitView, rest: Seq<u8>)
    requires
        headers_fit(i.headers, false),
        keys_distinct(i.headers),
    ensures
        parse_init(ser_init(i) + rest, 0) == Ok::<(InitView, int), DecodeError>(
            (i, ser_init(i).len() as int),
        ),
{
    let s = ser_init(i) + rest;
    assert(s.subrange(0, ser_init(i).len() as int) =~= ser_init(i));
    lemma_holds_split(s, 0, be16(i.version), ser_headers(i.headers, false));
    lemma_parse_u16(s, 0, i.version);
    lemma_headers_roundtrip(s, 2, i.headers, false);
}

/// The payload of cancel frames.
#[derive(Debug, PartialEq)]
pub struct Cancel {
    /// ttl:4
    pub ttl: u32,
    /// tracing:25
    pub tracing: Tracing,
    pub why: String,
}

/// The bytes of a cancel payload.
pub open spec fn ser_cancel(ttl: u32, tracing: Tracing, why: Seq<char>) -> Seq<u8> {
    be32(ttl) + ser_tracing(tracing) + ser_string(why, false)
}

/// A cancel payload at `pos`.
pub open spec fn parse_cancel(s: Seq<u8>, pos: int) -> Parsed<(u32, Tracing, Seq<char>)> {
    match parse_u32(s, pos) {
        Err(e) => Err(e),
        Ok((ttl, p1)) => match parse_tracing(s, p1) {
            Err(e) => Err(e),
            Ok((tracing, p2)) => match parse_string(s, p2, false) {
                Err(e) => Err(e),
                Ok((why, p3)) => Ok(((ttl, tracing, why), p3)),
            },
        },
    }
}

impl Cancel {
    /// A cancel payload.
    pub fn new(ttl: u32, tracing: Tracing, why: String) -> (c: Cancel)
        ensures
            c.ttl == ttl,
            c.tracing == tracing,
            c.why == why,
    {
        Cancel { ttl, tracing, why }
    }

    /// Appends the bytes of the payload.
    pub fn encode(&self, dst: &mut Vec<u8>) -> (r: CodecResult<()>)
        ensures
            r is Ok <==> string_fits(self.why@, false),
            r is Ok ==> final(dst)@ == old(dst)@ + ser_cancel(self.ttl, self.tracing, self.why@),
            r matches Err(e) ==> e matches CodecError::Error(m) && m@ == cast_len_message(utf8_bytes(self.why@).len() as int),
    {
        put_u32(dst, self.ttl);
        let _ = self.tracing.encode(dst);
        encode_string(&self.why, dst, false)?;
        assert(dst@ =~= old(dst)@ + ser_cancel(self.ttl, self.tracing, self.why@));
        Ok(())
    }

    /// Reads the payload at `pos`.
    pub fn decode_at(src: &[u8], pos: usize) -> (r: CodecResult<(Cancel, usize)>)
        ensures
            decoded_as(r, parse_cancel(src@, pos as int), |c: Cancel| (c.ttl, c.tracing, c.why@)),
    {
        let (ttl, p1) = take_u32(src, pos)?;
        let (tracing, p2) = Tracing::decode_at(src, p1)?;
        let (why, p3) = decode_string(src, p2, false)?;
        Ok((Cancel { ttl, tracing, why }, p3))
    }
}

/// The payload of claim frames.
#[derive(Debug, Clone, Copy, PartialEq, Eq, Structural)]
pub struct Claim {
    /// ttl:4
    pub ttl: u32,
    /// tracing:25
    pub tracing: Tracing,
}

/// The bytes of a claim payload.
pub open spec fn ser_claim(c: Claim) -> Seq<u8> {
    be32(c.ttl) + ser_tracing(c.tracing)
}

/// A claim payload at `pos`.
pub open spec fn parse_claim(s: Seq<u8>, pos: int) -> Parsed<Claim> {
    match parse_u32(s, pos) {
        Err(e) => Err(e),
        Ok((ttl, p1)) => match parse_tracing(s, p1) {
            Err(e) => Err(e),
            Ok((tracing, p2)) => Ok((Claim { ttl, tracing }, p2)),
        },
    }
}

impl Claim {
    /// A claim payload.
    pub fn new(ttl: u32, tracing: Tracing) -> (c: Claim)
        ensures
            c == (Claim { ttl, tracing }),
    {
        Claim { ttl, tracing }
    }

    /// Appends the bytes of the payload.
    pub fn encode(&self, dst: &mut Vec<u8>) -> (r: CodecResult<()>)
        ensures
            r is Ok,
            final(dst)@ == old(dst)@ + ser_claim(*self),
    {
        put_u32(dst, self.ttl);
        let _ = self.tracing.encode(dst);
        assert(dst@ =~= old(dst)@ + ser_claim(*self));
        Ok(())
    }

    /// Reads the payload at `pos`.
    pub fn decode_at(src: &[u8], pos: usize) -> (r: CodecResult<(Claim, usize)>)
        ensures
            decoded_as(r, parse_claim(src@, pos as int), |c: Claim| c),
    {
        let (ttl, p1) = take_u32(src, pos)?;
        let (tracing, p2) = Tracing::decode_at(src, p1)?;
        Ok((Claim { ttl, tracing }, p2))
    }
}

/// Decoding the bytes of a cancel payload gives it back.
pub proof fn lemma_cancel_roundtrip(ttl: u32, tracing: Tracing, why: Seq<char>)
    requires
        string_fits(why, false),
    ensures
        parse_cancel(ser_cancel(ttl, tracing, why), 0) == Ok::<((u32, Tracing, Seq<char>), int), DecodeError>(
            ((ttl, tracing, why), ser_cancel(ttl, tracing, why).len() as int),
        ),
{
    let s = ser_cancel(ttl, tracing, why);
    let a = be32(ttl);
    let b = ser_tracing(tracing);
    let c = ser_string(why, false);
    assert(s.subrange(0, s.len() as int) =~= s);
    lemma_holds_split(s, 0, a + b, c);
    lemma_holds_split(s, 0, a, b);
    lemma_parse_u32(s, 0, ttl);
    lemma_tracing_roundtrip(s, 4, tracing);
    lemma_string_roundtrip(s, 29, why, false);
}

/// Decoding the bytes of a claim payload gives it back.
pub proof fn lemma_claim_roundtrip(c: Claim)
    ensures
        parse_claim(ser_claim(c), 0) == Ok::<(Claim, int), DecodeError>((c, 29)),
{
    let s = ser_claim(c);
    let a = be32(c.ttl);
    let b = ser_tracing(c.tracing);
    assert(s.subrange(0, s.len() as int) =~= s);
    lemma_holds_split(s, 0, a, b);
    lemma_parse_u32(s, 0, c.ttl);
    lemma_tracing_roundtrip(s, 4, c.tracing);
}

/// The bytes of an error payload.
pub open spec fn ser_error_msg(code: ErrorCode, tracing: Tracing, message: Seq<char>) -> Seq<u8> {
    seq![error_code(code)] + ser_tracing(tracing) + ser_string(message, false)
}

/// An error payload at `pos`.
pub open spec fn parse_error_msg(s: Seq<u8>, pos: int) -> Parsed<(ErrorCode, Tracing, Seq<char>)> {
    match parse_coded(s, pos, |b: u8| error_of_code(b)) {
        Err(e) => Err(e),
        Ok((code, p1)) => match parse_tracing(s, p1) {
            Err(e) => Err(e),
            Ok((tracing, p2)) => match parse_string(s, p2, false) {
                Err(e) => Err(e),
                Ok((message, p3)) => Ok(((code, tracing, message), p3)),
            },
        },
    }
}

/// The fields of an error payload, as values.
pub open spec fn error_msg_view(e: ErrorMsg) -> (ErrorCode, Tracing, Seq<char>) {
    (e.code, e.tracing, e.message@)
}

impl ErrorMsg {
    /// An error payload.
    pub fn new(code: ErrorCode, tracing: Tracing, message: String) -> (e: ErrorMsg)
        ensures
            e.code == code,
            e.tracing == tracing,
            e.message == message,
    {
        ErrorMsg { code, tracing, message }
    }

    /// Appends the bytes of the payload.
    pub fn encode(&self, dst: &mut Vec<u8>) -> (r: CodecResult<()>)
        ensures
            r is Ok <==> string_fits(self.message@, false),
            r is Ok ==> final(dst)@ == old(dst)@ + ser_error_msg(self.code, self.tracing, self.message@),
            r matches Err(e) ==> e matches CodecError::Error(m) && m@ == cast_len_message(utf8_bytes(self.message@).len() as int),
    {
        put_u8(dst, self.code.to_u8());
        let _ = self.tracing.encode(dst);
        encode_string(&self.message, dst, false)?;
        assert(dst@ =~= old(dst)@ + ser_error_msg(self.code, self.tracing, self.message@));
        Ok(())
    }

    /// The bytes of the payload.
    pub fn encode_bytes(&self) -> (r: CodecResult<Vec<u8>>)
        ensures
            r is Ok <==> string_fits(self.message@, false),
            r matches Ok(b) ==> b@ == ser_error_msg(self.code, self.tracing, self.message@),
            r matches Err(e) ==> e matches CodecError::Error(m) && m@ == cast_len_message(utf8_bytes(self.message@).len() as int),
    {
        let mut bytes: Vec<u8> = Vec::new();
        self.encode(&mut bytes)?;
        assert(bytes@ =~= ser_error_msg(self.code, self.tracing, self.message@));
        Ok(bytes)
    }

    /// Reads the payload at `pos`.
    pub fn decode_at(src: &[u8], pos: usize) -> (r: CodecResult<(ErrorMsg, usize)>)
        ensures
            decoded_as(r, parse_error_msg(src@, pos as int), |e: ErrorMsg| error_msg_view(e)),
            r matches Ok((_, p)) ==> p <= src@.len(),
    {
        let (b, p1) = take_u8(src, pos)?;
        let code: ErrorCode = match ErrorCode::from_u8(b) {
            Some(c) => c,
            None => return Err(unknown_flag(b)),
        };
        let (tracing, p2) = Tracing::decode_at(src, p1)?;
        let (message, p3) = decode_string(src, p2, false)?;
        proof {
            lemma_parse_string_end(src@, p2 as int, false);
        }
        Ok((ErrorMsg { code, tracing, message }, p3))
    }

    /// Takes an error payload off the front of `src`.
    pub fn decode(src: &mut Vec<u8>) -> (r: CodecResult<ErrorMsg>)
        ensures
            consumed_as(r, parse_error_msg(old(src)@, 0), |e: ErrorMsg| error_msg_view(e), old(src)@, final(src)@),
    {
        let (e, end) = ErrorMsg::decode_at(src.as_slice(), 0)?;
        advance(src, end);
        Ok(e)
    }
}

/// Decoding the bytes of an error payload gives it back.
pub proof fn lemma_error_msg_roundtrip(code: ErrorCode, tracing: Tracing, message: Seq<char>)
    requires
        string_fits(message, false),
    ensures
        parse_error_msg(ser_error_msg(code, tracing, message), 0) == Ok::<
            ((ErrorCode, Tracing, Seq<char>), int),
            DecodeError,
        >(((code, tracing, message), ser_error_msg(code, tracing, message).len() as int)),
{
    let s = ser_error_msg(code, tracing, message);
    let a = seq![error_code(code)];
    let b = ser_tracing(tracing);
    let c = ser_string(message, false);
    assert(s.subrange(0, s.len() as int) =~= s);
    lemma_holds_split(s, 0, a + b, c);
    lemma_holds_split(s, 0, a, b);
    lemma_parse_u8(s, 0, error_code(code));
    lemma_tracing_roundtrip(s, 1, tracing);
    lemma_string_roundtrip(s, 26, message, false);
}

} // verus!
