//! What the TChannel protocol fixes on the wire, stated over the library's
//! encoders and decoders: the byte of each frame type, flag and error code,
//! the layout of tracing information, and the TTL of outgoing requests.
use crate::errors::TChannelError;
use crate::fragmentation::{
    fill_frame, fill_flags, lemma_message_fills, message_fills, payload_limit_spec, request_fields_spec, request_frames,
    response_fields_spec, response_frames_of,
};
use crate::frames::payloads::{
    parse_checksum, parse_response_fields, ser_checksum, ser_init, ChecksumType, InitView, ResponseCode,
    ResponseFieldsView, PROTOCOL_VERSION, lemma_tracing_roundtrip, parse_error_msg, parse_flags, parse_tracing, ser_call_continue, ser_call_request,
    ser_call_response, ser_error_msg, ser_request_fields, ser_response_fields, ser_tracing, ser_with_fields,
    CallContinueView, CallRequestView, CallResponseView, ErrorCode, Flags, TraceFlags, Tracing,
};
use crate::frames::{frame_bytes, frame_decoding, FrameDecoding, FrameView, TFrame, TFrameId, Type};
use crate::handler::TResult;
use crate::server::error_frames;
use crate::wire::{be32, be64, holds_at};
use vstd::prelude::*;

verus! {

// ---------------------------------------------------------------------------
// Frame types

/// The byte after a frame's size is the protocol's code of its type.
pub proof fn lemma_frame_type_byte(id: u32, f: FrameView)
    ensures
        frame_bytes(id, f)[2] == match f.frame_type {
            Type::InitRequest => 0x01u8,
            Type::InitResponse => 0x02u8,
            Type::CallRequest => 0x03u8,
            Type::CallResponse => 0x04u8,
            Type::CallRequestContinue => 0x13u8,
            Type::CallResponseContinue => 0x14u8,
            Type::Cancel => 0xc0u8,
            Type::Claim => 0xc1u8,
            Type::PingRequest => 0xd0u8,
            Type::PingResponse => 0xd1u8,
            Type::Error => 0xffu8,
        },
{
}

/// A decoded frame has the type whose protocol code is the byte after its
/// size.
pub proof fn lemma_frame_type_decoded(s: Seq<u8>)
    ensures
        frame_decoding(s) matches FrameDecoding::Frame { frame, .. } ==> s[2] == match frame.frame_type {
            Type::InitRequest => 0x01u8,
            Type::InitResponse => 0x02u8,
            Type::CallRequest => 0x03u8,
            Type::CallResponse => 0x04u8,
            Type::CallRequestContinue => 0x13u8,
            Type::CallResponseContinue => 0x14u8,
            Type::Cancel => 0xc0u8,
            Type::Claim => 0xc1u8,
            Type::PingRequest => 0xd0u8,
            Type::PingResponse => 0xd1u8,
            Type::Error => 0xffu8,
        },
{
}

// ---------------------------------------------------------------------------
// Flags

/// Every call payload opens with the protocol's bits of its flags.
pub proof fn lemma_flag_byte(
    request: CallRequestView,
    response: CallResponseView,
    continuation: CallContinueView,
    flags: Flags,
    fields: Seq<u8>,
    args: crate::frames::payloads::CallArgsView,
)
    ensures
        ser_call_request(request)[0] == match request.flags {
            Flags::NONE => 0x00u8,
            Flags::MORE_FRAGMENTS_FOLLOW => 0x01u8,
            Flags::IS_REQUEST_STREAMING => 0x02u8,
            Flags::MORE_FRAGMENTS_FOLLOW_AND_IS_REQUEST_STREAMING => 0x03u8,
        },
        ser_call_response(response)[0] == match response.flags {
            Flags::NONE => 0x00u8,
            Flags::MORE_FRAGMENTS_FOLLOW => 0x01u8,
            Flags::IS_REQUEST_STREAMING => 0x02u8,
            Flags::MORE_FRAGMENTS_FOLLOW_AND_IS_REQUEST_STREAMING => 0x03u8,
        },
        ser_call_continue(continuation)[0] == match continuation.flags {
            Flags::NONE => 0x00u8,
            Flags::MORE_FRAGMENTS_FOLLOW => 0x01u8,
            Flags::IS_REQUEST_STREAMING => 0x02u8,
            Flags::MORE_FRAGMENTS_FOLLOW_AND_IS_REQUEST_STREAMING => 0x03u8,
        },
        ser_with_fields(flags, fields, args)[0] == match flags {
            Flags::NONE => 0x00u8,
            Flags::MORE_FRAGMENTS_FOLLOW => 0x01u8,
            Flags::IS_REQUEST_STREAMING => 0x02u8,
            Flags::MORE_FRAGMENTS_FOLLOW_AND_IS_REQUEST_STREAMING => 0x03u8,
        },
{
}

/// Reading flags reads the protocol's bits: exactly the bytes 0 to 3 are
/// flags, and each is read as the flags with those bits.
pub proof fn lemma_flag_decoded(s: Seq<u8>, pos: int)
    ensures
        parse_flags(s, pos) matches Ok((f, p)) ==> 0 <= pos < s.len() && s[pos] == match f {
            Flags::NONE => 0x00u8,
            Flags::MORE_FRAGMENTS_FOLLOW => 0x01u8,
            Flags::IS_REQUEST_STREAMING => 0x02u8,
            Flags::MORE_FRAGMENTS_FOLLOW_AND_IS_REQUEST_STREAMING => 0x03u8,
        } && p
            == pos + 1,
        0 <= pos < s.len() && s[pos] <= 3 ==> parse_flags(s, pos) is Ok,
{
}

/// Of the frames a request or response is split into, all but the last say
/// that more fragments follow (bits 0x01) and the last says nothing (0x00).
pub proof fn lemma_fragment_flags(
    service: Seq<char>,
    scheme: Seq<char>,
    code: ResponseCode,
    q: Seq<Seq<u8>>,
    requests: Result<Vec<TFrame>, TChannelError>,
    responses: Result<Vec<TFrame>, TChannelError>,
)
    requires
        request_frames(service, scheme, q, requests),
        response_frames_of(code, service, scheme, q, responses),
    ensures
        requests matches Ok(frames) ==> forall|k: int|
            0 <= k < frames@.len() ==> #[trigger] frames@[k]@.payload[0] == if k + 1 < frames@.len() {
                0x01u8
            } else {
                0x00u8
            },
        responses matches Ok(frames) ==> forall|k: int|
            0 <= k < frames@.len() ==> #[trigger] frames@[k]@.payload[0] == if k + 1 < frames@.len() {
                0x01u8
            } else {
                0x00u8
            },
{
    let rf = ser_request_fields(request_fields_spec(scheme, service));
    let sf = ser_response_fields(response_fields_spec(code, scheme, service));
    let fq = message_fills(q, payload_limit_spec(rf.len() as int) - 1);
    let fs = message_fills(q, payload_limit_spec(sf.len() as int) - 1);
    lemma_message_fills(q, payload_limit_spec(rf.len() as int) - 1);
    lemma_message_fills(q, payload_limit_spec(sf.len() as int) - 1);
    if requests is Ok {
        let frames = requests->Ok_0;
        assert forall|k: int| 0 <= k < frames@.len() implies #[trigger] frames@[k]@.payload[0] == if k + 1
            < frames@.len() {
            0x01u8
        } else {
            0x00u8
        } by {
            assert(frames@[k]@ == fill_frame(fq, k, rf, Type::CallRequest, Type::CallRequestContinue));
            assert((k + 1 < fq.len()) <==> fq[k].rest.len() > 0);
        }
    }
    if responses is Ok {
        let frames = responses->Ok_0;
        assert forall|k: int| 0 <= k < frames@.len() implies #[trigger] frames@[k]@.payload[0] == if k + 1
            < frames@.len() {
            0x01u8
        } else {
            0x00u8
        } by {
            assert(frames@[k]@ == fill_frame(fs, k, sf, Type::CallResponse, Type::CallResponseContinue));
            assert((k + 1 < fs.len()) <==> fs[k].rest.len() > 0);
        }
    }
}

// ---------------------------------------------------------------------------
// Error codes

/// An error payload opens with the protocol's code of its error, and a
/// decoded one has the error whose code its first byte is.
pub proof fn lemma_error_code_byte(code: ErrorCode, tracing: Tracing, message: Seq<char>, s: Seq<u8>, pos: int)
    ensures
        ser_error_msg(code, tracing, message)[0] == match code {
            ErrorCode::Invalid => 0x00u8,
            ErrorCode::Timeout => 0x01u8,
            ErrorCode::Cancelled => 0x02u8,
            ErrorCode::Busy => 0x03u8,
            ErrorCode::Declined => 0x04u8,
            ErrorCode::UnexpectedError => 0x05u8,
            ErrorCode::BadRequest => 0x06u8,
            ErrorCode::NetworkError => 0x07u8,
            ErrorCode::Unhealthy => 0x08u8,
            ErrorCode::FatalProtocolError => 0xffu8,
        },
        parse_error_msg(s, pos) matches Ok(((c, _, _), _)) ==> 0 <= pos < s.len() && s[pos] == match c {
            ErrorCode::Invalid => 0x00u8,
            ErrorCode::Timeout => 0x01u8,
            ErrorCode::Cancelled => 0x02u8,
            ErrorCode::Busy => 0x03u8,
            ErrorCode::Declined => 0x04u8,
            ErrorCode::UnexpectedError => 0x05u8,
            ErrorCode::BadRequest => 0x06u8,
            ErrorCode::NetworkError => 0x07u8,
            ErrorCode::Unhealthy => 0x08u8,
            ErrorCode::FatalProtocolError => 0xffu8,
        },
{
}

/// A failed request is answered with one error frame whose payload opens
/// with the code of an unexpected error (0x05) for an error of the library
/// or a codec, and of a network error (0x07) for a connection error,
/// followed by 25 bytes of empty tracing.
pub proof fn lemma_error_frame_codes(id: u32, err: TChannelError, r: TResult<Vec<TFrameId>>)
    requires
        error_frames(id, err, r),
    ensures
        r matches Ok(v) ==> {
            &&& v@.len() == 1
            &&& v@[0].id == id
            &&& v@[0].frame@.frame_type == Type::Error
            &&& v@[0].frame@.payload[0] == match err {
                TChannelError::ConnectionError(_) => 0x07u8,
                _ => 0x05u8,
            }
            &&& v@[0].frame@.payload.subrange(1, 26) == Seq::new(25, |i: int| 0u8)
        },
{
    if r is Ok {
        let v = r->Ok_0;
        let t = Tracing { span_id: 0, parent_id: 0, trace_id: 0, trace_flags: TraceFlags::NONE };
        lemma_tracing_layout(t);
        assert(be32(0) =~= seq![0u8, 0u8, 0u8, 0u8]);
        assert(be64(0) =~= seq![0u8, 0u8, 0u8, 0u8, 0u8, 0u8, 0u8, 0u8]);
        let p = v@[0].frame@.payload;
        assert(p.subrange(1, 26) =~= ser_tracing(t));
        assert(ser_tracing(t) =~= Seq::new(25, |i: int| 0u8));
    }
}

// ---------------------------------------------------------------------------
// Tracing

/// Tracing takes 25 bytes: the span id, the parent id and the trace id, each
/// as eight big-endian bytes and in that order, then the trace flags (0x00
/// for none, 0x01 when enabled).
pub proof fn lemma_tracing_layout(t: Tracing)
    ensures
        ser_tracing(t).len() == 25,
        ser_tracing(t).subrange(0, 8) == be64(t.span_id),
        ser_tracing(t).subrange(8, 16) == be64(t.parent_id),
        ser_tracing(t).subrange(16, 24) == be64(t.trace_id),
        ser_tracing(t)[24] == match t.trace_flags {
            TraceFlags::NONE => 0x00u8,
            TraceFlags::ENABLED => 0x01u8,
        },
{
    let s = ser_tracing(t);
    assert(s.subrange(0, 8) =~= be64(t.span_id));
    assert(s.subrange(8, 16) =~= be64(t.parent_id));
    assert(s.subrange(16, 24) =~= be64(t.trace_id));
}

/// Reading tracing from the span id, parent id and trace id as big-endian
/// bytes, in that order, and a flags byte gives those ids and flags.
pub proof fn lemma_tracing_read(span_id: u64, parent_id: u64, trace_id: u64, flags: u8, s: Seq<u8>, pos: int)
    requires
        flags <= 1,
        holds_at(s, pos, be64(span_id) + be64(parent_id) + be64(trace_id) + seq![flags]),
    ensures
        parse_tracing(s, pos) == Ok::<(Tracing, int), crate::frames::payloads::DecodeError>(
            (
                Tracing {
                    span_id,
                    parent_id,
                    trace_id,
                    trace_flags: if flags == 0 {
                        TraceFlags::NONE
                    } else {
                        TraceFlags::ENABLED
                    },
                },
                pos + 25,
            ),
        ),
{
    let t = Tracing {
        span_id,
        parent_id,
        trace_id,
        trace_flags: if flags == 0 {
            TraceFlags::NONE
        } else {
            TraceFlags::ENABLED
        },
    };
    lemma_tracing_layout(t);
    let w = be64(span_id) + be64(parent_id) + be64(trace_id) + seq![flags];
    assert(ser_tracing(t) =~= w) by {
        assert(forall|k: int| 0 <= k < 8 ==> ser_tracing(t)[k] == #[trigger] ser_tracing(t).subrange(0, 8)[k]);
        assert(forall|k: int| 8 <= k < 16 ==> ser_tracing(t)[k] == #[trigger] ser_tracing(t).subrange(8, 16)[k - 8]);
        assert(forall|k: int| 16 <= k < 24 ==> ser_tracing(t)[k] == #[trigger] ser_tracing(t).subrange(16, 24)[k - 16]);
    }
    lemma_tracing_roundtrip(s, pos, t);
}

// ---------------------------------------------------------------------------
// Response codes, checksums and the protocol version

/// Response fields open with the response's code: 0x00 for success, 0x01
/// for an error; decoded fields have the code their first byte is.
pub proof fn lemma_response_code_byte(f: ResponseFieldsView, s: Seq<u8>, pos: int)
    ensures
        ser_response_fields(f)[0] == match f.code {
            ResponseCode::Success => 0x00u8,
            ResponseCode::Error => 0x01u8,
        },
        parse_response_fields(s, pos) matches Ok((g, _)) ==> 0 <= pos < s.len() && s[pos] == match g.code {
            ResponseCode::Success => 0x00u8,
            ResponseCode::Error => 0x01u8,
        },
{
}

/// The first frame of a response split into frames carries its code right
/// after the flags: 0x00 for success, 0x01 for an error.
pub proof fn lemma_response_code_in_frame(
    code: ResponseCode,
    service: Seq<char>,
    scheme: Seq<char>,
    q: Seq<Seq<u8>>,
    r: Result<Vec<TFrame>, TChannelError>,
)
    requires
        response_frames_of(code, service, scheme, q, r),
    ensures
        r matches Ok(frames) ==> {
            &&& frames@.len() >= 1
            &&& frames@[0]@.frame_type == Type::CallResponse
            &&& frames@[0]@.payload[1] == match code {
                ResponseCode::Success => 0x00u8,
                ResponseCode::Error => 0x01u8,
            }
        },
{
    let sf = ser_response_fields(response_fields_spec(code, scheme, service));
    let first_limit = payload_limit_spec(sf.len() as int) - 1;
    let fs = message_fills(q, first_limit);
    lemma_message_fills(q, first_limit);
    if r is Ok {
        let frames = r->Ok_0;
        assert(frames@[0]@ == fill_frame(fs, 0, sf, Type::CallResponse, Type::CallResponseContinue));
        assert(frames@[0]@.payload[1] == sf[0]);
    }
}

/// A checksum opens with the code of its type: 0x00 none, 0x01 crc-32,
/// 0x02 farmhash, 0x03 crc-32C; none takes just that byte, the others four
/// more. A decoded checksum has the type its first byte is.
pub proof fn lemma_checksum_code_byte(t: ChecksumType, c: Option<u32>, s: Seq<u8>, pos: int)
    ensures
        ser_checksum(t, c)[0] == match t {
            ChecksumType::NoChecksum => 0x00u8,
            ChecksumType::Crc32 => 0x01u8,
            ChecksumType::Farmhash => 0x02u8,
            ChecksumType::Crc32C => 0x03u8,
        },
        ser_checksum(t, c).len() == if t == ChecksumType::NoChecksum {
            1int
        } else {
            5int
        },
        parse_checksum(s, pos) matches Ok(((u, _), _)) ==> 0 <= pos < s.len() && s[pos] == match u {
            ChecksumType::NoChecksum => 0x00u8,
            ChecksumType::Crc32 => 0x01u8,
            ChecksumType::Farmhash => 0x02u8,
            ChecksumType::Crc32C => 0x03u8,
        },
{
}

/// An init payload of the library's protocol version, as the server answers
/// an init request with and the handshake requires, opens with 00 02.
pub proof fn lemma_init_version_bytes(i: InitView)
    requires
        i.version == PROTOCOL_VERSION,
    ensures
        ser_init(i).subrange(0, 2) == seq![0x00u8, 0x02u8],
{
    assert(ser_init(i).subrange(0, 2) =~= seq![0x00u8, 0x02u8]);
}

// ---------------------------------------------------------------------------
// Requests

/// The first frame of every request split into frames is a call request
/// whose TTL, the four bytes after its flags, is one minute: 60000
/// milliseconds, big-endian 00 00 EA 60.
pub proof fn lemma_request_ttl(service: Seq<char>, scheme: Seq<char>, q: Seq<Seq<u8>>, r: Result<
    Vec<TFrame>,
    TChannelError,
>)
    requires
        request_frames(service, scheme, q, r),
    ensures
        r matches Ok(frames) ==> {
            &&& frames@.len() >= 1
            &&& frames@[0]@.frame_type == Type::CallRequest
            &&& frames@[0]@.payload.subrange(1, 5) == seq![0x00u8, 0x00u8, 0xEAu8, 0x60u8]
        },
{
    let rf = ser_request_fields(request_fields_spec(scheme, service));
    let first_limit = payload_limit_spec(rf.len() as int) - 1;
    let fs = message_fills(q, first_limit);
    lemma_message_fills(q, first_limit);
    if r is Ok {
        let frames = r->Ok_0;
        assert(frames@[0]@ == fill_frame(fs, 0, rf, Type::CallRequest, Type::CallRequestContinue));
        let p = frames@[0]@.payload;
        assert(rf.subrange(0, 4) =~= be32(60000));
        assert(p.subrange(1, 5) =~= rf.subrange(0, 4));
        assert(be32(60000) =~= seq![0x00u8, 0x00u8, 0xEAu8, 0x60u8]);
    }
}

} // verus!
