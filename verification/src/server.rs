//! The server side of a connection: the init handshake, and the frames a
//! handled request is answered with.
use crate::connection::{check_init, init_checked, ConnectionResult};
use crate::errors::{connection_error_text, tchannel_error_text, CodecError, TChannelError};
use crate::fragmentation::{
    fill_frame, fills_fit, response_error_message, message_fills, payload_limit_spec, response_fields_spec, ResponseFragmenter,
};
use crate::frames::headers::{arg_scheme_text, InitHeaderKey};
use crate::frames::payloads::{
    headers_fit, ser_error_msg, ser_init, ser_response_fields, string_fits, CodecResult, ErrorCode, ErrorMsg,
    Headers, Init, InitView, TraceFlags, Tracing, PROTOCOL_VERSION,
};
use crate::frames::{FrameView, TFrame, TFrameId, Type};
use crate::handler::TResult;
use crate::messages::args::{MessageArgs, ResponseCode};
use crate::name_map::NameMap;
use crate::text::{lemma_utf8_len_bound, owned};
use vstd::prelude::*;

verus! {

/// Checks the init request a client opens a connection with.
pub fn check_init_req(frame_id: TFrameId) -> (r: ConnectionResult<()>)
    ensures
        init_checked(Type::InitRequest, frame_id.id, frame_id.frame@, r),
{
    check_init(Type::InitRequest, frame_id)
}

/// The headers the server answers an init request with.
pub open spec fn init_response_headers() -> Seq<(Seq<char>, Seq<char>)> {
    seq![("tchannel_language"@, "rust"@)]
}

/// The init response to the init request of message `id`: the protocol
/// version and the server's language.
pub fn init_response(id: u32) -> (r: CodecResult<TFrameId>)
    ensures
        r matches Ok(f) && f.id == id && f.frame@ == (FrameView {
            frame_type: Type::InitResponse,
            payload: ser_init(InitView { version: PROTOCOL_VERSION, headers: init_response_headers() }),
        }),
{
    let mut headers: Headers = NameMap::new();
    proof {
        reveal_strlit("tchannel_language");
        reveal_strlit("rust");
    }
    headers.insert(InitHeaderKey::TChannelLanguage.to_string(), owned("rust"));
    let init: Init = Init::new(PROTOCOL_VERSION, headers);
    proof {
        assert(init@.headers =~= init_response_headers());
        lemma_utf8_len_bound("tchannel_language"@);
        lemma_utf8_len_bound("rust"@);
        assert(headers_fit(init@.headers, false));
    }
    let payload: Vec<u8> = init.encode_bytes()?;
    Ok(TFrameId::new(id, TFrame::new(Type::InitResponse, payload)))
}

/// The tracing information of error frames: none.
pub open spec fn no_tracing() -> Tracing {
    Tracing { span_id: 0, parent_id: 0, trace_id: 0, trace_flags: TraceFlags::NONE }
}

/// Whether `r` is the outcome of making an error frame with `code` and
/// `message` for message `id`.
pub open spec fn error_frame_made(code: ErrorCode, message: Seq<char>, id: u32, r: CodecResult<TFrameId>) -> bool {
    if string_fits(message, false) {
        r matches Ok(f) && f.id == id && f.frame@ == (FrameView {
            frame_type: Type::Error,
            payload: ser_error_msg(code, no_tracing(), message),
        })
    } else {
        r is Err
    }
}

/// An error frame with `code` and message `msg` for message `id`.
pub fn to_error_frame(code: ErrorCode, msg: String, id: u32) -> (r: CodecResult<TFrameId>)
    ensures
        error_frame_made(code, msg@, id, r),
{
    let tracing: Tracing = Tracing::default();
    let err: ErrorMsg = ErrorMsg::new(code, tracing, msg);
    let payload: Vec<u8> = err.encode_bytes()?;
    Ok(TFrameId::new(id, TFrame::new(Type::Error, payload)))
}

/// Whether `r` answers message `id` with the single error frame with `code`
/// and `message`, or fails for a message too long for a frame.
pub open spec fn single_error_frame(code: ErrorCode, message: Seq<char>, id: u32, r: TResult<Vec<TFrameId>>) -> bool {
    if string_fits(message, false) {
        r matches Ok(v) && v@.len() == 1 && v@[0].id == id && v@[0].frame@ == (FrameView {
            frame_type: Type::Error,
            payload: ser_error_msg(code, no_tracing(), message),
        })
    } else {
        r matches Err(TChannelError::CodecError(_))
    }
}

/// What message `id` is answered with when its response could not be
/// made: an error frame saying why, or, for a failure of the connection
/// pool, nothing but the failure.
pub open spec fn error_frames(id: u32, err: TChannelError, r: TResult<Vec<TFrameId>>) -> bool {
    match err {
        TChannelError::ConnectionError(c) => exists|s: Seq<char>|
            connection_error_text(c, s) && single_error_frame(ErrorCode::NetworkError, s, id, r),
        TChannelError::Error(m) => single_error_frame(ErrorCode::UnexpectedError, m@, id, r),
        TChannelError::ConnectionPoolError(_) => r == Err::<Vec<TFrameId>, TChannelError>(err),
        TChannelError::CodecError(_) => exists|s: Seq<char>|
            tchannel_error_text(err, s) && single_error_frame(ErrorCode::UnexpectedError, s, id, r),
    }
}

fn single(frame: CodecResult<TFrameId>) -> (r: TResult<Vec<TFrameId>>)
    ensures
        frame matches Ok(f) ==> (r matches Ok(v) && v@ == seq![f]),
        frame matches Err(e) ==> r == Err::<Vec<TFrameId>, TChannelError>(TChannelError::CodecError(e)),
{
    match frame {
        Ok(f) => Ok(vec![f]),
        Err(e) => Err(TChannelError::CodecError(e)),
    }
}

/// The frames answering message `id` when its response could not be made
/// because of `err`.
pub fn frames_for_error(id: u32, err: TChannelError) -> (r: TResult<Vec<TFrameId>>)
    ensures
        error_frames(id, err, r),
{
    match err {
        TChannelError::ConnectionError(c) => {
            let text: String = c.to_string();
            let ghost s = text@;
            let r = single(to_error_frame(ErrorCode::NetworkError, text, id));
            assert(connection_error_text(c, s) && single_error_frame(ErrorCode::NetworkError, s, id, r));
            r
        },
        TChannelError::Error(msg) => single(to_error_frame(ErrorCode::UnexpectedError, msg, id)),
        TChannelError::ConnectionPoolError(p) => Err(TChannelError::ConnectionPoolError(p)),
        err => {
            let text: String = err.to_string();
            let ghost s = text@;
            let r = single(to_error_frame(ErrorCode::UnexpectedError, text, id));
            assert(tchannel_error_text(err, s) && single_error_frame(ErrorCode::UnexpectedError, s, id, r));
            r
        },
    }
}

/// The frames answering message `id` of service `service` with the
/// response `response_args` and code `response_code`: the response split
/// into frames, or, where it cannot be, an error frame.
pub fn response_frames(id: u32, service: &String, response_code: ResponseCode, response_args: MessageArgs) -> (r:
    TResult<Vec<TFrameId>>)
    ensures
        ({
            let fields = response_fields_spec(
                response_code,
                arg_scheme_text(response_args.arg_scheme@),
                service@,
            );
            let fs = message_fills(
                response_args@.args,
                payload_limit_spec(ser_response_fields(fields).len() as int) - 1,
            );
            if headers_fit(fields.headers, true) && fills_fit(fs) {
                r matches Ok(frames) && frames@.len() == fs.len() && forall|k: int|
                    0 <= k < fs.len() ==> #[trigger] frames@[k].id == id && frames@[k].frame@ == fill_frame(
                        fs,
                        k,
                        ser_response_fields(fields),
                        Type::CallResponse,
                        Type::CallResponseContinue,
                    )
            } else {
                exists|e: CodecError|
                    (e matches CodecError::Error(m) && m@ == response_error_message(fields, fs)) && error_frames(
                        id,
                        TChannelError::CodecError(e),
                        r,
                    )
            }
        }),
{
    let fragmenter = ResponseFragmenter::new(service, response_code, response_args);
    match fragmenter.create_frames() {
        Ok(frames) => {
            let ghost all = frames@;
            let mut rest: Vec<TFrame> = frames;
            let mut out: Vec<TFrameId> = Vec::new();
            while rest.len() > 0
                invariant
                    out@.len() + rest@.len() == all.len(),
                    rest@ == all.skip(out@.len() as int),
                    forall|k: int| 0 <= k < out@.len() ==> #[trigger] out@[k].id == id && out@[k].frame == all[k],
                decreases rest@.len(),
            {
                let ghost n = out@.len();
                let f: TFrame = rest.remove(0);
                assert(f == all[n as int]);
                out.push(TFrameId::new(id, f));
                assert(rest@ =~= all.skip(out@.len() as int));
            }
            Ok(out)
        },
        Err(err) => {
            let ghost e = err;
            let r = frames_for_error(id, err);
            proof {
                let c = e->CodecError_0;
                assert(error_frames(id, TChannelError::CodecError(c), r));
            }
            r
        },
    }
}

} // verus!
