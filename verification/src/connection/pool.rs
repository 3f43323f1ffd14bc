//! Connection pools: the frames a pooled connection is opened and tested
//! with, and the checks of the answers to them.
use crate::connection::{check_init, error_reply, error_reply_of, init_checked, ConnectionResult};
use crate::errors::ConnectionError;
use crate::frames::payloads::{ser_init, CodecResult, Init, InitView, PROTOCOL_VERSION};
use crate::frames::{FrameView, TFrame, TFrameId, Type};
use vstd::prelude::*;

verus! {

/// Checks the answer to the init request of a new connection: an init
/// response of the protocol's version.
pub fn verify(frame_id: TFrameId) -> (r: ConnectionResult<()>)
    ensures
        init_checked(Type::InitResponse, frame_id.id, frame_id.frame@, r),
{
    check_init(Type::InitResponse, frame_id)
}

/// The init request a new connection opens with: the protocol version and
/// no headers.
pub fn init_handshake() -> (r: CodecResult<TFrame>)
    ensures
        r matches Ok(f) && f@ == (FrameView {
            frame_type: Type::InitRequest,
            payload: ser_init(InitView { version: PROTOCOL_VERSION, headers: Seq::empty() }),
        }),
{
    let init: Init = Init::default();
    let payload: Vec<u8> = init.encode_bytes()?;
    proof {
        assert(init@.headers =~= Seq::<(Seq<char>, Seq<char>)>::empty());
    }
    Ok(TFrame::new(Type::InitRequest, payload))
}

/// The request a pooled connection is tested with: a ping without payload.
pub fn ping() -> (f: TFrame)
    ensures
        f@ == (FrameView { frame_type: Type::PingRequest, payload: Seq::empty() }),
{
    TFrame::new(Type::PingRequest, Vec::new())
}

/// What checking the answer `f` to the ping of message `id` gives.
pub open spec fn ping_checked(id: u32, f: FrameView, r: ConnectionResult<()>) -> bool {
    if f.frame_type == Type::PingResponse {
        r is Ok
    } else if f.frame_type == Type::Error {
        error_reply(id, f.payload, r)
    } else {
        r matches Err(ConnectionError::UnexpectedResponseError(t)) && t == f.frame_type
    }
}

/// Checks the answer to a ping: a ping response.
pub fn check_ping(frame_id: TFrameId) -> (r: ConnectionResult<()>)
    ensures
        ping_checked(frame_id.id, frame_id.frame@, r),
{
    let id: u32 = frame_id.id;
    let mut frame = frame_id.frame;
    if frame.frame_type == Type::PingResponse {
        Ok(())
    } else if frame.frame_type == Type::Error {
        error_reply_of(id, frame.payload_mut())
    } else {
        Err(ConnectionError::UnexpectedResponseError(frame.frame_type))
    }
}

} // verus!
