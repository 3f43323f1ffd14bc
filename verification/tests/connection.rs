use tchannel_rs::connection::pool::{check_ping, init_handshake, ping, verify};
use tchannel_rs::connection::{check_init, FramesDispatcher};
use tchannel_rs::errors::{CodecError, ConnectionError, PoolError, TChannelError};
use tchannel_rs::frames::headers::ArgSchemeValue;
use tchannel_rs::frames::payloads::{ErrorCode, ErrorMsg, Headers, Init, ResponseCode, TraceFlags, Tracing};
use tchannel_rs::frames::{TFrame, TFrameId, Type};
use tchannel_rs::messages::MessageArgs;
use tchannel_rs::name_map::NameMap;
use tchannel_rs::server::{check_init_req, frames_for_error, init_response, response_frames, to_error_frame};

fn init_frame(frame_type: Type, version: u16) -> TFrameId {
    let init = Init::new(version, NameMap::new());
    TFrameId::new(3, TFrame::new(frame_type, init.encode_bytes().unwrap()))
}

fn error_frame(message: &str) -> (ErrorMsg, TFrameId) {
    let tracing = Tracing::new(0, 0, 0, TraceFlags::NONE);
    let error = ErrorMsg::new(ErrorCode::Busy, tracing, message.to_string());
    let frame = TFrameId::new(4, TFrame::new(Type::Error, error.encode_bytes().unwrap()));
    (error, frame)
}

#[test]
fn dispatcher_register_and_dispatch() {
    let mut dispatcher: FramesDispatcher<&str> = FramesDispatcher::new(10);
    assert_eq!(10, dispatcher.buffer_size());
    assert_eq!(None, dispatcher.dispatch(1));
    assert_eq!(Ok(()), dispatcher.register(1, "first"));
    assert_eq!(
        Err(ConnectionError::Error("Duplicated id: 1.".to_string())),
        dispatcher.register(1, "second")
    );
    assert_eq!(Some(&"first"), dispatcher.dispatch(1));
    assert_eq!(Ok(&"first"), dispatcher.dispatch_following(1));
    assert_eq!(Some("first"), dispatcher.deregister(&1));
    assert_eq!(None, dispatcher.deregister(&1));
    assert_eq!(Err(ConnectionError::Error("Id 1 not found".to_string())), dispatcher.dispatch_following(1));
}

#[test]
fn dispatcher_dispatch_first() {
    let mut dispatcher: FramesDispatcher<u8> = FramesDispatcher::new(1);
    assert_eq!(Ok(()), dispatcher.dispatch_first(42, 1));
    assert_eq!(
        Err(ConnectionError::Error("Sender for id 42 exists".to_string())),
        dispatcher.dispatch_first(42, 2)
    );
    assert_eq!(Some(&1), dispatcher.dispatch(42));
}

#[test]
fn handshake_checks() {
    assert_eq!(Ok(()), check_init_req(init_frame(Type::InitRequest, 2)));
    assert_eq!(Ok(()), verify(init_frame(Type::InitResponse, 2)));
    assert_eq!(
        Err(ConnectionError::Error("Unsupported protocol version: 7 ".to_string())),
        check_init(Type::InitRequest, init_frame(Type::InitRequest, 7))
    );
    assert_eq!(
        Err(ConnectionError::UnexpectedResponseError(Type::InitRequest)),
        verify(init_frame(Type::InitRequest, 2))
    );
    let (error, frame) = error_frame("go away");
    assert_eq!(Err(ConnectionError::MessageErrorId(error, 4)), check_init_req(frame));
    let truncated = TFrameId::new(5, TFrame::new(Type::InitRequest, vec![0]));
    assert_eq!(
        Err(ConnectionError::FrameError(CodecError::Error("Not enough bytes to decode".to_string()))),
        check_init_req(truncated)
    );
}

#[test]
fn pool_frames() {
    let mut frame = init_handshake().unwrap();
    assert_eq!(Type::InitRequest, *frame.frame_type());
    let init = Init::decode(frame.payload_mut()).unwrap();
    assert_eq!(2, *init.version());
    assert!(init.headers().is_empty());
    let ping = ping();
    assert_eq!(Type::PingRequest, *ping.frame_type());
    assert_eq!(0, ping.size());
    assert_eq!(Ok(()), check_ping(TFrameId::new(1, TFrame::new(Type::PingResponse, Vec::new()))));
    assert_eq!(
        Err(ConnectionError::UnexpectedResponseError(Type::CallResponse)),
        check_ping(TFrameId::new(1, TFrame::new(Type::CallResponse, Vec::new())))
    );
    let (error, frame) = error_frame("no");
    assert_eq!(Err(ConnectionError::MessageErrorId(error, 4)), check_ping(frame));
}

#[test]
fn server_init_response() {
    let mut response = init_response(9).unwrap();
    assert_eq!(9, *response.id());
    assert_eq!(Type::InitResponse, *response.frame().frame_type());
    let init = Init::decode(response.frame_mut().payload_mut()).unwrap();
    assert_eq!(2, *init.version());
    assert_eq!(1, init.headers().len());
    assert_eq!(Some(&"rust".to_string()), init.headers().get(&"tchannel_language".to_string()));
}

#[test]
fn server_error_frame() {
    let mut frame = to_error_frame(ErrorCode::BadRequest, "bad".to_string(), 11).unwrap();
    assert_eq!(11, *frame.id());
    assert_eq!(Type::Error, *frame.frame().frame_type());
    let error = ErrorMsg::decode(frame.frame_mut().payload_mut()).unwrap();
    assert_eq!(ErrorCode::BadRequest, error.code);
    assert_eq!("bad", error.message);
    assert_eq!(Tracing::new(0, 0, 0, TraceFlags::NONE), error.tracing);
}

#[test]
fn server_frames_for_errors() {
    let mut frames = frames_for_error(3, TChannelError::Error("oops".to_string())).unwrap();
    assert_eq!(1, frames.len());
    let error = ErrorMsg::decode(frames[0].frame_mut().payload_mut()).unwrap();
    assert_eq!(ErrorCode::UnexpectedError, error.code);
    assert_eq!("oops", error.message);

    let mut frames =
        frames_for_error(3, TChannelError::ConnectionError(ConnectionError::Error("down".to_string()))).unwrap();
    let error = ErrorMsg::decode(frames[0].frame_mut().payload_mut()).unwrap();
    assert_eq!(ErrorCode::NetworkError, error.code);
    assert_eq!("Connection error: down", error.message);

    let mut frames = frames_for_error(3, TChannelError::CodecError(CodecError::Error("bytes".to_string()))).unwrap();
    let error = ErrorMsg::decode(frames[0].frame_mut().payload_mut()).unwrap();
    assert_eq!(ErrorCode::UnexpectedError, error.code);
    assert_eq!("Codec error: bytes", error.message);

    assert_eq!(
        Err(TChannelError::ConnectionPoolError(PoolError::TimedOut)),
        frames_for_error(3, TChannelError::ConnectionPoolError(PoolError::TimedOut))
    );
}

#[test]
fn server_response_frames() {
    let args = MessageArgs::new(ArgSchemeValue::Raw, vec![b"e".to_vec(), b"h".to_vec(), b"b".to_vec()]);
    let frames = response_frames(21, &"service".to_string(), ResponseCode::Success, args).unwrap();
    assert_eq!(1, frames.len());
    assert_eq!(21, *frames[0].id());
    assert_eq!(Type::CallResponse, *frames[0].frame().frame_type());

    let too_many = MessageArgs::new(ArgSchemeValue::Raw, vec![Vec::new(), Vec::new(), Vec::new(), Vec::new()]);
    let mut frames = response_frames(22, &"service".to_string(), ResponseCode::Success, too_many).unwrap();
    assert_eq!(1, frames.len());
    assert_eq!(22, *frames[0].id());
    assert_eq!(Type::Error, *frames[0].frame().frame_type());
    let error = ErrorMsg::decode(frames[0].frame_mut().payload_mut()).unwrap();
    assert_eq!(ErrorCode::UnexpectedError, error.code);
    assert_eq!("Codec error: Wrong number of frame args 4", error.message);
}

#[test]
fn headers_helper_is_a_name_map() {
    let mut headers: Headers = NameMap::new();
    assert_eq!(None, headers.insert("k".to_string(), "v".to_string()));
    assert_eq!(Some("v".to_string()), headers.insert("k".to_string(), "w".to_string()));
    assert_eq!(1, headers.len());
}
