use tchannel_rs::defragmentation::{
    get_args_scheme, response_message, ArgSchemeChecker, ArgsDefragmenter, ReadProgress, RequestDefragmenter,
    ResponseDefragmenter,
};
use tchannel_rs::errors::{CodecError, ParseError, TChannelError};
use tchannel_rs::fragmentation::RequestFragmenter;
use tchannel_rs::frames::headers::{ArgSchemeValue, TransportHeaderKey};
use tchannel_rs::frames::payloads::{
    CallArgs, CallContinue, CallRequest, CallRequestFields, CallResponse, CallResponseFields, ChecksumType, Flags,
    Headers, ResponseCode, TraceFlags, Tracing,
};
use tchannel_rs::frames::{TFrame, TFrameId, Type};
use tchannel_rs::messages::{MessageArgs, MessageWithArgs, RawMessage};
use tchannel_rs::name_map::NameMap;

const SERVICE_NAME: &str = "test_service";

fn scheme_headers(scheme: ArgSchemeValue) -> Headers {
    let mut headers: Headers = NameMap::new();
    headers.insert(TransportHeaderKey::ArgScheme.to_string(), scheme.to_string());
    headers
}

fn some_args(args: &[&str]) -> Vec<Option<Vec<u8>>> {
    args.iter().map(|s| Some(s.as_bytes().to_vec())).collect()
}

fn response_frame(flags: Flags, headers: Headers, args: Vec<Option<Vec<u8>>>) -> TFrameId {
    let call_args = CallArgs::new(ChecksumType::NoChecksum, None, args);
    let tracing = Tracing::new(0, 0, 0, TraceFlags::NONE);
    let call_fields = CallResponseFields::new(ResponseCode::Success, tracing, headers);
    let response = CallResponse::new(flags, call_fields, call_args);
    TFrameId::new(1, TFrame::new(Type::CallResponse, response.encode_bytes().unwrap()))
}

#[test]
fn defragmentation_single_frame() {
    // GIVEN
    let frame_id = response_frame(Flags::NONE, scheme_headers(ArgSchemeValue::Raw), some_args(&["e", "h", "b"]));

    // WHEN
    let mut defragmenter = ResponseDefragmenter::for_message::<RawMessage>();
    let progress = defragmenter.read_response(Some(frame_id)).unwrap();
    let (fields, message_args) = match progress {
        ReadProgress::Complete(fields, message_args) => (fields, message_args),
        _ => panic!("response not complete"),
    };
    let response_res: Result<(ResponseCode, RawMessage), TChannelError> = response_message(fields, message_args);

    // THEN
    let (code, response) = response_res.unwrap();
    assert_eq!(ResponseCode::Success, code);
    assert_eq!("e".to_string(), *response.endpoint());
    assert_eq!("h".to_string(), *response.header());
    assert_eq!(b"b".to_vec(), *response.body());
    let response_args: MessageArgs = response.try_into_args().unwrap();
    assert_eq!(ArgSchemeValue::Raw, response_args.arg_scheme);
    assert_eq!(vec![b"e".to_vec(), b"h".to_vec(), b"b".to_vec()], response_args.args);
}

#[test]
fn defragmentation_wrong_frame() {
    // GIVEN
    let call_args = CallArgs::new(ChecksumType::NoChecksum, None, some_args(&["a", "b", "c"]));
    let tracing = Tracing::new(0, 0, 0, TraceFlags::NONE);
    let call_fields =
        CallRequestFields::new(10_000, tracing, SERVICE_NAME.to_owned(), scheme_headers(ArgSchemeValue::Raw));
    let request = CallRequest::new(Flags::NONE, call_fields, call_args);
    let frame = TFrame::new(Type::CallRequest, request.encode_bytes().unwrap());
    let frame_id = TFrameId::new(1, frame);

    // WHEN
    let mut defragmenter = ResponseDefragmenter::for_message::<RawMessage>();
    let response_res = defragmenter.read_response(Some(frame_id));

    // THEN
    assert!(response_res.is_err());
    let res = response_res.err().unwrap();
    assert_eq!(TChannelError::Error("Expected 'CallResponse' got 'CallRequest'".to_string()), res);
}

#[test]
fn defragmentation_multiple_frames() {
    // GIVEN the frames of a request whose arguments span three frames
    let arg1 = vec![b'a'; u16::MAX as usize];
    let arg2 = vec![b'b'; (u16::MAX / 2) as usize];
    let arg3 = vec![b'c'; u16::MAX as usize];
    let args = MessageArgs::new(ArgSchemeValue::Raw, vec![arg1.clone(), arg2.clone(), arg3.clone()]);
    let frames = RequestFragmenter::new(SERVICE_NAME.to_string(), args).create_frames().unwrap();
    assert_eq!(frames.len(), 3);

    // WHEN
    let mut defragmenter = RequestDefragmenter::new();
    let mut progress = Vec::new();
    for frame in frames {
        progress.push(defragmenter.read_request(Some(TFrameId::new(7, frame))).unwrap());
    }

    // THEN
    assert!(matches!(progress[0], ReadProgress::Reading));
    assert!(matches!(progress[1], ReadProgress::Reading));
    match progress.pop().unwrap() {
        ReadProgress::Complete(fields, message_args) => {
            assert_eq!(SERVICE_NAME.to_string(), *fields.service());
            assert_eq!(ArgSchemeValue::Raw, message_args.arg_scheme);
            assert_eq!(vec![arg1, arg2, arg3], message_args.args);
        },
        _ => panic!("request not complete"),
    }
}

#[test]
fn defragmentation_roundtrip_small_request() {
    let args = MessageArgs::new(ArgSchemeValue::Json, vec![b"m".to_vec(), b"{}".to_vec(), b"{\"k\":1}".to_vec()]);
    let frames = RequestFragmenter::new(SERVICE_NAME.to_string(), args).create_frames().unwrap();
    let mut defragmenter = RequestDefragmenter::new();
    let mut last = None;
    for frame in frames {
        last = Some(defragmenter.read_request(Some(TFrameId::new(1, frame))).unwrap());
    }
    match last.unwrap() {
        ReadProgress::Complete(_, message_args) => {
            assert_eq!(ArgSchemeValue::Json, message_args.arg_scheme);
            assert_eq!(vec![b"m".to_vec(), b"{}".to_vec(), b"{\"k\":1}".to_vec()], message_args.args);
        },
        _ => panic!("request not complete"),
    }
}

#[test]
fn defragmentation_no_frame() {
    let mut defragmenter = ResponseDefragmenter::new();
    let res = defragmenter.read_response(None);
    assert_eq!(TChannelError::Error("Received no response".to_string()), res.err().unwrap());
}

#[test]
fn defragmentation_stream_ends_after_first_frame() {
    let frame_id =
        response_frame(Flags::MORE_FRAGMENTS_FOLLOW, scheme_headers(ArgSchemeValue::Raw), some_args(&["e", "h"]));
    let mut defragmenter = ResponseDefragmenter::new();
    assert!(matches!(defragmenter.read_response(Some(frame_id)).unwrap(), ReadProgress::Reading));
    match defragmenter.read_response(None).unwrap() {
        ReadProgress::Complete(_, message_args) => {
            assert_eq!(vec![b"e".to_vec(), b"h".to_vec()], message_args.args);
        },
        _ => panic!("response not complete"),
    }
}

#[test]
fn defragmentation_continuation_joins_first_arg() {
    let first =
        response_frame(Flags::MORE_FRAGMENTS_FOLLOW, scheme_headers(ArgSchemeValue::Raw), some_args(&["e", "he"]));
    let continuation = CallContinue::new(
        Flags::NONE,
        CallArgs::new(ChecksumType::NoChecksum, None, vec![Some(b"ad".to_vec()), None]),
    );
    let second = TFrameId::new(1, TFrame::new(Type::CallResponseContinue, continuation.encode_bytes().unwrap()));
    let mut defragmenter = ResponseDefragmenter::new();
    assert!(matches!(defragmenter.read_response(Some(first)).unwrap(), ReadProgress::Reading));
    match defragmenter.read_response(Some(second)).unwrap() {
        ReadProgress::Complete(_, message_args) => {
            assert_eq!(vec![b"e".to_vec(), b"head".to_vec(), Vec::new()], message_args.args);
        },
        _ => panic!("response not complete"),
    }
}

#[test]
fn defragmentation_unexpected_frame() {
    let first =
        response_frame(Flags::MORE_FRAGMENTS_FOLLOW, scheme_headers(ArgSchemeValue::Raw), some_args(&["e"]));
    let mut defragmenter = ResponseDefragmenter::new();
    defragmenter.read_response(Some(first)).unwrap();
    let ping = TFrameId::new(1, TFrame::new(Type::PingRequest, Vec::new()));
    let res = defragmenter.read_response(Some(ping));
    assert_eq!(TChannelError::Error("Unexpected frame: PingRequest".to_string()), res.err().unwrap());
}

#[test]
fn defragmentation_transport_error() {
    let first =
        response_frame(Flags::MORE_FRAGMENTS_FOLLOW, scheme_headers(ArgSchemeValue::Raw), some_args(&["e"]));
    let mut defragmenter = ResponseDefragmenter::new();
    defragmenter.read_response(Some(first)).unwrap();
    let error = TFrameId::new(1, TFrame::new(Type::Error, vec![1, 2]));
    match defragmenter.read_response(Some(error)) {
        Err(TChannelError::Error(message)) => {
            assert!(message.starts_with("Transport error: "));
            assert!(message.contains("TFrame"));
        },
        _ => panic!("expected a transport error"),
    }
}

#[test]
fn defragmentation_scheme_mismatch() {
    let frame_id = response_frame(Flags::NONE, scheme_headers(ArgSchemeValue::Json), some_args(&["e"]));
    let mut defragmenter = ResponseDefragmenter::for_message::<RawMessage>();
    let res = defragmenter.read_response(Some(frame_id));
    assert_eq!(
        TChannelError::CodecError(CodecError::Error("Expected raw got json".to_string())),
        res.err().unwrap()
    );
}

#[test]
fn defragmentation_missing_scheme() {
    let frame_id = response_frame(Flags::NONE, NameMap::new(), some_args(&["e"]));
    let mut defragmenter = ResponseDefragmenter::new();
    let res = defragmenter.read_response(Some(frame_id));
    assert_eq!(
        TChannelError::CodecError(CodecError::Error("Missing arg schema arg".to_string())),
        res.err().unwrap()
    );
}

#[test]
fn defragmentation_unsupported_checksum() {
    let call_args = CallArgs::new(ChecksumType::Crc32, Some(5), some_args(&["e"]));
    let tracing = Tracing::new(0, 0, 0, TraceFlags::NONE);
    let fields = CallResponseFields::new(ResponseCode::Success, tracing, scheme_headers(ArgSchemeValue::Raw));
    let response = CallResponse::new(Flags::NONE, fields, call_args);
    let frame_id = TFrameId::new(1, TFrame::new(Type::CallResponse, response.encode_bytes().unwrap()));
    let mut defragmenter = ResponseDefragmenter::new();
    match defragmenter.read_response(Some(frame_id)).unwrap() {
        ReadProgress::UnsupportedChecksum(t) => assert_eq!(ChecksumType::Crc32, t),
        _ => panic!("expected the checksum to be refused"),
    }
}

#[test]
fn defragmentation_args_defragmenter() {
    let mut d = ArgsDefragmenter::new();
    d.add(vec![Some(b"ab".to_vec())]);
    d.add(vec![Some(b"cd".to_vec()), Some(b"x".to_vec())]);
    d.add(vec![None, None]);
    assert_eq!(vec![b"abcd".to_vec(), b"x".to_vec(), Vec::new()], d.args());
    assert!(d.args().is_empty());
}

#[test]
fn defragmentation_scheme_checks() {
    let tracing = Tracing::new(0, 0, 0, TraceFlags::NONE);
    let fields = CallResponseFields::new(ResponseCode::Success, tracing, scheme_headers(ArgSchemeValue::Thrift));
    assert_eq!(ArgSchemeValue::Thrift, get_args_scheme(&fields).unwrap());
    assert_eq!(ArgSchemeValue::Thrift, ArgSchemeChecker::new(ArgSchemeValue::Thrift).check(&fields).unwrap());
    assert_eq!(
        CodecError::Error("Expected http got thrift".to_string()),
        ArgSchemeChecker::new(ArgSchemeValue::Http).check(&fields).err().unwrap()
    );
    let mut headers: Headers = NameMap::new();
    headers.insert("as".to_string(), "nonsense".to_string());
    let fields = CallResponseFields::new(ResponseCode::Success, tracing, headers);
    assert_eq!(CodecError::ParseError(ParseError::VariantNotFound), get_args_scheme(&fields).err().unwrap());
    assert_eq!(ArgSchemeValue::Raw, RawMessage::args_scheme());
}

#[test]
fn defragmentation_request_message() {
    let args = MessageArgs::new(ArgSchemeValue::Raw, vec![b"ep".to_vec(), b"hd".to_vec(), b"bd".to_vec()]);
    let frames = RequestFragmenter::new(SERVICE_NAME.to_string(), args).create_frames().unwrap();
    let mut defragmenter = RequestDefragmenter::for_message::<RawMessage>();
    let mut last = None;
    for frame in frames {
        last = Some(defragmenter.read_request(Some(TFrameId::new(2, frame))).unwrap());
    }
    match last.unwrap() {
        ReadProgress::Complete(_, message_args) => {
            let message: RawMessage = tchannel_rs::defragmentation::request_message(message_args).unwrap();
            assert_eq!("ep", message.endpoint());
            assert_eq!("hd", message.header());
        },
        _ => panic!("request not complete"),
    }
    let mut defragmenter = RequestDefragmenter::new();
    assert_eq!(
        TChannelError::Error("Received no response".to_string()),
        defragmenter.read_request(None).err().unwrap()
    );
}

/// Splits a request into frames and reads it back.
fn request_roundtrip(args: Vec<Vec<u8>>) -> Vec<Vec<u8>> {
    let message = MessageArgs::new(ArgSchemeValue::Raw, args);
    let frames = RequestFragmenter::new(SERVICE_NAME.to_string(), message).create_frames().unwrap();
    let mut defragmenter = RequestDefragmenter::new();
    let mut last = None;
    for frame in frames {
        last = Some(defragmenter.read_request(Some(TFrameId::new(3, frame))).unwrap());
    }
    match last.unwrap() {
        ReadProgress::Complete(_, message_args) => message_args.args,
        _ => panic!("request not complete"),
    }
}

#[test]
fn defragmentation_roundtrip_at_frame_ends() {
    // first arguments around the room of the first frame: some fill it
    // exactly, some leave no room for the length of the next argument
    let room = 65_450usize;
    for len in room..room + 80 {
        for second in [Vec::new(), b"x".to_vec()] {
            let args = vec![vec![b'a'; len], second.clone(), b"tail".to_vec()];
            assert_eq!(args, request_roundtrip(args.clone()), "first argument of {} bytes", len);
        }
    }
}

#[test]
fn defragmentation_roundtrip_empty_args() {
    let args = vec![Vec::new(), Vec::new(), Vec::new()];
    assert_eq!(args, request_roundtrip(args.clone()));
    let args = vec![vec![b'z'; 3 * u16::MAX as usize], Vec::new(), Vec::new()];
    assert_eq!(args, request_roundtrip(args.clone()));
}
