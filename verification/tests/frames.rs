use tchannel_rs::errors::{CodecError, ConnectionError, ParseError, PoolError, TChannelError};
use tchannel_rs::frames::headers::{ArgSchemeValue, InitHeaderKey, RetryFlagValue, TransportHeaderKey};
use tchannel_rs::frames::payloads::{
    decode_string, encode_string, CallArgs, Cancel, ChecksumType, Claim, ErrorCode, ErrorMsg, Flags, Init,
    ResponseCode, TraceFlags, Tracing,
};
use tchannel_rs::frames::{TFrame, TFrameId, TFrameIdCodec, Type};
use tchannel_rs::name_map::NameMap;
use tchannel_rs::text::{bytes_debug_text, decimal_text};

#[test]
fn codec_roundtrip() {
    let mut codec = TFrameIdCodec {};
    let mut bytes = Vec::new();
    let frame = TFrameId::new(0x01020304, TFrame::new(Type::CallRequest, vec![9, 8, 7]));
    codec.encode(frame.clone(), &mut bytes).unwrap();
    assert_eq!(
        vec![0, 19, 0x03, 0, 1, 2, 3, 4, 0, 0, 0, 0, 0, 0, 0, 0, 9, 8, 7],
        bytes
    );
    bytes.extend_from_slice(&[0, 5]);
    let decoded = codec.decode(&mut bytes).unwrap().unwrap();
    assert_eq!(frame, decoded);
    assert_eq!(vec![0, 5], bytes);
}

#[test]
fn codec_buffering() {
    let mut codec = TFrameIdCodec {};
    let mut bytes = vec![0];
    assert_eq!(Ok(None), codec.decode(&mut bytes));
    let mut bytes = vec![0, 20, 1, 0];
    assert_eq!(Ok(None), codec.decode(&mut bytes));
    assert_eq!(vec![0, 20, 1, 0], bytes);
}

#[test]
fn codec_errors() {
    let mut codec = TFrameIdCodec {};
    let mut bytes = vec![0, 3, 1, 0];
    assert_eq!(Err(CodecError::Error("Frame too short".to_string())), codec.decode(&mut bytes));
    assert_eq!(vec![1, 0], bytes);
    let mut bytes = vec![0, 16, 0x42, 0, 0, 0, 0, 1, 0, 0, 0, 0, 0, 0, 0, 0];
    assert_eq!(Err(CodecError::Error("Unknown frame type 66".to_string())), codec.decode(&mut bytes));
}

#[test]
fn frame_types() {
    assert_eq!(0xff, Type::Error.to_u8());
    assert_eq!(Some(Type::CallRequestContinue), Type::from_u8(0x13));
    assert_eq!(None, Type::from_u8(0x05));
    assert_eq!("PingResponse", Type::PingResponse.name());
}

#[test]
fn init_roundtrip() {
    let mut headers = NameMap::new();
    headers.insert(InitHeaderKey::TChannelLanguage.to_string(), "rust".to_string());
    headers.insert(InitHeaderKey::HostPort.to_string(), "0.0.0.0:0".to_string());
    let init = Init::new(2, headers);
    let mut bytes = init.encode_bytes().unwrap();
    let decoded = Init::decode(&mut bytes).unwrap();
    assert_eq!(init, decoded);
    assert!(bytes.is_empty());
    assert_eq!(2, Init::default().version);
}

#[test]
fn error_msg_roundtrip() {
    let error = ErrorMsg::new(ErrorCode::Declined, Tracing::new(1, 2, 3, TraceFlags::ENABLED), "no".to_string());
    let mut bytes = error.encode_bytes().unwrap();
    assert_eq!(1 + 25 + 2 + 2, bytes.len());
    assert_eq!(ErrorCode::Declined.to_u8(), bytes[0]);
    assert_eq!(error, ErrorMsg::decode(&mut bytes).unwrap());
}

#[test]
fn cancel_and_claim_roundtrip() {
    let tracing = Tracing::new(5, 6, 7, TraceFlags::NONE);
    let cancel = Cancel::new(100, tracing, "timeout".to_string());
    let mut bytes = Vec::new();
    cancel.encode(&mut bytes).unwrap();
    let (decoded, end) = Cancel::decode_at(&bytes, 0).unwrap();
    assert_eq!(bytes.len(), end);
    assert_eq!(cancel, decoded);
    let claim = Claim::new(50, tracing);
    let mut bytes = Vec::new();
    claim.encode(&mut bytes).unwrap();
    assert_eq!((claim, 29), Claim::decode_at(&bytes, 0).unwrap());
}

#[test]
fn unknown_flag_is_reported() {
    let bytes = vec![7u8];
    let result = Tracing::decode_at(&[0u8; 24].iter().chain(bytes.iter()).copied().collect::<Vec<u8>>(), 0);
    assert_eq!(Err(CodecError::Error("Unknown flag: 7".to_string())), result);
}

#[test]
fn strings_roundtrip() {
    let mut bytes = Vec::new();
    encode_string(&"héllo".to_string(), &mut bytes, true).unwrap();
    assert_eq!(7, bytes.len());
    assert_eq!(6, bytes[0]);
    assert_eq!(("héllo".to_string(), 7), decode_string(&bytes, 0, true).unwrap());
    let too_long = "x".repeat(256);
    assert!(encode_string(&too_long, &mut Vec::new(), true).is_err());
    assert!(decode_string(&[5, b'a'], 0, true).is_err());
}

#[test]
fn call_args_encode() {
    let args = CallArgs::new(ChecksumType::NoChecksum, None, vec![Some(b"ab".to_vec()), None]);
    let mut bytes = Vec::new();
    args.encode(&mut bytes).unwrap();
    assert_eq!(vec![0, 0, 2, b'a', b'b', 0, 0], bytes);
    let (decoded, end) = CallArgs::decode_at(&bytes, 0).unwrap();
    assert_eq!(7, end);
    assert_eq!(args, decoded);
    let none = CallArgs::new(ChecksumType::NoChecksum, None, Vec::new());
    assert_eq!(
        Err(CodecError::Error("Wrong number of frame args 0".to_string())),
        none.encode(&mut Vec::new())
    );
}

#[test]
fn codes() {
    assert_eq!(1, ResponseCode::Error.to_u8());
    assert_eq!(Some(ResponseCode::Success), ResponseCode::from_u8(0));
    assert_eq!(Some(ErrorCode::FatalProtocolError), ErrorCode::from_u8(0xff));
    assert_eq!(Some(ChecksumType::Crc32C), ChecksumType::from_u8(3));
    assert_eq!(Some(Flags::MORE_FRAGMENTS_FOLLOW), Flags::from_bits(1));
    assert!(Flags::MORE_FRAGMENTS_FOLLOW.contains(Flags::MORE_FRAGMENTS_FOLLOW));
    assert!(!Flags::NONE.contains(Flags::MORE_FRAGMENTS_FOLLOW));
}

#[test]
fn header_names() {
    assert_eq!("as", TransportHeaderKey::ArgScheme.to_string());
    assert_eq!("cn", TransportHeaderKey::CallerName.to_string());
    assert_eq!("tchannel_language", InitHeaderKey::TChannelLanguage.to_string());
    assert_eq!(Ok(InitHeaderKey::HostPort), InitHeaderKey::from_str(&"host_port".to_string()));
    assert_eq!("sthrift", ArgSchemeValue::StreamingThrift.to_string());
    assert_eq!(Ok(ArgSchemeValue::Json), ArgSchemeValue::from_str(&"json".to_string()));
    assert_eq!(Err(ParseError::VariantNotFound), ArgSchemeValue::from_str(&"yaml".to_string()));
    assert_eq!("custom", ArgSchemeValue::Custom("custom".to_string()).to_string());
    let _ = RetryFlagValue::NoRetry;
}

#[test]
fn error_texts() {
    assert_eq!("TChannel error: x", TChannelError::Error("x".to_string()).to_string());
    assert_eq!("Codec error: y", CodecError::Error("y".to_string()).to_string());
    assert_eq!("Matching variant not found", CodecError::ParseError(ParseError::VariantNotFound).to_string());
    assert_eq!(
        "Unexpected response: CallRequest",
        ConnectionError::UnexpectedResponseError(Type::CallRequest).to_string()
    );
    assert_eq!("Timed out in bb8", PoolError::TimedOut.to_string());
    let error = ErrorMsg::new(ErrorCode::Busy, Tracing::new(0, 0, 0, TraceFlags::NONE), "m".to_string());
    let text = ConnectionError::MessageError(error).to_string();
    assert_eq!(
        "Error message: ErrorMsg { code: Busy, tracing: Tracing { span_id: 0, parent_id: 0, trace_id: 0, \
         trace_flags: NONE }, message: \"m\" }",
        text
    );
}

#[test]
fn byte_string_rendering() {
    let bytes = b"a\"\\\n\r\t\x00\x7f\xff ~".to_vec();
    assert_eq!("b\"a\\\"\\\\\\n\\r\\t\\0\\x7f\\xff ~\"", bytes_debug_text(&bytes));
    let all: Vec<u8> = (0..=255u8).collect();
    assert_eq!(format!("{:?}", bytes::Bytes::from(all.clone())), bytes_debug_text(&all));
}

#[test]
fn decimal_rendering() {
    for n in [0u64, 7, 10, 99, 100, 65535, 1_000_000_007, u64::MAX] {
        assert_eq!(n.to_string(), decimal_text(n));
    }
}
