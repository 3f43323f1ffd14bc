use tchannel_rs::defragmentation::{response_message, ReadProgress, ResponseDefragmenter};
use tchannel_rs::errors::HandlerError;
use tchannel_rs::fragmentation::ResponseFragmenter;
use tchannel_rs::frames::headers::{ArgSchemeValue, InitHeaderKey};
use tchannel_rs::frames::payloads::ResponseCode;
use tchannel_rs::frames::{TFrameId, Type};
use tchannel_rs::handler::{convert, HandlerResult};
use tchannel_rs::messages::{MessageWithArgs, RawMessage};
use tchannel_rs::name_map::NameMap;
use tchannel_rs::subchannel::{handler_result, SubChannel};

/// Sends a handler's answer through response frames and reads it back as a caller would.
fn answer_through_frames(answer: HandlerResult<RawMessage>) -> HandlerResult<RawMessage> {
    let (code, args) = convert(answer).unwrap();
    let frames = ResponseFragmenter::new(&"service".to_string(), code, args).create_frames().unwrap();
    let mut defragmenter = ResponseDefragmenter::for_message::<RawMessage>();
    let mut last = None;
    for frame in frames {
        last = Some(defragmenter.read_response(Some(TFrameId::new(5, frame))).unwrap());
    }
    match last.unwrap() {
        ReadProgress::Complete(fields, message_args) => handler_result(response_message(fields, message_args)),
        _ => panic!("response not complete"),
    }
}

#[test]
fn law_message_answer_arrives_as_message() {
    let answer = Ok(RawMessage::new("e".to_string(), "h".to_string(), b"body".to_vec()));
    let received = answer_through_frames(answer).unwrap();
    assert_eq!("e", received.endpoint());
    assert_eq!("h", received.header());
    assert_eq!(b"body".to_vec(), *received.body());
}

#[test]
fn law_error_message_arrives_as_error_message() {
    let answer = Err(HandlerError::MessageError(RawMessage::new("e".to_string(), "bad".to_string(), Vec::new())));
    match answer_through_frames(answer) {
        Err(HandlerError::MessageError(message)) => assert_eq!("bad", message.header()),
        other => panic!("unexpected {:?}", other),
    }
}

#[test]
fn law_long_response_read_back() {
    let body = vec![b'z'; 3 * u16::MAX as usize];
    let header = "h".repeat(70_000);
    let answer = Ok(RawMessage::new("endpoint".to_string(), header.clone(), body.clone()));
    let received = answer_through_frames(answer).unwrap();
    assert_eq!(header, *received.header());
    assert_eq!(body, *received.body());
}

#[test]
fn law_response_frames_are_response_frames() {
    let message = RawMessage::new("e".to_string(), "h".to_string(), vec![1; 100_000]);
    let args = message.try_into_args().unwrap();
    let frames = ResponseFragmenter::new(&"s".to_string(), ResponseCode::Success, args).create_frames().unwrap();
    assert_eq!(Type::CallResponse, *frames[0].frame_type());
    for frame in &frames[1..] {
        assert_eq!(Type::CallResponseContinue, *frame.frame_type());
    }
    for frame in &frames {
        assert!(frame.size() + 16 <= 65534);
    }
}

#[test]
fn law_registered_handler_found_and_unregistered_gone() {
    let mut subchannel: SubChannel<&str> = SubChannel::new("service".to_string());
    subchannel.register_handler("a".to_string(), "first").unwrap();
    assert_eq!(Ok(&"first"), subchannel.get_handler(&"a".to_string()));
    subchannel.unregister(&"a".to_string()).unwrap();
    assert!(subchannel.get_handler(&"a".to_string()).is_err());
    subchannel.register_handler("a".to_string(), "second").unwrap();
    assert_eq!(Ok(&"second"), subchannel.get_handler(&"a".to_string()));
}

#[test]
fn law_name_map_insert_remove() {
    let mut map: NameMap<u8> = NameMap::new();
    map.insert("x".to_string(), 1);
    map.insert("y".to_string(), 2);
    map.insert("x".to_string(), 3);
    assert_eq!(2, map.len());
    assert_eq!(Some(&3), map.get(&"x".to_string()));
    assert_eq!(Some(3), map.remove(&"x".to_string()));
    assert_eq!(None, map.get(&"x".to_string()));
    assert_eq!(Some(&2), map.get(&"y".to_string()));
    let (key, value) = map.entry_at(0);
    assert_eq!(("y", 2), (key.as_str(), *value));
    if let Some(v) = map.get_mut(&"y".to_string()) {
        *v = 9;
    }
    assert_eq!(Some(&9), map.get(&"y".to_string()));
    assert!(!map.contains_key(&"x".to_string()));
}

#[test]
fn law_scheme_names_read_back() {
    for scheme in [
        ArgSchemeValue::Raw,
        ArgSchemeValue::Json,
        ArgSchemeValue::Http,
        ArgSchemeValue::Thrift,
        ArgSchemeValue::StreamingThrift,
    ] {
        assert_eq!(Ok(scheme.clone()), ArgSchemeValue::from_str(&scheme.to_string()));
    }
    for key in [
        InitHeaderKey::HostPort,
        InitHeaderKey::ProcessName,
        InitHeaderKey::TChannelLanguage,
        InitHeaderKey::TChannelLanguageVersion,
        InitHeaderKey::TChannelVersion,
    ] {
        assert_eq!(Ok(key), InitHeaderKey::from_str(&key.to_string()));
    }
}
