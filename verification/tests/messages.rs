use serde_json::Value;
use tchannel_rs::errors::CodecError;
use tchannel_rs::frames::headers::ArgSchemeValue;
use tchannel_rs::messages::{JsonMessage, MessageArgs, MessageWithArgs, RawMessage, ThriftMessage};

#[test]
fn raw_message_to_args_and_back() {
    let message = RawMessage::new("endpoint".to_string(), "header".to_string(), b"body".to_vec());
    let args = message.try_into_args().unwrap();
    assert_eq!(ArgSchemeValue::Raw, args.arg_scheme);
    assert_eq!(vec![b"endpoint".to_vec(), b"header".to_vec(), b"body".to_vec()], args.args);
    let back = RawMessage::try_from_args(args).unwrap();
    assert_eq!("endpoint", back.endpoint());
    assert_eq!("header", back.header());
    assert_eq!(b"body".to_vec(), *back.body());
}

#[test]
fn raw_message_missing_args() {
    let args = MessageArgs::new(ArgSchemeValue::Raw, vec![b"e".to_vec()]);
    let message = RawMessage::try_from_args(args).unwrap();
    assert_eq!("e", message.endpoint());
    assert_eq!("", message.header());
    assert!(message.body().is_empty());
}

#[test]
fn raw_message_wrong_scheme() {
    let args = MessageArgs::new(ArgSchemeValue::Thrift, Vec::new());
    assert_eq!(
        CodecError::Error("Wrong arg scheme Thrift".to_string()),
        RawMessage::try_from_args(args).err().unwrap()
    );
    let args = MessageArgs::new(ArgSchemeValue::Custom("x".to_string()), Vec::new());
    assert_eq!(
        CodecError::Error("Wrong arg scheme Custom(\"x\")".to_string()),
        RawMessage::try_from_args(args).err().unwrap()
    );
}

#[test]
fn raw_message_invalid_text() {
    let args = MessageArgs::new(ArgSchemeValue::Raw, vec![b"e".to_vec(), vec![0xc3]]);
    assert!(matches!(RawMessage::try_from_args(args), Err(CodecError::StringDecodingError(_))));
}

#[test]
fn raw_message_text() {
    let message = RawMessage::new("e".to_string(), "h".to_string(), vec![1, 2]);
    assert_eq!("Endpoint: 'e', Header: 'h', Body: 'b\"\\x01\\x02\"'", message.to_string());
}

#[test]
fn json_message_to_args_and_back() {
    let mut headers = serde_json::Map::new();
    headers.insert("header_1".to_string(), Value::String("foo".to_string()));
    headers.insert("header_2".to_string(), Value::from(2));
    let mut body = serde_json::Map::new();
    body.insert("key".to_string(), Value::Bool(true));
    let message = JsonMessage::new("test_method".to_string(), headers.clone(), body.clone());
    let args = message.try_into_args().unwrap();
    assert_eq!(ArgSchemeValue::Json, args.arg_scheme);
    assert_eq!(b"test_method".to_vec(), args.args[0]);
    assert_eq!(b"{\"key\":true}".to_vec(), args.args[2]);
    assert_eq!(serde_json::to_string(&headers).unwrap().into_bytes(), args.args[1]);
    let back = JsonMessage::try_from_args(args).unwrap();
    assert_eq!("test_method", back.method_name());
    assert_eq!(&headers, back.headers());
    assert_eq!(&body, back.body());
}

#[test]
fn json_message_incorrect_json() {
    let args = MessageArgs::new(ArgSchemeValue::Json, vec![b"m".to_vec(), b"{".to_vec(), b"{}".to_vec()]);
    assert!(matches!(JsonMessage::try_from_args(args), Err(CodecError::Error(_))));
    let args = MessageArgs::new(ArgSchemeValue::Json, vec![b"m".to_vec()]);
    assert!(JsonMessage::try_from_args(args).is_err());
    let args = MessageArgs::new(ArgSchemeValue::Raw, vec![b"m".to_vec()]);
    assert_eq!(
        CodecError::Error("Wrong arg scheme Raw".to_string()),
        JsonMessage::try_from_args(args).err().unwrap()
    );
}

#[test]
fn thrift_scheme() {
    assert_eq!(ArgSchemeValue::Thrift, ThriftMessage::args_scheme());
    assert_eq!(ArgSchemeValue::Json, JsonMessage::args_scheme());
}

#[test]
fn json_message_text() {
    let mut headers = serde_json::Map::new();
    headers.insert("h".to_string(), Value::from(1));
    let body = serde_json::Map::new();
    let message = JsonMessage::new("m".to_string(), headers.clone(), body.clone());
    assert_eq!(format!("Method name: 'm', Headers: '{:?}', Body: '{:?}'", headers, body), message.to_string());
}
