use tchannel_rs::channel::TChannel;
use tchannel_rs::errors::{CodecError, HandlerError, TChannelError};
use tchannel_rs::frames::headers::ArgSchemeValue;
use tchannel_rs::frames::payloads::ResponseCode;
use tchannel_rs::handler::{convert, HandlerResult, MessageArgsHandler, RequestHandler, RequestHandlerAdapter};
use tchannel_rs::messages::{MessageArgs, MessageWithArgs, RawMessage};
use tchannel_rs::subchannel::{handler_result, SubChannel};

#[derive(Debug)]
struct Echo {
    calls: usize,
}

impl RequestHandler for Echo {
    type REQ = RawMessage;
    type RES = RawMessage;

    fn handle(&mut self, request: RawMessage) -> HandlerResult<RawMessage> {
        self.calls += 1;
        if request.header() == "fail" {
            return Err(HandlerError::MessageError(RawMessage::new(
                request.endpoint().clone(),
                "failed".to_string(),
                Vec::new(),
            )));
        }
        Ok(RawMessage::new(request.endpoint().clone(), request.header().clone(), b"res body".to_vec()))
    }
}

fn raw_args(endpoint: &str, header: &str, body: &str) -> MessageArgs {
    MessageArgs::new(
        ArgSchemeValue::Raw,
        vec![endpoint.as_bytes().to_vec(), header.as_bytes().to_vec(), body.as_bytes().to_vec()],
    )
}

#[test]
fn subchannel_register_twice() {
    let mut subchannel: SubChannel<u32> = SubChannel::new("service".to_string());
    assert_eq!(Ok(()), subchannel.register_handler("endpoint".to_string(), 1));
    assert_eq!(
        Err(TChannelError::Error("Handler already registered for 'endpoint'".to_string())),
        subchannel.register_handler("endpoint".to_string(), 2)
    );
    assert_eq!(Ok(&1), subchannel.get_handler(&"endpoint".to_string()));
    assert_eq!("service", subchannel.service_name());
}

#[test]
fn subchannel_unregister() {
    let mut subchannel: SubChannel<u32> = SubChannel::new("service".to_string());
    subchannel.register_handler("a".to_string(), 1).unwrap();
    subchannel.register_handler("b".to_string(), 2).unwrap();
    assert_eq!(Ok(()), subchannel.unregister(&"a".to_string()));
    assert_eq!(
        Err(TChannelError::Error("Handler 'a' is missing.".to_string())),
        subchannel.unregister(&"a".to_string())
    );
    assert_eq!(
        Err(TChannelError::Error("No handler with name 'a'.".to_string())),
        subchannel.get_handler(&"a".to_string())
    );
    assert_eq!(Ok(&2), subchannel.get_handler(&"b".to_string()));
}

#[test]
fn subchannel_read_endpoint_name() {
    let name = SubChannel::<u32>::read_endpoint_name(&raw_args("endpoint", "h", "b"));
    assert_eq!(Ok("endpoint".to_string()), name);
    let empty = MessageArgs::new(ArgSchemeValue::Raw, Vec::new());
    assert_eq!(
        Err(CodecError::Error("Missing arg1/endpoint name".to_string())),
        SubChannel::<u32>::read_endpoint_name(&empty)
    );
    let invalid = MessageArgs::new(ArgSchemeValue::Raw, vec![vec![0xff, 0xfe]]);
    assert!(matches!(SubChannel::<u32>::read_endpoint_name(&invalid), Err(CodecError::StringDecodingError(_))));
}

#[test]
fn subchannel_route() {
    let mut subchannel: SubChannel<u32> = SubChannel::new("service".to_string());
    subchannel.register_handler("endpoint".to_string(), 3).unwrap();
    assert_eq!(Ok(&3), subchannel.route(&raw_args("endpoint", "h", "b")));
    assert_eq!(
        Err(TChannelError::Error("No handler with name 'other'.".to_string())),
        subchannel.route(&raw_args("other", "h", "b"))
    );
}

#[test]
fn subchannel_handle() {
    let mut subchannel: SubChannel<RequestHandlerAdapter<Echo>> = SubChannel::new("service".to_string());
    subchannel.register("endpoint".to_string(), Echo { calls: 0 }).unwrap();
    let (code, args) = subchannel.handle(raw_args("endpoint", "header", "req body")).unwrap();
    assert_eq!(ResponseCode::Success, code);
    let response = RawMessage::try_from_args(args).unwrap();
    assert_eq!("header", response.header());
    assert_eq!(b"res body".to_vec(), *response.body());

    let (code, args) = subchannel.handle(raw_args("endpoint", "fail", "")).unwrap();
    assert_eq!(ResponseCode::Error, code);
    assert_eq!("failed", RawMessage::try_from_args(args).unwrap().header());

    assert_eq!(
        Err(TChannelError::Error("No handler with name 'nothing'.".to_string())),
        subchannel.handle(raw_args("nothing", "h", "b"))
    );
    let wrong_scheme = MessageArgs::new(ArgSchemeValue::Json, vec![b"endpoint".to_vec()]);
    assert_eq!(
        Err(TChannelError::CodecError(CodecError::Error("Wrong arg scheme Json".to_string()))),
        subchannel.handle(wrong_scheme)
    );
}

#[test]
fn subchannel_adapter_handles_args() {
    let mut adapter = RequestHandlerAdapter::new(Echo { calls: 0 });
    let (code, _) = MessageArgsHandler::handle(&mut adapter, raw_args("e", "h", "b")).unwrap();
    assert_eq!(ResponseCode::Success, code);
}

#[test]
fn subchannel_convert() {
    let ok: HandlerResult<RawMessage> = Ok(RawMessage::new("e".to_string(), "h".to_string(), Vec::new()));
    assert!(matches!(convert(ok), Ok((ResponseCode::Success, _))));
    let message: HandlerResult<RawMessage> =
        Err(HandlerError::MessageError(RawMessage::new("e".to_string(), "h".to_string(), Vec::new())));
    assert!(matches!(convert(message), Ok((ResponseCode::Error, _))));
    let general: HandlerResult<RawMessage> = Err(HandlerError::Error("bad".to_string()));
    assert_eq!(Err(TChannelError::Error("bad".to_string())), convert(general));
    let internal: HandlerResult<RawMessage> = Err(HandlerError::InternalError(TChannelError::Error("x".to_string())));
    assert_eq!(Err(TChannelError::Error("x".to_string())), convert(internal));
}

#[test]
fn subchannel_handler_result() {
    assert_eq!(Ok(5), handler_result::<u8>(Ok((ResponseCode::Success, 5))));
    assert_eq!(Err(HandlerError::MessageError(6)), handler_result::<u8>(Ok((ResponseCode::Error, 6))));
    assert_eq!(
        Err(HandlerError::InternalError(TChannelError::Error("lost".to_string()))),
        handler_result::<u8>(Err(TChannelError::Error("lost".to_string())))
    );
}

#[test]
fn channel_server_start_and_shutdown() {
    let mut channel: TChannel<u32, u8> = TChannel::new();
    assert!(!channel.server_started());
    assert_eq!(Ok(()), channel.start_server(|| 1));
    assert!(channel.server_started());
    assert_eq!(Err(TChannelError::Error("Server already started".to_string())), channel.start_server(|| 2));
    let mut stopped = Vec::new();
    assert_eq!(Ok(()), channel.shutdown_server(|handle| stopped.push(handle)));
    assert_eq!(vec![1], stopped);
    assert!(!channel.server_started());
    assert_eq!(Ok(()), channel.shutdown_server(|handle| stopped.push(handle)));
    assert_eq!(vec![1], stopped);
}

#[test]
fn channel_subchannels() {
    let mut channel: TChannel<u32, u8> = TChannel::new();
    assert_eq!(
        Err(TChannelError::Error("Failed to find subchannel 'service'".to_string())),
        channel.get_subchannel(&"service".to_string()).map(|s| s.service_name().clone())
    );
    channel.subchannel(&"service".to_string()).register_handler("endpoint".to_string(), 7).unwrap();
    let again = channel.subchannel(&"service".to_string());
    assert_eq!(Ok(&7), again.get_handler(&"endpoint".to_string()));
    let found = channel.get_subchannel(&"service".to_string()).unwrap();
    assert_eq!("service", found.service_name());
}
