//! Requests and responses carried end to end in one process: the client's
//! frames are encoded to bytes and decoded by the server, handled by an echo
//! handler, and the response goes back the same way.
use serde_json::Value;
use tchannel_rs::channel::TChannel;
use tchannel_rs::connection::FramesDispatcher;
use tchannel_rs::defragmentation::{response_message, ReadProgress, RequestDefragmenter, ResponseDefragmenter};
use tchannel_rs::frames::{TFrame, TFrameId, TFrameIdCodec};
use tchannel_rs::handler::{HandlerResult, RequestHandler, RequestHandlerAdapter};
use tchannel_rs::messages::{JsonMessage, MessageWithArgs, RawMessage};
use tchannel_rs::server::response_frames;
use tchannel_rs::subchannel::{handler_result, SubChannel};

#[derive(Debug)]
struct EchoHandler {}

impl RequestHandler for EchoHandler {
    type REQ = RawMessage;
    type RES = RawMessage;
    fn handle(&mut self, request: RawMessage) -> HandlerResult<RawMessage> {
        Ok(request)
    }
}

#[derive(Debug)]
struct JsonEchoHandler {}

impl RequestHandler for JsonEchoHandler {
    type REQ = JsonMessage;
    type RES = JsonMessage;
    fn handle(&mut self, request: JsonMessage) -> HandlerResult<JsonMessage> {
        Ok(request)
    }
}

/// Sends frames through the frame codec, as bytes, and reads them back.
fn transport(frames: Vec<TFrameId>) -> Vec<TFrameId> {
    let mut codec = TFrameIdCodec {};
    let mut bytes = Vec::new();
    for frame in frames {
        codec.encode(frame, &mut bytes).unwrap();
    }
    let mut received = Vec::new();
    while let Some(frame) = codec.decode(&mut bytes).unwrap() {
        received.push(frame);
    }
    assert!(bytes.is_empty());
    received
}

/// Answers the frames of one request with the frames of its response.
fn serve<H: RequestHandler>(server: &mut TChannel<RequestHandlerAdapter<H>, ()>, frames: Vec<TFrameId>) -> Vec<TFrameId> {
    let id = *frames[0].id();
    let mut defragmenter = RequestDefragmenter::new();
    let mut request = None;
    for frame in frames {
        if let ReadProgress::Complete(fields, args) = defragmenter.read_request(Some(frame)).unwrap() {
            request = Some((fields, args));
        }
    }
    let (fields, args) = request.expect("request not complete");
    let service = fields.service().clone();
    let (code, response_args) = server.subchannel(&service).handle(args).unwrap();
    response_frames(id, &service, code, response_args).unwrap()
}

fn read_response<MSG: MessageWithArgs>(frames: Vec<TFrameId>) -> HandlerResult<MSG> {
    let mut defragmenter = ResponseDefragmenter::for_message::<MSG>();
    for frame in frames {
        if let ReadProgress::Complete(fields, args) = defragmenter.read_response(Some(frame)).unwrap() {
            return handler_result(response_message(fields, args));
        }
    }
    panic!("response not complete")
}

fn request_frames<MSG: MessageWithArgs>(service: &str, id: u32, request: MSG) -> Vec<TFrameId> {
    let client: SubChannel<()> = SubChannel::new(service.to_string());
    client.create_frames(request).unwrap().into_iter().map(|f: TFrame| TFrameId::new(id, f)).collect()
}

fn echo_server(service: &str, endpoint: &str) -> TChannel<RequestHandlerAdapter<EchoHandler>, ()> {
    let mut server = TChannel::new();
    server.subchannel(&service.to_string()).register(endpoint.to_string(), EchoHandler {}).unwrap();
    server
}

fn echo_test(service: &str, endpoint: &str, header: &str, body: &str) {
    let mut server = echo_server(service, endpoint);
    let req = RawMessage::new(endpoint.to_string(), header.to_string(), body.as_bytes().to_vec());
    let frames = transport(request_frames(service, 1, req.clone()));
    let response = transport(serve(&mut server, frames));
    let res: RawMessage = read_response(response).expect("Failed to make request");
    assert_eq!(req.endpoint(), res.endpoint(), "Endpoint fields should match");
    assert_eq!(req.header(), res.header(), "Header fields should match");
    assert_eq!(req.body(), res.body(), "Body fields should match");
}

fn from_v(v: &[u8]) -> &str {
    std::str::from_utf8(v).unwrap()
}

#[test]
fn single_frame_msg() {
    echo_test("service", "endpoint", "header", "body");
    echo_test("service", "endpoint", "header", "");
    echo_test("service", "endpoint", "", "body");
    echo_test("service", "endpoint", "", "");
    echo_test("service", "a", "b", "c");
    echo_test("service", "", "", "");
}

#[test]
fn multi_frame_msg() {
    let long_b = vec![b'b'; u16::MAX as usize * 10];
    echo_test("service", "from_v(&['a' as u8; u16::MAX as usize * 10])", "header", "body");
    echo_test("service", "endpoint", from_v(&long_b), "body");
    echo_test("service", "endpoint", "header", "from_v(&['c' as u8; u16::MAX as usize * 10])");
    echo_test(
        "service",
        "from_v(&['a' as u8; u16::MAX as usize * 10])",
        "from_v(&['b' as u8; u16::MAX as usize * 10])",
        "from_v(&['c' as u8; u16::MAX as usize * 10])",
    );
}

#[test]
fn parallel_messages() {
    let service = "service";
    let endpoint = "endpoint";
    let mut server = echo_server(service, endpoint);

    let small_msgs = (0..50).map(|i| {
        RawMessage::new(endpoint.to_string(), format!("header-{}", i), format!("body-{}", i).into_bytes())
    });
    let large_msgs = (0..5_u8).map(|i| {
        RawMessage::new(
            endpoint.to_string(),
            from_v(&[i; u16::MAX as usize * 20]).to_string(),
            from_v(&[i + 5_u8; u16::MAX as usize * 10]).as_bytes().to_vec(),
        )
    });
    let requests: Vec<RawMessage> = small_msgs.chain(large_msgs).collect();

    // the frames of all requests, interleaved on one connection
    let mut queues: Vec<Vec<TFrameId>> = requests
        .iter()
        .enumerate()
        .map(|(i, req)| request_frames(service, i as u32, req.clone()))
        .collect();
    let mut interleaved = Vec::new();
    while queues.iter().any(|q| !q.is_empty()) {
        for q in queues.iter_mut() {
            if !q.is_empty() {
                interleaved.push(q.remove(0));
            }
        }
    }

    // the server hands each frame to the pending message it belongs to
    let mut dispatcher: FramesDispatcher<usize> = FramesDispatcher::new(10);
    let mut pending: Vec<Vec<TFrameId>> = Vec::new();
    let mut answered = 0;
    for frame in transport(interleaved) {
        let id = *frame.id();
        let slot = match dispatcher.dispatch(id) {
            Some(slot) => *slot,
            None => {
                pending.push(Vec::new());
                dispatcher.dispatch_first(id, pending.len() - 1).unwrap();
                pending.len() - 1
            },
        };
        pending[slot].push(frame);
        let complete = {
            let mut defragmenter = RequestDefragmenter::new();
            pending[slot]
                .iter()
                .map(|f| defragmenter.read_request(Some(f.clone())).unwrap())
                .any(|p| matches!(p, ReadProgress::Complete(_, _)))
        };
        if complete {
            dispatcher.deregister(&id);
            let frames = std::mem::take(&mut pending[slot]);
            let response = transport(serve(&mut server, frames));
            let res: RawMessage = read_response(response).unwrap();
            let req = &requests[id as usize];
            assert_eq!(req.endpoint(), res.endpoint(), "Endpoints should match");
            assert_eq!(req.header(), res.header(), "Header fields should match");
            assert_eq!(req.body(), res.body(), "Body fields should match");
            answered += 1;
        }
    }
    assert_eq!(requests.len(), answered);
}

#[test]
fn test() {
    let service = "service";
    let method_name = "test_method".to_string();
    let mut server: TChannel<RequestHandlerAdapter<JsonEchoHandler>, ()> = TChannel::new();
    server.subchannel(&service.to_string()).register(method_name.clone(), JsonEchoHandler {}).unwrap();
    let headers = r#"
        {
            "header_1": "foo",
            "header_2": 2
        }"#;
    let headers: serde_json::Map<String, Value> = serde_json::from_str(headers).expect("Incorrect JSON");
    let body = r#"
        {
            "field_1": "foo",
            "field_2": 2,
            "field_3" : {
                "field_31": 1,
                "field_32": "two"
            }
        }"#;
    let body: serde_json::Map<String, Value> = serde_json::from_str(body).expect("Incorrect JSON");
    let req = JsonMessage::new(method_name, headers.clone(), body.clone());

    let frames = transport(request_frames(service, 3, req));
    let response = transport(serve(&mut server, frames));
    let res: JsonMessage = read_response(response).expect("Request failed");

    assert_eq!("test_method", res.method_name(), "Method_name fields should match");
    assert_eq!(&headers, res.headers(), "Headers fields should match");
    assert_eq!(&body, res.body(), "Body fields should match");
}
