use tchannel_rs::fragmentation::{
    calculate_payload_limit, checksum_len, create_tracing, ArgsFragmenter, RequestFragmenter, ResponseFragmenter,
};
use tchannel_rs::frames::headers::{ArgSchemeValue, TransportHeaderKey};
use tchannel_rs::frames::payloads::{
    CallContinue, CallRequest, CallResponse, ChecksumType, Flags, ResponseCode, TraceFlags, Tracing,
};
use tchannel_rs::frames::{TFrame, Type};
use tchannel_rs::messages::MessageArgs;

const SERVICE_NAME: &str = "test_service";

fn json_args(args: Vec<Vec<u8>>) -> MessageArgs {
    MessageArgs::new(ArgSchemeValue::Json, args)
}

#[test]
fn fragmentation_single_frame() {
    // GIVEN
    let args_bytes = vec![b"a".to_vec(), b"b".to_vec(), b"c".to_vec()];

    // WHEN
    let args = json_args(args_bytes);
    let fragmenter = RequestFragmenter::new(SERVICE_NAME.to_string(), args);
    let frames_res = fragmenter.create_frames();

    // THEN
    assert!(frames_res.is_ok());
    let mut frames: Vec<TFrame> = frames_res.unwrap();
    assert_eq!(frames.len(), 1);
    let mut frame = frames.pop().unwrap();
    assert_eq!(Type::CallRequest, *frame.frame_type());
    let call_req_res = CallRequest::decode(frame.payload_mut());
    assert!(call_req_res.is_ok());
    let mut call_req = call_req_res.unwrap();
    assert_eq!(Flags::NONE, *call_req.flags());
    assert_eq!(SERVICE_NAME.to_string(), *call_req.fields().service());
    let headers = call_req.fields().headers();
    assert_eq!(
        ArgSchemeValue::Json.to_string(),
        *headers.get(&TransportHeaderKey::ArgScheme.to_string()).unwrap()
    );
    assert_eq!(ChecksumType::NoChecksum, *call_req.args().checksum_type());
    let args = call_req.args_mut().args_mut();
    assert_eq!(b"a".to_vec(), *args.get(0).unwrap().as_ref().unwrap());
    assert_eq!(b"b".to_vec(), *args.get(1).unwrap().as_ref().unwrap());
    assert_eq!(b"c".to_vec(), *args.get(2).unwrap().as_ref().unwrap());
}

#[test]
fn fragmentation_multiple_frames() {
    // GIVEN
    // arg1 will take whole 1st frame and part of 2nd frame
    let arg1 = vec![b'a'; u16::MAX as usize];
    // arg2 will take part of 2nd frame
    let arg2 = vec![b'b'; (u16::MAX / 2) as usize];
    // arg3 will take remaining space of 2nd frame and part of 3rd frame
    let arg3 = vec![b'c'; u16::MAX as usize];

    // WHEN
    let args = json_args(vec![arg1.clone(), arg2.clone(), arg3.clone()]);
    let fragmenter = RequestFragmenter::new(SERVICE_NAME.to_string(), args);
    let frames_res = fragmenter.create_frames();

    // THEN
    assert!(frames_res.is_ok());
    let mut frames: Vec<TFrame> = frames_res.unwrap();
    assert_eq!(frames.len(), 3);
    frames.reverse();

    // frame 1
    let mut frame = frames.pop().unwrap();
    assert_eq!(Type::CallRequest, *frame.frame_type());
    let mut call_req = CallRequest::decode(frame.payload_mut()).unwrap();
    assert_eq!(Flags::MORE_FRAGMENTS_FOLLOW, *call_req.flags());
    let args = call_req.args_mut().args_mut();
    assert_eq!(1, args.len());
    let arg1_1 = args.remove(0).unwrap();

    // frame 2
    let mut frame = frames.pop().unwrap();
    assert_eq!(Type::CallRequestContinue, *frame.frame_type());
    let mut call_req = CallContinue::decode(frame.payload_mut()).unwrap();
    assert_eq!(Flags::MORE_FRAGMENTS_FOLLOW, *call_req.flags());
    let args = call_req.args_mut().args_mut();
    assert_eq!(3, args.len());
    let arg1_2 = args.remove(0).unwrap();
    let arg2_1 = args.remove(0).unwrap();
    let arg3_1 = args.remove(0).unwrap();

    // frame 3
    let mut frame = frames.pop().unwrap();
    assert_eq!(Type::CallRequestContinue, *frame.frame_type());
    let mut call_req = CallContinue::decode(frame.payload_mut()).unwrap();
    assert_eq!(Flags::NONE, *call_req.flags());
    let args = call_req.args_mut().args_mut();
    assert_eq!(1, args.len());
    let arg3_2 = args.remove(0).unwrap();

    // verify args
    assert_eq!(arg1, [arg1_1, arg1_2].concat());
    assert_eq!(arg2, arg2_1);
    assert_eq!(arg3, [arg3_1, arg3_2].concat());
}

#[test]
fn fragmentation_frame_sizes() {
    let arg1 = vec![b'a'; u16::MAX as usize];
    let args = json_args(vec![arg1]);
    let frames = RequestFragmenter::new(SERVICE_NAME.to_string(), args).create_frames().unwrap();
    assert_eq!(frames.len(), 2);
    // every frame fits the largest frame size, header included
    for frame in &frames {
        assert!(frame.size() + 16 <= 65534);
    }
    // the first frame is filled up to the limit
    assert_eq!(frames[0].size() + 16, 65534);
}

#[test]
fn fragmentation_empty_args() {
    let args = json_args(vec![Vec::new(), b"x".to_vec(), Vec::new()]);
    let mut frames = RequestFragmenter::new(SERVICE_NAME.to_string(), args).create_frames().unwrap();
    assert_eq!(frames.len(), 1);
    let mut call_req = CallRequest::decode(frames[0].payload_mut()).unwrap();
    let args = call_req.args_mut().args_mut();
    assert_eq!(3, args.len());
    assert_eq!(None, args[0]);
    assert_eq!(Some(b"x".to_vec()), args[1]);
    assert_eq!(None, args[2]);
}

#[test]
fn fragmentation_too_many_args_in_a_frame() {
    let args = json_args(vec![b"1".to_vec(), b"2".to_vec(), b"3".to_vec(), b"4".to_vec()]);
    let frames = RequestFragmenter::new(SERVICE_NAME.to_string(), args).create_frames();
    assert!(frames.is_err());
}

#[test]
fn fragmentation_response_frames() {
    let args = MessageArgs::new(ArgSchemeValue::Raw, vec![b"e".to_vec(), b"h".to_vec(), b"b".to_vec()]);
    let service = SERVICE_NAME.to_string();
    let mut frames = ResponseFragmenter::new(&service, ResponseCode::Error, args).create_frames().unwrap();
    assert_eq!(frames.len(), 1);
    assert_eq!(Type::CallResponse, *frames[0].frame_type());
    let response = CallResponse::decode(frames[0].payload_mut()).unwrap();
    assert_eq!(ResponseCode::Error, *response.fields().code());
    assert_eq!(Flags::NONE, *response.flags());
    let headers = response.fields().headers();
    assert_eq!("raw".to_string(), *headers.get(&"as".to_string()).unwrap());
    assert_eq!(SERVICE_NAME.to_string(), *headers.get(&"cn".to_string()).unwrap());
}

#[test]
fn fragmentation_limits() {
    assert_eq!(calculate_payload_limit(0), 65517);
    assert_eq!(calculate_payload_limit(100), 65417);
    assert_eq!(checksum_len(ChecksumType::NoChecksum), 1);
    assert_eq!(checksum_len(ChecksumType::Crc32), 5);
    assert_eq!(checksum_len(ChecksumType::Farmhash), 5);
    assert_eq!(checksum_len(ChecksumType::Crc32C), 5);
    assert_eq!(create_tracing(), Tracing::new(0, 0, 0, TraceFlags::NONE));
}

#[test]
fn fragmentation_empty_arg_waits_for_room() {
    // "abc" takes 5 of 6 bytes; the empty argument's length no longer fits
    let mut fragmenter = ArgsFragmenter::new(vec![b"abc".to_vec(), Vec::new()]);
    assert_eq!(vec![Some(b"abc".to_vec())], fragmenter.next_frame_args_vec(6));
    assert!(!fragmenter.is_empty());
    // the next frame closes "abc" and then holds the empty argument
    assert_eq!(vec![None, None], fragmenter.next_frame_args_vec(100));
    assert!(fragmenter.is_empty());
}

#[test]
fn fragmentation_exact_fill_closes_with_empty_arg() {
    let mut fragmenter = ArgsFragmenter::new(vec![b"abcd".to_vec(), b"e".to_vec()]);
    assert_eq!(vec![Some(b"abcd".to_vec())], fragmenter.next_frame_args_vec(6));
    assert_eq!(vec![None, Some(b"e".to_vec())], fragmenter.next_frame_args_vec(100));
    assert!(fragmenter.is_empty());
}
