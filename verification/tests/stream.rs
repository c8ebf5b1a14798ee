use core_engine::net::{append_reply, classify_frame, decode_failure_reply, ClientRequest, WriteQueue};
use core_engine::protocol::error::{ack_frame, error_frame};
use core_engine::protocol::{ErrorResponse, Frame, Opcode, ProtocolError, StreamingDecoder};

#[test]
fn decoder_keeps_partial_frames_until_complete() {
    let bytes = Frame::new(Opcode::AppendTask, b"task".to_vec()).encode().unwrap();
    let mut decoder = StreamingDecoder::new();

    assert_eq!(decoder.push(&bytes[..3]), Ok(vec![]));
    assert_eq!(decoder.push(&bytes[3..6]), Ok(vec![]));
    let frames = decoder.push(&bytes[6..]).expect("frame completes");

    assert_eq!(frames, vec![Frame::new(Opcode::AppendTask, b"task".to_vec())]);
}

#[test]
fn decoder_emits_coalesced_frames_in_order() {
    let mut bytes = Frame::new(Opcode::AppendTask, b"one".to_vec()).encode().unwrap();
    bytes.extend(Frame::new(Opcode::Ping, Vec::new()).encode().unwrap());
    bytes.extend(Frame::new(Opcode::AppendTask, b"two".to_vec()).encode().unwrap());
    bytes.extend_from_slice(&[0, 0]);
    let mut decoder = StreamingDecoder::new();

    let frames = decoder.push(&bytes).expect("frames decode");

    assert_eq!(
        frames,
        vec![
            Frame::new(Opcode::AppendTask, b"one".to_vec()),
            Frame::new(Opcode::Ping, Vec::new()),
            Frame::new(Opcode::AppendTask, b"two".to_vec()),
        ]
    );
    assert_eq!(decoder.push(&[0, 1, 2, b'z']), Ok(vec![Frame::new(Opcode::Ack, b"z".to_vec())]));
}

#[test]
fn decoder_rejects_unknown_opcode_and_oversized_payload() {
    let mut decoder = StreamingDecoder::new();
    assert_eq!(decoder.push(&[0, 0, 0, 0, 99]), Err(ProtocolError::UnknownOpcode(99)));

    let mut decoder = StreamingDecoder::new();
    assert_eq!(decoder.push(&[0, 0x10, 0, 1, 1]), Err(ProtocolError::PayloadTooLarge));
}

#[test]
fn error_frame_has_documented_layout() {
    assert_eq!(error_frame(400, "bad"), vec![0, 0, 0, 7, 3, 1, 144, 0, 3, b'b', b'a', b'd']);
}

#[test]
fn error_response_round_trips() {
    let response = ErrorResponse { code: 500, message: "disk full".to_string() };

    let payload = response.encode().expect("error encodes");

    assert_eq!(ErrorResponse::decode(&payload), Some(response));
    assert_eq!(ErrorResponse::decode(&[0, 1, 0, 1]), None);
}

#[test]
fn oversized_error_message_is_replaced() {
    let huge = "e".repeat(70_000);

    let frame = Frame::decode(&error_frame(500, &huge)).expect("frame decodes");
    let response = ErrorResponse::decode(frame.payload()).expect("payload decodes");

    assert_eq!(frame.opcode(), Opcode::Error);
    assert_eq!(response, ErrorResponse { code: 500, message: "error message too large".to_string() });
}

#[test]
fn ack_frame_is_empty_ack() {
    assert_eq!(ack_frame(), vec![0, 0, 0, 0, 2]);
}

#[test]
fn append_task_frames_are_persisted_and_others_refused() {
    match classify_frame(Frame::new(Opcode::AppendTask, b"task".to_vec())) {
        ClientRequest::AppendTask(payload) => assert_eq!(payload, b"task".to_vec()),
        ClientRequest::Reply(_) => panic!("AppendTask is persisted"),
    }
    match classify_frame(Frame::new(Opcode::Ping, Vec::new())) {
        ClientRequest::Reply(bytes) => assert_eq!(bytes, error_frame(400, "unsupported opcode: Ping")),
        ClientRequest::AppendTask(_) => panic!("Ping is refused"),
    }
}

#[test]
fn append_and_decode_failures_are_reported() {
    assert_eq!(append_reply(None), ack_frame());
    assert_eq!(append_reply(Some("disk full")), error_frame(500, "disk full"));
    assert_eq!(decode_failure_reply(&ProtocolError::UnknownOpcode(42)), error_frame(400, "unknown opcode: 42"));
    assert_eq!(ProtocolError::TrailingBytes.message(), "frame contains trailing bytes");
}

#[test]
fn write_queue_keeps_unwritten_tails() {
    let mut queue = WriteQueue::new();
    queue.push(b"hello".to_vec());
    queue.push(b"!".to_vec());

    assert!(!queue.record_written(2));
    assert_eq!(queue.front(), Some(&b"llo"[..]));
    assert!(queue.record_written(3));
    assert_eq!(queue.front(), Some(&b"!"[..]));
    assert!(queue.record_written(1));
    assert!(queue.is_empty());
    assert_eq!(queue.front(), None);
}

#[test]
fn whole_frame_decode_reports_each_error() {
    assert_eq!(Frame::decode(&[0, 0, 0]), Err(ProtocolError::IncompleteFrame));
    assert_eq!(Frame::decode(&[0, 0, 0, 2, 1, 9]), Err(ProtocolError::IncompleteFrame));
    assert_eq!(Frame::decode(&[0, 0, 0, 0, 1, 9]), Err(ProtocolError::TrailingBytes));
    assert_eq!(Frame::decode(&[0, 0x10, 0, 1, 1]), Err(ProtocolError::IncompleteFrame));
    let mut oversized = vec![0, 0x10, 0, 1, 1];
    oversized.resize(5 + 0x10_0001, 0);
    assert_eq!(Frame::decode(&oversized), Err(ProtocolError::PayloadTooLarge));
    oversized.push(0);
    assert_eq!(Frame::decode(&oversized), Err(ProtocolError::TrailingBytes));
    assert_eq!(Frame::new(Opcode::Ack, vec![0; 1_048_577]).encode(), Err(ProtocolError::PayloadTooLarge));
    assert_eq!(ProtocolError::IncompleteFrame.message(), "incomplete frame");
    assert_eq!(ProtocolError::PayloadTooLarge.message(), "payload too large");
}
