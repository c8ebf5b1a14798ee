use core_engine::protocol::{Frame, Opcode, ProtocolError};

#[test]
fn frame_round_trips() {
    let frame = Frame::new(Opcode::AppendTask, b"payload".to_vec());

    let encoded = frame.encode().expect("frame encodes");
    let decoded = Frame::decode(&encoded).expect("frame decodes");

    assert_eq!(decoded, frame);
}

#[test]
fn decode_rejects_unknown_opcode() {
    let bytes = [0, 0, 0, 0, 99];

    assert_eq!(Frame::decode(&bytes), Err(ProtocolError::UnknownOpcode(99)));
}
