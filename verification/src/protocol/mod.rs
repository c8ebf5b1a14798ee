//! Binary frames: `[length:u32_be][opcode:u8][payload]`, where `length`
//! counts the payload only and may be at most 1 MiB.

use crate::codec::{self, push_bytes, push_u32};
use vstd::slice::{slice_subrange, slice_to_vec};
use vstd::prelude::*;

pub mod error;
pub mod stream;
pub mod task_status;

pub use error::{ErrorResponse, ErrorView};
pub use stream::StreamingDecoder;

verus! {

/// Length of the frame header: the payload length and the opcode.
pub const HEADER_LEN: usize = 5;

/// Largest payload a frame may carry (1 MiB).
pub const MAX_PAYLOAD_LEN: usize = 1048576;

/// Operation codes of the binary protocol.
#[derive(Debug, Clone, Copy, PartialEq, Eq, Structural)]
pub enum Opcode {
    AppendTask,
    Ack,
    Error,
    Ping,
    AckPing,
    RequestVote,
    AppendEntries,
    Join,
    JoinAck,
    PingReq,
    MembershipUpdate,
    GetTaskStatus,
    TaskStatus,
}

/// The wire byte of an opcode.
pub open spec fn opcode_byte(op: Opcode) -> u8 {
    match op {
        Opcode::AppendTask => 1,
        Opcode::Ack => 2,
        Opcode::Error => 3,
        Opcode::Ping => 4,
        Opcode::AckPing => 5,
        Opcode::RequestVote => 6,
        Opcode::AppendEntries => 7,
        Opcode::Join => 8,
        Opcode::JoinAck => 9,
        Opcode::PingReq => 10,
        Opcode::MembershipUpdate => 11,
        Opcode::GetTaskStatus => 12,
        Opcode::TaskStatus => 13,
    }
}

/// The opcode a wire byte names, if any.
pub open spec fn opcode_of_byte(b: u8) -> Option<Opcode> {
    if b == 1 { Some(Opcode::AppendTask) }
    else if b == 2 { Some(Opcode::Ack) }
    else if b == 3 { Some(Opcode::Error) }
    else if b == 4 { Some(Opcode::Ping) }
    else if b == 5 { Some(Opcode::AckPing) }
    else if b == 6 { Some(Opcode::RequestVote) }
    else if b == 7 { Some(Opcode::AppendEntries) }
    else if b == 8 { Some(Opcode::Join) }
    else if b == 9 { Some(Opcode::JoinAck) }
    else if b == 10 { Some(Opcode::PingReq) }
    else if b == 11 { Some(Opcode::MembershipUpdate) }
    else if b == 12 { Some(Opcode::GetTaskStatus) }
    else if b == 13 { Some(Opcode::TaskStatus) }
    else { None }
}

/// Every opcode is named by its own wire byte, and only bytes 1 to 13 name
/// an opcode.
pub proof fn lemma_opcode_byte_round_trip(op: Opcode, b: u8)
    ensures
        opcode_of_byte(opcode_byte(op)) == Some(op),
        opcode_of_byte(b) is Some <==> 1 <= b <= 13,
        opcode_of_byte(b) matches Some(o) ==> opcode_byte(o) == b,
{
}

impl Opcode {
    /// The wire byte of this opcode.
    pub fn to_byte(&self) -> (b: u8)
        ensures
            b == opcode_byte(*self),
    {
        match self {
            Opcode::AppendTask => 1,
            Opcode::Ack => 2,
            Opcode::Error => 3,
            Opcode::Ping => 4,
            Opcode::AckPing => 5,
            Opcode::RequestVote => 6,
            Opcode::AppendEntries => 7,
            Opcode::Join => 8,
            Opcode::JoinAck => 9,
            Opcode::PingReq => 10,
            Opcode::MembershipUpdate => 11,
            Opcode::GetTaskStatus => 12,
            Opcode::TaskStatus => 13,
        }
    }

    /// The opcode named by `value`; `UnknownOpcode(value)` for any other byte.
    pub fn from_byte(value: u8) -> (r: Result<Opcode, ProtocolError>)
        ensures
            match opcode_of_byte(value) {
                Some(op) => r == Ok::<Opcode, ProtocolError>(op),
                None => r == Err::<Opcode, ProtocolError>(ProtocolError::UnknownOpcode(value)),
            },
    {
        match value {
            1 => Ok(Opcode::AppendTask),
            2 => Ok(Opcode::Ack),
            3 => Ok(Opcode::Error),
            4 => Ok(Opcode::Ping),
            5 => Ok(Opcode::AckPing),
            6 => Ok(Opcode::RequestVote),
            7 => Ok(Opcode::AppendEntries),
            8 => Ok(Opcode::Join),
            9 => Ok(Opcode::JoinAck),
            10 => Ok(Opcode::PingReq),
            11 => Ok(Opcode::MembershipUpdate),
            12 => Ok(Opcode::GetTaskStatus),
            13 => Ok(Opcode::TaskStatus),
            _ => Err(ProtocolError::UnknownOpcode(value)),
        }
    }
}

/// Why a frame could not be encoded or decoded.
#[derive(Debug, Clone, PartialEq, Eq, Structural)]
pub enum ProtocolError {
    IncompleteFrame,
    PayloadTooLarge,
    TrailingBytes,
    UnknownOpcode(u8),
}

/// The name of an opcode, as written in the opcode registry.
pub open spec fn opcode_name_spec(op: Opcode) -> Seq<char> {
    match op {
        Opcode::AppendTask => "AppendTask"@,
        Opcode::Ack => "Ack"@,
        Opcode::Error => "Error"@,
        Opcode::Ping => "Ping"@,
        Opcode::AckPing => "AckPing"@,
        Opcode::RequestVote => "RequestVote"@,
        Opcode::AppendEntries => "AppendEntries"@,
        Opcode::Join => "Join"@,
        Opcode::JoinAck => "JoinAck"@,
        Opcode::PingReq => "PingReq"@,
        Opcode::MembershipUpdate => "MembershipUpdate"@,
        Opcode::GetTaskStatus => "GetTaskStatus"@,
        Opcode::TaskStatus => "TaskStatus"@,
    }
}

/// The name of an opcode.
pub fn opcode_name(op: Opcode) -> (r: &'static str)
    ensures
        r@ == opcode_name_spec(op),
{
    match op {
        Opcode::AppendTask => "AppendTask",
        Opcode::Ack => "Ack",
        Opcode::Error => "Error",
        Opcode::Ping => "Ping",
        Opcode::AckPing => "AckPing",
        Opcode::RequestVote => "RequestVote",
        Opcode::AppendEntries => "AppendEntries",
        Opcode::Join => "Join",
        Opcode::JoinAck => "JoinAck",
        Opcode::PingReq => "PingReq",
        Opcode::MembershipUpdate => "MembershipUpdate",
        Opcode::GetTaskStatus => "GetTaskStatus",
        Opcode::TaskStatus => "TaskStatus",
    }
}

/// The description of a protocol error.
pub open spec fn protocol_error_text(e: ProtocolError) -> Seq<char> {
    match e {
        ProtocolError::IncompleteFrame => "incomplete frame"@,
        ProtocolError::PayloadTooLarge => "payload too large"@,
        ProtocolError::TrailingBytes => "frame contains trailing bytes"@,
        ProtocolError::UnknownOpcode(b) => "unknown opcode: "@ + crate::text::decimal(b as nat),
    }
}

impl ProtocolError {
    /// A short description of the error.
    pub fn message(&self) -> (m: String)
        ensures
            m@ == protocol_error_text(*self),
    {
        match self {
            ProtocolError::IncompleteFrame => "incomplete frame".to_string(),
            ProtocolError::PayloadTooLarge => "payload too large".to_string(),
            ProtocolError::TrailingBytes => "frame contains trailing bytes".to_string(),
            ProtocolError::UnknownOpcode(b) => {
                let mut m = "unknown opcode: ".to_string();
                crate::text::push_decimal(&mut m, *b as u64);
                m
            },
        }
    }
}

/// A decoded frame: an opcode and its payload.
#[derive(Debug, Clone, PartialEq, Eq)]
pub struct Frame {
    opcode: Opcode,
    payload: Vec<u8>,
}

/// The mathematical value of a frame.
pub ghost struct FrameView {
    pub opcode: Opcode,
    pub payload: Seq<u8>,
}

impl View for Frame {
    type V = FrameView;

    closed spec fn view(&self) -> FrameView {
        FrameView { opcode: self.opcode, payload: self.payload@ }
    }
}

/// The bytes of a frame on the wire.
pub open spec fn frame_bytes(f: FrameView) -> Seq<u8> {
    codec::u32_be(f.payload.len() as u32) + seq![opcode_byte(f.opcode)] + f.payload
}

/// What decoding `b` as one whole frame yields. The checks come in order:
/// a complete header and payload, no bytes after it, a payload within
/// `MAX_PAYLOAD_LEN`, and a known opcode.
pub open spec fn parse_frame(b: Seq<u8>) -> Result<FrameView, ProtocolError> {
    if b.len() < HEADER_LEN {
        Err(ProtocolError::IncompleteFrame)
    } else {
        let length = codec::u32_from_be(b.take(4));
        if b.len() < HEADER_LEN + length {
            Err(ProtocolError::IncompleteFrame)
        } else if b.len() > HEADER_LEN + length {
            Err(ProtocolError::TrailingBytes)
        } else if length > MAX_PAYLOAD_LEN {
            Err(ProtocolError::PayloadTooLarge)
        } else {
            match opcode_of_byte(b[4]) {
                Some(op) => Ok(FrameView { opcode: op, payload: b.skip(5) }),
                None => Err(ProtocolError::UnknownOpcode(b[4])),
            }
        }
    }
}

impl Frame {
    pub fn new(opcode: Opcode, payload: Vec<u8>) -> (f: Self)
        ensures
            f@ == (FrameView { opcode, payload: payload@ }),
    {
        Frame { opcode, payload }
    }

    pub fn opcode(&self) -> (op: Opcode)
        ensures
            op == self@.opcode,
    {
        self.opcode
    }

    pub fn payload(&self) -> (p: &[u8])
        ensures
            p@ == self@.payload,
    {
        self.payload.as_slice()
    }

    /// The frame's bytes; `PayloadTooLarge` when the payload exceeds
    /// `MAX_PAYLOAD_LEN`.
    pub fn encode(&self) -> (r: Result<Vec<u8>, ProtocolError>)
        ensures
            self@.payload.len() > MAX_PAYLOAD_LEN ==> r == Err::<Vec<u8>, ProtocolError>(
                ProtocolError::PayloadTooLarge,
            ),
            self@.payload.len() <= MAX_PAYLOAD_LEN ==> (r matches Ok(bytes) && bytes@ == frame_bytes(
                self@,
            )),
    {
        if self.payload.len() > MAX_PAYLOAD_LEN {
            return Err(ProtocolError::PayloadTooLarge);
        }
        let mut bytes: Vec<u8> = Vec::with_capacity(HEADER_LEN + self.payload.len());
        push_u32(&mut bytes, self.payload.len() as u32);
        bytes.push(self.opcode.to_byte());
        push_bytes(&mut bytes, self.payload.as_slice());
        assert(bytes@ =~= frame_bytes(self@));
        Ok(bytes)
    }

    /// Decodes one whole frame; the result is `parse_frame(bytes)`.
    pub fn decode(bytes: &[u8]) -> (r: Result<Frame, ProtocolError>)
        ensures
            match parse_frame(bytes@) {
                Ok(f) => r matches Ok(frame) && frame@ == f,
                Err(e) => r == Err::<Frame, ProtocolError>(e),
            },
    {
        if bytes.len() < HEADER_LEN {
            return Err(ProtocolError::IncompleteFrame);
        }
        let length = ((((bytes[0] as u32) << 24u32) | ((bytes[1] as u32) << 16u32) | ((bytes[2] as u32)
            << 8u32) | (bytes[3] as u32)) as u32) as usize;
        assert(bytes@.take(4) =~= seq![bytes@[0], bytes@[1], bytes@[2], bytes@[3]]);
        if bytes.len() - HEADER_LEN < length {
            return Err(ProtocolError::IncompleteFrame);
        }
        if bytes.len() - HEADER_LEN > length {
            return Err(ProtocolError::TrailingBytes);
        }
        if length > MAX_PAYLOAD_LEN {
            return Err(ProtocolError::PayloadTooLarge);
        }
        let opcode = match Opcode::from_byte(bytes[4]) {
            Ok(op) => op,
            Err(e) => return Err(e),
        };
        let payload = slice_to_vec(slice_subrange(bytes, HEADER_LEN, bytes.len()));
        assert(payload@ =~= bytes@.skip(5));
        Ok(Frame { opcode, payload })
    }
}

/// Decoding the bytes of a frame whose payload fits gives the frame back.
pub proof fn lemma_frame_round_trip(f: FrameView)
    requires
        f.payload.len() <= MAX_PAYLOAD_LEN,
    ensures
        parse_frame(frame_bytes(f)) == Ok::<FrameView, ProtocolError>(f),
{
    let b = frame_bytes(f);
    codec::lemma_u32_be_round_trip(f.payload.len() as u32);
    assert(b.take(4) =~= codec::u32_be(f.payload.len() as u32));
    assert(b.skip(5) =~= f.payload);
    lemma_opcode_byte_round_trip(f.opcode, 0);
}

/// A decoded frame re-encodes to exactly the bytes it came from.
pub proof fn lemma_frame_canonical(b: Seq<u8>)
    requires
        parse_frame(b) is Ok,
    ensures
        frame_bytes(parse_frame(b)->Ok_0) == b,
        parse_frame(b)->Ok_0.payload.len() <= MAX_PAYLOAD_LEN,
{
    let f = parse_frame(b)->Ok_0;
    codec::lemma_u32_be_canonical(b.take(4));
    lemma_opcode_byte_round_trip(f.opcode, b[4]);
    assert(b =~= b.take(4) + seq![b[4]] + b.skip(5));
}

} // verus!
