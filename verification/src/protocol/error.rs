//! The payload of `Error` frames:
//! `[code:u16_be][message_length:u16_be][message:utf8]`.

use super::{frame_bytes, Frame, FrameView, Opcode, ProtocolError};
use crate::codec::{self, push_string, push_u16, ByteReader};
use vstd::prelude::*;

verus! {

/// A failed operation: a status code and a message.
#[derive(Debug, Clone, PartialEq, Eq)]
pub struct ErrorResponse {
    pub code: u16,
    pub message: String,
}

pub ghost struct ErrorView {
    pub code: u16,
    pub message: Seq<char>,
}

impl View for ErrorResponse {
    type V = ErrorView;

    open spec fn view(&self) -> ErrorView {
        ErrorView { code: self.code, message: self.message@ }
    }
}

/// The payload bytes of an error.
pub open spec fn error_bytes(e: ErrorView) -> Seq<u8> {
    codec::u16_be(e.code) + codec::string_field(e.message)
}

/// What decoding an error payload yields: the code and message, when the
/// payload is exactly one encoded error.
pub open spec fn parse_error(b: Seq<u8>) -> Option<ErrorView> {
    match codec::take_u16(b) {
        Some((code, r1)) => match codec::take_string(r1) {
            Some((message, r2)) => if r2.len() == 0 { Some(ErrorView { code, message }) } else { None },
            None => None,
        },
        None => None,
    }
}

/// The message sent in place of one too long for its length prefix.
pub open spec fn fallback_message() -> Seq<char> {
    "error message too large"@
}

/// The `Error` frame for `code` and `message`; a message too long for its
/// length prefix is replaced by `fallback_message()`.
pub open spec fn error_frame_bytes(code: u16, message: Seq<char>) -> Seq<u8> {
    let m = if codec::string_fits(message) { message } else { fallback_message() };
    frame_bytes(FrameView { opcode: Opcode::Error, payload: error_bytes(ErrorView { code, message: m }) })
}

impl ErrorResponse {
    /// The payload bytes; `PayloadTooLarge` when the message is longer than
    /// a `u16` length allows.
    pub fn encode(&self) -> (r: Result<Vec<u8>, ProtocolError>)
        ensures
            codec::string_fits(self@.message) ==> (r matches Ok(b) && b@ == error_bytes(self@)),
            !codec::string_fits(self@.message) ==> r == Err::<Vec<u8>, ProtocolError>(
                ProtocolError::PayloadTooLarge,
            ),
    {
        let mut out: Vec<u8> = Vec::new();
        push_u16(&mut out, self.code);
        if !push_string(&mut out, self.message.as_str()) {
            return Err(ProtocolError::PayloadTooLarge);
        }
        assert(out@ =~= error_bytes(self@));
        Ok(out)
    }

    /// Decodes a whole error payload; `None` unless it is exactly one
    /// encoded error.
    pub fn decode(payload: &[u8]) -> (r: Option<ErrorResponse>)
        ensures
            match parse_error(payload@) {
                Some(e) => r matches Some(x) && x@ == e,
                None => r is None,
            },
    {
        let mut reader = ByteReader::new(payload);
        let code = match reader.read_u16() {
            Some(c) => c,
            None => return None,
        };
        let message = match reader.read_string() {
            Some(m) => m,
            None => return None,
        };
        if !reader.is_finished() {
            return None;
        }
        Some(ErrorResponse { code, message })
    }
}

/// Decoding the payload of an error that fits gives it back.
pub proof fn lemma_error_round_trip(e: ErrorView)
    requires
        codec::string_fits(e.message),
    ensures
        parse_error(error_bytes(e)) == Some(e),
{
    let empty = Seq::<u8>::empty();
    let r1 = codec::string_field(e.message) + empty;
    assert(error_bytes(e) =~= codec::u16_be(e.code) + r1);
    codec::lemma_take_u16(e.code, r1);
    codec::lemma_take_string(e.message, empty);
    assert(codec::string_field(e.message) + empty =~= codec::string_field(e.message));
}

/// The fallback message fits its length prefix.
proof fn lemma_fallback_fits()
    ensures
        codec::string_fits(fallback_message()),
{
    reveal_strlit("error message too large");
    assert(vstd::utf8::is_ascii_chars(fallback_message()));
    vstd::utf8::is_ascii_chars_encode_utf8(fallback_message());
}

/// The `Error` frame for `code` and `message` (see `error_frame_bytes`).
pub fn error_frame(code: u16, message: &str) -> (f: Vec<u8>)
    ensures
        f@ == error_frame_bytes(code, message@),
{
    let payload = match (ErrorResponse { code, message: message.to_string() }).encode() {
        Ok(p) => p,
        Err(_) => {
            let fallback = ErrorResponse { code, message: "error message too large".to_string() };
            proof {
                lemma_fallback_fits();
            }
            match fallback.encode() {
                Ok(p) => p,
                Err(_) => Vec::new(),
            }
        },
    };
    assert(payload@.len() <= 65539);
    match Frame::new(Opcode::Error, payload).encode() {
        Ok(f) => f,
        Err(_) => Vec::new(),
    }
}

/// The `Ack` frame, with an empty payload.
pub fn ack_frame() -> (f: Vec<u8>)
    ensures
        f@ == frame_bytes(FrameView { opcode: Opcode::Ack, payload: Seq::empty() }),
{
    let payload: Vec<u8> = Vec::new();
    match Frame::new(Opcode::Ack, payload).encode() {
        Ok(f) => f,
        Err(_) => Vec::new(),
    }
}

} // verus!
