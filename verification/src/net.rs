//! Connection-level decisions of the TCP append server: what each framed
//! request is answered with, and how a connection's outbound queue drains.
//! Sockets and the event loop belong to the caller.

use crate::protocol::error::{ack_frame, error_frame, error_frame_bytes};
use crate::protocol::{
    frame_bytes, opcode_name, opcode_name_spec, protocol_error_text, Frame, FrameView, Opcode,
    ProtocolError,
};
use crate::text::push_str;
use vstd::prelude::*;

verus! {

/// Identifies a client connection.
#[derive(Debug, Clone, Copy, PartialEq, Eq, Structural)]
pub struct ConnectionId(pub usize);

/// Readiness a connection can be waited on for.
#[derive(Debug, Clone, Copy, PartialEq, Eq, Structural)]
pub enum EventFilter {
    Read,
    Write,
}

/// Declares `std::io::Error`, the error of event loops, to Verus as an
/// opaque type: nothing about its contents is claimed.
#[verifier::external_type_specification]
#[verifier::external_body]
pub struct ExIoError(std::io::Error);

/// Something that runs until it is done or fails.
pub trait EventLoop {
    fn run(&mut self) -> Result<(), std::io::Error>;
}

/// An event loop with nothing registered on it.
#[derive(Debug, Default)]
pub struct KqueueEventLoop;

impl KqueueEventLoop {
    pub fn new() -> (r: Self) {
        KqueueEventLoop
    }
}

impl EventLoop for KqueueEventLoop {
    /// Returns at once: there is nothing to wait for.
    fn run(&mut self) -> (r: Result<(), std::io::Error>)
        ensures
            r is Ok,
    {
        Ok(())
    }
}

/// What to do with a frame a client sent.
pub enum ClientRequest {
    /// A task payload to persist in the WAL; `append_reply` makes the
    /// frame to send back.
    AppendTask(Vec<u8>),
    /// Send back these frame bytes.
    Reply(Vec<u8>),
}

/// The message for a frame with an opcode the server does not handle.
pub open spec fn unsupported_text(op: Opcode) -> Seq<char> {
    "unsupported opcode: "@ + opcode_name_spec(op)
}

/// Sorts a client frame: `AppendTask` carries a task to persist; every
/// other opcode is answered with an `Error` frame of code 400.
pub fn classify_frame(frame: Frame) -> (r: ClientRequest)
    ensures
        frame@.opcode == Opcode::AppendTask ==> (r matches ClientRequest::AppendTask(p) && p@ == frame@.payload),
        frame@.opcode != Opcode::AppendTask ==> (r matches ClientRequest::Reply(b) && b@ == error_frame_bytes(
            400,
            unsupported_text(frame@.opcode),
        )),
{
    let op = frame.opcode();
    if op == Opcode::AppendTask {
        let payload = vstd::slice::slice_to_vec(frame.payload());
        ClientRequest::AppendTask(payload)
    } else {
        let mut message = "unsupported opcode: ".to_string();
        push_str(&mut message, opcode_name(op));
        ClientRequest::Reply(error_frame(400, message.as_str()))
    }
}

/// The answer to an `AppendTask`: `Ack` when the WAL append succeeded,
/// otherwise an `Error` frame of code 500 carrying the failure.
pub fn append_reply(failure: Option<&str>) -> (f: Vec<u8>)
    ensures
        failure is None ==> f@ == frame_bytes(FrameView { opcode: Opcode::Ack, payload: Seq::empty() }),
        failure matches Some(m) ==> f@ == error_frame_bytes(500, m@),
{
    match failure {
        None => ack_frame(),
        Some(m) => error_frame(500, m),
    }
}

/// The answer to bytes that do not decode as frames: an `Error` frame of
/// code 400 describing the decoding failure.
pub fn decode_failure_reply(e: &ProtocolError) -> (f: Vec<u8>)
    ensures
        f@ == error_frame_bytes(400, protocol_error_text(*e)),
{
    let m = e.message();
    error_frame(400, m.as_str())
}

/// The byte vectors waiting to be written to a connection, in order.
pub struct WriteQueue {
    pending: Vec<Vec<u8>>,
}

/// The values of a sequence of byte vectors.
pub open spec fn chunks_view(v: Seq<Vec<u8>>) -> Seq<Seq<u8>> {
    v.map_values(|b: Vec<u8>| b@)
}

impl View for WriteQueue {
    type V = Seq<Seq<u8>>;

    closed spec fn view(&self) -> Seq<Seq<u8>> {
        chunks_view(self.pending@)
    }
}

impl WriteQueue {
    pub fn new() -> (q: Self)
        ensures
            q@ == Seq::<Seq<u8>>::empty(),
    {
        let q = WriteQueue { pending: Vec::new() };
        assert(q@ =~= Seq::<Seq<u8>>::empty());
        q
    }

    /// Queues `bytes` behind what is already waiting.
    pub fn push(&mut self, bytes: Vec<u8>)
        ensures
            final(self)@ == old(self)@.push(bytes@),
    {
        self.pending.push(bytes);
        assert(chunks_view(self.pending@) =~= old(self)@.push(bytes@));
    }

    pub fn is_empty(&self) -> (r: bool)
        ensures
            r == (self@.len() == 0),
    {
        self.pending.len() == 0
    }

    /// The bytes to write next, if any.
    pub fn front(&self) -> (r: Option<&[u8]>)
        ensures
            self@.len() == 0 ==> r is None,
            self@.len() > 0 ==> (r matches Some(b) && b@ == self@[0]),
    {
        if self.pending.len() == 0 {
            None
        } else {
            Some(self.pending[0].as_slice())
        }
    }

    /// Records that the first `written` bytes of the front were written:
    /// a fully written front leaves the queue, a partly written one keeps
    /// its unwritten tail. Returns whether the front was fully written.
    pub fn record_written(&mut self, written: usize) -> (done: bool)
        requires
            old(self)@.len() > 0,
            written <= old(self)@[0].len(),
        ensures
            done == (written == old(self)@[0].len()),
            done ==> final(self)@ == old(self)@.drop_first(),
            !done ==> final(self)@ == old(self)@.update(0, old(self)@[0].skip(written as int)),
    {
        if written == self.pending[0].len() {
            self.pending.remove(0);
            assert(chunks_view(self.pending@) =~= old(self)@.drop_first());
            true
        } else {
            let tail = vstd::slice::slice_to_vec(vstd::slice::slice_subrange(
                self.pending[0].as_slice(),
                written,
                self.pending[0].len(),
            ));
            assert(tail@ =~= old(self)@[0].skip(written as int));
            self.pending.set(0, tail);
            assert(chunks_view(self.pending@) =~= old(self)@.update(0, old(self)@[0].skip(written as int)));
            false
        }
    }
}

} // verus!
