//! Incremental frame decoding over a byte stream: partial bytes are kept
//! until a complete frame is available, and frames that arrive together
//! are emitted in order.

use super::{opcode_of_byte, Frame, FrameView, Opcode, ProtocolError, HEADER_LEN, MAX_PAYLOAD_LEN};
use crate::codec;
use vstd::prelude::*;
use vstd::slice::{slice_subrange, slice_to_vec};

verus! {

/// The complete frames at the front of `b`, in order, and the bytes left
/// after them; an error for the first frame whose header announces an
/// oversized payload or whose opcode is unknown.
pub open spec fn split_frames(b: Seq<u8>) -> Result<(Seq<FrameView>, Seq<u8>), ProtocolError>
    decreases b.len(),
{
    if b.len() < HEADER_LEN {
        Ok((Seq::empty(), b))
    } else {
        let length = codec::u32_from_be(b.take(4));
        if length > MAX_PAYLOAD_LEN {
            Err(ProtocolError::PayloadTooLarge)
        } else if b.len() < HEADER_LEN + length {
            Ok((Seq::empty(), b))
        } else {
            match opcode_of_byte(b[4]) {
                None => Err(ProtocolError::UnknownOpcode(b[4])),
                Some(op) => match split_frames(b.skip(HEADER_LEN + length)) {
                    Err(e) => Err(e),
                    Ok((fs, rest)) => Ok(
                        (seq![FrameView { opcode: op, payload: b.subrange(5, HEADER_LEN + length) }] + fs, rest),
                    ),
                },
            }
        }
    }
}

/// Splitting the stream at any point changes nothing: the frames of
/// `a + b` are the frames of `a`, then the frames of what `a` left over
/// followed by `b`.
pub proof fn lemma_split_frames_incremental(a: Seq<u8>, b: Seq<u8>)
    requires
        split_frames(a) is Ok,
    ensures
        split_frames(a + b) == match split_frames(split_frames(a)->Ok_0.1 + b) {
            Ok((fs, rest)) => Ok((split_frames(a)->Ok_0.0 + fs, rest)),
            Err(e) => Err(e),
        },
    decreases a.len(),
{
    let ab = a + b;
    if a.len() < HEADER_LEN {
        assert(split_frames(a)->Ok_0.1 == a);
        assert(Seq::<FrameView>::empty() + split_frames(ab)->Ok_0.0 =~= split_frames(ab)->Ok_0.0);
    } else {
        assert(ab.take(4) =~= a.take(4));
        assert(ab[4] == a[4]);
        let length = codec::u32_from_be(a.take(4));
        if a.len() < HEADER_LEN + length {
            assert(split_frames(a)->Ok_0.1 == a);
            assert(Seq::<FrameView>::empty() + split_frames(ab)->Ok_0.0 =~= split_frames(ab)->Ok_0.0);
        } else {
            let k = HEADER_LEN + length;
            let tail = a.skip(k as int);
            assert(ab.skip(k as int) =~= tail + b);
            assert(ab.subrange(5, k as int) =~= a.subrange(5, k as int));
            lemma_split_frames_incremental(tail, b);
            let f = FrameView { opcode: opcode_of_byte(a[4])->Some_0, payload: a.subrange(5, k as int) };
            let fs1 = split_frames(tail)->Ok_0.0;
            match split_frames(split_frames(tail)->Ok_0.1 + b) {
                Ok((fs2, rest)) => {
                    assert(seq![f] + (fs1 + fs2) =~= (seq![f] + fs1) + fs2);
                },
                Err(e) => {},
            }
        }
    }
}

/// The bytes of a frame whose payload fits split into exactly that frame.
pub proof fn lemma_split_frames_single(f: FrameView)
    requires
        f.payload.len() <= MAX_PAYLOAD_LEN,
    ensures
        split_frames(super::frame_bytes(f)) == Ok::<(Seq<FrameView>, Seq<u8>), ProtocolError>(
            (seq![f], Seq::empty()),
        ),
{
    let b = super::frame_bytes(f);
    super::lemma_frame_round_trip(f);
    codec::lemma_u32_be_round_trip(f.payload.len() as u32);
    assert(b.take(4) =~= codec::u32_be(f.payload.len() as u32));
    assert(b.skip(HEADER_LEN + f.payload.len()) =~= Seq::<u8>::empty());
    assert(b.subrange(5, HEADER_LEN + f.payload.len()) =~= f.payload);
    assert(split_frames(Seq::<u8>::empty()) == Ok::<(Seq<FrameView>, Seq<u8>), ProtocolError>(
        (Seq::empty(), Seq::empty()),
    ));
    assert(seq![f] + Seq::<FrameView>::empty() =~= seq![f]);
}

/// The values of a sequence of frames.
pub open spec fn frames_view(v: Seq<Frame>) -> Seq<FrameView> {
    v.map_values(|f: Frame| f@)
}

/// A decoder over one byte stream.
pub struct StreamingDecoder {
    buffer: Vec<u8>,
}

impl View for StreamingDecoder {
    type V = Seq<u8>;

    /// The bytes received and not yet part of an emitted frame.
    closed spec fn view(&self) -> Seq<u8> {
        self.buffer@
    }
}

impl StreamingDecoder {
    pub fn new() -> (d: Self)
        ensures
            d@ == Seq::<u8>::empty(),
    {
        StreamingDecoder { buffer: Vec::new() }
    }

    /// Takes the next bytes of the stream and returns the frames they
    /// complete, in order. On an error the buffered bytes are dropped.
    pub fn push(&mut self, bytes: &[u8]) -> (r: Result<Vec<Frame>, ProtocolError>)
        ensures
            match split_frames(old(self)@ + bytes@) {
                Ok((fs, rest)) => r matches Ok(v) && frames_view(v@) == fs && final(self)@ == rest,
                Err(e) => r == Err::<Vec<Frame>, ProtocolError>(e) && final(self)@ == Seq::<u8>::empty(),
            },
    {
        let mut all: Vec<u8> = Vec::new();
        all.append(&mut self.buffer);
        let mut i: usize = 0;
        while i < bytes.len()
            invariant
                i <= bytes@.len(),
                all@ == old(self)@ + bytes@.take(i as int),
            decreases bytes@.len() - i,
        {
            all.push(bytes[i]);
            assert(bytes@.take(i + 1) =~= bytes@.take(i as int).push(bytes@[i as int]));
            i = i + 1;
        }
        assert(bytes@.take(i as int) =~= bytes@);
        let ghost b = all@;
        let mut frames: Vec<Frame> = Vec::new();
        let mut pos: usize = 0;
        assert(b.skip(0) =~= b);
        assert(frames_view(frames@) =~= Seq::<FrameView>::empty());
        loop
            invariant
                b == all@,
                b == old(self)@ + bytes@,
                pos <= b.len(),
                split_frames(b) == match split_frames(b.skip(pos as int)) {
                    Ok((fs, rest)) => Ok((frames_view(frames@) + fs, rest)),
                    Err(e) => Err(e),
                },
            ensures
                b == all@,
                pos <= b.len(),
                split_frames(b) == match split_frames(b.skip(pos as int)) {
                    Ok((fs, rest)) => Ok((frames_view(frames@) + fs, rest)),
                    Err(e) => Err(e),
                },
                split_frames(b.skip(pos as int)) == Ok::<(Seq<FrameView>, Seq<u8>), ProtocolError>(
                    (Seq::empty(), b.skip(pos as int)),
                ),
            decreases b.len() - pos,
        {
            let ghost cur = b.skip(pos as int);
            if all.len() - pos < HEADER_LEN {
                break;
            }
            let length = ((((all[pos] as u32) << 24u32) | ((all[pos + 1] as u32) << 16u32) | ((all[pos + 2] as u32)
                << 8u32) | (all[pos + 3] as u32)) as u32) as usize;
            assert(cur.take(4) =~= seq![b[pos as int], b[pos + 1], b[pos + 2], b[pos + 3]]);
            if length > MAX_PAYLOAD_LEN {
                self.buffer = Vec::new();
                return Err(ProtocolError::PayloadTooLarge);
            }
            if all.len() - pos - HEADER_LEN < length {
                break;
            }
            let opcode = match Opcode::from_byte(all[pos + 4]) {
                Ok(op) => op,
                Err(e) => {
                    self.buffer = Vec::new();
                    return Err(e);
                },
            };
            let end = pos + HEADER_LEN + length;
            let payload = slice_to_vec(slice_subrange(all.as_slice(), pos + HEADER_LEN, end));
            let frame = Frame::new(opcode, payload);
            proof {
                assert(payload@ =~= cur.subrange(5, HEADER_LEN + length));
                assert(cur.skip(HEADER_LEN + length) =~= b.skip(end as int));
            }
            let ghost before = frames@;
            frames.push(frame);
            proof {
                assert(frames_view(frames@) =~= frames_view(before).push(frame@));
                match split_frames(b.skip(end as int)) {
                    Ok((fs, rest)) => {
                        assert(frames_view(before) + (seq![frame@] + fs) =~= frames_view(frames@) + fs);
                    },
                    Err(e) => {},
                }
            }
            pos = end;
        }
        let ghost cur = b.skip(pos as int);
        assert(split_frames(cur) == Ok::<(Seq<FrameView>, Seq<u8>), ProtocolError>((Seq::empty(), cur)));
        assert(frames_view(frames@) + Seq::<FrameView>::empty() =~= frames_view(frames@));
        let rest = slice_to_vec(slice_subrange(all.as_slice(), pos, all.len()));
        assert(rest@ =~= cur);
        self.buffer = rest;
        Ok(frames)
    }
}

} // verus!
