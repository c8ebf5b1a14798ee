//! Big-endian integer and length-prefixed string encoding shared by the
//! wire formats.

use vstd::prelude::*;
use vstd::utf8::*;
use vstd::slice::*;

verus! {

/// The two bytes of `x`, most significant first.
pub open spec fn u16_be(x: u16) -> Seq<u8> {
    seq![(x >> 8u16) as u8, x as u8]
}

/// The value of two big-endian bytes.
pub open spec fn u16_from_be(s: Seq<u8>) -> u16 {
    (((s[0] as u16) << 8u16) | (s[1] as u16)) as u16
}

/// The four bytes of `x`, most significant first.
pub open spec fn u32_be(x: u32) -> Seq<u8> {
    seq![(x >> 24u32) as u8, (x >> 16u32) as u8, (x >> 8u32) as u8, x as u8]
}

/// The value of four big-endian bytes.
pub open spec fn u32_from_be(s: Seq<u8>) -> u32 {
    (((s[0] as u32) << 24u32) | ((s[1] as u32) << 16u32) | ((s[2] as u32) << 8u32) | (s[3] as u32)) as u32
}

/// The eight bytes of `x`, most significant first.
pub open spec fn u64_be(x: u64) -> Seq<u8> {
    seq![
        (x >> 56u64) as u8, (x >> 48u64) as u8, (x >> 40u64) as u8, (x >> 32u64) as u8,
        (x >> 24u64) as u8, (x >> 16u64) as u8, (x >> 8u64) as u8, x as u8
    ]
}

/// The value of eight big-endian bytes.
pub open spec fn u64_from_be(s: Seq<u8>) -> u64 {
    (((s[0] as u64) << 56u64) | ((s[1] as u64) << 48u64) | ((s[2] as u64) << 40u64)
        | ((s[3] as u64) << 32u64) | ((s[4] as u64) << 24u64) | ((s[5] as u64) << 16u64)
        | ((s[6] as u64) << 8u64) | (s[7] as u64)) as u64
}

proof fn lemma_u64_bits(x: u64)
    by (bit_vector)
    ensures
        x == (((((x >> 56u64) as u8) as u64) << 56u64) | ((((x >> 48u64) as u8) as u64) << 48u64)
            | ((((x >> 40u64) as u8) as u64) << 40u64) | ((((x >> 32u64) as u8) as u64) << 32u64)
            | ((((x >> 24u64) as u8) as u64) << 24u64) | ((((x >> 16u64) as u8) as u64) << 16u64)
            | ((((x >> 8u64) as u8) as u64) << 8u64) | (((x as u8) as u64))),
{
}

/// Reading back the big-endian bytes of a `u64` gives the value.
pub proof fn lemma_u64_be_round_trip(x: u64)
    ensures
        u64_be(x).len() == 8,
        u64_from_be(u64_be(x)) == x,
{
    lemma_u64_bits(x);
}

proof fn lemma_u64_bytes(b0: u8, b1: u8, b2: u8, b3: u8, b4: u8, b5: u8, b6: u8, b7: u8, v: u64)
    by (bit_vector)
    requires
        v == (((b0 as u64) << 56u64) | ((b1 as u64) << 48u64) | ((b2 as u64) << 40u64)
            | ((b3 as u64) << 32u64) | ((b4 as u64) << 24u64) | ((b5 as u64) << 16u64)
            | ((b6 as u64) << 8u64) | (b7 as u64)),
    ensures
        (v >> 56u64) as u8 == b0, (v >> 48u64) as u8 == b1, (v >> 40u64) as u8 == b2,
        (v >> 32u64) as u8 == b3, (v >> 24u64) as u8 == b4, (v >> 16u64) as u8 == b5,
        (v >> 8u64) as u8 == b6, v as u8 == b7,
{
}

/// Eight bytes are the big-endian bytes of the value they encode.
pub proof fn lemma_u64_be_canonical(s: Seq<u8>)
    requires
        s.len() == 8,
    ensures
        u64_be(u64_from_be(s)) == s,
{
    lemma_u64_bytes(s[0], s[1], s[2], s[3], s[4], s[5], s[6], s[7], u64_from_be(s));
    assert(u64_be(u64_from_be(s)) =~= s);
}

proof fn lemma_u32_bits(x: u32)
    by (bit_vector)
    ensures
        x == (((((x >> 24u32) as u8) as u32) << 24u32) | ((((x >> 16u32) as u8) as u32) << 16u32)
            | ((((x >> 8u32) as u8) as u32) << 8u32) | (((x as u8) as u32))),
{
}

proof fn lemma_u32_bytes(b0: u8, b1: u8, b2: u8, b3: u8, v: u32)
    by (bit_vector)
    requires
        v == (((b0 as u32) << 24u32) | ((b1 as u32) << 16u32) | ((b2 as u32) << 8u32) | (b3 as u32)),
    ensures
        (v >> 24u32) as u8 == b0, (v >> 16u32) as u8 == b1, (v >> 8u32) as u8 == b2, v as u8 == b3,
{
}

/// Reading back the big-endian bytes of a `u32` gives the value.
pub proof fn lemma_u32_be_round_trip(x: u32)
    ensures
        u32_be(x).len() == 4,
        u32_from_be(u32_be(x)) == x,
{
    lemma_u32_bits(x);
}

/// Four bytes are the big-endian bytes of the value they encode.
pub proof fn lemma_u32_be_canonical(s: Seq<u8>)
    requires
        s.len() == 4,
    ensures
        u32_be(u32_from_be(s)) == s,
{
    lemma_u32_bytes(s[0], s[1], s[2], s[3], u32_from_be(s));
    assert(u32_be(u32_from_be(s)) =~= s);
}

proof fn lemma_u16_bits(x: u16)
    by (bit_vector)
    ensures
        x == (((((x >> 8u16) as u8) as u16) << 8u16) | (((x as u8) as u16))),
{
}

proof fn lemma_u16_bytes(b0: u8, b1: u8, v: u16)
    by (bit_vector)
    requires
        v == (((b0 as u16) << 8u16) | (b1 as u16)),
    ensures
        (v >> 8u16) as u8 == b0, v as u8 == b1,
{
}

/// Reading back the big-endian bytes of a `u16` gives the value.
pub proof fn lemma_u16_be_round_trip(x: u16)
    ensures
        u16_be(x).len() == 2,
        u16_from_be(u16_be(x)) == x,
{
    lemma_u16_bits(x);
}

/// Two bytes are the big-endian bytes of the value they encode.
pub proof fn lemma_u16_be_canonical(s: Seq<u8>)
    requires
        s.len() == 2,
    ensures
        u16_be(u16_from_be(s)) == s,
{
    lemma_u16_bytes(s[0], s[1], u16_from_be(s));
    assert(u16_be(u16_from_be(s)) =~= s);
}

}

verus! {

broadcast use {vstd::utf8::encode_utf8_valid_utf8, vstd::utf8::encode_utf8_decode_utf8};

/// The UTF-8 bytes of a string.
pub open spec fn utf8(s: Seq<char>) -> Seq<u8> {
    encode_utf8(s)
}

/// Whether a string's UTF-8 bytes fit behind a `u16` length prefix.
pub open spec fn string_fits(s: Seq<char>) -> bool {
    utf8(s).len() <= u16::MAX
}

/// A string field on the wire: `[length:u16_be][utf8 bytes]`.
pub open spec fn string_field(s: Seq<char>) -> Seq<u8> {
    u16_be(utf8(s).len() as u16) + utf8(s)
}

/// The wire byte of a boolean.
pub open spec fn bool_byte(b: bool) -> u8 {
    if b { 1 } else { 0 }
}

/// Takes one byte from the front of `b`.
pub open spec fn take_u8(b: Seq<u8>) -> Option<(u8, Seq<u8>)> {
    if b.len() >= 1 { Some((b[0], b.skip(1))) } else { None }
}

/// Takes a big-endian `u16` from the front of `b`.
pub open spec fn take_u16(b: Seq<u8>) -> Option<(u16, Seq<u8>)> {
    if b.len() >= 2 { Some((u16_from_be(b.take(2)), b.skip(2))) } else { None }
}

/// Takes a big-endian `u32` from the front of `b`.
pub open spec fn take_u32(b: Seq<u8>) -> Option<(u32, Seq<u8>)> {
    if b.len() >= 4 { Some((u32_from_be(b.take(4)), b.skip(4))) } else { None }
}

/// Takes a big-endian `u64` from the front of `b`.
pub open spec fn take_u64(b: Seq<u8>) -> Option<(u64, Seq<u8>)> {
    if b.len() >= 8 { Some((u64_from_be(b.take(8)), b.skip(8))) } else { None }
}

/// Takes a boolean byte, which must be 0 or 1, from the front of `b`.
pub open spec fn take_bool(b: Seq<u8>) -> Option<(bool, Seq<u8>)> {
    match take_u8(b) {
        Some((0, rest)) => Some((false, rest)),
        Some((1, rest)) => Some((true, rest)),
        _ => None,
    }
}

/// Takes `n` raw bytes from the front of `b`.
pub open spec fn take_bytes(b: Seq<u8>, n: nat) -> Option<(Seq<u8>, Seq<u8>)> {
    if b.len() >= n { Some((b.take(n as int), b.skip(n as int))) } else { None }
}

/// Takes a length-prefixed UTF-8 string from the front of `b`.
pub open spec fn take_string(b: Seq<u8>) -> Option<(Seq<char>, Seq<u8>)> {
    match take_u16(b) {
        Some((n, r)) => match take_bytes(r, n as nat) {
            Some((raw, rest)) => if valid_utf8(raw) { Some((decode_utf8(raw), rest)) } else { None },
            None => None,
        },
        None => None,
    }
}

pub proof fn lemma_take_u8(x: u8, rest: Seq<u8>)
    ensures
        take_u8(seq![x] + rest) == Some((x, rest)),
{
    assert((seq![x] + rest).skip(1) =~= rest);
}

pub proof fn lemma_take_u16(x: u16, rest: Seq<u8>)
    ensures
        take_u16(u16_be(x) + rest) == Some((x, rest)),
{
    lemma_u16_be_round_trip(x);
    assert((u16_be(x) + rest).take(2) =~= u16_be(x));
    assert((u16_be(x) + rest).skip(2) =~= rest);
}

pub proof fn lemma_take_u32(x: u32, rest: Seq<u8>)
    ensures
        take_u32(u32_be(x) + rest) == Some((x, rest)),
{
    lemma_u32_be_round_trip(x);
    assert((u32_be(x) + rest).take(4) =~= u32_be(x));
    assert((u32_be(x) + rest).skip(4) =~= rest);
}

pub proof fn lemma_take_u64(x: u64, rest: Seq<u8>)
    ensures
        take_u64(u64_be(x) + rest) == Some((x, rest)),
{
    lemma_u64_be_round_trip(x);
    assert((u64_be(x) + rest).take(8) =~= u64_be(x));
    assert((u64_be(x) + rest).skip(8) =~= rest);
}

pub proof fn lemma_take_bool(x: bool, rest: Seq<u8>)
    ensures
        take_bool(seq![bool_byte(x)] + rest) == Some((x, rest)),
{
    lemma_take_u8(bool_byte(x), rest);
}

pub proof fn lemma_take_bytes(raw: Seq<u8>, rest: Seq<u8>)
    ensures
        take_bytes(raw + rest, raw.len()) == Some((raw, rest)),
{
    assert((raw + rest).take(raw.len() as int) =~= raw);
    assert((raw + rest).skip(raw.len() as int) =~= rest);
}

pub proof fn lemma_take_string(s: Seq<char>, rest: Seq<u8>)
    requires
        string_fits(s),
    ensures
        take_string(string_field(s) + rest) == Some((s, rest)),
{
    let n = utf8(s).len() as u16;
    assert(string_field(s) + rest =~= u16_be(n) + (utf8(s) + rest));
    lemma_take_u16(n, utf8(s) + rest);
    lemma_take_bytes(utf8(s), rest);
}

/// A byte taken by `take_u8` is the front of the input.
pub proof fn lemma_take_u8_inv(b: Seq<u8>)
    requires
        take_u8(b) is Some,
    ensures
        b == seq![take_u8(b).unwrap().0] + take_u8(b).unwrap().1,
{
    assert(b =~= seq![b[0]] + b.skip(1));
}

/// A boolean taken by `take_bool` is the front of the input.
pub proof fn lemma_take_bool_inv(b: Seq<u8>)
    requires
        take_bool(b) is Some,
    ensures
        b == seq![bool_byte(take_bool(b).unwrap().0)] + take_bool(b).unwrap().1,
{
    assert(b =~= seq![b[0]] + b.skip(1));
}

/// A value taken by `take_u16` is encoded canonically at the front of the input.
pub proof fn lemma_take_u16_inv(b: Seq<u8>)
    requires
        take_u16(b) is Some,
    ensures
        b == u16_be(take_u16(b).unwrap().0) + take_u16(b).unwrap().1,
{
    lemma_u16_be_canonical(b.take(2));
    assert(b =~= b.take(2) + b.skip(2));
}

/// A value taken by `take_u32` is encoded canonically at the front of the input.
pub proof fn lemma_take_u32_inv(b: Seq<u8>)
    requires
        take_u32(b) is Some,
    ensures
        b == u32_be(take_u32(b).unwrap().0) + take_u32(b).unwrap().1,
{
    lemma_u32_be_canonical(b.take(4));
    assert(b =~= b.take(4) + b.skip(4));
}

/// A value taken by `take_u64` is encoded canonically at the front of the input.
pub proof fn lemma_take_u64_inv(b: Seq<u8>)
    requires
        take_u64(b) is Some,
    ensures
        b == u64_be(take_u64(b).unwrap().0) + take_u64(b).unwrap().1,
{
    lemma_u64_be_canonical(b.take(8));
    assert(b =~= b.take(8) + b.skip(8));
}

/// Raw bytes taken by `take_bytes` are the front of the input.
pub proof fn lemma_take_bytes_inv(b: Seq<u8>, n: nat)
    requires
        take_bytes(b, n) is Some,
    ensures
        b == take_bytes(b, n).unwrap().0 + take_bytes(b, n).unwrap().1,
        take_bytes(b, n).unwrap().0.len() == n,
{
    assert(b =~= b.take(n as int) + b.skip(n as int));
}

/// A string taken by `take_string` is encoded canonically at the front of the input.
pub proof fn lemma_take_string_inv(b: Seq<u8>)
    requires
        take_string(b) is Some,
    ensures
        string_fits(take_string(b).unwrap().0),
        b == string_field(take_string(b).unwrap().0) + take_string(b).unwrap().1,
{
    lemma_take_u16_inv(b);
    let (n, r) = take_u16(b).unwrap();
    lemma_take_bytes_inv(r, n as nat);
    let (raw, rest) = take_bytes(r, n as nat).unwrap();
    vstd::utf8::decode_utf8_encode_utf8(raw);
    assert(utf8(decode_utf8(raw)) == raw);
    assert(b =~= string_field(take_string(b).unwrap().0) + rest);
}

} // verus!

verus! {

/// Appends the big-endian bytes of `x`.
pub fn push_u16(out: &mut Vec<u8>, x: u16)
    ensures
        final(out)@ == old(out)@ + u16_be(x),
{
    out.push((x >> 8u16) as u8);
    out.push(x as u8);
    assert(final(out)@ =~= old(out)@ + u16_be(x));
}

/// Appends the big-endian bytes of `x`.
pub fn push_u32(out: &mut Vec<u8>, x: u32)
    ensures
        final(out)@ == old(out)@ + u32_be(x),
{
    out.push((x >> 24u32) as u8);
    out.push((x >> 16u32) as u8);
    out.push((x >> 8u32) as u8);
    out.push(x as u8);
    assert(final(out)@ =~= old(out)@ + u32_be(x));
}

/// Appends the big-endian bytes of `x`.
pub fn push_u64(out: &mut Vec<u8>, x: u64)
    ensures
        final(out)@ == old(out)@ + u64_be(x),
{
    out.push((x >> 56u64) as u8);
    out.push((x >> 48u64) as u8);
    out.push((x >> 40u64) as u8);
    out.push((x >> 32u64) as u8);
    out.push((x >> 24u64) as u8);
    out.push((x >> 16u64) as u8);
    out.push((x >> 8u64) as u8);
    out.push(x as u8);
    assert(final(out)@ =~= old(out)@ + u64_be(x));
}

/// Appends the wire byte of a boolean.
pub fn push_bool(out: &mut Vec<u8>, b: bool)
    ensures
        final(out)@ == old(out)@ + seq![bool_byte(b)],
{
    out.push(if b { 1u8 } else { 0u8 });
    assert(final(out)@ =~= old(out)@ + seq![bool_byte(b)]);
}

/// Appends raw bytes.
pub fn push_bytes(out: &mut Vec<u8>, bytes: &[u8])
    ensures
        final(out)@ == old(out)@ + bytes@,
{
    let ghost start = out@;
    let mut i: usize = 0;
    while i < bytes.len()
        invariant
            i <= bytes@.len(),
            out@ == start + bytes@.take(i as int),
        decreases bytes@.len() - i,
    {
        out.push(bytes[i]);
        i = i + 1;
        assert(out@ =~= start + bytes@.take(i as int));
    }
    assert(bytes@.take(i as int) =~= bytes@);
}

/// Appends a length-prefixed string field; returns `false`, leaving `out`
/// unchanged, when the string's UTF-8 bytes do not fit a `u16` length.
pub fn push_string(out: &mut Vec<u8>, s: &str) -> (ok: bool)
    ensures
        ok == string_fits(s@),
        ok ==> final(out)@ == old(out)@ + string_field(s@),
        !ok ==> final(out)@ == old(out)@,
{
    let bytes = s.as_bytes();
    if bytes.len() > 65535 {
        return false;
    }
    push_u16(out, bytes.len() as u16);
    push_bytes(out, bytes);
    assert(final(out)@ =~= old(out)@ + string_field(s@));
    true
}

/// The string whose UTF-8 bytes are `bytes`, when they are valid UTF-8.
///
/// Calls `std::str::from_utf8`, which succeeds exactly on valid UTF-8 and
/// then yields a string slice over those same bytes; the contract claims
/// that of it, with validity and decoding as vstd's `valid_utf8` and
/// `decode_utf8` define them.
#[verifier::external_body]
pub(crate) fn utf8_str(bytes: &[u8]) -> (r: Option<&str>)
    ensures
        r is Some <==> valid_utf8(bytes@),
        r matches Some(s) ==> s@ == decode_utf8(bytes@),
{
    std::str::from_utf8(bytes).ok()
}

/// A cursor over a byte slice, reading wire fields front to back.
pub struct ByteReader<'a> {
    bytes: &'a [u8],
    offset: usize,
}

impl<'a> ByteReader<'a> {
    /// The cursor is within the slice.
    pub closed spec fn wf(&self) -> bool {
        self.offset <= self.bytes@.len()
    }

    /// The bytes not read yet.
    pub closed spec fn rest(&self) -> Seq<u8> {
        self.bytes@.skip(self.offset as int)
    }

    pub fn new(bytes: &'a [u8]) -> (r: Self)
        ensures
            r.wf(),
            r.rest() == bytes@,
    {
        let r = ByteReader { bytes, offset: 0 };
        assert(r.rest() =~= bytes@);
        r
    }

    /// Reads `n` raw bytes.
    pub fn read_exact(&mut self, n: usize) -> (r: Option<&'a [u8]>)
        requires
            old(self).wf(),
        ensures
            final(self).wf(),
            match take_bytes(old(self).rest(), n as nat) {
                Some((raw, rest)) => r matches Some(b) && b@ == raw && final(self).rest() == rest,
                None => r is None,
            },
    {
        if n > self.bytes.len() - self.offset {
            return None;
        }
        let end = self.offset + n;
        let out = slice_subrange(self.bytes, self.offset, end);
        let ghost old_rest = self.rest();
        self.offset = end;
        assert(out@ =~= old_rest.take(n as int));
        assert(self.rest() =~= old_rest.skip(n as int));
        Some(out)
    }

    pub fn read_u8(&mut self) -> (r: Option<u8>)
        requires
            old(self).wf(),
        ensures
            final(self).wf(),
            match take_u8(old(self).rest()) {
                Some((x, rest)) => r == Some(x) && final(self).rest() == rest,
                None => r is None,
            },
    {
        match self.read_exact(1) {
            Some(b) => Some(b[0]),
            None => None,
        }
    }

    pub fn read_bool(&mut self) -> (r: Option<bool>)
        requires
            old(self).wf(),
        ensures
            final(self).wf(),
            match take_bool(old(self).rest()) {
                Some((x, rest)) => r == Some(x) && final(self).rest() == rest,
                None => r is None,
            },
    {
        match self.read_u8() {
            Some(0) => Some(false),
            Some(1) => Some(true),
            _ => None,
        }
    }

    pub fn read_u16(&mut self) -> (r: Option<u16>)
        requires
            old(self).wf(),
        ensures
            final(self).wf(),
            match take_u16(old(self).rest()) {
                Some((x, rest)) => r == Some(x) && final(self).rest() == rest,
                None => r is None,
            },
    {
        match self.read_exact(2) {
            Some(b) => Some((((b[0] as u16) << 8u16) | (b[1] as u16)) as u16),
            None => None,
        }
    }

    pub fn read_u32(&mut self) -> (r: Option<u32>)
        requires
            old(self).wf(),
        ensures
            final(self).wf(),
            match take_u32(old(self).rest()) {
                Some((x, rest)) => r == Some(x) && final(self).rest() == rest,
                None => r is None,
            },
    {
        match self.read_exact(4) {
            Some(b) => Some((((b[0] as u32) << 24u32) | ((b[1] as u32) << 16u32) | ((b[2] as u32) << 8u32)
                | (b[3] as u32)) as u32),
            None => None,
        }
    }

    pub fn read_u64(&mut self) -> (r: Option<u64>)
        requires
            old(self).wf(),
        ensures
            final(self).wf(),
            match take_u64(old(self).rest()) {
                Some((x, rest)) => r == Some(x) && final(self).rest() == rest,
                None => r is None,
            },
    {
        match self.read_exact(8) {
            Some(b) => Some((((b[0] as u64) << 56u64) | ((b[1] as u64) << 48u64) | ((b[2] as u64) << 40u64)
                | ((b[3] as u64) << 32u64) | ((b[4] as u64) << 24u64) | ((b[5] as u64) << 16u64)
                | ((b[6] as u64) << 8u64) | (b[7] as u64)) as u64),
            None => None,
        }
    }

    pub fn read_string(&mut self) -> (r: Option<String>)
        requires
            old(self).wf(),
        ensures
            final(self).wf(),
            match take_string(old(self).rest()) {
                Some((x, rest)) => r matches Some(s) && s@ == x && final(self).rest() == rest,
                None => r is None,
            },
    {
        let n = match self.read_u16() {
            Some(n) => n,
            None => return None,
        };
        let raw = match self.read_exact(n as usize) {
            Some(raw) => raw,
            None => return None,
        };
        match utf8_str(raw) {
            Some(s) => Some(s.to_owned()),
            None => None,
        }
    }

    /// Whether every byte has been read.
    pub fn is_finished(&self) -> (r: bool)
        requires
            self.wf(),
        ensures
            r == (self.rest().len() == 0),
    {
        self.offset == self.bytes.len()
    }
}

} // verus!
