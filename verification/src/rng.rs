//! Deterministic pseudo-randomness: FNV-1a seeding and xorshift steps.

use vstd::prelude::*;

verus! {

/// FNV-1a offset basis and prime.
pub const FNV_OFFSET: u64 = 0xcbf29ce484222325;
pub const FNV_PRIME: u64 = 0x100000001b3;

/// FNV-1a over `bytes`, starting from `h`.
pub open spec fn fnv(h: u64, bytes: Seq<u8>) -> u64
    decreases bytes.len(),
{
    if bytes.len() == 0 {
        h
    } else {
        fnv((h ^ (bytes[0] as u64)).wrapping_mul(FNV_PRIME), bytes.drop_first())
    }
}

/// One xorshift step; the state never becomes 0.
pub open spec fn xorshift(x: u64) -> u64 {
    let a = x ^ (x << 13u64);
    let b = a ^ (a >> 7u64);
    let c = b ^ (b << 17u64);
    if c < 1 { 1 } else { c }
}

/// FNV-1a over `bytes` from `h0`, continued over `rest`.
pub fn fnv_fold(h0: u64, bytes: &[u8], rest: Ghost<Seq<u8>>) -> (r: u64)
    ensures
        fnv(h0, bytes@ + rest@) == fnv(r, rest@),
{
    let mut h = h0;
    let mut i: usize = 0;
    assert(bytes@.skip(0) + rest@ =~= bytes@ + rest@);
    while i < bytes.len()
        invariant
            i <= bytes@.len(),
            fnv(h0, bytes@ + rest@) == fnv(h, bytes@.skip(i as int) + rest@),
        decreases bytes@.len() - i,
    {
        assert((bytes@.skip(i as int) + rest@)[0] == bytes@[i as int]);
        assert((bytes@.skip(i as int) + rest@).drop_first() =~= bytes@.skip(i + 1) + rest@);
        h = (h ^ (bytes[i] as u64)).wrapping_mul(FNV_PRIME);
        i = i + 1;
    }
    assert(bytes@.skip(i as int) + rest@ =~= rest@);
    h
}

/// One xorshift step.
pub fn xorshift_next(x: u64) -> (r: u64)
    ensures
        r == xorshift(x),
{
    let mut value = x;
    value = value ^ (value << 13u64);
    value = value ^ (value >> 7u64);
    value = value ^ (value << 17u64);
    if value < 1 { 1 } else { value }
}

} // verus!
