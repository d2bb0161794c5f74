//! 64-bit FNV-1a. Used to derive the window id (from a window's `title`) and a tab's stable
//! webview label (from its canonicalized dir). Frozen here so the labels never drift with the
//! toolchain; the test vectors pin it.

use vstd::prelude::*;

verus! {

/// FNV-1a/64 offset basis.
pub const OFFSET_BASIS: u64 = 0xcbf2_9ce4_8422_2325;

/// FNV-1a/64 prime.
pub const PRIME: u64 = 0x0000_0100_0000_01b3;

/// One FNV-1a round: xor the byte into the low bits, then multiply by the prime modulo 2^64.
pub open spec fn fnv1a_step(hash: u64, byte: u8) -> u64 {
    (((hash ^ (byte as u64)) as nat * PRIME as nat) % 0x1_0000_0000_0000_0000nat) as u64
}

/// FNV-1a/64 of a byte sequence: the offset basis folded through one round per byte, in order.
pub open spec fn spec_fnv1a_64(bytes: Seq<u8>) -> u64
    decreases bytes.len(),
{
    if bytes.len() == 0 {
        OFFSET_BASIS
    } else {
        fnv1a_step(spec_fnv1a_64(bytes.drop_last()), bytes.last())
    }
}

/// 64-bit FNV-1a hash of `bytes`. Small, deterministic, and stable across toolchains.
/// Non-cryptographic.
pub fn fnv1a_64(bytes: &[u8]) -> (hash: u64)
    ensures
        hash == spec_fnv1a_64(bytes@),
{
    let mut hash = OFFSET_BASIS;
    let mut i: usize = 0;
    while i < bytes.len()
        invariant
            i <= bytes@.len(),
            hash == spec_fnv1a_64(bytes@.take(i as int)),
        decreases bytes@.len() - i,
    {
        let b = bytes[i];
        hash = hash ^ (b as u64);
        hash = hash.wrapping_mul(PRIME);
        assert(bytes@.take(i + 1).drop_last() =~= bytes@.take(i as int));
        i += 1;
    }
    assert(bytes@.take(i as int) =~= bytes@);
    hash
}

} // verus!
