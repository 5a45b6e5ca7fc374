//! 64-bit tamper-evidence digest and the keyed signature built on it.
//!
//! The engine needs one deterministic digest for three purposes: linking
//! usage-chain entries (`hash_prev`), signing canonical encodings under a
//! 64-bit key, and deriving key stream seeds for the transport envelope.
//! The primitive is FNV-1a folded byte by byte.

use vstd::prelude::*;

verus! {

pub const DIGEST_SEED: u64 = 0xcbf2_9ce4_8422_2325;

pub const DIGEST_PRIME: u64 = 0x0000_0100_0000_01b3;

/// One folding step: mix a byte into the running digest.
pub open spec fn digest_step(h: u64, b: u8) -> u64 {
    (((h ^ (b as u64)) as nat * DIGEST_PRIME as nat) % 0x1_0000_0000_0000_0000) as u64
}

/// Digest of a byte sequence, folded left to right from the fixed seed.
pub open spec fn digest_of(s: Seq<u8>) -> u64
    decreases s.len(),
{
    if s.len() == 0 {
        DIGEST_SEED
    } else {
        digest_step(digest_of(s.drop_last()), s.last())
    }
}

/// The little-endian bytes of a 64-bit value.
pub open spec fn le_bytes_of(k: u64) -> Seq<u8> {
    Seq::new(8, |i: int| ((k >> (8 * i)) & 0xff) as u8)
}

/// Digest folded from a key-derived seed instead of the fixed one: the
/// engine's signature over a message under a 64-bit key.
pub open spec fn keyed_digest(key: u64, s: Seq<u8>) -> u64
    decreases s.len(),
{
    if s.len() == 0 {
        digest_of(le_bytes_of(key))
    } else {
        digest_step(keyed_digest(key, s.drop_last()), s.last())
    }
}

/// A signature is valid exactly when it equals the keyed digest of the message.
pub open spec fn signature_ok(key: u64, msg: Seq<u8>, sig: u64) -> bool {
    sig == keyed_digest(key, msg)
}

/// One folding step, executable.
pub fn digest_step_exec(h: u64, b: u8) -> (r: u64)
    ensures
        r == digest_step(h, b),
{
    (h ^ (b as u64)).wrapping_mul(DIGEST_PRIME)
}

proof fn lemma_fold_take_step(s: Seq<u8>, i: int)
    requires
        0 <= i < s.len(),
    ensures
        s.take(i + 1).drop_last() == s.take(i),
        s.take(i + 1).last() == s[i],
{
    assert(s.take(i + 1).drop_last() =~= s.take(i));
}

/// Digest of a byte slice.
pub fn digest_bytes(v: &[u8]) -> (r: u64)
    ensures
        r == digest_of(v@),
{
    let mut h: u64 = DIGEST_SEED;
    let mut i: usize = 0;
    assert(v@.take(0) =~= Seq::<u8>::empty());
    while i < v.len()
        invariant
            0 <= i <= v@.len(),
            h == digest_of(v@.take(i as int)),
        decreases v@.len() - i,
    {
        proof {
            lemma_fold_take_step(v@, i as int);
        }
        h = digest_step_exec(h, v[i]);
        i = i + 1;
    }
    assert(v@.take(v@.len() as int) =~= v@);
    h
}

/// Little-endian bytes of a 64-bit value, as a vector.
pub fn le_bytes_vec(k: u64) -> (v: Vec<u8>)
    ensures
        v@ == le_bytes_of(k),
{
    let mut v: Vec<u8> = Vec::new();
    let mut i: usize = 0;
    while i < 8
        invariant
            0 <= i <= 8,
            v@.len() == i,
            forall|j: int| 0 <= j < i ==> v@[j] == ((k >> (8 * j)) & 0xff) as u8,
        decreases 8 - i,
    {
        assert(8 * (i as int) <= 56);
        v.push(((k >> ((8 * i) as u64)) & 0xff) as u8);
        i = i + 1;
    }
    assert(v@ =~= le_bytes_of(k));
    v
}

/// Keyed digest (the engine's signing operation) of a byte slice.
pub fn keyed_digest_bytes(key: u64, v: &[u8]) -> (r: u64)
    ensures
        r == keyed_digest(key, v@),
{
    let kb = le_bytes_vec(key);
    let mut h: u64 = digest_bytes(kb.as_slice());
    assert(v@.take(0) =~= Seq::<u8>::empty());
    assert(h == keyed_digest(key, v@.take(0)));
    let mut i: usize = 0;
    while i < v.len()
        invariant
            0 <= i <= v@.len(),
            h == keyed_digest(key, v@.take(i as int)),
        decreases v@.len() - i,
    {
        proof {
            lemma_fold_take_step(v@, i as int);
        }
        h = digest_step_exec(h, v[i]);
        i = i + 1;
    }
    assert(v@.take(v@.len() as int) =~= v@);
    h
}

} // verus!
