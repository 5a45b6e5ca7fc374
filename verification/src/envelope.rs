//! The encrypted transport envelope for token hand-off.
//!
//! A token's canonical JSON is sealed under the product key with a keyed
//! stream cipher built on the digest, authenticated by a keyed tag over the
//! cipher body, and carried as `base64(tag ++ body) '|' base64(nonce)`. The
//! nonce is derived from the content, so sealing is deterministic: exporting
//! twice without an intervening mutation yields the identical envelope.

use vstd::prelude::*;

use crate::b64::{b64_decode, b64_encode, decode, encode};
use crate::digest::{digest_step, keyed_digest, keyed_digest_bytes, le_bytes_of, le_bytes_vec};

verus! {

/// Tweak that separates the tag key from the stream key.
pub const TAG_TWEAK: u64 = 0x5a5a_5a5a_5a5a_5a5a;

/// Byte folded into the key stream state between positions.
pub const STREAM_STEP: u8 = 90;

pub const BAR: u8 = 124;

/// Key stream state after `i` steps from a seed.
pub open spec fn stream_state(seed: u64, i: nat) -> u64
    decreases i,
{
    if i == 0 {
        seed
    } else {
        digest_step(stream_state(seed, (i - 1) as nat), STREAM_STEP)
    }
}

/// The `i`-th key stream byte.
pub open spec fn stream_byte(seed: u64, i: nat) -> u8 {
    (stream_state(seed, i + 1) & 0xff) as u8
}

/// XOR of a byte sequence with the key stream from `seed`.
pub open spec fn xor_stream(seed: u64, s: Seq<u8>) -> Seq<u8> {
    Seq::new(s.len(), |i: int| s[i] ^ stream_byte(seed, i as nat))
}

/// Applying the same key stream twice gives the bytes back.
pub proof fn lemma_xor_stream_involution(seed: u64, s: Seq<u8>)
    ensures
        xor_stream(seed, xor_stream(seed, s)) == s,
{
    let once = xor_stream(seed, s);
    let twice = xor_stream(seed, once);
    assert forall|i: int| 0 <= i < s.len() implies twice[i] == s[i] by {
        let k = stream_byte(seed, i as nat);
        let x = s[i];
        assert((x ^ k) ^ k == x) by (bit_vector);
    }
    assert(twice =~= s);
}

/// Content-derived nonce of a sealing operation.
pub open spec fn seal_nonce(key: u64, plain: Seq<u8>) -> Seq<u8> {
    le_bytes_of(keyed_digest(key, plain))
}

/// Stream seed for a nonce under a key.
pub open spec fn seal_seed(key: u64, nonce: Seq<u8>) -> u64 {
    keyed_digest(key, nonce)
}

/// Authentication tag over a cipher body.
pub open spec fn seal_tag(key: u64, body: Seq<u8>) -> Seq<u8> {
    le_bytes_of(keyed_digest(key ^ TAG_TWEAK, body))
}

/// Tag and cipher body of a sealed message.
pub open spec fn sealed_bytes(key: u64, plain: Seq<u8>) -> Seq<u8> {
    let body = xor_stream(seal_seed(key, seal_nonce(key, plain)), plain);
    seal_tag(key, body) + body
}

/// The transport text of a sealed message:
/// `base64(tag ++ body) '|' base64(nonce)`.
pub open spec fn envelope_text(key: u64, plain: Seq<u8>) -> Seq<u8> {
    b64_encode(sealed_bytes(key, plain)) + seq![BAR] + b64_encode(seal_nonce(key, plain))
}

/// Position of the first `'|'`, if any.
pub open spec fn bar_position(s: Seq<u8>, i: int) -> Option<int>
    decreases s.len() - i,
{
    if i < 0 || i >= s.len() {
        None
    } else if s[i] == BAR {
        Some(i)
    } else {
        bar_position(s, i + 1)
    }
}

/// What opening an envelope yields: the plaintext, or nothing when the text
/// is not a well-formed, correctly tagged envelope under the key.
pub open spec fn open_envelope(key: u64, s: Seq<u8>) -> Option<Seq<u8>> {
    match bar_position(s, 0) {
        None => None,
        Some(bar) => {
            let front = s.subrange(0, bar);
            let back = s.subrange(bar + 1, s.len() as int);
            match (b64_decode(front), b64_decode(back)) {
                (Some(sealed), Some(nonce)) => {
                    if nonce.len() == 8 && sealed.len() >= 8 {
                        let tag = sealed.subrange(0, 8);
                        let body = sealed.subrange(8, sealed.len() as int);
                        if tag == seal_tag(key, body) {
                            Some(xor_stream(seal_seed(key, nonce), body))
                        } else {
                            None
                        }
                    } else {
                        None
                    }
                },
                _ => None,
            }
        },
    }
}

/// Envelope text is ASCII: base64 on both sides of the separator.
pub proof fn lemma_envelope_ascii(key: u64, plain: Seq<u8>)
    ensures
        crate::text::all_ascii(envelope_text(key, plain)),
{
    crate::b64::lemma_b64_encode_ascii(sealed_bytes(key, plain));
    crate::b64::lemma_b64_encode_ascii(seal_nonce(key, plain));
    crate::text::lemma_all_ascii_concat(b64_encode(sealed_bytes(key, plain)), seq![BAR]);
    crate::text::lemma_all_ascii_concat(
        b64_encode(sealed_bytes(key, plain)) + seq![BAR],
        b64_encode(seal_nonce(key, plain)),
    );
}

/// The first separator of an envelope text sits right after the sealed
/// part, whose base64 never contains one.
proof fn lemma_bar_after(s: Seq<u8>, a: Seq<u8>, i: int)
    requires
        0 <= i <= a.len(),
        a.len() < s.len(),
        forall|k: int| 0 <= k < a.len() ==> #[trigger] a[k] != BAR,
        forall|k: int| 0 <= k < a.len() ==> #[trigger] s[k] == a[k],
        s[a.len() as int] == BAR,
    ensures
        bar_position(s, i) == Some(a.len() as int),
    decreases a.len() - i,
{
    if i < a.len() {
        assert(s[i] != BAR);
        lemma_bar_after(s, a, i + 1);
    }
}

/// Opening an envelope sealed under the same key gives the plaintext back.
#[verifier::rlimit(100)]
#[verifier::spinoff_prover]
pub proof fn lemma_envelope_round_trip(key: u64, plain: Seq<u8>)
    ensures
        open_envelope(key, envelope_text(key, plain)) == Some(plain),
{
    let nonce = seal_nonce(key, plain);
    let seed = seal_seed(key, nonce);
    let body = xor_stream(seed, plain);
    let tag = seal_tag(key, body);
    let sealed = sealed_bytes(key, plain);
    assert(sealed == tag + body);
    let front = b64_encode(sealed);
    let back = b64_encode(nonce);
    let s = envelope_text(key, plain);
    assert(s == (front + seq![BAR]) + back);
    crate::b64::lemma_b64_encode_no_bar(sealed);
    assert(forall|k: int| 0 <= k < front.len() ==> #[trigger] s[k] == front[k]);
    assert(s[front.len() as int] == BAR);
    lemma_bar_after(s, front, 0);
    let bar = front.len() as int;
    assert(s.subrange(0, bar) =~= front);
    assert(s.subrange(bar + 1, s.len() as int) =~= back);
    crate::b64::lemma_b64_round_trip(sealed);
    crate::b64::lemma_b64_round_trip(nonce);
    assert(nonce.len() == 8);
    assert(sealed.len() >= 8) by {
        assert(tag.len() == 8);
    }
    assert(sealed.subrange(0, 8) =~= tag);
    assert(sealed.subrange(8, sealed.len() as int) =~= body);
    lemma_xor_stream_involution(seed, plain);
}

fn xor_stream_exec(seed: u64, s: &[u8]) -> (v: Vec<u8>)
    ensures
        v@ == xor_stream(seed, s@),
{
    let mut out: Vec<u8> = Vec::new();
    let mut state: u64 = seed;
    let mut i: usize = 0;
    while i < s.len()
        invariant
            0 <= i <= s@.len(),
            state == stream_state(seed, i as nat),
            out@.len() == i,
            forall|k: int| 0 <= k < i ==> out@[k] == s@[k] ^ stream_byte(seed, k as nat),
        decreases s@.len() - i,
    {
        let next = crate::digest::digest_step_exec(state, STREAM_STEP);
        out.push(s[i] ^ ((next & 0xff) as u8));
        state = next;
        i = i + 1;
    }
    assert(out@ =~= xor_stream(seed, s@));
    out
}

/// Seal a plaintext under a key: deterministic, content-derived nonce,
/// keyed stream cipher, keyed tag.
pub fn seal(key: u64, plain: &[u8]) -> (r: Vec<u8>)
    ensures
        r@ == envelope_text(key, plain@),
{
    let nonce = le_bytes_vec(keyed_digest_bytes(key, plain));
    let seed = keyed_digest_bytes(key, nonce.as_slice());
    let body = xor_stream_exec(seed, plain);
    let tag = le_bytes_vec(keyed_digest_bytes(key ^ TAG_TWEAK, body.as_slice()));
    let mut sealed = tag;
    let mut body_tail = body;
    sealed.append(&mut body_tail);
    assert(sealed@ =~= sealed_bytes(key, plain@));
    let mut out = encode(sealed.as_slice());
    out.push(BAR);
    let mut nonce_text = encode(nonce.as_slice());
    out.append(&mut nonce_text);
    assert(out@ =~= envelope_text(key, plain@));
    out
}

fn bytes_equal(a: &[u8], b: &[u8]) -> (r: bool)
    ensures
        r == (a@ == b@),
{
    if a.len() != b.len() {
        return false;
    }
    let mut i: usize = 0;
    while i < a.len()
        invariant
            0 <= i <= a@.len(),
            a@.len() == b@.len(),
            forall|t: int| 0 <= t < i ==> a@[t] == #[trigger] b@[t],
        decreases a@.len() - i,
    {
        if a[i] != b[i] {
            return false;
        }
        i = i + 1;
    }
    proof {
        assert(a@ =~= b@);
    }
    true
}

pub(crate) fn find_bar(s: &[u8]) -> (r: Option<usize>)
    ensures
        match r {
            Some(i) => bar_position(s@, 0) == Some(i as int) && i < s@.len(),
            None => bar_position(s@, 0) is None,
        },
{
    let mut i: usize = 0;
    while i < s.len()
        invariant
            0 <= i <= s@.len(),
            bar_position(s@, 0) == bar_position(s@, i as int),
        decreases s@.len() - i,
    {
        if s[i] == BAR {
            return Some(i);
        }
        i = i + 1;
    }
    None
}

/// Open an envelope under a key; mirrors `open_envelope` exactly.
pub fn unseal(key: u64, s: &[u8]) -> (r: Option<Vec<u8>>)
    ensures
        match r {
            Some(v) => open_envelope(key, s@) == Some(v@),
            None => open_envelope(key, s@) is None,
        },
{
    let bar = match find_bar(s) {
        Some(i) => i,
        None => {
            return None;
        },
    };
    let (front, rest) = s.split_at(bar);
    let back_with_bar = rest;
    proof {
        assert(front@ =~= s@.subrange(0, bar as int));
        assert(back_with_bar@ =~= s@.subrange(bar as int, s@.len() as int));
    }
    let back = back_with_bar.split_at(1).1;
    proof {
        assert(back@ =~= s@.subrange(bar as int + 1, s@.len() as int));
    }
    let sealed = match decode(front) {
        Some(v) => v,
        None => {
            return None;
        },
    };
    let nonce = match decode(back) {
        Some(v) => v,
        None => {
            return None;
        },
    };
    if nonce.len() != 8 || sealed.len() < 8 {
        return None;
    }
    let (tag, body) = sealed.as_slice().split_at(8);
    proof {
        assert(tag@ =~= sealed@.subrange(0, 8));
        assert(body@ =~= sealed@.subrange(8, sealed@.len() as int));
    }
    let expected_tag = le_bytes_vec(keyed_digest_bytes(key ^ TAG_TWEAK, body));
    if !bytes_equal(tag, expected_tag.as_slice()) {
        return None;
    }
    assert(tag@ == seal_tag(key, body@));
    let seed = keyed_digest_bytes(key, nonce.as_slice());
    let plain = xor_stream_exec(seed, body);
    Some(plain)
}

} // verus!
