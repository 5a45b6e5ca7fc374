//! The trust-chain verifier.
//!
//! Five gates, each hard, first failure short-circuiting: the algorithm the
//! token names must be the one the verifier expects; the license key and the
//! root signature must be present; the root signature must certify the
//! license key under the root key; the token signature must cover the
//! canonical core under the license key; and the usage chain must be an
//! unbroken, correctly signed sequence whose length the token's counter
//! matches. Only full success yields a valid result.

use vstd::prelude::*;

use crate::digest::{digest_bytes, keyed_digest, keyed_digest_bytes, le_bytes_of, signature_ok};
use crate::token::{
    chain_valid, entry_core_bytes, entry_core_vec, entry_vec, expected_hash_prev,
    token_core_bytes, token_core_vec, SignatureAlgorithm, Token, TokenModel,
};

verus! {

/// Gate one: the token names the algorithm the verifier expects.
pub open spec fn gate_algorithm(m: TokenModel, expected: SignatureAlgorithm) -> bool {
    m.signature_algorithm == expected
}

/// Gate two: the trust-chain fields are present (a missing key or signature
/// is carried as zero).
pub open spec fn gate_fields(m: TokenModel) -> bool {
    m.license_public_key != 0 && m.root_signature != 0
}

/// Gate three: the root authority certified the license key.
pub open spec fn gate_root(m: TokenModel, root_key: u64) -> bool {
    signature_ok(root_key, le_bytes_of(m.license_public_key), m.root_signature)
}

/// Gate four: the token signature covers the canonical core.
pub open spec fn gate_token_signature(m: TokenModel) -> bool {
    signature_ok(m.license_public_key, token_core_bytes(m), m.signature)
}

/// Gate five: the usage chain is unbroken and the counter matches it.
pub open spec fn gate_state_chain(m: TokenModel) -> bool {
    m.state_index == m.usage_chain.len() && chain_valid(m.license_public_key, m.usage_chain)
}

/// Full trust-chain validity: all five gates.
pub open spec fn trust_chain_ok(m: TokenModel, root_key: u64, expected: SignatureAlgorithm)
    -> bool {
    &&& gate_algorithm(m, expected)
    &&& gate_fields(m)
    &&& gate_root(m, root_key)
    &&& gate_token_signature(m)
    &&& gate_state_chain(m)
}

/// Why a verification or usage operation failed.
#[derive(Clone, Copy, Debug, PartialEq, Eq, Structural)]
pub enum FailureReason {
    AlgorithmMismatch,
    MissingField,
    RootSignatureInvalid,
    TokenSignatureInvalid,
    StateChainInvalid,
    HolderMismatch,
    Expired,
    ElectionLost,
    NoToken,
}

/// The human-readable detail for each failure.
pub open spec fn detail_of(f: FailureReason) -> Seq<char> {
    match f {
        FailureReason::AlgorithmMismatch => "algorithm mismatch"@,
        FailureReason::MissingField => "missing trust-chain field"@,
        FailureReason::RootSignatureInvalid => "root signature invalid"@,
        FailureReason::TokenSignatureInvalid => "token signature invalid"@,
        FailureReason::StateChainInvalid => "state chain invalid"@,
        FailureReason::HolderMismatch => "holder mismatch"@,
        FailureReason::Expired => "expired"@,
        FailureReason::ElectionLost => "election lost"@,
        FailureReason::NoToken => "no token"@,
    }
}

/// The first gate that fails, if any, in gate order.
pub open spec fn first_gate_failure(m: TokenModel, root_key: u64, expected: SignatureAlgorithm)
    -> Option<FailureReason> {
    if !gate_algorithm(m, expected) {
        Some(FailureReason::AlgorithmMismatch)
    } else if !gate_fields(m) {
        Some(FailureReason::MissingField)
    } else if !gate_root(m, root_key) {
        Some(FailureReason::RootSignatureInvalid)
    } else if !gate_token_signature(m) {
        Some(FailureReason::TokenSignatureInvalid)
    } else if !gate_state_chain(m) {
        Some(FailureReason::StateChainInvalid)
    } else {
        None
    }
}

/// A trust chain passes as a whole exactly when no gate fails; when one
/// fails, the reported reason is the first failing gate in gate order.
pub proof fn lemma_trust_chain_gates(m: TokenModel, root_key: u64, expected: SignatureAlgorithm)
    ensures
        trust_chain_ok(m, root_key, expected) <==> first_gate_failure(m, root_key, expected)
            is None,
        !gate_algorithm(m, expected) ==> first_gate_failure(m, root_key, expected) == Some(
            FailureReason::AlgorithmMismatch,
        ),
{
}

/// The three usage-failure details are pairwise distinct texts, so a
/// reported detail identifies its cause.
pub proof fn lemma_usage_details_distinct()
    ensures
        detail_of(FailureReason::HolderMismatch) != detail_of(FailureReason::StateChainInvalid),
        detail_of(FailureReason::Expired) != detail_of(FailureReason::StateChainInvalid),
        detail_of(FailureReason::HolderMismatch) != detail_of(FailureReason::Expired),
{
    reveal_strlit("holder mismatch");
    reveal_strlit("expired");
    reveal_strlit("state chain invalid");
    assert(("holder mismatch")@.len() == 15);
    assert(("expired")@.len() == 7);
    assert(("state chain invalid")@.len() == 19);
}

/// Outcome of a verification or usage operation: validity and, on failure, a
/// human-readable detail.
#[derive(Clone, Debug)]
pub struct VerificationResult {
    pub valid: bool,
    pub error_message: String,
}

/// The detail text of a failure.
pub fn failure_detail(f: FailureReason) -> (r: String)
    ensures
        r@ == detail_of(f),
{
    match f {
        FailureReason::AlgorithmMismatch => "algorithm mismatch".to_owned(),
        FailureReason::MissingField => "missing trust-chain field".to_owned(),
        FailureReason::RootSignatureInvalid => "root signature invalid".to_owned(),
        FailureReason::TokenSignatureInvalid => "token signature invalid".to_owned(),
        FailureReason::StateChainInvalid => "state chain invalid".to_owned(),
        FailureReason::HolderMismatch => "holder mismatch".to_owned(),
        FailureReason::Expired => "expired".to_owned(),
        FailureReason::ElectionLost => "election lost".to_owned(),
        FailureReason::NoToken => "no token".to_owned(),
    }
}

/// A result that reports failure `f`.
pub fn failed_result(f: FailureReason) -> (r: VerificationResult)
    ensures
        !r.valid,
        r.error_message@ == detail_of(f),
{
    VerificationResult { valid: false, error_message: failure_detail(f) }
}

/// A result that reports success.
pub fn valid_result() -> (r: VerificationResult)
    ensures
        r.valid,
        r.error_message@ == Seq::<char>::empty(),
{
    VerificationResult { valid: true, error_message: String::new() }
}

/// Whether the usage chain of `t` is unbroken and correctly signed under the
/// token's license key, with the counter matching its length.
fn check_state_chain(t: &Token) -> (r: bool)
    ensures
        r == gate_state_chain(t@),
{
    if t.state_index != t.usage_chain.len() as u64 {
        return false;
    }
    let ghost c = t@.usage_chain;
    let ghost key = t@.license_public_key;
    let mut i: usize = 0;
    while i < t.usage_chain.len()
        invariant
            0 <= i <= c.len(),
            c == t@.usage_chain,
            t.usage_chain@.len() == c.len(),
            forall|k: int| 0 <= k < c.len() ==> (#[trigger] t.usage_chain@[k])@ == c[k],
            key == t@.license_public_key,
            forall|k: int| 0 <= k < i ==> {
                &&& (#[trigger] c[k]).seq_no == k
                &&& c[k].hash_prev == expected_hash_prev(c, k)
                &&& c[k].signature == keyed_digest(key, entry_core_bytes(c[k]))
            },
        decreases c.len() - i,
    {
        let entry = &t.usage_chain[i];
        if entry.seq_no != i as u64 {
            proof {
                assert(c[i as int].seq_no != i as int);
                assert(!chain_valid(key, c));
            }
            return false;
        }
        let expected_prev: u64 = if i == 0 {
            crate::digest::DIGEST_SEED
        } else {
            let prev_bytes = entry_vec(&t.usage_chain[i - 1]);
            digest_bytes(prev_bytes.as_slice())
        };
        assert(expected_prev == expected_hash_prev(c, i as int));
        if entry.hash_prev != expected_prev {
            proof {
                assert(!chain_valid(key, c));
            }
            return false;
        }
        let core = entry_core_vec(entry);
        let sig = keyed_digest_bytes(t.license_public_key, core.as_slice());
        if entry.signature != sig {
            proof {
                assert(!chain_valid(key, c));
            }
            return false;
        }
        i = i + 1;
    }
    true
}

/// Run the five gates in order against the token, the configured root public
/// key and the expected algorithm. The result is valid exactly when the
/// whole trust chain holds; otherwise the detail names the first failing
/// gate.
pub fn verify_trust_chain(t: &Token, root_key: u64, expected: SignatureAlgorithm) -> (r:
    VerificationResult)
    ensures
        r.valid <==> trust_chain_ok(t@, root_key, expected),
        !r.valid ==> (first_gate_failure(t@, root_key, expected) matches Some(f)
            && r.error_message@ == detail_of(f)),
{
    if !(t.signature_algorithm == expected) {
        return failed_result(FailureReason::AlgorithmMismatch);
    }
    if t.license_public_key == 0 || t.root_signature == 0 {
        return failed_result(FailureReason::MissingField);
    }
    let key_bytes = crate::digest::le_bytes_vec(t.license_public_key);
    let root_check = keyed_digest_bytes(root_key, key_bytes.as_slice());
    if t.root_signature != root_check {
        return failed_result(FailureReason::RootSignatureInvalid);
    }
    let core = token_core_vec(t);
    let token_check = keyed_digest_bytes(t.license_public_key, core.as_slice());
    if t.signature != token_check {
        return failed_result(FailureReason::TokenSignatureInvalid);
    }
    if !check_state_chain(t) {
        return failed_result(FailureReason::StateChainInvalid);
    }
    valid_result()
}

} // verus!
