//! Laws the token lifecycle obeys, stated over the models and proved once
//! and for all. Election determinism lives beside the election
//! (`crate::election::lemma_election_deterministic`), and the verifier's
//! five-gates law beside the verifier
//! (`crate::trust::lemma_trust_chain_gates`).

use vstd::prelude::*;

use crate::digest::keyed_digest;
use crate::token::{
    appended_entry, chain_valid, entry_bytes, entry_core_bytes, expected_hash_prev,
    genesis_digest, token_core_bytes, wf_token_text, with_holder_bound, with_usage_appended,
    SignatureAlgorithm, TokenModel,
};
use crate::trust::{
    gate_algorithm, gate_fields, gate_root, gate_state_chain, gate_token_signature,
    trust_chain_ok,
};

verus! {

/// Recording usage is strictly append-only: the counter rises by exactly
/// one, the chain grows by exactly one entry, and every prior entry is
/// untouched — so `state_index == len(usage_chain)` is maintained.
pub proof fn lemma_record_usage_append_only(
    m: TokenModel,
    action: Seq<u8>,
    params: Seq<u8>,
    now: i64,
)
    requires
        m.state_index < u64::MAX,
    ensures
        with_usage_appended(m, action, params, now).state_index == m.state_index + 1,
        with_usage_appended(m, action, params, now).usage_chain.len() == m.usage_chain.len() + 1,
        forall|i: int| 0 <= i < m.usage_chain.len() ==> with_usage_appended(
            m,
            action,
            params,
            now,
        ).usage_chain[i] == #[trigger] m.usage_chain[i],
        m.state_index == m.usage_chain.len() ==> with_usage_appended(
            m,
            action,
            params,
            now,
        ).state_index == with_usage_appended(m, action, params, now).usage_chain.len(),
{
}

/// The fields an append leaves alone.
pub proof fn lemma_record_usage_preserves_identity(
    m: TokenModel,
    action: Seq<u8>,
    params: Seq<u8>,
    now: i64,
)
    ensures
        with_usage_appended(m, action, params, now).token_id == m.token_id,
        with_usage_appended(m, action, params, now).license_code == m.license_code,
        with_usage_appended(m, action, params, now).app_id == m.app_id,
        with_usage_appended(m, action, params, now).holder_device_id == m.holder_device_id,
        with_usage_appended(m, action, params, now).issue_time == m.issue_time,
        with_usage_appended(m, action, params, now).expire_time == m.expire_time,
        with_usage_appended(m, action, params, now).signature_algorithm == m.signature_algorithm,
        with_usage_appended(m, action, params, now).license_public_key == m.license_public_key,
        with_usage_appended(m, action, params, now).root_signature == m.root_signature,
{
}

/// A token that verifies still verifies after a usage append: re-running
/// the offline verifier before and after a successful append succeeds both
/// times, with the counter up by one and the old entries byte-identical.
pub proof fn lemma_append_preserves_trust(
    m: TokenModel,
    root_key: u64,
    expected: SignatureAlgorithm,
    action: Seq<u8>,
    params: Seq<u8>,
    now: i64,
)
    requires
        trust_chain_ok(m, root_key, expected),
        m.state_index < u64::MAX,
    ensures
        trust_chain_ok(with_usage_appended(m, action, params, now), root_key, expected),
{
    let key = m.license_public_key;
    let c = m.usage_chain;
    let e = appended_entry(m, action, params, now);
    let m2 = with_usage_appended(m, action, params, now);
    assert(gate_algorithm(m2, expected));
    assert(gate_fields(m2));
    assert(gate_root(m2, root_key));
    assert(gate_token_signature(m2)) by {
        let half = TokenModel {
            state_index: (m.state_index + 1) as u64,
            usage_chain: c.push(e),
            signature: 0,
            ..m
        };
        assert(token_core_bytes(half) == token_core_bytes(m2));
    }
    assert(gate_state_chain(m2)) by {
        assert(m.state_index == c.len());
        assert(m2.usage_chain == c.push(e));
        assert(chain_valid(key, c.push(e))) by {
            assert forall|i: int| 0 <= i < c.push(e).len() implies {
                &&& (#[trigger] c.push(e)[i]).seq_no == i
                &&& c.push(e)[i].hash_prev == expected_hash_prev(c.push(e), i)
                &&& c.push(e)[i].signature == keyed_digest(key, entry_core_bytes(c.push(e)[i]))
            } by {
                if i < c.len() {
                    assert(c.push(e)[i] == c[i]);
                    assert(c[i].seq_no == i && c[i].hash_prev == expected_hash_prev(c, i)
                        && c[i].signature == keyed_digest(key, entry_core_bytes(c[i])));
                    if i > 0 {
                        assert(c.push(e)[i - 1] == c[i - 1]);
                        assert(expected_hash_prev(c.push(e), i) == expected_hash_prev(c, i));
                    }
                } else {
                    assert(c.push(e)[i] == e);
                    assert(e.seq_no == m.state_index && m.state_index == c.len());
                    if c.len() == 0 {
                        assert(e.hash_prev == genesis_digest());
                    } else {
                        assert(c.push(e)[i - 1] == c[i - 1]);
                        assert(c[c.len() - 1] == c.last());
                        assert(e.hash_prev == crate::digest::digest_of(entry_bytes(c.last())));
                    }
                    let partial = crate::token::EntryModel { signature: 0, ..e };
                    assert(entry_core_bytes(partial) == entry_core_bytes(e));
                    assert(e.signature == keyed_digest(key, entry_core_bytes(e)));
                }
            }
        }
    }
}

/// Binding is idempotent: binding a bound token to the same device again
/// changes nothing, and re-binding to any device twice equals binding once.
pub proof fn lemma_bind_idempotent(m: TokenModel, dev: u64)
    ensures
        with_holder_bound(with_holder_bound(m, dev), dev) == with_holder_bound(m, dev),
        m.holder_device_id == dev && gate_token_signature(m) ==> with_holder_bound(m, dev) == m,
{
    let b1 = with_holder_bound(m, dev);
    let b2 = with_holder_bound(b1, dev);
    let half1 = TokenModel { holder_device_id: dev, signature: 0, ..m };
    let half2 = TokenModel { holder_device_id: dev, signature: 0, ..b1 };
    assert(half1 =~= half2);
    assert(token_core_bytes(half1) == token_core_bytes(half2));
    assert(b2 =~= b1);
    if m.holder_device_id == dev && gate_token_signature(m) {
        assert(token_core_bytes(half1) == token_core_bytes(m));
        assert(b1.signature == m.signature);
        assert(b1 =~= m);
    }
}

/// A token that verifies still verifies after being bound to a device: the
/// chain, the keys and the root certification are untouched and the token
/// is re-signed over the new holder.
pub proof fn lemma_bind_preserves_trust(
    m: TokenModel,
    root_key: u64,
    expected: SignatureAlgorithm,
    dev: u64,
)
    requires
        trust_chain_ok(m, root_key, expected),
    ensures
        trust_chain_ok(with_holder_bound(m, dev), root_key, expected),
{
    let b = with_holder_bound(m, dev);
    let half = TokenModel { holder_device_id: dev, signature: 0, ..m };
    assert(gate_token_signature(b)) by {
        assert(token_core_bytes(half) == token_core_bytes(b));
    }
    assert(gate_state_chain(b)) by {
        assert(b.usage_chain == m.usage_chain);
    }
}

/// Corrupting a chain entry invalidates the whole token, as far as the
/// digest model can state it: replacing any one entry with one that sits at
/// the wrong index, links to the wrong predecessor digest, or whose
/// signature is not the keyed digest of its altered core breaks gate five.
/// That every byte-level alteration lands in this set is collision
/// resistance of the digest, which a 64-bit model cannot state; tests
/// exercise concrete alterations.
pub proof fn lemma_altered_entry_breaks_chain(
    key: u64,
    c: Seq<crate::token::EntryModel>,
    i: int,
    e: crate::token::EntryModel,
)
    requires
        0 <= i < c.len(),
        e.seq_no != i || e.hash_prev != expected_hash_prev(c.update(i, e), i) || e.signature
            != keyed_digest(key, entry_core_bytes(e)),
    ensures
        !chain_valid(key, c.update(i, e)),
{
    assert(c.update(i, e)[i] == e);
}

/// Single-device fallback: when no peer answered within the discovery
/// window, this device is the whole field and wins the election, so an
/// isolated activation proceeds unilaterally as coordinator.
pub proof fn lemma_isolated_device_wins(c: crate::client::ClientModel, peers: Seq<
    crate::election::Peer,
>)
    requires
        peers.len() == 0,
    ensures
        crate::election::election_winner(
            crate::client::DecentriLicenseClient::participants(c, peers),
        ).device_id == c.device_id,
{
    let me = crate::client::DecentriLicenseClient::self_peer(c);
    assert(crate::client::DecentriLicenseClient::participants(c, peers) =~= seq![me]);
}

/// Hand-off round trip: a well-formed token exported as an encrypted
/// envelope under a product key is recovered, field for field, by an import
/// into any session configured with the same key.
pub proof fn lemma_export_import_round_trip(
    c: crate::client::ClientModel,
    m: TokenModel,
    alg: SignatureAlgorithm,
    key: u64,
)
    requires
        wf_token_text(m),
        c.product_key == Some((alg, key)),
    ensures
        crate::client::DecentriLicenseClient::import_outcome(
            c,
            crate::envelope::envelope_text(key, crate::codec::json_token(m)),
        ) == Ok::<TokenModel, crate::client::DecentriLicenseError>(m),
{
    let json = crate::codec::json_token(m);
    let text = crate::envelope::envelope_text(key, json);
    crate::envelope::lemma_envelope_round_trip(key, json);
    crate::codec::lemma_token_json_round_trip(m);
    assert(crate::envelope::bar_position(text, 0) is Some);
}

} // verus!
