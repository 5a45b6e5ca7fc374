//! The license token and its hash-chained usage accounting.
//!
//! A token carries identity fields, lifetime, the per-license public key with
//! the root authority's signature over it, a token-level signature over the
//! canonical field encoding, and an append-only chain of usage entries. Each
//! entry is linked to its predecessor by a digest (`hash_prev`) and signed
//! under the license key; `state_index` always equals the chain length.

use vstd::prelude::*;

use crate::decimal::{dec_i64, dec_nat, render_i64, render_u64};
use crate::digest::{digest_bytes, digest_of, keyed_digest, keyed_digest_bytes, DIGEST_SEED};
use crate::text::wf_text;
use vstd::slice::slice_to_vec;
use vstd::string::StringSliceAdditionalSpecFns;

verus! {

/// Separator between fields inside a canonical signing encoding. Fields of
/// variable length are length-prefixed, so the encoding is self-delimiting
/// whatever bytes the text holds.
pub const FIELD_SEP: u8 = 30;

/// The signature algorithms a token may name; the verifier is configured
/// with the one it expects and refuses the others.
#[derive(Clone, Copy, Debug, PartialEq, Eq, Structural)]
pub enum SignatureAlgorithm {
    Rsa,
    Ed25519,
    Sm2,
}

/// One usage-accounting record of the state chain.
#[derive(Clone, Debug)]
pub struct UsageEntry {
    /// Position in the chain, assigned by the model, never by the caller.
    pub seq_no: u64,
    /// Timestamp assigned at append time.
    pub time: i64,
    /// Caller-supplied business payload.
    pub action: Vec<u8>,
    /// Caller-supplied business payload.
    pub params: Vec<u8>,
    /// Digest of the previous entry's canonical encoding, or the genesis
    /// digest for the first entry.
    pub hash_prev: u64,
    /// Signature over the entry's canonical core under the license key.
    pub signature: u64,
}

/// Mathematical model of a usage entry.
#[verifier::ext_equal]
pub ghost struct EntryModel {
    pub seq_no: u64,
    pub time: i64,
    pub action: Seq<u8>,
    pub params: Seq<u8>,
    pub hash_prev: u64,
    pub signature: u64,
}

impl View for UsageEntry {
    type V = EntryModel;

    open spec fn view(&self) -> EntryModel {
        EntryModel {
            seq_no: self.seq_no,
            time: self.time,
            action: self.action@,
            params: self.params@,
            hash_prev: self.hash_prev,
            signature: self.signature,
        }
    }
}

/// The license token.
#[derive(Clone, Debug)]
pub struct Token {
    /// Opaque unique identifier, immutable after issuance.
    pub token_id: Vec<u8>,
    /// Product / license family, immutable.
    pub license_code: Vec<u8>,
    /// Consuming application, immutable.
    pub app_id: Vec<u8>,
    /// Device currently authorized to use the token; zero when unbound.
    pub holder_device_id: u64,
    /// Unix timestamp of issuance.
    pub issue_time: i64,
    /// Unix expiry timestamp; zero means the token never expires.
    pub expire_time: i64,
    /// Algorithm named by the token; must match the verifier's expectation.
    pub signature_algorithm: SignatureAlgorithm,
    /// Per-license signing key, certified by the root key; zero when absent.
    pub license_public_key: u64,
    /// Root authority's signature over the license key; zero when absent.
    pub root_signature: u64,
    /// Signature over the token's canonical fields under the license key.
    pub signature: u64,
    /// Number of accepted usage appends; always the chain length.
    pub state_index: u64,
    /// Append-only, hash-linked usage chain.
    pub usage_chain: Vec<UsageEntry>,
}

/// Mathematical model of a token.
#[verifier::ext_equal]
pub ghost struct TokenModel {
    pub token_id: Seq<u8>,
    pub license_code: Seq<u8>,
    pub app_id: Seq<u8>,
    pub holder_device_id: u64,
    pub issue_time: i64,
    pub expire_time: i64,
    pub signature_algorithm: SignatureAlgorithm,
    pub license_public_key: u64,
    pub root_signature: u64,
    pub signature: u64,
    pub state_index: u64,
    pub usage_chain: Seq<EntryModel>,
}

impl View for Token {
    type V = TokenModel;

    open spec fn view(&self) -> TokenModel {
        TokenModel {
            token_id: self.token_id@,
            license_code: self.license_code@,
            app_id: self.app_id@,
            holder_device_id: self.holder_device_id,
            issue_time: self.issue_time,
            expire_time: self.expire_time,
            signature_algorithm: self.signature_algorithm,
            license_public_key: self.license_public_key,
            root_signature: self.root_signature,
            signature: self.signature,
            state_index: self.state_index,
            usage_chain: self.usage_chain@.map_values(|e: UsageEntry| e@),
        }
    }
}

/// Text an entry carries is opaque: any bytes except NUL.
pub open spec fn wf_entry_text(e: EntryModel) -> bool {
    wf_text(e.action) && wf_text(e.params)
}

/// Text a token carries is opaque: any bytes except NUL.
pub open spec fn wf_token_text(m: TokenModel) -> bool {
    &&& wf_text(m.token_id)
    &&& wf_text(m.license_code)
    &&& wf_text(m.app_id)
    &&& forall|i: int| 0 <= i < m.usage_chain.len() ==> wf_entry_text(#[trigger] m.usage_chain[i])
}

/// A length-prefixed text field of a canonical signing encoding.
pub open spec fn text_field_bytes(s: Seq<u8>) -> Seq<u8> {
    dec_nat(s.len()) + seq![FIELD_SEP] + s
}

/// Canonical signing core of an entry: every field except the signature.
pub open spec fn entry_core_bytes(e: EntryModel) -> Seq<u8> {
    dec_nat(e.seq_no as nat) + seq![FIELD_SEP] + dec_i64(e.time) + seq![FIELD_SEP]
        + text_field_bytes(e.action) + seq![FIELD_SEP] + text_field_bytes(e.params)
        + seq![FIELD_SEP] + dec_nat(e.hash_prev as nat)
}

/// Canonical encoding of a whole entry: the core followed by its signature.
/// `hash_prev` of the next entry is the digest of this encoding.
pub open spec fn entry_bytes(e: EntryModel) -> Seq<u8> {
    entry_core_bytes(e) + seq![FIELD_SEP] + dec_nat(e.signature as nat)
}

/// Canonical encoding of a chain, entry encodings in order.
pub open spec fn chain_bytes(c: Seq<EntryModel>) -> Seq<u8>
    decreases c.len(),
{
    if c.len() == 0 {
        Seq::empty()
    } else {
        chain_bytes(c.drop_last()) + entry_bytes(c.last()) + seq![FIELD_SEP]
    }
}

/// Canonical signing core of a token: every field except the token-level
/// signature, the usage chain included.
pub open spec fn token_core_bytes(m: TokenModel) -> Seq<u8> {
    text_field_bytes(m.token_id) + seq![FIELD_SEP] + text_field_bytes(m.license_code)
        + seq![FIELD_SEP] + text_field_bytes(m.app_id) + seq![FIELD_SEP]
        + dec_nat(m.holder_device_id as nat) + seq![FIELD_SEP] + dec_i64(m.issue_time)
        + seq![FIELD_SEP] + dec_i64(m.expire_time) + seq![FIELD_SEP] + algorithm_bytes(
        m.signature_algorithm,
    ) + seq![FIELD_SEP] + dec_nat(m.license_public_key as nat) + seq![FIELD_SEP] + dec_nat(
        m.root_signature as nat,
    ) + seq![FIELD_SEP] + dec_nat(m.state_index as nat) + seq![FIELD_SEP] + chain_bytes(
        m.usage_chain,
    )
}

/// Wire name of an algorithm.
pub open spec fn algorithm_bytes(a: SignatureAlgorithm) -> Seq<u8> {
    match a {
        SignatureAlgorithm::Rsa => "RSA".spec_bytes(),
        SignatureAlgorithm::Ed25519 => "Ed25519".spec_bytes(),
        SignatureAlgorithm::Sm2 => "SM2".spec_bytes(),
    }
}

/// Digest that the first entry of a chain links back to.
pub open spec fn genesis_digest() -> u64 {
    DIGEST_SEED
}

/// The digest an entry at position `i` must carry in `hash_prev`.
pub open spec fn expected_hash_prev(c: Seq<EntryModel>, i: int) -> u64 {
    if i == 0 {
        genesis_digest()
    } else {
        digest_of(entry_bytes(c[i - 1]))
    }
}

/// An unbroken, correctly signed chain under the given license key: every
/// entry sits at its own index, links to the digest of its predecessor's
/// encoding, and carries a valid signature over its core.
pub open spec fn chain_valid(key: u64, c: Seq<EntryModel>) -> bool {
    forall|i: int| 0 <= i < c.len() ==> {
        &&& (#[trigger] c[i]).seq_no == i
        &&& c[i].hash_prev == expected_hash_prev(c, i)
        &&& c[i].signature == keyed_digest(key, entry_core_bytes(c[i]))
    }
}

/// Append a length-prefixed text field.
fn append_text_field(out: &mut Vec<u8>, s: &[u8])
    ensures
        final(out)@ == old(out)@ + text_field_bytes(s@),
{
    let ghost start = out@;
    let mut d = render_u64(s.len() as u64);
    out.append(&mut d);
    out.push(FIELD_SEP);
    out.extend_from_slice(s);
    assert(out@ =~= start + text_field_bytes(s@));
}

fn append_sep_u64(out: &mut Vec<u8>, n: u64)
    ensures
        final(out)@ == old(out)@ + seq![FIELD_SEP] + dec_nat(n as nat),
{
    out.push(FIELD_SEP);
    let mut d = render_u64(n);
    out.append(&mut d);
}

fn append_sep_i64(out: &mut Vec<u8>, n: i64)
    ensures
        final(out)@ == old(out)@ + seq![FIELD_SEP] + dec_i64(n),
{
    out.push(FIELD_SEP);
    let mut d = render_i64(n);
    out.append(&mut d);
}

/// Canonical signing core of an entry, as bytes.
pub fn entry_core_vec(e: &UsageEntry) -> (v: Vec<u8>)
    ensures
        v@ == entry_core_bytes(e@),
{
    let mut out = render_u64(e.seq_no);
    append_sep_i64(&mut out, e.time);
    out.push(FIELD_SEP);
    append_text_field(&mut out, e.action.as_slice());
    out.push(FIELD_SEP);
    append_text_field(&mut out, e.params.as_slice());
    append_sep_u64(&mut out, e.hash_prev);
    assert(out@ =~= entry_core_bytes(e@));
    out
}

/// Canonical encoding of a whole entry, as bytes.
pub fn entry_vec(e: &UsageEntry) -> (v: Vec<u8>)
    ensures
        v@ == entry_bytes(e@),
{
    let mut out = entry_core_vec(e);
    append_sep_u64(&mut out, e.signature);
    assert(out@ =~= entry_bytes(e@));
    out
}

fn algorithm_name(a: SignatureAlgorithm) -> (r: &'static str)
    ensures
        r.spec_bytes() == algorithm_bytes(a),
{
    match a {
        SignatureAlgorithm::Rsa => "RSA",
        SignatureAlgorithm::Ed25519 => "Ed25519",
        SignatureAlgorithm::Sm2 => "SM2",
    }
}

/// Canonical signing core of a token, as bytes.
pub fn token_core_vec(t: &Token) -> (v: Vec<u8>)
    ensures
        v@ == token_core_bytes(t@),
{
    let mut out: Vec<u8> = Vec::new();
    append_text_field(&mut out, t.token_id.as_slice());
    out.push(FIELD_SEP);
    append_text_field(&mut out, t.license_code.as_slice());
    out.push(FIELD_SEP);
    append_text_field(&mut out, t.app_id.as_slice());
    append_sep_u64(&mut out, t.holder_device_id);
    append_sep_i64(&mut out, t.issue_time);
    append_sep_i64(&mut out, t.expire_time);
    out.push(FIELD_SEP);
    out.extend_from_slice(algorithm_name(t.signature_algorithm).as_bytes());
    append_sep_u64(&mut out, t.license_public_key);
    append_sep_u64(&mut out, t.root_signature);
    append_sep_u64(&mut out, t.state_index);
    out.push(FIELD_SEP);
    let ghost head = out@;
    let chain = t.usage_chain.as_slice();
    let mut i: usize = 0;
    assert(t@.usage_chain.take(0) =~= Seq::<EntryModel>::empty());
    while i < chain.len()
        invariant
            0 <= i <= chain@.len(),
            chain@ == t.usage_chain@,
            out@ == head + chain_bytes(t@.usage_chain.take(i as int)),
        decreases chain@.len() - i,
    {
        let mut piece = entry_vec(&chain[i]);
        out.append(&mut piece);
        out.push(FIELD_SEP);
        proof {
            let c = t@.usage_chain;
            assert(c.take(i as int + 1).drop_last() =~= c.take(i as int));
            assert(c.take(i as int + 1).last() == c[i as int]);
            assert(chain@[i as int]@ == c[i as int]);
            assert(out@ =~= head + chain_bytes(c.take(i as int + 1)));
        }
        i = i + 1;
    }
    proof {
        assert(t@.usage_chain.take(t@.usage_chain.len() as int) =~= t@.usage_chain);
        assert(head + chain_bytes(t@.usage_chain) =~= token_core_bytes(t@));
    }
    out
}

/// Whether every text field of the token is free of NUL bytes.
pub fn check_token_text(t: &Token) -> (r: bool)
    ensures
        r == wf_token_text(t@),
{
    if !crate::text::check_wf_text(t.token_id.as_slice()) {
        return false;
    }
    if !crate::text::check_wf_text(t.license_code.as_slice()) {
        return false;
    }
    if !crate::text::check_wf_text(t.app_id.as_slice()) {
        return false;
    }
    let ghost c = t@.usage_chain;
    let mut i: usize = 0;
    while i < t.usage_chain.len()
        invariant
            0 <= i <= c.len(),
            c == t@.usage_chain,
            t.usage_chain@.len() == c.len(),
            forall|k: int| 0 <= k < c.len() ==> (#[trigger] t.usage_chain@[k])@ == c[k],
            forall|k: int| 0 <= k < i ==> wf_entry_text(#[trigger] c[k]),
        decreases c.len() - i,
    {
        let entry = &t.usage_chain[i];
        if !crate::text::check_wf_text(entry.action.as_slice()) {
            proof {
                assert(!wf_entry_text(c[i as int]));
            }
            return false;
        }
        if !crate::text::check_wf_text(entry.params.as_slice()) {
            proof {
                assert(!wf_entry_text(c[i as int]));
            }
            return false;
        }
        i = i + 1;
    }
    true
}

/// The model after binding the token to a device: the holder replaced and
/// the token re-signed, every other field untouched.
pub open spec fn with_holder_bound(m: TokenModel, dev: u64) -> TokenModel {
    let m2 = TokenModel { holder_device_id: dev, signature: 0, ..m };
    TokenModel { signature: keyed_digest(m.license_public_key, token_core_bytes(m2)), ..m2 }
}

/// Binding changes no text field, so well-formed text is preserved.
pub proof fn lemma_bind_preserves_text(m: TokenModel, dev: u64)
    requires
        wf_token_text(m),
    ensures
        wf_token_text(with_holder_bound(m, dev)),
{
}

/// An append adds one well-formed entry and changes no other text field.
pub proof fn lemma_append_preserves_text(
    m: TokenModel,
    action: Seq<u8>,
    params: Seq<u8>,
    now: i64,
)
    requires
        wf_token_text(m),
        wf_text(action),
        wf_text(params),
    ensures
        wf_token_text(with_usage_appended(m, action, params, now)),
{
    let m2 = with_usage_appended(m, action, params, now);
    assert(forall|i: int| 0 <= i < m2.usage_chain.len() ==> wf_entry_text(
        #[trigger] m2.usage_chain[i],
    )) by {
        assert(forall|i: int| 0 <= i < m.usage_chain.len() ==> m2.usage_chain[i]
            == #[trigger] m.usage_chain[i]);
        assert(m2.usage_chain.last() == appended_entry(m, action, params, now));
    }
}

/// The entry a usage append creates on top of model `m`.
pub open spec fn appended_entry(m: TokenModel, action: Seq<u8>, params: Seq<u8>, now: i64)
    -> EntryModel {
    let partial = EntryModel {
        seq_no: m.state_index,
        time: now,
        action: action,
        params: params,
        hash_prev: if m.usage_chain.len() == 0 {
            genesis_digest()
        } else {
            digest_of(entry_bytes(m.usage_chain.last()))
        },
        signature: 0,
    };
    EntryModel { signature: keyed_digest(m.license_public_key, entry_core_bytes(partial)), ..partial }
}

/// The model after a usage append: the new entry pushed, the counter up by
/// one, the token re-signed, every other field untouched.
pub open spec fn with_usage_appended(m: TokenModel, action: Seq<u8>, params: Seq<u8>, now: i64)
    -> TokenModel {
    let e = appended_entry(m, action, params, now);
    let m2 = TokenModel {
        state_index: (m.state_index + 1) as u64,
        usage_chain: m.usage_chain.push(e),
        signature: 0,
        ..m
    };
    TokenModel { signature: keyed_digest(m.license_public_key, token_core_bytes(m2)), ..m2 }
}

/// Append one usage entry: assigns the sequence number and predecessor
/// digest, signs the entry, extends the chain, and re-signs the token.
pub fn append_usage(t: &mut Token, action: &[u8], params: &[u8], now: i64)
    requires
        old(t)@.state_index < u64::MAX,
        old(t)@.usage_chain.len() == old(t)@.state_index,
    ensures
        final(t)@ == with_usage_appended(old(t)@, action@, params@, now),
{
    let hash_prev: u64 = if t.usage_chain.len() == 0 {
        proof {
            assert(digest_of(Seq::<u8>::empty()) == DIGEST_SEED);
        }
        DIGEST_SEED
    } else {
        let last_bytes = entry_vec(&t.usage_chain[t.usage_chain.len() - 1]);
        proof {
            assert(t.usage_chain@[t.usage_chain@.len() - 1]@ == t@.usage_chain.last());
        }
        digest_bytes(last_bytes.as_slice())
    };
    let mut entry = UsageEntry {
        seq_no: t.state_index,
        time: now,
        action: slice_to_vec(action),
        params: slice_to_vec(params),
        hash_prev: hash_prev,
        signature: 0,
    };
    let core = entry_core_vec(&entry);
    entry.signature = keyed_digest_bytes(t.license_public_key, core.as_slice());
    proof {
        assert(entry@ == appended_entry(t@, action@, params@, now));
    }
    t.usage_chain.push(entry);
    t.state_index = t.state_index + 1;
    t.signature = 0;
    proof {
        assert(t@.usage_chain =~= old(t)@.usage_chain.push(
            appended_entry(old(t)@, action@, params@, now),
        ));
    }
    let core = token_core_vec(t);
    t.signature = keyed_digest_bytes(t.license_public_key, core.as_slice());
    proof {
        assert(t@ == with_usage_appended(old(t)@, action@, params@, now));
    }
}

} // verus!
