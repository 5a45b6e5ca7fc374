//! Canonical JSON form of a token.
//!
//! The human-readable wire form is a JSON object with the token's fields in
//! a fixed order, string fields escaped as in [`crate::text`], integers in
//! canonical decimal, and the usage chain as an array of entry objects. The
//! serializer emits exactly this form; the parser accepts exactly this form
//! and mirrors its specification function clause for clause, so anything it
//! accepts is the canonical encoding of the token it returns.

use vstd::prelude::*;

use crate::decimal::{
    dec_i64, dec_nat, parse_i64_at, parse_u64_at, render_i64, render_u64, spec_parse_i64,
    spec_parse_u64,
};
use crate::text::{
    all_ascii, esc, escape_into, lemma_all_ascii_concat, lemma_lit_ascii, parse_text_at,
    spec_parse_text, wf_text, BACKSLASH, QUOTE,
};
use crate::token::{
    algorithm_bytes, wf_entry_text, wf_token_text, EntryModel, SignatureAlgorithm, Token,
    TokenModel, UsageEntry,
};
use vstd::string::StringSliceAdditionalSpecFns;

verus! {

/// Canonical JSON bytes of one usage entry.
pub open spec fn json_entry(e: EntryModel) -> Seq<u8> {
    let head = (("{\"seq\":").spec_bytes() + dec_nat(e.seq_no as nat)) + ((
    ",\"time\":").spec_bytes() + dec_i64(e.time));
    let text = ((",\"action\":\"").spec_bytes() + esc(e.action)) + ((
    "\",\"params\":\"").spec_bytes() + esc(e.params));
    let link = (("\",\"hash_prev\":").spec_bytes() + dec_nat(e.hash_prev as nat)) + ((
    ",\"signature\":").spec_bytes() + dec_nat(e.signature as nat));
    (head + text) + (link + ("}").spec_bytes())
}

/// Canonical JSON bytes of the entries of a chain, comma-separated.
pub open spec fn json_entries(c: Seq<EntryModel>) -> Seq<u8>
    decreases c.len(),
{
    if c.len() == 0 {
        Seq::empty()
    } else if c.len() == 1 {
        json_entry(c[0])
    } else {
        json_entries(c.drop_last()) + (",").spec_bytes() + json_entry(c.last())
    }
}

/// Canonical JSON bytes of a whole token.
pub open spec fn json_token(m: TokenModel) -> Seq<u8> {
    let idents = ((("{\"token_id\":\"").spec_bytes() + esc(m.token_id)) + ((
    "\",\"license_code\":\"").spec_bytes() + esc(m.license_code))) + ((
    "\",\"app_id\":\"").spec_bytes() + esc(m.app_id));
    let holder = (("\",\"holder_device_id\":").spec_bytes() + dec_nat(
        m.holder_device_id as nat,
    )) + ((",\"issue_time\":").spec_bytes() + dec_i64(m.issue_time));
    idents + (holder + json_token_tail(m))
}

/// Canonical JSON bytes of a token from the expiry field on.
pub open spec fn json_token_tail(m: TokenModel) -> Seq<u8> {
    let lifetime = ((",\"expire_time\":").spec_bytes() + dec_i64(m.expire_time)) + ((
    ",\"signature_algorithm\":\"").spec_bytes() + algorithm_bytes(m.signature_algorithm));
    let keys = (("\",\"license_public_key\":").spec_bytes() + dec_nat(
        m.license_public_key as nat,
    )) + ((",\"root_signature\":").spec_bytes() + dec_nat(m.root_signature as nat));
    (lifetime + keys) + json_token_close(m)
}

/// Canonical JSON bytes of a token from the token signature on.
pub open spec fn json_token_close(m: TokenModel) -> Seq<u8> {
    let counters = ((",\"signature\":").spec_bytes() + dec_nat(m.signature as nat)) + ((
    ",\"state_index\":").spec_bytes() + dec_nat(m.state_index as nat));
    counters + (((",\"usage_chain\":[").spec_bytes() + json_entries(m.usage_chain)) + (
    "]}").spec_bytes())
}

fn push_lit(out: &mut Vec<u8>, s: &str)
    ensures
        final(out)@ == old(out)@ + s.spec_bytes(),
{
    out.extend_from_slice(s.as_bytes());
    assert(out@ =~= old(out)@ + s.spec_bytes());
}

fn push_u64(out: &mut Vec<u8>, n: u64)
    ensures
        final(out)@ == old(out)@ + dec_nat(n as nat),
{
    let mut d = render_u64(n);
    out.append(&mut d);
}

fn push_i64(out: &mut Vec<u8>, n: i64)
    ensures
        final(out)@ == old(out)@ + dec_i64(n),
{
    let mut d = render_i64(n);
    out.append(&mut d);
}

/// Serialize one entry as canonical JSON bytes, group by group as the
/// specification is built.
pub fn entry_to_json(e: &UsageEntry) -> (v: Vec<u8>)
    ensures
        v@ == json_entry(e@),
{
    let mut head: Vec<u8> = Vec::new();
    push_lit(&mut head, "{\"seq\":");
    push_u64(&mut head, e.seq_no);
    push_lit(&mut head, ",\"time\":");
    push_i64(&mut head, e.time);
    assert(head@ =~= (("{\"seq\":").spec_bytes() + dec_nat(e.seq_no as nat)) + ((
    ",\"time\":").spec_bytes() + dec_i64(e.time)));
    let mut text: Vec<u8> = Vec::new();
    push_lit(&mut text, ",\"action\":\"");
    escape_into(&mut text, e.action.as_slice());
    push_lit(&mut text, "\",\"params\":\"");
    escape_into(&mut text, e.params.as_slice());
    assert(text@ =~= ((",\"action\":\"").spec_bytes() + esc(e@.action)) + ((
    "\",\"params\":\"").spec_bytes() + esc(e@.params)));
    let mut link: Vec<u8> = Vec::new();
    push_lit(&mut link, "\",\"hash_prev\":");
    push_u64(&mut link, e.hash_prev);
    push_lit(&mut link, ",\"signature\":");
    push_u64(&mut link, e.signature);
    push_lit(&mut link, "}");
    assert(link@ =~= ((("\",\"hash_prev\":").spec_bytes() + dec_nat(e.hash_prev as nat)) + ((
    ",\"signature\":").spec_bytes() + dec_nat(e.signature as nat))) + ("}").spec_bytes());
    let mut out = head;
    out.append(&mut text);
    out.append(&mut link);
    assert(out@ == json_entry(e@)) by {
        assert((out@ =~= json_entry(e@)));
    }
    out
}

fn algorithm_json_name(a: SignatureAlgorithm) -> (r: &'static str)
    ensures
        r.spec_bytes() == algorithm_bytes(a),
{
    match a {
        SignatureAlgorithm::Rsa => "RSA",
        SignatureAlgorithm::Ed25519 => "Ed25519",
        SignatureAlgorithm::Sm2 => "SM2",
    }
}

/// Serialize a token as canonical JSON bytes, group by group as the
/// specification is built.
pub fn token_to_json(t: &Token) -> (v: Vec<u8>)
    ensures
        v@ == json_token(t@),
{
    let mut idents: Vec<u8> = Vec::new();
    push_lit(&mut idents, "{\"token_id\":\"");
    escape_into(&mut idents, t.token_id.as_slice());
    push_lit(&mut idents, "\",\"license_code\":\"");
    escape_into(&mut idents, t.license_code.as_slice());
    push_lit(&mut idents, "\",\"app_id\":\"");
    escape_into(&mut idents, t.app_id.as_slice());
    assert(idents@ =~= ((("{\"token_id\":\"").spec_bytes() + esc(t@.token_id)) + ((
    "\",\"license_code\":\"").spec_bytes() + esc(t@.license_code))) + ((
    "\",\"app_id\":\"").spec_bytes() + esc(t@.app_id)));
    let mut holder: Vec<u8> = Vec::new();
    push_lit(&mut holder, "\",\"holder_device_id\":");
    push_u64(&mut holder, t.holder_device_id);
    push_lit(&mut holder, ",\"issue_time\":");
    push_i64(&mut holder, t.issue_time);
    assert(holder@ =~= (("\",\"holder_device_id\":").spec_bytes() + dec_nat(
        t.holder_device_id as nat,
    )) + ((",\"issue_time\":").spec_bytes() + dec_i64(t.issue_time)));
    let mut lifetime: Vec<u8> = Vec::new();
    push_lit(&mut lifetime, ",\"expire_time\":");
    push_i64(&mut lifetime, t.expire_time);
    push_lit(&mut lifetime, ",\"signature_algorithm\":\"");
    push_lit(&mut lifetime, algorithm_json_name(t.signature_algorithm));
    assert(lifetime@ =~= ((",\"expire_time\":").spec_bytes() + dec_i64(t.expire_time)) + ((
    ",\"signature_algorithm\":\"").spec_bytes() + algorithm_bytes(t@.signature_algorithm)));
    let mut keys: Vec<u8> = Vec::new();
    push_lit(&mut keys, "\",\"license_public_key\":");
    push_u64(&mut keys, t.license_public_key);
    push_lit(&mut keys, ",\"root_signature\":");
    push_u64(&mut keys, t.root_signature);
    assert(keys@ =~= (("\",\"license_public_key\":").spec_bytes() + dec_nat(
        t.license_public_key as nat,
    )) + ((",\"root_signature\":").spec_bytes() + dec_nat(t.root_signature as nat)));
    let mut counters: Vec<u8> = Vec::new();
    push_lit(&mut counters, ",\"signature\":");
    push_u64(&mut counters, t.signature);
    push_lit(&mut counters, ",\"state_index\":");
    push_u64(&mut counters, t.state_index);
    assert(counters@ =~= ((",\"signature\":").spec_bytes() + dec_nat(t.signature as nat)) + ((
    ",\"state_index\":").spec_bytes() + dec_nat(t.state_index as nat)));
    let mut chain: Vec<u8> = Vec::new();
    push_lit(&mut chain, ",\"usage_chain\":[");
    assert(chain@ =~= (",\"usage_chain\":[").spec_bytes());
    let ghost chain_head = chain@;
    let entries = t.usage_chain.as_slice();
    let mut i: usize = 0;
    assert(t@.usage_chain.take(0) =~= Seq::<EntryModel>::empty());
    while i < entries.len()
        invariant
            0 <= i <= entries@.len(),
            entries@ == t.usage_chain@,
            chain@ == chain_head + json_entries(t@.usage_chain.take(i as int)),
        decreases entries@.len() - i,
    {
        if i > 0 {
            push_lit(&mut chain, ",");
        }
        let mut piece = entry_to_json(&entries[i]);
        chain.append(&mut piece);
        proof {
            let c = t@.usage_chain;
            assert(c.take(i as int + 1).drop_last() =~= c.take(i as int));
            assert(c.take(i as int + 1).last() == c[i as int]);
            assert(entries@[i as int]@ == c[i as int]);
            if i == 0 {
                assert(c.take(1).len() == 1);
                assert(c.take(1)[0] == c[0]);
                assert(chain@ =~= chain_head + json_entries(c.take(1)));
            } else {
                assert(chain@ =~= chain_head + json_entries(c.take(i as int + 1)));
            }
        }
        i = i + 1;
    }
    proof {
        assert(t@.usage_chain.take(t@.usage_chain.len() as int) =~= t@.usage_chain);
    }
    push_lit(&mut chain, "]}");
    assert(chain@ == ((",\"usage_chain\":[").spec_bytes() + json_entries(t@.usage_chain)) + (
    "]}").spec_bytes());
    let mut tail = lifetime;
    tail.append(&mut keys);
    let mut back = counters;
    back.append(&mut chain);
    tail.append(&mut back);
    assert(tail@ == json_token_tail(t@));
    let mut rest = holder;
    rest.append(&mut tail);
    let mut out = idents;
    out.append(&mut rest);
    assert(out@ == json_token(t@));
    out
}

/// Strict match of a fixed byte pattern at position `i`.
pub open spec fn spec_expect(s: Seq<u8>, i: int, p: Seq<u8>) -> Option<int> {
    if 0 <= i && i + p.len() <= s.len() && s.subrange(i, i + p.len()) == p {
        Some(i + p.len())
    } else {
        None
    }
}

/// Strict parse of an algorithm name (the bytes between the quotes).
pub open spec fn spec_parse_algorithm(s: Seq<u8>, i: int) -> Option<(SignatureAlgorithm, int)> {
    if spec_expect(s, i, ("RSA").spec_bytes()) is Some {
        Some((SignatureAlgorithm::Rsa, spec_expect(s, i, ("RSA").spec_bytes()) ->Some_0))
    } else if spec_expect(s, i, ("Ed25519").spec_bytes()) is Some {
        Some((SignatureAlgorithm::Ed25519, spec_expect(s, i, ("Ed25519").spec_bytes())->Some_0))
    } else if spec_expect(s, i, ("SM2").spec_bytes()) is Some {
        Some((SignatureAlgorithm::Sm2, spec_expect(s, i, ("SM2").spec_bytes())->Some_0))
    } else {
        None
    }
}

/// Strict parse of one entry object at position `i`.
pub open spec fn spec_parse_entry(s: Seq<u8>, i: int) -> Option<(EntryModel, int)> {
    match spec_expect(s, i, ("{\"seq\":").spec_bytes()) {
        None => None,
        Some(i1) => match spec_parse_u64(s, i1) {
            None => None,
            Some((seq_no, i2)) => match spec_expect(s, i2, (",\"time\":").spec_bytes()) {
                None => None,
                Some(i3) => match spec_parse_i64(s, i3) {
                    None => None,
                    Some((time, i4)) => match spec_expect(s, i4, (",\"action\":\"").spec_bytes()) {
                        None => None,
                        Some(i5) => match spec_parse_text(s, i5) {
                            None => None,
                            Some((action, i6)) => match spec_expect(
                                s,
                                i6,
                                (",\"params\":\"").spec_bytes(),
                            ) {
                                None => None,
                                Some(i7) => match spec_parse_text(s, i7) {
                                    None => None,
                                    Some((params, i8)) => match spec_expect(
                                        s,
                                        i8,
                                        (",\"hash_prev\":").spec_bytes(),
                                    ) {
                                        None => None,
                                        Some(i9) => match spec_parse_u64(s, i9) {
                                            None => None,
                                            Some((hash_prev, i10)) => match spec_expect(
                                                s,
                                                i10,
                                                (",\"signature\":").spec_bytes(),
                                            ) {
                                                None => None,
                                                Some(i11) => match spec_parse_u64(s, i11) {
                                                    None => None,
                                                    Some((signature, i12)) => match spec_expect(
                                                        s,
                                                        i12,
                                                        ("}").spec_bytes(),
                                                    ) {
                                                        None => None,
                                                        Some(i13) => Some(
                                                            (
                                                                EntryModel {
                                                                    seq_no,
                                                                    time,
                                                                    action,
                                                                    params,
                                                                    hash_prev,
                                                                    signature,
                                                                },
                                                                i13,
                                                            ),
                                                        ),
                                                    },
                                                },
                                            },
                                        },
                                    },
                                },
                            },
                        },
                    },
                },
            },
        },
    }
}

/// Strict parse of one or more comma-separated entries at position `i`,
/// ending before the closing bracket.
pub open spec fn spec_parse_chain_items(s: Seq<u8>, i: int) -> Option<(Seq<EntryModel>, int)>
    decreases s.len() - i,
{
    match spec_parse_entry(s, i) {
        None => None,
        Some((e, j)) => if i < j <= s.len() {
            if j < s.len() && s[j] == 44 {
                match spec_parse_chain_items(s, j + 1) {
                    None => None,
                    Some((rest, k)) => Some((seq![e] + rest, k)),
                }
            } else {
                Some((seq![e], j))
            }
        } else {
            None
        },
    }
}

/// Strict parse of a token object at position `i`.
pub open spec fn spec_parse_token(s: Seq<u8>, i: int) -> Option<(TokenModel, int)> {
    match spec_expect(s, i, ("{\"token_id\":\"").spec_bytes()) {
        None => None,
        Some(i1) => match spec_parse_text(s, i1) {
            None => None,
            Some((token_id, i2)) => match spec_expect(
                s,
                i2,
                (",\"license_code\":\"").spec_bytes(),
            ) {
                None => None,
                Some(i3) => match spec_parse_text(s, i3) {
                    None => None,
                    Some((license_code, i4)) => match spec_expect(
                        s,
                        i4,
                        (",\"app_id\":\"").spec_bytes(),
                    ) {
                        None => None,
                        Some(i5) => match spec_parse_text(s, i5) {
                            None => None,
                            Some((app_id, i6)) => match spec_expect(
                                s,
                                i6,
                                (",\"holder_device_id\":").spec_bytes(),
                            ) {
                                None => None,
                                Some(i7) => match spec_parse_u64(s, i7) {
                                    None => None,
                                    Some((holder_device_id, i8)) => match spec_expect(
                                        s,
                                        i8,
                                        (",\"issue_time\":").spec_bytes(),
                                    ) {
                                        None => None,
                                        Some(i9) => match spec_parse_i64(s, i9) {
                                            None => None,
                                            Some((issue_time, i10)) => spec_parse_token_tail(
                                                s,
                                                i10,
                                                token_id,
                                                license_code,
                                                app_id,
                                                holder_device_id,
                                                issue_time,
                                            ),
                                        },
                                    },
                                },
                            },
                        },
                    },
                },
            },
        },
    }
}

/// Continuation of `spec_parse_token` from the expiry field on.
pub open spec fn spec_parse_token_tail(
    s: Seq<u8>,
    i: int,
    token_id: Seq<u8>,
    license_code: Seq<u8>,
    app_id: Seq<u8>,
    holder_device_id: u64,
    issue_time: i64,
) -> Option<(TokenModel, int)> {
    match spec_expect(s, i, (",\"expire_time\":").spec_bytes()) {
        None => None,
        Some(i1) => match spec_parse_i64(s, i1) {
            None => None,
            Some((expire_time, i2)) => match spec_expect(
                s,
                i2,
                (",\"signature_algorithm\":\"").spec_bytes(),
            ) {
                None => None,
                Some(i3) => match spec_parse_algorithm(s, i3) {
                    None => None,
                    Some((signature_algorithm, i4)) => match spec_expect(
                        s,
                        i4,
                        ("\",\"license_public_key\":").spec_bytes(),
                    ) {
                        None => None,
                        Some(i5) => match spec_parse_u64(s, i5) {
                            None => None,
                            Some((license_public_key, i6)) => match spec_expect(
                                s,
                                i6,
                                (",\"root_signature\":").spec_bytes(),
                            ) {
                                None => None,
                                Some(i7) => match spec_parse_u64(s, i7) {
                                    None => None,
                                    Some((root_signature, i8)) => spec_parse_token_close(
                                        s,
                                        i8,
                                        TokenModel {
                                            token_id,
                                            license_code,
                                            app_id,
                                            holder_device_id,
                                            issue_time,
                                            expire_time,
                                            signature_algorithm,
                                            license_public_key,
                                            root_signature,
                                            signature: 0,
                                            state_index: 0,
                                            usage_chain: Seq::empty(),
                                        },
                                    ),
                                },
                            },
                        },
                    },
                },
            },
        },
    }
}

/// Continuation of `spec_parse_token` from the token signature on; `head`
/// carries the fields parsed so far.
pub open spec fn spec_parse_token_close(s: Seq<u8>, i: int, head: TokenModel) -> Option<
    (TokenModel, int),
> {
    match spec_expect(s, i, (",\"signature\":").spec_bytes()) {
        None => None,
        Some(i1) => match spec_parse_u64(s, i1) {
            None => None,
            Some((signature, i2)) => match spec_expect(s, i2, (",\"state_index\":").spec_bytes()) {
                None => None,
                Some(i3) => match spec_parse_u64(s, i3) {
                    None => None,
                    Some((state_index, i4)) => match spec_expect(
                        s,
                        i4,
                        (",\"usage_chain\":[").spec_bytes(),
                    ) {
                        None => None,
                        Some(i5) => {
                            let m0 = TokenModel { signature, state_index, ..head };
                            match spec_expect(s, i5, ("]}").spec_bytes()) {
                                Some(k) => Some((m0, k)),
                                None => match spec_parse_chain_items(s, i5) {
                                    None => None,
                                    Some((chain, i6)) => match spec_expect(
                                        s,
                                        i6,
                                        ("]}").spec_bytes(),
                                    ) {
                                        None => None,
                                        Some(k) => Some(
                                            (TokenModel { usage_chain: chain, ..m0 }, k),
                                        ),
                                    },
                                },
                            }
                        },
                    },
                },
            },
        },
    }
}

proof fn lemma_lit_chunk_ascii(s: &str, rest: Seq<u8>)
    requires
        vstd::utf8::is_ascii_chars(s@),
        all_ascii(rest),
    ensures
        all_ascii(rest + s.spec_bytes()),
{
    lemma_lit_ascii(s);
    lemma_all_ascii_concat(rest, s.spec_bytes());
}

proof fn lemma_algorithm_ascii(a: SignatureAlgorithm)
    ensures
        all_ascii(algorithm_bytes(a)),
{
    reveal_strlit("RSA");
    reveal_strlit("Ed25519");
    reveal_strlit("SM2");
    assert(vstd::utf8::is_ascii_chars(("RSA")@)) by {
        assert(forall|i: int| 0 <= i < ("RSA")@.len() ==> ((#[trigger] ("RSA")@[i]) as u32) < 128);
    }
    assert(vstd::utf8::is_ascii_chars(("Ed25519")@)) by {
        assert(forall|i: int| 0 <= i < ("Ed25519")@.len() ==> ((#[trigger] ("Ed25519")@[i]) as u32)
            < 128);
    }
    assert(vstd::utf8::is_ascii_chars(("SM2")@)) by {
        assert(forall|i: int| 0 <= i < ("SM2")@.len() ==> ((#[trigger] ("SM2")@[i]) as u32) < 128);
    }
    lemma_lit_ascii("RSA");
    lemma_lit_ascii("Ed25519");
    lemma_lit_ascii("SM2");
}

proof fn lemma_entry_lits_ascii()
    ensures
        vstd::utf8::is_ascii_chars(("{\"seq\":")@),
        vstd::utf8::is_ascii_chars((",\"time\":")@),
        vstd::utf8::is_ascii_chars((",\"action\":\"")@),
        vstd::utf8::is_ascii_chars(("\",\"params\":\"")@),
        vstd::utf8::is_ascii_chars(("\",\"hash_prev\":")@),
        vstd::utf8::is_ascii_chars((",\"signature\":")@),
        vstd::utf8::is_ascii_chars(("}")@),
        vstd::utf8::is_ascii_chars((",")@),
{
    reveal_strlit("{\"seq\":");
    reveal_strlit(",\"time\":");
    reveal_strlit(",\"action\":\"");
    reveal_strlit("\",\"params\":\"");
    reveal_strlit("\",\"hash_prev\":");
    reveal_strlit(",\"signature\":");
    reveal_strlit("}");
    reveal_strlit(",");
    assert(forall|i: int| 0 <= i < ("{\"seq\":")@.len() ==> ((#[trigger] ("{\"seq\":")@[i]) as u32)
        < 128);
    assert(forall|i: int| 0 <= i < (",\"time\":")@.len() ==> ((#[trigger] (",\"time\":")@[i])
        as u32) < 128);
    assert(forall|i: int| 0 <= i < (",\"action\":\"")@.len() ==> ((#[trigger] (",\"action\":\"")@[
    i]) as u32) < 128);
    assert(forall|i: int| 0 <= i < ("\",\"params\":\"")@.len() ==> ((#[trigger] (
    "\",\"params\":\"")@[i]) as u32) < 128);
    assert(forall|i: int| 0 <= i < ("\",\"hash_prev\":")@.len() ==> ((#[trigger] (
    "\",\"hash_prev\":")@[i]) as u32) < 128);
    assert(forall|i: int| 0 <= i < (",\"signature\":")@.len() ==> ((#[trigger] (",\"signature\":")@[
    i]) as u32) < 128);
    assert(forall|i: int| 0 <= i < ("}")@.len() ==> ((#[trigger] ("}")@[i]) as u32) < 128);
    assert(forall|i: int| 0 <= i < (",")@.len() ==> ((#[trigger] (",")@[i]) as u32) < 128);
}

/// The canonical JSON of a well-formed entry is ASCII.
proof fn lemma_json_entry_ascii(e: EntryModel)
    requires
        wf_entry_text(e),
    ensures
        all_ascii(json_entry(e)),
{
    lemma_entry_lits_ascii();
    crate::decimal::lemma_dec_nat_ascii(e.seq_no as nat);
    crate::decimal::lemma_dec_ascii(e.time);
    crate::decimal::lemma_dec_nat_ascii(e.hash_prev as nat);
    crate::decimal::lemma_dec_nat_ascii(e.signature as nat);
    crate::text::lemma_esc_ascii(e.action);
    crate::text::lemma_esc_ascii(e.params);
    lemma_lit_ascii("{\"seq\":");
    lemma_lit_ascii(",\"time\":");
    lemma_lit_ascii(",\"action\":\"");
    lemma_lit_ascii("\",\"params\":\"");
    lemma_lit_ascii("\",\"hash_prev\":");
    lemma_lit_ascii(",\"signature\":");
    lemma_lit_ascii("}");
    let head = (("{\"seq\":").spec_bytes() + dec_nat(e.seq_no as nat)) + ((
    ",\"time\":").spec_bytes() + dec_i64(e.time));
    let text = ((",\"action\":\"").spec_bytes() + esc(e.action)) + ((
    "\",\"params\":\"").spec_bytes() + esc(e.params));
    let link = (("\",\"hash_prev\":").spec_bytes() + dec_nat(e.hash_prev as nat)) + ((
    ",\"signature\":").spec_bytes() + dec_nat(e.signature as nat));
    lemma_all_ascii_concat(("{\"seq\":").spec_bytes(), dec_nat(e.seq_no as nat));
    lemma_all_ascii_concat((",\"time\":").spec_bytes(), dec_i64(e.time));
    lemma_all_ascii_concat(
        ("{\"seq\":").spec_bytes() + dec_nat(e.seq_no as nat),
        (",\"time\":").spec_bytes() + dec_i64(e.time),
    );
    lemma_all_ascii_concat((",\"action\":\"").spec_bytes(), esc(e.action));
    lemma_all_ascii_concat(("\",\"params\":\"").spec_bytes(), esc(e.params));
    lemma_all_ascii_concat(
        (",\"action\":\"").spec_bytes() + esc(e.action),
        ("\",\"params\":\"").spec_bytes() + esc(e.params),
    );
    lemma_all_ascii_concat(("\",\"hash_prev\":").spec_bytes(), dec_nat(e.hash_prev as nat));
    lemma_all_ascii_concat((",\"signature\":").spec_bytes(), dec_nat(e.signature as nat));
    lemma_all_ascii_concat(
        ("\",\"hash_prev\":").spec_bytes() + dec_nat(e.hash_prev as nat),
        (",\"signature\":").spec_bytes() + dec_nat(e.signature as nat),
    );
    lemma_all_ascii_concat(head, text);
    lemma_all_ascii_concat(link, ("}").spec_bytes());
    lemma_all_ascii_concat(head + text, link + ("}").spec_bytes());
}

/// The canonical JSON of well-formed entries is ASCII.
proof fn lemma_json_entries_ascii(c: Seq<EntryModel>)
    requires
        forall|i: int| 0 <= i < c.len() ==> wf_entry_text(#[trigger] c[i]),
    ensures
        all_ascii(json_entries(c)),
    decreases c.len(),
{
    if c.len() == 1 {
        lemma_json_entry_ascii(c[0]);
    } else if c.len() > 1 {
        lemma_json_entries_ascii(c.drop_last());
        lemma_json_entry_ascii(c.last());
        lemma_entry_lits_ascii();
        lemma_lit_chunk_ascii(",", json_entries(c.drop_last()));
        lemma_all_ascii_concat(
            json_entries(c.drop_last()) + (",").spec_bytes(),
            json_entry(c.last()),
        );
    }
}

proof fn lemma_token_lits_ascii()
    ensures
        vstd::utf8::is_ascii_chars(("{\"token_id\":\"")@),
        vstd::utf8::is_ascii_chars(("\",\"license_code\":\"")@),
        vstd::utf8::is_ascii_chars(("\",\"app_id\":\"")@),
        vstd::utf8::is_ascii_chars(("\",\"holder_device_id\":")@),
        vstd::utf8::is_ascii_chars((",\"issue_time\":")@),
        vstd::utf8::is_ascii_chars((",\"expire_time\":")@),
        vstd::utf8::is_ascii_chars((",\"signature_algorithm\":\"")@),
        vstd::utf8::is_ascii_chars(("\",\"license_public_key\":")@),
        vstd::utf8::is_ascii_chars((",\"root_signature\":")@),
        vstd::utf8::is_ascii_chars((",\"signature\":")@),
        vstd::utf8::is_ascii_chars((",\"state_index\":")@),
        vstd::utf8::is_ascii_chars((",\"usage_chain\":[")@),
        vstd::utf8::is_ascii_chars(("]}")@),
{
    reveal_strlit("{\"token_id\":\"");
    reveal_strlit("\",\"license_code\":\"");
    reveal_strlit("\",\"app_id\":\"");
    reveal_strlit("\",\"holder_device_id\":");
    reveal_strlit(",\"issue_time\":");
    reveal_strlit(",\"expire_time\":");
    reveal_strlit(",\"signature_algorithm\":\"");
    reveal_strlit("\",\"license_public_key\":");
    reveal_strlit(",\"root_signature\":");
    reveal_strlit(",\"signature\":");
    reveal_strlit(",\"state_index\":");
    reveal_strlit(",\"usage_chain\":[");
    reveal_strlit("]}");
    assert(forall|i: int| 0 <= i < ("{\"token_id\":\"")@.len() ==> ((#[trigger] (
    "{\"token_id\":\"")@[i]) as u32) < 128);
    assert(forall|i: int| 0 <= i < ("\",\"license_code\":\"")@.len() ==> ((#[trigger] (
    "\",\"license_code\":\"")@[i]) as u32) < 128);
    assert(forall|i: int| 0 <= i < ("\",\"app_id\":\"")@.len() ==> ((#[trigger] ("\",\"app_id\":\"")@[
    i]) as u32) < 128);
    assert(forall|i: int| 0 <= i < ("\",\"holder_device_id\":")@.len() ==> ((#[trigger] (
    "\",\"holder_device_id\":")@[i]) as u32) < 128);
    assert(forall|i: int| 0 <= i < (",\"issue_time\":")@.len() ==> ((#[trigger] (
    ",\"issue_time\":")@[i]) as u32) < 128);
    assert(forall|i: int| 0 <= i < (",\"expire_time\":")@.len() ==> ((#[trigger] (
    ",\"expire_time\":")@[i]) as u32) < 128);
    assert(forall|i: int| 0 <= i < (",\"signature_algorithm\":\"")@.len() ==> ((#[trigger] (
    ",\"signature_algorithm\":\"")@[i]) as u32) < 128);
    assert(forall|i: int| 0 <= i < ("\",\"license_public_key\":")@.len() ==> ((#[trigger] (
    "\",\"license_public_key\":")@[i]) as u32) < 128);
    assert(forall|i: int| 0 <= i < (",\"root_signature\":")@.len() ==> ((#[trigger] (
    ",\"root_signature\":")@[i]) as u32) < 128);
    assert(forall|i: int| 0 <= i < (",\"signature\":")@.len() ==> ((#[trigger] (",\"signature\":")@[
    i]) as u32) < 128);
    assert(forall|i: int| 0 <= i < (",\"state_index\":")@.len() ==> ((#[trigger] (
    ",\"state_index\":")@[i]) as u32) < 128);
    assert(forall|i: int| 0 <= i < (",\"usage_chain\":[")@.len() ==> ((#[trigger] (
    ",\"usage_chain\":[")@[i]) as u32) < 128);
    assert(forall|i: int| 0 <= i < ("]}")@.len() ==> ((#[trigger] ("]}")@[i]) as u32) < 128);
}

/// The canonical JSON of a well-formed token is ASCII.
pub proof fn lemma_json_token_ascii(m: TokenModel)
    requires
        wf_token_text(m),
    ensures
        all_ascii(json_token(m)),
{
    lemma_token_lits_ascii();
    crate::text::lemma_esc_ascii(m.token_id);
    crate::text::lemma_esc_ascii(m.license_code);
    crate::text::lemma_esc_ascii(m.app_id);
    crate::decimal::lemma_dec_nat_ascii(m.holder_device_id as nat);
    crate::decimal::lemma_dec_ascii(m.issue_time);
    crate::decimal::lemma_dec_ascii(m.expire_time);
    lemma_algorithm_ascii(m.signature_algorithm);
    crate::decimal::lemma_dec_nat_ascii(m.license_public_key as nat);
    crate::decimal::lemma_dec_nat_ascii(m.root_signature as nat);
    crate::decimal::lemma_dec_nat_ascii(m.signature as nat);
    crate::decimal::lemma_dec_nat_ascii(m.state_index as nat);
    lemma_json_entries_ascii(m.usage_chain);
    lemma_lit_ascii("{\"token_id\":\"");
    lemma_lit_ascii("\",\"license_code\":\"");
    lemma_lit_ascii("\",\"app_id\":\"");
    lemma_lit_ascii("\",\"holder_device_id\":");
    lemma_lit_ascii(",\"issue_time\":");
    lemma_lit_ascii(",\"expire_time\":");
    lemma_lit_ascii(",\"signature_algorithm\":\"");
    lemma_lit_ascii("\",\"license_public_key\":");
    lemma_lit_ascii(",\"root_signature\":");
    lemma_lit_ascii(",\"signature\":");
    lemma_lit_ascii(",\"state_index\":");
    lemma_lit_ascii(",\"usage_chain\":[");
    lemma_lit_ascii("]}");
    lemma_all_ascii_concat(("{\"token_id\":\"").spec_bytes(), esc(m.token_id));
    lemma_all_ascii_concat(("\",\"license_code\":\"").spec_bytes(), esc(m.license_code));
    lemma_all_ascii_concat(
        ("{\"token_id\":\"").spec_bytes() + esc(m.token_id),
        ("\",\"license_code\":\"").spec_bytes() + esc(m.license_code),
    );
    lemma_all_ascii_concat(("\",\"app_id\":\"").spec_bytes(), esc(m.app_id));
    lemma_all_ascii_concat(
        (("{\"token_id\":\"").spec_bytes() + esc(m.token_id)) + ((
        "\",\"license_code\":\"").spec_bytes() + esc(m.license_code)),
        ("\",\"app_id\":\"").spec_bytes() + esc(m.app_id),
    );
    lemma_all_ascii_concat(
        ("\",\"holder_device_id\":").spec_bytes(),
        dec_nat(m.holder_device_id as nat),
    );
    lemma_all_ascii_concat((",\"issue_time\":").spec_bytes(), dec_i64(m.issue_time));
    lemma_all_ascii_concat(
        ("\",\"holder_device_id\":").spec_bytes() + dec_nat(m.holder_device_id as nat),
        (",\"issue_time\":").spec_bytes() + dec_i64(m.issue_time),
    );
    let idents = ((("{\"token_id\":\"").spec_bytes() + esc(m.token_id)) + ((
    "\",\"license_code\":\"").spec_bytes() + esc(m.license_code))) + ((
    "\",\"app_id\":\"").spec_bytes() + esc(m.app_id));
    let holder = (("\",\"holder_device_id\":").spec_bytes() + dec_nat(
        m.holder_device_id as nat,
    )) + ((",\"issue_time\":").spec_bytes() + dec_i64(m.issue_time));
    lemma_json_token_tail_ascii(m);
    lemma_all_ascii_concat(holder, json_token_tail(m));
    lemma_all_ascii_concat(idents, holder + json_token_tail(m));
}

/// The tail of the canonical JSON of a well-formed token is ASCII.
proof fn lemma_json_token_tail_ascii(m: TokenModel)
    requires
        wf_token_text(m),
    ensures
        all_ascii(json_token_tail(m)),
{
    lemma_token_lits_ascii();
    lemma_entry_lits_ascii();
    crate::decimal::lemma_dec_ascii(m.expire_time);
    lemma_algorithm_ascii(m.signature_algorithm);
    crate::decimal::lemma_dec_nat_ascii(m.license_public_key as nat);
    crate::decimal::lemma_dec_nat_ascii(m.root_signature as nat);
    crate::decimal::lemma_dec_nat_ascii(m.signature as nat);
    crate::decimal::lemma_dec_nat_ascii(m.state_index as nat);
    lemma_json_entries_ascii(m.usage_chain);
    lemma_lit_ascii(",\"expire_time\":");
    lemma_lit_ascii(",\"signature_algorithm\":\"");
    lemma_lit_ascii("\",\"license_public_key\":");
    lemma_lit_ascii(",\"root_signature\":");
    lemma_lit_ascii(",\"signature\":");
    lemma_lit_ascii(",\"state_index\":");
    lemma_lit_ascii(",\"usage_chain\":[");
    lemma_lit_ascii("]}");
    let lifetime = ((",\"expire_time\":").spec_bytes() + dec_i64(m.expire_time)) + ((
    ",\"signature_algorithm\":\"").spec_bytes() + algorithm_bytes(m.signature_algorithm));
    let keys = (("\",\"license_public_key\":").spec_bytes() + dec_nat(
        m.license_public_key as nat,
    )) + ((",\"root_signature\":").spec_bytes() + dec_nat(m.root_signature as nat));
    let counters = ((",\"signature\":").spec_bytes() + dec_nat(m.signature as nat)) + ((
    ",\"state_index\":").spec_bytes() + dec_nat(m.state_index as nat));
    let chain = ((",\"usage_chain\":[").spec_bytes() + json_entries(m.usage_chain)) + (
    "]}").spec_bytes();
    lemma_all_ascii_concat((",\"expire_time\":").spec_bytes(), dec_i64(m.expire_time));
    lemma_all_ascii_concat(
        (",\"signature_algorithm\":\"").spec_bytes(),
        algorithm_bytes(m.signature_algorithm),
    );
    lemma_all_ascii_concat(
        (",\"expire_time\":").spec_bytes() + dec_i64(m.expire_time),
        (",\"signature_algorithm\":\"").spec_bytes() + algorithm_bytes(m.signature_algorithm),
    );
    lemma_all_ascii_concat(
        ("\",\"license_public_key\":").spec_bytes(),
        dec_nat(m.license_public_key as nat),
    );
    lemma_all_ascii_concat((",\"root_signature\":").spec_bytes(), dec_nat(m.root_signature as nat));
    lemma_all_ascii_concat(
        ("\",\"license_public_key\":").spec_bytes() + dec_nat(m.license_public_key as nat),
        (",\"root_signature\":").spec_bytes() + dec_nat(m.root_signature as nat),
    );
    lemma_all_ascii_concat((",\"signature\":").spec_bytes(), dec_nat(m.signature as nat));
    lemma_all_ascii_concat((",\"state_index\":").spec_bytes(), dec_nat(m.state_index as nat));
    lemma_all_ascii_concat(
        (",\"signature\":").spec_bytes() + dec_nat(m.signature as nat),
        (",\"state_index\":").spec_bytes() + dec_nat(m.state_index as nat),
    );
    lemma_all_ascii_concat(
        (",\"usage_chain\":[").spec_bytes(),
        json_entries(m.usage_chain),
    );
    lemma_all_ascii_concat(
        (",\"usage_chain\":[").spec_bytes() + json_entries(m.usage_chain),
        ("]}").spec_bytes(),
    );
    lemma_all_ascii_concat(lifetime, keys);
    lemma_all_ascii_concat(counters, chain);
    lemma_all_ascii_concat(lifetime + keys, counters + chain);
}

/// A match of a two-piece concatenation splits into matches of the pieces.
proof fn lemma_split_prefix(s: Seq<u8>, i: int, a: Seq<u8>, b: Seq<u8>)
    requires
        0 <= i,
        i + a.len() + b.len() <= s.len(),
        s.subrange(i, i + a.len() + b.len()) == a + b,
    ensures
        s.subrange(i, i + a.len()) == a,
        s.subrange(i + a.len(), i + a.len() + b.len()) == b,
{
    let w = s.subrange(i, i + a.len() + b.len());
    assert forall|k: int| 0 <= k < a.len() implies s.subrange(i, i + a.len())[k] == a[k] by {
        assert(w[k] == s[i + k]);
        assert(w[k] == (a + b)[k]);
    }
    assert(s.subrange(i, i + a.len()) =~= a);
    assert forall|k: int| 0 <= k < b.len() implies s.subrange(
        i + a.len(),
        i + a.len() + b.len(),
    )[k] == b[k] by {
        assert(w[a.len() + k] == s[i + a.len() + k]);
        assert(w[a.len() + k] == (a + b)[a.len() + k]);
    }
    assert(s.subrange(i + a.len(), i + a.len() + b.len()) =~= b);
}

/// First bytes and non-emptiness of the structural literals, for boundary
/// reasoning: none of them begins with a digit, an entry object begins with
/// a brace, and the chain closes with a bracket.
proof fn lemma_codec_lit_firsts()
    ensures
        ("{\"seq\":").spec_bytes().len() > 0 && ("{\"seq\":").spec_bytes()[0] == 123,
        (",\"time\":").spec_bytes().len() > 0 && (",\"time\":").spec_bytes()[0] == 44,
        (",\"action\":\"").spec_bytes().len() > 0 && (",\"action\":\"").spec_bytes()[0] == 44,
        ("\",\"params\":\"").spec_bytes().len() > 0 && ("\",\"params\":\"").spec_bytes()[0] == 34,
        ("\",\"hash_prev\":").spec_bytes().len() > 0 && ("\",\"hash_prev\":").spec_bytes()[0]
            == 34,
        (",\"signature\":").spec_bytes().len() > 0 && (",\"signature\":").spec_bytes()[0] == 44,
        ("}").spec_bytes().len() == 1 && ("}").spec_bytes()[0] == 125,
        (",").spec_bytes().len() == 1 && (",").spec_bytes()[0] == 44,
        ("{\"token_id\":\"").spec_bytes().len() > 0 && ("{\"token_id\":\"").spec_bytes()[0]
            == 123,
        ("\",\"license_code\":\"").spec_bytes().len() > 0 && (
        "\",\"license_code\":\"").spec_bytes()[0] == 34,
        ("\",\"app_id\":\"").spec_bytes().len() > 0 && ("\",\"app_id\":\"").spec_bytes()[0] == 34,
        ("\",\"holder_device_id\":").spec_bytes().len() > 0 && (
        "\",\"holder_device_id\":").spec_bytes()[0] == 34,
        (",\"issue_time\":").spec_bytes().len() > 0 && (",\"issue_time\":").spec_bytes()[0] == 44,
        (",\"expire_time\":").spec_bytes().len() > 0 && (",\"expire_time\":").spec_bytes()[0]
            == 44,
        (",\"signature_algorithm\":\"").spec_bytes().len() > 0 && (
        ",\"signature_algorithm\":\"").spec_bytes()[0] == 44,
        ("\",\"license_public_key\":").spec_bytes().len() > 0 && (
        "\",\"license_public_key\":").spec_bytes()[0] == 34,
        (",\"root_signature\":").spec_bytes().len() > 0 && (",\"root_signature\":").spec_bytes()[0]
            == 44,
        (",\"state_index\":").spec_bytes().len() > 0 && (",\"state_index\":").spec_bytes()[0]
            == 44,
        (",\"usage_chain\":[").spec_bytes().len() > 0 && (",\"usage_chain\":[").spec_bytes()[0]
            == 44,
        ("]}").spec_bytes().len() > 0 && ("]}").spec_bytes()[0] == 93,
        ("RSA").spec_bytes().len() == 3 && ("RSA").spec_bytes()[0] == 82,
        ("Ed25519").spec_bytes().len() == 7 && ("Ed25519").spec_bytes()[0] == 69,
        ("SM2").spec_bytes().len() == 3 && ("SM2").spec_bytes()[0] == 83,
{
    lemma_entry_lits_ascii();
    lemma_token_lits_ascii();
    reveal_strlit("{\"seq\":");
    reveal_strlit(",\"time\":");
    reveal_strlit(",\"action\":\"");
    reveal_strlit("\",\"params\":\"");
    reveal_strlit("\",\"hash_prev\":");
    reveal_strlit(",\"signature\":");
    reveal_strlit("}");
    reveal_strlit(",");
    reveal_strlit("{\"token_id\":\"");
    reveal_strlit("\",\"license_code\":\"");
    reveal_strlit("\",\"app_id\":\"");
    reveal_strlit("\",\"holder_device_id\":");
    reveal_strlit(",\"issue_time\":");
    reveal_strlit(",\"expire_time\":");
    reveal_strlit(",\"signature_algorithm\":\"");
    reveal_strlit("\",\"license_public_key\":");
    reveal_strlit(",\"root_signature\":");
    reveal_strlit(",\"state_index\":");
    reveal_strlit(",\"usage_chain\":[");
    reveal_strlit("]}");
    lemma_lit_ascii("{\"seq\":");
    lemma_lit_ascii(",\"time\":");
    lemma_lit_ascii(",\"action\":\"");
    lemma_lit_ascii("\",\"params\":\"");
    lemma_lit_ascii("\",\"hash_prev\":");
    lemma_lit_ascii(",\"signature\":");
    lemma_lit_ascii("}");
    lemma_lit_ascii(",");
    lemma_lit_ascii("{\"token_id\":\"");
    lemma_lit_ascii("\",\"license_code\":\"");
    lemma_lit_ascii("\",\"app_id\":\"");
    lemma_lit_ascii("\",\"holder_device_id\":");
    lemma_lit_ascii(",\"issue_time\":");
    lemma_lit_ascii(",\"expire_time\":");
    lemma_lit_ascii(",\"signature_algorithm\":\"");
    lemma_lit_ascii("\",\"license_public_key\":");
    lemma_lit_ascii(",\"root_signature\":");
    lemma_lit_ascii(",\"state_index\":");
    lemma_lit_ascii(",\"usage_chain\":[");
    lemma_lit_ascii("]}");
    reveal_strlit("RSA");
    reveal_strlit("Ed25519");
    reveal_strlit("SM2");
    assert(vstd::utf8::is_ascii_chars(("RSA")@)) by {
        assert(forall|i: int| 0 <= i < ("RSA")@.len() ==> ((#[trigger] ("RSA")@[i]) as u32) < 128);
    }
    assert(vstd::utf8::is_ascii_chars(("Ed25519")@)) by {
        assert(forall|i: int| 0 <= i < ("Ed25519")@.len() ==> ((#[trigger] ("Ed25519")@[i]) as u32)
            < 128);
    }
    assert(vstd::utf8::is_ascii_chars(("SM2")@)) by {
        assert(forall|i: int| 0 <= i < ("SM2")@.len() ==> ((#[trigger] ("SM2")@[i]) as u32) < 128);
    }
    lemma_lit_ascii("RSA");
    lemma_lit_ascii("Ed25519");
    lemma_lit_ascii("SM2");
}

/// Parsing at the start of the canonical JSON of a well-formed entry
/// recovers the entry and consumes exactly its encoding.
#[verifier::rlimit(100)]
#[verifier::spinoff_prover]
proof fn lemma_parse_entry_canonical(s: Seq<u8>, i: int, e: EntryModel)
    requires
        0 <= i,
        wf_entry_text(e),
        i + json_entry(e).len() <= s.len(),
        s.subrange(i, i + json_entry(e).len()) == json_entry(e),
    ensures
        spec_parse_entry(s, i) == Some((e, i + json_entry(e).len())),
{
    lemma_codec_lit_firsts();
    crate::decimal::lemma_dec_nat_digits(e.seq_no as nat);
    crate::decimal::lemma_dec_nat_digits(e.hash_prev as nat);
    crate::decimal::lemma_dec_nat_digits(e.signature as nat);
    let l1 = ("{\"seq\":").spec_bytes();
    let d1 = dec_nat(e.seq_no as nat);
    let l2 = (",\"time\":").spec_bytes();
    let d2 = dec_i64(e.time);
    let l3 = (",\"action\":\"").spec_bytes();
    let e1 = esc(e.action);
    let l4 = ("\",\"params\":\"").spec_bytes();
    let e2 = esc(e.params);
    let l5 = ("\",\"hash_prev\":").spec_bytes();
    let d3 = dec_nat(e.hash_prev as nat);
    let l6 = (",\"signature\":").spec_bytes();
    let d4 = dec_nat(e.signature as nat);
    let l7 = ("}").spec_bytes();
    let head = (l1 + d1) + (l2 + d2);
    let text = (l3 + e1) + (l4 + e2);
    let link = (l5 + d3) + (l6 + d4);
    assert(json_entry(e) == (head + text) + (link + l7));
    let p1 = i;
    let p2 = p1 + l1.len();
    let p3 = p2 + d1.len();
    let p4 = p3 + l2.len();
    let p5 = p4 + d2.len();
    let p6 = p5 + l3.len();
    let p7 = p6 + e1.len();
    let p8 = p7 + l4.len();
    let p9 = p8 + e2.len();
    let p10 = p9 + l5.len();
    let p11 = p10 + d3.len();
    let p12 = p11 + l6.len();
    let p13 = p12 + d4.len();
    let pend = p13 + l7.len();
    lemma_split_prefix(s, i, head + text, link + l7);
    lemma_split_prefix(s, i, head, text);
    lemma_split_prefix(s, p1, l1 + d1, l2 + d2);
    lemma_split_prefix(s, p1, l1, d1);
    lemma_split_prefix(s, p3, l2, d2);
    lemma_split_prefix(s, p5, l3 + e1, l4 + e2);
    lemma_split_prefix(s, p5, l3, e1);
    lemma_split_prefix(s, p7, l4, e2);
    lemma_split_prefix(s, p9, link, l7);
    lemma_split_prefix(s, p9, l5 + d3, l6 + d4);
    lemma_split_prefix(s, p9, l5, d3);
    lemma_split_prefix(s, p11, l6, d4);
    assert(s[p3] == l2[0]) by {
        assert(s.subrange(p3, p3 + l2.len())[0] == s[p3]);
    }
    crate::decimal::lemma_parse_u64_canonical(s, p2, e.seq_no);
    assert(s[p5] == l3[0]) by {
        assert(s.subrange(p5, p5 + l3.len())[0] == s[p5]);
    }
    crate::decimal::lemma_parse_i64_canonical(s, p4, e.time);
    assert(s[p7] == l4[0] && l4[0] == QUOTE) by {
        assert(s.subrange(p7, p7 + l4.len())[0] == s[p7]);
    }
    assert(s.subrange(p6, p7 + 1) =~= e1.push(QUOTE)) by {
        assert(forall|k: int| 0 <= k < e1.len() ==> #[trigger] s.subrange(p6, p7 + 1)[k] == s[p6
            + k] && s.subrange(p6, p6 + e1.len())[k] == s[p6 + k]);
    }
    crate::text::lemma_parse_text_canonical(s, p6, e.action);
    let q7 = p7 + 1;
    assert(s.subrange(q7, p8) =~= l4.skip(1)) by {
        assert(forall|k: int| 0 <= k < l4.len() ==> #[trigger] s.subrange(p7, p8)[k] == s[p7 + k]);
        assert(forall|k: int| 0 <= k < l4.len() - 1 ==> #[trigger] s.subrange(q7, p8)[k] == s[q7
            + k]);
    }
    assert(s[p9] == l5[0] && l5[0] == QUOTE) by {
        assert(s.subrange(p9, p9 + l5.len())[0] == s[p9]);
    }
    assert(s.subrange(p8, p9 + 1) =~= e2.push(QUOTE)) by {
        assert(forall|k: int| 0 <= k < e2.len() ==> #[trigger] s.subrange(p8, p9 + 1)[k] == s[p8
            + k] && s.subrange(p8, p8 + e2.len())[k] == s[p8 + k]);
    }
    crate::text::lemma_parse_text_canonical(s, p8, e.params);
    let q9 = p9 + 1;
    assert(s.subrange(q9, p10) =~= l5.skip(1)) by {
        assert(forall|k: int| 0 <= k < l5.len() ==> #[trigger] s.subrange(p9, p10)[k] == s[p9
            + k]);
        assert(forall|k: int| 0 <= k < l5.len() - 1 ==> #[trigger] s.subrange(q9, p10)[k] == s[q9
            + k]);
    }
    assert(s[p11] == l6[0]) by {
        assert(s.subrange(p11, p11 + l6.len())[0] == s[p11]);
    }
    crate::decimal::lemma_parse_u64_canonical(s, p10, e.hash_prev);
    assert(s[p13] == l7[0]) by {
        assert(s.subrange(p13, p13 + l7.len())[0] == s[p13]);
    }
    crate::decimal::lemma_parse_u64_canonical(s, p12, e.signature);
    lemma_lit_firsts_params_tail();
    assert(spec_parse_entry(s, i) == Some((e, pend))) by {
        assert(spec_expect(s, p1, l1) == Some(p2));
        assert(spec_parse_u64(s, p2) == Some((e.seq_no, p3)));
        assert(spec_expect(s, p3, l2) == Some(p4));
        assert(spec_parse_i64(s, p4) == Some((e.time, p5)));
        assert(spec_expect(s, p5, l3) == Some(p6));
        assert(spec_parse_text(s, p6) == Some((e.action, q7)));
        assert(spec_expect(s, q7, (",\"params\":\"").spec_bytes()) == Some(p8));
        assert(spec_parse_text(s, p8) == Some((e.params, q9)));
        assert(spec_expect(s, q9, (",\"hash_prev\":").spec_bytes()) == Some(p10));
        assert(spec_parse_u64(s, p10) == Some((e.hash_prev, p11)));
        assert(spec_expect(s, p11, l6) == Some(p12));
        assert(spec_parse_u64(s, p12) == Some((e.signature, p13)));
        assert(spec_expect(s, p13, l7) == Some(pend));
    }
    assert(pend == i + json_entry(e).len());
}

/// An entry encoding opens with the brace of its first literal.
proof fn lemma_json_entry_first(e: EntryModel)
    ensures
        json_entry(e).len() > 0,
        json_entry(e)[0] == 123,
{
    lemma_codec_lit_firsts();
    let l1 = ("{\"seq\":").spec_bytes();
    assert(json_entry(e)[0] == l1[0]);
}

/// Splitting a chain encoding after its first entry and comma.
proof fn lemma_json_entries_front(c: Seq<EntryModel>)
    requires
        c.len() >= 2,
    ensures
        json_entries(c) == (json_entry(c[0]) + (",").spec_bytes()) + json_entries(c.skip(1)),
    decreases c.len(),
{
    if c.len() == 2 {
        assert(c.drop_last().len() == 1);
        assert(c.drop_last()[0] == c[0]);
        assert(json_entries(c.drop_last()) == json_entry(c[0]));
        assert(c.skip(1).len() == 1);
        assert(c.skip(1)[0] == c[1]);
        assert(json_entries(c.skip(1)) == json_entry(c[1]));
        assert(c.last() == c[1]);
        assert(json_entries(c) =~= (json_entry(c[0]) + (",").spec_bytes()) + json_entries(
            c.skip(1),
        ));
    } else {
        lemma_json_entries_front(c.drop_last());
        assert(c.skip(1).drop_last() =~= c.drop_last().skip(1));
        assert(c.skip(1).last() == c.last());
        assert(c.drop_last()[0] == c[0]);
        assert(c.skip(1).len() >= 2);
        assert(json_entries(c.skip(1)) == json_entries(c.skip(1).drop_last())
            + (",").spec_bytes() + json_entry(c.skip(1).last()));
        assert(json_entries(c) =~= (json_entry(c[0]) + (",").spec_bytes()) + json_entries(
            c.skip(1),
        ));
    }
}

/// A non-empty chain encoding opens with the brace of its first entry.
proof fn lemma_json_entries_first(c: Seq<EntryModel>)
    requires
        c.len() >= 1,
    ensures
        json_entries(c).len() > 0,
        json_entries(c)[0] == 123,
{
    lemma_json_entry_first(c[0]);
    if c.len() == 1 {
        assert(json_entries(c) == json_entry(c[0]));
    } else {
        lemma_json_entries_front(c);
        assert(json_entries(c)[0] == json_entry(c[0])[0]);
    }
}

/// Parsing at the start of the canonical encoding of one or more entries,
/// followed by anything but a comma, recovers exactly those entries.
#[verifier::spinoff_prover]
proof fn lemma_parse_chain_items_canonical(s: Seq<u8>, i: int, c: Seq<EntryModel>)
    requires
        0 <= i,
        c.len() >= 1,
        forall|k: int| 0 <= k < c.len() ==> wf_entry_text(#[trigger] c[k]),
        i + json_entries(c).len() < s.len(),
        s.subrange(i, i + json_entries(c).len()) == json_entries(c),
        s[i + json_entries(c).len()] != 44,
    ensures
        spec_parse_chain_items(s, i) == Some((c, i + json_entries(c).len())),
    decreases c.len(),
{
    lemma_codec_lit_firsts();
    if c.len() == 1 {
        assert(json_entries(c) == json_entry(c[0]));
        lemma_parse_entry_canonical(s, i, c[0]);
        lemma_json_entry_first(c[0]);
        let j = i + json_entry(c[0]).len();
        assert(i < j <= s.len());
        assert(s[j] != 44);
        assert(seq![c[0]] =~= c);
    } else {
        lemma_json_entries_front(c);
        let e0 = json_entry(c[0]);
        let comma = (",").spec_bytes();
        let rest = json_entries(c.skip(1));
        lemma_split_prefix(s, i, e0 + comma, rest);
        lemma_split_prefix(s, i, e0, comma);
        lemma_parse_entry_canonical(s, i, c[0]);
        lemma_json_entry_first(c[0]);
        let j = i + e0.len();
        assert(s[j] == comma[0] && comma[0] == 44) by {
            assert(s.subrange(j, j + comma.len())[0] == s[j]);
        }
        assert(i < j < s.len());
        let k = j + 1;
        assert(k == j + comma.len());
        assert(forall|t: int| 0 <= t < c.skip(1).len() ==> wf_entry_text(#[trigger] c.skip(1)[t]))
            by {
            assert(forall|t: int| 0 <= t < c.skip(1).len() ==> c.skip(1)[t] == #[trigger] c[t
                + 1]);
        }
        assert(k + rest.len() == i + json_entries(c).len());
        lemma_parse_chain_items_canonical(s, k, c.skip(1));
        assert(spec_parse_chain_items(s, i) == Some((seq![c[0]] + c.skip(1), k + rest.len())));
        assert(seq![c[0]] + c.skip(1) =~= c);
    }
}

/// The quoted field literals drop their leading quote onto the text parser:
/// what follows is the same literal without it.
proof fn lemma_lit_firsts_params_tail()
    ensures
        (",\"params\":\"").spec_bytes() == ("\",\"params\":\"").spec_bytes().skip(1),
        (",\"hash_prev\":").spec_bytes() == ("\",\"hash_prev\":").spec_bytes().skip(1),
{
    lemma_entry_lits_ascii();
    reveal_strlit(",\"params\":\"");
    reveal_strlit("\",\"params\":\"");
    reveal_strlit(",\"hash_prev\":");
    reveal_strlit("\",\"hash_prev\":");
    assert(vstd::utf8::is_ascii_chars((",\"params\":\"")@)) by {
        assert(forall|i: int| 0 <= i < (",\"params\":\"")@.len() ==> ((#[trigger] (
        ",\"params\":\"")@[i]) as u32) < 128);
    }
    assert(vstd::utf8::is_ascii_chars((",\"hash_prev\":")@)) by {
        assert(forall|i: int| 0 <= i < (",\"hash_prev\":")@.len() ==> ((#[trigger] (
        ",\"hash_prev\":")@[i]) as u32) < 128);
    }
    lemma_lit_ascii(",\"params\":\"");
    lemma_lit_ascii("\",\"params\":\"");
    lemma_lit_ascii(",\"hash_prev\":");
    lemma_lit_ascii("\",\"hash_prev\":");
    let av = (",\"params\":\"")@;
    let bv = ("\",\"params\":\"")@;
    let a = (",\"params\":\"").spec_bytes();
    let b = ("\",\"params\":\"").spec_bytes();
    assert(av =~= bv.skip(1));
    assert forall|k: int| 0 <= k < a.len() implies a[k] == b.skip(1)[k] by {
        assert(a[k] == av[k] as u8);
        assert(b[k + 1] == bv[k + 1] as u8);
        assert(av[k] == bv.skip(1)[k]);
    }
    assert(a =~= b.skip(1));
    let cv = (",\"hash_prev\":")@;
    let dv = ("\",\"hash_prev\":")@;
    let c = (",\"hash_prev\":").spec_bytes();
    let d = ("\",\"hash_prev\":").spec_bytes();
    assert(cv =~= dv.skip(1));
    assert forall|k: int| 0 <= k < c.len() implies c[k] == d.skip(1)[k] by {
        assert(c[k] == cv[k] as u8);
        assert(d[k + 1] == dv[k + 1] as u8);
        assert(cv[k] == dv.skip(1)[k]);
    }
    assert(c =~= d.skip(1));
}

/// As for the entry fields: the token's quoted field literals drop their
/// leading quote onto the text parser.
proof fn lemma_token_lit_tails()
    ensures
        (",\"license_code\":\"").spec_bytes() == ("\",\"license_code\":\"").spec_bytes().skip(1),
        (",\"app_id\":\"").spec_bytes() == ("\",\"app_id\":\"").spec_bytes().skip(1),
        (",\"holder_device_id\":").spec_bytes() == (
        "\",\"holder_device_id\":").spec_bytes().skip(1),
{
    lemma_token_lits_ascii();
    reveal_strlit(",\"license_code\":\"");
    reveal_strlit("\",\"license_code\":\"");
    reveal_strlit(",\"app_id\":\"");
    reveal_strlit("\",\"app_id\":\"");
    reveal_strlit(",\"holder_device_id\":");
    reveal_strlit("\",\"holder_device_id\":");
    assert(vstd::utf8::is_ascii_chars((",\"license_code\":\"")@)) by {
        assert(forall|i: int| 0 <= i < (",\"license_code\":\"")@.len() ==> ((#[trigger] (
        ",\"license_code\":\"")@[i]) as u32) < 128);
    }
    assert(vstd::utf8::is_ascii_chars((",\"app_id\":\"")@)) by {
        assert(forall|i: int| 0 <= i < (",\"app_id\":\"")@.len() ==> ((#[trigger] (",\"app_id\":\"")@[
        i]) as u32) < 128);
    }
    assert(vstd::utf8::is_ascii_chars((",\"holder_device_id\":")@)) by {
        assert(forall|i: int| 0 <= i < (",\"holder_device_id\":")@.len() ==> ((#[trigger] (
        ",\"holder_device_id\":")@[i]) as u32) < 128);
    }
    lemma_lit_ascii(",\"license_code\":\"");
    lemma_lit_ascii("\",\"license_code\":\"");
    lemma_lit_ascii(",\"app_id\":\"");
    lemma_lit_ascii("\",\"app_id\":\"");
    lemma_lit_ascii(",\"holder_device_id\":");
    lemma_lit_ascii("\",\"holder_device_id\":");
    let av = (",\"license_code\":\"")@;
    let bv = ("\",\"license_code\":\"")@;
    let a = (",\"license_code\":\"").spec_bytes();
    let b = ("\",\"license_code\":\"").spec_bytes();
    assert(av =~= bv.skip(1));
    assert forall|k: int| 0 <= k < a.len() implies a[k] == b.skip(1)[k] by {
        assert(a[k] == av[k] as u8);
        assert(b[k + 1] == bv[k + 1] as u8);
        assert(av[k] == bv.skip(1)[k]);
    }
    assert(a =~= b.skip(1));
    let cv = (",\"app_id\":\"")@;
    let dv = ("\",\"app_id\":\"")@;
    let c = (",\"app_id\":\"").spec_bytes();
    let d = ("\",\"app_id\":\"").spec_bytes();
    assert(cv =~= dv.skip(1));
    assert forall|k: int| 0 <= k < c.len() implies c[k] == d.skip(1)[k] by {
        assert(c[k] == cv[k] as u8);
        assert(d[k + 1] == dv[k + 1] as u8);
        assert(cv[k] == dv.skip(1)[k]);
    }
    assert(c =~= d.skip(1));
    let ev = (",\"holder_device_id\":")@;
    let fv = ("\",\"holder_device_id\":")@;
    let e = (",\"holder_device_id\":").spec_bytes();
    let f = ("\",\"holder_device_id\":").spec_bytes();
    assert(ev =~= fv.skip(1));
    assert forall|k: int| 0 <= k < e.len() implies e[k] == f.skip(1)[k] by {
        assert(e[k] == ev[k] as u8);
        assert(f[k + 1] == fv[k + 1] as u8);
        assert(ev[k] == fv.skip(1)[k]);
    }
    assert(e =~= f.skip(1));
}

/// Parsing at the start of a canonical algorithm name recovers it.
proof fn lemma_parse_algorithm_canonical(s: Seq<u8>, i: int, a: SignatureAlgorithm)
    requires
        0 <= i,
        i + algorithm_bytes(a).len() <= s.len(),
        s.subrange(i, i + algorithm_bytes(a).len()) == algorithm_bytes(a),
    ensures
        spec_parse_algorithm(s, i) == Some((a, i + algorithm_bytes(a).len())),
{
    lemma_codec_lit_firsts();
    let alg = algorithm_bytes(a);
    match a {
        SignatureAlgorithm::Rsa => {
            assert(spec_expect(s, i, ("RSA").spec_bytes()) == Some(i + alg.len()));
        },
        SignatureAlgorithm::Ed25519 => {
            assert(s[i] == 69) by {
                assert(s.subrange(i, i + alg.len())[0] == s[i]);
            }
            assert(spec_expect(s, i, ("RSA").spec_bytes()) is None) by {
                if i + 3 <= s.len() {
                    assert(s.subrange(i, i + 3)[0] == s[i]);
                    assert(s.subrange(i, i + 3) != ("RSA").spec_bytes());
                }
            }
            assert(spec_expect(s, i, ("Ed25519").spec_bytes()) == Some(i + alg.len()));
        },
        SignatureAlgorithm::Sm2 => {
            assert(s[i] == 83) by {
                assert(s.subrange(i, i + alg.len())[0] == s[i]);
            }
            assert(spec_expect(s, i, ("RSA").spec_bytes()) is None) by {
                if i + 3 <= s.len() {
                    assert(s.subrange(i, i + 3)[0] == s[i]);
                    assert(s.subrange(i, i + 3) != ("RSA").spec_bytes());
                }
            }
            assert(spec_expect(s, i, ("Ed25519").spec_bytes()) is None) by {
                if i + 7 <= s.len() {
                    assert(s.subrange(i, i + 7)[0] == s[i]);
                    assert(s.subrange(i, i + 7) != ("Ed25519").spec_bytes());
                }
            }
            assert(spec_expect(s, i, ("SM2").spec_bytes()) == Some(i + alg.len()));
        },
    }
}

/// Parsing the canonical closing section recovers the signature, the
/// counter and the chain, and completes the token.
#[verifier::rlimit(100)]
#[verifier::spinoff_prover]
proof fn lemma_parse_token_close_canonical(s: Seq<u8>, i: int, m: TokenModel, head: TokenModel)
    requires
        0 <= i,
        wf_token_text(m),
        head == (TokenModel { signature: 0, state_index: 0, usage_chain: Seq::<
            EntryModel,
        >::empty(), ..m }),
        i + json_token_close(m).len() <= s.len(),
        s.subrange(i, i + json_token_close(m).len()) == json_token_close(m),
    ensures
        spec_parse_token_close(s, i, head) == Some((m, i + json_token_close(m).len())),
{
    lemma_codec_lit_firsts();
    crate::decimal::lemma_dec_nat_digits(m.signature as nat);
    crate::decimal::lemma_dec_nat_digits(m.state_index as nat);
    let u5 = (",\"signature\":").spec_bytes();
    let ds = dec_nat(m.signature as nat);
    let u6 = (",\"state_index\":").spec_bytes();
    let di = dec_nat(m.state_index as nat);
    let u7 = (",\"usage_chain\":[").spec_bytes();
    let ent = json_entries(m.usage_chain);
    let endlit = ("]}").spec_bytes();
    let counters = (u5 + ds) + (u6 + di);
    let chain = (u7 + ent) + endlit;
    assert(json_token_close(m) == counters + chain);
    let p1 = i;
    let p2 = p1 + u5.len();
    let p3 = p2 + ds.len();
    let p4 = p3 + u6.len();
    let p5 = p4 + di.len();
    let p6 = p5 + u7.len();
    let p7 = p6 + ent.len();
    let pend = p7 + endlit.len();
    lemma_split_prefix(s, i, counters, chain);
    lemma_split_prefix(s, p1, u5 + ds, u6 + di);
    lemma_split_prefix(s, p1, u5, ds);
    lemma_split_prefix(s, p3, u6, di);
    lemma_split_prefix(s, p5, u7 + ent, endlit);
    lemma_split_prefix(s, p5, u7, ent);
    assert(s[p3] == u6[0]) by {
        assert(s.subrange(p3, p3 + u6.len())[0] == s[p3]);
    }
    crate::decimal::lemma_parse_u64_canonical(s, p2, m.signature);
    assert(s[p5] == u7[0]) by {
        assert(s.subrange(p5, p5 + u7.len())[0] == s[p5]);
    }
    crate::decimal::lemma_parse_u64_canonical(s, p4, m.state_index);
    assert(spec_expect(s, p1, u5) == Some(p2));
    assert(spec_parse_u64(s, p2) == Some((m.signature, p3)));
    assert(spec_expect(s, p3, u6) == Some(p4));
    assert(spec_parse_u64(s, p4) == Some((m.state_index, p5)));
    assert(spec_expect(s, p5, u7) == Some(p6));
    let m0 = TokenModel { signature: m.signature, state_index: m.state_index, ..head };
    if m.usage_chain.len() == 0 {
        assert(ent.len() == 0);
        assert(p6 == p7);
        assert(spec_expect(s, p6, ("]}").spec_bytes()) == Some(pend));
        assert(m0 =~= m);
    } else {
        lemma_json_entries_first(m.usage_chain);
        assert(s[p6] == 123) by {
            assert(s.subrange(p6, p6 + ent.len())[0] == s[p6]);
        }
        assert(spec_expect(s, p6, ("]}").spec_bytes()) is None) by {
            if p6 + endlit.len() <= s.len() {
                assert(s.subrange(p6, p6 + endlit.len())[0] == s[p6]);
                assert(s.subrange(p6, p6 + endlit.len()) != endlit);
            }
        }
        assert(s[p7] == endlit[0] && endlit[0] == 93) by {
            assert(s.subrange(p7, p7 + endlit.len())[0] == s[p7]);
        }
        assert(p7 < s.len());
        lemma_parse_chain_items_canonical(s, p6, m.usage_chain);
        assert(spec_expect(s, p7, ("]}").spec_bytes()) == Some(pend));
        assert(TokenModel { usage_chain: m.usage_chain, ..m0 } =~= m);
    }
}

/// First bytes of the three field literals the tail peels around.
proof fn lemma_tail_firsts()
    ensures
        (",\"signature_algorithm\":\"").spec_bytes().len() > 0 && (
        ",\"signature_algorithm\":\"").spec_bytes()[0] == 44,
        (",\"root_signature\":").spec_bytes().len() > 0 && (",\"root_signature\":").spec_bytes()[0]
            == 44,
        (",\"signature\":").spec_bytes().len() > 0 && (",\"signature\":").spec_bytes()[0] == 44,
{
    lemma_entry_lits_ascii();
    lemma_token_lits_ascii();
    reveal_strlit(",\"signature_algorithm\":\"");
    reveal_strlit(",\"root_signature\":");
    reveal_strlit(",\"signature\":");
    lemma_lit_ascii(",\"signature_algorithm\":\"");
    lemma_lit_ascii(",\"root_signature\":");
    lemma_lit_ascii(",\"signature\":");
}

/// Folding the piecewise parse results into the tail parser's verdict.
#[verifier::spinoff_prover]
proof fn lemma_token_tail_assemble(
    s: Seq<u8>,
    i: int,
    m: TokenModel,
    head: TokenModel,
    p2: int,
    p3: int,
    p4: int,
    p5: int,
    p6: int,
    p7: int,
    p8: int,
    p9: int,
    pend: int,
)
    requires
        head == (TokenModel { signature: 0, state_index: 0, usage_chain: Seq::<
            EntryModel,
        >::empty(), ..m }),
        spec_expect(s, i, (",\"expire_time\":").spec_bytes()) == Some(p2),
        spec_parse_i64(s, p2) == Some((m.expire_time, p3)),
        spec_expect(s, p3, (",\"signature_algorithm\":\"").spec_bytes()) == Some(p4),
        spec_parse_algorithm(s, p4) == Some((m.signature_algorithm, p5)),
        spec_expect(s, p5, ("\",\"license_public_key\":").spec_bytes()) == Some(p6),
        spec_parse_u64(s, p6) == Some((m.license_public_key, p7)),
        spec_expect(s, p7, (",\"root_signature\":").spec_bytes()) == Some(p8),
        spec_parse_u64(s, p8) == Some((m.root_signature, p9)),
        spec_parse_token_close(s, p9, head) == Some((m, pend)),
    ensures
        spec_parse_token_tail(
            s,
            i,
            m.token_id,
            m.license_code,
            m.app_id,
            m.holder_device_id,
            m.issue_time,
        ) == Some((m, pend)),
{
}

/// The piecewise facts of the canonical tail: each literal and field sits
/// at its computed offset and parses to the matching field of `m`.
#[verifier::rlimit(100)]
#[verifier::spinoff_prover]
proof fn lemma_token_tail_pieces(s: Seq<u8>, i: int, m: TokenModel)
    requires
        0 <= i,
        wf_token_text(m),
        i + json_token_tail(m).len() <= s.len(),
        s.subrange(i, i + json_token_tail(m).len()) == json_token_tail(m),
    ensures
        ({
            let p2 = i + (",\"expire_time\":").spec_bytes().len();
            let p3 = p2 + dec_i64(m.expire_time).len();
            let p4 = p3 + (",\"signature_algorithm\":\"").spec_bytes().len();
            let p5 = p4 + algorithm_bytes(m.signature_algorithm).len();
            let p6 = p5 + ("\",\"license_public_key\":").spec_bytes().len();
            let p7 = p6 + dec_nat(m.license_public_key as nat).len();
            let p8 = p7 + (",\"root_signature\":").spec_bytes().len();
            let p9 = p8 + dec_nat(m.root_signature as nat).len();
            &&& spec_expect(s, i, (",\"expire_time\":").spec_bytes()) == Some(p2)
            &&& spec_parse_i64(s, p2) == Some((m.expire_time, p3))
            &&& spec_expect(s, p3, (",\"signature_algorithm\":\"").spec_bytes()) == Some(p4)
            &&& spec_parse_algorithm(s, p4) == Some((m.signature_algorithm, p5))
            &&& spec_expect(s, p5, ("\",\"license_public_key\":").spec_bytes()) == Some(p6)
            &&& spec_parse_u64(s, p6) == Some((m.license_public_key, p7))
            &&& spec_expect(s, p7, (",\"root_signature\":").spec_bytes()) == Some(p8)
            &&& spec_parse_u64(s, p8) == Some((m.root_signature, p9))
            &&& p9 + json_token_close(m).len() == i + json_token_tail(m).len()
            &&& p9 + json_token_close(m).len() <= s.len()
            &&& s.subrange(p9, p9 + json_token_close(m).len()) == json_token_close(m)
        }),
{
    lemma_tail_firsts();
    crate::decimal::lemma_dec_nat_digits(m.license_public_key as nat);
    crate::decimal::lemma_dec_nat_digits(m.root_signature as nat);
    let u1 = (",\"expire_time\":").spec_bytes();
    let de = dec_i64(m.expire_time);
    let u2 = (",\"signature_algorithm\":\"").spec_bytes();
    let alg = algorithm_bytes(m.signature_algorithm);
    let u3 = ("\",\"license_public_key\":").spec_bytes();
    let dk = dec_nat(m.license_public_key as nat);
    let u4 = (",\"root_signature\":").spec_bytes();
    let dr = dec_nat(m.root_signature as nat);
    let rest = json_token_close(m);
    let lifetime = (u1 + de) + (u2 + alg);
    let keys = (u3 + dk) + (u4 + dr);
    assert(json_token_tail(m) == (lifetime + keys) + rest);
    let p1 = i;
    let p2 = p1 + u1.len();
    let p3 = p2 + de.len();
    let p4 = p3 + u2.len();
    let p5 = p4 + alg.len();
    let p6 = p5 + u3.len();
    let p7 = p6 + dk.len();
    let p8 = p7 + u4.len();
    let p9 = p8 + dr.len();
    lemma_split_prefix(s, i, lifetime + keys, rest);
    lemma_split_prefix(s, i, lifetime, keys);
    lemma_split_prefix(s, p1, u1 + de, u2 + alg);
    lemma_split_prefix(s, p1, u1, de);
    lemma_split_prefix(s, p3, u2, alg);
    lemma_split_prefix(s, p5, u3 + dk, u4 + dr);
    lemma_split_prefix(s, p5, u3, dk);
    lemma_split_prefix(s, p7, u4, dr);
    assert(s[p3] == u2[0]) by {
        assert(s.subrange(p3, p3 + u2.len())[0] == s[p3]);
    }
    crate::decimal::lemma_parse_i64_canonical(s, p2, m.expire_time);
    lemma_parse_algorithm_canonical(s, p4, m.signature_algorithm);
    assert(s[p7] == u4[0]) by {
        assert(s.subrange(p7, p7 + u4.len())[0] == s[p7]);
    }
    crate::decimal::lemma_parse_u64_canonical(s, p6, m.license_public_key);
    assert(s[p9] == rest[0] && rest[0] == 44) by {
        assert(s.subrange(p9, p9 + rest.len())[0] == s[p9]);
        assert(rest[0] == (",\"signature\":").spec_bytes()[0]);
    }
    crate::decimal::lemma_parse_u64_canonical(s, p8, m.root_signature);
}

/// Parsing the canonical tail recovers the remaining fields and rebuilds
/// exactly the serialized token.
#[verifier::rlimit(100)]
#[verifier::spinoff_prover]
proof fn lemma_parse_token_tail_canonical(s: Seq<u8>, i: int, m: TokenModel)
    requires
        0 <= i,
        wf_token_text(m),
        i + json_token_tail(m).len() <= s.len(),
        s.subrange(i, i + json_token_tail(m).len()) == json_token_tail(m),
    ensures
        spec_parse_token_tail(
            s,
            i,
            m.token_id,
            m.license_code,
            m.app_id,
            m.holder_device_id,
            m.issue_time,
        ) == Some((m, i + json_token_tail(m).len())),
{
    lemma_token_tail_pieces(s, i, m);
    let p2 = i + (",\"expire_time\":").spec_bytes().len();
    let p3 = p2 + dec_i64(m.expire_time).len();
    let p4 = p3 + (",\"signature_algorithm\":\"").spec_bytes().len();
    let p5 = p4 + algorithm_bytes(m.signature_algorithm).len();
    let p6 = p5 + ("\",\"license_public_key\":").spec_bytes().len();
    let p7 = p6 + dec_nat(m.license_public_key as nat).len();
    let p8 = p7 + (",\"root_signature\":").spec_bytes().len();
    let p9 = p8 + dec_nat(m.root_signature as nat).len();
    let pend = p9 + json_token_close(m).len();
    let head = TokenModel {
        token_id: m.token_id,
        license_code: m.license_code,
        app_id: m.app_id,
        holder_device_id: m.holder_device_id,
        issue_time: m.issue_time,
        expire_time: m.expire_time,
        signature_algorithm: m.signature_algorithm,
        license_public_key: m.license_public_key,
        root_signature: m.root_signature,
        signature: 0,
        state_index: 0,
        usage_chain: Seq::empty(),
    };
    lemma_parse_token_close_canonical(s, p9, m, head);
    lemma_token_tail_assemble(s, i, m, head, p2, p3, p4, p5, p6, p7, p8, p9, pend);
}

/// The text fields of the canonical head: each quoted identifier sits at
/// its computed offset and parses back.
#[verifier::rlimit(100)]
#[verifier::spinoff_prover]
proof fn lemma_token_text_pieces(m: TokenModel)
    ensures
        ({
            let s = json_token(m);
            let p2 = ("{\"token_id\":\"").spec_bytes().len() as int;
            let q3 = p2 + esc(m.token_id).len() + 1;
            let p4 = q3 + ("\",\"license_code\":\"").spec_bytes().len() - 1;
            let q5 = p4 + esc(m.license_code).len() + 1;
            let p6 = q5 + ("\",\"app_id\":\"").spec_bytes().len() - 1;
            let q7 = p6 + esc(m.app_id).len() + 1;
            let p8 = q7 + ("\",\"holder_device_id\":").spec_bytes().len() - 1;
            &&& spec_expect(s, 0, ("{\"token_id\":\"").spec_bytes()) == Some(p2)
            &&& spec_parse_text(s, p2) == Some((m.token_id, q3))
            &&& spec_expect(s, q3, (",\"license_code\":\"").spec_bytes()) == Some(p4)
            &&& spec_parse_text(s, p4) == Some((m.license_code, q5))
            &&& spec_expect(s, q5, (",\"app_id\":\"").spec_bytes()) == Some(p6)
            &&& spec_parse_text(s, p6) == Some((m.app_id, q7))
            &&& spec_expect(s, q7, (",\"holder_device_id\":").spec_bytes()) == Some(p8)
        }),
{
    lemma_codec_lit_firsts();
    lemma_token_lit_tails();
    let s = json_token(m);
    let t1 = ("{\"token_id\":\"").spec_bytes();
    let e1 = esc(m.token_id);
    let t2 = ("\",\"license_code\":\"").spec_bytes();
    let e2 = esc(m.license_code);
    let t3 = ("\",\"app_id\":\"").spec_bytes();
    let e3 = esc(m.app_id);
    let t4 = ("\",\"holder_device_id\":").spec_bytes();
    let dh = dec_nat(m.holder_device_id as nat);
    let t5 = (",\"issue_time\":").spec_bytes();
    let di = dec_i64(m.issue_time);
    let tail = json_token_tail(m);
    let idents = ((t1 + e1) + (t2 + e2)) + (t3 + e3);
    let holder = (t4 + dh) + (t5 + di);
    assert(s == idents + (holder + tail));
    assert(s.subrange(0, s.len() as int) =~= s);
    let p1 = 0int;
    let p2 = p1 + t1.len();
    let p3 = p2 + e1.len();
    let p4 = p3 + t2.len();
    let p5 = p4 + e2.len();
    let p6 = p5 + t3.len();
    let p7 = p6 + e3.len();
    let p8 = p7 + t4.len();
    lemma_split_prefix(s, 0, idents, holder + tail);
    lemma_split_prefix(s, 0, (t1 + e1) + (t2 + e2), t3 + e3);
    lemma_split_prefix(s, 0, t1 + e1, t2 + e2);
    lemma_split_prefix(s, 0, t1, e1);
    lemma_split_prefix(s, p3, t2, e2);
    lemma_split_prefix(s, p5, t3, e3);
    lemma_split_prefix(s, p7, holder, tail);
    lemma_split_prefix(s, p7, t4 + dh, t5 + di);
    lemma_split_prefix(s, p7, t4, dh);
    assert(s[p3] == t2[0] && t2[0] == QUOTE) by {
        assert(s.subrange(p3, p3 + t2.len())[0] == s[p3]);
    }
    assert(s.subrange(p2, p3 + 1) =~= e1.push(QUOTE)) by {
        assert(forall|k: int| 0 <= k < e1.len() ==> #[trigger] s.subrange(p2, p3 + 1)[k] == s[p2
            + k] && s.subrange(p2, p2 + e1.len())[k] == s[p2 + k]);
    }
    crate::text::lemma_parse_text_canonical(s, p2, m.token_id);
    let q3 = p3 + 1;
    assert(s.subrange(q3, p4) =~= t2.skip(1)) by {
        assert(forall|k: int| 0 <= k < t2.len() ==> #[trigger] s.subrange(p3, p4)[k] == s[p3 + k]);
        assert(forall|k: int| 0 <= k < t2.len() - 1 ==> #[trigger] s.subrange(q3, p4)[k] == s[q3
            + k]);
    }
    assert(s[p5] == t3[0] && t3[0] == QUOTE) by {
        assert(s.subrange(p5, p5 + t3.len())[0] == s[p5]);
    }
    assert(s.subrange(p4, p5 + 1) =~= e2.push(QUOTE)) by {
        assert(forall|k: int| 0 <= k < e2.len() ==> #[trigger] s.subrange(p4, p5 + 1)[k] == s[p4
            + k] && s.subrange(p4, p4 + e2.len())[k] == s[p4 + k]);
    }
    crate::text::lemma_parse_text_canonical(s, p4, m.license_code);
    let q5 = p5 + 1;
    assert(s.subrange(q5, p6) =~= t3.skip(1)) by {
        assert(forall|k: int| 0 <= k < t3.len() ==> #[trigger] s.subrange(p5, p6)[k] == s[p5 + k]);
        assert(forall|k: int| 0 <= k < t3.len() - 1 ==> #[trigger] s.subrange(q5, p6)[k] == s[q5
            + k]);
    }
    assert(s[p7] == t4[0] && t4[0] == QUOTE) by {
        assert(s.subrange(p7, p7 + t4.len())[0] == s[p7]);
    }
    assert(s.subrange(p6, p7 + 1) =~= e3.push(QUOTE)) by {
        assert(forall|k: int| 0 <= k < e3.len() ==> #[trigger] s.subrange(p6, p7 + 1)[k] == s[p6
            + k] && s.subrange(p6, p6 + e3.len())[k] == s[p6 + k]);
    }
    crate::text::lemma_parse_text_canonical(s, p6, m.app_id);
    let q7 = p7 + 1;
    assert(s.subrange(q7, p8) =~= t4.skip(1)) by {
        assert(forall|k: int| 0 <= k < t4.len() ==> #[trigger] s.subrange(p7, p8)[k] == s[p7 + k]);
        assert(forall|k: int| 0 <= k < t4.len() - 1 ==> #[trigger] s.subrange(q7, p8)[k] == s[q7
            + k]);
    }
}

/// The piecewise facts of the canonical head: each literal and field of the
/// serialized token sits at its computed offset and parses back.
#[verifier::rlimit(100)]
#[verifier::spinoff_prover]
proof fn lemma_token_head_pieces(m: TokenModel)
    requires
        wf_token_text(m),
    ensures
        ({
            let s = json_token(m);
            let p2 = ("{\"token_id\":\"").spec_bytes().len() as int;
            let q3 = p2 + esc(m.token_id).len() + 1;
            let p4 = q3 + ("\",\"license_code\":\"").spec_bytes().len() - 1;
            let q5 = p4 + esc(m.license_code).len() + 1;
            let p6 = q5 + ("\",\"app_id\":\"").spec_bytes().len() - 1;
            let q7 = p6 + esc(m.app_id).len() + 1;
            let p8 = q7 + ("\",\"holder_device_id\":").spec_bytes().len() - 1;
            let p9 = p8 + dec_nat(m.holder_device_id as nat).len();
            let p10 = p9 + (",\"issue_time\":").spec_bytes().len();
            let p11 = p10 + dec_i64(m.issue_time).len();
            &&& spec_expect(s, 0, ("{\"token_id\":\"").spec_bytes()) == Some(p2)
            &&& spec_parse_text(s, p2) == Some((m.token_id, q3))
            &&& spec_expect(s, q3, (",\"license_code\":\"").spec_bytes()) == Some(p4)
            &&& spec_parse_text(s, p4) == Some((m.license_code, q5))
            &&& spec_expect(s, q5, (",\"app_id\":\"").spec_bytes()) == Some(p6)
            &&& spec_parse_text(s, p6) == Some((m.app_id, q7))
            &&& spec_expect(s, q7, (",\"holder_device_id\":").spec_bytes()) == Some(p8)
            &&& spec_parse_u64(s, p8) == Some((m.holder_device_id, p9))
            &&& spec_expect(s, p9, (",\"issue_time\":").spec_bytes()) == Some(p10)
            &&& spec_parse_i64(s, p10) == Some((m.issue_time, p11))
            &&& p11 + json_token_tail(m).len() == s.len()
            &&& s.subrange(p11, p11 + json_token_tail(m).len()) == json_token_tail(m)
        }),
{
    lemma_token_text_pieces(m);
    lemma_codec_lit_firsts();
    crate::decimal::lemma_dec_nat_digits(m.holder_device_id as nat);
    let s = json_token(m);
    let t1 = ("{\"token_id\":\"").spec_bytes();
    let e1 = esc(m.token_id);
    let t2 = ("\",\"license_code\":\"").spec_bytes();
    let e2 = esc(m.license_code);
    let t3 = ("\",\"app_id\":\"").spec_bytes();
    let e3 = esc(m.app_id);
    let t4 = ("\",\"holder_device_id\":").spec_bytes();
    let dh = dec_nat(m.holder_device_id as nat);
    let t5 = (",\"issue_time\":").spec_bytes();
    let di = dec_i64(m.issue_time);
    let tail = json_token_tail(m);
    let idents = ((t1 + e1) + (t2 + e2)) + (t3 + e3);
    let holder = (t4 + dh) + (t5 + di);
    assert(s == idents + (holder + tail));
    assert(s.subrange(0, s.len() as int) =~= s);
    let p7 = (t1.len() + e1.len() + t2.len() + e2.len() + t3.len() + e3.len()) as int;
    let p8 = p7 + t4.len();
    let p9 = p8 + dh.len();
    let p10 = p9 + t5.len();
    let p11 = p10 + di.len();
    lemma_split_prefix(s, 0, idents, holder + tail);
    lemma_split_prefix(s, p7, holder, tail);
    lemma_split_prefix(s, p7, t4 + dh, t5 + di);
    lemma_split_prefix(s, p7, t4, dh);
    lemma_split_prefix(s, p9, t5, di);
    assert(s[p9] == t5[0]) by {
        assert(s.subrange(p9, p9 + t5.len())[0] == s[p9]);
    }
    crate::decimal::lemma_parse_u64_canonical(s, p8, m.holder_device_id);
    assert(s[p11] == tail[0] && tail[0] == 44) by {
        assert(s.subrange(p11, p11 + tail.len())[0] == s[p11]);
        assert(tail[0] == (",\"expire_time\":").spec_bytes()[0]);
    }
    crate::decimal::lemma_parse_i64_canonical(s, p10, m.issue_time);
}

/// Folding the piecewise parse results into the token parser's verdict.
#[verifier::spinoff_prover]
proof fn lemma_token_head_assemble(
    s: Seq<u8>,
    m: TokenModel,
    p2: int,
    q3: int,
    p4: int,
    q5: int,
    p6: int,
    q7: int,
    p8: int,
    p9: int,
    p10: int,
    p11: int,
    pend: int,
)
    requires
        spec_expect(s, 0, ("{\"token_id\":\"").spec_bytes()) == Some(p2),
        spec_parse_text(s, p2) == Some((m.token_id, q3)),
        spec_expect(s, q3, (",\"license_code\":\"").spec_bytes()) == Some(p4),
        spec_parse_text(s, p4) == Some((m.license_code, q5)),
        spec_expect(s, q5, (",\"app_id\":\"").spec_bytes()) == Some(p6),
        spec_parse_text(s, p6) == Some((m.app_id, q7)),
        spec_expect(s, q7, (",\"holder_device_id\":").spec_bytes()) == Some(p8),
        spec_parse_u64(s, p8) == Some((m.holder_device_id, p9)),
        spec_expect(s, p9, (",\"issue_time\":").spec_bytes()) == Some(p10),
        spec_parse_i64(s, p10) == Some((m.issue_time, p11)),
        spec_parse_token_tail(
            s,
            p11,
            m.token_id,
            m.license_code,
            m.app_id,
            m.holder_device_id,
            m.issue_time,
        ) == Some((m, pend)),
    ensures
        spec_parse_token(s, 0) == Some((m, pend)),
{
}

/// Parsing the canonical JSON of a well-formed token yields that token:
/// serialization and parsing are mutually inverse on well-formed tokens.
#[verifier::spinoff_prover]
pub proof fn lemma_token_json_round_trip(m: TokenModel)
    requires
        wf_token_text(m),
    ensures
        spec_parse_token_doc(json_token(m)) == Some(m),
{
    let s = json_token(m);
    lemma_token_head_pieces(m);
    let p2 = ("{\"token_id\":\"").spec_bytes().len() as int;
    let q3 = p2 + esc(m.token_id).len() + 1;
    let p4 = q3 + ("\",\"license_code\":\"").spec_bytes().len() - 1;
    let q5 = p4 + esc(m.license_code).len() + 1;
    let p6 = q5 + ("\",\"app_id\":\"").spec_bytes().len() - 1;
    let q7 = p6 + esc(m.app_id).len() + 1;
    let p8 = q7 + ("\",\"holder_device_id\":").spec_bytes().len() - 1;
    let p9 = p8 + dec_nat(m.holder_device_id as nat).len();
    let p10 = p9 + (",\"issue_time\":").spec_bytes().len();
    let p11 = p10 + dec_i64(m.issue_time).len();
    let pend = p11 + json_token_tail(m).len();
    lemma_parse_token_tail_canonical(s, p11, m);
    lemma_token_head_assemble(s, m, p2, q3, p4, q5, p6, q7, p8, p9, p10, p11, pend);
    assert(spec_parse_token(s, 0) == Some((m, pend)));
    assert(pend == s.len());
}

pub(crate) fn expect_lit(s: &[u8], i: usize, p: &str) -> (r: Option<usize>)
    requires
        i <= s@.len(),
    ensures
        match r {
            Some(j) => spec_expect(s@, i as int, p.spec_bytes()) == Some(j as int) && i <= j
                <= s@.len(),
            None => spec_expect(s@, i as int, p.spec_bytes()) is None,
        },
{
    let pb = p.as_bytes();
    if pb.len() > s.len() - i {
        return None;
    }
    let n = s.len();
    let mut k: usize = 0;
    while k < pb.len()
        invariant
            0 <= k <= pb@.len(),
            i + pb@.len() <= s@.len(),
            n == s@.len(),
            pb@ == p.spec_bytes(),
            forall|t: int| 0 <= t < k ==> s@[i + t] == #[trigger] pb@[t],
        decreases pb@.len() - k,
    {
        if s[i + k] != pb[k] {
            proof {
                let sub = s@.subrange(i as int, i + pb@.len());
                assert(sub[k as int] == s@[i + k]);
                assert(sub != pb@);
            }
            return None;
        }
        k = k + 1;
    }
    proof {
        assert(s@.subrange(i as int, i + pb@.len()) =~= pb@);
    }
    Some(i + pb.len())
}

pub(crate) fn parse_algorithm_at(s: &[u8], i: usize) -> (r: Option<(SignatureAlgorithm, usize)>)
    requires
        i <= s@.len(),
    ensures
        match r {
            Some((a, j)) => spec_parse_algorithm(s@, i as int) == Some((a, j as int)) && i <= j
                <= s@.len(),
            None => spec_parse_algorithm(s@, i as int) is None,
        },
{
    if let Some(j) = expect_lit(s, i, "RSA") {
        return Some((SignatureAlgorithm::Rsa, j));
    }
    if let Some(j) = expect_lit(s, i, "Ed25519") {
        return Some((SignatureAlgorithm::Ed25519, j));
    }
    if let Some(j) = expect_lit(s, i, "SM2") {
        return Some((SignatureAlgorithm::Sm2, j));
    }
    None
}

/// Parse one entry object at `i`; mirrors `spec_parse_entry` exactly.
fn parse_entry_at(s: &[u8], i: usize) -> (r: Option<(UsageEntry, usize)>)
    requires
        i <= s@.len(),
    ensures
        match r {
            Some((e, j)) => spec_parse_entry(s@, i as int) == Some((e@, j as int)) && i < j
                <= s@.len(),
            None => spec_parse_entry(s@, i as int) is None,
        },
{
    let i1 = match expect_lit(s, i, "{\"seq\":") {
        Some(j) => j,
        None => {
            return None;
        },
    };
    let (seq_no, i2) = match parse_u64_at(s, i1) {
        Some(v) => v,
        None => {
            return None;
        },
    };
    let i3 = match expect_lit(s, i2, ",\"time\":") {
        Some(j) => j,
        None => {
            return None;
        },
    };
    let (time, i4) = match parse_i64_at(s, i3) {
        Some(v) => v,
        None => {
            return None;
        },
    };
    let i5 = match expect_lit(s, i4, ",\"action\":\"") {
        Some(j) => j,
        None => {
            return None;
        },
    };
    let (action, i6) = match parse_text_at(s, i5) {
        Some(v) => v,
        None => {
            return None;
        },
    };
    let i7 = match expect_lit(s, i6, ",\"params\":\"") {
        Some(j) => j,
        None => {
            return None;
        },
    };
    let (params, i8) = match parse_text_at(s, i7) {
        Some(v) => v,
        None => {
            return None;
        },
    };
    let i9 = match expect_lit(s, i8, ",\"hash_prev\":") {
        Some(j) => j,
        None => {
            return None;
        },
    };
    let (hash_prev, i10) = match parse_u64_at(s, i9) {
        Some(v) => v,
        None => {
            return None;
        },
    };
    let i11 = match expect_lit(s, i10, ",\"signature\":") {
        Some(j) => j,
        None => {
            return None;
        },
    };
    let (signature, i12) = match parse_u64_at(s, i11) {
        Some(v) => v,
        None => {
            return None;
        },
    };
    let i13 = match expect_lit(s, i12, "}") {
        Some(j) => j,
        None => {
            return None;
        },
    };
    let entry = UsageEntry { seq_no, time, action, params, hash_prev, signature };
    Some((entry, i13))
}

/// Parse one or more comma-separated entries at `i`; mirrors
/// `spec_parse_chain_items` exactly.
fn parse_chain_items_at(s: &[u8], i: usize) -> (r: Option<(Vec<UsageEntry>, usize)>)
    requires
        i <= s@.len(),
    ensures
        match r {
            Some((c, j)) => spec_parse_chain_items(s@, i as int) == Some(
                (c@.map_values(|e: UsageEntry| e@), j as int),
            ) && i < j <= s@.len(),
            None => spec_parse_chain_items(s@, i as int) is None,
        },
{
    let mut acc: Vec<UsageEntry> = Vec::new();
    let mut cur: usize = i;
    assert(acc@.map_values(|e: UsageEntry| e@) =~= Seq::<EntryModel>::empty());
    loop
        invariant
            i <= cur <= s@.len(),
            spec_parse_chain_items(s@, i as int) == (match spec_parse_chain_items(
                s@,
                cur as int,
            ) {
                Some((rest, k)) => Some((acc@.map_values(|e: UsageEntry| e@) + rest, k)),
                None => None,
            }),
            i < cur || acc@.len() == 0,
        decreases s@.len() - cur,
    {
        let (entry, j) = match parse_entry_at(s, cur) {
            Some(v) => v,
            None => {
                return None;
            },
        };
        if j < s.len() && s[j] == 44 {
            proof {
                let am = acc@.map_values(|e: UsageEntry| e@);
                let pm = acc@.push(entry).map_values(|e: UsageEntry| e@);
                assert(pm =~= am.push(entry@));
                assert(spec_parse_chain_items(s@, cur as int) == (match spec_parse_chain_items(
                    s@,
                    j as int + 1,
                ) {
                    Some((rest, k)) => Some((seq![entry@] + rest, k)),
                    None => None,
                }));
                assert(forall|rest: Seq<EntryModel>| #[trigger] (pm + rest) =~= am + (seq![entry@]
                    + rest));
            }
            acc.push(entry);
            cur = j + 1;
        } else {
            proof {
                assert(spec_parse_chain_items(s@, cur as int) == Some((seq![entry@], j as int)));
                assert(acc@.push(entry).map_values(|e: UsageEntry| e@) =~= acc@.map_values(
                    |e: UsageEntry| e@,
                ) + seq![entry@]);
            }
            acc.push(entry);
            return Some((acc, j));
        }
    }
}

/// Parse a whole token document; mirrors `spec_parse_token_doc` exactly.
pub fn parse_token_document(s: &[u8]) -> (r: Option<Token>)
    ensures
        match r {
            Some(t) => spec_parse_token_doc(s@) == Some(t@),
            None => spec_parse_token_doc(s@) is None,
        },
{
    let i1 = match expect_lit(s, 0, "{\"token_id\":\"") {
        Some(j) => j,
        None => {
            return None;
        },
    };
    let (token_id, i2) = match parse_text_at(s, i1) {
        Some(v) => v,
        None => {
            return None;
        },
    };
    let i3 = match expect_lit(s, i2, ",\"license_code\":\"") {
        Some(j) => j,
        None => {
            return None;
        },
    };
    let (license_code, i4) = match parse_text_at(s, i3) {
        Some(v) => v,
        None => {
            return None;
        },
    };
    let i5 = match expect_lit(s, i4, ",\"app_id\":\"") {
        Some(j) => j,
        None => {
            return None;
        },
    };
    let (app_id, i6) = match parse_text_at(s, i5) {
        Some(v) => v,
        None => {
            return None;
        },
    };
    let i7 = match expect_lit(s, i6, ",\"holder_device_id\":") {
        Some(j) => j,
        None => {
            return None;
        },
    };
    let (holder_device_id, i8) = match parse_u64_at(s, i7) {
        Some(v) => v,
        None => {
            return None;
        },
    };
    let i9 = match expect_lit(s, i8, ",\"issue_time\":") {
        Some(j) => j,
        None => {
            return None;
        },
    };
    let (issue_time, i10) = match parse_i64_at(s, i9) {
        Some(v) => v,
        None => {
            return None;
        },
    };
    let i11 = match expect_lit(s, i10, ",\"expire_time\":") {
        Some(j) => j,
        None => {
            return None;
        },
    };
    let (expire_time, i12) = match parse_i64_at(s, i11) {
        Some(v) => v,
        None => {
            return None;
        },
    };
    let i13 = match expect_lit(s, i12, ",\"signature_algorithm\":\"") {
        Some(j) => j,
        None => {
            return None;
        },
    };
    let (signature_algorithm, i14) = match parse_algorithm_at(s, i13) {
        Some(v) => v,
        None => {
            return None;
        },
    };
    let i15 = match expect_lit(s, i14, "\",\"license_public_key\":") {
        Some(j) => j,
        None => {
            return None;
        },
    };
    let (license_public_key, i16) = match parse_u64_at(s, i15) {
        Some(v) => v,
        None => {
            return None;
        },
    };
    let i17 = match expect_lit(s, i16, ",\"root_signature\":") {
        Some(j) => j,
        None => {
            return None;
        },
    };
    let (root_signature, i18) = match parse_u64_at(s, i17) {
        Some(v) => v,
        None => {
            return None;
        },
    };
    let i19 = match expect_lit(s, i18, ",\"signature\":") {
        Some(j) => j,
        None => {
            return None;
        },
    };
    let (signature, i20) = match parse_u64_at(s, i19) {
        Some(v) => v,
        None => {
            return None;
        },
    };
    let i21 = match expect_lit(s, i20, ",\"state_index\":") {
        Some(j) => j,
        None => {
            return None;
        },
    };
    let (state_index, i22) = match parse_u64_at(s, i21) {
        Some(v) => v,
        None => {
            return None;
        },
    };
    let i23 = match expect_lit(s, i22, ",\"usage_chain\":[") {
        Some(j) => j,
        None => {
            return None;
        },
    };
    let mut token = Token {
        token_id,
        license_code,
        app_id,
        holder_device_id,
        issue_time,
        expire_time,
        signature_algorithm,
        license_public_key,
        root_signature,
        signature,
        state_index,
        usage_chain: Vec::new(),
    };
    assert(token@.usage_chain =~= Seq::<EntryModel>::empty());
    if let Some(end) = expect_lit(s, i23, "]}") {
        if end == s.len() {
            return Some(token);
        }
        return None;
    }
    let (chain, i24) = match parse_chain_items_at(s, i23) {
        Some(v) => v,
        None => {
            return None;
        },
    };
    let end = match expect_lit(s, i24, "]}") {
        Some(j) => j,
        None => {
            return None;
        },
    };
    if end != s.len() {
        return None;
    }
    token.usage_chain = chain;
    Some(token)
}

/// Whether a byte is JSON whitespace.
pub open spec fn is_json_ws(b: u8) -> bool {
    b == 32 || b == 9 || b == 10 || b == 13
}

/// The document with insignificant whitespace removed: whitespace outside
/// string bodies is dropped, string bodies (tracked through their escapes)
/// are kept byte for byte. Import retries through this when the strict
/// canonical parse refuses a document.
pub open spec fn spec_strip_ws(s: Seq<u8>, i: int, in_text: bool) -> Seq<u8>
    decreases s.len() - i,
{
    if i < 0 || i >= s.len() {
        Seq::empty()
    } else if in_text {
        if s[i] == BACKSLASH && i + 1 < s.len() {
            seq![s[i], s[i + 1]] + spec_strip_ws(s, i + 2, true)
        } else if s[i] == QUOTE {
            seq![s[i]] + spec_strip_ws(s, i + 1, false)
        } else {
            seq![s[i]] + spec_strip_ws(s, i + 1, true)
        }
    } else if is_json_ws(s[i]) {
        spec_strip_ws(s, i + 1, false)
    } else if s[i] == QUOTE {
        seq![s[i]] + spec_strip_ws(s, i + 1, true)
    } else {
        seq![s[i]] + spec_strip_ws(s, i + 1, false)
    }
}

/// Remove insignificant whitespace; mirrors `spec_strip_ws` exactly.
pub fn strip_ws(s: &[u8]) -> (r: Vec<u8>)
    ensures
        r@ == spec_strip_ws(s@, 0, false),
{
    let mut out: Vec<u8> = Vec::new();
    let mut i: usize = 0;
    let mut in_text = false;
    loop
        invariant
            0 <= i <= s@.len(),
            spec_strip_ws(s@, 0, false) == out@ + spec_strip_ws(s@, i as int, in_text),
        decreases s@.len() - i,
    {
        if i == s.len() {
            proof {
                assert(out@ + spec_strip_ws(s@, i as int, in_text) =~= out@);
            }
            return out;
        }
        let b = s[i];
        let ghost before = out@;
        if in_text {
            if b == crate::text::BACKSLASH && i + 1 < s.len() {
                let c = s[i + 1];
                out.push(b);
                out.push(c);
                proof {
                    assert(out@ =~= before + seq![b, c]);
                    assert(out@ + spec_strip_ws(s@, i as int + 2, true) =~= before + (seq![b, c]
                        + spec_strip_ws(s@, i as int + 2, true)));
                }
                i = i + 2;
            } else {
                out.push(b);
                if b == crate::text::QUOTE {
                    in_text = false;
                }
                proof {
                    assert(out@ =~= before + seq![b]);
                    assert(out@ + spec_strip_ws(s@, i as int + 1, in_text) =~= before + (seq![b]
                        + spec_strip_ws(s@, i as int + 1, in_text)));
                }
                i = i + 1;
            }
        } else {
            if b == 32 || b == 9 || b == 10 || b == 13 {
                i = i + 1;
            } else {
                out.push(b);
                if b == crate::text::QUOTE {
                    in_text = true;
                }
                proof {
                    assert(out@ =~= before + seq![b]);
                    assert(out@ + spec_strip_ws(s@, i as int + 1, in_text) =~= before + (seq![b]
                        + spec_strip_ws(s@, i as int + 1, in_text)));
                }
                i = i + 1;
            }
        }
    }
}

/// Strict parse of a whole token document: the canonical JSON object with
/// nothing before or after it.
pub open spec fn spec_parse_token_doc(s: Seq<u8>) -> Option<TokenModel> {
    match spec_parse_token(s, 0) {
        None => None,
        Some((m, j)) => if j == s.len() {
            Some(m)
        } else {
            None
        },
    }
}

} // verus!
