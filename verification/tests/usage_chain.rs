use decentri_license::client::{DecentriLicenseClient, DecentriLicenseError};
use decentri_license::digest::{digest_bytes, keyed_digest_bytes, le_bytes_vec};
use decentri_license::token::{token_core_vec, SignatureAlgorithm, Token};

fn signed_token(expire_time: i64) -> Token {
    let license_key: u64 = 4_242;
    let root_key = digest_bytes(b"usage-root");
    let mut t = Token {
        token_id: b"tok-usage".to_vec(),
        license_code: b"LC-USE".to_vec(),
        app_id: b"app".to_vec(),
        holder_device_id: 0,
        issue_time: 1_600_000_000,
        expire_time,
        signature_algorithm: SignatureAlgorithm::Ed25519,
        license_public_key: license_key,
        root_signature: 0,
        signature: 0,
        state_index: 0,
        usage_chain: Vec::new(),
    };
    t.root_signature = keyed_digest_bytes(root_key, &le_bytes_vec(license_key));
    let core = token_core_vec(&t);
    t.signature = keyed_digest_bytes(license_key, &core);
    t
}

fn activated_client(expire_time: i64) -> DecentriLicenseClient {
    let mut c = DecentriLicenseClient::new().unwrap();
    c.initialize("LC-USE", 41100, 41200, None, 8123).unwrap();
    c.set_product_public_key("Ed25519:usage-root").unwrap();
    let json = String::from_utf8(decentri_license::codec::token_to_json(&signed_token(
        expire_time,
    )))
    .unwrap();
    c.import_token(&json).unwrap();
    let v = c.activate_bind_device().unwrap();
    assert!(v.valid);
    c
}

#[test]
fn counter_tracks_chain_length_across_appends() {
    let mut c = activated_client(0);
    for step in 0..4u64 {
        let v = c
            .record_usage_at("{\"count\":1}", 1_600_000_100 + step as i64)
            .unwrap();
        assert!(v.valid);
        let t = c.get_current_token().unwrap().unwrap();
        assert_eq!(t.state_index, step + 1);
        assert_eq!(t.usage_chain.len() as u64, step + 1);
        assert_eq!(t.usage_chain[step as usize].seq_no, step);
        let verdict = c.offline_verify_current_token().unwrap();
        assert!(verdict.valid);
    }
}

#[test]
fn append_keeps_prior_entries_byte_identical() {
    let mut c = activated_client(0);
    c.record_usage_at("{\"a\":1}", 10).unwrap();
    let before = c.get_current_token().unwrap().unwrap();
    let before_json = decentri_license::codec::entry_to_json(&before.usage_chain[0]);
    let v = c.record_usage_at("{\"b\":2}", 11).unwrap();
    assert!(v.valid);
    let after = c.get_current_token().unwrap().unwrap();
    assert_eq!(after.state_index, before.state_index + 1);
    let after_json = decentri_license::codec::entry_to_json(&after.usage_chain[0]);
    assert_eq!(before_json, after_json);
    assert!(c.offline_verify_current_token().unwrap().valid);
}

#[test]
fn entries_are_hash_linked_from_genesis() {
    let mut c = activated_client(0);
    c.record_usage_at("{\"n\":1}", 21).unwrap();
    c.record_usage_at("{\"n\":2}", 22).unwrap();
    let t = c.get_current_token().unwrap().unwrap();
    assert_eq!(t.usage_chain[0].hash_prev, decentri_license::digest::DIGEST_SEED);
    let first_bytes = decentri_license::token::entry_vec(&t.usage_chain[0]);
    assert_eq!(t.usage_chain[1].hash_prev, digest_bytes(&first_bytes));
}

#[test]
fn never_expiring_token_records_at_any_time() {
    let mut c = activated_client(0);
    let v = c.record_usage_at("{\"late\":true}", i64::MAX).unwrap();
    assert!(v.valid);
    let v = c.record_usage_at("{\"early\":true}", 0).unwrap();
    assert!(v.valid);
}

#[test]
fn expired_token_is_rejected_with_detail() {
    let mut c = activated_client(1_600_000_050);
    let v = c.record_usage_at("{\"x\":1}", 1_600_000_051).unwrap();
    assert!(!v.valid);
    assert_eq!(v.error_message, "expired");
    // At the boundary the token still works.
    let v = c.record_usage_at("{\"x\":1}", 1_600_000_050).unwrap();
    assert!(v.valid);
}

#[test]
fn holder_mismatch_is_rejected_with_detail() {
    let mut c = DecentriLicenseClient::new().unwrap();
    c.initialize("LC-USE", 41100, 41200, None, 8123).unwrap();
    c.set_product_public_key("Ed25519:usage-root").unwrap();
    let json =
        String::from_utf8(decentri_license::codec::token_to_json(&signed_token(0))).unwrap();
    c.import_token(&json).unwrap();
    // Not bound to this device: holder is still zero.
    let v = c.record_usage_at("{\"x\":1}", 5).unwrap();
    assert!(!v.valid);
    assert_eq!(v.error_message, "holder mismatch");
}

#[test]
fn nul_payload_is_invalid_argument() {
    let mut c = activated_client(0);
    let r = c.record_usage_at("{\"s\":\"a\u{0}b\"}", 5);
    assert!(matches!(r, Err(DecentriLicenseError::InvalidArgument)));
}

#[test]
fn payload_is_opaque_beyond_nul() {
    // Legal JSON whitespace and non-ASCII text pass through untouched.
    let mut c = activated_client(0);
    let payload = "{\n  \"caf\u{00e9}\": \"\t1\"\n}";
    let v = c.record_usage_at(payload, 5).unwrap();
    assert!(v.valid);
    assert!(c.offline_verify_current_token().unwrap().valid);
    let t = c.get_current_token().unwrap().unwrap();
    assert_eq!(t.usage_chain[0].params, payload.as_bytes().to_vec());
    // The payload survives the canonical JSON round trip byte for byte.
    let json = c.get_current_token_json().unwrap();
    assert!(json.is_ascii());
    let mut other = DecentriLicenseClient::new().unwrap();
    other.initialize("LC-USE", 41100, 41200, None, 8124).unwrap();
    other.set_product_public_key("Ed25519:usage-root").unwrap();
    other.import_token(&json).unwrap();
    let back = other.get_current_token().unwrap().unwrap();
    assert_eq!(back.usage_chain[0].params, payload.as_bytes().to_vec());
    assert!(other.offline_verify_current_token().unwrap().valid);
}

#[test]
fn record_usage_with_clock_succeeds_on_never_expiring_token() {
    let mut c = activated_client(0);
    let v = c.record_usage("{\"live\":true}").unwrap();
    assert!(v.valid);
    let t = c.get_current_token().unwrap().unwrap();
    assert_eq!(t.state_index, 1);
    assert!(t.usage_chain[0].time >= 0);
}

#[test]
fn status_snapshot_reflects_the_activated_token() {
    let mut c = activated_client(0);
    c.record_usage_at("{\"n\":1}", 9).unwrap();
    let st = c.get_status().unwrap();
    assert!(st.has_token);
    assert!(st.is_activated);
    assert_eq!(st.issue_time, 1_600_000_000);
    assert_eq!(st.expire_time, 0);
    assert_eq!(st.state_index, 1);
    assert_eq!(st.token_id, "tok-usage");
    assert_eq!(st.app_id, "app");
    assert_eq!(st.license_code, "LC-USE");
    assert_eq!(st.holder_device_id, c.get_device_id().unwrap());
}

#[test]
fn payload_with_quotes_survives_the_chain() {
    let mut c = activated_client(0);
    let v = c
        .record_usage_at("{\"quote\":\"a \\\"b\\\" c\"}", 33)
        .unwrap();
    assert!(v.valid);
    assert!(c.offline_verify_current_token().unwrap().valid);
    let t = c.get_current_token().unwrap().unwrap();
    assert_eq!(t.usage_chain[0].params, b"{\"quote\":\"a \\\"b\\\" c\"}".to_vec());
}
