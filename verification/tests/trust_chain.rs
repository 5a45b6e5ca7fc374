use decentri_license::client::DecentriLicenseClient;
use decentri_license::digest::{digest_bytes, keyed_digest_bytes, le_bytes_vec};
use decentri_license::token::{token_core_vec, SignatureAlgorithm, Token};

const ROOT_MATERIAL: &[u8] = b"product-root-key-material";

fn root_key() -> u64 {
    digest_bytes(ROOT_MATERIAL)
}

fn signed_token(license_key: u64, expire_time: i64) -> Token {
    let mut t = Token {
        token_id: b"tok-0001".to_vec(),
        license_code: b"LC-DEMO".to_vec(),
        app_id: b"app-7".to_vec(),
        holder_device_id: 0,
        issue_time: 1_700_000_000,
        expire_time,
        signature_algorithm: SignatureAlgorithm::Rsa,
        license_public_key: license_key,
        root_signature: 0,
        signature: 0,
        state_index: 0,
        usage_chain: Vec::new(),
    };
    t.root_signature = keyed_digest_bytes(root_key(), &le_bytes_vec(license_key));
    let core = token_core_vec(&t);
    t.signature = keyed_digest_bytes(license_key, &core);
    t
}

fn client_with(t: &Token) -> DecentriLicenseClient {
    let mut c = DecentriLicenseClient::new().unwrap();
    c.initialize("LC-DEMO", 40100, 40200, None, 7001).unwrap();
    c.set_product_public_key("RSA:product-root-key-material").unwrap();
    let json = String::from_utf8(decentri_license::codec::token_to_json(t)).unwrap();
    c.import_token(&json).unwrap();
    c
}

#[test]
fn valid_token_passes_all_gates() {
    let t = signed_token(99_055, 0);
    let c = client_with(&t);
    let v = c.offline_verify_current_token().unwrap();
    assert!(v.valid);
    assert_eq!(v.error_message, "");
}

#[test]
fn algorithm_mismatch_is_first_gate() {
    // The token names Ed25519 while the verifier expects RSA.
    let mut t = signed_token(99_055, 0);
    t.signature_algorithm = SignatureAlgorithm::Ed25519;
    let core = token_core_vec(&t);
    t.signature = keyed_digest_bytes(t.license_public_key, &core);
    let c = client_with(&t);
    let v = c.offline_verify_current_token().unwrap();
    assert!(!v.valid);
    assert!(v.error_message.contains("algorithm mismatch"));
}

#[test]
fn missing_trust_chain_field_fails() {
    let mut t = signed_token(99_055, 0);
    t.root_signature = 0;
    let core = token_core_vec(&t);
    t.signature = keyed_digest_bytes(t.license_public_key, &core);
    let c = client_with(&t);
    let v = c.offline_verify_current_token().unwrap();
    assert!(!v.valid);
    assert_eq!(v.error_message, "missing trust-chain field");
}

#[test]
fn flipped_license_key_fails_root_gate() {
    let mut t = signed_token(99_055, 0);
    t.license_public_key ^= 1;
    let core = token_core_vec(&t);
    t.signature = keyed_digest_bytes(t.license_public_key, &core);
    let c = client_with(&t);
    let v = c.offline_verify_current_token().unwrap();
    assert!(!v.valid);
    assert_eq!(v.error_message, "root signature invalid");
}

#[test]
fn flipped_root_signature_fails_root_gate() {
    let mut t = signed_token(99_055, 0);
    t.root_signature ^= 0x80;
    if t.root_signature == 0 {
        t.root_signature = 1;
    }
    let core = token_core_vec(&t);
    t.signature = keyed_digest_bytes(t.license_public_key, &core);
    let c = client_with(&t);
    let v = c.offline_verify_current_token().unwrap();
    assert!(!v.valid);
    assert_eq!(v.error_message, "root signature invalid");
}

#[test]
fn flipped_token_signature_fails_signature_gate() {
    let mut t = signed_token(99_055, 0);
    t.signature ^= 0x4000;
    let c = client_with(&t);
    let v = c.offline_verify_current_token().unwrap();
    assert!(!v.valid);
    assert_eq!(v.error_message, "token signature invalid");
}

#[test]
fn corrupted_chain_entry_invalidates_whole_token() {
    let t = signed_token(99_055, 0);
    let mut c = client_with(&t);
    c.activate_bind_device().unwrap();
    let v = c.record_usage_at("{\"step\":1}", 1_700_000_100).unwrap();
    assert!(v.valid);
    // Tamper with the recorded entry and re-import the token. The chain is
    // covered by the token-level signature, so that gate trips first.
    let mut stolen = c.get_current_token().unwrap().unwrap();
    stolen.usage_chain[0].params = b"{\"step\":2}".to_vec();
    let json = String::from_utf8(decentri_license::codec::token_to_json(&stolen)).unwrap();
    c.import_token(&json).unwrap();
    let v = c.offline_verify_current_token().unwrap();
    assert!(!v.valid);
    assert_eq!(v.error_message, "token signature invalid");
    // Even re-signing the token cannot mend the broken entry signature.
    let core = token_core_vec(&stolen);
    stolen.signature = keyed_digest_bytes(stolen.license_public_key, &core);
    let json = String::from_utf8(decentri_license::codec::token_to_json(&stolen)).unwrap();
    c.import_token(&json).unwrap();
    let v = c.offline_verify_current_token().unwrap();
    assert!(!v.valid);
    assert_eq!(v.error_message, "state chain invalid");
}

#[test]
fn counter_chain_mismatch_fails_state_gate() {
    let mut t = signed_token(99_055, 0);
    t.state_index = 3;
    let core = token_core_vec(&t);
    t.signature = keyed_digest_bytes(t.license_public_key, &core);
    let c = client_with(&t);
    let v = c.offline_verify_current_token().unwrap();
    assert!(!v.valid);
    assert_eq!(v.error_message, "state chain invalid");
}

#[test]
fn wrong_expected_algorithm_from_key_file() {
    // Verifier configured for SM2; token carries RSA.
    let t = signed_token(99_055, 0);
    let mut c = DecentriLicenseClient::new().unwrap();
    c.initialize("LC-DEMO", 40100, 40200, None, 7001).unwrap();
    c.set_product_public_key("SM2:product-root-key-material").unwrap();
    let json = String::from_utf8(decentri_license::codec::token_to_json(&t)).unwrap();
    c.import_token(&json).unwrap();
    let v = c.offline_verify_current_token().unwrap();
    assert!(!v.valid);
    assert!(v.error_message.contains("algorithm mismatch"));
}
