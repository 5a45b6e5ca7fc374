use decentri_license::b64;
use decentri_license::client::{DecentriLicenseClient, DecentriLicenseError};
use decentri_license::digest::{digest_bytes, keyed_digest_bytes, le_bytes_vec, DIGEST_SEED};
use decentri_license::token::{token_core_vec, SignatureAlgorithm, Token};

fn signed_token() -> Token {
    let license_key: u64 = 808;
    let root_key = digest_bytes(b"codec-root");
    let mut t = Token {
        token_id: b"tok \\ \"quoted\"".to_vec(),
        license_code: b"LC-IO".to_vec(),
        app_id: b"app io".to_vec(),
        holder_device_id: 0,
        issue_time: -5,
        expire_time: 0,
        signature_algorithm: SignatureAlgorithm::Rsa,
        license_public_key: license_key,
        root_signature: 0,
        signature: 0,
        state_index: 0,
        usage_chain: Vec::new(),
    };
    t.root_signature = keyed_digest_bytes(root_key, &le_bytes_vec(license_key));
    let core = token_core_vec(&t);
    t.signature = keyed_digest_bytes(license_key, &core);
    t
}

fn ready_client() -> DecentriLicenseClient {
    let mut c = DecentriLicenseClient::new().unwrap();
    c.initialize("LC-IO", 44100, 44200, None, 9001).unwrap();
    c.set_product_public_key("RSA:codec-root").unwrap();
    c
}

#[test]
fn digest_matches_known_values() {
    // FNV-1a, 64 bit: offset basis for empty input, published value for "a".
    assert_eq!(digest_bytes(b""), 0xcbf2_9ce4_8422_2325);
    assert_eq!(digest_bytes(b""), DIGEST_SEED);
    assert_eq!(digest_bytes(b"a"), 0xaf63_dc4c_8601_ec8c);
}

#[test]
fn base64_matches_known_values() {
    assert_eq!(b64::encode(b"Man"), b"TWFu".to_vec());
    assert_eq!(b64::encode(b"Ma"), b"TWE=".to_vec());
    assert_eq!(b64::encode(b"M"), b"TQ==".to_vec());
    assert_eq!(b64::decode(b"TWFu"), Some(b"Man".to_vec()));
    assert_eq!(b64::decode(b"TWE="), Some(b"Ma".to_vec()));
    assert_eq!(b64::decode(b"TQ=="), Some(b"M".to_vec()));
    assert_eq!(b64::decode(b"T@=="), None);
    assert_eq!(b64::decode(b"TWF"), None);
}

#[test]
fn json_round_trip_keeps_the_token() {
    let t = signed_token();
    let mut c = ready_client();
    let json = String::from_utf8(decentri_license::codec::token_to_json(&t)).unwrap();
    c.import_token(&json).unwrap();
    // Re-serializing the imported token gives the same canonical document.
    assert_eq!(c.get_current_token_json().unwrap(), json);
    let back = c.get_current_token().unwrap().unwrap();
    assert_eq!(back.token_id, t.token_id);
    assert_eq!(back.issue_time, -5);
    assert_eq!(back.signature, t.signature);
}

#[test]
fn json_field_order_is_canonical() {
    let t = signed_token();
    let json = String::from_utf8(decentri_license::codec::token_to_json(&t)).unwrap();
    assert!(json.starts_with("{\"token_id\":\""));
    let fields = [
        "\"token_id\":",
        "\"license_code\":",
        "\"app_id\":",
        "\"holder_device_id\":",
        "\"issue_time\":",
        "\"expire_time\":",
        "\"signature_algorithm\":",
        "\"license_public_key\":",
        "\"root_signature\":",
        "\"signature\":",
        "\"state_index\":",
        "\"usage_chain\":",
    ];
    let mut last: usize = 0;
    for f in fields {
        let at = json.find(f).unwrap();
        assert!(at >= last);
        last = at;
    }
    assert!(json.ends_with("]}"));
}

#[test]
fn bytes_outside_printable_ascii_are_escaped() {
    let mut c = ready_client();
    let mut t = signed_token();
    t.token_id = "id\n\u{00e9}".as_bytes().to_vec();
    let core = token_core_vec(&t);
    t.signature = keyed_digest_bytes(t.license_public_key, &core);
    let json = String::from_utf8(decentri_license::codec::token_to_json(&t)).unwrap();
    // The newline and each UTF-8 byte of the accent appear as byte escapes.
    assert!(json.contains("id\\u000a\\u00c3\\u00a9"));
    c.import_token(&json).unwrap();
    let back = c.get_current_token().unwrap().unwrap();
    assert_eq!(back.token_id, t.token_id);
    assert_eq!(c.get_current_token_json().unwrap(), json);
}

#[test]
fn whitespace_between_tokens_is_tolerated_on_import() {
    let t = signed_token();
    let mut c = ready_client();
    let json = String::from_utf8(decentri_license::codec::token_to_json(&t)).unwrap();
    let pretty = format!(
        " {}\n",
        json.replace(",\"", ",\n  \"").replace("\":", "\" :")
    );
    assert_ne!(pretty, json);
    c.import_token(&pretty).unwrap();
    // The imported token is the same one, re-serialized canonically.
    assert_eq!(c.get_current_token_json().unwrap(), json);
    assert!(c.offline_verify_current_token().unwrap().valid);
}

#[test]
fn malformed_json_is_rejected() {
    let mut c = ready_client();
    assert_eq!(
        c.import_token("not a token"),
        Err(DecentriLicenseError::InvalidArgument)
    );
    // Field order matters in the canonical form.
    assert_eq!(
        c.import_token("{\"license_code\":\"x\",\"token_id\":\"y\"}"),
        Err(DecentriLicenseError::InvalidArgument)
    );
    // Trailing whitespace is insignificant, but trailing content is refused.
    let t = signed_token();
    let mut json = String::from_utf8(decentri_license::codec::token_to_json(&t)).unwrap();
    json.push(' ');
    c.import_token(&json).unwrap();
    json.push('x');
    assert_eq!(c.import_token(&json), Err(DecentriLicenseError::InvalidArgument));
}

#[test]
fn encrypted_export_round_trips_through_import() {
    let t = signed_token();
    let mut c = ready_client();
    let json = String::from_utf8(decentri_license::codec::token_to_json(&t)).unwrap();
    c.import_token(&json).unwrap();
    let sealed = c.export_current_token_encrypted().unwrap();
    assert!(sealed.contains('|'));
    let mut other = DecentriLicenseClient::new().unwrap();
    other.initialize("LC-IO", 45100, 45200, None, 9002).unwrap();
    other.set_product_public_key("RSA:codec-root").unwrap();
    other.import_token(&sealed).unwrap();
    assert_eq!(other.get_current_token_json().unwrap(), json);
    assert!(other.offline_verify_current_token().unwrap().valid);
}

#[test]
fn export_is_deterministic_without_mutation() {
    let t = signed_token();
    let mut c = ready_client();
    let json = String::from_utf8(decentri_license::codec::token_to_json(&t)).unwrap();
    c.import_token(&json).unwrap();
    let once = c.export_current_token_encrypted().unwrap();
    let twice = c.export_current_token_encrypted().unwrap();
    assert_eq!(once, twice);
}

#[test]
fn tampered_envelope_is_rejected() {
    let t = signed_token();
    let mut c = ready_client();
    let json = String::from_utf8(decentri_license::codec::token_to_json(&t)).unwrap();
    c.import_token(&json).unwrap();
    let sealed = c.export_current_token_encrypted().unwrap();
    let mut bytes = sealed.into_bytes();
    // Flip one ciphertext character to another alphabet character.
    bytes[0] = if bytes[0] == b'A' { b'B' } else { b'A' };
    let broken = String::from_utf8(bytes).unwrap();
    assert_eq!(c.import_token(&broken), Err(DecentriLicenseError::CryptoError));
}

#[test]
fn envelope_needs_the_product_key() {
    let t = signed_token();
    let mut c = ready_client();
    let json = String::from_utf8(decentri_license::codec::token_to_json(&t)).unwrap();
    c.import_token(&json).unwrap();
    let sealed = c.export_current_token_encrypted().unwrap();
    let mut bare = DecentriLicenseClient::new().unwrap();
    bare.initialize("LC-IO", 46100, 46200, None, 9003).unwrap();
    assert_eq!(bare.import_token(&sealed), Err(DecentriLicenseError::CryptoError));
    // A different product key fails authentication, not parsing.
    let mut wrong = DecentriLicenseClient::new().unwrap();
    wrong.initialize("LC-IO", 46100, 46200, None, 9004).unwrap();
    wrong.set_product_public_key("RSA:another-root").unwrap();
    assert_eq!(wrong.import_token(&sealed), Err(DecentriLicenseError::CryptoError));
}
