use decentri_license::client::DecentriLicenseClient;
use decentri_license::digest::{digest_bytes, keyed_digest_bytes, le_bytes_vec};
use decentri_license::election::{run_election, DeviceState, Peer};
use decentri_license::token::{token_core_vec, SignatureAlgorithm, Token};

fn signed_token() -> Token {
    let license_key: u64 = 31_337;
    let root_key = digest_bytes(b"coord-root");
    let mut t = Token {
        token_id: b"tok-coord".to_vec(),
        license_code: b"LC-NET".to_vec(),
        app_id: b"app".to_vec(),
        holder_device_id: 0,
        issue_time: 1,
        expire_time: 0,
        signature_algorithm: SignatureAlgorithm::Sm2,
        license_public_key: license_key,
        root_signature: 0,
        signature: 0,
        state_index: 0,
        usage_chain: Vec::new(),
    };
    t.root_signature = keyed_digest_bytes(root_key, &le_bytes_vec(license_key));
    let core = token_core_vec(&t);
    t.signature = keyed_digest_bytes(license_key, &core);
    t
}

fn ready_client() -> DecentriLicenseClient {
    let mut c = DecentriLicenseClient::new().unwrap();
    c.initialize("LC-NET", 42100, 42200, None, 5001).unwrap();
    c.set_product_public_key("SM2:coord-root").unwrap();
    let json = String::from_utf8(decentri_license::codec::token_to_json(&signed_token())).unwrap();
    c.import_token(&json).unwrap();
    c
}

#[test]
fn election_is_deterministic_over_repeated_runs() {
    let field = vec![
        Peer { device_id: 12, holder_priority: false },
        Peer { device_id: 90, holder_priority: false },
        Peer { device_id: 55, holder_priority: true },
        Peer { device_id: 7, holder_priority: false },
    ];
    let first = run_election(&field);
    for _ in 0..10 {
        assert_eq!(run_election(&field), first);
    }
    // Holder priority outranks the highest device id.
    assert_eq!(first.device_id, 55);
}

#[test]
fn highest_device_id_wins_without_holder_priority() {
    let field = vec![
        Peer { device_id: 3, holder_priority: false },
        Peer { device_id: 200, holder_priority: false },
        Peer { device_id: 41, holder_priority: false },
    ];
    assert_eq!(run_election(&field).device_id, 200);
}

#[test]
fn isolated_device_becomes_coordinator_and_activates() {
    let mut c = ready_client();
    assert_eq!(c.get_device_state(), DeviceState::Idle);
    // No peers answered within the discovery window.
    let a = c.activate(&Vec::new()).unwrap();
    assert!(a.success);
    assert_eq!(c.get_device_state(), DeviceState::Coordinator);
    assert!(c.is_activated());
    let held = a.token.unwrap();
    let id_text = c.get_device_id().unwrap();
    assert_eq!(held.holder_device_id.to_string(), id_text);
}

#[test]
fn losing_device_becomes_follower_and_fails_cleanly() {
    let mut c = ready_client();
    let rivals = vec![Peer { device_id: u64::MAX, holder_priority: true }];
    let a = c.activate(&rivals).unwrap();
    assert!(!a.success);
    assert_eq!(a.message, "election lost");
    assert!(a.token.is_none());
    assert_eq!(c.get_device_state(), DeviceState::Follower);
    assert!(!c.is_activated());
    // The token was not bound.
    let t = c.get_current_token().unwrap().unwrap();
    assert_eq!(t.holder_device_id, 0);
}

#[test]
fn rebinding_same_device_changes_nothing() {
    let mut c = ready_client();
    let v = c.activate_bind_device().unwrap();
    assert!(v.valid);
    let once = c.get_current_token().unwrap().unwrap();
    let v = c.activate_bind_device().unwrap();
    assert!(v.valid);
    let twice = c.get_current_token().unwrap().unwrap();
    assert_eq!(once.holder_device_id, twice.holder_device_id);
    assert_eq!(once.signature, twice.signature);
    assert_eq!(
        decentri_license::codec::token_to_json(&once),
        decentri_license::codec::token_to_json(&twice)
    );
}

#[test]
fn transfer_rebinds_holder_atomically() {
    // Two devices hold copies of one token; only the one that binds last is
    // the accepted holder on its copy, and each copy names exactly one.
    let mut first = ready_client();
    first.activate_bind_device().unwrap();
    let exported = first.get_current_token_json().unwrap();
    let mut second = DecentriLicenseClient::new().unwrap();
    second.initialize("LC-NET", 43100, 43200, None, 5002).unwrap();
    second.set_product_public_key("SM2:coord-root").unwrap();
    second.import_token(&exported).unwrap();
    let v = second.activate_bind_device().unwrap();
    assert!(v.valid);
    let t = second.get_current_token().unwrap().unwrap();
    assert_eq!(t.holder_device_id.to_string(), second.get_device_id().unwrap());
    assert_ne!(t.holder_device_id.to_string(), first.get_device_id().unwrap());
    assert!(second.is_activated());
}
