use decentri_license::client::{DecentriLicenseClient, DecentriLicenseError};
use decentri_license::election::DeviceState;

#[test]
fn operations_before_initialize_fail() {
    let mut c = DecentriLicenseClient::new().unwrap();
    assert_eq!(
        c.import_token("{}"),
        Err(DecentriLicenseError::NotInitialized)
    );
    assert_eq!(
        c.set_product_public_key("RSA:x"),
        Err(DecentriLicenseError::NotInitialized)
    );
    assert_eq!(c.get_device_id(), Err(DecentriLicenseError::NotInitialized));
    assert!(matches!(
        c.get_current_token_json(),
        Err(DecentriLicenseError::NotInitialized)
    ));
    assert!(matches!(
        c.get_status(),
        Err(DecentriLicenseError::NotInitialized)
    ));
    assert_eq!(c.shutdown(), Err(DecentriLicenseError::NotInitialized));
    assert!(!c.is_activated());
}

#[test]
fn double_initialize_is_refused() {
    let mut c = DecentriLicenseClient::new().unwrap();
    c.initialize("LC-A", 50100, 50200, None, 6001).unwrap();
    assert_eq!(
        c.initialize("LC-A", 50100, 50200, None, 6001),
        Err(DecentriLicenseError::AlreadyInitialized)
    );
}

#[test]
fn bad_configuration_is_invalid_argument() {
    let mut c = DecentriLicenseClient::new().unwrap();
    assert_eq!(
        c.initialize("", 50100, 50200, None, 6001),
        Err(DecentriLicenseError::InvalidArgument)
    );
    // A NUL byte is malformed caller input; any other text is opaque.
    assert_eq!(
        c.initialize("LC\u{0}A", 50100, 50200, None, 6001),
        Err(DecentriLicenseError::InvalidArgument)
    );
    assert_eq!(
        c.initialize("LC-A", 50100, 50200, Some("reg\u{0}url"), 6001),
        Err(DecentriLicenseError::InvalidArgument)
    );
    // After a refused attempt the session can still be configured, and
    // non-ASCII or whitespace in the opaque text is accepted.
    c.initialize("caf\u{00e9} licence", 50100, 50200, Some("http://reg.local:8080"), 6001)
        .unwrap();
    assert_eq!(c.get_status().unwrap().license_code, "caf\u{00e9} licence");
}

#[test]
fn bad_product_key_content_is_crypto_error() {
    let mut c = DecentriLicenseClient::new().unwrap();
    c.initialize("LC-A", 50100, 50200, None, 6001).unwrap();
    assert_eq!(
        c.set_product_public_key("DSA:material"),
        Err(DecentriLicenseError::CryptoError)
    );
    assert_eq!(
        c.set_product_public_key("RSA material"),
        Err(DecentriLicenseError::CryptoError)
    );
    c.set_product_public_key("RSA:material").unwrap();
}

#[test]
fn device_id_follows_the_install_seed() {
    // The same install seed gives the same identity across restarts.
    let mut a = DecentriLicenseClient::new().unwrap();
    a.initialize("LC-A", 50100, 50200, None, 6001).unwrap();
    let mut b = DecentriLicenseClient::new().unwrap();
    b.initialize("LC-A", 50100, 50200, None, 6001).unwrap();
    assert_eq!(a.get_device_id().unwrap(), b.get_device_id().unwrap());
    // A different install sharing license code and ports is a different device.
    let mut other = DecentriLicenseClient::new().unwrap();
    other.initialize("LC-A", 50100, 50200, None, 6002).unwrap();
    assert_ne!(a.get_device_id().unwrap(), other.get_device_id().unwrap());
    // A zero seed is corrupt identity state and aborts configuration.
    let mut zero = DecentriLicenseClient::new().unwrap();
    assert_eq!(
        zero.initialize("LC-A", 50100, 50200, None, 0),
        Err(DecentriLicenseError::InvalidArgument)
    );
    // The install's identity equals its seed, rendered as decimal text.
    assert_eq!(a.get_device_id().unwrap(), "6001");
    // The identity is decimal text.
    assert!(a.get_device_id().unwrap().bytes().all(|b| b.is_ascii_digit()));
}

#[test]
fn status_without_token_is_booleans_only() {
    let mut c = DecentriLicenseClient::new().unwrap();
    c.initialize("LC-A", 50100, 50200, None, 6001).unwrap();
    let st = c.get_status().unwrap();
    assert!(!st.has_token);
    assert!(!st.is_activated);
    assert_eq!(st.state_index, 0);
    assert_eq!(st.token_id, "");
    assert_eq!(st.holder_device_id, "");
    assert_eq!(st.license_code, "LC-A");
}

#[test]
fn export_without_token_is_unknown_error() {
    let mut c = DecentriLicenseClient::new().unwrap();
    c.initialize("LC-A", 50100, 50200, None, 6001).unwrap();
    assert!(matches!(
        c.export_current_token_encrypted(),
        Err(DecentriLicenseError::UnknownError)
    ));
    assert!(matches!(
        c.get_current_token_json(),
        Err(DecentriLicenseError::UnknownError)
    ));
    assert!(matches!(
        c.offline_verify_current_token(),
        Err(DecentriLicenseError::UnknownError)
    ));
    assert!(matches!(c.get_current_token(), Ok(None)));
}

#[test]
fn shutdown_clears_the_session() {
    let mut c = DecentriLicenseClient::new().unwrap();
    c.initialize("LC-A", 50100, 50200, None, 6001).unwrap();
    assert_eq!(c.get_device_state(), DeviceState::Idle);
    c.shutdown().unwrap();
    assert_eq!(
        c.get_device_id(),
        Err(DecentriLicenseError::NotInitialized)
    );
    // A fresh initialize revives the session.
    c.initialize("LC-B", 50300, 50400, None, 6002).unwrap();
    assert_eq!(c.get_status().unwrap().license_code, "LC-B");
}

#[test]
fn pem_shaped_product_key_is_accepted() {
    let mut c = DecentriLicenseClient::new().unwrap();
    c.initialize("LC-A", 50100, 50200, None, 6001).unwrap();
    c.set_product_public_key(
        "-----BEGIN RSA PUBLIC KEY-----\nMIIBCgKCAQEA\n-----END RSA PUBLIC KEY-----\n",
    )
    .unwrap();
    // The header names the expected algorithm.
    let mut d = DecentriLicenseClient::new().unwrap();
    d.initialize("LC-A", 50100, 50200, None, 6002).unwrap();
    assert_eq!(
        d.set_product_public_key("-----BEGIN DSA PUBLIC KEY-----\nxx\n-----END-----"),
        Err(DecentriLicenseError::CryptoError)
    );
}

#[test]
fn error_messages_match_their_variants() {
    assert_eq!(
        DecentriLicenseError::InvalidArgument.message(),
        "Invalid argument"
    );
    assert_eq!(
        DecentriLicenseError::NotInitialized.message(),
        "Not initialized"
    );
    assert_eq!(
        DecentriLicenseError::AlreadyInitialized.message(),
        "Already initialized"
    );
    assert_eq!(DecentriLicenseError::NetworkError.message(), "Network error");
    assert_eq!(DecentriLicenseError::CryptoError.message(), "Crypto error");
    assert_eq!(DecentriLicenseError::UnknownError.message(), "Unknown error");
    assert_eq!(
        DecentriLicenseError::CreationFailed.message(),
        "Client creation failed"
    );
}
