//! Decentralized software-license coordination engine.
//!
//! A set of peer devices on a local network cooperatively hold, validate and
//! transfer a single signed license token without a central server. The crate
//! provides the trust-chain verifier, the token and usage state-chain model,
//! the device coordination state machine (discovery, election, holder roles)
//! and the client session that sequences them. Network transport, the
//! system clock and the install's identity state stay outside; the session
//! consumes their results as plain values.
//!
//! Text the engine carries — license codes, registry URLs, token
//! identifiers and usage payloads — is opaque NUL-free UTF-8; the canonical
//! wire form stays printable ASCII by escaping every byte outside that
//! range, and the signing encodings length-prefix each text field, so no
//! byte of a payload is ever significant to the engine.

pub mod b64;
pub mod client;
pub mod codec;
pub mod decimal;
pub mod digest;
pub mod election;
pub mod envelope;
pub mod laws;
pub mod text;
pub mod token;
pub mod trust;
