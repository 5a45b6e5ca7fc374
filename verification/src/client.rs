//! The license client session.
//!
//! A session owns at most one token, a coordination state, a per-install
//! device identity, and the product key that anchors the trust chain.
//! Operations before `initialize` fail with `NotInitialized`; `shutdown`
//! clears the session. Network transport, the clock and the install's
//! identity state stay outside: discovery replies enter as plain peer
//! values, the identity seed is handed to `initialize` as a plain value,
//! and the append timestamp comes from one clock read whose value the
//! usage contract quantifies over.

use vstd::prelude::*;

use crate::codec::{json_token, parse_token_document, spec_parse_token_doc, token_to_json};
use crate::decimal::dec_nat;
use crate::digest::{digest_bytes, digest_of};
use crate::election::{election_winner, run_election, DeviceState, Peer};
use crate::envelope::{bar_position, envelope_text, open_envelope, seal, unseal};
use crate::text::{check_wf_text, wf_text};
use crate::token::{wf_token_text, SignatureAlgorithm, Token, TokenModel, UsageEntry};
use crate::trust::{
    detail_of, failed_result, first_gate_failure, trust_chain_ok, valid_result, verify_trust_chain,
    FailureReason, VerificationResult,
};
use vstd::slice::slice_to_vec;
use vstd::string::StringSliceAdditionalSpecFns;

verus! {

/// Session lifecycle and input errors.
#[derive(Clone, Copy, Debug, PartialEq, Eq, Structural)]
pub enum DecentriLicenseError {
    InvalidArgument,
    NotInitialized,
    AlreadyInitialized,
    NetworkError,
    CryptoError,
    UnknownError,
    CreationFailed,
}

/// The human-readable text of each error.
pub open spec fn error_text(e: DecentriLicenseError) -> Seq<char> {
    match e {
        DecentriLicenseError::InvalidArgument => "Invalid argument"@,
        DecentriLicenseError::NotInitialized => "Not initialized"@,
        DecentriLicenseError::AlreadyInitialized => "Already initialized"@,
        DecentriLicenseError::NetworkError => "Network error"@,
        DecentriLicenseError::CryptoError => "Crypto error"@,
        DecentriLicenseError::UnknownError => "Unknown error"@,
        DecentriLicenseError::CreationFailed => "Client creation failed"@,
    }
}

impl DecentriLicenseError {
    /// The human-readable text of the error.
    pub fn message(&self) -> (r: String)
        ensures
            r@ == error_text(*self),
    {
        match self {
            DecentriLicenseError::InvalidArgument => "Invalid argument".to_owned(),
            DecentriLicenseError::NotInitialized => "Not initialized".to_owned(),
            DecentriLicenseError::AlreadyInitialized => "Already initialized".to_owned(),
            DecentriLicenseError::NetworkError => "Network error".to_owned(),
            DecentriLicenseError::CryptoError => "Crypto error".to_owned(),
            DecentriLicenseError::UnknownError => "Unknown error".to_owned(),
            DecentriLicenseError::CreationFailed => "Client creation failed".to_owned(),
        }
    }
}

/// Outcome of an activation attempt.
#[derive(Clone, Debug)]
pub struct ActivationResult {
    pub success: bool,
    pub message: String,
    pub token: Option<Token>,
}

/// Read-only snapshot of the session.
#[derive(Clone, Debug)]
pub struct StatusResult {
    pub has_token: bool,
    pub is_activated: bool,
    pub issue_time: i64,
    pub expire_time: i64,
    pub state_index: u64,
    pub token_id: String,
    pub holder_device_id: String,
    pub app_id: String,
    pub license_code: String,
}

/// The characters of an ASCII byte sequence, code point for code point.
pub open spec fn ascii_chars_of(s: Seq<u8>) -> Seq<char> {
    Seq::new(s.len(), |i: int| s[i] as char)
}

/// Relies on `String::from_utf8`: bytes below 128 decode to the characters
/// with the same code points.
#[verifier::external_body]
fn ascii_to_string(v: Vec<u8>) -> (r: String)
    requires
        forall|i: int| 0 <= i < v@.len() ==> v@[i] < 128,
    ensures
        r@ == ascii_chars_of(v@),
{
    match String::from_utf8(v) {
        Ok(s) => s,
        Err(_) => String::new(),
    }
}

/// Relies on `String::from_utf8_lossy`: valid UTF-8 decodes to exactly its
/// characters; of other byte sequences nothing is claimed.
#[verifier::external_body]
fn bytes_to_string_lossy(v: &[u8]) -> (r: String)
    ensures
        vstd::utf8::valid_utf8(v@) ==> r@ == vstd::utf8::decode_utf8(v@),
{
    String::from_utf8_lossy(v).into_owned()
}

/// Relies on `std::time::SystemTime::now`: one clock read, clamped to
/// non-negative seconds since the Unix epoch.
#[verifier::external_body]
fn unix_now() -> (r: i64)
    ensures
        r >= 0,
{
    match std::time::SystemTime::now().duration_since(std::time::UNIX_EPOCH) {
        Ok(d) => {
            let secs = d.as_secs();
            if secs > i64::MAX as u64 {
                i64::MAX
            } else {
                secs as i64
            }
        },
        Err(_) => 0,
    }
}

/// Duplicate a usage entry, model for model.
fn clone_entry(e: &UsageEntry) -> (r: UsageEntry)
    ensures
        r@ == e@,
{
    UsageEntry {
        seq_no: e.seq_no,
        time: e.time,
        action: slice_to_vec(e.action.as_slice()),
        params: slice_to_vec(e.params.as_slice()),
        hash_prev: e.hash_prev,
        signature: e.signature,
    }
}

/// Duplicate a token, model for model.
pub fn clone_token(t: &Token) -> (r: Token)
    ensures
        r@ == t@,
{
    let mut chain: Vec<UsageEntry> = Vec::new();
    let mut i: usize = 0;
    while i < t.usage_chain.len()
        invariant
            0 <= i <= t.usage_chain@.len(),
            chain@.len() == i,
            forall|k: int| 0 <= k < i ==> (#[trigger] chain@[k])@ == t.usage_chain@[k]@,
        decreases t.usage_chain@.len() - i,
    {
        chain.push(clone_entry(&t.usage_chain[i]));
        i = i + 1;
    }
    let r = Token {
        token_id: slice_to_vec(t.token_id.as_slice()),
        license_code: slice_to_vec(t.license_code.as_slice()),
        app_id: slice_to_vec(t.app_id.as_slice()),
        holder_device_id: t.holder_device_id,
        issue_time: t.issue_time,
        expire_time: t.expire_time,
        signature_algorithm: t.signature_algorithm,
        license_public_key: t.license_public_key,
        root_signature: t.root_signature,
        signature: t.signature,
        state_index: t.state_index,
        usage_chain: chain,
    };
    assert(r@.usage_chain =~= t@.usage_chain);
    assert(r@ =~= t@);
    r
}

/// Mathematical model of a session.
#[verifier::ext_equal]
pub ghost struct ClientModel {
    pub initialized: bool,
    pub license_code: Seq<u8>,
    pub udp_port: u16,
    pub tcp_port: u16,
    pub registry_url: Option<Seq<u8>>,
    pub device_id: u64,
    pub product_key: Option<(SignatureAlgorithm, u64)>,
    pub token: Option<TokenModel>,
    pub state: DeviceState,
}

/// The license client session.
pub struct DecentriLicenseClient {
    initialized: bool,
    license_code: Vec<u8>,
    udp_port: u16,
    tcp_port: u16,
    registry_url: Option<Vec<u8>>,
    device_id: u64,
    product_key: Option<(SignatureAlgorithm, u64)>,
    token: Option<Token>,
    state: DeviceState,
}

impl View for DecentriLicenseClient {
    type V = ClientModel;

    closed spec fn view(&self) -> ClientModel {
        ClientModel {
            initialized: self.initialized,
            license_code: self.license_code@,
            udp_port: self.udp_port,
            tcp_port: self.tcp_port,
            registry_url: match self.registry_url {
                Some(u) => Some(u@),
                None => None,
            },
            device_id: self.device_id,
            product_key: self.product_key,
            token: match self.token {
                Some(t) => Some(t@),
                None => None,
            },
            state: self.state,
        }
    }
}

/// The model of a freshly created, uninitialized session.
pub open spec fn fresh_client() -> ClientModel {
    ClientModel {
        initialized: false,
        license_code: Seq::empty(),
        udp_port: 0,
        tcp_port: 0,
        registry_url: None,
        device_id: 0,
        product_key: None,
        token: None,
        state: DeviceState::Idle,
    }
}

/// Whether a configuration is acceptable: a non-empty, NUL-free license
/// code, a NUL-free registry URL when one is given, and a non-zero
/// per-install identity seed. The seed is install state that the shell
/// reads from outside and hands in as a plain value, so two installs
/// sharing a license code and ports still carry distinct identities;
/// zero stands for "unbound" in a token's holder field and marks a corrupt
/// identity, which must abort session setup.
pub open spec fn config_ok(
    license_code: Seq<u8>,
    registry_url: Option<Seq<u8>>,
    device_seed: u64,
) -> bool {
    &&& license_code.len() > 0
    &&& wf_text(license_code)
    &&& match registry_url {
        Some(u) => wf_text(u),
        None => true,
    }
    &&& device_seed != 0
}

/// The model of a session right after successful initialization.
pub open spec fn initialized_client(
    license_code: Seq<u8>,
    udp_port: u16,
    tcp_port: u16,
    registry_url: Option<Seq<u8>>,
    device_seed: u64,
) -> ClientModel {
    ClientModel {
        initialized: true,
        license_code: license_code,
        udp_port: udp_port,
        tcp_port: tcp_port,
        registry_url: registry_url,
        device_id: device_seed,
        product_key: None,
        token: None,
        state: DeviceState::Idle,
    }
}

/// The view of an optional registry URL argument.
pub open spec fn opt_url_view(u: Option<&str>) -> Option<Seq<u8>> {
    match u {
        Some(s) => Some(s.spec_bytes()),
        None => None,
    }
}

impl DecentriLicenseClient {
    /// Every token a session holds carries NUL-free text, and an
    /// initialized session has a non-zero device identity.
    #[verifier::type_invariant]
    spec fn inv(self) -> bool {
        &&& match self@.token {
            Some(m) => wf_token_text(m),
            None => true,
        }
        &&& (self@.initialized ==> self@.device_id != 0)
        &&& wf_text(self@.license_code)
    }

    /// Create a fresh, uninitialized session.
    pub fn new() -> (r: Result<DecentriLicenseClient, DecentriLicenseError>)
        ensures
            r matches Ok(c) && c@ == fresh_client(),
    {
        let c = DecentriLicenseClient {
            initialized: false,
            license_code: Vec::new(),
            udp_port: 0,
            tcp_port: 0,
            registry_url: None,
            device_id: 0,
            product_key: None,
            token: None,
            state: DeviceState::Idle,
        };
        assert(c@ =~= fresh_client());
        Ok(c)
    }

    /// Configure the session: license code, ports, optional registry URL,
    /// and the per-install identity seed. The seed is the install's own
    /// state — the shell reads it from outside — so peers sharing a license
    /// code and ports still carry distinct identities: distinct seeds give
    /// distinct device ids. Fails on a second call, on text holding a NUL
    /// byte, and on a zero seed (corrupt identity state).
    pub fn initialize(
        &mut self,
        license_code: &str,
        udp_port: u16,
        tcp_port: u16,
        registry_server_url: Option<&str>,
        device_seed: u64,
    ) -> (r: Result<(), DecentriLicenseError>)
        ensures
            old(self)@.initialized ==> r == Err::<(), DecentriLicenseError>(
                DecentriLicenseError::AlreadyInitialized,
            ) && final(self)@ == old(self)@,
            !old(self)@.initialized && !config_ok(
                license_code.spec_bytes(),
                opt_url_view(registry_server_url),
                device_seed,
            ) ==> r == Err::<(), DecentriLicenseError>(DecentriLicenseError::InvalidArgument)
                && final(self)@ == old(self)@,
            !old(self)@.initialized && config_ok(
                license_code.spec_bytes(),
                opt_url_view(registry_server_url),
                device_seed,
            ) ==> r is Ok && final(self)@ == initialized_client(
                license_code.spec_bytes(),
                udp_port,
                tcp_port,
                opt_url_view(registry_server_url),
                device_seed,
            ),
    {
        proof {
            use_type_invariant(&*self);
        }
        if self.initialized {
            return Err(DecentriLicenseError::AlreadyInitialized);
        }
        let lc = license_code.as_bytes();
        if lc.len() == 0 || !check_wf_text(lc) {
            return Err(DecentriLicenseError::InvalidArgument);
        }
        let url: Option<Vec<u8>> = match registry_server_url {
            Some(u) => {
                let ub = u.as_bytes();
                if !check_wf_text(ub) {
                    return Err(DecentriLicenseError::InvalidArgument);
                }
                Some(slice_to_vec(ub))
            },
            None => None,
        };
        if device_seed == 0 {
            return Err(DecentriLicenseError::InvalidArgument);
        }
        self.license_code = slice_to_vec(lc);
        self.udp_port = udp_port;
        self.tcp_port = tcp_port;
        self.registry_url = url;
        self.device_id = device_seed;
        self.product_key = None;
        self.token = None;
        self.state = DeviceState::Idle;
        self.initialized = true;
        assert(self@ =~= initialized_client(
            license_code.spec_bytes(),
            udp_port,
            tcp_port,
            opt_url_view(registry_server_url),
            device_seed,
        ));
        Ok(())
    }

    /// Release the session: the token and key are dropped and the state
    /// machine returns to rest; only a fresh `initialize` revives it.
    pub fn shutdown(&mut self) -> (r: Result<(), DecentriLicenseError>)
        ensures
            !old(self)@.initialized ==> r == Err::<(), DecentriLicenseError>(
                DecentriLicenseError::NotInitialized,
            ) && final(self)@ == old(self)@,
            old(self)@.initialized ==> r is Ok && final(self)@ == fresh_client(),
    {
        proof {
            use_type_invariant(&*self);
        }
        if !self.initialized {
            return Err(DecentriLicenseError::NotInitialized);
        }
        self.initialized = false;
        self.license_code = Vec::new();
        self.udp_port = 0;
        self.tcp_port = 0;
        self.registry_url = None;
        self.device_id = 0;
        self.product_key = None;
        self.token = None;
        self.state = DeviceState::Idle;
        assert(self@ =~= fresh_client());
        Ok(())
    }

    /// Whether the session holds a token bound to this device.
    pub open spec fn spec_is_activated(m: ClientModel) -> bool {
        &&& m.initialized
        &&& match m.token {
            Some(t) => t.holder_device_id == m.device_id && t.holder_device_id != 0,
            None => false,
        }
    }

    /// Whether the held token is bound to this device.
    pub fn is_activated(&self) -> (r: bool)
        ensures
            r == Self::spec_is_activated(self@),
    {
        proof {
            use_type_invariant(&*self);
        }
        if !self.initialized {
            return false;
        }
        match &self.token {
            Some(t) => t.holder_device_id == self.device_id && t.holder_device_id != 0,
            None => false,
        }
    }

    /// The device identity as decimal text.
    pub fn get_device_id(&self) -> (r: Result<String, DecentriLicenseError>)
        ensures
            !self@.initialized ==> r == Err::<String, DecentriLicenseError>(
                DecentriLicenseError::NotInitialized,
            ),
            self@.initialized ==> (r matches Ok(s) && s@ == ascii_chars_of(
                dec_nat(self@.device_id as nat),
            )),
    {
        if !self.initialized {
            return Err(DecentriLicenseError::NotInitialized);
        }
        let digits = crate::decimal::render_u64(self.device_id);
        proof {
            crate::decimal::lemma_dec_nat_digits(self@.device_id as nat);
        }
        Ok(ascii_to_string(digits))
    }

    /// The coordination state of the device.
    pub fn get_device_state(&self) -> (r: DeviceState)
        ensures
            r == self@.state,
    {
        self.state
    }

    /// Store a product public key: the session model with the key replaced.
    pub open spec fn with_product_key(m: ClientModel, pk: (SignatureAlgorithm, u64)) -> ClientModel {
        ClientModel { product_key: Some(pk), ..m }
    }

    /// Store a token: the session model with the token replaced.
    pub open spec fn with_token(m: ClientModel, t: TokenModel) -> ClientModel {
        ClientModel { token: Some(t), ..m }
    }

    /// The session model with a new coordination state.
    pub open spec fn with_state(m: ClientModel, st: DeviceState) -> ClientModel {
        ClientModel { state: st, ..m }
    }

    /// The verifier anchor parsed from product key file content. A
    /// PEM-shaped envelope names the algorithm in its header and the key is
    /// the digest of the body after it; the bare form names the algorithm
    /// before the first colon and the key is the digest of the material
    /// after it.
    pub open spec fn product_key_of(s: Seq<u8>) -> Option<(SignatureAlgorithm, u64)> {
        match crate::codec::spec_expect(s, 0, ("-----BEGIN ").spec_bytes()) {
            Some(i) => match crate::codec::spec_parse_algorithm(s, i) {
                None => None,
                Some((a, j)) => match crate::codec::spec_expect(
                    s,
                    j,
                    (" PUBLIC KEY-----").spec_bytes(),
                ) {
                    None => None,
                    Some(k) => Some((a, digest_of(s.skip(k)))),
                },
            },
            None => match crate::codec::spec_parse_algorithm(s, 0) {
                None => None,
                Some((a, j)) => if 0 <= j < s.len() && s[j] == 58 {
                    Some((a, digest_of(s.skip(j + 1))))
                } else {
                    None
                },
            },
        }
    }

    /// Configure the verifier's anchor: the expected signature algorithm and
    /// the root public key, both taken from the key file content — either a
    /// PEM-shaped envelope (`-----BEGIN <algorithm> PUBLIC KEY-----` with
    /// the key material after the header) or the bare
    /// `<algorithm>:<key material>` form.
    pub fn set_product_public_key(&mut self, product_public_key_file_content: &str) -> (r: Result<
        (),
        DecentriLicenseError,
    >)
        ensures
            !old(self)@.initialized ==> r == Err::<(), DecentriLicenseError>(
                DecentriLicenseError::NotInitialized,
            ) && final(self)@ == old(self)@,
            old(self)@.initialized ==> match Self::product_key_of(
                product_public_key_file_content.spec_bytes(),
            ) {
                Some(pk) => r is Ok && final(self)@ == Self::with_product_key(old(self)@, pk),
                None => r == Err::<(), DecentriLicenseError>(DecentriLicenseError::CryptoError)
                    && final(self)@ == old(self)@,
            },
    {
        proof {
            use_type_invariant(&*self);
        }
        if !self.initialized {
            return Err(DecentriLicenseError::NotInitialized);
        }
        let content = product_public_key_file_content.as_bytes();
        if let Some(i) = crate::codec::expect_lit(content, 0, "-----BEGIN ") {
            let (alg, j) = match crate::codec::parse_algorithm_at(content, i) {
                Some(v) => v,
                None => {
                    return Err(DecentriLicenseError::CryptoError);
                },
            };
            let k = match crate::codec::expect_lit(content, j, " PUBLIC KEY-----") {
                Some(v) => v,
                None => {
                    return Err(DecentriLicenseError::CryptoError);
                },
            };
            let body = content.split_at(k).1;
            proof {
                assert(body@ =~= product_public_key_file_content.spec_bytes().skip(k as int));
            }
            let key = digest_bytes(body);
            self.product_key = Some((alg, key));
            return Ok(());
        }
        let (alg, j) = match crate::codec::parse_algorithm_at(content, 0) {
            Some(v) => v,
            None => {
                return Err(DecentriLicenseError::CryptoError);
            },
        };
        if j >= content.len() || content[j] != 58 {
            return Err(DecentriLicenseError::CryptoError);
        }
        let material = content.split_at(j + 1).1;
        proof {
            assert(material@ =~= product_public_key_file_content.spec_bytes().skip(j + 1));
        }
        let key = digest_bytes(material);
        self.product_key = Some((alg, key));
        Ok(())
    }

    /// What importing the given bytes into session `m` yields: the token,
    /// or the error. Input with a `'|'` is an encrypted envelope and needs
    /// the product key; anything else must be the canonical token JSON.
    pub open spec fn import_outcome(m: ClientModel, input: Seq<u8>) -> Result<
        TokenModel,
        DecentriLicenseError,
    > {
        if bar_position(input, 0) is Some {
            match m.product_key {
                None => Err(DecentriLicenseError::CryptoError),
                Some((a, k)) => match open_envelope(k, input) {
                    None => Err(DecentriLicenseError::CryptoError),
                    Some(plain) => Self::lenient_parse_outcome(plain),
                },
            }
        } else {
            Self::lenient_parse_outcome(input)
        }
    }

    /// What parsing token bytes yields: the token when the bytes are the
    /// canonical JSON of a well-formed token, the input error otherwise.
    pub open spec fn parse_outcome(bytes: Seq<u8>) -> Result<TokenModel, DecentriLicenseError> {
        match spec_parse_token_doc(bytes) {
            Some(t) => if wf_token_text(t) {
                Ok(t)
            } else {
                Err(DecentriLicenseError::InvalidArgument)
            },
            None => Err(DecentriLicenseError::InvalidArgument),
        }
    }

    /// Parse strictly first; when the strict canonical parse refuses the
    /// document, retry with insignificant whitespace removed — a plaintext
    /// token may arrive pretty-printed.
    pub open spec fn lenient_parse_outcome(bytes: Seq<u8>) -> Result<
        TokenModel,
        DecentriLicenseError,
    > {
        if spec_parse_token_doc(bytes) is Some {
            Self::parse_outcome(bytes)
        } else {
            Self::parse_outcome(crate::codec::spec_strip_ws(bytes, 0, false))
        }
    }

    /// Import a token: canonical JSON (insignificant whitespace is
    /// tolerated), or an encrypted envelope (`ciphertext '|' nonce`) sealed
    /// under the product key. A token whose text fields hold a NUL byte is
    /// rejected as invalid input.
    pub fn import_token(&mut self, token_input: &str) -> (r: Result<(), DecentriLicenseError>)
        ensures
            !old(self)@.initialized ==> r == Err::<(), DecentriLicenseError>(
                DecentriLicenseError::NotInitialized,
            ) && final(self)@ == old(self)@,
            old(self)@.initialized ==> match Self::import_outcome(
                old(self)@,
                token_input.spec_bytes(),
            ) {
                Ok(t) => r is Ok && final(self)@ == Self::with_token(old(self)@, t),
                Err(e) => r == Err::<(), DecentriLicenseError>(e) && final(self)@ == old(self)@,
            },
    {
        proof {
            use_type_invariant(&*self);
        }
        if !self.initialized {
            return Err(DecentriLicenseError::NotInitialized);
        }
        let input = token_input.as_bytes();
        let plain: Vec<u8>;
        if let Some(_) = crate::envelope::find_bar(input) {
            let key = match self.product_key {
                Some((_, k)) => k,
                None => {
                    return Err(DecentriLicenseError::CryptoError);
                },
            };
            plain = match unseal(key, input) {
                Some(p) => p,
                None => {
                    return Err(DecentriLicenseError::CryptoError);
                },
            };
        } else {
            plain = slice_to_vec(input);
        }
        let token = match parse_token_document(plain.as_slice()) {
            Some(t) => t,
            None => {
                let stripped = crate::codec::strip_ws(plain.as_slice());
                match parse_token_document(stripped.as_slice()) {
                    Some(t) => t,
                    None => {
                        return Err(DecentriLicenseError::InvalidArgument);
                    },
                }
            },
        };
        if !crate::token::check_token_text(&token) {
            return Err(DecentriLicenseError::InvalidArgument);
        }
        self.token = Some(token);
        Ok(())
    }

    /// The held token as canonical JSON.
    pub fn get_current_token_json(&self) -> (r: Result<String, DecentriLicenseError>)
        ensures
            !self@.initialized ==> r == Err::<String, DecentriLicenseError>(
                DecentriLicenseError::NotInitialized,
            ),
            self@.initialized && self@.token is None ==> r == Err::<String, DecentriLicenseError>(
                DecentriLicenseError::UnknownError,
            ),
            self@.initialized ==> (self@.token matches Some(m) ==> (r matches Ok(s) && s@
                == ascii_chars_of(json_token(m)))),
    {
        proof {
            use_type_invariant(&*self);
        }
        if !self.initialized {
            return Err(DecentriLicenseError::NotInitialized);
        }
        let t = match &self.token {
            Some(t) => t,
            None => {
                return Err(DecentriLicenseError::UnknownError);
            },
        };
        let bytes = token_to_json(t);
        proof {
            crate::codec::lemma_json_token_ascii(t@);
        }
        Ok(ascii_to_string(bytes))
    }

    /// The held token sealed under the product key for hand-off. Sealing is
    /// deterministic, so exporting twice without an intervening mutation
    /// yields the identical envelope.
    pub fn export_current_token_encrypted(&self) -> (r: Result<String, DecentriLicenseError>)
        ensures
            !self@.initialized ==> r == Err::<String, DecentriLicenseError>(
                DecentriLicenseError::NotInitialized,
            ),
            self@.initialized && self@.token is None ==> r == Err::<String, DecentriLicenseError>(
                DecentriLicenseError::UnknownError,
            ),
            self@.initialized && self@.token is Some && self@.product_key is None ==> r == Err::<
                String,
                DecentriLicenseError,
            >(DecentriLicenseError::CryptoError),
            self@.initialized ==> (self@.token matches Some(m) ==> (self@.product_key matches Some(
                (a, k),
            ) ==> (r matches Ok(s) && s@ == ascii_chars_of(envelope_text(k, json_token(m)))))),
    {
        proof {
            use_type_invariant(&*self);
        }
        if !self.initialized {
            return Err(DecentriLicenseError::NotInitialized);
        }
        let t = match &self.token {
            Some(t) => t,
            None => {
                return Err(DecentriLicenseError::UnknownError);
            },
        };
        let key = match self.product_key {
            Some((_, k)) => k,
            None => {
                return Err(DecentriLicenseError::CryptoError);
            },
        };
        let bytes = token_to_json(t);
        let sealed = seal(key, bytes.as_slice());
        proof {
            crate::envelope::lemma_envelope_ascii(key, json_token(t@));
        }
        Ok(ascii_to_string(sealed))
    }

    /// Re-run the full trust chain verifier on the held token, offline.
    pub fn offline_verify_current_token(&self) -> (r: Result<
        VerificationResult,
        DecentriLicenseError,
    >)
        ensures
            !self@.initialized ==> r == Err::<VerificationResult, DecentriLicenseError>(
                DecentriLicenseError::NotInitialized,
            ),
            self@.initialized && self@.token is None ==> r == Err::<
                VerificationResult,
                DecentriLicenseError,
            >(DecentriLicenseError::UnknownError),
            self@.initialized && self@.token is Some && self@.product_key is None ==> r == Err::<
                VerificationResult,
                DecentriLicenseError,
            >(DecentriLicenseError::CryptoError),
            self@.initialized ==> (self@.token matches Some(m) ==> (self@.product_key matches Some(
                (alg, k),
            ) ==> match r {
                Ok(v) => (v.valid <==> trust_chain_ok(m, k, alg)) && (!v.valid ==> (
                first_gate_failure(m, k, alg) matches Some(f) && v.error_message@ == detail_of(f))),
                Err(_) => false,
            })),
    {
        if !self.initialized {
            return Err(DecentriLicenseError::NotInitialized);
        }
        let t = match &self.token {
            Some(t) => t,
            None => {
                return Err(DecentriLicenseError::UnknownError);
            },
        };
        let (alg, key) = match self.product_key {
            Some(pk) => pk,
            None => {
                return Err(DecentriLicenseError::CryptoError);
            },
        };
        Ok(verify_trust_chain(t, key, alg))
    }

    /// A read-only snapshot of the session: token presence, activation,
    /// lifetime, counter, and the identity fields as text. When no token is
    /// held, only the booleans and the license code carry information.
    pub fn get_status(&self) -> (r: Result<StatusResult, DecentriLicenseError>)
        ensures
            !self@.initialized ==> r == Err::<StatusResult, DecentriLicenseError>(
                DecentriLicenseError::NotInitialized,
            ),
            self@.initialized ==> match r {
                Ok(st) => {
                    &&& st.has_token == (self@.token is Some)
                    &&& st.is_activated == Self::spec_is_activated(self@)
                    &&& vstd::utf8::valid_utf8(self@.license_code) ==> st.license_code@
                        == vstd::utf8::decode_utf8(self@.license_code)
                    &&& match self@.token {
                        Some(m) => {
                            &&& st.issue_time == m.issue_time
                            &&& st.expire_time == m.expire_time
                            &&& st.state_index == m.state_index
                            &&& vstd::utf8::valid_utf8(m.token_id) ==> st.token_id@
                                == vstd::utf8::decode_utf8(m.token_id)
                            &&& st.holder_device_id@ == ascii_chars_of(
                                dec_nat(m.holder_device_id as nat),
                            )
                            &&& vstd::utf8::valid_utf8(m.app_id) ==> st.app_id@
                                == vstd::utf8::decode_utf8(m.app_id)
                        },
                        None => {
                            &&& st.issue_time == 0
                            &&& st.expire_time == 0
                            &&& st.state_index == 0
                            &&& st.token_id@ == Seq::<char>::empty()
                            &&& st.holder_device_id@ == Seq::<char>::empty()
                            &&& st.app_id@ == Seq::<char>::empty()
                        },
                    }
                },
                Err(_) => false,
            },
    {
        proof {
            use_type_invariant(&*self);
        }
        if !self.initialized {
            return Err(DecentriLicenseError::NotInitialized);
        }
        let activated = self.is_activated();
        let license_code = bytes_to_string_lossy(self.license_code.as_slice());
        match &self.token {
            Some(t) => {
                proof {
                    crate::decimal::lemma_dec_nat_digits(t@.holder_device_id as nat);
                }
                let holder_digits = crate::decimal::render_u64(t.holder_device_id);
                Ok(StatusResult {
                    has_token: true,
                    is_activated: activated,
                    issue_time: t.issue_time,
                    expire_time: t.expire_time,
                    state_index: t.state_index,
                    token_id: bytes_to_string_lossy(t.token_id.as_slice()),
                    holder_device_id: ascii_to_string(holder_digits),
                    app_id: bytes_to_string_lossy(t.app_id.as_slice()),
                    license_code: license_code,
                })
            },
            None => {
                proof {
                    assert(ascii_chars_of(Seq::<u8>::empty()) =~= Seq::<char>::empty());
                }
                Ok(StatusResult {
                    has_token: false,
                    is_activated: activated,
                    issue_time: 0,
                    expire_time: 0,
                    state_index: 0,
                    token_id: String::new(),
                    holder_device_id: String::new(),
                    app_id: String::new(),
                    license_code: license_code,
                })
            },
        }
    }

    /// Verify the held token's trust chain and, on success, bind it to this
    /// device: the holder field is replaced, the token re-signed and the
    /// device takes the coordinator role. On failure nothing changes and the
    /// first failing gate is reported. Binding an already-bound token to the
    /// same device rewrites the same holder: the operation is idempotent.
    pub fn activate_bind_device(&mut self) -> (r: Result<
        VerificationResult,
        DecentriLicenseError,
    >)
        ensures
            !old(self)@.initialized ==> r == Err::<VerificationResult, DecentriLicenseError>(
                DecentriLicenseError::NotInitialized,
            ) && final(self)@ == old(self)@,
            old(self)@.initialized && old(self)@.token is None ==> r == Err::<
                VerificationResult,
                DecentriLicenseError,
            >(DecentriLicenseError::UnknownError) && final(self)@ == old(self)@,
            old(self)@.initialized && old(self)@.token is Some && old(self)@.product_key is None
                ==> r == Err::<VerificationResult, DecentriLicenseError>(
                DecentriLicenseError::CryptoError,
            ) && final(self)@ == old(self)@,
            old(self)@.initialized ==> (old(self)@.token matches Some(m) ==> (
            old(self)@.product_key matches Some((alg, k)) ==> match r {
                Ok(v) => {
                    &&& (v.valid <==> trust_chain_ok(m, k, alg))
                    &&& (v.valid ==> final(self)@ == Self::with_state(
                        Self::with_token(old(self)@, crate::token::with_holder_bound(
                            m,
                            old(self)@.device_id,
                        )),
                        DeviceState::Coordinator,
                    ))
                    &&& (!v.valid ==> final(self)@ == old(self)@ && (first_gate_failure(m, k, alg)
                        matches Some(f) && v.error_message@ == detail_of(f)))
                },
                Err(_) => false,
            })),
    {
        proof {
            use_type_invariant(&*self);
        }
        if !self.initialized {
            return Err(DecentriLicenseError::NotInitialized);
        }
        match &self.token {
            Some(_) => {},
            None => {
                return Err(DecentriLicenseError::UnknownError);
            },
        }
        let (alg, key) = match self.product_key {
            Some(pk) => pk,
            None => {
                return Err(DecentriLicenseError::CryptoError);
            },
        };
        let dev = self.device_id;
        let mut slot: Option<Token> = None;
        core::mem::swap(&mut slot, &mut self.token);
        let mut t = match slot {
            Some(t) => t,
            None => {
                proof {
                    assert(false);
                }
                return Err(DecentriLicenseError::UnknownError);
            },
        };
        let verdict = verify_trust_chain(&t, key, alg);
        if !verdict.valid {
            self.token = Some(t);
            return Ok(verdict);
        }
        let ghost m = t@;
        t.holder_device_id = dev;
        let core_bytes = crate::token::token_core_vec(&t);
        t.signature = crate::digest::keyed_digest_bytes(t.license_public_key, core_bytes.as_slice());
        proof {
            assert(t@ =~= crate::token::with_holder_bound(m, dev));
            crate::token::lemma_bind_preserves_text(m, dev);
        }
        self.token = Some(t);
        self.state = DeviceState::Coordinator;
        Ok(verdict)
    }

    /// The participant this device enters an election as: holder priority
    /// when the held token is already bound to it.
    pub open spec fn self_peer(m: ClientModel) -> Peer {
        Peer {
            device_id: m.device_id,
            holder_priority: match m.token {
                Some(t) => t.holder_device_id == m.device_id,
                None => false,
            },
        }
    }

    /// The participants of an activation round: this device and the peers
    /// whose discovery replies arrived within the window.
    pub open spec fn participants(m: ClientModel, peers: Seq<Peer>) -> Seq<Peer> {
        seq![Self::self_peer(m)] + peers
    }

    /// Run one activation round. The caller hands in the peer replies the
    /// discovery window collected; the state machine passes through
    /// `Discovering` and `Electing` and ends in `Coordinator` or `Follower`.
    /// With no peers reachable the device proceeds unilaterally as
    /// coordinator. The winner verifies and binds the token as
    /// `activate_bind_device` does; a loser's attempt fails cleanly.
    #[verifier::rlimit(100)]
    #[verifier::spinoff_prover]
    pub fn activate(&mut self, peers: &Vec<Peer>) -> (r: Result<
        ActivationResult,
        DecentriLicenseError,
    >)
        ensures
            !old(self)@.initialized ==> r == Err::<ActivationResult, DecentriLicenseError>(
                DecentriLicenseError::NotInitialized,
            ) && final(self)@ == old(self)@,
            old(self)@.initialized && old(self)@.token is None ==> r == Err::<
                ActivationResult,
                DecentriLicenseError,
            >(DecentriLicenseError::UnknownError) && final(self)@ == old(self)@,
            old(self)@.initialized && old(self)@.token is Some && old(self)@.product_key is None
                ==> r == Err::<ActivationResult, DecentriLicenseError>(
                DecentriLicenseError::CryptoError,
            ) && final(self)@ == old(self)@,
            r is Ok ==> crate::election::state_step_allowed(
                DeviceState::Electing,
                final(self)@.state,
            ),
            old(self)@.initialized ==> (old(self)@.token matches Some(m) ==> (
            old(self)@.product_key matches Some((alg, k)) ==> {
                let winner = election_winner(Self::participants(old(self)@, peers@));
                match r {
                    Ok(a) => {
                        &&& (winner.device_id != old(self)@.device_id ==> !a.success && a.token
                            is None && a.message@ == detail_of(FailureReason::ElectionLost)
                            && final(self)@ == Self::with_state(old(self)@, DeviceState::Follower))
                        &&& (winner.device_id == old(self)@.device_id && !trust_chain_ok(m, k, alg)
                            ==> !a.success && a.token is None && final(self)@ == Self::with_state(
                            old(self)@,
                            DeviceState::Coordinator,
                        ) && (first_gate_failure(m, k, alg) matches Some(f) && a.message@
                            == detail_of(f)))
                        &&& (winner.device_id == old(self)@.device_id && trust_chain_ok(m, k, alg)
                            ==> a.success && a.message@ == Seq::<char>::empty() && (
                        a.token matches Some(t) && t@ == crate::token::with_holder_bound(
                            m,
                            old(self)@.device_id,
                        )) && final(self)@ == Self::with_state(
                            Self::with_token(old(self)@, crate::token::with_holder_bound(
                                m,
                                old(self)@.device_id,
                            )),
                            DeviceState::Coordinator,
                        ))
                    },
                    Err(_) => false,
                }
            })),
    {
        proof {
            use_type_invariant(&*self);
        }
        if !self.initialized {
            return Err(DecentriLicenseError::NotInitialized);
        }
        let holder_priority = match &self.token {
            Some(t) => t.holder_device_id == self.device_id,
            None => {
                return Err(DecentriLicenseError::UnknownError);
            },
        };
        match self.product_key {
            Some(_) => {},
            None => {
                return Err(DecentriLicenseError::CryptoError);
            },
        }
        self.state = DeviceState::Discovering;
        let mut field: Vec<Peer> = Vec::new();
        field.push(Peer { device_id: self.device_id, holder_priority });
        let mut i: usize = 0;
        while i < peers.len()
            invariant
                0 <= i <= peers@.len(),
                field@ == seq![Peer { device_id: self@.device_id, holder_priority }] + peers@.take(
                    i as int,
                ),
            decreases peers@.len() - i,
        {
            field.push(peers[i]);
            proof {
                assert(peers@.take(i as int + 1) =~= peers@.take(i as int).push(peers@[i as int]));
                assert(field@ =~= seq![Peer { device_id: self@.device_id, holder_priority }]
                    + peers@.take(i as int + 1));
            }
            i = i + 1;
        }
        proof {
            assert(peers@.take(peers@.len() as int) =~= peers@);
            assert(field@ == Self::participants(self@, peers@));
        }
        self.state = DeviceState::Electing;
        let winner = run_election(&field);
        if winner.device_id != self.device_id {
            self.state = DeviceState::Follower;
            return Ok(ActivationResult {
                success: false,
                message: crate::trust::failure_detail(FailureReason::ElectionLost),
                token: None,
            });
        }
        match self.activate_bind_device() {
            Ok(v) => {
                if v.valid {
                    let copy = match &self.token {
                        Some(t) => clone_token(t),
                        None => {
                            proof {
                                assert(false);
                            }
                            return Err(DecentriLicenseError::UnknownError);
                        },
                    };
                    Ok(ActivationResult { success: true, message: String::new(), token: Some(copy) })
                } else {
                    self.state = DeviceState::Coordinator;
                    Ok(ActivationResult { success: false, message: v.error_message, token: None })
                }
            },
            Err(e) => {
                proof {
                    assert(false);
                }
                Err(e)
            },
        }
    }

    /// Record one usage action at a given timestamp: reject a payload
    /// holding a NUL byte (malformed caller input; everything else is
    /// carried opaquely), a token not bound to this device, one expired at
    /// `now` (an expiry time of zero never expires), or a counter that does
    /// not match the chain; otherwise append one signed entry carrying the
    /// payload and re-sign the token.
    pub fn record_usage_at(&mut self, new_state_payload_json: &str, now: i64) -> (r: Result<
        VerificationResult,
        DecentriLicenseError,
    >)
        ensures
            !old(self)@.initialized ==> r == Err::<VerificationResult, DecentriLicenseError>(
                DecentriLicenseError::NotInitialized,
            ) && final(self)@ == old(self)@,
            old(self)@.initialized && old(self)@.token is None ==> r == Err::<
                VerificationResult,
                DecentriLicenseError,
            >(DecentriLicenseError::UnknownError) && final(self)@ == old(self)@,
            old(self)@.initialized && old(self)@.token is Some && !wf_text(
                new_state_payload_json.spec_bytes(),
            ) ==> r == Err::<VerificationResult, DecentriLicenseError>(
                DecentriLicenseError::InvalidArgument,
            ) && final(self)@ == old(self)@,
            old(self)@.initialized && wf_text(new_state_payload_json.spec_bytes()) ==> (
            old(self)@.token matches Some(m) ==> match r {
                Ok(v) => {
                    &&& (m.holder_device_id != old(self)@.device_id ==> !v.valid
                        && v.error_message@ == detail_of(FailureReason::HolderMismatch) && final(self)@ == old(self)@)
                    &&& (m.holder_device_id == old(self)@.device_id && m.expire_time != 0 && now
                        > m.expire_time ==> !v.valid && v.error_message@ == detail_of(
                        FailureReason::Expired,
                    ) && final(self)@ == old(self)@)
                    &&& (m.holder_device_id == old(self)@.device_id && (m.expire_time == 0 || now
                        <= m.expire_time) && (m.state_index != m.usage_chain.len()
                        || m.state_index == u64::MAX) ==> !v.valid && v.error_message@ == detail_of(
                        FailureReason::StateChainInvalid,
                    ) && final(self)@ == old(self)@)
                    &&& (m.holder_device_id == old(self)@.device_id && (m.expire_time == 0 || now
                        <= m.expire_time) && m.state_index == m.usage_chain.len() && m.state_index
                        != u64::MAX ==> v.valid && v.error_message@ == Seq::<char>::empty()
                        && final(self)@ == Self::with_token(
                        old(self)@,
                        crate::token::with_usage_appended(
                            m,
                            Seq::empty(),
                            new_state_payload_json.spec_bytes(),
                            now,
                        ),
                    ))
                },
                Err(_) => false,
            }),
    {
        proof {
            use_type_invariant(&*self);
        }
        if !self.initialized {
            return Err(DecentriLicenseError::NotInitialized);
        }
        match &self.token {
            Some(_) => {},
            None => {
                return Err(DecentriLicenseError::UnknownError);
            },
        }
        let payload = new_state_payload_json.as_bytes();
        if !check_wf_text(payload) {
            return Err(DecentriLicenseError::InvalidArgument);
        }
        let dev = self.device_id;
        let mut slot: Option<Token> = None;
        core::mem::swap(&mut slot, &mut self.token);
        let mut t = match slot {
            Some(t) => t,
            None => {
                proof {
                    assert(false);
                }
                return Err(DecentriLicenseError::UnknownError);
            },
        };
        if t.holder_device_id != dev {
            self.token = Some(t);
            return Ok(failed_result(FailureReason::HolderMismatch));
        }
        if t.expire_time != 0 && now > t.expire_time {
            self.token = Some(t);
            return Ok(failed_result(FailureReason::Expired));
        }
        if t.state_index != t.usage_chain.len() as u64 || t.state_index == u64::MAX {
            self.token = Some(t);
            return Ok(failed_result(FailureReason::StateChainInvalid));
        }
        let ghost m = t@;
        let empty_action: Vec<u8> = Vec::new();
        crate::token::append_usage(&mut t, empty_action.as_slice(), payload, now);
        proof {
            crate::token::lemma_append_preserves_text(
                m,
                Seq::empty(),
                new_state_payload_json.spec_bytes(),
                now,
            );
        }
        self.token = Some(t);
        Ok(valid_result())
    }

    /// Record one usage action stamped with the current clock. The clock is
    /// read once; every clause below holds whatever time it returned, and a
    /// token whose expiry time is zero is never rejected as expired.
    pub fn record_usage(&mut self, new_state_payload_json: &str) -> (r: Result<
        VerificationResult,
        DecentriLicenseError,
    >)
        ensures
            !old(self)@.initialized ==> r == Err::<VerificationResult, DecentriLicenseError>(
                DecentriLicenseError::NotInitialized,
            ) && final(self)@ == old(self)@,
            old(self)@.initialized && old(self)@.token is None ==> r == Err::<
                VerificationResult,
                DecentriLicenseError,
            >(DecentriLicenseError::UnknownError) && final(self)@ == old(self)@,
            old(self)@.initialized && old(self)@.token is Some && !wf_text(
                new_state_payload_json.spec_bytes(),
            ) ==> r == Err::<VerificationResult, DecentriLicenseError>(
                DecentriLicenseError::InvalidArgument,
            ) && final(self)@ == old(self)@,
            old(self)@.initialized && wf_text(new_state_payload_json.spec_bytes()) ==> (
            old(self)@.token matches Some(m) ==> match r {
                Ok(v) => {
                    &&& (m.holder_device_id != old(self)@.device_id ==> !v.valid
                        && v.error_message@ == detail_of(FailureReason::HolderMismatch) && final(self)@ == old(self)@)
                    &&& (!v.valid ==> final(self)@ == old(self)@)
                    &&& (v.valid ==> exists|now: i64|
                        #![auto]
                        now >= 0 && (m.expire_time == 0 || now <= m.expire_time) && final(self)@
                            == Self::with_token(
                            old(self)@,
                            crate::token::with_usage_appended(
                                m,
                                Seq::empty(),
                                new_state_payload_json.spec_bytes(),
                                now,
                            ),
                        ))
                    &&& (m.holder_device_id == old(self)@.device_id && m.expire_time == 0
                        && m.state_index == m.usage_chain.len() && m.state_index != u64::MAX
                        ==> v.valid)
                    &&& (v.valid ==> m.state_index == m.usage_chain.len() && m.state_index
                        != u64::MAX)
                    &&& (!v.valid && m.holder_device_id == old(self)@.device_id && m.state_index
                        == m.usage_chain.len() && m.state_index != u64::MAX ==> v.error_message@
                        == detail_of(FailureReason::Expired) && m.expire_time != 0)
                    &&& (!v.valid && m.holder_device_id == old(self)@.device_id && m.expire_time
                        == 0 ==> (m.state_index != m.usage_chain.len() || m.state_index
                        == u64::MAX) && v.error_message@ == detail_of(
                        FailureReason::StateChainInvalid,
                    ))
                    &&& (!v.valid && v.error_message@ == detail_of(FailureReason::StateChainInvalid)
                        ==> m.state_index != m.usage_chain.len() || m.state_index == u64::MAX)
                },
                Err(_) => false,
            }),
    {
        proof {
            crate::trust::lemma_usage_details_distinct();
        }
        let now = unix_now();
        let r = self.record_usage_at(new_state_payload_json, now);
        r
    }

    /// A copy of the held token, if any.
    pub fn get_current_token(&self) -> (r: Result<Option<Token>, DecentriLicenseError>)
        ensures
            !self@.initialized ==> r == Err::<Option<Token>, DecentriLicenseError>(
                DecentriLicenseError::NotInitialized,
            ),
            self@.initialized ==> match r {
                Ok(o) => match (o, self@.token) {
                    (Some(t), Some(m)) => t@ == m,
                    (None, None) => true,
                    _ => false,
                },
                Err(_) => false,
            },
    {
        if !self.initialized {
            return Err(DecentriLicenseError::NotInitialized);
        }
        match &self.token {
            Some(t) => Ok(Some(clone_token(t))),
            None => Ok(None),
        }
    }
}

} // verus!
