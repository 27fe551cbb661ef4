//! Request signing: RSA-PSS over SHA-256.
//!
//! The signed message is `{timestamp_ms}{METHOD}{path}` without separators; the
//! path has any query string removed. The salt is as long as the digest.

use crate::parse::{self, push_decimal};
use crate::text::{self, chars_of, debug_string, string_of};
use rsa::pkcs8::{DecodePrivateKey, DecodePublicKey};
use rsa::signature::{Keypair, RandomizedSigner, SignatureEncoding, Verifier};
use rsa::traits::PrivateKeyParts;
use base64::Engine;
use vstd::prelude::*;

verus! {

/// The exact path to be signed for the WebSocket upgrade handshake.
pub const WS_SIGNING_PATH: &'static str = "/trade-api/ws/v2";

pub const KEY_HEADER: &'static str = "KALSHI-ACCESS-KEY";

pub const SIGNATURE_HEADER: &'static str = "KALSHI-ACCESS-SIGNATURE";

pub const TIMESTAMP_HEADER: &'static str = "KALSHI-ACCESS-TIMESTAMP";

/// What is shown in place of the private key.
pub const DESCRIBED_KEY: &'static str = ", private_key: \"<redacted>\" }";

/// What can go wrong with keys and signatures. No variant carries key material.
#[derive(Debug, Clone, PartialEq, Eq)]
pub enum AuthError {
    DecodeKey { path: String },
    ClockBeforeEpoch,
    /// The key is not handed to the signer: see [`can_sign`].
    UnlikePrimes,
    /// The signer did not give a signature.
    Sign,
    DecodePublicKey { origin: String },
}

// ---------------------------------------------------------------------------
// The signed message
// ---------------------------------------------------------------------------
/// The path up to its first `?`.
pub open spec fn without_query(path: Seq<char>) -> Seq<char>
    decreases path.len(),
{
    if path.len() == 0 || path[0] == '?' {
        Seq::empty()
    } else {
        seq![path[0]] + without_query(path.drop_first())
    }
}

/// The text that is signed.
pub open spec fn signed_text(
    timestamp_ms: Seq<char>,
    method: Seq<char>,
    path: Seq<char>,
) -> Seq<char> {
    timestamp_ms + method + without_query(path)
}

proof fn lemma_without_query_at(path: Seq<char>, k: int)
    requires
        0 <= k <= path.len(),
        k < path.len() ==> path[k] == '?',
        forall|i: int| 0 <= i < k ==> #[trigger] path[i] != '?',
    ensures
        without_query(path) == path.take(k),
    decreases path.len(),
{
    if k == 0 {
        assert(path.take(0) =~= Seq::<char>::empty());
    } else {
        assert(path[0] != '?');
        let rest = path.drop_first();
        assert forall|i: int| 0 <= i < k - 1 implies #[trigger] rest[i] != '?' by {
            assert(path[i + 1] != '?');
        }
        lemma_without_query_at(rest, k - 1);
        assert(path.take(k) =~= seq![path[0]] + rest.take(k - 1));
    }
}

/// Strip any query string from a path.
pub fn path_without_query(path: &str) -> (out: String)
    ensures
        out@ == without_query(path@),
{
    let chars = chars_of(path);
    let mut end: usize = 0;
    while end < chars.len() && chars[end] != '?'
        invariant
            end <= chars@.len(),
            chars@ == path@,
            forall|i: int| 0 <= i < end ==> #[trigger] path@[i] != '?',
        decreases chars@.len() - end,
    {
        end += 1;
    }
    proof {
        lemma_without_query_at(path@, end as int);
        assert(chars@.subrange(0, end as int) =~= path@.take(end as int));
    }
    string_of(&chars, 0, end)
}

/// Build the exact text that is signed.
pub fn signing_message(timestamp_ms: &str, method: &str, path: &str) -> (out: String)
    ensures
        out@ == signed_text(timestamp_ms@, method@, path@),
{
    let mut out = timestamp_ms.to_owned();
    out.append(method);
    out.append(path_without_query(path).as_str());
    out
}

/// What stands in the query never reaches the signature, and a path without one is
/// signed whole.
pub proof fn law_the_query_is_never_signed(
    timestamp_ms: Seq<char>,
    method: Seq<char>,
    path: Seq<char>,
    query: Seq<char>,
)
    ensures
        signed_text(timestamp_ms, method, path + seq!['?'] + query) == signed_text(
            timestamp_ms,
            method,
            path,
        ),
        !path.contains('?') ==> signed_text(timestamp_ms, method, path) == timestamp_ms + method
            + path,
{
    lemma_query_is_cut(path, query);
    if !path.contains('?') {
        assert forall|i: int| 0 <= i < path.len() implies #[trigger] path[i] != '?' by {
            assert(path.contains(path[i]));
        }
        lemma_without_query_at(path, path.len() as int);
        assert(path.take(path.len() as int) =~= path);
    }
}

proof fn lemma_query_is_cut(path: Seq<char>, query: Seq<char>)
    ensures
        without_query(path + seq!['?'] + query) == without_query(path),
    decreases path.len(),
{
    let full = path + seq!['?'] + query;
    if path.len() > 0 && path[0] != '?' {
        assert(full[0] == path[0]);
        assert(full.drop_first() =~= path.drop_first() + seq!['?'] + query);
        lemma_query_is_cut(path.drop_first(), query);
    } else if path.len() > 0 {
        assert(full[0] == path[0]);
    } else {
        assert(full[0] == '?');
    }
}

// ---------------------------------------------------------------------------
// Outside calls
// ---------------------------------------------------------------------------
/// Whether a text is the PEM form of a PKCS#8 RSA private key.
pub uninterp spec fn is_private_key(pem: Seq<char>) -> bool;

/// The bit lengths of the first and the second prime of the private key that a text
/// is the PEM form of.
pub uninterp spec fn prime_bits(pem: Seq<char>) -> Option<(nat, nat)>;

/// How many bits the second prime of a key may be longer than the first.
pub const MAX_PRIME_IMBALANCE: usize = 16;

/// Whether a key can sign: the first prime is not so much the shorter that adding it
/// up to the second would never end.
pub open spec fn can_sign(pem: Seq<char>) -> bool {
    prime_bits(pem) matches Some((first, second)) && second <= first + MAX_PRIME_IMBALANCE
}

/// Whether a text is the PEM form of an RSA public key.
pub uninterp spec fn is_public_key(pem: Seq<char>) -> bool;

/// Whether the public half of a private key accepts a signature for a message,
/// by RSA-PSS with SHA-256 and a salt of the digest's length.
pub uninterp spec fn own_key_accepts(pem: Seq<char>, message: Seq<u8>, signature: Seq<u8>) -> bool;

/// Whether a public key accepts a signature for a message, by RSA-PSS with
/// SHA-256 and a salt of the digest's length.
pub uninterp spec fn public_key_accepts(
    pem: Seq<char>,
    message: Seq<u8>,
    signature: Seq<u8>,
) -> bool;

/// The standard padded base64 text of some bytes.
pub uninterp spec fn base64_text(bytes: Seq<u8>) -> Seq<char>;

/// The bytes that a standard padded base64 text stands for, if it is one.
pub uninterp spec fn base64_bytes(text: Seq<char>) -> Option<Seq<u8>>;

/// `RsaPrivateKey::from_pkcs8_pem` accepts or refuses a text by the text alone.
#[verifier::external_body]
fn decodes_private_key(pem: &str) -> (out: bool)
    ensures
        out == is_private_key(pem@),
{
    rsa::RsaPrivateKey::from_pkcs8_pem(pem).is_ok()
}

/// `PrivateKeyParts::primes` of a key from `RsaPrivateKey::from_pkcs8_pem`, which has
/// two, and their lengths in bits depend on the text alone.
#[verifier::external_body]
fn key_prime_bits(pem: &str) -> (out: Option<(usize, usize)>)
    ensures
        match out {
            Some((first, second)) => is_private_key(pem@) && prime_bits(pem@) == Some(
                (first as nat, second as nat),
            ),
            None => !is_private_key(pem@) && prime_bits(pem@) is None,
        },
{
    let key = rsa::RsaPrivateKey::from_pkcs8_pem(pem).ok()?;
    Some((key.primes()[0].bits(), key.primes()[1].bits()))
}

/// `RsaPublicKey::from_public_key_pem` accepts or refuses a text by the text
/// alone.
#[verifier::external_body]
fn decodes_public_key(pem: &str) -> (out: bool)
    ensures
        out == is_public_key(pem@),
{
    rsa::RsaPublicKey::from_public_key_pem(pem).is_ok()
}

/// `BlindedSigningKey::<Sha256>::try_sign_with_rng` draws a random salt, so two
/// signatures of one message differ; each is accepted by the key that made it.
/// Nothing comes back where the text is no key or the key is too short. It adds the
/// first prime until a difference reaches zero, so the second must not be too much
/// the longer.
#[verifier::external_body]
fn pss_sign(pem: &str, message: &[u8]) -> (out: Option<Vec<u8>>)
    requires
        can_sign(pem@),
    ensures
        out matches Some(signature) ==> is_private_key(pem@) && own_key_accepts(
            pem@,
            message@,
            signature@,
        ),
{
    let key = rsa::RsaPrivateKey::from_pkcs8_pem(pem).ok()?;
    let signer = rsa::pss::BlindedSigningKey::<sha2::Sha256>::new(key);
    let signature = signer.try_sign_with_rng(&mut rand_core::OsRng, message).ok()?;
    Some(signature.to_vec())
}

/// `VerifyingKey::verify` under the public half of a private key depends on the
/// key, the message and the signature alone. A text that is no key accepts
/// nothing.
#[verifier::external_body]
fn pss_verify_own(pem: &str, message: &[u8], signature: &[u8]) -> (out: bool)
    ensures
        out == (is_private_key(pem@) && own_key_accepts(pem@, message@, signature@)),
{
    let Ok(key) = rsa::RsaPrivateKey::from_pkcs8_pem(pem) else {
        return false;
    };
    let Ok(signature) = rsa::pss::Signature::try_from(signature) else {
        return false;
    };
    let signer = rsa::pss::BlindedSigningKey::<sha2::Sha256>::new(key);
    signer.verifying_key().verify(message, &signature).is_ok()
}

/// `VerifyingKey::verify` under a public key depends on the key, the message and
/// the signature alone. A text that is no key accepts nothing.
#[verifier::external_body]
fn pss_verify_public(pem: &str, message: &[u8], signature: &[u8]) -> (out: bool)
    ensures
        out == (is_public_key(pem@) && public_key_accepts(pem@, message@, signature@)),
{
    let Ok(key) = rsa::RsaPublicKey::from_public_key_pem(pem) else {
        return false;
    };
    let Ok(signature) = rsa::pss::Signature::try_from(signature) else {
        return false;
    };
    rsa::pss::VerifyingKey::<sha2::Sha256>::new(key).verify(message, &signature).is_ok()
}

/// `base64::engine::general_purpose::STANDARD.encode` depends on the bytes
/// alone, and what it gives decodes to them again.
#[verifier::external_body]
fn encode_base64(bytes: &[u8]) -> (out: String)
    ensures
        out@ == base64_text(bytes@),
        base64_bytes(out@) == Some(bytes@),
{
    base64::engine::general_purpose::STANDARD.encode(bytes)
}

/// `base64::engine::general_purpose::STANDARD.decode` depends on the text alone.
#[verifier::external_body]
fn decode_base64(text: &str) -> (out: Option<Vec<u8>>)
    ensures
        match out {
            Some(bytes) => base64_bytes(text@) == Some(bytes@),
            None => base64_bytes(text@) is None,
        },
{
    base64::engine::general_purpose::STANDARD.decode(text).ok()
}

#[verifier::external_type_specification]
#[verifier::external_body]
pub struct ExSystemTime(std::time::SystemTime);

/// `SystemTime::now` reads the clock. Nothing is promised of the time.
#[verifier::external_body]
fn system_time() -> (out: std::time::SystemTime) {
    std::time::SystemTime::now()
}

/// `SystemTime::duration_since` the Unix epoch, in seconds and the nanoseconds past
/// them, which are less than a second; nothing where the time lies before the epoch.
/// Which time it is is left open.
#[verifier::external_body]
fn since_epoch(time: std::time::SystemTime) -> (out: Option<(u64, u32)>)
    ensures
        out matches Some((_, nanos)) ==> nanos < 1_000_000_000,
{
    let duration = time.duration_since(std::time::UNIX_EPOCH).ok()?;
    Some((duration.as_secs(), duration.subsec_nanos()))
}

// ---------------------------------------------------------------------------
// Timestamps and headers
// ---------------------------------------------------------------------------
/// Tests a key for [`can_sign`].
pub fn key_can_sign(pem: &str) -> (out: bool)
    ensures
        out == can_sign(pem@),
{
    match key_prime_bits(pem) {
        Some((first, second)) => second <= first || second - first <= MAX_PRIME_IMBALANCE,
        None => false,
    }
}

/// The whole milliseconds of a time.
pub open spec fn millis_in(seconds: u64, nanos: u32) -> nat {
    (seconds * 1_000 + nanos / 1_000_000) as nat
}

/// The whole milliseconds of a time since the Unix epoch, given in seconds and the
/// nanoseconds past them.
pub fn whole_millis(since_epoch: Option<(u64, u32)>) -> (out: Option<u128>)
    ensures
        match since_epoch {
            Some((seconds, nanos)) => out matches Some(millis) && millis == millis_in(
                seconds,
                nanos,
            ),
            None => out is None,
        },
{
    match since_epoch {
        Some((seconds, nanos)) => Some(seconds as u128 * 1_000 + (nanos / 1_000_000) as u128),
        None => None,
    }
}

/// The timestamp header for a reading of the clock.
pub fn timestamp_text(millis: Option<u128>) -> (result: Result<String, AuthError>)
    ensures
        match millis {
            Some(millis) => result matches Ok(text) && text@ == parse::decimal(millis as nat),
            None => result == Err::<String, AuthError>(AuthError::ClockBeforeEpoch),
        },
{
    match millis {
        Some(millis) => {
            let mut text = String::new();
            push_decimal(&mut text, millis);
            assert(text@ =~= parse::decimal(millis as nat));
            Ok(text)
        },
        None => Err(AuthError::ClockBeforeEpoch),
    }
}

/// Whether a text is the decimal of the whole milliseconds of some time.
pub open spec fn is_timestamp(text: Seq<char>) -> bool {
    exists|seconds: u64, nanos: u32|
        nanos < 1_000_000_000 && text == parse::decimal(#[trigger] millis_in(seconds, nanos))
}

/// Milliseconds since the Unix epoch, as a decimal string.
pub fn timestamp_ms_now() -> (result: Result<String, AuthError>)
    ensures
        match result {
            Ok(text) => is_timestamp(text@),
            Err(error) => error == AuthError::ClockBeforeEpoch,
        },
{
    let reading = since_epoch(system_time());
    timestamp_text(whole_millis(reading))
}

/// The three headers that authenticate a request.
#[derive(Clone, Debug, PartialEq, Eq)]
pub struct SignedHeaders {
    pub access_key: String,
    pub signature: String,
    pub timestamp: String,
}

impl SignedHeaders {
    pub fn as_pairs(&self) -> (out: [(&'static str, &str); 3])
        ensures
            out@.len() == 3,
            out@[0].0@ == KEY_HEADER@ && out@[0].1@ == self.access_key@,
            out@[1].0@ == SIGNATURE_HEADER@ && out@[1].1@ == self.signature@,
            out@[2].0@ == TIMESTAMP_HEADER@ && out@[2].1@ == self.timestamp@,
    {
        [
            (KEY_HEADER, self.access_key.as_str()),
            (SIGNATURE_HEADER, self.signature.as_str()),
            (TIMESTAMP_HEADER, self.timestamp.as_str()),
        ]
    }
}

// ---------------------------------------------------------------------------
// Credentials
// ---------------------------------------------------------------------------
/// A key id and the private key it belongs to.
///
/// There is no debug form: the key must never reach a log. See
/// [`Credentials::describe`].
pub struct Credentials {
    key_id: String,
    pem: String,
}

impl Clone for Credentials {
    fn clone(&self) -> (out: Credentials)
        ensures
            out.id() == self.id(),
            out.key() == self.key(),
    {
        proof {
            use_type_invariant(self);
        }
        Credentials { key_id: self.key_id.clone(), pem: self.pem.clone() }
    }
}

impl Credentials {
    #[verifier::type_invariant]
    spec fn holds_a_key(self) -> bool {
        is_private_key(self.pem@)
    }

    pub closed spec fn id(&self) -> Seq<char> {
        self.key_id@
    }

    /// The text of the private key.
    pub closed spec fn key(&self) -> Seq<char> {
        self.pem@
    }

    pub fn from_pem(key_id: String, pem: &str, origin: &str) -> (result: Result<
        Credentials,
        AuthError,
    >)
        ensures
            match result {
                Ok(credentials) => is_private_key(pem@) && credentials.id() == key_id@
                    && credentials.key() == pem@,
                Err(AuthError::DecodeKey { path }) => !is_private_key(pem@) && path@ == origin@,
                Err(_) => false,
            },
    {
        if !decodes_private_key(pem) {
            return Err(AuthError::DecodeKey { path: origin.to_owned() });
        }
        Ok(Credentials { key_id, pem: pem.to_owned() })
    }

    pub fn key_id(&self) -> (out: &str)
        ensures
            out@ == self.id(),
    {
        self.key_id.as_str()
    }

    /// What may be shown of the credentials: the key id, and that there is a key.
    pub fn describe(&self) -> (out: String)
        ensures
            out@ == "Credentials { key_id: "@ + text::debug_text(self.id())
                + DESCRIBED_KEY@,
    {
        let mut out = "Credentials { key_id: ".to_owned();
        out.append(debug_string(self.key_id.as_str()).as_str());
        out.append(DESCRIBED_KEY);
        out
    }

    /// Sign a request. The signature covers the message of [`signing_message`]. Every
    /// key goes to the signer but one whose primes are too unlike in length.
    pub fn sign(&self, method: &str, path: &str, timestamp_ms: &str) -> (result: Result<
        SignedHeaders,
        AuthError,
    >)
        ensures
            match result {
                Ok(headers) => {
                    &&& can_sign(self.key())
                    &&& headers.access_key@ == self.id()
                    &&& headers.timestamp@ == timestamp_ms@
                    &&& accepts_text(
                        self.key(),
                        signed_text(timestamp_ms@, method@, path@),
                        headers.signature@,
                    )
                },
                Err(AuthError::UnlikePrimes) => is_private_key(self.key()) && !can_sign(self.key()),
                Err(AuthError::Sign) => can_sign(self.key()),
                Err(_) => false,
            },
    {
        proof {
            use_type_invariant(self);
        }
        if !key_can_sign(self.pem.as_str()) {
            return Err(AuthError::UnlikePrimes);
        }
        let message = signing_message(timestamp_ms, method, path);
        match pss_sign(self.pem.as_str(), message.as_str().as_bytes()) {
            Some(signature) => Ok(
                signed_headers(self.key_id.as_str(), &signature, timestamp_ms),
            ),
            None => Err(AuthError::Sign),
        }
    }

    /// Sign a request as of now.
    pub fn sign_rest(&self, method: &str, path: &str) -> (result: Result<SignedHeaders, AuthError>)
        ensures
            match result {
                Ok(headers) => {
                    &&& can_sign(self.key())
                    &&& headers.access_key@ == self.id()
                    &&& is_timestamp(headers.timestamp@)
                    &&& accepts_text(
                        self.key(),
                        signed_text(headers.timestamp@, method@, path@),
                        headers.signature@,
                    )
                },
                Err(AuthError::UnlikePrimes) => is_private_key(self.key()) && !can_sign(self.key()),
                Err(AuthError::Sign) => can_sign(self.key()),
                Err(error) => error == AuthError::ClockBeforeEpoch,
            },
    {
        match timestamp_ms_now() {
            Ok(timestamp) => self.sign(method, path, timestamp.as_str()),
            Err(error) => Err(error),
        }
    }

    /// Sign the WebSocket upgrade: `GET` over the literal WebSocket path.
    pub fn sign_websocket_upgrade(&self) -> (result: Result<SignedHeaders, AuthError>)
        ensures
            match result {
                Ok(headers) => {
                    &&& can_sign(self.key())
                    &&& headers.access_key@ == self.id()
                    &&& is_timestamp(headers.timestamp@)
                    &&& accepts_text(
                        self.key(),
                        signed_text(headers.timestamp@, "GET"@, WS_SIGNING_PATH@),
                        headers.signature@,
                    )
                },
                Err(AuthError::UnlikePrimes) => is_private_key(self.key()) && !can_sign(self.key()),
                Err(AuthError::Sign) => can_sign(self.key()),
                Err(error) => error == AuthError::ClockBeforeEpoch,
            },
    {
        self.sign_rest("GET", WS_SIGNING_PATH)
    }

    /// Whether this key accepts a base64 signature for a message.
    pub fn verify(&self, message: &str, signature_b64: &str) -> (out: bool)
        ensures
            out == accepts_text(self.key(), message@, signature_b64@),
    {
        match decode_base64(signature_b64) {
            Some(bytes) => pss_verify_own(
                self.pem.as_str(),
                message.as_bytes(),
                bytes.as_slice(),
            ),
            None => false,
        }
    }
}

/// Whether the text of a private key accepts a base64 signature for a message.
pub open spec fn accepts_text(
    pem: Seq<char>,
    message: Seq<char>,
    signature_b64: Seq<char>,
) -> bool {
    match base64_bytes(signature_b64) {
        Some(signature) => is_private_key(pem) && own_key_accepts(
            pem,
            vstd::utf8::encode_utf8(message),
            signature,
        ),
        None => false,
    }
}

/// The headers for one signature.
pub fn signed_headers(key_id: &str, signature: &Vec<u8>, timestamp_ms: &str) -> (out: SignedHeaders)
    ensures
        out.access_key@ == key_id@,
        out.timestamp@ == timestamp_ms@,
        out.signature@ == base64_text(signature@),
        base64_bytes(out.signature@) == Some(signature@),
{
    SignedHeaders {
        access_key: key_id.to_owned(),
        signature: encode_base64(signature.as_slice()),
        timestamp: timestamp_ms.to_owned(),
    }
}

/// Verify a signature under a public key. A signature that is no base64 or does
/// not fit is no error: it is not accepted.
pub fn verify_with_public_key_pem(
    public_key_pem: &str,
    message: &str,
    signature_b64: &str,
    origin: &str,
) -> (result: Result<bool, AuthError>)
    ensures
        match result {
            Ok(accepted) => is_public_key(public_key_pem@) && accepted == (match base64_bytes(
                signature_b64@,
            ) {
                Some(signature) => public_key_accepts(
                    public_key_pem@,
                    vstd::utf8::encode_utf8(message@),
                    signature,
                ),
                None => false,
            }),
            Err(AuthError::DecodePublicKey { origin: named }) => !is_public_key(public_key_pem@)
                && named@ == origin@,
            Err(_) => false,
        },
{
    if !decodes_public_key(public_key_pem) {
        return Err(AuthError::DecodePublicKey { origin: origin.to_owned() });
    }
    match decode_base64(signature_b64) {
        Some(bytes) => Ok(
            pss_verify_public(public_key_pem, message.as_bytes(), bytes.as_slice()),
        ),
        None => Ok(false),
    }
}

/// The signed text is the timestamp, the method and the path, in that order and with
/// nothing between them; the path ends where a `?` starts the query.
pub proof fn law_the_message_is_timestamp_method_path(
    timestamp_ms: &str,
    method: &str,
    path: &str,
    target: Seq<char>,
    query: Seq<char>,
    out: String,
)
    requires
        call_ensures(signing_message, (timestamp_ms, method, path), out),
        !target.contains('?'),
        path@ == target || path@ == target + seq!['?'] + query,
    ensures
        out@ == timestamp_ms@ + method@ + target,
{
    law_the_query_is_never_signed(timestamp_ms@, method@, target, query);
}

/// A path without its query is the longest start of it that has no `?`.
pub proof fn law_the_query_starts_at_the_first_mark(path: &str, out: String)
    requires
        call_ensures(path_without_query, (path,), out),
    ensures
        out@.len() <= path@.len(),
        out@ == path@.take(out@.len() as int),
        !out@.contains('?'),
        out@.len() < path@.len() ==> path@[out@.len() as int] == '?',
{
    lemma_cut_at_first_mark(path@);
}

proof fn lemma_cut_at_first_mark(path: Seq<char>)
    ensures
        ({
            let cut = without_query(path);
            &&& cut.len() <= path.len()
            &&& cut == path.take(cut.len() as int)
            &&& !cut.contains('?')
            &&& cut.len() < path.len() ==> path[cut.len() as int] == '?'
        }),
    decreases path.len(),
{
    let cut = without_query(path);
    if path.len() == 0 || path[0] == '?' {
        assert(cut =~= path.take(0));
    } else {
        let rest = path.drop_first();
        lemma_cut_at_first_mark(rest);
        let tail = without_query(rest);
        assert(cut =~= path.take(cut.len() as int)) by {
            assert forall|i: int| 0 <= i < cut.len() implies cut[i] == path[i] by {
                if i > 0 {
                    assert(cut[i] == tail[i - 1]);
                    assert(tail[i - 1] == rest.take(tail.len() as int)[i - 1]);
                }
            }
        }
        if cut.contains('?') {
            let k = choose|k: int| 0 <= k < cut.len() && cut[k] == '?';
            assert(tail[k - 1] == '?');
        }
        if cut.len() < path.len() {
            assert(rest[tail.len() as int] == path[cut.len() as int]);
        }
    }
}

/// The three headers go out under their names: the key id, the signature and the
/// timestamp. The WebSocket upgrade is signed over its own path.
pub proof fn law_headers_go_out_under_their_names(
    headers: SignedHeaders,
    pairs: [(&'static str, &str); 3],
)
    requires
        call_ensures(SignedHeaders::as_pairs, (&headers,), pairs),
    ensures
        pairs@.len() == 3,
        pairs@[0].0@ == "KALSHI-ACCESS-KEY"@ && pairs@[0].1@ == headers.access_key@,
        pairs@[1].0@ == "KALSHI-ACCESS-SIGNATURE"@ && pairs@[1].1@ == headers.signature@,
        pairs@[2].0@ == "KALSHI-ACCESS-TIMESTAMP"@ && pairs@[2].1@ == headers.timestamp@,
        WS_SIGNING_PATH@ == "/trade-api/ws/v2"@,
{
}

/// The timestamp is in whole milliseconds, and its text is their numeral.
pub proof fn law_timestamps_are_in_milliseconds(
    seconds: u64,
    nanos: u32,
    millis: Option<u128>,
    result: Result<String, AuthError>,
)
    requires
        nanos < 1_000_000_000,
        call_ensures(whole_millis, (Some((seconds, nanos)),), millis),
        call_ensures(timestamp_text, (millis,), result),
    ensures
        millis is Some,
        millis->0 * 1_000_000 <= seconds * 1_000_000_000 + nanos < (millis->0 + 1) * 1_000_000,
        result is Ok,
        parse::digits_value(result->Ok_0@) == millis->0,
        forall|i: int|
            0 <= i < result->Ok_0@.len() ==> '0' <= #[trigger] result->Ok_0@[i] <= '9',
{
    parse::law_digits_are_read_as_written(Seq::empty(), '0', millis->0 as nat);
}

/// A key signs exactly where it is one and its second prime is at most sixteen bits
/// longer than its first.
pub proof fn law_keys_with_like_primes_sign(pem: &str, out: bool)
    requires
        call_ensures(key_can_sign, (pem,), out),
    ensures
        out <==> prime_bits(pem@) is Some && (prime_bits(pem@)->0).1 <= (prime_bits(pem@)->0).0 + 16,
{
}

/// A signature that is handed out is accepted by the key that made it for the message
/// of this request, and the headers say who signed and when.
pub proof fn law_what_is_signed_verifies(
    credentials: Credentials,
    method: &str,
    path: &str,
    timestamp_ms: &str,
    signed: String,
    message: &str,
    signature: &str,
    result: Result<SignedHeaders, AuthError>,
    accepted: bool,
)
    requires
        call_ensures(Credentials::sign, (&credentials, method, path, timestamp_ms), result),
        call_ensures(signing_message, (timestamp_ms, method, path), signed),
        result is Ok,
        message@ == signed@,
        signature@ == result->Ok_0.signature@,
        call_ensures(Credentials::verify, (&credentials, message, signature), accepted),
    ensures
        accepted,
        result->Ok_0.access_key@ == credentials.id(),
        result->Ok_0.timestamp@ == timestamp_ms@,
{
}

/// What is shown of credentials is their id in quotes, and the same for every key.
pub proof fn law_a_description_shows_no_key(
    one: Credentials,
    other: Credentials,
    shown: String,
    shown_of_other: String,
)
    requires
        call_ensures(Credentials::describe, (&one,), shown),
        call_ensures(Credentials::describe, (&other,), shown_of_other),
        one.id() == other.id(),
    ensures
        shown@ == shown_of_other@,
        shown@ == "Credentials { key_id: "@ + text::debug_text(one.id())
            + ", private_key: \"<redacted>\" }"@,
{
}

/// Credentials are made exactly of a text that is a private key, and keep it and the id
/// they are given; else the origin of the text is named.
pub proof fn law_credentials_hold_what_they_were_made_of(
    key_id: String,
    pem: &str,
    origin: &str,
    result: Result<Credentials, AuthError>,
)
    requires
        call_ensures(Credentials::from_pem, (key_id, pem, origin), result),
    ensures
        result is Ok <==> is_private_key(pem@),
        result matches Ok(credentials) ==> credentials.id() == key_id@ && credentials.key() == pem@,
        result matches Err(error) ==> error matches AuthError::DecodeKey { path } && path@ == origin@,
{
}

/// The upgrade and a request of now are signed as the server reads them: the timestamp
/// of the header, the method and the path.
pub proof fn law_requests_are_signed_as_sent(
    credentials: Credentials,
    method: &str,
    path: &str,
    upgrade: Result<SignedHeaders, AuthError>,
    request: Result<SignedHeaders, AuthError>,
)
    requires
        call_ensures(Credentials::sign_websocket_upgrade, (&credentials,), upgrade),
        call_ensures(Credentials::sign_rest, (&credentials, method, path), request),
        !path@.contains('?'),
    ensures
        upgrade matches Ok(headers) ==> headers.access_key@ == credentials.id() && accepts_text(
            credentials.key(),
            headers.timestamp@ + "GET"@ + "/trade-api/ws/v2"@,
            headers.signature@,
        ),
        request matches Ok(headers) ==> headers.access_key@ == credentials.id() && accepts_text(
            credentials.key(),
            headers.timestamp@ + method@ + path@,
            headers.signature@,
        ),
{
    reveal_strlit("/trade-api/ws/v2");
    if let Ok(headers) = upgrade {
        law_the_query_is_never_signed(
            headers.timestamp@,
            "GET"@,
            "/trade-api/ws/v2"@,
            Seq::empty(),
        );
    }
    if let Ok(headers) = request {
        law_the_query_is_never_signed(headers.timestamp@, method@, path@, Seq::empty());
    }
}

/// A key's own id is what is read back, and the headers of a request carry that id, the
/// moment it was signed for and the signature, which reads back from its text.
pub proof fn law_headers_carry_what_was_signed(
    credentials: Credentials,
    read: &str,
    key_id: &str,
    signature: Vec<u8>,
    timestamp_ms: &str,
    out: SignedHeaders,
)
    requires
        call_ensures(Credentials::key_id, (&credentials,), read),
        call_ensures(signed_headers, (key_id, &signature, timestamp_ms), out),
    ensures
        read@ == credentials.id(),
        out.access_key@ == key_id@,
        out.timestamp@ == timestamp_ms@,
        base64_bytes(out.signature@) == Some(signature@),
{
}

/// A signature that is no Base64 text is never accepted, and what is no public key is an
/// error that names where it came from.
pub proof fn law_only_a_public_key_accepts_signatures(
    public_key_pem: &str,
    message: &str,
    signature_b64: &str,
    origin: &str,
    result: Result<bool, AuthError>,
)
    requires
        call_ensures(
            verify_with_public_key_pem,
            (public_key_pem, message, signature_b64, origin),
            result,
        ),
    ensures
        result is Ok <==> is_public_key(public_key_pem@),
        result is Ok && base64_bytes(signature_b64@) is None ==> result == Ok::<bool, AuthError>(
            false,
        ),
        result == Ok::<bool, AuthError>(true) ==> base64_bytes(signature_b64@) is Some
            && public_key_accepts(
            public_key_pem@,
            vstd::utf8::encode_utf8(message@),
            base64_bytes(signature_b64@)->0,
        ),
        result is Err ==> (result->Err_0 matches AuthError::DecodePublicKey { origin: named }
            && named@ == origin@),
{
}

/// The moment of a request is written in digits alone, and only a clock before 1970 gives
/// none.
pub proof fn law_a_moment_is_written_in_digits(result: Result<String, AuthError>)
    requires
        call_ensures(timestamp_ms_now, (), result),
    ensures
        result matches Ok(text) ==> text@.len() > 0 && forall|i: int|
            0 <= i < text@.len() ==> '0' <= #[trigger] text@[i] <= '9',
        result matches Err(error) ==> error is ClockBeforeEpoch,
{
    if let Ok(text) = result {
        let (seconds, nanos) = choose|seconds: u64, nanos: u32|
            nanos < 1_000_000_000 && text@ == parse::decimal(#[trigger] millis_in(seconds, nanos));
        parse::law_digits_are_read_as_written(Seq::empty(), '0', millis_in(seconds, nanos));
    }
}

} // verus!
