//! Request signing. The keypair is generated at run time; what is embedded is a
//! public key and two signatures over one message that another implementation
//! made, differing only in the length of their salt.

use base64::engine::general_purpose::STANDARD;
use base64::Engine as _;
use kalshi_alpha::auth::{
    path_without_query, signed_headers, signing_message, timestamp_ms_now, timestamp_text,
    verify_with_public_key_pem, whole_millis, AuthError, Credentials, WS_SIGNING_PATH,
};
use rsa::pkcs8::{EncodePrivateKey, LineEnding};

const KAT_MESSAGE: &str = "1700000000000GET/trade-api/ws/v2";

const KAT_PUBLIC_KEY_PEM: &str = "\
-----BEGIN PUBLIC KEY-----\n\
MIIBIjANBgkqhkiG9w0BAQEFAAOCAQ8AMIIBCgKCAQEAyv/Lrs6nyqdEFO+9AaUd\n\
HeUi53eD+t7Hj+VopUiCRcwsReyE4TXvDZEaYOMCbOggLssCRZwdb0SAH7FwcqdE\n\
faqw4Z8SjqtF7OB6lgkEzQHIGSPGQR3rUyWOrH69O3KmahVIkzSs968r0iacmhs2\n\
dnSJhBOGZ6CqPE0bf6UpKuo6faYAwHaNGACN4aBwaZOI7SqpP4aNlB2wPcYufPVn\n\
WKf/bj6kNRNDEY7LLATGd4Vo7wCci2ufEY+/iWNUC+FWt75fBQTheKg2b0kprTZa\n\
/DiEfZDIA4E0defCA80Bv7PW8cH8UVsxJaFvuHCAYzlT2K7y1JeVK0JpGf3Brigy\n\
hQIDAQAB\n\
-----END PUBLIC KEY-----\n\
";
const KAT_SIGNATURE_DIGEST_SALT: &str = "a94jV4zkNt3trT60JU2xOFqcMPDibqQ1xuCW3XTPnBqO/zSmRslVhsuVanT4gvvRy/TKHNWgOqI0zXCFf88qm3QldTYuvEoCQ9DhQ+dtvO6EajkN3dso9rE8xYgef6TCy+8Nz8dv7nxlujN8K2JIE2BhcJnhS97t2apOJBI1AE03VDsaP6u+vKZSBqHU7RZ8Y1fDeS62lOVX6F8QEOsIwSyGRNSzY17092RL8eyxGxfxfvDtvrfTglqxJyuBLxyRRnskHFzDpWZJRQs6Cfjdnn5sYkqkw7yKT3qXxIXD107MEyvM7jrnN0UPcCM+g2rSv7x2JhU0YiYp9RFuVdYr0Q==";
const KAT_SIGNATURE_MAX_SALT: &str = "FRYuuwY1AHHOkkmhuDcePGkpNbsCM8U5BSbK34T0t32aApYx80mtkfsY3Wq8v8Am9fCtgM4CrPPe2T/qNlQQNN66VglAHB1247youFG/hdLQzPEE8pUdntzpSt1qD6rMqmKbUfmrv/wJvxmQvUs+v7wAgHCwQZnbg2yxVbYq6eBxdnUJDxgErUSOdl8EYoIp19tTI90kHB0glWuQ6fOzus7UnzEMGjFgpGgiiFeOmQJtfrK3c4l7zzRWusgC0ce6uQSh8SnZLlTBtfWK3s4FM7XW442fFZoYskTicb8UzKIY/QvXn60YiY+PBWAY1jNw3KJc/oe3YNn/VAGQ3Yv62w==";

fn test_credentials() -> Credentials {
    let mut rng = rand_core::OsRng;
    let key = rsa::RsaPrivateKey::new(&mut rng, 2048).expect("keygen");
    let pem = key.to_pkcs8_pem(LineEnding::LF).expect("encode");
    Credentials::from_pem("test-key-id".to_owned(), &pem, "generated-in-test").expect("load")
}

#[test]
fn signed_message_is_timestamp_then_method_then_path() {
    assert_eq!(
        signing_message("1700000000000", "GET", "/trade-api/v2/markets"),
        "1700000000000GET/trade-api/v2/markets"
    );
    assert_eq!(signing_message("1", "POST", "/x"), "1POST/x");
}

#[test]
fn query_parameters_are_stripped_before_signing() {
    assert_eq!(
        path_without_query("/trade-api/v2/markets?limit=100&cursor=abc123"),
        "/trade-api/v2/markets"
    );
    assert_eq!(
        signing_message("1700000000000", "GET", "/trade-api/v2/markets?limit=100"),
        "1700000000000GET/trade-api/v2/markets"
    );
    assert_eq!(path_without_query("/x?"), "/x");
    assert_eq!(path_without_query("/x?a=1?b=2"), "/x");
    assert_eq!(path_without_query("?a=1"), "");
    assert_eq!(
        path_without_query("/trade-api/v2/markets"),
        "/trade-api/v2/markets"
    );
    let creds = test_credentials();
    let with_query = creds
        .sign("GET", "/trade-api/v2/markets?limit=100", "1700000000000")
        .expect("sign");
    let bare_message = signing_message("1700000000000", "GET", "/trade-api/v2/markets");
    assert!(
        creds.verify(&bare_message, &with_query.signature),
        "signature over a path with a query did not verify against the bare path"
    );
}

#[test]
fn websocket_upgrade_signs_the_literal_ws_path_with_get() {
    assert_eq!(WS_SIGNING_PATH, "/trade-api/ws/v2");

    let creds = test_credentials();
    let headers = creds.sign_websocket_upgrade().expect("sign");
    let expected = signing_message(&headers.timestamp, "GET", WS_SIGNING_PATH);
    assert_eq!(
        expected,
        format!("{}GET/trade-api/ws/v2", headers.timestamp)
    );
    assert!(creds.verify(&expected, &headers.signature));
    for wrong in [
        format!("{}GET/trade-api/v2", headers.timestamp),
        format!("{}GET/trade-api/ws/v2?", headers.timestamp),
        format!("{}POST/trade-api/ws/v2", headers.timestamp),
        format!(
            "{}GETwss://api.elections.kalshi.com/trade-api/ws/v2",
            headers.timestamp
        ),
        format!("{}GET/trade-api/ws/v2/", headers.timestamp),
    ] {
        assert!(
            !creds.verify(&wrong, &headers.signature),
            "signature unexpectedly verified against {wrong:?}"
        );
    }
}

#[test]
fn accepts_digest_length_salt_and_rejects_max_length_salt() {
    let verified_digest = verify_with_public_key_pem(
        KAT_PUBLIC_KEY_PEM,
        KAT_MESSAGE,
        KAT_SIGNATURE_DIGEST_SALT,
        "known-answer vector",
    )
    .expect("public key parses");
    assert!(
        verified_digest,
        "digest-length-salt signature failed to verify: this crate's PSS \
         parameters no longer match Kalshi's documented PSS.DIGEST_LENGTH"
    );

    let verified_max = verify_with_public_key_pem(
        KAT_PUBLIC_KEY_PEM,
        KAT_MESSAGE,
        KAT_SIGNATURE_MAX_SALT,
        "known-answer vector",
    )
    .expect("public key parses");
    assert!(
        !verified_max,
        "max-length-salt signature verified, so this test cannot distinguish \
         the two salt lengths and proves nothing"
    );
}

#[test]
fn our_signatures_verify_under_the_same_parameters() {
    let creds = test_credentials();
    let message = signing_message("1700000000000", "GET", WS_SIGNING_PATH);
    let headers = creds
        .sign("GET", WS_SIGNING_PATH, "1700000000000")
        .expect("sign");
    assert!(creds.verify(&message, &headers.signature));
}

#[test]
fn pss_is_randomized_so_two_signatures_differ() {
    let creds = test_credentials();
    let a = creds.sign("GET", "/x", "1700000000000").expect("sign");
    let b = creds.sign("GET", "/x", "1700000000000").expect("sign");
    assert_ne!(a.signature, b.signature, "PSS signature was deterministic");
    let message = signing_message("1700000000000", "GET", "/x");
    assert!(creds.verify(&message, &a.signature));
    assert!(creds.verify(&message, &b.signature));
}

#[test]
fn a_signature_does_not_verify_for_a_different_message() {
    let creds = test_credentials();
    let headers = creds
        .sign("GET", "/trade-api/v2/markets", "1700000000000")
        .expect("sign");
    for wrong in [
        signing_message("1700000000001", "GET", "/trade-api/v2/markets"), // ts
        signing_message("1700000000000", "POST", "/trade-api/v2/markets"), // method
        signing_message("1700000000000", "GET", "/trade-api/v2/events"),  // path
        String::new(),
    ] {
        assert!(
            !creds.verify(&wrong, &headers.signature),
            "verified {wrong:?}"
        );
    }
}

#[test]
fn emits_the_three_required_headers() {
    let creds = test_credentials();
    let headers = creds
        .sign("GET", "/trade-api/v2/markets", "1700000000000")
        .expect("sign");
    let names: Vec<&str> = headers.as_pairs().iter().map(|(name, _)| *name).collect();
    assert_eq!(
        names,
        vec![
            "KALSHI-ACCESS-KEY",
            "KALSHI-ACCESS-SIGNATURE",
            "KALSHI-ACCESS-TIMESTAMP"
        ]
    );
    assert_eq!(headers.access_key, "test-key-id");
    assert_eq!(headers.timestamp, "1700000000000");
    assert_eq!(
        base64_len_to_bytes(&headers.signature),
        256,
        "expected a 256-byte signature for a 2048-bit key"
    );
}

fn base64_len_to_bytes(s: &str) -> usize {
    STANDARD.decode(s).map(|b| b.len()).unwrap_or(0)
}

#[test]
fn timestamp_is_milliseconds_not_seconds() {
    let ts = timestamp_ms_now().expect("clock");
    let value: u64 = ts.parse().expect("decimal digits");
    assert!(value > 1_600_000_000_000, "{ts} looks like seconds, not ms");
    assert!(
        value < 4_000_000_000_000,
        "{ts} is implausibly far in the future"
    );
}

#[test]
fn debug_output_never_contains_key_material() {
    let creds = test_credentials();
    let rendered = creds.describe();
    assert!(rendered.contains("test-key-id"));
    assert!(rendered.contains("<redacted>"));
    assert_eq!(rendered, r#"Credentials { key_id: "test-key-id", private_key: "<redacted>" }"#);
    assert!(!rendered.contains("PRIVATE"));
    assert!(!rendered.contains("BEGIN"));
}

#[test]
fn rejects_a_malformed_key_without_echoing_it() {
    let header = format!("-----BEGIN {}", "PRIVATE KEY-----");
    let malformed = format!("{header}\nnonsense\n");
    let err = Credentials::from_pem("id".to_owned(), &malformed, "unit-test").err().expect("should not load");
    let rendered = err.to_display_string();
    assert!(rendered.contains("unit-test"));
    assert!(
        !rendered.contains("nonsense"),
        "error echoed key bytes: {rendered}"
    );
}

#[test]
fn a_text_that_is_no_public_key_is_refused_by_its_origin() {
    let result = verify_with_public_key_pem("nonsense", KAT_MESSAGE, "AAAA", "unit-test");
    assert_eq!(result, Err(AuthError::DecodePublicKey { origin: "unit-test".to_owned() }));
    assert_eq!(
        result.unwrap_err().to_display_string(),
        "unit-test is not a valid PEM public key"
    );
}

#[test]
fn a_signature_that_is_no_base64_never_verifies() {
    let verified =
        verify_with_public_key_pem(KAT_PUBLIC_KEY_PEM, KAT_MESSAGE, "not base64!", "vector");
    assert_eq!(verified, Ok(false));
}

#[test]
fn headers_carry_the_signature_in_base64() {
    let headers = signed_headers("key", &vec![0xfb, 0xff, 0x00], "17");
    assert_eq!(headers.access_key, "key");
    assert_eq!(headers.signature, "+/8A");
    assert_eq!(headers.timestamp, "17");
}

#[test]
fn a_clock_before_the_epoch_signs_nothing() {
    assert_eq!(timestamp_text(None), Err(AuthError::ClockBeforeEpoch));
    assert_eq!(timestamp_text(Some(1_700_000_000_000)), Ok("1700000000000".to_owned()));
    assert_eq!(
        AuthError::ClockBeforeEpoch.to_display_string(),
        "system clock is before the Unix epoch"
    );
}

#[test]
fn rest_requests_are_signed_over_method_and_path() {
    let creds = test_credentials();
    let headers = creds.sign_rest("GET", "/trade-api/v2/markets?limit=1").expect("sign");
    let message = signing_message(&headers.timestamp, "GET", "/trade-api/v2/markets");
    assert!(creds.verify(&message, &headers.signature));
    assert_eq!(creds.key_id(), "test-key-id");
}

/// A Mersenne number.
fn mersenne(exponent: usize) -> rsa::BigUint {
    (rsa::BigUint::from(1u32) << exponent) - rsa::BigUint::from(1u32)
}

fn key_of_primes(first: usize, second: usize) -> Credentials {
    let e = rsa::BigUint::from(65_537u32);
    let key = rsa::RsaPrivateKey::from_p_q(mersenne(first), mersenne(second), e).expect("key");
    let pem = key.to_pkcs8_pem(LineEnding::LF).expect("encode");
    Credentials::from_pem("lopsided".to_owned(), &pem, "built-in-test").expect("load")
}

#[test]
fn a_key_whose_first_prime_is_far_too_short_does_not_sign() {
    let creds = key_of_primes(61, 1_279);
    assert!(matches!(creds.sign("GET", "/x", "1"), Err(AuthError::UnlikePrimes)));
    assert!(matches!(creds.sign_websocket_upgrade(), Err(AuthError::UnlikePrimes)));
    assert!(!creds.verify("1GET/x", "AAAA"));
    assert_eq!(
        AuthError::UnlikePrimes.to_display_string(),
        "the primes of the private key are too unlike in length"
    );
    // The other way round the primes do no harm.
    assert!(key_of_primes(1_279, 61).sign("GET", "/x", "1").is_ok());
}

#[test]
fn copied_credentials_are_the_same_credentials() {
    let creds = test_credentials();
    let copy = creds.clone();
    assert_eq!(copy.describe(), creds.describe());
    assert!(copy.sign("GET", "/x", "1").is_ok());
}

#[test]
fn a_time_is_cut_to_whole_milliseconds() {
    assert_eq!(whole_millis(Some((1_700_000_000, 123_999_999))), Some(1_700_000_000_123));
    assert_eq!(whole_millis(Some((0, 999_999))), Some(0));
    assert_eq!(whole_millis(None), None);
}
