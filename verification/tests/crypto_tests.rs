use aes_gcm::aead::Aead;
use base64::Engine;
use hmac::{Hmac, KeyInit, Mac};
use sha2::{Digest, Sha256};
use tunnet::ca_crypto::{decrypt_pem, resolve_ca_key, CaKeyError, DecryptError};
use tunnet::service_auth::{refusal_without_clock, subtle_eq, ServiceAuth, ServiceAuthError, ServiceAuthSetupError, SignedHeaders};

#[test]
fn ca_key_is_required() {
    assert!(resolve_ca_key(None).is_err());
    assert!(resolve_ca_key(Some("not-a-key")).is_err());
    assert_eq!(resolve_ca_key(None), Err(CaKeyError::Missing));
}

#[test]
fn ca_key_accepts_hex_and_base64() {
    let expected = [7u8; 32];
    let hex = hex::encode(expected);
    let base64 = base64::engine::general_purpose::STANDARD.encode(expected);
    assert_eq!(resolve_ca_key(Some(&hex)).unwrap(), expected);
    assert_eq!(resolve_ca_key(Some(&base64)).unwrap(), expected);
}

#[test]
fn ca_key_of_wrong_size_is_malformed() {
    let short = base64::engine::general_purpose::STANDARD.encode([1u8; 16]);
    assert_eq!(resolve_ca_key(Some(&short)), Err(CaKeyError::Malformed));
    let mut k: Vec<u8> = (0..32u8).collect();
    k[0] = 0xAB;
    assert_eq!(resolve_ca_key(Some(&hex::encode_upper(&k))).unwrap().to_vec(), k);
}

#[test]
fn decrypt_pem_round_trip_and_errors() {
    let key = [9u8; 32];
    let iv = [3u8; 12];
    let cipher = aes_gcm::Aes256Gcm::new_from_slice(&key).unwrap();
    let sealed = cipher.encrypt(&aes_gcm::Nonce::from(iv), b"-----PEM-----".as_ref()).unwrap();
    let (ct, tag) = sealed.split_at(sealed.len() - 16);
    let mut blob = Vec::new();
    blob.extend_from_slice(&iv);
    blob.extend_from_slice(tag);
    blob.extend_from_slice(ct);
    let text = base64::engine::general_purpose::STANDARD.encode(&blob);
    assert_eq!(decrypt_pem(&key, &text).unwrap(), "-----PEM-----");
    assert_eq!(decrypt_pem(&[8u8; 32], &text), Err(DecryptError::Decrypt));
    assert_eq!(decrypt_pem(&key, "!!"), Err(DecryptError::Base64));
    let tiny = base64::engine::general_purpose::STANDARD.encode([0u8; 10]);
    assert_eq!(decrypt_pem(&key, &tiny), Err(DecryptError::TooShort));
}

#[test]
fn subtle_eq_compares_common_prefix() {
    assert!(subtle_eq(b"abc", b"abc"));
    assert!(!subtle_eq(b"abc", b"abd"));
    assert!(subtle_eq(b"ab", b"abc"));
}

const SECRET: &str = "0123456789abcdef0123456789abcdef";

fn sign(method: &str, path: &str, ts: &str, nonce: &str, body: &[u8]) -> String {
    let body_hash = hex::encode(Sha256::digest(body));
    let canonical = format!("{method}\n{path}\n{ts}\n{nonce}\n{body_hash}");
    let mut mac = <Hmac<Sha256> as KeyInit>::new_from_slice(SECRET.as_bytes()).unwrap();
    mac.update(canonical.as_bytes());
    hex::encode(mac.finalize().into_bytes())
}

#[test]
fn service_auth_accepts_once_then_refuses_replay() {
    assert_eq!(ServiceAuth::new("short").err(), Some(ServiceAuthSetupError::SecretTooShort));
    let mut auth = ServiceAuth::new(SECRET).unwrap();
    let now: i128 = 1_700_000_000 * 1_000_000_000;
    let sig = sign("POST", "/internal/x", "1700000000", "n1", b"{}");
    let h = SignedHeaders { timestamp: Some("1700000000"), nonce: Some("n1"), signature: Some(&sig) };
    assert_eq!(auth.verify_at("POST", "/internal/x", &h, b"{}", now), Ok(()));
    assert_eq!(auth.verify_at("POST", "/internal/x", &h, b"{}", now + 1), Err(ServiceAuthError::Replay));
}

#[test]
fn service_auth_errors() {
    let mut auth = ServiceAuth::new(SECRET).unwrap();
    let now: i128 = 1_700_000_000 * 1_000_000_000;
    let missing = SignedHeaders { timestamp: None, nonce: Some("n"), signature: Some("00") };
    assert_eq!(auth.verify_at("GET", "/", &missing, b"", now), Err(ServiceAuthError::MissingHeader));
    let bad_ts = SignedHeaders { timestamp: Some("soon"), nonce: Some("n"), signature: Some("00") };
    assert_eq!(auth.verify_at("GET", "/", &bad_ts, b"", now), Err(ServiceAuthError::InvalidTimestamp));
    let stale = SignedHeaders { timestamp: Some("1699999900"), nonce: Some("n"), signature: Some("00") };
    assert_eq!(auth.verify_at("GET", "/", &stale, b"", now), Err(ServiceAuthError::StaleTimestamp));
    let wrong = SignedHeaders { timestamp: Some("1700000010"), nonce: Some("n2"), signature: Some("00") };
    assert_eq!(auth.verify_at("GET", "/", &wrong, b"", now), Err(ServiceAuthError::BadSignature));
    let sig = sign("GET", "/", "1700000000", "n3", b"body");
    let tampered = SignedHeaders { timestamp: Some("1700000000"), nonce: Some("n3"), signature: Some(&sig) };
    assert_eq!(auth.verify_at("GET", "/", &tampered, b"other", now), Err(ServiceAuthError::BadSignature));
    let later = now + 301_000_000_000;
    let sig4 = sign("GET", "/", "1700000301", "n2", b"");
    let again = SignedHeaders { timestamp: Some("1700000301"), nonce: Some("n2"), signature: Some(&sig4) };
    assert_eq!(auth.verify_at("GET", "/", &again, b"", later), Ok(()));
}

#[test]
fn refusals_answer_unauthorized_with_reason() {
    assert_eq!(ServiceAuthError::MissingHeader.into_response(), (401, "missing service auth headers"));
    assert_eq!(ServiceAuthError::InvalidTimestamp.into_response(), (401, "stale timestamp"));
    assert_eq!(ServiceAuthError::StaleTimestamp.into_response(), (401, "stale timestamp"));
    assert_eq!(ServiceAuthError::Replay.into_response(), (401, "replay detected"));
    assert_eq!(ServiceAuthError::BadSignature.into_response(), (401, "bad signature"));
}

#[test]
fn unreadable_clock_refuses_without_panicking() {
    let full = SignedHeaders { timestamp: Some("1700000000"), nonce: Some("n"), signature: Some("00") };
    assert_eq!(refusal_without_clock(&full), ServiceAuthError::StaleTimestamp);
    let bad = SignedHeaders { timestamp: Some("soon"), nonce: Some("n"), signature: Some("00") };
    assert_eq!(refusal_without_clock(&bad), ServiceAuthError::InvalidTimestamp);
    let missing = SignedHeaders { timestamp: Some("1700000000"), nonce: None, signature: Some("00") };
    assert_eq!(refusal_without_clock(&missing), ServiceAuthError::MissingHeader);
}

#[test]
fn timestamps_are_read_as_signed_decimal_integers() {
    let h = |t| SignedHeaders { timestamp: Some(t), nonce: Some("n"), signature: Some("00") };
    assert_eq!(refusal_without_clock(&h("+1700000000")), ServiceAuthError::StaleTimestamp);
    assert_eq!(refusal_without_clock(&h("-5")), ServiceAuthError::StaleTimestamp);
    assert_eq!(refusal_without_clock(&h("-")), ServiceAuthError::InvalidTimestamp);
    assert_eq!(refusal_without_clock(&h("")), ServiceAuthError::InvalidTimestamp);
    assert_eq!(refusal_without_clock(&h(" 1")), ServiceAuthError::InvalidTimestamp);
    assert_eq!(refusal_without_clock(&h("99999999999999999999")), ServiceAuthError::InvalidTimestamp);
    assert_eq!(refusal_without_clock(&h("-9223372036854775808")), ServiceAuthError::InvalidTimestamp);
}
