//! The key that encrypts internal-CA private keys at rest, and decryption of
//! the stored blobs (`base64(iv ‖ tag ‖ ciphertext)`, AES-256-GCM).

use crate::codec::{
    all_hex, base64_decode, base64_decode_of, hex_decode, hex_decode_str, string_from_utf8,
};
use aes_gcm::aead::{Aead, KeyInit};
use aes_gcm::Aes256Gcm;
use vstd::prelude::*;
use vstd::string::*;
use vstd::utf8::*;

verus! {

/// Why no CA key could be resolved.
#[derive(Debug, Clone, Copy, PartialEq, Eq, Structural)]
pub enum CaKeyError {
    /// No key was configured.
    Missing,
    /// The key is neither 64 hex digits nor base64 of 32 bytes.
    Malformed,
}

/// Why a stored key blob could not be decrypted.
#[derive(Debug, Clone, Copy, PartialEq, Eq, Structural)]
pub enum DecryptError {
    /// The blob is not base64.
    Base64,
    /// The blob is shorter than its 12-byte IV and 16-byte tag.
    TooShort,
    /// Authentication failed (wrong key or altered blob).
    Decrypt,
    /// The plaintext is not UTF-8.
    NotUtf8,
}

/// The key a configured value resolves to: 64 hex digits, or base64 of
/// exactly 32 bytes.
pub open spec fn spec_resolve_ca_key(raw: Option<Seq<u8>>) -> Result<Seq<u8>, CaKeyError> {
    match raw {
        None => Err(CaKeyError::Missing),
        Some(b) => if b.len() == 64 && all_hex(b) {
            Ok(hex_decode(b)->0)
        } else {
            match base64_decode_of(b) {
                Some(d) => if d.len() == 32 {
                    Ok(d)
                } else {
                    Err(CaKeyError::Malformed)
                },
                None => Err(CaKeyError::Malformed),
            }
        },
    }
}

pub open spec fn opt_bytes(raw: Option<&str>) -> Option<Seq<u8>> {
    match raw {
        Some(s) => Some(s.spec_bytes()),
        None => None,
    }
}

fn is_hex_text(b: &[u8]) -> (r: bool)
    ensures
        r == all_hex(b@),
{
    let mut i: usize = 0;
    while i < b.len()
        invariant
            i <= b@.len(),
            forall|j: int| 0 <= j < i ==> (#[trigger] crate::codec::hex_val(b@[j])) is Some,
        decreases b@.len() - i,
    {
        let c = b[i];
        if !((65 <= c && c <= 70) || (97 <= c && c <= 102) || (48 <= c && c <= 57)) {
            assert(crate::codec::hex_val(b@[i as int]) is None);
            return false;
        }
        i = i + 1;
    }
    true
}

fn to_key(v: &Vec<u8>) -> (k: [u8; 32])
    requires
        v@.len() == 32,
    ensures
        k@ == v@,
{
    let mut k = [0u8; 32];
    let mut i: usize = 0;
    while i < 32
        invariant
            i <= 32,
            v@.len() == 32,
            forall|j: int| 0 <= j < i ==> k@[j] == v@[j],
        decreases 32 - i,
    {
        k.set(i, v[i]);
        i = i + 1;
    }
    assert(k@ =~= v@);
    k
}

/// Resolve the AES-256 key used for CA PEM encryption at rest: 64 hex
/// digits, or base64 of exactly 32 bytes.
pub fn resolve_ca_key(raw: Option<&str>) -> (r: Result<[u8; 32], CaKeyError>)
    ensures
        match (r, spec_resolve_ca_key(opt_bytes(raw))) {
            (Ok(k), Ok(s)) => k@ == s,
            (Err(e), Err(f)) => e == f,
            _ => false,
        },
{
    let raw = match raw {
        Some(r) => r,
        None => return Err(CaKeyError::Missing),
    };
    let bytes = raw.as_bytes();
    if bytes.len() == 64 && is_hex_text(bytes) {
        match hex_decode_str(raw) {
            Some(v) => {
                return Ok(to_key(&v));
            },
            None => {},
        }
    }
    match base64_decode(raw) {
        Some(v) => if v.len() == 32 {
            Ok(to_key(&v))
        } else {
            Err(CaKeyError::Malformed)
        },
        None => Err(CaKeyError::Malformed),
    }
}

/// The plaintext AES-256-GCM gives for `sealed` (ciphertext followed by the
/// tag) under `key` and the 12-byte `nonce`, or `None` when authentication
/// fails.
pub uninterp spec fn aes256_gcm_open_of(key: Seq<u8>, nonce: Seq<u8>, sealed: Seq<u8>) -> Option<
    Seq<u8>,
>;

/// Calls `decrypt` of `aes_gcm::Aes256Gcm` (built with `new_from_slice`,
/// which accepts any 32-byte key). The contract names the outcome.
#[verifier::external_body]
fn aes256_gcm_open(key: &[u8; 32], nonce: &[u8], sealed: &[u8]) -> (r: Option<Vec<u8>>)
    requires
        nonce@.len() == 12,
    ensures
        match aes256_gcm_open_of(key@, nonce@, sealed@) {
            Some(p) => r matches Some(v) && v@ == p,
            None => r is None,
        },
{
    let cipher = Aes256Gcm::new_from_slice(key).expect("32-byte key");
    let n: [u8; 12] = nonce.try_into().expect("12-byte nonce");
    cipher.decrypt(&aes_gcm::Nonce::from(n), sealed).ok()
}

/// The text a stored blob decrypts to under `key`.
pub open spec fn spec_decrypt_pem(key: Seq<u8>, blob: Seq<u8>) -> Result<Seq<char>, DecryptError> {
    match base64_decode_of(blob) {
        None => Err(DecryptError::Base64),
        Some(buf) => if buf.len() < 28 {
            Err(DecryptError::TooShort)
        } else {
            let sealed = buf.subrange(28, buf.len() as int) + buf.subrange(12, 28);
            match aes256_gcm_open_of(key, buf.subrange(0, 12), sealed) {
                None => Err(DecryptError::Decrypt),
                Some(plain) => if valid_utf8(plain) {
                    Ok(decode_utf8(plain))
                } else {
                    Err(DecryptError::NotUtf8)
                },
            }
        },
    }
}

/// Decrypt a blob `base64(iv ‖ tag ‖ ciphertext)` under `key`.
pub fn decrypt_pem(key: &[u8; 32], blob: &str) -> (r: Result<String, DecryptError>)
    ensures
        match (r, spec_decrypt_pem(key@, blob.spec_bytes())) {
            (Ok(s), Ok(t)) => s@ == t,
            (Err(e), Err(f)) => e == f,
            _ => false,
        },
{
    let buf = match base64_decode(blob) {
        Some(b) => b,
        None => return Err(DecryptError::Base64),
    };
    if buf.len() < 28 {
        return Err(DecryptError::TooShort);
    }
    let iv = vstd::slice::slice_subrange(buf.as_slice(), 0, 12);
    let mut sealed = vstd::slice::slice_to_vec(vstd::slice::slice_subrange(buf.as_slice(), 28, buf.len()));
    let mut tag = vstd::slice::slice_to_vec(vstd::slice::slice_subrange(buf.as_slice(), 12, 28));
    sealed.append(&mut tag);
    let plain = match aes256_gcm_open(key, iv, sealed.as_slice()) {
        Some(p) => p,
        None => return Err(DecryptError::Decrypt),
    };
    match string_from_utf8(plain) {
        Some(s) => Ok(s),
        None => Err(DecryptError::NotUtf8),
    }
}

} // verus!
