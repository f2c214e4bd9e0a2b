//! Byte codecs from outside crates and std: hex, base64, SHA-256, HMAC,
//! integer and UTF-8 parsing. Where the crate's source settles the result in
//! a few lines, the contract states it; digests and base64 are named.

use base64::Engine;
use hmac::{Hmac, KeyInit, Mac};
use sha2::{Digest, Sha256};
use vstd::prelude::*;
use vstd::string::*;
use vstd::utf8::*;

verus! {

/// Value of a hex digit, either case.
pub open spec fn hex_val(c: u8) -> Option<u8> {
    if 65 <= c <= 70 {
        Some((c - 55) as u8)
    } else if 97 <= c <= 102 {
        Some((c - 87) as u8)
    } else if 48 <= c <= 57 {
        Some((c - 48) as u8)
    } else {
        None
    }
}

pub open spec fn all_hex(d: Seq<u8>) -> bool {
    forall|i: int| 0 <= i < d.len() ==> (#[trigger] hex_val(d[i])) is Some
}

/// The bytes `hex::decode` reads from `d`: pairs of hex digits, high nibble
/// first; `None` for an odd length or a non-digit.
pub open spec fn hex_decode(d: Seq<u8>) -> Option<Seq<u8>> {
    if d.len() % 2 != 0 || !all_hex(d) {
        None
    } else {
        Some(
            Seq::new(
                (d.len() / 2) as nat,
                |i: int| (hex_val(d[2 * i])->0 * 16 + hex_val(d[2 * i + 1])->0) as u8,
            ),
        )
    }
}

/// Calls `hex::decode` on the bytes of `s`. The contract restates that
/// function's source.
#[verifier::external_body]
pub(crate) fn hex_decode_str(s: &str) -> (r: Option<Vec<u8>>)
    ensures
        match hex_decode(s.spec_bytes()) {
            Some(b) => r matches Some(v) && v@ == b,
            None => r is None,
        },
{
    hex::decode(s).ok()
}

/// Lower-case hex digit of a nibble.
pub open spec fn hex_digit(n: int) -> char {
    (if n < 10 {
        48 + n
    } else {
        87 + n
    }) as char
}

/// The text `hex::encode` writes for `b`: two lower-case digits per byte,
/// high nibble first.
pub open spec fn hex_encode(b: Seq<u8>) -> Seq<char> {
    Seq::new(
        2 * b.len(),
        |i: int| if i % 2 == 0 {
            hex_digit((b[i / 2] / 16) as int)
        } else {
            hex_digit((b[i / 2] % 16) as int)
        },
    )
}

/// Calls `hex::encode`. The contract restates that function's source.
#[verifier::external_body]
pub(crate) fn hex_encode_bytes(b: &[u8]) -> (s: String)
    ensures
        s@ == hex_encode(b@),
{
    hex::encode(b)
}

/// The SHA-256 digest of a byte sequence.
pub uninterp spec fn sha256_of(data: Seq<u8>) -> Seq<u8>;

/// Calls `sha2::Sha256::digest`. The contract names the digest and states
/// its documented length of 32 bytes.
#[verifier::external_body]
pub(crate) fn sha256(data: &[u8]) -> (r: Vec<u8>)
    ensures
        r@ == sha256_of(data@),
        r@.len() == 32,
{
    Sha256::digest(data).to_vec()
}

/// The HMAC-SHA256 tag of `msg` under `key`.
pub uninterp spec fn hmac_sha256_of(key: Seq<u8>, msg: Seq<u8>) -> Seq<u8>;

/// Computes HMAC-SHA256 with the `hmac` crate (`new_from_slice`, `update`,
/// `finalize`). The source accepts keys of any length, so the tag is always
/// produced; the contract names it and states its length of 32 bytes.
#[verifier::external_body]
pub(crate) fn hmac_sha256(key: &[u8], msg: &[u8]) -> (r: Vec<u8>)
    ensures
        r@ == hmac_sha256_of(key@, msg@),
        r@.len() == 32,
{
    let mut mac = <Hmac<Sha256> as KeyInit>::new_from_slice(key).expect("any key length");
    mac.update(msg);
    mac.finalize().into_bytes().to_vec()
}

/// The bytes the standard base64 alphabet (with padding) decodes `s` to,
/// or `None` when `s` is not valid base64.
pub uninterp spec fn base64_decode_of(s: Seq<u8>) -> Option<Seq<u8>>;

/// Calls `decode` of `base64::engine::general_purpose::STANDARD`. The
/// contract names the outcome.
#[verifier::external_body]
pub(crate) fn base64_decode(s: &str) -> (r: Option<Vec<u8>>)
    ensures
        match base64_decode_of(s.spec_bytes()) {
            Some(b) => r matches Some(v) && v@ == b,
            None => r is None,
        },
{
    base64::engine::general_purpose::STANDARD.decode(s).ok()
}

pub open spec fn is_digit(c: u8) -> bool {
    48 <= c <= 57
}

/// Every byte is a decimal digit.
pub open spec fn all_digits(d: Seq<u8>) -> bool {
    forall|i: int| 0 <= i < d.len() ==> is_digit(#[trigger] d[i])
}

/// Value of a string of decimal digits.
pub open spec fn digits_value(d: Seq<u8>) -> int
    decreases d.len(),
{
    if d.len() == 0 {
        0
    } else {
        digits_value(d.drop_last()) * 10 + (d.last() - 48)
    }
}

/// The `i64` that `str::parse` reads: an optional `+` or `-` followed by at
/// least one decimal digit and nothing else, within range.
pub open spec fn parse_i64_spec(s: Seq<u8>) -> Option<i64> {
    let neg = s.len() > 0 && s[0] == 45;
    let signed = s.len() > 0 && (s[0] == 45 || s[0] == 43);
    let digits = if signed {
        s.drop_first()
    } else {
        s
    };
    let v = if neg {
        -digits_value(digits)
    } else {
        digits_value(digits)
    };
    if digits.len() == 0 || !all_digits(digits) {
        None
    } else if v < i64::MIN || v > i64::MAX {
        None
    } else {
        Some(v as i64)
    }
}

/// Reads a decimal `i64` as `str::parse::<i64>` does: an optional `+` or
/// `-`, then at least one decimal digit and nothing else, within range.
pub(crate) fn parse_i64(s: &str) -> (r: Option<i64>)
    ensures
        r == parse_i64_spec(s.spec_bytes()),
{
    let b = s.as_bytes();
    let n = b.len();
    let ghost bs = s.spec_bytes();
    let neg = n > 0 && b[0] == 45;
    let signed = n > 0 && (b[0] == 45 || b[0] == 43);
    let start: usize = if signed {
        1
    } else {
        0
    };
    let ghost digits = if signed {
        bs.drop_first()
    } else {
        bs
    };
    proof {
        assert(digits =~= bs.subrange(start as int, n as int));
    }
    if start == n {
        return None;
    }
    let mut acc: u128 = 0;
    let mut over = false;
    let mut i = start;
    proof {
        assert(digits.take(0) =~= Seq::<u8>::empty());
    }
    while i < n
        invariant
            b@ == bs,
            bs == s.spec_bytes(),
            n == bs.len(),
            start <= i <= n,
            digits == bs.subrange(start as int, n as int),
            signed == (bs.len() > 0 && (bs[0] == 45 || bs[0] == 43)),
            digits == (if signed {
                bs.drop_first()
            } else {
                bs
            }),
            forall|k: int| 0 <= k < i - start ==> is_digit(#[trigger] digits[k]),
            over ==> digits_value(digits.take(i - start)) > 9223372036854775808,
            !over ==> acc == digits_value(digits.take(i - start)) && acc <= 9223372036854775808,
        decreases n - i,
    {
        let c = b[i];
        proof {
            assert(digits[i - start] == bs[i as int]);
        }
        if c < 48 || c > 57 {
            proof {
                assert(!is_digit(digits[i - start]));
                assert(!all_digits(digits));
                assert(parse_i64_spec(bs) is None);
            }
            return None;
        }
        let ghost prev = digits.take(i - start);
        proof {
            assert(digits.take(i - start + 1).drop_last() =~= prev);
            assert(digits.take(i - start + 1).last() == c);
        }
        if !over {
            acc = acc * 10 + (c - 48) as u128;
            if acc > 9223372036854775808 {
                over = true;
            }
        } else {
            proof {
                assert(digits_value(digits.take(i - start + 1)) == digits_value(prev) * 10 + (c - 48));
            }
        }
        i = i + 1;
    }
    proof {
        assert(digits.take(n - start) =~= digits);
    }
    if over {
        return None;
    }
    if neg {
        if acc == 9223372036854775808 {
            Some(i64::MIN)
        } else {
            let m = acc as i64;
            Some(-m)
        }
    } else if acc > 9223372036854775807 {
        None
    } else {
        Some(acc as i64)
    }
}

/// Calls `String::from_utf8`: the bytes become a string exactly when they
/// are valid UTF-8, and the string holds the characters they encode.
#[verifier::external_body]
pub(crate) fn string_from_utf8(bytes: Vec<u8>) -> (r: Option<String>)
    ensures
        r is Some == valid_utf8(bytes@),
        r matches Some(s) ==> s@ == decode_utf8(bytes@),
{
    String::from_utf8(bytes).ok()
}

} // verus!
