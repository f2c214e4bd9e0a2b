//! HMAC authentication of internal API requests: a signed timestamp within
//! a minute of now, a nonce never seen in the last five minutes, and an
//! HMAC-SHA256 signature over the request.

use crate::codec::{
    hex_decode, hex_decode_str, hex_encode, hex_encode_bytes, hmac_sha256, hmac_sha256_of,
    parse_i64, parse_i64_spec, sha256, sha256_of,
};
use vstd::prelude::*;
use vstd::string::*;
use vstd::utf8::*;

verus! {

/// Largest accepted distance between a request's timestamp and now.
pub const MAX_SKEW_NS: i128 = 60_000_000_000;

/// How long a nonce is remembered.
pub const NONCE_TTL_NS: i128 = 300_000_000_000;

/// Shortest accepted shared secret, in bytes.
pub const MIN_SECRET_LEN: usize = 32;

/// Earliest and latest whole second a timestamp can name.
pub const TIMESTAMP_MIN_SECOND: i64 = -377705023201;

pub const TIMESTAMP_MAX_SECOND: i64 = 253402207200;

/// Why a request was refused.
#[derive(Debug, Clone, Copy, PartialEq, Eq, Structural)]
pub enum ServiceAuthError {
    MissingHeader,
    InvalidTimestamp,
    StaleTimestamp,
    Replay,
    BadSignature,
}

/// The message a refused request is answered with.
pub open spec fn refusal_message(e: ServiceAuthError) -> Seq<char> {
    match e {
        ServiceAuthError::MissingHeader => "missing service auth headers"@,
        ServiceAuthError::InvalidTimestamp => "stale timestamp"@,
        ServiceAuthError::StaleTimestamp => "stale timestamp"@,
        ServiceAuthError::Replay => "replay detected"@,
        ServiceAuthError::BadSignature => "bad signature"@,
    }
}

/// HTTP status of every refusal: 401 Unauthorized.
pub const UNAUTHORIZED: u16 = 401;

impl ServiceAuthError {
    /// The HTTP answer to a refused request: status 401 and a message that
    /// names the failed check.
    pub fn into_response(self) -> (r: (u16, &'static str))
        ensures
            r.0 == UNAUTHORIZED,
            r.1@ == refusal_message(self),
    {
        proof {
            reveal_strlit("missing service auth headers");
            reveal_strlit("stale timestamp");
            reveal_strlit("replay detected");
            reveal_strlit("bad signature");
        }
        let msg = match self {
            ServiceAuthError::MissingHeader => "missing service auth headers",
            ServiceAuthError::InvalidTimestamp => "stale timestamp",
            ServiceAuthError::StaleTimestamp => "stale timestamp",
            ServiceAuthError::Replay => "replay detected",
            ServiceAuthError::BadSignature => "bad signature",
        };
        (UNAUTHORIZED, msg)
    }
}

/// Why a verifier could not be set up.
#[derive(Debug, Clone, Copy, PartialEq, Eq, Structural)]
pub enum ServiceAuthSetupError {
    /// The shared secret is shorter than [`MIN_SECRET_LEN`] bytes.
    SecretTooShort,
}

/// Calls `jiff::Timestamp::from_second` and reports whether it accepts the
/// second. Its source accepts exactly the seconds of the supported range,
/// which the contract states.
#[verifier::external_body]
fn timestamp_from_second_ok(second: i64) -> (ok: bool)
    ensures
        ok == (TIMESTAMP_MIN_SECOND <= second <= TIMESTAMP_MAX_SECOND),
{
    jiff::Timestamp::from_second(second).is_ok()
}

/// Instants a timestamp can hold, in nanoseconds since the Unix epoch.
pub open spec fn in_time_range(ns: i128) -> bool {
    TIMESTAMP_MIN_SECOND * 1_000_000_000 <= ns < (TIMESTAMP_MAX_SECOND + 1) * 1_000_000_000
}

/// Reads the system clock (`std::time::SystemTime::now`) and converts it
/// with `jiff::Timestamp::try_from`, which fails instead of panicking when
/// the clock lies outside the range jiff supports. The result, nanoseconds
/// since the Unix epoch, depends on the clock: the contract claims only
/// that a value it gives lies in that range.
#[verifier::external_body]
fn unix_now_ns() -> (now: Option<i128>)
    ensures
        now matches Some(n) ==> in_time_range(n),
{
    jiff::Timestamp::try_from(std::time::SystemTime::now()).ok().map(|t| t.as_nanosecond())
}

/// The request headers that carry the signature.
pub struct SignedHeaders<'a> {
    pub timestamp: Option<&'a str>,
    pub nonce: Option<&'a str>,
    pub signature: Option<&'a str>,
}

/// The text of an optional header.
pub open spec fn opt_view(o: Option<&str>) -> Option<Seq<char>> {
    match o {
        Some(t) => Some(t@),
        None => None,
    }
}

/// Verifies signed internal API requests and remembers recent nonces.
pub struct ServiceAuth {
    secret: Vec<u8>,
    seen_nonces: Vec<(String, i128)>,
}

/// The remembered nonces: each with the time it was last presented.
pub open spec fn nonces_view(v: Seq<(String, i128)>) -> Seq<(Seq<char>, i128)> {
    v.map_values(|p: (String, i128)| (p.0@, p.1))
}

/// Nonces still within their time to live at `now`.
pub open spec fn prune(seen: Seq<(Seq<char>, i128)>, now: i128) -> Seq<(Seq<char>, i128)>
    decreases seen.len(),
{
    if seen.len() == 0 {
        seen
    } else {
        let rest = prune(seen.drop_last(), now);
        if now - seen.last().1 <= NONCE_TTL_NS {
            rest.push(seen.last())
        } else {
            rest
        }
    }
}

/// Index of `nonce` in `seen`, or the length of `seen`.
pub open spec fn nonce_index(seen: Seq<(Seq<char>, i128)>, nonce: Seq<char>) -> int
    decreases seen.len(),
{
    if seen.len() == 0 {
        0
    } else if seen[0].0 == nonce {
        0
    } else {
        1 + nonce_index(seen.drop_first(), nonce)
    }
}

/// `seen` with `nonce` recorded at `now`, and whether it was already there.
pub open spec fn record_nonce(seen: Seq<(Seq<char>, i128)>, nonce: Seq<char>, now: i128) -> (
    Seq<(Seq<char>, i128)>,
    bool,
) {
    let i = nonce_index(seen, nonce);
    if i < seen.len() {
        (seen.update(i, (nonce, now)), true)
    } else {
        (seen.push((nonce, now)), false)
    }
}

/// The text that is signed: method, path, timestamp, nonce and the hex
/// SHA-256 of the body, one per line.
pub open spec fn canonical(
    method: Seq<char>,
    path: Seq<char>,
    timestamp: Seq<char>,
    nonce: Seq<char>,
    body: Seq<u8>,
) -> Seq<char> {
    method + "\n"@ + path + "\n"@ + timestamp + "\n"@ + nonce + "\n"@ + hex_encode(sha256_of(body))
}

/// Whether two byte strings agree on their common prefix.
pub open spec fn prefix_eq(a: Seq<u8>, b: Seq<u8>) -> bool {
    forall|i: int| 0 <= i < a.len() && i < b.len() ==> a[i] == b[i]
}

/// The signature check: the hex signature decodes to exactly the expected tag.
pub open spec fn signature_ok(secret: Seq<u8>, msg: Seq<u8>, signature: Seq<u8>) -> bool {
    match hex_decode(signature) {
        Some(provided) => provided.len() == hmac_sha256_of(secret, msg).len() && prefix_eq(
            provided,
            hmac_sha256_of(secret, msg),
        ),
        None => false,
    }
}

/// The timestamp's distance from `now` exceeds the allowed skew.
pub open spec fn stale(now: i128, second: i64) -> bool {
    let d = now - second * 1_000_000_000;
    d > MAX_SKEW_NS || -d > MAX_SKEW_NS
}

/// The outcome of verifying a request at time `now` against the remembered
/// nonces `seen`: the result and the nonces remembered afterwards.
pub open spec fn spec_verify(
    secret: Seq<u8>,
    seen: Seq<(Seq<char>, i128)>,
    method: Seq<char>,
    path: Seq<char>,
    timestamp: Option<Seq<char>>,
    nonce: Option<Seq<char>>,
    signature: Option<Seq<char>>,
    body: Seq<u8>,
    now: i128,
) -> (Result<(), ServiceAuthError>, Seq<(Seq<char>, i128)>) {
    if timestamp is None || nonce is None || signature is None {
        (Err(ServiceAuthError::MissingHeader), seen)
    } else {
        let ts = timestamp->0;
        let n = nonce->0;
        let sig = signature->0;
        match parse_i64_spec(encode_utf8(ts)) {
            None => (Err(ServiceAuthError::InvalidTimestamp), seen),
            Some(second) => if !(TIMESTAMP_MIN_SECOND <= second <= TIMESTAMP_MAX_SECOND) {
                (Err(ServiceAuthError::InvalidTimestamp), seen)
            } else if stale(now, second) {
                (Err(ServiceAuthError::StaleTimestamp), seen)
            } else {
                let (after, replay) = record_nonce(prune(seen, now), n, now);
                if replay {
                    (Err(ServiceAuthError::Replay), after)
                } else if signature_ok(
                    secret,
                    encode_utf8(canonical(method, path, ts, n, body)),
                    encode_utf8(sig),
                ) {
                    (Ok(()), after)
                } else {
                    (Err(ServiceAuthError::BadSignature), after)
                }
            },
        }
    }
}

/// The answer when the clock cannot be read: the header checks that come
/// before the clock still decide, and a well-formed timestamp cannot be
/// judged fresh.
pub open spec fn spec_refusal_without_clock(
    timestamp: Option<Seq<char>>,
    nonce: Option<Seq<char>>,
    signature: Option<Seq<char>>,
) -> ServiceAuthError {
    if timestamp is None || nonce is None || signature is None {
        ServiceAuthError::MissingHeader
    } else {
        match parse_i64_spec(encode_utf8(timestamp->0)) {
            None => ServiceAuthError::InvalidTimestamp,
            Some(second) => if !(TIMESTAMP_MIN_SECOND <= second <= TIMESTAMP_MAX_SECOND) {
                ServiceAuthError::InvalidTimestamp
            } else {
                ServiceAuthError::StaleTimestamp
            },
        }
    }
}

/// The answer to a request when the clock cannot be read.
pub fn refusal_without_clock(headers: &SignedHeaders) -> (e: ServiceAuthError)
    ensures
        e == spec_refusal_without_clock(
            opt_view(headers.timestamp),
            opt_view(headers.nonce),
            opt_view(headers.signature),
        ),
{
    match (headers.timestamp, headers.nonce, headers.signature) {
        (Some(t), Some(_), Some(_)) => match parse_i64(t) {
            Some(second) => if timestamp_from_second_ok(second) {
                ServiceAuthError::StaleTimestamp
            } else {
                ServiceAuthError::InvalidTimestamp
            },
            None => ServiceAuthError::InvalidTimestamp,
        },
        _ => ServiceAuthError::MissingHeader,
    }
}

/// Whether `a` and `b` agree on their common prefix, examining every byte
/// of it whatever the outcome.
pub fn subtle_eq(a: &[u8], b: &[u8]) -> (r: bool)
    ensures
        r == prefix_eq(a@, b@),
{
    let n = if a.len() < b.len() {
        a.len()
    } else {
        b.len()
    };
    let mut acc: u8 = 0;
    let mut i: usize = 0;
    while i < n
        invariant
            i <= n,
            n <= a@.len(),
            n <= b@.len(),
            n == a@.len() || n == b@.len(),
            (acc == 0) == (forall|j: int| 0 <= j < i ==> a@[j] == b@[j]),
        decreases n - i,
    {
        let x = a[i];
        let y = b[i];
        proof {
            assert((acc | (x ^ y)) == 0 <==> (acc == 0 && x == y)) by (bit_vector);
        }
        acc = acc | (x ^ y);
        i = i + 1;
    }
    acc == 0
}

fn prune_nonces(seen: &mut Vec<(String, i128)>, now: i128)
    requires
        in_time_range(now),
        forall|i: int| 0 <= i < old(seen)@.len() ==> in_time_range(#[trigger] old(seen)@[i].1),
    ensures
        nonces_view(final(seen)@) == prune(nonces_view(old(seen)@), now),
        forall|i: int| 0 <= i < final(seen)@.len() ==> in_time_range(#[trigger] final(seen)@[i].1),
{
    let ghost all = nonces_view(seen@);
    let mut kept: Vec<(String, i128)> = Vec::new();
    let mut i: usize = 0;
    while i < seen.len()
        invariant
            i <= seen@.len(),
            all == nonces_view(seen@),
            nonces_view(kept@) == prune(all.subrange(0, i as int), now),
            in_time_range(now),
            forall|j: int| 0 <= j < seen@.len() ==> in_time_range(#[trigger] seen@[j].1),
            forall|j: int| 0 <= j < kept@.len() ==> in_time_range(#[trigger] kept@[j].1),
        decreases seen@.len() - i,
    {
        proof {
            assert(all.subrange(0, i + 1).drop_last() =~= all.subrange(0, i as int));
        }
        let t = seen[i].1;
        if now - t <= NONCE_TTL_NS {
            let name = seen[i].0.clone();
            kept.push((name, t));
            proof {
                assert(nonces_view(kept@) =~= prune(all.subrange(0, i as int), now).push(all[i as int]));
            }
        }
        i = i + 1;
    }
    proof {
        assert(all.subrange(0, all.len() as int) =~= all);
    }
    *seen = kept;
}

proof fn lemma_nonce_index_is(seen: Seq<(Seq<char>, i128)>, nonce: Seq<char>, i: int)
    requires
        0 <= i <= seen.len(),
        i < seen.len() ==> seen[i].0 == nonce,
        forall|j: int| 0 <= j < i ==> (#[trigger] seen[j]).0 != nonce,
    ensures
        nonce_index(seen, nonce) == i,
    decreases seen.len(),
{
    if seen.len() > 0 && seen[0].0 != nonce {
        assert forall|j: int| 0 <= j < i - 1 implies (#[trigger] seen.drop_first()[j]).0 != nonce by {
            assert(seen.drop_first()[j] == seen[j + 1]);
        }
        lemma_nonce_index_is(seen.drop_first(), nonce, i - 1);
    }
}

fn record(seen: &mut Vec<(String, i128)>, nonce: &str, now: i128) -> (replay: bool)
    requires
        in_time_range(now),
        forall|i: int| 0 <= i < old(seen)@.len() ==> in_time_range(#[trigger] old(seen)@[i].1),
    ensures
        (nonces_view(final(seen)@), replay) == record_nonce(nonces_view(old(seen)@), nonce@, now),
        forall|i: int| 0 <= i < final(seen)@.len() ==> in_time_range(#[trigger] final(seen)@[i].1),
{
    let ghost before = nonces_view(seen@);
    let key = String::from_str(nonce);
    let mut i: usize = 0;
    while i < seen.len()
        invariant_except_break
            i <= seen@.len(),
            key@ == nonce@,
            before == nonces_view(seen@),
            forall|j: int| 0 <= j < i ==> (#[trigger] before[j]).0 != nonce@,
        ensures
            i <= seen@.len(),
            before == nonces_view(seen@),
            forall|j: int| 0 <= j < i ==> (#[trigger] before[j]).0 != nonce@,
            i < seen@.len() ==> before[i as int].0 == nonce@,
        decreases seen@.len() - i,
    {
        let found = seen[i].0 == key;
        proof {
            assert(before[i as int] == (seen@[i as int].0@, seen@[i as int].1));
        }
        if found {
            break;
        }
        i = i + 1;
    }
    proof {
        lemma_nonce_index_is(before, nonce@, i as int);
    }
    if i < seen.len() {
        seen.set(i, (key, now));
        proof {
            assert(nonces_view(seen@) =~= before.update(i as int, (nonce@, now)));
        }
        true
    } else {
        seen.push((key, now));
        proof {
            assert(nonces_view(seen@) =~= before.push((nonce@, now)));
        }
        false
    }
}

impl ServiceAuth {
    /// Every remembered nonce was presented at an instant a timestamp can hold.
    pub closed spec fn wf(&self) -> bool {
        forall|i: int| 0 <= i < self.seen_nonces@.len() ==> in_time_range(
            #[trigger] self.seen_nonces@[i].1,
        )
    }

    pub closed spec fn secret_view(&self) -> Seq<u8> {
        self.secret@
    }

    pub closed spec fn seen_view(&self) -> Seq<(Seq<char>, i128)> {
        nonces_view(self.seen_nonces@)
    }

    /// A verifier for `secret`, which must be at least 32 bytes long.
    pub fn new(secret: &str) -> (r: Result<ServiceAuth, ServiceAuthSetupError>)
        ensures
            secret.spec_bytes().len() < MIN_SECRET_LEN ==> r == Err::<
                ServiceAuth,
                ServiceAuthSetupError,
            >(ServiceAuthSetupError::SecretTooShort),
            secret.spec_bytes().len() >= MIN_SECRET_LEN ==> (r matches Ok(a) && a.wf()
                && a.secret_view() == secret.spec_bytes() && a.seen_view() == Seq::<
                (Seq<char>, i128),
            >::empty()),
    {
        if secret.as_bytes().len() < MIN_SECRET_LEN {
            return Err(ServiceAuthSetupError::SecretTooShort);
        }
        let bytes = vstd::slice::slice_to_vec(secret.as_bytes());
        let a = ServiceAuth { secret: bytes, seen_nonces: Vec::new() };
        proof {
            assert(a.seen_view() =~= Seq::<(Seq<char>, i128)>::empty());
        }
        Ok(a)
    }

    /// Verify a request at time `now` (nanoseconds since the Unix epoch).
    pub fn verify_at(
        &mut self,
        method: &str,
        path: &str,
        headers: &SignedHeaders,
        body: &[u8],
        now: i128,
    ) -> (r: Result<(), ServiceAuthError>)
        requires
            old(self).wf(),
            in_time_range(now),
        ensures
            final(self).wf(),
            final(self).secret_view() == old(self).secret_view(),
            (r, final(self).seen_view()) == spec_verify(
                old(self).secret_view(),
                old(self).seen_view(),
                method@,
                path@,
                opt_view(headers.timestamp),
                opt_view(headers.nonce),
                opt_view(headers.signature),
                body@,
                now,
            ),
            r is Ok ==> timestamp_within_skew(opt_view(headers.timestamp), now),
            headers.nonce is Some && headers.signature is Some && timestamp_outside_skew(
                opt_view(headers.timestamp),
                now,
            ) ==> r == Err::<(), ServiceAuthError>(ServiceAuthError::StaleTimestamp),
    {
        proof {
            law_accepted_timestamp_within_skew(
                old(self).secret_view(),
                old(self).seen_view(),
                method@,
                path@,
                opt_view(headers.timestamp),
                opt_view(headers.nonce),
                opt_view(headers.signature),
                body@,
                now,
            );
        }
        let (timestamp, nonce, signature) = match (
            headers.timestamp,
            headers.nonce,
            headers.signature,
        ) {
            (Some(t), Some(n), Some(s)) => (t, n, s),
            _ => return Err(ServiceAuthError::MissingHeader),
        };
        let second = match parse_i64(timestamp) {
            Some(s) => s,
            None => return Err(ServiceAuthError::InvalidTimestamp),
        };
        if !timestamp_from_second_ok(second) {
            return Err(ServiceAuthError::InvalidTimestamp);
        }
        let d = now - (second as i128) * 1_000_000_000;
        if d > MAX_SKEW_NS || -d > MAX_SKEW_NS {
            return Err(ServiceAuthError::StaleTimestamp);
        }
        prune_nonces(&mut self.seen_nonces, now);
        if record(&mut self.seen_nonces, nonce, now) {
            return Err(ServiceAuthError::Replay);
        }
        let body_hash = hex_encode_bytes(sha256(body).as_slice());
        let mut text = String::from_str(method);
        text.append("\n");
        text.append(path);
        text.append("\n");
        text.append(timestamp);
        text.append("\n");
        text.append(nonce);
        text.append("\n");
        text.append(body_hash.as_str());
        let expected = hmac_sha256(self.secret.as_slice(), text.as_str().as_bytes());
        let provided = match hex_decode_str(signature) {
            Some(p) => p,
            None => return Err(ServiceAuthError::BadSignature),
        };
        if provided.len() != expected.len() || !subtle_eq(provided.as_slice(), expected.as_slice()) {
            return Err(ServiceAuthError::BadSignature);
        }
        Ok(())
    }

    /// Verify a request now.
    pub fn verify(&mut self, method: &str, path: &str, headers: &SignedHeaders, body: &[u8]) -> (r:
        Result<(), ServiceAuthError>)
        requires
            old(self).wf(),
        ensures
            final(self).wf(),
            final(self).secret_view() == old(self).secret_view(),
            headers.timestamp is None || headers.nonce is None || headers.signature is None ==> r
                == Err::<(), ServiceAuthError>(ServiceAuthError::MissingHeader),
            (exists|now: i128|
                in_time_range(now) && (r, final(self).seen_view()) == #[trigger] spec_verify(
                    old(self).secret_view(),
                    old(self).seen_view(),
                    method@,
                    path@,
                    opt_view(headers.timestamp),
                    opt_view(headers.nonce),
                    opt_view(headers.signature),
                    body@,
                    now,
                )) || (r == Err::<(), ServiceAuthError>(
                spec_refusal_without_clock(
                    opt_view(headers.timestamp),
                    opt_view(headers.nonce),
                    opt_view(headers.signature),
                ),
            ) && final(self).seen_view() == old(self).seen_view()),
    {
        match unix_now_ns() {
            Some(now) => self.verify_at(method, path, headers, body, now),
            None => Err(refusal_without_clock(headers)),
        }
    }
}

proof fn lemma_nonce_index_bounds(seen: Seq<(Seq<char>, i128)>, nonce: Seq<char>)
    ensures
        0 <= nonce_index(seen, nonce) <= seen.len(),
        nonce_index(seen, nonce) < seen.len() ==> seen[nonce_index(seen, nonce)].0 == nonce,
        forall|j: int| 0 <= j < nonce_index(seen, nonce) ==> (#[trigger] seen[j]).0 != nonce,
    decreases seen.len(),
{
    if seen.len() > 0 && seen[0].0 != nonce {
        lemma_nonce_index_bounds(seen.drop_first(), nonce);
        assert forall|j: int| 0 <= j < nonce_index(seen, nonce) implies (#[trigger] seen[j]).0 != nonce by {
            if j > 0 {
                assert(seen[j] == seen.drop_first()[j - 1]);
            }
        }
    }
}

proof fn lemma_prune_keeps(seen: Seq<(Seq<char>, i128)>, now: i128, k: int)
    requires
        0 <= k < seen.len(),
        now - seen[k].1 <= NONCE_TTL_NS,
    ensures
        exists|m: int| 0 <= m < prune(seen, now).len() && #[trigger] prune(seen, now)[m] == seen[k],
    decreases seen.len(),
{
    let rest = prune(seen.drop_last(), now);
    if k == seen.len() - 1 {
        assert(prune(seen, now) == rest.push(seen.last()));
        assert(prune(seen, now)[rest.len() as int] == seen[k]);
    } else {
        lemma_prune_keeps(seen.drop_last(), now, k);
        let m = choose|m: int| 0 <= m < rest.len() && #[trigger] rest[m] == seen.drop_last()[k];
        assert(seen.drop_last()[k] == seen[k]);
        if now - seen.last().1 <= NONCE_TTL_NS {
            assert(prune(seen, now) == rest.push(seen.last()));
            assert(prune(seen, now)[m] == rest[m]);
        } else {
            assert(prune(seen, now) == rest);
        }
        assert(prune(seen, now)[m] == seen[k]);
    }
}

/// A request accepted at `t1` burns its nonce: any request presenting the
/// same nonce with a valid, fresh timestamp no later than five minutes
/// after `t1` is refused as a replay, whatever else it carries.
pub proof fn law_nonce_replay_refused(
    secret: Seq<u8>,
    seen: Seq<(Seq<char>, i128)>,
    method: Seq<char>,
    path: Seq<char>,
    timestamp: Seq<char>,
    nonce: Seq<char>,
    signature: Seq<char>,
    body: Seq<u8>,
    t1: i128,
    method2: Seq<char>,
    path2: Seq<char>,
    timestamp2: Seq<char>,
    signature2: Seq<char>,
    body2: Seq<u8>,
    t2: i128,
)
    requires
        spec_verify(
            secret,
            seen,
            method,
            path,
            Some(timestamp),
            Some(nonce),
            Some(signature),
            body,
            t1,
        ).0 is Ok,
        t2 - t1 <= NONCE_TTL_NS,
        parse_i64_spec(encode_utf8(timestamp2)) matches Some(second) && TIMESTAMP_MIN_SECOND
            <= second <= TIMESTAMP_MAX_SECOND && !stale(t2, second),
    ensures
        spec_verify(
            secret,
            spec_verify(
                secret,
                seen,
                method,
                path,
                Some(timestamp),
                Some(nonce),
                Some(signature),
                body,
                t1,
            ).1,
            method2,
            path2,
            Some(timestamp2),
            Some(nonce),
            Some(signature2),
            body2,
            t2,
        ).0 == Err::<(), ServiceAuthError>(ServiceAuthError::Replay),
{
    let pruned = prune(seen, t1);
    let after = record_nonce(pruned, nonce, t1).0;
    lemma_nonce_index_bounds(pruned, nonce);
    let k = nonce_index(pruned, nonce);
    assert(after[k] == (nonce, t1));
    lemma_prune_keeps(after, t2, k);
    let later = prune(after, t2);
    let m = choose|m: int| 0 <= m < later.len() && #[trigger] later[m] == after[k];
    lemma_nonce_index_bounds(later, nonce);
    assert(nonce_index(later, nonce) < later.len()) by {
        if nonce_index(later, nonce) >= later.len() {
            assert(later[m].0 == nonce);
        }
    }
}

/// Only signed, fresh, first-seen requests are accepted: an accepted request
/// carries all three headers, a timestamp within the allowed skew of now, a
/// nonce not remembered, and a signature that decodes to the HMAC of its
/// canonical text under the secret.
pub proof fn law_accepted_requests_are_signed(
    secret: Seq<u8>,
    seen: Seq<(Seq<char>, i128)>,
    method: Seq<char>,
    path: Seq<char>,
    timestamp: Option<Seq<char>>,
    nonce: Option<Seq<char>>,
    signature: Option<Seq<char>>,
    body: Seq<u8>,
    now: i128,
)
    requires
        spec_verify(secret, seen, method, path, timestamp, nonce, signature, body, now).0 is Ok,
    ensures
        timestamp matches Some(ts) && nonce matches Some(n) && signature matches Some(sig) && (
        parse_i64_spec(encode_utf8(ts)) matches Some(second) && !stale(now, second))
            && !record_nonce(prune(seen, now), n, now).1 && signature_ok(
            secret,
            encode_utf8(canonical(method, path, ts, n, body)),
            encode_utf8(sig),
        ),
{
}

/// The request's timestamp header reads as a whole second that lies within
/// `MAX_SKEW_NS` of `now`, before or after it.
pub open spec fn timestamp_within_skew(timestamp: Option<Seq<char>>, now: i128) -> bool {
    match timestamp {
        Some(t) => match parse_i64_spec(encode_utf8(t)) {
            Some(sec) => now - sec * 1_000_000_000 <= MAX_SKEW_NS && sec * 1_000_000_000 - now
                <= MAX_SKEW_NS,
            None => false,
        },
        None => false,
    }
}

/// The timestamp header reads as a whole second a timestamp can hold, more
/// than `MAX_SKEW_NS` before or after `now`.
pub open spec fn timestamp_outside_skew(timestamp: Option<Seq<char>>, now: i128) -> bool {
    match timestamp {
        Some(t) => match parse_i64_spec(encode_utf8(t)) {
            Some(sec) => TIMESTAMP_MIN_SECOND <= sec <= TIMESTAMP_MAX_SECOND && (now - sec
                * 1_000_000_000 > MAX_SKEW_NS || sec * 1_000_000_000 - now > MAX_SKEW_NS),
            None => false,
        },
        None => false,
    }
}

/// A request is accepted only when its timestamp is within a minute of
/// now in either direction; one further off in either direction, with the
/// other headers present, is refused as stale.
pub proof fn law_accepted_timestamp_within_skew(
    secret: Seq<u8>,
    seen: Seq<(Seq<char>, i128)>,
    method: Seq<char>,
    path: Seq<char>,
    timestamp: Option<Seq<char>>,
    nonce: Option<Seq<char>>,
    signature: Option<Seq<char>>,
    body: Seq<u8>,
    now: i128,
)
    ensures
        spec_verify(secret, seen, method, path, timestamp, nonce, signature, body, now).0 is Ok
            ==> timestamp_within_skew(timestamp, now),
        nonce is Some && signature is Some && timestamp_outside_skew(timestamp, now) ==> spec_verify(
            secret,
            seen,
            method,
            path,
            timestamp,
            nonce,
            signature,
            body,
            now,
        ).0 == Err::<(), ServiceAuthError>(ServiceAuthError::StaleTimestamp),
{
}

} // verus!
