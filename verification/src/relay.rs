//! Connectivity-relay registration, heartbeat and usage requests: what the
//! control plane accepts before it touches its database, and how it answers.

use crate::labels::trim_range;
use crate::underlay::starts_with_at;
use vstd::prelude::*;
use vstd::string::*;

verus! {

#[derive(Debug, Clone)]
pub struct ConnectivityRelayRegisterBody {
    pub url: String,
    pub region: String,
    pub qad_enabled: bool,
    pub metrics_url: Option<String>,
    pub access_mode: String,
}

#[derive(Debug, Clone)]
pub struct ConnectivityRelayRegisterResponse {
    pub relay_id: String,
    pub name: String,
    pub url: String,
    pub metering_enabled: bool,
}

#[derive(Debug, Clone)]
pub struct ConnectivityRelayUsageEntry {
    /// Organization that the relayed traffic belongs to.
    pub organization_id: String,
    pub bytes: u64,
}

#[derive(Debug, Clone)]
pub struct ConnectivityRelayUsageBody {
    pub entries: Vec<ConnectivityRelayUsageEntry>,
}

/// Most usage entries one report may carry.
pub const MAX_USAGE_ENTRIES: usize = 500;

/// A request refused with an HTTP status and a message.
#[derive(Debug, Clone, Copy)]
pub struct Refusal {
    pub status: u16,
    pub message: &'static str,
}

/// Whether two texts are equal.
pub fn text_eq(a: &str, b: &str) -> (r: bool)
    ensures
        r == (a@ == b@),
{
    let n = a.unicode_len();
    if n != b.unicode_len() {
        return false;
    }
    let mut i: usize = 0;
    while i < n
        invariant
            i <= n,
            n == a@.len(),
            n == b@.len(),
            forall|j: int| 0 <= j < i ==> a@[j] == b@[j],
        decreases n - i,
    {
        if a.get_char(i) != b.get_char(i) {
            return false;
        }
        i = i + 1;
    }
    assert(a@ =~= b@);
    true
}

/// The token of an `Authorization: Bearer <token>` header.
pub open spec fn spec_bearer_token(h: Seq<char>) -> Option<Seq<char>> {
    if h.len() >= 7 && h.subrange(0, 7) == "Bearer "@ {
        Some(h.subrange(7, h.len() as int))
    } else {
        None
    }
}

pub fn bearer_token(authorization: Option<&str>) -> (t: Option<String>)
    ensures
        match authorization {
            Some(h) => match spec_bearer_token(h@) {
                Some(tok) => t matches Some(s) && s@ == tok,
                None => t is None,
            },
            None => t is None,
        },
{
    let h = match authorization {
        Some(h) => h,
        None => return None,
    };
    let n = h.unicode_len();
    proof {
        reveal_strlit("Bearer ");
        assert(h@.subrange(0, n as int) =~= h@);
    }
    if starts_with_at(h, 0, n, "Bearer ") {
        Some(String::from_str(h.substring_char(7, n)))
    } else {
        None
    }
}

/// Access modes a relay may register with.
pub open spec fn valid_access_mode(m: Seq<char>) -> bool {
    m == "open"@ || m == "shared_token"@ || m == "http"@
}

/// A registration body is refused when its URL is blank or its access mode
/// is unknown.
pub open spec fn spec_register_refusal(url: Seq<char>, access_mode: Seq<char>) -> Option<
    Seq<char>,
> {
    if crate::labels::trim(url).len() == 0 {
        Some("url is required"@)
    } else if !valid_access_mode(access_mode) {
        Some("accessMode must be open, shared_token, or http"@)
    } else {
        None
    }
}

pub fn check_register_body(body: &ConnectivityRelayRegisterBody) -> (r: Result<(), Refusal>)
    ensures
        match spec_register_refusal(body.url@, body.access_mode@) {
            Some(msg) => r matches Err(f) && f.status == 400 && f.message@ == msg,
            None => r is Ok,
        },
{
    let n = body.url.as_str().unicode_len();
    let (a, b) = trim_range(body.url.as_str(), 0, n);
    proof {
        assert(body.url@.subrange(0, n as int) =~= body.url@);
    }
    if a == b {
        return Err(Refusal { status: 400, message: "url is required" });
    }
    let m = body.access_mode.as_str();
    if !(text_eq(m, "open") || text_eq(m, "shared_token") || text_eq(m, "http")) {
        return Err(Refusal { status: 400, message: "accessMode must be open, shared_token, or http" });
    }
    Ok(())
}

/// The status a heartbeat records: the one reported when it is known, else
/// `healthy`.
pub open spec fn spec_heartbeat_status(s: Option<Seq<char>>) -> Seq<char> {
    match s {
        Some(v) => if v == "healthy"@ || v == "degraded"@ || v == "offline"@ || v == "pending"@ {
            v
        } else {
            "healthy"@
        },
        None => "healthy"@,
    }
}

pub fn heartbeat_status(status: Option<&str>) -> (s: &'static str)
    ensures
        s@ == spec_heartbeat_status(
            match status {
                Some(v) => Some(v@),
                None => None,
            },
        ),
{
    match status {
        Some(v) => if text_eq(v, "degraded") {
            "degraded"
        } else if text_eq(v, "offline") {
            "offline"
        } else if text_eq(v, "pending") {
            "pending"
        } else {
            proof {
                reveal_strlit("healthy");
                reveal_strlit("degraded");
                reveal_strlit("offline");
                reveal_strlit("pending");
            }
            "healthy"
        },
        None => "healthy",
    }
}

/// A usage report must carry between one and 500 entries.
pub fn check_usage_body(body: &ConnectivityRelayUsageBody) -> (r: Result<(), Refusal>)
    ensures
        body.entries@.len() == 0 ==> (r matches Err(f) && f.status == 400 && f.message@
            == "entries must not be empty"@),
        body.entries@.len() > MAX_USAGE_ENTRIES ==> (r matches Err(f) && f.status == 400
            && f.message@ == "too many entries (max 500)"@),
        1 <= body.entries@.len() <= MAX_USAGE_ENTRIES ==> r is Ok,
{
    if body.entries.len() == 0 {
        return Err(Refusal { status: 400, message: "entries must not be empty" });
    }
    if body.entries.len() > MAX_USAGE_ENTRIES {
        return Err(Refusal { status: 400, message: "too many entries (max 500)" });
    }
    Ok(())
}

/// Relay bytes are metered only on the cloud deployment, and only for
/// relays that belong to no organization.
pub fn metering_enabled(cloud_tier: bool, organization_id: Option<&str>) -> (b: bool)
    ensures
        b == (cloud_tier && organization_id is None),
{
    cloud_tier && organization_id.is_none()
}

/// Indices of the usage entries that are billed: a non-empty organization
/// and a non-zero byte count.
pub fn billable_entries(body: &ConnectivityRelayUsageBody) -> (idx: Vec<usize>)
    ensures
        forall|k: int| 0 <= k < idx@.len() ==> (#[trigger] idx@[k]) < body.entries@.len(),
        forall|k: int, l: int| 0 <= k < l < idx@.len() ==> idx@[k] < idx@[l],
        forall|j: int|
            0 <= j < body.entries@.len() ==> (idx@.contains(j as usize) <==> ((
            #[trigger] body.entries@[j]).bytes != 0 && body.entries@[j].organization_id@.len() > 0)),
{
    let mut idx: Vec<usize> = Vec::new();
    let mut i: usize = 0;
    while i < body.entries.len()
        invariant
            i <= body.entries@.len(),
            forall|k: int| 0 <= k < idx@.len() ==> (#[trigger] idx@[k]) < i,
            forall|k: int, l: int| 0 <= k < l < idx@.len() ==> idx@[k] < idx@[l],
            forall|j: int|
                0 <= j < i ==> (idx@.contains(j as usize) <==> ((#[trigger] body.entries@[j]).bytes
                    != 0 && body.entries@[j].organization_id@.len() > 0)),
        decreases body.entries@.len() - i,
    {
        let e = &body.entries[i];
        let ghost before = idx@;
        if e.bytes != 0 && e.organization_id.as_str().unicode_len() > 0 {
            idx.push(i);
            proof {
                assert forall|j: int| 0 <= j < i + 1 implies (idx@.contains(j as usize) <==> ((
                #[trigger] body.entries@[j]).bytes != 0 && body.entries@[j].organization_id@.len()
                    > 0)) by {
                    if j < i {
                        if before.contains(j as usize) {
                            let w = choose|w: int| 0 <= w < before.len() && before[w] == j as usize;
                            assert(idx@[w] == j as usize);
                        }
                        if idx@.contains(j as usize) {
                            let w = choose|w: int| 0 <= w < idx@.len() && idx@[w] == j as usize;
                            if w == before.len() {
                                assert(idx@[w] == i);
                            } else {
                                assert(before[w] == j as usize);
                            }
                        }
                    } else {
                        assert(idx@[before.len() as int] == i);
                    }
                }
            }
        } else {
            proof {
                assert forall|j: int| 0 <= j < i + 1 implies (idx@.contains(j as usize) <==> ((
                #[trigger] body.entries@[j]).bytes != 0 && body.entries@[j].organization_id@.len()
                    > 0)) by {
                    if j == i && idx@.contains(j as usize) {
                        let w = choose|w: int| 0 <= w < idx@.len() && idx@[w] == j as usize;
                        assert(idx@[w] < i);
                    }
                }
            }
        }
        i = i + 1;
    }
    idx
}

} // verus!
