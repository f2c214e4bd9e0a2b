//! Direct-mode networks: the decisions behind create, join, leave and
//! upgrade, and the coordinator's side of a join (who is admitted, which
//! address the joiner gets, which invites and approvals are used up).
//!
//! Everything that touches the network, the state directory or the
//! identity store stays with the caller; these functions take what was
//! read and say what to do next.

use crate::underlay::{ipv4_addr_of, parse_ipv4_addr};
use vstd::prelude::*;
use vstd::string::*;

verus! {

/// Arguments of `create`.
#[derive(Debug, Clone)]
pub struct CreateArgs {
    pub hostname: Option<String>,
    /// Admit peers holding a valid invite without manual approval.
    pub open: bool,
    pub network_name: Option<String>,
    pub secret: Option<String>,
    pub no_encrypt_state: bool,
}

/// Arguments of `join`.
#[derive(Debug, Clone)]
pub struct JoinArgs {
    pub invite_code: String,
    pub hostname: Option<String>,
    pub auto_accept_firewall: bool,
    pub no_encrypt_state: bool,
}

/// Arguments of `upgrade`.
#[derive(Debug, Clone)]
pub struct UpgradeArgs {
    pub control_url: String,
    pub token: Option<String>,
}

/// Arguments of `leave`.
#[derive(Debug, Clone)]
pub struct LeaveArgs {
    pub network: Option<String>,
    pub name: Option<String>,
}

/// Hostname used when neither the flag nor the environment names one.
pub open spec fn default_hostname() -> Seq<char> {
    seq!['t', 'u', 'n', 'n', 'e', 't', '-', 'n', 'o', 'd', 'e']
}

/// The hostname a node announces: the flag, else `HOSTNAME`, else
/// `COMPUTERNAME` (values read by the caller), else `tunnet-node`.
pub fn hostname_arg(
    explicit: Option<String>,
    env_hostname: Option<String>,
    env_computername: Option<String>,
) -> (h: String)
    ensures
        h@ == (match (explicit, env_hostname, env_computername) {
            (Some(e), _, _) => e@,
            (None, Some(e), _) => e@,
            (None, None, Some(e)) => e@,
            (None, None, None) => default_hostname(),
        }),
{
    match explicit {
        Some(e) => e,
        None => match env_hostname {
            Some(e) => e,
            None => match env_computername {
                Some(e) => e,
                None => {
                    let h = String::from_str("tunnet-node");
                    proof {
                        reveal_strlit("tunnet-node");
                    }
                    h
                },
            },
        },
    }
}

/// Why a coordinator turns a peer away after authentication; `as_str` is
/// the `reason` of its reply.
#[derive(Debug, Clone, Copy, PartialEq, Eq, Structural)]
pub enum DenyReason {
    InvalidOrUsedInvite,
    PendingApproval,
    CoordinatorDocsNotReady,
    NotCoordinator,
    UnknownRequest,
    CoordinatorStateUnavailable,
    UnknownNetwork,
    BadRequest,
    RequestTooLarge,
}

pub open spec fn deny_reason_text(r: DenyReason) -> Seq<char> {
    match r {
        DenyReason::InvalidOrUsedInvite => "invalid_or_used_invite"@,
        DenyReason::PendingApproval => "pending_approval"@,
        DenyReason::CoordinatorDocsNotReady => "coordinator_docs_not_ready"@,
        DenyReason::NotCoordinator => "not_coordinator"@,
        DenyReason::UnknownRequest => "unknown_request"@,
        DenyReason::CoordinatorStateUnavailable => "coordinator_state_unavailable"@,
        DenyReason::UnknownNetwork => "unknown_network"@,
        DenyReason::BadRequest => "bad_request"@,
        DenyReason::RequestTooLarge => "request_too_large"@,
    }
}

impl DenyReason {
    pub fn as_str(self) -> (s: &'static str)
        ensures
            s@ == deny_reason_text(self),
    {
        match self {
            DenyReason::InvalidOrUsedInvite => "invalid_or_used_invite",
            DenyReason::PendingApproval => "pending_approval",
            DenyReason::CoordinatorDocsNotReady => "coordinator_docs_not_ready",
            DenyReason::NotCoordinator => "not_coordinator",
            DenyReason::UnknownRequest => "unknown_request",
            DenyReason::CoordinatorStateUnavailable => "coordinator_state_unavailable",
            DenyReason::UnknownNetwork => "unknown_network",
            DenyReason::BadRequest => "bad_request",
            DenyReason::RequestTooLarge => "request_too_large",
        }
    }
}

/// What a coordinator reads from a join request.
#[derive(Debug, Clone)]
pub struct JoinRequest {
    pub endpoint_id: String,
    pub hostname: String,
    /// The address the joiner proposes; 0 (unspecified) when it proposed
    /// none or something that is not an IPv4 address.
    pub ipv4: u32,
    pub collision_index: u8,
    pub invite_id: Option<String>,
    pub reusable: bool,
}

/// A join request without the joiner's endpoint id.
#[derive(Debug, Clone, Copy, PartialEq, Eq, Structural)]
pub enum JoinRequestError {
    MissingEndpointId,
}

pub open spec fn opt_view(s: Option<String>) -> Option<Seq<char>> {
    match s {
        Some(v) => Some(v@),
        None => None,
    }
}

/// The proposed address: a parsed dot-decimal address, else unspecified.
pub open spec fn proposed_ipv4(s: Option<Seq<char>>) -> u32 {
    match s {
        Some(t) => match ipv4_addr_of(t) {
            Some(a) => a,
            None => 0,
        },
        None => 0,
    }
}

/// The low byte of a number, as a JSON integer is narrowed to `u8`.
pub open spec fn low_byte(v: u64) -> u8 {
    (v % 256) as u8
}

fn low_byte_of(v: u64) -> (b: u8)
    ensures
        b == low_byte(v),
{
    (v % 256) as u8
}

/// Reads a join request from its fields (each absent when the JSON member
/// is missing or of another type). Only the endpoint id is required.
pub fn join_request_from_fields(
    endpoint_id: Option<String>,
    hostname: Option<String>,
    ipv4: Option<String>,
    collision_index: Option<u64>,
    invite_id: Option<String>,
    reusable: Option<bool>,
) -> (r: Result<JoinRequest, JoinRequestError>)
    ensures
        endpoint_id is None <==> r is Err,
        r matches Ok(q) ==> {
            &&& q.endpoint_id@ == endpoint_id.unwrap()@
            &&& q.hostname@ == (match hostname {
                Some(h) => h@,
                None => "peer"@,
            })
            &&& q.ipv4 == proposed_ipv4(opt_view(ipv4))
            &&& q.collision_index == (match collision_index {
                Some(c) => low_byte(c),
                None => 0,
            })
            &&& opt_view(q.invite_id) == opt_view(invite_id)
            &&& q.reusable == (reusable == Some(true))
        },
{
    let endpoint_id = match endpoint_id {
        Some(e) => e,
        None => return Err(JoinRequestError::MissingEndpointId),
    };
    let hostname = match hostname {
        Some(h) => h,
        None => String::from_str("peer"),
    };
    let ip = match &ipv4 {
        Some(t) => match parse_ipv4_addr(t.as_str()) {
            Some(a) => a,
            None => 0,
        },
        None => 0,
    };
    let collision_index = match collision_index {
        Some(c) => low_byte_of(c),
        None => 0,
    };
    let reusable = match reusable {
        Some(b) => b,
        None => false,
    };
    Ok(JoinRequest { endpoint_id, hostname, ipv4: ip, collision_index, invite_id, reusable })
}

/// Whether `s` is one of the strings in `list`.
pub open spec fn listed(list: Seq<String>, s: Seq<char>) -> bool {
    exists|i: int| 0 <= i < list.len() && (#[trigger] list[i])@ == s
}

/// Whether `s` is one of the strings in `list`.
pub fn contains_string(list: &Vec<String>, s: &String) -> (b: bool)
    ensures
        b == listed(list@, s@),
{
    let mut i: usize = 0;
    while i < list.len()
        invariant
            i <= list.len(),
            forall|k: int| 0 <= k < i ==> (#[trigger] list@[k])@ != s@,
        decreases list.len() - i,
    {
        if list[i] == *s {
            return true;
        }
        i = i + 1;
    }
    false
}

/// Whether the request names an invite the coordinator issued.
pub open spec fn invite_valid(invite_id: Option<String>, issued: Seq<String>) -> bool {
    match invite_id {
        Some(id) => listed(issued, id@),
        None => false,
    }
}

/// What the coordinator does with an authenticated join request.
#[derive(Debug, Clone, Copy, PartialEq, Eq, Structural)]
pub enum JoinGate {
    /// Refuse with this reason.
    Deny(DenyReason),
    /// Queue the joiner for manual approval, then refuse with
    /// `PendingApproval`.
    QueueForApproval,
    /// Issue a write ticket and admit the joiner.
    Admit,
}

pub open spec fn spec_join_gate(open: bool, pre_approved: bool, invite_ok: bool, has_invite: bool, docs_ready: bool) -> JoinGate {
    if !open && !pre_approved && !invite_ok {
        if has_invite {
            JoinGate::Deny(DenyReason::InvalidOrUsedInvite)
        } else {
            JoinGate::QueueForApproval
        }
    } else if !docs_ready {
        JoinGate::Deny(DenyReason::CoordinatorDocsNotReady)
    } else {
        JoinGate::Admit
    }
}

/// Admission of a join request: an open network, a pre-approved endpoint
/// or a valid invite lets the joiner in once the membership document is
/// live; an unknown invite is refused; with no invite at all the joiner
/// waits for approval.
pub fn join_gate(
    open: bool,
    request: &JoinRequest,
    approved: &Vec<String>,
    issued: &Vec<String>,
    docs_ready: bool,
) -> (g: JoinGate)
    ensures
        g == spec_join_gate(
            open,
            listed(approved@, request.endpoint_id@),
            invite_valid(request.invite_id, issued@),
            request.invite_id is Some,
            docs_ready,
        ),
        g == JoinGate::Admit ==> open || listed(approved@, request.endpoint_id@)
            || invite_valid(request.invite_id, issued@),
{
    let pre_approved = contains_string(approved, &request.endpoint_id);
    let invite_ok = match &request.invite_id {
        Some(id) => contains_string(issued, id),
        None => false,
    };
    if !open && !pre_approved && !invite_ok {
        if request.invite_id.is_some() {
            JoinGate::Deny(DenyReason::InvalidOrUsedInvite)
        } else {
            JoinGate::QueueForApproval
        }
    } else if !docs_ready {
        JoinGate::Deny(DenyReason::CoordinatorDocsNotReady)
    } else {
        JoinGate::Admit
    }
}

/// A member of a network's membership document, as far as addressing goes.
#[derive(Debug, Clone)]
pub struct Member {
    pub endpoint_id: String,
    pub ipv4: u32,
}

/// Whether a member other than `endpoint_id` already holds `ip`.
pub open spec fn address_taken(members: Seq<Member>, endpoint_id: Seq<char>, ip: u32) -> bool {
    exists|i: int|
        0 <= i < members.len() && (#[trigger] members[i]).ipv4 == ip && members[i].endpoint_id@
            != endpoint_id
}

/// The next move while picking the joiner's address.
#[derive(Debug, Clone, Copy, PartialEq, Eq, Structural)]
pub enum AddressStep {
    /// The address is free: assign it with this collision index.
    Assign { ipv4: u32, collision_index: u8 },
    /// The address is held by another member: derive the address for this
    /// collision index and ask again.
    Derive { collision_index: u8 },
}

pub open spec fn spec_address_step(members: Seq<Member>, endpoint_id: Seq<char>, ip: u32, ci: u8) -> AddressStep {
    if address_taken(members, endpoint_id, ip) {
        AddressStep::Derive { collision_index: if ci == u8::MAX { ci } else { (ci + 1) as u8 } }
    } else {
        AddressStep::Assign { ipv4: ip, collision_index: ci }
    }
}

/// Where the address search starts: the address the joiner proposed, or,
/// when it proposed none, the address derived for its collision index
/// (`None`: the caller derives it).
pub fn first_join_address(request: &JoinRequest) -> (r: Option<u32>)
    ensures
        r == (if request.ipv4 == 0 { None } else { Some(request.ipv4) }),
{
    if request.ipv4 == 0 {
        None
    } else {
        Some(request.ipv4)
    }
}

/// One step of the address search: keep `ip` when no other member holds
/// it, else move to the next collision index (saturating at 255).
pub fn address_step(members: &Vec<Member>, endpoint_id: &String, ip: u32, ci: u8) -> (s: AddressStep)
    ensures
        s == spec_address_step(members@, endpoint_id@, ip, ci),
        s matches AddressStep::Assign { ipv4, .. } ==> !address_taken(members@, endpoint_id@, ipv4),
{
    let mut i: usize = 0;
    while i < members.len()
        invariant
            i <= members.len(),
            forall|k: int|
                0 <= k < i ==> !((#[trigger] members@[k]).ipv4 == ip && members@[k].endpoint_id@
                    != endpoint_id@),
        decreases members.len() - i,
    {
        if members[i].ipv4 == ip && !(members[i].endpoint_id == *endpoint_id) {
            return AddressStep::Derive { collision_index: ci.saturating_add(1) };
        }
        i = i + 1;
    }
    AddressStep::Assign { ipv4: ip, collision_index: ci }
}

/// Picks the joiner's address: the proposed one, else the one `derive`
/// gives for the request's collision index; while another member holds the
/// address, the next collision index and its derived address. `derive`
/// maps an endpoint id and a collision index to an address. The search
/// gives up (`None`) when the address for index 255 is taken too.
pub fn assign_join_address<F: Fn(&String, u8) -> u32>(
    request: &JoinRequest,
    members: &Vec<Member>,
    derive: F,
) -> (r: Option<(u32, u8)>)
    requires
        forall|c: u8| derive.requires((&request.endpoint_id, c)),
    ensures
        r matches Some((ip, ci)) ==> {
            &&& !address_taken(members@, request.endpoint_id@, ip)
            &&& request.collision_index <= ci
            &&& (request.ipv4 != 0 && ci == request.collision_index && ip == request.ipv4)
                || derive.ensures((&request.endpoint_id, ci), ip)
            &&& forall|c: u8|
                request.collision_index <= c < ci ==> #[trigger] index_taken(members@, *request, derive, c)
        },
        r is None ==> forall|c: u8|
            request.collision_index <= c <= 255 ==> #[trigger] index_taken(members@, *request, derive, c),
        r is None ==> exists|v: u32|
            derive.ensures((&request.endpoint_id, 255u8), v) && address_taken(
                members@,
                request.endpoint_id@,
                v,
            ),
{
    let mut ci = request.collision_index;
    let mut ip = match first_join_address(request) {
        Some(a) => a,
        None => derive(&request.endpoint_id, ci),
    };
    loop
        invariant
            forall|c: u8| derive.requires((&request.endpoint_id, c)),
            request.collision_index <= ci,
            if request.ipv4 != 0 && ci == request.collision_index {
                ip == request.ipv4
            } else {
                derive.ensures((&request.endpoint_id, ci), ip)
            },
            forall|c: u8|
                request.collision_index <= c < ci ==> #[trigger] index_taken(members@, *request, derive, c),
        decreases 255 - ci,
    {
        let ghost before = ci;
        match address_step(members, &request.endpoint_id, ip, ci) {
            AddressStep::Assign { ipv4, collision_index } => {
                return Some((ipv4, collision_index));
            },
            AddressStep::Derive { .. } => {
                if ci == 255 {
                    if !(request.ipv4 != 0 && ci == request.collision_index && ip == request.ipv4) {
                        return None;
                    }
                    let v = derive(&request.endpoint_id, ci);
                    if address_step_taken(members, &request.endpoint_id, v) {
                        return None;
                    }
                    return Some((v, ci));
                }
                proof {
                    assert(address_taken(members@, request.endpoint_id@, ip));
                    assert(index_taken(members@, *request, derive, ci));
                }
                ci = ci + 1;
                ip = derive(&request.endpoint_id, ci);
                proof {
                    assert forall|c: u8| request.collision_index <= c < ci implies #[trigger] index_taken(
                        members@,
                        *request,
                        derive,
                        c,
                    ) by {
                        if c == before {
                        }
                    }
                }
            },
        }
    }
}

/// Collision index `c` was tried and its address is held by another member:
/// the proposal at the request's own index (when one was proposed), else an
/// address `derive` gave for `c`.
pub open spec fn index_taken<F: Fn(&String, u8) -> u32>(
    members: Seq<Member>,
    request: JoinRequest,
    derive: F,
    c: u8,
) -> bool {
    if c == request.collision_index && request.ipv4 != 0 {
        address_taken(members, request.endpoint_id@, request.ipv4)
    } else {
        exists|v: u32|
            derive.ensures((&request.endpoint_id, c), v) && address_taken(
                members,
                request.endpoint_id@,
                v,
            )
    }
}

/// Whether another member holds `ip`.
fn address_step_taken(members: &Vec<Member>, endpoint_id: &String, ip: u32) -> (b: bool)
    ensures
        b == address_taken(members@, endpoint_id@, ip),
{
    match address_step(members, endpoint_id, ip, 0) {
        AddressStep::Assign { .. } => false,
        AddressStep::Derive { .. } => true,
    }
}

/// `list` without the entries equal to `s`, in order.
pub open spec fn without(list: Seq<String>, s: Seq<char>) -> Seq<String> {
    list.filter(differs_from(s))
}

/// The test that keeps the strings other than `s`.
pub open spec fn differs_from(s: Seq<char>) -> spec_fn(String) -> bool {
    |x: String| x@ != s
}

fn remove_string(list: &Vec<String>, s: &String) -> (r: Vec<String>)
    ensures
        r@ == without(list@, s@),
{
    let mut out: Vec<String> = Vec::new();
    let mut i: usize = 0;
    while i < list.len()
        invariant
            i <= list.len(),
            out@ == without(list@.take(i as int), s@),
        decreases list.len() - i,
    {
        proof {
            assert(list@.take(i as int + 1).drop_last() =~= list@.take(i as int));
            reveal(Seq::filter);
        }
        if !(list[i] == *s) {
            out.push(list[i].clone());
        }
        i = i + 1;
    }
    assert(list@.take(list.len() as int) =~= list@);
    out
}

/// The approval list to save once a joiner was admitted: a pre-approval is
/// used up (`None`: nothing to save).
pub fn approvals_after_admit(approved: &Vec<String>, endpoint_id: &String, pre_approved: bool) -> (r:
    Option<Vec<String>>)
    ensures
        pre_approved ==> (r matches Some(v) && v@ == without(approved@, endpoint_id@)),
        !pre_approved ==> r is None,
{
    if pre_approved {
        Some(remove_string(approved, endpoint_id))
    } else {
        None
    }
}

/// The issued-invite list to save once a joiner was admitted: a one-time
/// invite is used up (`None`: nothing to save).
pub fn invites_after_admit(issued: &Vec<String>, invite_id: &Option<String>, reusable: bool) -> (r:
    Option<Vec<String>>)
    ensures
        (match invite_id {
            Some(id) if !reusable => r matches Some(v) && v@ == without(issued@, id@),
            _ => r is None,
        }),
{
    match invite_id {
        Some(id) => if !reusable {
            Some(remove_string(issued, id))
        } else {
            None
        },
        None => None,
    }
}

/// The coordinator's answer to a join request.
#[derive(Debug, Clone)]
pub enum JoinReply {
    Denied(DenyReason),
    Accepted { ipv4: u32, collision_index: u8, doc_ticket: String },
}

/// Largest post-authentication request a coordinator reads.
pub const MAX_POST_AUTH_REQUEST: u32 = 65536;

/// How a coordinator handles a post-authentication request of type
/// `msg_type` (empty when the body is not JSON or has no string `type`).
#[derive(Debug, Clone, Copy, PartialEq, Eq, Structural)]
pub enum PostAuthRoute {
    /// Handle as a join request.
    Join,
    /// Handle as a connect request.
    Connect,
    /// The peer reports that it accepted a connect: nothing to answer.
    ConnectAccepted,
    /// Answer with a refusal.
    Deny(DenyReason),
}

pub open spec fn spec_post_auth_route(msg_type: Seq<char>, coordinator: bool) -> PostAuthRoute {
    if msg_type == "join_request"@ {
        if coordinator {
            PostAuthRoute::Join
        } else {
            PostAuthRoute::Deny(DenyReason::NotCoordinator)
        }
    } else if msg_type == "connect_request"@ {
        PostAuthRoute::Connect
    } else if msg_type == "connect_accepted"@ {
        PostAuthRoute::ConnectAccepted
    } else {
        PostAuthRoute::Deny(DenyReason::UnknownRequest)
    }
}

/// Routes a post-authentication request by its type.
pub fn post_auth_route(msg_type: &str, coordinator: bool) -> (r: PostAuthRoute)
    ensures
        r == spec_post_auth_route(msg_type@, coordinator),
{
    let t = String::from_str(msg_type);
    let join = String::from_str("join_request");
    let connect = String::from_str("connect_request");
    let accepted = String::from_str("connect_accepted");
    if t == join {
        if coordinator {
            PostAuthRoute::Join
        } else {
            PostAuthRoute::Deny(DenyReason::NotCoordinator)
        }
    } else if t == connect {
        PostAuthRoute::Connect
    } else if t == accepted {
        PostAuthRoute::ConnectAccepted
    } else {
        PostAuthRoute::Deny(DenyReason::UnknownRequest)
    }
}

/// Whether a post-authentication request announced as `n` bytes is read;
/// a larger one is refused with `RequestTooLarge`.
pub fn post_auth_request_fits(n: u32) -> (b: bool)
    ensures
        b == (n <= MAX_POST_AUTH_REQUEST),
{
    n <= MAX_POST_AUTH_REQUEST
}

/// What a joiner keeps from an accepted join.
#[derive(Debug, Clone)]
pub struct JoinAcceptance {
    pub ipv4: u32,
    pub collision_index: u8,
    pub doc_ticket: String,
}

/// Why a join did not complete.
#[derive(Debug, Clone)]
pub enum JoinFailure {
    /// The coordinator refused; holds its reason (`denied` when it gave
    /// none).
    Denied(String),
    /// The coordinator accepted but sent no document ticket.
    MissingDocTicket,
}

/// Reads the coordinator's reply to a join (each field absent when the
/// JSON member is missing or of another type). The joiner keeps its own
/// address and collision index unless the reply carries valid ones.
pub fn join_outcome(
    accepted: Option<bool>,
    reason: Option<String>,
    ipv4: Option<String>,
    collision_index: Option<u64>,
    doc_ticket: Option<String>,
    assigned: u32,
    ci: u8,
) -> (r: Result<JoinAcceptance, JoinFailure>)
    ensures
        accepted != Some(true) ==> (r matches Err(JoinFailure::Denied(m)) && m@ == (match reason {
            Some(t) => t@,
            None => "denied"@,
        })),
        accepted == Some(true) && doc_ticket is None ==> r matches Err(JoinFailure::MissingDocTicket),
        accepted == Some(true) && doc_ticket is Some ==> (r matches Ok(a) && {
            &&& a.doc_ticket@ == doc_ticket.unwrap()@
            &&& a.ipv4 == (match opt_view(ipv4) {
                Some(t) => match ipv4_addr_of(t) {
                    Some(v) => v,
                    None => assigned,
                },
                None => assigned,
            })
            &&& a.collision_index == (match collision_index {
                Some(c) => low_byte(c),
                None => ci,
            })
        }),
{
    if accepted != Some(true) {
        let m = match reason {
            Some(t) => t,
            None => String::from_str("denied"),
        };
        return Err(JoinFailure::Denied(m));
    }
    let ip = match &ipv4 {
        Some(t) => match parse_ipv4_addr(t.as_str()) {
            Some(v) => v,
            None => assigned,
        },
        None => assigned,
    };
    let collision_index = match collision_index {
        Some(c) => low_byte_of(c),
        None => ci,
    };
    match doc_ticket {
        Some(t) => Ok(JoinAcceptance { ipv4: ip, collision_index, doc_ticket: t }),
        None => Err(JoinFailure::MissingDocTicket),
    }
}

/// ASCII lowercase of one character; other characters are kept.
pub open spec fn lower_char(c: char) -> char {
    if 'A' <= c <= 'Z' {
        ((c as u32) + 32) as char
    } else {
        c
    }
}

/// ASCII lowercase of a text.
pub open spec fn ascii_lower(s: Seq<char>) -> Seq<char> {
    s.map_values(|c: char| lower_char(c))
}

/// The lowercase letter of an ASCII capital, as a one-letter text.
fn lower_letter(c: char) -> (t: &'static str)
    requires
        'A' <= c <= 'Z',
    ensures
        t@ == seq![lower_char(c)],
{
    let alphabet = "abcdefghijklmnopqrstuvwxyz";
    proof {
        reveal_strlit("abcdefghijklmnopqrstuvwxyz");
    }
    let k = (c as u32 - 65) as usize;
    let t = alphabet.substring_char(k, k + 1);
    proof {
        let a = alphabet@;
        assert(a.len() == 26);
        assert(a[0] == 'a' && a[1] == 'b' && a[2] == 'c' && a[3] == 'd' && a[4] == 'e' && a[5] == 'f'
            && a[6] == 'g' && a[7] == 'h' && a[8] == 'i' && a[9] == 'j' && a[10] == 'k' && a[11] == 'l'
            && a[12] == 'm' && a[13] == 'n' && a[14] == 'o' && a[15] == 'p' && a[16] == 'q' && a[17]
            == 'r' && a[18] == 's' && a[19] == 't' && a[20] == 'u' && a[21] == 'v' && a[22] == 'w'
            && a[23] == 'x' && a[24] == 'y' && a[25] == 'z');
        assert(a[k as int] == lower_char(c));
        assert(t@ =~= seq![lower_char(c)]);
    }
    t
}

/// The ASCII lowercase of `s`, as `str::to_ascii_lowercase` gives it:
/// `A`..`Z` become `a`..`z`, every other character stays.
fn to_ascii_lowercase(s: &str) -> (r: String)
    ensures
        r@ == ascii_lower(s@),
{
    let n = s.unicode_len();
    let mut out = String::new();
    let mut i: usize = 0;
    proof {
        assert(ascii_lower(s@.take(0)) =~= Seq::<char>::empty());
    }
    while i < n
        invariant
            n == s@.len(),
            i <= n,
            out@ == ascii_lower(s@.take(i as int)),
        decreases n - i,
    {
        let c = s.get_char(i);
        let ghost before = out@;
        if 'A' <= c && c <= 'Z' {
            out.append(lower_letter(c));
        } else {
            out.append(s.substring_char(i, i + 1));
            proof {
                assert(s@.subrange(i as int, i + 1) =~= seq![lower_char(c)]);
            }
        }
        proof {
            assert(ascii_lower(s@.take(i + 1)) =~= ascii_lower(s@.take(i as int)).push(lower_char(c)));
        }
        i = i + 1;
    }
    proof {
        assert(s@.take(n as int) =~= s@);
    }
    out
}

/// Whether two texts are equal once ASCII letters are lowercased.
pub open spec fn eq_ignore_ascii_case(a: Seq<char>, b: Seq<char>) -> bool {
    ascii_lower(a) == ascii_lower(b)
}

fn lower_code(c: char) -> (n: u32)
    ensures
        n == lower_char(c) as u32,
{
    let x = c as u32;
    if 65 <= x && x <= 90 {
        x + 32
    } else {
        x
    }
}

fn same_ignore_ascii_case(a: &String, b: &String) -> (r: bool)
    ensures
        r == eq_ignore_ascii_case(a@, b@),
{
    let n = a.as_str().unicode_len();
    if n != b.as_str().unicode_len() {
        assert(ascii_lower(a@).len() != ascii_lower(b@).len());
        return false;
    }
    let mut i: usize = 0;
    while i < n
        invariant
            n == a@.len(),
            n == b@.len(),
            i <= n,
            forall|k: int| 0 <= k < i ==> lower_char(a@[k]) == lower_char(b@[k]),
        decreases n - i,
    {
        let ca = a.as_str().get_char(i);
        let cb = b.as_str().get_char(i);
        if lower_code(ca) != lower_code(cb) {
            assert(ascii_lower(a@)[i as int] != ascii_lower(b@)[i as int]);
            return false;
        }
        i = i + 1;
    }
    assert(ascii_lower(a@) =~= ascii_lower(b@));
    true
}

/// A Direct network the node is already a member of.
#[derive(Debug, Clone)]
pub struct KnownNetwork {
    pub name: String,
    pub id: u128,
}

/// What the state directory holds before a create or join.
#[derive(Debug, Clone)]
pub enum ExistingState {
    Fresh,
    Managed { network_name: String },
    Direct { networks: Vec<KnownNetwork> },
}

/// Why a network cannot be added to this node.
#[derive(Debug, Clone)]
pub enum NetworkAddError {
    /// The node is enrolled in this Managed network; reset first.
    ManagedEnrolled(String),
    /// A Direct network of this name (ignoring ASCII case) is joined.
    NameTaken(String),
    /// A Direct network with this id is joined.
    IdTaken,
}

/// Refuses to add a network to a node enrolled in a Managed network.
pub fn check_not_managed(existing: &ExistingState) -> (r: Result<(), NetworkAddError>)
    ensures
        (match existing {
            ExistingState::Managed { network_name } => r matches Err(
                NetworkAddError::ManagedEnrolled(n),
            ) && n@ == network_name@,
            _ => r is Ok,
        }),
{
    match existing {
        ExistingState::Managed { network_name } => Err(
            NetworkAddError::ManagedEnrolled(network_name.clone()),
        ),
        _ => Ok(()),
    }
}

pub open spec fn name_joined(networks: Seq<KnownNetwork>, name: Seq<char>) -> bool {
    exists|i: int| 0 <= i < networks.len() && eq_ignore_ascii_case((#[trigger] networks[i]).name@, name)
}

pub open spec fn id_joined(networks: Seq<KnownNetwork>, id: u128) -> bool {
    exists|i: int| 0 <= i < networks.len() && (#[trigger] networks[i]).id == id
}

/// Refuses a Direct network whose name (ignoring ASCII case) or id is
/// already joined; the name is checked first.
pub fn check_direct_conflict(networks: &Vec<KnownNetwork>, name: &String, id: u128) -> (r: Result<
    (),
    NetworkAddError,
>)
    ensures
        name_joined(networks@, name@) ==> (r matches Err(NetworkAddError::NameTaken(n)) && n@
            == name@),
        !name_joined(networks@, name@) && id_joined(networks@, id) ==> r matches Err(
            NetworkAddError::IdTaken,
        ),
        !name_joined(networks@, name@) && !id_joined(networks@, id) ==> r is Ok,
{
    let mut i: usize = 0;
    while i < networks.len()
        invariant
            i <= networks.len(),
            forall|k: int| 0 <= k < i ==> !eq_ignore_ascii_case((#[trigger] networks@[k]).name@, name@),
        decreases networks.len() - i,
    {
        if same_ignore_ascii_case(&networks[i].name, name) {
            return Err(NetworkAddError::NameTaken(name.clone()));
        }
        i = i + 1;
    }
    assert(!name_joined(networks@, name@));
    let mut j: usize = 0;
    while j < networks.len()
        invariant
            j <= networks.len(),
            !name_joined(networks@, name@),
            forall|k: int| 0 <= k < j ==> (#[trigger] networks@[k]).id != id,
        decreases networks.len() - j,
    {
        if networks[j].id == id {
            return Err(NetworkAddError::IdTaken);
        }
        j = j + 1;
    }
    Ok(())
}

/// Characters a Direct network name may hold.
pub open spec fn is_name_char(c: char) -> bool {
    ('a' <= c <= 'z') || ('0' <= c <= '9') || c == '-'
}

/// A valid Direct network name: 3 to 32 lowercase letters, digits or
/// hyphens.
pub open spec fn valid_network_name(s: Seq<char>) -> bool {
    3 <= s.len() <= 32 && forall|i: int| 0 <= i < s.len() ==> is_name_char(#[trigger] s[i])
}

pub fn validate_network_name(s: &str) -> (b: bool)
    ensures
        b == valid_network_name(s@),
{
    let n = s.unicode_len();
    if n < 3 || n > 32 {
        return false;
    }
    let mut i: usize = 0;
    while i < n
        invariant
            n == s@.len(),
            i <= n,
            forall|k: int| 0 <= k < i ==> is_name_char(#[trigger] s@[k]),
        decreases n - i,
    {
        let c = s.get_char(i);
        if !(('a' <= c && c <= 'z') || ('0' <= c && c <= '9') || c == '-') {
            return false;
        }
        i = i + 1;
    }
    true
}

/// Length of a text in UTF-8 bytes.
pub open spec fn byte_len(s: Seq<char>) -> nat {
    vstd::utf8::encode_utf8(s).len()
}

/// Shortest network secret accepted, in bytes.
pub const MIN_SECRET_LEN: usize = 8;

/// Why `create` refuses its arguments.
#[derive(Debug, Clone, Copy, PartialEq, Eq, Structural)]
pub enum CreateError {
    InvalidNetworkName,
    SecretTooShort,
}

/// What `create` goes on with.
#[derive(Debug, Clone)]
pub struct CreatePlan {
    /// The lowercased network name.
    pub network_name: String,
    /// The given secret; `None` when the caller must generate one.
    pub secret: Option<String>,
}

/// The network name a `create` asks for: the flag, else `direct`,
/// lowercased.
pub open spec fn requested_name(args: CreateArgs) -> Seq<char> {
    ascii_lower(
        match args.network_name {
            Some(n) => n@,
            None => "direct"@,
        },
    )
}

/// Checks the arguments of `create`: the name (lowercased) must be valid,
/// and a given secret must be at least `MIN_SECRET_LEN` bytes.
pub fn create_plan(args: &CreateArgs) -> (r: Result<CreatePlan, CreateError>)
    ensures
        !valid_network_name(requested_name(*args)) ==> r == Err::<CreatePlan, CreateError>(
            CreateError::InvalidNetworkName,
        ),
        valid_network_name(requested_name(*args)) && (args.secret matches Some(s)
            && byte_len(s@) < MIN_SECRET_LEN) ==> r == Err::<CreatePlan, CreateError>(
            CreateError::SecretTooShort,
        ),
        r is Ok <==> valid_network_name(requested_name(*args)) && !(args.secret matches Some(s)
            && byte_len(s@) < MIN_SECRET_LEN),
        r matches Ok(p) ==> p.network_name@ == requested_name(*args) && opt_view(p.secret)
            == opt_view(args.secret),
{
    let raw = match &args.network_name {
        Some(n) => n.clone(),
        None => String::from_str("direct"),
    };
    let name = to_ascii_lowercase(raw.as_str());
    if !validate_network_name(name.as_str()) {
        return Err(CreateError::InvalidNetworkName);
    }
    let secret = match &args.secret {
        Some(s) => {
            if s.as_str().as_bytes().len() < MIN_SECRET_LEN {
                return Err(CreateError::SecretTooShort);
            }
            Some(s.clone())
        },
        None => None,
    };
    Ok(CreatePlan { network_name: name, secret })
}

/// The network a `leave` names: `--network`, else the positional name.
pub fn leave_target(args: &LeaveArgs) -> (r: Option<String>)
    ensures
        opt_view(r) == (match args.network {
            Some(n) => Some(n@),
            None => opt_view(args.name),
        }),
{
    match &args.network {
        Some(n) => Some(n.clone()),
        None => match &args.name {
            Some(n) => Some(n.clone()),
            None => None,
        },
    }
}

/// Leaving the last Direct network is refused: a full reset is the way out.
#[derive(Debug, Clone, Copy, PartialEq, Eq, Structural)]
pub enum LeaveError {
    LastNetwork,
}

/// The network ids kept after leaving `id`; an error when none would be
/// left.
pub fn networks_after_leave(ids: &Vec<u128>, id: u128) -> (r: Result<Vec<u128>, LeaveError>)
    ensures
        ids@.filter(|x: u128| x != id).len() == 0 ==> r == Err::<Vec<u128>, LeaveError>(
            LeaveError::LastNetwork,
        ),
        ids@.filter(|x: u128| x != id).len() > 0 ==> (r matches Ok(v) && v@ == ids@.filter(
            |x: u128| x != id,
        )),
{
    let mut out: Vec<u128> = Vec::new();
    let mut i: usize = 0;
    while i < ids.len()
        invariant
            i <= ids.len(),
            out@ == ids@.take(i as int).filter(|x: u128| x != id),
        decreases ids.len() - i,
    {
        proof {
            assert(ids@.take(i as int + 1).drop_last() =~= ids@.take(i as int));
            reveal(Seq::filter);
        }
        if ids[i] != id {
            out.push(ids[i]);
        }
        i = i + 1;
    }
    assert(ids@.take(ids.len() as int) =~= ids@);
    if out.len() == 0 {
        Err(LeaveError::LastNetwork)
    } else {
        Ok(out)
    }
}

/// Why `upgrade` stops.
#[derive(Debug, Clone, Copy, PartialEq, Eq, Structural)]
pub enum UpgradeError {
    /// Only the coordinator upgrades a Direct network first.
    NotCoordinator,
    /// No enrollment token was given.
    MissingToken,
    /// The enrollment waits for approval in the dashboard.
    PendingApproval,
}

/// Only a network's coordinator starts an upgrade.
pub fn check_upgrade_coordinator(coordinator: bool) -> (r: Result<(), UpgradeError>)
    ensures
        r == (if coordinator {
            Ok::<(), UpgradeError>(())
        } else {
            Err(UpgradeError::NotCoordinator)
        }),
{
    if coordinator {
        Ok(())
    } else {
        Err(UpgradeError::NotCoordinator)
    }
}

/// The enrollment token an upgrade needs.
pub fn upgrade_token(args: &UpgradeArgs) -> (r: Result<String, UpgradeError>)
    ensures
        args.token is None ==> r == Err::<String, UpgradeError>(UpgradeError::MissingToken),
        args.token matches Some(t) ==> (r matches Ok(v) && v@ == t@),
{
    match &args.token {
        Some(t) => Ok(t.clone()),
        None => Err(UpgradeError::MissingToken),
    }
}

/// An enrollment answered `pending` stops the upgrade.
pub fn check_enroll_status(status: &str) -> (r: Result<(), UpgradeError>)
    ensures
        r == (if status@ == "pending"@ {
            Err::<(), UpgradeError>(UpgradeError::PendingApproval)
        } else {
            Ok(())
        }),
{
    let pending = String::from_str("pending");
    if String::from_str(status) == pending {
        Err(UpgradeError::PendingApproval)
    } else {
        Ok(())
    }
}

/// After a closed network admitted a joiner on a one-time invite, the
/// invite list saved for it no longer holds that invite: the same invite,
/// presented again by a peer that is not pre-approved, is refused.
pub proof fn law_one_time_invite_admits_once(
    request: JoinRequest,
    approved: Seq<String>,
    issued: Seq<String>,
    docs_ready: bool,
)
    requires
        request.invite_id is Some,
        !request.reusable,
        !listed(approved, request.endpoint_id@),
    ensures
        spec_join_gate(
            false,
            false,
            invite_valid(request.invite_id, without(issued, request.invite_id.unwrap()@)),
            true,
            docs_ready,
        ) == JoinGate::Deny(DenyReason::InvalidOrUsedInvite),
{
    let id = request.invite_id.unwrap();
    let rest = without(issued, id@);
    assert forall|i: int| 0 <= i < rest.len() implies (#[trigger] rest[i])@ != id@ by {
        issued.lemma_filter_pred(differs_from(id@), i);
    }
}

/// A pre-approval is used once: the approval list saved after admitting
/// an endpoint no longer lists it.
pub proof fn law_pre_approval_used_once(approved: Seq<String>, endpoint_id: Seq<char>)
    ensures
        !listed(without(approved, endpoint_id), endpoint_id),
{
    let rest = without(approved, endpoint_id);
    assert forall|i: int| 0 <= i < rest.len() implies (#[trigger] rest[i])@ != endpoint_id by {
        approved.lemma_filter_pred(differs_from(endpoint_id), i);
    }
}

/// What the node records about a Direct network it belongs to.
#[derive(Debug, Clone)]
pub struct DirectNetwork {
    pub network_name: String,
    pub network_secret: String,
    pub topic_hash: Vec<u8>,
    pub network_id: u128,
    /// This node created the network and admits joiners.
    pub coordinator: bool,
    /// Joiners with a valid invite are admitted without approval.
    pub open: bool,
    pub assigned_ipv4: u32,
    pub collision_index: u8,
    pub hostname: String,
    pub coordinator_endpoint_id: Option<String>,
    /// Ticket to the network's shared document, given to joiners.
    pub doc_ticket: Option<String>,
    pub namespace_id: Option<String>,
    pub auto_accept_firewall: bool,
    /// Creation time, seconds since the Unix epoch.
    pub created_at: i64,
}

/// The record of a network this node just created: it is the coordinator,
/// holds the address derived for collision index 0, and has no document
/// ticket yet.
pub fn created_network(
    network_name: String,
    network_secret: String,
    topic_hash: Vec<u8>,
    network_id: u128,
    open: bool,
    assigned_ipv4: u32,
    hostname: String,
    my_endpoint_id: String,
    created_at: i64,
) -> (n: DirectNetwork)
    ensures
        n.network_name@ == network_name@,
        n.network_secret@ == network_secret@,
        n.topic_hash@ == topic_hash@,
        n.network_id == network_id,
        n.coordinator,
        n.open == open,
        n.assigned_ipv4 == assigned_ipv4,
        n.collision_index == 0,
        n.hostname@ == hostname@,
        opt_view(n.coordinator_endpoint_id) == Some(my_endpoint_id@),
        n.doc_ticket is None,
        n.namespace_id is None,
        !n.auto_accept_firewall,
        n.created_at == created_at,
{
    DirectNetwork {
        network_name,
        network_secret,
        topic_hash,
        network_id,
        coordinator: true,
        open,
        assigned_ipv4,
        collision_index: 0,
        hostname,
        coordinator_endpoint_id: Some(my_endpoint_id),
        doc_ticket: None,
        namespace_id: None,
        auto_accept_firewall: false,
        created_at,
    }
}

/// The record of a network this node just joined: not the coordinator,
/// never open, with the address, collision index and document ticket the
/// coordinator's acceptance gave.
pub fn joined_network(
    network_name: String,
    network_secret: String,
    topic_hash: Vec<u8>,
    network_id: u128,
    accepted: JoinAcceptance,
    hostname: String,
    coordinator_endpoint_id: String,
    auto_accept_firewall: bool,
    created_at: i64,
) -> (n: DirectNetwork)
    ensures
        n.network_name@ == network_name@,
        n.network_secret@ == network_secret@,
        n.topic_hash@ == topic_hash@,
        n.network_id == network_id,
        !n.coordinator,
        !n.open,
        n.assigned_ipv4 == accepted.ipv4,
        n.collision_index == accepted.collision_index,
        n.hostname@ == hostname@,
        opt_view(n.coordinator_endpoint_id) == Some(coordinator_endpoint_id@),
        opt_view(n.doc_ticket) == Some(accepted.doc_ticket@),
        n.namespace_id is None,
        n.auto_accept_firewall == auto_accept_firewall,
        n.created_at == created_at,
{
    DirectNetwork {
        network_name,
        network_secret,
        topic_hash,
        network_id,
        coordinator: false,
        open: false,
        assigned_ipv4: accepted.ipv4,
        collision_index: accepted.collision_index,
        hostname,
        coordinator_endpoint_id: Some(coordinator_endpoint_id),
        doc_ticket: Some(accepted.doc_ticket),
        namespace_id: None,
        auto_accept_firewall,
        created_at,
    }
}

} // verus!
