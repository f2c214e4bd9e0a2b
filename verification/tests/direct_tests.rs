use tunnet::direct::{
    address_step, assign_join_address, created_network, joined_network, JoinAcceptance, approvals_after_admit, check_direct_conflict, check_enroll_status,
    check_not_managed, check_upgrade_coordinator, create_plan, first_join_address, hostname_arg,
    invites_after_admit, join_gate, join_outcome, join_request_from_fields, leave_target,
    networks_after_leave, post_auth_request_fits, post_auth_route, upgrade_token,
    validate_network_name, AddressStep, CreateArgs, CreateError, DenyReason, ExistingState,
    JoinFailure, JoinGate, JoinRequest, JoinRequestError, KnownNetwork, LeaveArgs, LeaveError,
    Member, NetworkAddError, PostAuthRoute, UpgradeArgs, UpgradeError,
};

fn s(x: &str) -> String {
    x.to_string()
}

fn request(endpoint: &str, invite: Option<&str>, reusable: bool) -> JoinRequest {
    JoinRequest {
        endpoint_id: s(endpoint),
        hostname: s("laptop"),
        ipv4: 0,
        collision_index: 0,
        invite_id: invite.map(s),
        reusable,
    }
}

fn create_args(name: Option<&str>, secret: Option<&str>) -> CreateArgs {
    CreateArgs {
        hostname: None,
        open: false,
        network_name: name.map(s),
        secret: secret.map(s),
        no_encrypt_state: false,
    }
}

#[test]
fn hostname_prefers_flag_then_environment() {
    assert_eq!(hostname_arg(Some(s("a")), Some(s("b")), Some(s("c"))), "a");
    assert_eq!(hostname_arg(None, Some(s("b")), Some(s("c"))), "b");
    assert_eq!(hostname_arg(None, None, Some(s("c"))), "c");
    assert_eq!(hostname_arg(None, None, None), "tunnet-node");
}

#[test]
fn join_request_needs_endpoint_id() {
    let r = join_request_from_fields(None, Some(s("h")), None, None, None, None);
    assert_eq!(r.unwrap_err(), JoinRequestError::MissingEndpointId);
}

#[test]
fn join_request_defaults() {
    let r = join_request_from_fields(Some(s("abc")), None, None, None, None, None).unwrap();
    assert_eq!(r.endpoint_id, "abc");
    assert_eq!(r.hostname, "peer");
    assert_eq!(r.ipv4, 0);
    assert_eq!(r.collision_index, 0);
    assert_eq!(r.invite_id, None);
    assert!(!r.reusable);
}

#[test]
fn join_request_fields_are_read() {
    let r = join_request_from_fields(
        Some(s("abc")),
        Some(s("box")),
        Some(s("100.64.1.2")),
        Some(300),
        Some(s("inv-1")),
        Some(true),
    )
    .unwrap();
    assert_eq!(r.hostname, "box");
    assert_eq!(r.ipv4, u32::from_be_bytes([100, 64, 1, 2]));
    // A JSON number is narrowed to its low byte.
    assert_eq!(r.collision_index, 44);
    assert_eq!(r.invite_id.as_deref(), Some("inv-1"));
    assert!(r.reusable);
    let bad = join_request_from_fields(Some(s("abc")), None, Some(s("nope")), None, None, None)
        .unwrap();
    assert_eq!(bad.ipv4, 0);
    assert_eq!(first_join_address(&bad), None);
    assert_eq!(first_join_address(&r), Some(u32::from_be_bytes([100, 64, 1, 2])));
}

#[test]
fn gate_open_network_admits_when_docs_ready() {
    let req = request("peer1", None, false);
    assert_eq!(join_gate(true, &req, &vec![], &vec![], true), JoinGate::Admit);
    assert_eq!(
        join_gate(true, &req, &vec![], &vec![], false),
        JoinGate::Deny(DenyReason::CoordinatorDocsNotReady)
    );
}

#[test]
fn gate_closed_network() {
    let issued = vec![s("inv-1")];
    let unknown = request("peer1", Some("inv-9"), false);
    assert_eq!(
        join_gate(false, &unknown, &vec![], &issued, true),
        JoinGate::Deny(DenyReason::InvalidOrUsedInvite)
    );
    let none = request("peer1", None, false);
    assert_eq!(join_gate(false, &none, &vec![], &issued, true), JoinGate::QueueForApproval);
    let valid = request("peer1", Some("inv-1"), false);
    assert_eq!(join_gate(false, &valid, &vec![], &issued, true), JoinGate::Admit);
    let approved = vec![s("peer1")];
    assert_eq!(join_gate(false, &none, &approved, &issued, true), JoinGate::Admit);
}

#[test]
fn one_time_invite_admits_once() {
    let issued = vec![s("inv-1"), s("inv-2")];
    let req = request("peer1", Some("inv-1"), false);
    assert_eq!(join_gate(false, &req, &vec![], &issued, true), JoinGate::Admit);
    let left = invites_after_admit(&issued, &req.invite_id, req.reusable).unwrap();
    assert_eq!(left, vec![s("inv-2")]);
    let again = request("peer2", Some("inv-1"), false);
    assert_eq!(
        join_gate(false, &again, &vec![], &left, true),
        JoinGate::Deny(DenyReason::InvalidOrUsedInvite)
    );
}

#[test]
fn reusable_invite_is_kept() {
    let issued = vec![s("inv-1")];
    assert_eq!(invites_after_admit(&issued, &Some(s("inv-1")), true), None);
    assert_eq!(invites_after_admit(&issued, &None, false), None);
}

#[test]
fn pre_approval_is_used_up() {
    let approved = vec![s("a"), s("peer1"), s("b"), s("peer1")];
    assert_eq!(
        approvals_after_admit(&approved, &s("peer1"), true),
        Some(vec![s("a"), s("b")])
    );
    assert_eq!(approvals_after_admit(&approved, &s("peer1"), false), None);
}

#[test]
fn address_step_moves_past_other_members() {
    let members = vec![
        Member { endpoint_id: s("other"), ipv4: 7 },
        Member { endpoint_id: s("me"), ipv4: 9 },
    ];
    assert_eq!(
        address_step(&members, &s("me"), 7, 0),
        AddressStep::Derive { collision_index: 1 }
    );
    assert_eq!(
        address_step(&members, &s("me"), 9, 2),
        AddressStep::Assign { ipv4: 9, collision_index: 2 }
    );
    assert_eq!(
        address_step(&members, &s("me"), 11, 0),
        AddressStep::Assign { ipv4: 11, collision_index: 0 }
    );
    assert_eq!(
        address_step(&members, &s("me"), 7, 255),
        AddressStep::Derive { collision_index: 255 }
    );
}

#[test]
fn post_auth_routes() {
    assert_eq!(post_auth_route("join_request", true), PostAuthRoute::Join);
    assert_eq!(
        post_auth_route("join_request", false),
        PostAuthRoute::Deny(DenyReason::NotCoordinator)
    );
    assert_eq!(post_auth_route("connect_request", false), PostAuthRoute::Connect);
    assert_eq!(post_auth_route("connect_accepted", true), PostAuthRoute::ConnectAccepted);
    assert_eq!(post_auth_route("", true), PostAuthRoute::Deny(DenyReason::UnknownRequest));
    assert!(post_auth_request_fits(65536));
    assert!(!post_auth_request_fits(65537));
}

#[test]
fn deny_reason_texts() {
    assert_eq!(DenyReason::InvalidOrUsedInvite.as_str(), "invalid_or_used_invite");
    assert_eq!(DenyReason::PendingApproval.as_str(), "pending_approval");
    assert_eq!(DenyReason::CoordinatorDocsNotReady.as_str(), "coordinator_docs_not_ready");
    assert_eq!(DenyReason::NotCoordinator.as_str(), "not_coordinator");
    assert_eq!(DenyReason::UnknownRequest.as_str(), "unknown_request");
    assert_eq!(DenyReason::CoordinatorStateUnavailable.as_str(), "coordinator_state_unavailable");
    assert_eq!(DenyReason::UnknownNetwork.as_str(), "unknown_network");
    assert_eq!(DenyReason::BadRequest.as_str(), "bad_request");
    assert_eq!(DenyReason::RequestTooLarge.as_str(), "request_too_large");
}

#[test]
fn join_outcome_denied() {
    match join_outcome(Some(false), Some(s("pending_approval")), None, None, None, 5, 0) {
        Err(JoinFailure::Denied(r)) => assert_eq!(r, "pending_approval"),
        other => panic!("{other:?}"),
    }
    match join_outcome(None, None, None, None, Some(s("t")), 5, 0) {
        Err(JoinFailure::Denied(r)) => assert_eq!(r, "denied"),
        other => panic!("{other:?}"),
    }
}

#[test]
fn join_outcome_accepted() {
    let a = join_outcome(Some(true), None, Some(s("100.64.0.9")), Some(3), Some(s("tk")), 5, 0)
        .unwrap();
    assert_eq!(a.ipv4, u32::from_be_bytes([100, 64, 0, 9]));
    assert_eq!(a.collision_index, 3);
    assert_eq!(a.doc_ticket, "tk");
    let kept = join_outcome(Some(true), None, Some(s("x")), None, Some(s("tk")), 5, 2).unwrap();
    assert_eq!(kept.ipv4, 5);
    assert_eq!(kept.collision_index, 2);
    assert!(matches!(
        join_outcome(Some(true), None, None, None, None, 5, 0),
        Err(JoinFailure::MissingDocTicket)
    ));
}

#[test]
fn managed_node_cannot_add_direct_network() {
    let m = ExistingState::Managed { network_name: s("corp") };
    match check_not_managed(&m) {
        Err(NetworkAddError::ManagedEnrolled(n)) => assert_eq!(n, "corp"),
        other => panic!("{other:?}"),
    }
    assert!(check_not_managed(&ExistingState::Fresh).is_ok());
    assert!(check_not_managed(&ExistingState::Direct { networks: vec![] }).is_ok());
}

#[test]
fn direct_conflicts_ignore_ascii_case() {
    let nets = vec![KnownNetwork { name: s("Home"), id: 7 }];
    match check_direct_conflict(&nets, &s("home"), 1) {
        Err(NetworkAddError::NameTaken(n)) => assert_eq!(n, "home"),
        other => panic!("{other:?}"),
    }
    assert!(matches!(check_direct_conflict(&nets, &s("work"), 7), Err(NetworkAddError::IdTaken)));
    assert!(check_direct_conflict(&nets, &s("work"), 8).is_ok());
    assert!(check_direct_conflict(&nets, &s("hóme"), 8).is_ok());
}

#[test]
fn create_plan_names() {
    let p = create_plan(&create_args(None, None)).unwrap();
    assert_eq!(p.network_name, "direct");
    assert_eq!(p.secret, None);
    let p = create_plan(&create_args(Some("My-Net2"), Some("longenough"))).unwrap();
    assert_eq!(p.network_name, "my-net2");
    assert_eq!(p.secret.as_deref(), Some("longenough"));
    assert_eq!(
        create_plan(&create_args(Some("ab"), None)).unwrap_err(),
        CreateError::InvalidNetworkName
    );
    assert_eq!(
        create_plan(&create_args(Some("has space"), None)).unwrap_err(),
        CreateError::InvalidNetworkName
    );
    assert_eq!(
        create_plan(&create_args(Some(&"x".repeat(33)), None)).unwrap_err(),
        CreateError::InvalidNetworkName
    );
    assert!(create_plan(&create_args(Some(&"x".repeat(32)), None)).is_ok());
    assert!(validate_network_name("abc"));
    assert!(!validate_network_name("ABC"));
}

#[test]
fn create_plan_secret_length_counts_bytes() {
    assert_eq!(
        create_plan(&create_args(None, Some("short"))).unwrap_err(),
        CreateError::SecretTooShort
    );
    assert!(create_plan(&create_args(None, Some("12345678"))).is_ok());
    // Three two-byte characters: six bytes.
    assert_eq!(
        create_plan(&create_args(None, Some("ééé"))).unwrap_err(),
        CreateError::SecretTooShort
    );
    // Four two-byte characters: eight bytes.
    assert!(create_plan(&create_args(None, Some("éééé"))).is_ok());
    // An invalid name is reported before a short secret.
    assert_eq!(
        create_plan(&create_args(Some("x"), Some("short"))).unwrap_err(),
        CreateError::InvalidNetworkName
    );
}

#[test]
fn leave_rules() {
    let a = LeaveArgs { network: Some(s("a")), name: Some(s("b")) };
    assert_eq!(leave_target(&a).as_deref(), Some("a"));
    let b = LeaveArgs { network: None, name: Some(s("b")) };
    assert_eq!(leave_target(&b).as_deref(), Some("b"));
    assert_eq!(networks_after_leave(&vec![1, 2, 3], 2).unwrap(), vec![1, 3]);
    assert_eq!(networks_after_leave(&vec![2], 2).unwrap_err(), LeaveError::LastNetwork);
    assert_eq!(networks_after_leave(&vec![], 2).unwrap_err(), LeaveError::LastNetwork);
}

#[test]
fn upgrade_rules() {
    assert_eq!(check_upgrade_coordinator(false), Err(UpgradeError::NotCoordinator));
    assert_eq!(check_upgrade_coordinator(true), Ok(()));
    let no_token = UpgradeArgs { control_url: s("http://x"), token: None };
    assert_eq!(upgrade_token(&no_token).unwrap_err(), UpgradeError::MissingToken);
    let with = UpgradeArgs { control_url: s("http://x"), token: Some(s("tok")) };
    assert_eq!(upgrade_token(&with).unwrap(), "tok");
    assert_eq!(check_enroll_status("pending"), Err(UpgradeError::PendingApproval));
    assert_eq!(check_enroll_status("approved"), Ok(()));
}

#[test]
fn join_address_search_skips_taken_addresses() {
    let derive = |_: &String, ci: u8| 100 + ci as u32;
    let members = vec![
        Member { endpoint_id: s("a"), ipv4: 100 },
        Member { endpoint_id: s("b"), ipv4: 101 },
        Member { endpoint_id: s("me"), ipv4: 102 },
    ];
    let req = request("me", None, false);
    assert_eq!(assign_join_address(&req, &members, derive), Some((102, 2)));
    let mut proposed = request("me", None, false);
    proposed.ipv4 = 55;
    assert_eq!(assign_join_address(&proposed, &members, derive), Some((55, 0)));
    proposed.ipv4 = 101;
    assert_eq!(assign_join_address(&proposed, &members, derive), Some((102, 2)));
    let crowded: Vec<Member> = (0..=255u32).map(|i| Member { endpoint_id: s("x"), ipv4: 100 + i }).collect();
    assert_eq!(assign_join_address(&req, &crowded, derive), None);
}

#[test]
fn network_records_for_create_and_join() {
    let c = created_network(s("home"), s("secret-secret"), vec![1, 2], 7, true, 42, s("laptop"), s("me"), 100);
    assert!(c.coordinator && c.open);
    assert_eq!((c.assigned_ipv4, c.collision_index), (42, 0));
    assert_eq!(c.coordinator_endpoint_id.as_deref(), Some("me"));
    assert!(c.doc_ticket.is_none() && c.namespace_id.is_none() && !c.auto_accept_firewall);
    let accepted = JoinAcceptance { ipv4: 43, collision_index: 2, doc_ticket: s("ticket") };
    let j = joined_network(s("home"), s("secret-secret"), vec![1, 2], 7, accepted, s("desk"), s("coord"), true, 200);
    assert!(!j.coordinator && !j.open && j.auto_accept_firewall);
    assert_eq!((j.assigned_ipv4, j.collision_index), (43, 2));
    assert_eq!(j.doc_ticket.as_deref(), Some("ticket"));
    assert_eq!(j.coordinator_endpoint_id.as_deref(), Some("coord"));
    assert_eq!((j.network_id, j.created_at, j.hostname.as_str()), (7, 200, "desk"));
}
