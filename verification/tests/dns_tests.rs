use tunnet::dns::{
    after_lease_update, after_restore, apply_step, desired_config, interface_selector,
    update_step, AfterRestore, AfterUpdate, DnsCapabilities, DnsPlanError, DnsScope,
    InterfaceChoice, LeaseBook, LeaseStep, LeaseUpdateOutcome, RestoreOutcome,
};

const PEER_DNS: u32 = u32::from_be_bytes([100, 100, 100, 53]);

fn name(n: &str) -> InterfaceChoice {
    InterfaceChoice::Name(n.to_string())
}

fn caps(per_interface: bool, split: bool, global: bool) -> DnsCapabilities {
    DnsCapabilities {
        per_interface_dns: per_interface,
        split_dns: split,
        global_dns: global,
        cache_flush: false,
    }
}

#[test]
fn split_capable_backend_uses_routing_domain_without_default_route() {
    let config = desired_config(&caps(true, true, false), name("tunnet0"), PEER_DNS, "tunnet").unwrap();
    assert_eq!(config.nameserver, PEER_DNS);
    assert_eq!(config.routing_domain.as_deref(), Some("tunnet"));
    assert_eq!(config.default_route, Some(false));
    assert_eq!(config.scope, DnsScope::Interface(name("tunnet0")));
    let custom = desired_config(&caps(true, true, false), name("custom0"), PEER_DNS, "tunnet").unwrap();
    assert_eq!(custom.scope, DnsScope::Interface(name("custom0")));
}

#[test]
fn backend_without_split_dns_uses_full_peerdns_fallback() {
    let config = desired_config(&caps(true, false, false), InterfaceChoice::Index(4), PEER_DNS, "tunnet").unwrap();
    assert!(config.routing_domain.is_none());
    assert_eq!(config.nameserver, PEER_DNS);
    assert_eq!(config.scope, DnsScope::Interface(InterfaceChoice::Index(4)));
}

#[test]
fn global_only_backend_uses_global_fallback() {
    let config = desired_config(&caps(false, false, true), name("tunnet0"), PEER_DNS, "tunnet").unwrap();
    assert_eq!(config.scope, DnsScope::Global);
    assert_eq!(config.nameserver, PEER_DNS);
}

#[test]
fn unsupported_capability_combination_fails_clearly() {
    let err = desired_config(&caps(false, false, false), name("tunnet0"), PEER_DNS, "tunnet").unwrap_err();
    assert_eq!(err, DnsPlanError::Unsupported);
}

#[test]
fn configurable_interface_name_is_respected() {
    match interface_selector("custom0", None, false) {
        InterfaceChoice::Name(n) => assert_eq!(n, "custom0"),
        other => panic!("{other:?}"),
    }
    match interface_selector("custom0", Some(7), true) {
        InterfaceChoice::Name(n) => assert_eq!(n, "custom0"),
        other => panic!("{other:?}"),
    }
}

#[test]
fn selector_never_uses_default_scope() {
    assert!(matches!(interface_selector("tunnet0", Some(4), false), InterfaceChoice::Index(4)));
    assert!(matches!(interface_selector("tunnet0", Some(0), false), InterfaceChoice::Name(_)));
    assert!(matches!(interface_selector("tunnet0", None, false), InterfaceChoice::Name(_)));
}

#[test]
fn lease_steps_follow_the_interface() {
    let applied = Some("tunnet0".to_string());
    assert_eq!(apply_step(false, &applied, "tunnet1"), LeaseStep::ApplyFresh);
    assert_eq!(apply_step(true, &applied, "tunnet0"), LeaseStep::UpdateLease);
    assert_eq!(apply_step(true, &applied, "tunnet1"), LeaseStep::RestoreThenApplyFresh);
    assert_eq!(update_step(false, &applied, "tunnet1"), LeaseStep::RestoreThenApplyFresh);
    assert_eq!(update_step(false, &None, "tunnet1"), LeaseStep::ApplyFresh);
    assert_eq!(update_step(true, &None, "tunnet1"), LeaseStep::UpdateLease);
}

#[test]
fn lease_outcomes() {
    assert_eq!(after_lease_update(LeaseUpdateOutcome::Updated), AfterUpdate::FlushCache);
    assert_eq!(
        after_lease_update(LeaseUpdateOutcome::InvalidConfig),
        AfterUpdate::RestoreThenApplyFresh
    );
    assert_eq!(after_lease_update(LeaseUpdateOutcome::Failed), AfterUpdate::Fail);
    assert_eq!(after_restore(RestoreOutcome::Restored), AfterRestore::FlushCache);
    assert_eq!(after_restore(RestoreOutcome::ExternalModification), AfterRestore::Abandon);
    assert_eq!(after_restore(RestoreOutcome::Failed), AfterRestore::KeepAndFail);
}

#[test]
fn lease_book_tracks_the_held_lease() {
    let mut book = LeaseBook::new("tunnet0");
    assert!(!book.is_active());
    assert_eq!(book.applied_ifname().as_deref(), Some("tunnet0"));
    assert_eq!(book.next_apply("tunnet0"), LeaseStep::ApplyFresh);
    book.fresh_applied("tunnet0", false);
    assert!(!book.is_active());
    book.fresh_applied("tunnet1", true);
    assert!(book.is_active());
    assert_eq!(book.applied_ifname().as_deref(), Some("tunnet1"));
    assert_eq!(book.next_apply("tunnet1"), LeaseStep::UpdateLease);
    assert_eq!(book.next_apply("tunnet2"), LeaseStep::RestoreThenApplyFresh);
    assert_eq!(book.restored(Some(RestoreOutcome::Failed)), Some(AfterRestore::KeepAndFail));
    assert!(book.is_active());
    assert_eq!(book.restored(Some(RestoreOutcome::ExternalModification)), Some(AfterRestore::Abandon));
    assert!(!book.is_active());
    assert_eq!(book.restored(None), None);
    assert_eq!(book.applied_ifname().as_deref(), Some("tunnet1"));
}
