//! PeerDNS product policy: which DNS configuration the agent asks the OS
//! for, given what the backend can do, and how the controller moves between
//! leases when the TUN interface or the configuration changes.
//!
//! The OS mechanics (applying, journaling, restoring) belong to the DNS
//! backend; these functions say what to ask of it next.

use vstd::prelude::*;
use vstd::string::*;

verus! {

/// What the OS DNS backend supports.
#[derive(Debug, Clone, Copy, PartialEq, Eq, Structural)]
pub struct DnsCapabilities {
    pub per_interface_dns: bool,
    pub split_dns: bool,
    pub global_dns: bool,
    pub cache_flush: bool,
}

/// How the TUN interface is named to the backend.
#[derive(Debug, Clone, PartialEq, Eq)]
pub enum InterfaceChoice {
    /// By its index (stable across renames).
    Index(u32),
    /// By its name.
    Name(String),
}

/// Where a DNS configuration applies.
#[derive(Debug, Clone, PartialEq, Eq)]
pub enum DnsScope {
    /// The TUN interface only, as the selector names it.
    Interface(InterfaceChoice),
    /// The whole system.
    Global,
}

/// The DNS configuration asked of the backend.
#[derive(Debug, Clone)]
pub struct DnsPlan {
    pub scope: DnsScope,
    /// The PeerDNS address.
    pub nameserver: u32,
    /// The suffix routed to PeerDNS (split DNS only).
    pub routing_domain: Option<String>,
    /// Whether the interface may become the default DNS route; unset when
    /// the backend's default applies.
    pub default_route: Option<bool>,
}

/// The backend supports neither per-interface nor global DNS.
#[derive(Debug, Clone, Copy, PartialEq, Eq, Structural)]
pub enum DnsPlanError {
    Unsupported,
}

/// Preferred order: split DNS on the TUN interface (only Tunnet names go to
/// PeerDNS, and the interface never becomes the default route); else all
/// DNS through PeerDNS on the interface; else globally; else unsupported.
pub fn desired_config(
    caps: &DnsCapabilities,
    selector: InterfaceChoice,
    nameserver: u32,
    suffix: &str,
) -> (r: Result<DnsPlan, DnsPlanError>)
    ensures
        caps.per_interface_dns && caps.split_dns ==> (r matches Ok(p) && p.scope == DnsScope::Interface(
            selector,
        ) && p.nameserver == nameserver && opt_text(p.routing_domain) == Some(suffix@)
            && p.default_route == Some(false)),
        caps.per_interface_dns && !caps.split_dns ==> (r matches Ok(p) && p.scope
            == DnsScope::Interface(selector) && p.nameserver == nameserver && p.routing_domain is None
            && p.default_route is None),
        !caps.per_interface_dns && caps.global_dns ==> (r matches Ok(p) && p.scope == DnsScope::Global
            && p.nameserver == nameserver && p.routing_domain is None && p.default_route is None),
        !caps.per_interface_dns && !caps.global_dns ==> r == Err::<DnsPlan, DnsPlanError>(
            DnsPlanError::Unsupported,
        ),
{
    if caps.per_interface_dns && caps.split_dns {
        return Ok(
            DnsPlan {
                scope: DnsScope::Interface(selector),
                nameserver,
                routing_domain: Some(String::from_str(suffix)),
                default_route: Some(false),
            },
        );
    }
    if caps.per_interface_dns {
        return Ok(
            DnsPlan {
                scope: DnsScope::Interface(selector),
                nameserver,
                routing_domain: None,
                default_route: None,
            },
        );
    }
    if caps.global_dns {
        return Ok(
            DnsPlan { scope: DnsScope::Global, nameserver, routing_domain: None, default_route: None },
        );
    }
    Err(DnsPlanError::Unsupported)
}

/// The interface selector: the name on macOS (which refuses indexes);
/// elsewhere the index when the system knows one (`index`: the lookup's
/// answer, 0 for an unknown interface, absent when the name cannot be
/// looked up), else the name.
pub fn interface_selector(ifname: &str, index: Option<u32>, macos: bool) -> (r: InterfaceChoice)
    ensures
        macos ==> (r matches InterfaceChoice::Name(n) && n@ == ifname@),
        !macos && (index matches Some(i) && i != 0) ==> (r matches InterfaceChoice::Index(j) && Some(j)
            == index),
        !macos && !(index matches Some(i) && i != 0) ==> (r matches InterfaceChoice::Name(n) && n@
            == ifname@),
{
    if !macos {
        match index {
            Some(i) => {
                if i != 0 {
                    return InterfaceChoice::Index(i);
                }
            },
            None => {},
        }
    }
    InterfaceChoice::Name(String::from_str(ifname))
}

/// What the controller does to reach a configuration for an interface.
#[derive(Debug, Clone, Copy, PartialEq, Eq, Structural)]
pub enum LeaseStep {
    /// Apply a new lease.
    ApplyFresh,
    /// Update the held lease in place.
    UpdateLease,
    /// Restore the held lease (releasing its resources), then apply a new
    /// one.
    RestoreThenApplyFresh,
}

/// Whether the interface differs from the one the held lease was applied
/// for.
pub open spec fn interface_changed(applied: Option<Seq<char>>, ifname: Seq<char>) -> bool {
    match applied {
        Some(a) => a != ifname,
        None => false,
    }
}

pub open spec fn opt_text(s: Option<String>) -> Option<Seq<char>> {
    match s {
        Some(t) => Some(t@),
        None => None,
    }
}

fn changed(applied: &Option<String>, ifname: &str) -> (b: bool)
    ensures
        b == interface_changed(opt_text(*applied), ifname@),
{
    match applied {
        Some(a) => !(*a == String::from_str(ifname)),
        None => false,
    }
}

/// A configuration update: a changed TUN identity never moves a lease
/// silently; it is restored and a new one applied.
pub fn update_step(has_lease: bool, applied: &Option<String>, ifname: &str) -> (s: LeaseStep)
    ensures
        interface_changed(opt_text(*applied), ifname@) ==> s == LeaseStep::RestoreThenApplyFresh,
        !interface_changed(opt_text(*applied), ifname@) && !has_lease ==> s == LeaseStep::ApplyFresh,
        !interface_changed(opt_text(*applied), ifname@) && has_lease ==> s == LeaseStep::UpdateLease,
{
    if changed(applied, ifname) {
        LeaseStep::RestoreThenApplyFresh
    } else if !has_lease {
        LeaseStep::ApplyFresh
    } else {
        LeaseStep::UpdateLease
    }
}

/// Applying PeerDNS: without a lease a new one is applied; with one, it is
/// an update.
pub fn apply_step(has_lease: bool, applied: &Option<String>, ifname: &str) -> (s: LeaseStep)
    ensures
        !has_lease ==> s == LeaseStep::ApplyFresh,
        has_lease && interface_changed(opt_text(*applied), ifname@) ==> s
            == LeaseStep::RestoreThenApplyFresh,
        has_lease && !interface_changed(opt_text(*applied), ifname@) ==> s == LeaseStep::UpdateLease,
{
    if !has_lease {
        LeaseStep::ApplyFresh
    } else {
        update_step(has_lease, applied, ifname)
    }
}

/// How an in-place lease update ended.
#[derive(Debug, Clone, Copy, PartialEq, Eq, Structural)]
pub enum LeaseUpdateOutcome {
    Updated,
    /// The configuration needs another resource set than the lease owns.
    InvalidConfig,
    Failed,
}

/// What follows an in-place lease update.
#[derive(Debug, Clone, Copy, PartialEq, Eq, Structural)]
pub enum AfterUpdate {
    /// Done; flush the DNS cache when the backend can.
    FlushCache,
    /// Ownership cannot move silently: restore, then apply a new lease.
    RestoreThenApplyFresh,
    /// Report the error; the lease is kept.
    Fail,
}

pub fn after_lease_update(o: LeaseUpdateOutcome) -> (a: AfterUpdate)
    ensures
        o == LeaseUpdateOutcome::Updated ==> a == AfterUpdate::FlushCache,
        o == LeaseUpdateOutcome::InvalidConfig ==> a == AfterUpdate::RestoreThenApplyFresh,
        o == LeaseUpdateOutcome::Failed ==> a == AfterUpdate::Fail,
{
    match o {
        LeaseUpdateOutcome::Updated => AfterUpdate::FlushCache,
        LeaseUpdateOutcome::InvalidConfig => AfterUpdate::RestoreThenApplyFresh,
        LeaseUpdateOutcome::Failed => AfterUpdate::Fail,
    }
}

/// How restoring a lease ended.
#[derive(Debug, Clone, Copy, PartialEq, Eq, Structural)]
pub enum RestoreOutcome {
    Restored,
    /// The OS DNS state was changed by someone else meanwhile.
    ExternalModification,
    Failed,
}

/// What follows a restore.
#[derive(Debug, Clone, Copy, PartialEq, Eq, Structural)]
pub enum AfterRestore {
    /// Flush the DNS cache when the backend can; the lease is released.
    FlushCache,
    /// The external state wins: abandon the lease without touching the
    /// system; restore still succeeds.
    Abandon,
    /// Keep the lease so the caller can retry, and report the error.
    KeepAndFail,
}

pub fn after_restore(o: RestoreOutcome) -> (a: AfterRestore)
    ensures
        o == RestoreOutcome::Restored ==> a == AfterRestore::FlushCache,
        o == RestoreOutcome::ExternalModification ==> a == AfterRestore::Abandon,
        o == RestoreOutcome::Failed ==> a == AfterRestore::KeepAndFail,
{
    match o {
        RestoreOutcome::Restored => AfterRestore::FlushCache,
        RestoreOutcome::ExternalModification => AfterRestore::Abandon,
        RestoreOutcome::Failed => AfterRestore::KeepAndFail,
    }
}

/// The controller's bookkeeping of its DNS lease: whether it holds one,
/// and the interface it last applied one for.
#[derive(Debug, Clone)]
pub struct LeaseBook {
    pub has_lease: bool,
    pub applied_ifname: Option<String>,
}

impl LeaseBook {
    /// A controller wrapped around the TUN interface `ifname`: no lease
    /// yet, the interface recorded.
    pub fn new(ifname: &str) -> (b: LeaseBook)
        ensures
            !b.has_lease,
            opt_text(b.applied_ifname) == Some(ifname@),
    {
        LeaseBook { has_lease: false, applied_ifname: Some(String::from_str(ifname)) }
    }

    /// Whether a PeerDNS lease is currently held.
    pub fn is_active(&self) -> (b: bool)
        ensures
            b == self.has_lease,
    {
        self.has_lease
    }

    /// The interface the lease was last applied for.
    pub fn applied_ifname(&self) -> (r: Option<String>)
        ensures
            opt_text(r) == opt_text(self.applied_ifname),
    {
        match &self.applied_ifname {
            Some(n) => Some(n.clone()),
            None => None,
        }
    }

    /// What applying PeerDNS for `ifname` does next.
    pub fn next_apply(&self, ifname: &str) -> (s: LeaseStep)
        ensures
            !self.has_lease ==> s == LeaseStep::ApplyFresh,
            self.has_lease && interface_changed(opt_text(self.applied_ifname), ifname@) ==> s
                == LeaseStep::RestoreThenApplyFresh,
            self.has_lease && !interface_changed(opt_text(self.applied_ifname), ifname@) ==> s
                == LeaseStep::UpdateLease,
    {
        apply_step(self.has_lease, &self.applied_ifname, ifname)
    }

    /// The outcome of applying a fresh lease for `ifname`: on success the
    /// lease is held for that interface; on failure nothing changes, so a
    /// controller without a lease does not claim one.
    pub fn fresh_applied(&mut self, ifname: &str, ok: bool)
        ensures
            ok ==> final(self).has_lease && opt_text(final(self).applied_ifname) == Some(ifname@),
            !ok ==> final(self).has_lease == old(self).has_lease && opt_text(final(self).applied_ifname)
                == opt_text(old(self).applied_ifname),
    {
        if ok {
            self.has_lease = true;
            self.applied_ifname = Some(String::from_str(ifname));
        }
    }

    /// The outcome of restoring: `outcome` is `None` when no lease was held
    /// (nothing to restore). A restored or abandoned lease is released; a
    /// failed restore keeps it for a retry. The recorded interface stays.
    pub fn restored(&mut self, outcome: Option<RestoreOutcome>) -> (a: Option<AfterRestore>)
        requires
            outcome is None <==> !old(self).has_lease,
        ensures
            final(self).has_lease == (outcome == Some(RestoreOutcome::Failed)),
            opt_text(final(self).applied_ifname) == opt_text(old(self).applied_ifname),
            outcome is None ==> a is None,
            outcome == Some(RestoreOutcome::Restored) ==> a == Some(AfterRestore::FlushCache),
            outcome == Some(RestoreOutcome::ExternalModification) ==> a == Some(AfterRestore::Abandon),
            outcome == Some(RestoreOutcome::Failed) ==> a == Some(AfterRestore::KeepAndFail),
    {
        match outcome {
            None => None,
            Some(o) => {
                self.has_lease = o == RestoreOutcome::Failed;
                Some(after_restore(o))
            },
        }
    }
}

} // verus!
