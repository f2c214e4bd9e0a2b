//! Core auto-update health checks: after an update is activated, the agent
//! verifies the running version, counts boots within a health window, and
//! either keeps the update, waits, or rolls back to the previous unit.
//!
//! Reading and writing the pending record, the clock and the file moves stay
//! with the caller; these functions decide.

use vstd::prelude::*;
use vstd::string::*;

verus! {

/// Health window used when an update is staged with none.
pub const DEFAULT_HEALTH_SECS: u64 = 30;

/// An activated update whose health is still being watched.
#[derive(Debug, Clone)]
pub struct PendingUpdate {
    /// When the update was installed, in seconds since the Unix epoch.
    pub installed_at_unix: i64,
    pub from_version: String,
    pub to_version: String,
    pub api_version: u32,
    pub health_window_secs: u64,
    /// Agent starts counted since the update was installed.
    pub boots: u32,
}

/// The record written when an update is staged at `now`: a zero health
/// window means the default one, and no boot is counted yet.
pub fn stage_pending(from: &str, to: &str, health_window_secs: u64, api_version: u32, now: i64) -> (p:
    PendingUpdate)
    ensures
        p.installed_at_unix == now,
        p.from_version@ == from@,
        p.to_version@ == to@,
        p.api_version == api_version,
        p.health_window_secs == (if health_window_secs == 0 {
            DEFAULT_HEALTH_SECS
        } else {
            health_window_secs
        }),
        p.boots == 0,
{
    PendingUpdate {
        installed_at_unix: now,
        from_version: String::from_str(from),
        to_version: String::from_str(to),
        api_version,
        health_window_secs: if health_window_secs == 0 {
            DEFAULT_HEALTH_SECS
        } else {
            health_window_secs
        },
        boots: 0,
    }
}

/// What the agent does with a pending update when it starts.
#[derive(Debug, Clone, Copy, PartialEq, Eq, Structural)]
pub enum HealthDecision {
    /// The running binary is not the update's version or speaks another
    /// API version: roll back without recording the boot.
    RollbackMismatch,
    /// Record the boot, then roll back: the agent restarted within the
    /// health window.
    RollbackUnstable,
    /// Record the boot, then keep the update: the window has passed.
    MarkSuccess,
    /// Record the boot, then keep the update once this many more seconds
    /// pass.
    WaitFor(u64),
}

/// Seconds since installation, negative spans counted as zero.
pub open spec fn elapsed_secs(installed: i64, now: i64) -> int {
    if now - installed < 0 {
        0
    } else {
        now - installed
    }
}

/// The health window, at least one second.
pub open spec fn window_secs(p: PendingUpdate) -> int {
    if p.health_window_secs == 0 {
        1
    } else {
        p.health_window_secs as int
    }
}

/// The boot count after this start.
pub open spec fn next_boots(b: u32) -> u32 {
    if b == u32::MAX {
        b
    } else {
        (b + 1) as u32
    }
}

pub open spec fn spec_health(p: PendingUpdate, running: Seq<char>, api_version: u32, now: i64) -> HealthDecision {
    let elapsed = elapsed_secs(p.installed_at_unix, now);
    let window = window_secs(p);
    if p.to_version@ != running || p.api_version != api_version {
        HealthDecision::RollbackMismatch
    } else if next_boots(p.boots) > 1 && elapsed < window {
        HealthDecision::RollbackUnstable
    } else if elapsed >= window {
        HealthDecision::MarkSuccess
    } else {
        HealthDecision::WaitFor((window - elapsed) as u64)
    }
}

/// Decides what a starting agent does with the pending update `p`, given
/// the running version, the API version it speaks and the time `now` (in
/// seconds since the Unix epoch). Returns the record to write back (the boot
/// counted) with the decision; nothing is written back on a mismatch.
pub fn on_agent_start(p: &PendingUpdate, running_version: &str, api_version: u32, now: i64) -> (r: (
    Option<PendingUpdate>,
    HealthDecision,
))
    ensures
        r.1 == spec_health(*p, running_version@, api_version, now),
        r.1 == HealthDecision::RollbackMismatch ==> r.0 is None,
        r.1 != HealthDecision::RollbackMismatch ==> (r.0 matches Some(q) && q.boots == next_boots(
            p.boots,
        ) && q.installed_at_unix == p.installed_at_unix && q.from_version@ == p.from_version@
            && q.to_version@ == p.to_version@ && q.api_version == p.api_version
            && q.health_window_secs == p.health_window_secs),
{
    let running = String::from_str(running_version);
    if !(p.to_version == running) || p.api_version != api_version {
        return (None, HealthDecision::RollbackMismatch);
    }
    let diff: i128 = now as i128 - p.installed_at_unix as i128;
    let elapsed: u64 = if diff < 0 {
        0
    } else {
        diff as u64
    };
    let window: u64 = if p.health_window_secs == 0 {
        1
    } else {
        p.health_window_secs
    };
    let boots = p.boots.saturating_add(1);
    let updated = PendingUpdate {
        installed_at_unix: p.installed_at_unix,
        from_version: p.from_version.clone(),
        to_version: p.to_version.clone(),
        api_version: p.api_version,
        health_window_secs: p.health_window_secs,
        boots,
    };
    let decision = if boots > 1 && elapsed < window {
        HealthDecision::RollbackUnstable
    } else if elapsed >= window {
        HealthDecision::MarkSuccess
    } else {
        HealthDecision::WaitFor(window - elapsed)
    };
    (Some(updated), decision)
}

/// Whether marking the update `expected_to` successful clears the pending
/// record found on disk (`None` when it is missing or unreadable): a record
/// for another version was written by a newer update and is kept.
pub fn should_clear_pending(current: &Option<PendingUpdate>, expected_to: &str) -> (b: bool)
    ensures
        b == (match current {
            Some(c) => c.to_version@ == expected_to@,
            None => true,
        }),
{
    match current {
        Some(c) => c.to_version == String::from_str(expected_to),
        None => true,
    }
}

/// The files of a Core installation unit on the given platform.
pub fn core_unit_names(windows: bool) -> (names: Vec<&'static str>)
    ensures
        windows ==> names@.len() == 3 && names@[0]@ == "tunnet.exe"@ && names@[1]@ == "tunnetd.exe"@
            && names@[2]@ == "wintun.dll"@,
        !windows ==> names@.len() == 2 && names@[0]@ == "tunnet"@ && names@[1]@ == "tunnetd"@,
{
    if windows {
        vec!["tunnet.exe", "tunnetd.exe", "wintun.dll"]
    } else {
        vec!["tunnet", "tunnetd"]
    }
}

/// The entries of `names` whose flag in `keep` is set, in order.
pub open spec fn kept(names: Seq<&'static str>, keep: Seq<bool>) -> Seq<&'static str>
    decreases names.len(),
{
    if names.len() == 0 || keep.len() == 0 {
        Seq::empty()
    } else if keep.last() {
        kept(names.drop_last(), keep.drop_last()).push(names.last())
    } else {
        kept(names.drop_last(), keep.drop_last())
    }
}

/// The unit files a rollback restores: those of `names` present as regular
/// files in the previous installation (`is_file[i]` for `names[i]`), in
/// order.
pub fn restore_unit(names: &Vec<&'static str>, is_file: &Vec<bool>) -> (r: Vec<&'static str>)
    requires
        names@.len() == is_file@.len(),
    ensures
        r@ == kept(names@, is_file@),
{
    let mut out: Vec<&'static str> = Vec::new();
    let mut i: usize = 0;
    while i < names.len()
        invariant
            i <= names@.len(),
            names@.len() == is_file@.len(),
            out@ == kept(names@.take(i as int), is_file@.take(i as int)),
        decreases names@.len() - i,
    {
        proof {
            assert(names@.take(i as int + 1).drop_last() =~= names@.take(i as int));
            assert(is_file@.take(i as int + 1).drop_last() =~= is_file@.take(i as int));
        }
        if is_file[i] {
            out.push(names[i]);
        }
        i = i + 1;
    }
    assert(names@.take(names@.len() as int) =~= names@);
    assert(is_file@.take(is_file@.len() as int) =~= is_file@);
    out
}

/// Seconds until the next automatic update check: the configured interval
/// (at least one hour) when updates are enabled, else one hour.
pub fn next_check_delay_secs(enabled: bool, interval_hours: u64) -> (s: u64)
    requires
        enabled ==> interval_hours * 3600 <= u64::MAX,
    ensures
        s == (if enabled {
            (if interval_hours == 0 {
                1
            } else {
                interval_hours
            }) * 3600
        } else {
            3600
        }),
{
    if enabled {
        let h = if interval_hours == 0 {
            1
        } else {
            interval_hours
        };
        h * 3600
    } else {
        3600
    }
}

/// A restart inside the health window rolls back: once a start with the
/// right version recorded its boot, the next start before the window ends
/// finds a counted boot and reverts the update.
pub proof fn law_restart_within_window_rolls_back(
    p: PendingUpdate,
    q: PendingUpdate,
    running: Seq<char>,
    api_version: u32,
    now: i64,
)
    requires
        p.to_version@ == running,
        p.api_version == api_version,
        q.boots == next_boots(p.boots),
        q.installed_at_unix == p.installed_at_unix,
        q.to_version@ == p.to_version@,
        q.api_version == p.api_version,
        q.health_window_secs == p.health_window_secs,
        elapsed_secs(q.installed_at_unix, now) < window_secs(q),
    ensures
        spec_health(q, running, api_version, now) == HealthDecision::RollbackUnstable,
{
}

/// The operating-system family whose service manager the update talks to.
#[derive(Debug, Clone, Copy, PartialEq, Eq, Structural)]
pub enum ServicePlatform {
    Linux,
    MacOs,
    Windows,
    Other,
}

/// What `tunnet update` does with the agent service once the binary is
/// replaced.
#[derive(Debug, Clone, Copy, PartialEq, Eq, Structural)]
pub enum ReloadAction {
    /// No service is installed: the binary was updated in place.
    InPlace,
    /// Restart the service.
    Restart,
    /// Graceful reload through systemd, rewriting the unit first when
    /// running as root.
    Reload { refresh_unit: bool },
    /// The systemd unit is missing: warn and tell how to start the service.
    UnitMissing,
    /// Nothing to do on this platform.
    Nothing,
}

/// After an update: with no service installed nothing more happens. On
/// Linux a forced restart restarts the service; otherwise a present systemd
/// unit is reloaded gracefully (rewritten first when root) and a missing one
/// is reported. macOS and Windows always restart.
pub fn service_reload_action(
    installed: bool,
    platform: ServicePlatform,
    force_restart: bool,
    unit_exists: bool,
    is_root: bool,
) -> (a: ReloadAction)
    ensures
        !installed ==> a == ReloadAction::InPlace,
        installed && platform == ServicePlatform::Linux && force_restart ==> a == ReloadAction::Restart,
        installed && platform == ServicePlatform::Linux && !force_restart && unit_exists ==> a
            == (ReloadAction::Reload { refresh_unit: is_root }),
        installed && platform == ServicePlatform::Linux && !force_restart && !unit_exists ==> a
            == ReloadAction::UnitMissing,
        installed && (platform == ServicePlatform::MacOs || platform == ServicePlatform::Windows) ==> a
            == ReloadAction::Restart,
        installed && platform == ServicePlatform::Other ==> a == ReloadAction::Nothing,
{
    if !installed {
        return ReloadAction::InPlace;
    }
    match platform {
        ServicePlatform::Linux => {
            if force_restart {
                ReloadAction::Restart
            } else if unit_exists {
                ReloadAction::Reload { refresh_unit: is_root }
            } else {
                ReloadAction::UnitMissing
            }
        },
        ServicePlatform::MacOs => ReloadAction::Restart,
        ServicePlatform::Windows => ReloadAction::Restart,
        ServicePlatform::Other => ReloadAction::Nothing,
    }
}

} // verus!
