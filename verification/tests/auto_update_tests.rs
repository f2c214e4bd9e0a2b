use tunnet::auto_update::{
    core_unit_names, next_check_delay_secs, on_agent_start, restore_unit, should_clear_pending,
    service_reload_action, stage_pending, HealthDecision, PendingUpdate, ReloadAction, ServicePlatform,
    DEFAULT_HEALTH_SECS,
};

fn pending(installed: i64, window: u64, boots: u32) -> PendingUpdate {
    PendingUpdate {
        installed_at_unix: installed,
        from_version: "1.0.0".to_string(),
        to_version: "1.1.0".to_string(),
        api_version: 3,
        health_window_secs: window,
        boots,
    }
}

#[test]
fn staging_uses_default_window() {
    let p = stage_pending("1.0.0", "1.1.0", 0, 3, 1000);
    assert_eq!(p.health_window_secs, DEFAULT_HEALTH_SECS);
    assert_eq!(p.boots, 0);
    assert_eq!(p.installed_at_unix, 1000);
    assert_eq!((p.from_version.as_str(), p.to_version.as_str()), ("1.0.0", "1.1.0"));
    assert_eq!(stage_pending("a", "b", 90, 3, 0).health_window_secs, 90);
}

#[test]
fn wrong_version_or_api_rolls_back_without_recording() {
    let p = pending(0, 30, 0);
    let (w, d) = on_agent_start(&p, "1.2.0", 3, 5);
    assert_eq!(d, HealthDecision::RollbackMismatch);
    assert!(w.is_none());
    let (w, d) = on_agent_start(&p, "1.1.0", 4, 5);
    assert_eq!(d, HealthDecision::RollbackMismatch);
    assert!(w.is_none());
}

#[test]
fn first_start_waits_out_the_window() {
    let p = pending(100, 30, 0);
    let (w, d) = on_agent_start(&p, "1.1.0", 3, 110);
    assert_eq!(d, HealthDecision::WaitFor(20));
    assert_eq!(w.unwrap().boots, 1);
}

#[test]
fn restart_within_window_rolls_back() {
    let p = pending(100, 30, 0);
    let (w, _) = on_agent_start(&p, "1.1.0", 3, 110);
    let (w2, d) = on_agent_start(&w.unwrap(), "1.1.0", 3, 120);
    assert_eq!(d, HealthDecision::RollbackUnstable);
    assert_eq!(w2.unwrap().boots, 2);
}

#[test]
fn start_after_window_keeps_update() {
    let (_, d) = on_agent_start(&pending(100, 30, 1), "1.1.0", 3, 130);
    assert_eq!(d, HealthDecision::MarkSuccess);
    // A clock behind the install time counts as no time elapsed.
    let (_, d) = on_agent_start(&pending(100, 30, 0), "1.1.0", 3, 50);
    assert_eq!(d, HealthDecision::WaitFor(30));
    // A zero window is treated as one second.
    let (_, d) = on_agent_start(&pending(100, 0, 0), "1.1.0", 3, 100);
    assert_eq!(d, HealthDecision::WaitFor(1));
    let (w, _) = on_agent_start(&pending(100, 30, u32::MAX), "1.1.0", 3, 200);
    assert_eq!(w.unwrap().boots, u32::MAX);
}

#[test]
fn success_keeps_a_newer_pending_record() {
    assert!(should_clear_pending(&None, "1.1.0"));
    assert!(should_clear_pending(&Some(pending(0, 30, 1)), "1.1.0"));
    assert!(!should_clear_pending(&Some(pending(0, 30, 1)), "1.0.9"));
}

#[test]
fn unit_names_and_restore() {
    assert_eq!(core_unit_names(true), vec!["tunnet.exe", "tunnetd.exe", "wintun.dll"]);
    assert_eq!(core_unit_names(false), vec!["tunnet", "tunnetd"]);
    let names = vec!["tunnet", "tunnetd", "wintun.dll"];
    assert_eq!(restore_unit(&names, &vec![true, false, true]), vec!["tunnet", "wintun.dll"]);
    assert!(restore_unit(&names, &vec![false, false, false]).is_empty());
}

#[test]
fn check_delays() {
    assert_eq!(next_check_delay_secs(true, 6), 6 * 3600);
    assert_eq!(next_check_delay_secs(true, 0), 3600);
    assert_eq!(next_check_delay_secs(false, 6), 3600);
}

#[test]
fn service_reload_follows_platform_and_unit() {
    assert_eq!(service_reload_action(false, ServicePlatform::Linux, true, true, true), ReloadAction::InPlace);
    assert_eq!(service_reload_action(true, ServicePlatform::Linux, true, true, false), ReloadAction::Restart);
    assert_eq!(
        service_reload_action(true, ServicePlatform::Linux, false, true, true),
        ReloadAction::Reload { refresh_unit: true }
    );
    assert_eq!(
        service_reload_action(true, ServicePlatform::Linux, false, true, false),
        ReloadAction::Reload { refresh_unit: false }
    );
    assert_eq!(service_reload_action(true, ServicePlatform::Linux, false, false, true), ReloadAction::UnitMissing);
    assert_eq!(service_reload_action(true, ServicePlatform::MacOs, false, false, false), ReloadAction::Restart);
    assert_eq!(service_reload_action(true, ServicePlatform::Windows, false, true, false), ReloadAction::Restart);
    assert_eq!(service_reload_action(true, ServicePlatform::Other, true, true, true), ReloadAction::Nothing);
}
