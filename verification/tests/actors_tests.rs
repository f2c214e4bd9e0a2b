use tunnet::actors::{
    posture_step, presence_status, ApplyPostureConfig, CollectorChanged, GetPostureEngine,
    PostureAction, PostureMsg, PostureStatusChanged, Recheck, ShutdownPosture,
    TriggerInitialCollect,
};

fn status(passed: Vec<bool>, action: &str) -> PostureMsg {
    PostureMsg::PostureStatusChanged(PostureStatusChanged {
        postures_passed: passed,
        enforcement_action: action.to_string(),
        grace_secs: None,
        remediation: vec![],
    })
}

#[test]
fn revoke_blocks_traffic_other_actions_allow_it() {
    let (ok, action) = posture_step(true, status(vec![true, false, false], "revoke"));
    assert!(!ok);
    assert!(matches!(action, PostureAction::ReportCompliance { failing: 2 }));
    let (ok, action) = posture_step(false, status(vec![false], "warn"));
    assert!(ok);
    assert!(matches!(action, PostureAction::ReportCompliance { failing: 1 }));
    let (ok, _) = posture_step(false, status(vec![], "none"));
    assert!(ok);
}

#[test]
fn config_interval_has_a_floor_and_empty_collectors_mean_defaults() {
    let (_, action) = posture_step(
        true,
        PostureMsg::ApplyPostureConfig(ApplyPostureConfig {
            interval_secs: 5,
            enabled_collectors: vec![],
            custom_scripts: vec!["disk_policy.sh".to_string()],
        }),
    );
    match action {
        PostureAction::Reconfigure { interval_secs, collectors, scripts } => {
            assert_eq!(interval_secs, 30);
            assert_eq!(collectors, None);
            assert_eq!(scripts, vec!["disk_policy.sh".to_string()]);
        }
        other => panic!("{other:?}"),
    }
    let (_, action) = posture_step(
        true,
        PostureMsg::ApplyPostureConfig(ApplyPostureConfig {
            interval_secs: 120,
            enabled_collectors: vec!["os".to_string()],
            custom_scripts: vec![],
        }),
    );
    match action {
        PostureAction::Reconfigure { interval_secs, collectors, .. } => {
            assert_eq!(interval_secs, 120);
            assert_eq!(collectors, Some(vec!["os".to_string()]));
        }
        other => panic!("{other:?}"),
    }
}

#[test]
fn other_posture_messages() {
    assert!(matches!(posture_step(true, PostureMsg::Recheck(Recheck)).1, PostureAction::CollectOnce));
    assert!(matches!(
        posture_step(true, PostureMsg::TriggerInitialCollect(TriggerInitialCollect)).1,
        PostureAction::CollectAndReportFull
    ));
    assert!(matches!(
        posture_step(true, PostureMsg::CollectorChanged(CollectorChanged)).1,
        PostureAction::Nothing
    ));
    assert!(matches!(
        posture_step(true, PostureMsg::GetPostureEngine(GetPostureEngine)).1,
        PostureAction::Nothing
    ));
    assert!(matches!(
        posture_step(false, PostureMsg::ShutdownPosture(ShutdownPosture)),
        (false, PostureAction::Stop)
    ));
    assert!(matches!(posture_step(true, PostureMsg::LoopExited).1, PostureAction::Restart));
}

#[test]
fn presence_running_unless_cancelled() {
    assert!(presence_status(7, false, false).running);
    assert!(presence_status(7, true, false).running);
    assert!(!presence_status(7, true, true).running);
    assert_eq!(presence_status(7, true, true).network_id, 7);
}
