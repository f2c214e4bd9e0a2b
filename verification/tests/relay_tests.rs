use tunnet::relay::{
    bearer_token, billable_entries, check_register_body, check_usage_body, heartbeat_status,
    metering_enabled, text_eq, ConnectivityRelayRegisterBody, ConnectivityRelayRegisterResponse,
    ConnectivityRelayUsageBody, ConnectivityRelayUsageEntry,
};
use tunnet::text::{default_access_mode, default_region};

fn body(url: &str, mode: &str) -> ConnectivityRelayRegisterBody {
    ConnectivityRelayRegisterBody {
        url: url.into(),
        region: default_region(),
        qad_enabled: false,
        metrics_url: None,
        access_mode: mode.into(),
    }
}

#[test]
fn bearer_tokens() {
    assert_eq!(bearer_token(Some("Bearer abc")), Some("abc".to_string()));
    assert_eq!(bearer_token(Some("Bearer ")), Some(String::new()));
    assert_eq!(bearer_token(Some("bearer abc")), None);
    assert_eq!(bearer_token(None), None);
}

#[test]
fn register_body_checks() {
    assert!(check_register_body(&body("https://relay", &default_access_mode())).is_ok());
    assert!(check_register_body(&body("https://relay", "shared_token")).is_ok());
    let e = check_register_body(&body("  ", "open")).unwrap_err();
    assert_eq!((e.status, e.message), (400, "url is required"));
    let e = check_register_body(&body("https://relay", "closed")).unwrap_err();
    assert_eq!((e.status, e.message), (400, "accessMode must be open, shared_token, or http"));
    let r = ConnectivityRelayRegisterResponse {
        relay_id: "r".into(),
        name: "n".into(),
        url: "u".into(),
        metering_enabled: metering_enabled(true, None),
    };
    assert!(r.metering_enabled);
    assert!(!metering_enabled(true, Some("org")));
    assert!(!metering_enabled(false, None));
}

#[test]
fn heartbeat_statuses() {
    assert_eq!(heartbeat_status(Some("degraded")), "degraded");
    assert_eq!(heartbeat_status(Some("offline")), "offline");
    assert_eq!(heartbeat_status(Some("pending")), "pending");
    assert_eq!(heartbeat_status(Some("healthy")), "healthy");
    assert_eq!(heartbeat_status(Some("weird")), "healthy");
    assert_eq!(heartbeat_status(None), "healthy");
}

#[test]
fn usage_reports() {
    let empty = ConnectivityRelayUsageBody { entries: vec![] };
    assert_eq!(check_usage_body(&empty).unwrap_err().message, "entries must not be empty");
    let many = ConnectivityRelayUsageBody {
        entries: (0..501).map(|_| ConnectivityRelayUsageEntry { organization_id: "o".into(), bytes: 1 }).collect(),
    };
    assert_eq!(check_usage_body(&many).unwrap_err().message, "too many entries (max 500)");
    let b = ConnectivityRelayUsageBody {
        entries: vec![
            ConnectivityRelayUsageEntry { organization_id: "a".into(), bytes: 5 },
            ConnectivityRelayUsageEntry { organization_id: "".into(), bytes: 5 },
            ConnectivityRelayUsageEntry { organization_id: "b".into(), bytes: 0 },
            ConnectivityRelayUsageEntry { organization_id: "c".into(), bytes: 9 },
        ],
    };
    assert!(check_usage_body(&b).is_ok());
    assert_eq!(billable_entries(&b), vec![0, 3]);
    assert!(text_eq("x", "x"));
    assert!(!text_eq("x", "xy"));
}
