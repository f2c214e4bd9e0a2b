use tunnet::admission::{
    auth_accept, auth_close, docs_accept, gossip_accept, recording_accept, tunnel_accept,
    tunnel_after_adopt, RecordingAdmission, TunnelAdmission, TunnelServe,
};

#[test]
fn tunnel_closed_while_dataplane_down() {
    assert_eq!(tunnel_accept(false, false), TunnelAdmission::Close { code: 1, reason: "dataplane_down" });
    assert_eq!(tunnel_accept(false, true), TunnelAdmission::Close { code: 1, reason: "dataplane_down" });
    assert_eq!(tunnel_accept(true, true), TunnelAdmission::Adopt { latency: true });
    assert_eq!(tunnel_accept(true, false), TunnelAdmission::Adopt { latency: false });
}

#[test]
fn only_bulk_tunnel_becomes_canonical() {
    assert_eq!(tunnel_after_adopt(false, false), TunnelServe::Close { code: 0, reason: "superseded" });
    assert_eq!(tunnel_after_adopt(true, false), TunnelServe::Serve { latency: false, canonical: true });
    assert_eq!(tunnel_after_adopt(true, true), TunnelServe::Serve { latency: true, canonical: false });
}

#[test]
fn auth_connections_outside_direct_mode_are_closed() {
    assert_eq!(auth_accept(false), Some((0, "not_direct")));
    assert_eq!(auth_accept(true), None);
    assert_eq!(auth_close(true), (0, "done"));
    assert_eq!(auth_close(false), (401, "auth_failed"));
}

#[test]
fn docs_and_gossip_need_an_authenticated_peer() {
    assert!(docs_accept(Some(true), true));
    assert!(!docs_accept(Some(true), false));
    assert!(!docs_accept(Some(false), true));
    assert!(!docs_accept(None, true));
    assert!(gossip_accept(None, true));
    assert!(gossip_accept(Some(true), true));
    assert!(!gossip_accept(Some(false), true));
    assert!(!gossip_accept(None, false));
}

#[test]
fn recording_needs_recorder_and_store() {
    assert_eq!(recording_accept(false, true), RecordingAdmission::Ignore);
    assert_eq!(recording_accept(true, true), RecordingAdmission::Serve);
    assert_eq!(recording_accept(true, false), RecordingAdmission::MissingStore);
}
