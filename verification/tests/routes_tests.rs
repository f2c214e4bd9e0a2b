use tunnet::routes::{
    rfc1918_nets, DesiredRoutes, DeviceProfile, Net4, RouteKind, RouteReconciler, SplitTunnelMode,
};

fn ip(a: u8, b: u8, c: u8, d: u8) -> u32 {
    u32::from_be_bytes([a, b, c, d])
}

fn profile() -> DeviceProfile {
    DeviceProfile {
        split_tunnel_mode: SplitTunnelMode::Exclude,
        split_tunnel_cidrs: vec![],
        exit_node_endpoint_id: None,
        allow_local_lan: false,
    }
}

#[test]
fn desired_includes_rfc1918_when_allow_local_lan() {
    let profile = DeviceProfile {
        exit_node_endpoint_id: Some("abc".into()),
        allow_local_lan: true,
        ..profile()
    };
    let d = DesiredRoutes {
        ifname: "tun0".into(),
        profile,
        remote_subnets: vec![],
        has_exit: true,
        underlay_hosts: vec![ip(1, 2, 3, 4)],
    };
    let gw = ip(192, 168, 1, 1);
    let set = d.to_set(Some(gw));
    assert!(set.contains(&RouteKind::ViaTun(Net4::new(0, 0).unwrap())));
    assert!(set.contains(&RouteKind::ViaGw { cidr: Net4::new(ip(10, 0, 0, 0), 8).unwrap(), gw }));
    assert!(set.contains(&RouteKind::ViaGw { cidr: Net4::host(ip(1, 2, 3, 4)), gw }));
}

#[test]
fn reconciler_diff_is_idempotent() {
    let mut r = RouteReconciler::new();
    let desired = DesiredRoutes {
        ifname: "tun0".into(),
        profile: profile(),
        remote_subnets: vec![Net4::new(ip(10, 99, 0, 0), 24).unwrap()],
        has_exit: false,
        underlay_hosts: vec![],
    };
    let first = r.reconcile(&desired, None);
    assert_eq!(first.to_add, vec![RouteKind::ViaTun(Net4::new(ip(10, 99, 0, 0), 24).unwrap())]);
    let second = r.reconcile(&desired, None);
    assert!(second.to_add.is_empty());
    assert!(second.to_del.is_empty());
    let (removed, ifname) = r.clear();
    assert_eq!(removed, first.to_add);
    assert_eq!(ifname, "tun0");
}

#[test]
fn rfc1918_has_the_three_private_ranges() {
    let nets = rfc1918_nets();
    assert_eq!(
        nets,
        vec![
            Net4::new(ip(10, 0, 0, 0), 8).unwrap(),
            Net4::new(ip(172, 16, 0, 0), 12).unwrap(),
            Net4::new(ip(192, 168, 0, 0), 16).unwrap(),
        ]
    );
}

#[test]
fn net4_refuses_long_prefix() {
    assert!(Net4::new(ip(10, 0, 0, 0), 33).is_none());
    assert!(Net4::new(ip(10, 0, 0, 0), 32).is_some());
}

#[test]
fn no_gateway_means_no_gateway_routes() {
    let d = DesiredRoutes {
        ifname: "tun0".into(),
        profile: DeviceProfile { allow_local_lan: true, exit_node_endpoint_id: Some("x".into()), ..profile() },
        remote_subnets: vec![],
        has_exit: true,
        underlay_hosts: vec![ip(1, 2, 3, 4)],
    };
    let set = d.to_set(None);
    assert!(set.iter().all(|r| matches!(r, RouteKind::ViaTun(_))));
}
