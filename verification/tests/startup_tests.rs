use tunnet::routes::Net4;
use tunnet::startup::{
    agent_hostname, keep_alive_enabled, managed_tunnel_mtu, remote_subnets, self_tags_wanted,
    SubnetRoute, DIRECT_MTU, DIRECT_PREFIX,
};

fn s(x: &str) -> String {
    x.to_string()
}

#[test]
fn keep_alive_reading() {
    assert!(keep_alive_enabled(None, false));
    assert!(!keep_alive_enabled(Some("0"), false));
    assert!(!keep_alive_enabled(Some("false"), false));
    assert!(!keep_alive_enabled(Some("off"), false));
    assert!(keep_alive_enabled(Some("off"), true));
    assert!(keep_alive_enabled(Some("no"), false));
    assert!(keep_alive_enabled(Some("OFF"), false));
}

#[test]
fn agent_hostname_fallbacks() {
    assert_eq!(agent_hostname(Some(s("a")), Some(s("b"))), "a");
    assert_eq!(agent_hostname(None, Some(s("b"))), "b");
    assert_eq!(agent_hostname(None, None), "tunnet-agent");
}

#[test]
fn tunnel_parameters() {
    assert_eq!(managed_tunnel_mtu(1400), 1400);
    assert_eq!(managed_tunnel_mtu(500), 576);
    assert_eq!((DIRECT_PREFIX, DIRECT_MTU), (10, 1280));
}

#[test]
fn remote_subnets_skip_own_routes() {
    let a = Net4 { addr: u32::from_be_bytes([10, 1, 0, 0]), prefix_len: 16 };
    let b = Net4 { addr: u32::from_be_bytes([10, 2, 0, 0]), prefix_len: 16 };
    let routes = vec![
        SubnetRoute { cidr: a, via_endpoint_id: s("me") },
        SubnetRoute { cidr: b, via_endpoint_id: s("peer") },
    ];
    let r = remote_subnets(&routes, &s("me"));
    assert_eq!(r.len(), 1);
    assert_eq!((r[0].addr, r[0].prefix_len), (b.addr, 16));
}

#[test]
fn self_tags_are_normalised() {
    let tags = vec![s(" Tag:Web "), s("tag:tag:DB"), s("  "), s("tag:"), s("ÄRZTE"), s("tag: x")];
    // Only exact lowercase `tag:` prefixes are stripped; the rest is lowercased.
    assert_eq!(
        self_tags_wanted(&tags),
        vec![s("tag:web"), s("db"), s("ärzte"), s(" x")]
    );
}

#[test]
fn node_switches_follow_flags() {
    let args = tunnet::startup::RunArgs {
        ifname: s("tunnet0"),
        poll_secs: 30,
        metrics_bind: s("127.0.0.1:9100"),
        disable_gossip: true,
        recorder: false,
        no_mdns: false,
        keep_alive: false,
        no_encrypt_state: false,
        wintun_file: None,
    };
    let sw = tunnet::startup::node_switches(&args, Some("off"), false, true, true);
    assert!(!sw.keep_alive && !sw.gossip && sw.mdns);
    let sw = tunnet::startup::node_switches(&args, None, true, false, true);
    assert!(sw.keep_alive && sw.gossip && !sw.mdns);
}
