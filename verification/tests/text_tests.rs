use tunnet::output::{short_endpoint, Output};
use tunnet::text::{decimal_string, default_access_mode, default_region, metrics_port, score_color};
use tunnet::underlay::{choose_gateway, default_gateway_v4, default_uplink_name, UnderlayInfo};
use tunnet::flow::IpAddress;

#[test]
fn paint_only_on_colour_terminals() {
    let plain = Output::new(false, false);
    assert_eq!(plain.green("ok"), "ok");
    let json = Output::new(true, true);
    assert_eq!(json.red("x"), "x");
    let tty = Output::new(false, true);
    assert_eq!(tty.paint("35", "hi"), "\x1b[35mhi\x1b[0m");
    assert_eq!(tty.green("ok"), "\x1b[32mok\x1b[0m");
    assert_eq!(tty.red("ok"), "\x1b[31mok\x1b[0m");
    assert_eq!(tty.dim("ok"), "\x1b[2mok\x1b[0m");
    assert_eq!(tty.bold("ok"), "\x1b[1mok\x1b[0m");
    assert_eq!(tty.cyan("ok"), "\x1b[36mok\x1b[0m");
    assert_eq!(tty.yellow("ok"), "\x1b[33mok\x1b[0m");
    assert_eq!(tty.online_dot(true), "\x1b[32m●\x1b[0m");
    assert_eq!(plain.online_dot(false), "○");
}

#[test]
fn short_endpoint_keeps_short_ids() {
    assert_eq!(short_endpoint("abcdef123456"), "abcdef123456");
    assert_eq!(short_endpoint("0123456789abcdef"), "012345…cdef");
}

#[test]
fn metrics_port_is_after_last_colon() {
    assert_eq!(metrics_port("127.0.0.1:9100"), "9100");
    assert_eq!(metrics_port("[::1]:9200"), "9200");
    assert_eq!(metrics_port("9300"), "9300");
    assert_eq!(metrics_port("host:"), "");
}

#[test]
fn relay_defaults() {
    assert_eq!(default_region(), "unknown");
    assert_eq!(default_access_mode(), "open");
}

#[test]
fn decimal_and_score_colours() {
    assert_eq!(decimal_string(0), "0");
    assert_eq!(decimal_string(4294967295), "4294967295");
    assert_eq!(decimal_string(18446744073709551615), "18446744073709551615");
    let tty = Output::new(false, true);
    assert_eq!(score_color(&tty, 80), "\x1b[32m80\x1b[0m");
    assert_eq!(score_color(&tty, 79), "\x1b[33m79\x1b[0m");
    assert_eq!(score_color(&tty, 50), "\x1b[33m50\x1b[0m");
    assert_eq!(score_color(&tty, 49), "\x1b[31m49\x1b[0m");
}

fn info(gateway: Option<IpAddress>) -> UnderlayInfo {
    UnderlayInfo {
        interface_index: 2,
        interface_name: "eth0".into(),
        gateway,
        local_ipv4: vec![],
        local_ipv6: vec![],
        mtu: Some(1500),
        dns_servers: vec![],
    }
}

#[test]
fn underlay_gateway_and_uplink() {
    let v4 = IpAddress::V4(u32::from_be_bytes([192, 168, 1, 1]));
    assert_eq!(default_gateway_v4(Some(info(Some(v4)))), Some(u32::from_be_bytes([192, 168, 1, 1])));
    assert_eq!(default_gateway_v4(Some(info(Some(IpAddress::V6(1))))), None);
    assert_eq!(default_gateway_v4(None), None);
    assert_eq!(default_uplink_name(Some(info(None))), Some("eth0".to_string()));
    assert_eq!(default_uplink_name(None), None);
    assert_eq!(choose_gateway(&[], &[5], &[7], &[]), Some(IpAddress::V6(5)));
    assert_eq!(choose_gateway(&[], &[], &[7], &[9]), Some(IpAddress::V4(7)));
    assert_eq!(choose_gateway(&[], &[], &[], &[]), None);
}
