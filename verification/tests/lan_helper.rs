use netools::lan::{
    build_lan_info, format_lan_info, ipv4_sort_key, is_mac_address, is_private_ipv4,
    normalize_mac, parse_linux_default_route, parse_neighbor_table, parse_windows_default_route,
    InterfaceAddress, RouteHint,
};
use netools::net::ipv4_from_octets;
use netools::scan::{plan_scan, scan_findings, ProbeObservation};
use std::collections::HashMap;

fn chars(s: &str) -> Vec<char> {
    s.chars().collect()
}

#[test]
fn parses_neighbor_tables() {
    let text = "? (192.168.1.1) at aa:bb:cc:dd:ee:ff on en0\n\
                192.168.1.20 dev eth0 lladdr 11:22:33:44:55:66 REACHABLE\n\
                192.168.1.30  77-88-99-aa-bb-cc dynamic";
    let rows = parse_neighbor_table(text);
    assert_eq!(rows.len(), 3);
    assert_eq!(rows[&ipv4_from_octets(192, 168, 1, 30)], "77:88:99:aa:bb:cc");
}

#[test]
fn parses_route_outputs() {
    let linux = parse_linux_default_route(
        "default via 192.168.1.1 dev eth0 proto dhcp src 192.168.1.42 metric 100",
    );
    assert_eq!(linux.interface.as_deref(), Some("eth0"));
    assert_eq!(linux.gateway, Some(ipv4_from_octets(192, 168, 1, 1)));

    let windows = parse_windows_default_route(
        "0.0.0.0          0.0.0.0      10.0.0.1      10.0.0.42     25",
    );
    assert_eq!(windows.local_ip, Some(ipv4_from_octets(10, 0, 0, 42)));
    assert_eq!(windows.gateway, Some(ipv4_from_octets(10, 0, 0, 1)));
}

#[test]
fn neighbor_table_skips_placeholder_macs_and_keeps_last() {
    let text = "10.0.0.1 dev eth0 lladdr 00:00:00:00:00:00 FAILED\n\
                10.0.0.2 ff:ff:ff:ff:ff:ff static\n\
                10.0.0.3 at AA:BB:CC:DD:EE:01\n\
                10.0.0.3 at AA:BB:CC:DD:EE:02\n\
                no address here";
    let rows = parse_neighbor_table(text);
    assert_eq!(rows.len(), 1);
    assert_eq!(rows[&ipv4_from_octets(10, 0, 0, 3)], "aa:bb:cc:dd:ee:02");
}

#[test]
fn route_parsers_leave_unknown_fields_empty() {
    let linux = parse_linux_default_route("default via not-an-ip dev wlan0");
    assert_eq!(linux.gateway, None);
    assert_eq!(linux.interface.as_deref(), Some("wlan0"));
    assert_eq!(linux.local_ip, None);
    let windows = parse_windows_default_route("Network Destination Netmask\n10.0.0.0 255.0.0.0 On-link 10.0.0.5 25");
    assert_eq!(windows.gateway, None);
    assert_eq!(windows.local_ip, None);
    let empty = RouteHint::empty();
    assert!(empty.interface.is_none() && empty.gateway.is_none() && empty.local_ip.is_none());
}

#[test]
fn mac_helpers() {
    assert!(is_mac_address(&chars("aa:bb:cc:dd:ee:ff")));
    assert!(!is_mac_address(&chars("aa:bb:cc:dd:ee")));
    assert!(!is_mac_address(&chars("aa:bb:cc:dd:ee:fg")));
    assert!(!is_mac_address(&chars("aaa:bb:cc:dd:ee:ff")));
    assert_eq!(normalize_mac("AA-BB-CC-DD-EE-FF"), "aa:bb:cc:dd:ee:ff");
}

#[test]
fn address_classes() {
    assert!(is_private_ipv4("10.1.2.3"));
    assert!(is_private_ipv4("172.31.0.1"));
    assert!(!is_private_ipv4("172.32.0.1"));
    assert!(is_private_ipv4("192.168.0.1"));
    assert!(!is_private_ipv4("8.8.8.8"));
    assert!(!is_private_ipv4("not an ip"));
    assert_eq!(ipv4_sort_key("0.0.1.2"), 258);
    assert_eq!(ipv4_sort_key("x"), u32::MAX);
}

fn addr(name: &str, internal: bool, ip: u32, mask: Option<u32>, mac: Option<&str>) -> InterfaceAddress {
    InterfaceAddress {
        name: name.to_string(),
        internal,
        ip,
        netmask: mask,
        mac: mac.map(|m| m.to_string()),
    }
}

fn sample_addresses() -> Vec<InterfaceAddress> {
    vec![
        addr("lo", true, ipv4_from_octets(127, 0, 0, 1), Some(ipv4_from_octets(255, 0, 0, 0)), None),
        addr("wan", false, ipv4_from_octets(203, 0, 113, 7), Some(ipv4_from_octets(255, 255, 255, 0)), None),
        addr("eth0", false, ipv4_from_octets(192, 168, 1, 42), Some(ipv4_from_octets(255, 255, 255, 0)), Some("AA-BB-CC-DD-EE-FF")),
        addr("docker0", false, ipv4_from_octets(172, 17, 0, 1), Some(ipv4_from_octets(255, 255, 0, 0)), None),
        addr("nomask", false, ipv4_from_octets(10, 9, 9, 9), None, None),
        addr("ll", false, ipv4_from_octets(169, 254, 1, 1), Some(ipv4_from_octets(255, 255, 0, 0)), None),
    ]
}

#[test]
fn lan_info_prefers_private_interfaces_and_the_route() {
    let route = RouteHint { interface: Some("eth0".to_string()), gateway: Some(ipv4_from_octets(192, 168, 1, 1)), local_ip: None };
    let info = build_lan_info(&sample_addresses(), &route, None).unwrap();
    let names: Vec<&str> = info.interfaces.iter().map(|i| i.name.as_str()).collect();
    assert_eq!(names, vec!["eth0", "docker0", "wan"]);
    assert_eq!(info.interface_name, "eth0");
    assert_eq!(info.address, "192.168.1.42");
    assert_eq!(info.netmask, "255.255.255.0");
    assert_eq!(info.prefix, 24);
    assert_eq!(info.cidr, "192.168.1.0/24");
    assert_eq!(info.suggested_cidr, "192.168.1.0/24");
    assert_eq!(info.broadcast, "192.168.1.255");
    assert_eq!(info.gateway.as_deref(), Some("192.168.1.1"));
    assert_eq!(info.mac.as_deref(), Some("aa:bb:cc:dd:ee:ff"));
    assert_eq!(
        format_lan_info(&info),
        "interface: eth0\naddress: 192.168.1.42\nnetmask: 255.255.255.0 (/24)\nsubnet: 192.168.1.0/24\nsuggested_scan: 192.168.1.0/24\nbroadcast: 192.168.1.255\ngateway: 192.168.1.1\nmac: aa:bb:cc:dd:ee:ff"
    );
}

#[test]
fn lan_info_selection_rules() {
    // By the route's local address, and a wide network suggests its /24.
    let route = RouteHint { interface: None, gateway: None, local_ip: Some(ipv4_from_octets(172, 17, 0, 1)) };
    let info = build_lan_info(&sample_addresses(), &route, None).unwrap();
    assert_eq!(info.interface_name, "docker0");
    assert_eq!(info.cidr, "172.17.0.0/16");
    assert_eq!(info.suggested_cidr, "172.17.0.0/24");
    assert_eq!(info.gateway, None);
    assert!(format_lan_info(&info).ends_with("gateway: unknown\nmac: unknown"));
    // Without any hint the first (private) interface wins.
    let info = build_lan_info(&sample_addresses(), &RouteHint::empty(), Some("   ")).unwrap();
    assert_eq!(info.interface_name, "eth0");
    // An explicit address wins over the route, and a missing one is an error.
    let route = RouteHint { interface: Some("eth0".to_string()), gateway: None, local_ip: None };
    let info = build_lan_info(&sample_addresses(), &route, Some(" 203.0.113.7 ")).unwrap();
    assert_eq!(info.interface_name, "wan");
    assert_eq!(
        build_lan_info(&sample_addresses(), &route, Some("10.0.0.1")).unwrap_err(),
        "所选网络接口 10.0.0.1 已不可用，请重新打开此页面后重试"
    );
}

#[test]
fn lan_info_errors() {
    let only_loopback = vec![addr("lo", true, ipv4_from_octets(127, 0, 0, 1), Some(ipv4_from_octets(255, 0, 0, 0)), None)];
    assert_eq!(build_lan_info(&only_loopback, &RouteHint::empty(), None).unwrap_err(), "未找到可用的 IPv4 网络接口");
    let bad_mask = vec![addr("eth0", false, ipv4_from_octets(192, 168, 1, 2), Some(ipv4_from_octets(255, 0, 255, 0)), None)];
    assert_eq!(build_lan_info(&bad_mask, &RouteHint::empty(), None).unwrap_err(), "不连续的 IPv4 子网掩码: 255.0.255.0");
}

fn home_info() -> netools::lan::LanInfo {
    let route = RouteHint { interface: Some("eth0".to_string()), gateway: Some(ipv4_from_octets(192, 168, 1, 1)), local_ip: None };
    build_lan_info(&sample_addresses(), &route, None).unwrap()
}

#[test]
fn scan_plan_checks_the_range() {
    let info = home_info();
    let plan = plan_scan(&info, Some(" 192.168.1.40/30 "), 50, 0, 500).unwrap();
    assert_eq!(
        plan.targets,
        vec![
            ipv4_from_octets(192, 168, 1, 40),
            ipv4_from_octets(192, 168, 1, 41),
            ipv4_from_octets(192, 168, 1, 42),
            ipv4_from_octets(192, 168, 1, 43)
        ]
    );
    assert_eq!(plan.timeout_ms, 100);
    assert_eq!(plan.concurrency, 1);
    assert_eq!(plan.suggestion_count, 100);
    let plan = plan_scan(&info, None, 9000, 500, 5).unwrap();
    assert_eq!(plan.targets.len(), 254);
    assert_eq!(plan.targets[0], ipv4_from_octets(192, 168, 1, 1));
    assert_eq!((plan.timeout_ms, plan.concurrency, plan.suggestion_count), (5000, 64, 5));
    assert_eq!(
        plan_scan(&info, Some("10.0.0.0/24"), 700, 32, 10).unwrap_err(),
        "扫描范围 10.0.0.0/24 不在当前直连子网 192.168.1.0/24 内；第一版仅允许扫描本地子网"
    );
    assert_eq!(
        plan_scan(&info, Some("192.168.1.255/32"), 700, 32, 10).unwrap_err(),
        "扫描范围 192.168.1.255/32 内没有可探测的本机子网地址"
    );
    assert_eq!(plan_scan(&info, Some("192.168.1.0"), 700, 32, 10).unwrap_err(), "CIDR 格式错误: 192.168.1.0");
}

#[test]
fn scan_plan_refuses_oversized_ranges() {
    let route = RouteHint { interface: Some("docker0".to_string()), gateway: None, local_ip: None };
    let info = build_lan_info(&sample_addresses(), &route, None).unwrap();
    assert_eq!(
        plan_scan(&info, Some("172.17.0.0/20"), 700, 32, 10).unwrap_err(),
        "扫描范围包含 4096 个地址，超过安全上限 1024；请缩小 CIDR"
    );
    let plan = plan_scan(&info, None, 700, 32, 10).unwrap();
    assert_eq!(plan.targets.len(), 255);
}

fn obs(d: u8, ping: bool, tcp: bool, ports: Vec<u16>) -> ProbeObservation {
    ProbeObservation { ip: ipv4_from_octets(192, 168, 1, d), ping, tcp, open_ports: ports }
}

#[test]
fn scan_findings_report_hosts_candidates_and_reserved() {
    let info = home_info();
    let plan = plan_scan(&info, Some("192.168.1.40/30"), 700, 32, 10).unwrap();
    let observations = vec![
        obs(43, false, false, vec![]),
        obs(42, false, false, vec![]),
        obs(41, true, true, vec![22, 80]),
        obs(40, false, false, vec![]),
    ];
    let mut neighbors = HashMap::new();
    neighbors.insert(ipv4_from_octets(192, 168, 1, 42), "aa:bb:cc:dd:ee:ff".to_string());
    let f = scan_findings(&plan, &info, &observations, &neighbors);
    assert_eq!(f.cidr, "192.168.1.40/30");
    assert_eq!(f.scanned_hosts, 4);
    assert_eq!(f.active_hosts.len(), 2);
    assert_eq!(f.active_hosts[0].ip, "192.168.1.41");
    assert_eq!(f.active_hosts[0].methods, vec!["icmp", "tcp"]);
    assert_eq!(f.active_hosts[0].open_ports, vec![22, 80]);
    assert_eq!(f.active_hosts[0].mac, None);
    assert_eq!(f.active_hosts[0].reserved_reason, None);
    assert_eq!(f.active_hosts[1].ip, "192.168.1.42");
    assert_eq!(f.active_hosts[1].methods, vec!["arp", "local"]);
    assert_eq!(f.active_hosts[1].mac.as_deref(), Some("aa:bb:cc:dd:ee:ff"));
    assert_eq!(f.active_hosts[1].reserved_reason.as_deref(), Some("本机地址"));
    assert_eq!(f.candidates, vec!["192.168.1.40", "192.168.1.43"]);
    assert_eq!(f.reserved.len(), 1);
    assert_eq!(f.reserved[0].ip, "192.168.1.42");
    assert_eq!(f.reserved[0].reason, "本机地址");
    assert!(f.warning.starts_with("候选地址仅表示本次"));
}

#[test]
fn scan_findings_reserve_network_broadcast_and_gateway() {
    let info = home_info();
    let plan = plan_scan(&info, None, 700, 32, 3).unwrap();
    let observations = vec![obs(1, true, false, vec![]), obs(7, false, true, vec![])];
    let f = scan_findings(&plan, &info, &observations, &HashMap::new());
    let reserved: Vec<(&str, &str)> = f.reserved.iter().map(|r| (r.ip.as_str(), r.reason.as_str())).collect();
    assert_eq!(
        reserved,
        vec![
            ("192.168.1.0", "网络地址"),
            ("192.168.1.1", "默认网关"),
            ("192.168.1.42", "本机地址"),
            ("192.168.1.255", "广播地址")
        ]
    );
    assert_eq!(f.active_hosts[0].ip, "192.168.1.1");
    assert_eq!(f.active_hosts[0].reserved_reason.as_deref(), Some("默认网关"));
    assert_eq!(f.active_hosts[1].ip, "192.168.1.7");
    assert_eq!(f.candidates, vec!["192.168.1.2", "192.168.1.3", "192.168.1.4"]);
}
