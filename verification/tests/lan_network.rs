use netools::net::{ipv4_from_octets, ipv4_to_string, parse_ipv4_str, prefix_from_netmask, scan_targets, Ipv4Network};

#[test]
fn parses_and_normalizes_cidr() {
    let network = Ipv4Network::parse("192.168.10.42/24").unwrap();
    assert_eq!(network.to_text(), "192.168.10.0/24");
    assert_eq!(network.broadcast(), ipv4_from_octets(192, 168, 10, 255));
    assert_eq!(network.usable_host_count(), 254);
}

#[test]
fn subrange_boundaries_remain_scannable() {
    let local = Ipv4Network::parse("192.168.10.0/24").unwrap();
    let range = Ipv4Network::parse("192.168.10.36/30").unwrap();
    let targets = scan_targets(range, local).unwrap();
    assert_eq!(targets.len(), 4);
    assert_eq!(targets[0], ipv4_from_octets(192, 168, 10, 36));
    assert_eq!(targets[3], ipv4_from_octets(192, 168, 10, 39));
}

#[test]
fn rejects_oversized_scan() {
    let network = Ipv4Network::parse("10.0.0.0/16").unwrap();
    assert!(network.hosts().unwrap_err().contains("安全上限"));
}

#[test]
fn validates_contiguous_netmask() {
    assert_eq!(
        prefix_from_netmask(ipv4_from_octets(255, 255, 254, 0)).unwrap(),
        23
    );
    assert!(prefix_from_netmask(ipv4_from_octets(255, 0, 255, 0)).is_err());
}

#[test]
fn local_network_ends_are_not_targets() {
    let local = Ipv4Network::parse("192.168.10.0/30").unwrap();
    let targets = scan_targets(local, local).unwrap();
    assert_eq!(targets, vec![ipv4_from_octets(192, 168, 10, 1), ipv4_from_octets(192, 168, 10, 2)]);
}

#[test]
fn cidr_errors() {
    assert_eq!(Ipv4Network::parse("192.168.1.1").unwrap_err(), "CIDR 格式错误: 192.168.1.1");
    assert_eq!(Ipv4Network::parse("192.168.1/24").unwrap_err(), "非法 IPv4 地址: 192.168.1");
    assert_eq!(Ipv4Network::parse("10.0.0.0/x").unwrap_err(), "非法 CIDR 前缀: x");
    assert_eq!(Ipv4Network::parse("10.0.0.0/40").unwrap_err(), "CIDR 前缀必须在 0-32 之间: 40");
}

#[test]
fn zero_prefix_covers_everything() {
    let n = Ipv4Network::parse("1.2.3.4/0").unwrap();
    assert_eq!(n.network(), 0);
    assert_eq!(n.broadcast(), u32::MAX);
    assert!(n.addresses().unwrap_err().contains("4294967296"));
}

#[test]
fn hosts_of_small_network() {
    let n = Ipv4Network::parse("10.1.2.3/29").unwrap();
    let hosts = n.hosts().unwrap();
    assert_eq!(hosts.len(), 6);
    assert_eq!(hosts[0], ipv4_from_octets(10, 1, 2, 1));
    let single = Ipv4Network::parse("10.1.2.3/32").unwrap();
    assert!(single.hosts().unwrap_err().contains("没有可扫描的主机地址"));
}

#[test]
fn dotted_quad_text() {
    assert_eq!(parse_ipv4_str("8.8.4.4"), Some(ipv4_from_octets(8, 8, 4, 4)));
    assert_eq!(parse_ipv4_str("01.2.3.4"), None);
    assert_eq!(parse_ipv4_str("256.2.3.4"), None);
    assert_eq!(parse_ipv4_str("1.2.3"), None);
    assert_eq!(parse_ipv4_str("+1.2.3.4"), None);
    assert_eq!(ipv4_to_string(ipv4_from_octets(172, 16, 0, 9)), "172.16.0.9");
    assert_eq!(prefix_from_netmask(0).unwrap(), 0);
    assert_eq!(prefix_from_netmask(u32::MAX).unwrap(), 32);
}
