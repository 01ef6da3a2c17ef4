use netools::cli::{parse_cli_args, CliCommand};
use netools::diagnostic::{diagnose_limits, diagnostic_status, normalize_target, summarize, DiagnosticStatus};
use netools::net::{ipv4_from_octets, ipv4_to_string, parse_ipv4_str, Ipv4Network};
use netools::num::{decimal_exec, parse_unsigned_exec};

#[test]
fn dotted_quad_roundtrip_examples() {
    for a in [0u32, 1, 255, 256, 0x0a00_0001, 0xc0a8_0a2a, u32::MAX] {
        assert_eq!(parse_ipv4_str(&ipv4_to_string(a)), Some(a));
    }
}

#[test]
fn decimal_roundtrip_examples() {
    for n in [0u64, 7, 10, 65535, 1_000_000, u64::MAX] {
        let text = decimal_exec(n);
        assert_eq!(parse_unsigned_exec(&text, u64::MAX), Some(n));
    }
    let text = decimal_exec(70000);
    assert_eq!(parse_unsigned_exec(&text, 65535), None);
}

#[test]
fn network_contains_its_origin_examples() {
    for (ip, prefix) in [(ipv4_from_octets(192, 168, 10, 42), 24u8), (ipv4_from_octets(10, 1, 2, 3), 0), (ipv4_from_octets(10, 1, 2, 3), 32)] {
        let n = Ipv4Network::from_ip(ip, prefix);
        assert!(n.contains(ip));
        assert!(n.network() <= ip && ip <= n.broadcast());
    }
}

#[test]
fn same_network_examples() {
    let a = ipv4_from_octets(172, 16, 5, 1);
    let b = ipv4_from_octets(172, 16, 200, 9);
    assert!(Ipv4Network::from_ip(a, 16).contains(b));
    assert_eq!(Ipv4Network::from_ip(a, 16).network(), Ipv4Network::from_ip(b, 16).network());
    assert!(!Ipv4Network::from_ip(a, 24).contains(b));
}

#[test]
fn summary_counts_every_step_example() {
    let steps = [
        DiagnosticStatus::Skipped,
        DiagnosticStatus::Passed,
        DiagnosticStatus::Failed,
        DiagnosticStatus::Failed,
    ];
    let s = summarize(&steps);
    assert_eq!(s.passed + s.warnings + s.failed + s.skipped, steps.len());
    assert_eq!(s.status, DiagnosticStatus::Warning);
    assert_eq!(summarize(&[]).status, DiagnosticStatus::Failed);
}

#[test]
fn limits_and_labels() {
    assert_eq!(diagnose_limits(0, 0, 0), (100, 1, 1));
    assert_eq!(diagnose_limits(99_999, 200, 99), (30000, 64, 20));
    assert_eq!(diagnose_limits(2000, 20, 4), (2000, 20, 4));
    assert_eq!(diagnostic_status(DiagnosticStatus::Skipped), "skipped");
    assert_eq!(diagnostic_status(DiagnosticStatus::Warning), "warning");
}

#[test]
fn subcommand_aliases_examples() {
    let rest = ["example.com", "--timeout", "500", "--json", "--no-trace"];
    let with = |sub: &str| {
        let mut args = vec!["netools", sub];
        args.extend_from_slice(&rest);
        parse_cli_args(&args)
    };
    assert_eq!(with("doctor"), with("diagnose"));
    assert_eq!(with("traceroute"), with("trace"));
    let lan = |sub: &str| parse_cli_args(&["netools", sub, "192.168.1.0/24", "--count", "3"]);
    match (lan("ip-suggest").unwrap().command, lan("lan-scan").unwrap().command) {
        (
            CliCommand::LanScan { cidr: c1, timeout_ms: t1, concurrency: n1, suggestion_count: s1, suggest_only: true },
            CliCommand::LanScan { cidr: c2, timeout_ms: t2, concurrency: n2, suggestion_count: s2, suggest_only: false },
        ) => {
            assert_eq!((c1, t1, n1, s1), (c2, t2, n2, s2));
        }
        other => panic!("unexpected {:?}", other),
    }
    assert_eq!(
        parse_cli_args(&["netools", "ip-suggest", "--count", "x"]),
        parse_cli_args(&["netools", "lan-scan", "--count", "x"])
    );
}

#[test]
fn bare_host_means_https_examples() {
    for host in ["example.com", "  example.org:8443 ", "10.0.0.1/path"] {
        let a = normalize_target(host);
        let b = normalize_target(&format!("https://{}", host.trim()));
        match (a, b) {
            (Ok(x), Ok(y)) => {
                assert_eq!((x.host, x.url, x.scheme, x.port), (y.host, y.url, y.scheme, y.port));
            }
            (Err(x), Err(y)) => assert_eq!(x, y),
            _ => panic!("the two forms disagree for {}", host),
        }
    }
    assert!(normalize_target(" \t ").is_err());
}
