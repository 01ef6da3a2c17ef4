use netools::diagnostic::{
    dns_verdict, failed_verdict, http_verdict, ping_verdict, summarize, tcp_verdict, trace_verdict,
    DiagnosticStatus, HttpCheck,
};
use netools::report::{
    count_detail_text, format_diagnostic, format_dns, format_http, format_lan_scan, format_ping,
    format_tcp_probe, format_tcp_scan, format_trace, http_detail_text, tcp_detail_text,
    trace_detail_text, DnsLine, HopLine, HttpLine, PingLine, StepLine, StepLines, TcpLine,
};
use netools::scan::{LanHost, ReservedAddress, ScanFindings};

fn findings() -> ScanFindings {
    ScanFindings {
        cidr: "192.168.1.0/30".to_string(),
        scanned_hosts: 2,
        active_hosts: vec![
            LanHost {
                ip: "192.168.1.1".to_string(),
                mac: Some("aa:bb:cc:dd:ee:ff".to_string()),
                methods: vec!["icmp".to_string(), "arp".to_string()],
                open_ports: vec![22, 80],
                reserved_reason: Some("默认网关".to_string()),
            },
            LanHost {
                ip: "192.168.1.2".to_string(),
                mac: None,
                methods: vec!["tcp".to_string()],
                open_ports: vec![],
                reserved_reason: None,
            },
        ],
        candidates: vec!["192.168.1.3".to_string()],
        reserved: vec![ReservedAddress { ip: "192.168.1.0".to_string(), reason: "网络地址".to_string() }],
        warning: "check DHCP".to_string(),
    }
}

#[test]
fn scan_report_text() {
    let text = format_lan_scan(&findings(), "eth0", "1234", false);
    let expected = format!(
        "scan 192.168.1.0/30 via eth0 (2 hosts, 2 active, 1234ms)\n{:<15} {:<17} via=icmp,arp ports=[22, 80] [默认网关]\n{:<15} {:<17} via=tcp\n\n疑似空闲候选:\n  192.168.1.3\n\nwarning: check DHCP",
        "192.168.1.1", "aa:bb:cc:dd:ee:ff", "192.168.1.2", "-"
    );
    assert_eq!(text, expected);
    assert_eq!(
        format_lan_scan(&findings(), "eth0", "1234", true),
        "疑似空闲候选:\n  192.168.1.3\n\nwarning: check DHCP"
    );
}

#[test]
fn diagnostic_report_text() {
    let summary = summarize(&[
        DiagnosticStatus::Passed,
        DiagnosticStatus::Warning,
        DiagnosticStatus::Failed,
        DiagnosticStatus::Passed,
        DiagnosticStatus::Skipped,
    ]);
    let steps = StepLines {
        ping: StepLine { status: DiagnosticStatus::Passed, detail: count_detail_text(Some(&[true, true, true, true][..]), &None, "replies") },
        dns: StepLine { status: DiagnosticStatus::Warning, detail: count_detail_text(Some(&[true, false, true][..]), &None, "resolvers") },
        tcp: StepLine { status: DiagnosticStatus::Failed, detail: tcp_detail_text(Some(false), &Some("x".to_string())) },
        http: StepLine { status: DiagnosticStatus::Passed, detail: http_detail_text(Some((200, "87")), &None) },
        traceroute: StepLine { status: DiagnosticStatus::Skipped, detail: trace_detail_text(None, &None) },
    };
    let text = format_diagnostic("example.com", 443, &summary, "1500", &steps);
    let expected = format!(
        "diagnostic report for example.com (example.com:443)\noverall: warning | passed=2 warnings=1 failed=1 skipped=1 | 1500ms\n{:<10} {:<7} 4/4 replies\n{:<10} {:<7} 2/3 resolvers\n{:<10} {:<7} closed\n{:<10} {:<7} HTTP 200 87ms\n{:<10} {:<7} disabled",
        "ping", "passed", "dns", "warning", "tcp", "failed", "http/tls", "passed", "traceroute", "skipped"
    );
    assert_eq!(text, expected);
}

#[test]
fn detail_texts_fall_back_to_errors() {
    assert_eq!(count_detail_text(None, &Some("所有 Ping 探测均失败".to_string()), "replies"), "所有 Ping 探测均失败");
    assert_eq!(count_detail_text(None, &None, "replies"), "");
    assert_eq!(tcp_detail_text(Some(true), &None), "open");
    assert_eq!(tcp_detail_text(None, &Some("连接失败".to_string())), "连接失败");
    assert_eq!(http_detail_text(None, &Some("请求失败".to_string())), "请求失败");
    assert_eq!(trace_detail_text(Some(7), &None), "7 hops");
    assert_eq!(trace_detail_text(None, &Some("traceroute 失败".to_string())), "traceroute 失败");
}

#[test]
fn step_verdicts() {
    let v = ping_verdict(&[true, true, true, true]);
    assert_eq!(v.status, DiagnosticStatus::Passed);
    assert_eq!(v.error, None);
    let v = ping_verdict(&[false, false, false, false]);
    assert_eq!(v.status, DiagnosticStatus::Failed);
    assert_eq!(v.error.as_deref(), Some("所有 Ping 探测均失败"));
    let v = dns_verdict(&[false, true, false]);
    assert_eq!(v.status, DiagnosticStatus::Warning);
    assert_eq!(v.error, None);
    assert_eq!(dns_verdict(&[false, false, false]).error.as_deref(), Some("所有 DNS 查询均失败"));
    let v = tcp_verdict(false, &Some("超时 (1000 ms)".to_string()));
    assert_eq!(v.status, DiagnosticStatus::Failed);
    assert_eq!(v.error.as_deref(), Some("超时 (1000 ms)"));
    assert_eq!(tcp_verdict(true, &None).status, DiagnosticStatus::Passed);
    let check = HttpCheck { status: 200, error: None, tls_days_until_expiry: Some(10) };
    let v = http_verdict(&check, true);
    assert_eq!(v.status, DiagnosticStatus::Warning);
    assert_eq!(http_verdict(&check, false).status, DiagnosticStatus::Passed);
    assert_eq!(trace_verdict(None).status, DiagnosticStatus::Skipped);
    assert_eq!(trace_verdict(Some(Ok(5))).status, DiagnosticStatus::Passed);
    let v = trace_verdict(Some(Ok(0)));
    assert_eq!(v.status, DiagnosticStatus::Failed);
    assert_eq!(v.error.as_deref(), Some("未解析到任何路由跳点"));
    let v = trace_verdict(Some(Err("traceroute 失败".to_string())));
    assert_eq!(v.status, DiagnosticStatus::Failed);
    assert_eq!(v.error.as_deref(), Some("traceroute 失败"));
    let v = failed_verdict("boom".to_string());
    assert_eq!((v.status, v.error.as_deref()), (DiagnosticStatus::Failed, Some("boom")));
}

#[test]
fn ping_report_text() {
    let rows = vec![
        PingLine { seq: 0, success: true, from: "8.8.8.8".to_string(), rtt: "12.30".to_string(), error: None },
        PingLine { seq: 1, success: false, from: "8.8.8.8".to_string(), rtt: "0.00".to_string(), error: Some("Request timed out.".to_string()) },
        PingLine { seq: 2, success: false, from: "x".to_string(), rtt: "0.00".to_string(), error: None },
    ];
    assert_eq!(
        format_ping(&rows),
        "seq=0 from=8.8.8.8 rtt=12.30ms\nseq=1 failed: Request timed out.\nseq=2 failed: unknown"
    );
    assert_eq!(format_ping(&vec![]), "");
}

#[test]
fn tcp_report_text() {
    let open = TcpLine {
        host: "example.com".to_string(),
        port: 443,
        success: true,
        rtt: "20.50".to_string(),
        service: Some("HTTPS/TLS (probable)".to_string()),
        error: None,
    };
    let closed = TcpLine {
        host: "example.com".to_string(),
        port: 81,
        success: false,
        rtt: "1000.10".to_string(),
        service: None,
        error: Some("超时 (1000 ms)".to_string()),
    };
    assert_eq!(format_tcp_probe(&open), "example.com:443 open rtt=20.50ms service=HTTPS/TLS (probable)");
    assert_eq!(
        format_tcp_scan(&vec![open, closed]),
        "example.com:443 open rtt=20.50ms service=HTTPS/TLS (probable)\nexample.com:81 closed rtt=1000.10ms error=超时 (1000 ms)"
    );
    assert_eq!(format_tcp_scan(&vec![]), "");
}

#[test]
fn dns_report_text() {
    let rows = vec![
        DnsLine {
            server: "1.1.1.1".to_string(),
            success: true,
            rtt: "9.87".to_string(),
            records: vec!["93.184.216.34".to_string(), "93.184.216.35".to_string()],
            error: None,
        },
        DnsLine { server: "system".to_string(), success: false, rtt: "0.00".to_string(), records: vec![], error: Some("无返回记录".to_string()) },
    ];
    assert_eq!(format_dns(&rows), "1.1.1.1 9.87ms 93.184.216.34, 93.184.216.35\nsystem failed: 无返回记录");
}

#[test]
fn http_report_text() {
    let line = HttpLine {
        status: 200,
        status_text: "OK".to_string(),
        total: "123.46".to_string(),
        body_size: 5,
        final_url: "https://example.com/".to_string(),
        error: None,
        tls: Some(("CN=example.com".to_string(), -3)),
        body_preview: "hello".to_string(),
    };
    assert_eq!(
        format_http(&line),
        "200 OK 123.46ms 5 bytes\nfinal_url: https://example.com/\ntls_subject: CN=example.com\ntls_expires_in_days: -3\n\nhello"
    );
    let failed = HttpLine {
        status: 0,
        status_text: String::new(),
        total: "5.00".to_string(),
        body_size: 0,
        final_url: "http://x/".to_string(),
        error: Some("请求失败: refused".to_string()),
        tls: None,
        body_preview: String::new(),
    };
    assert_eq!(format_http(&failed), "0  5.00ms 0 bytes\nfinal_url: http://x/\nerror: 请求失败: refused");
}

#[test]
fn trace_report_text() {
    let rows = vec![
        HopLine { ttl: 1, addr: Some("10.0.0.1".to_string()), rtts: vec![Some("1.23".to_string()), None, Some("1.50".to_string())] },
        HopLine { ttl: 12, addr: None, rtts: vec![None, None, None] },
    ];
    let expected = format!(
        "{:>2} {:<20} 1.23ms * 1.50ms\n{:>2} {:<20} * * *",
        1, "10.0.0.1", 12, "*"
    );
    assert_eq!(format_trace(&rows), expected);
}
