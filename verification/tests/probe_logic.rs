use netools::decode::decode_bytes;
use netools::dns::{lookup_answer, parse_record_type, query_servers, RecordKind};
use netools::fingerprint::{
    after_active_read, after_passive_read, classify, received_text, is_likely_http, port_guess, FingerprintStep,
};
use netools::http::{
    body_preview_bounds, complete_redirects, days_until_expiry, format_general_name, format_ip_name,
    GeneralNameText, tls_cert_info, cert_info, CertificateFields, check_method, http_outcome,
    redirect_allowed, REDIRECT_LIMIT, TOO_MANY_REDIRECTS,
};
use netools::lan::parse_macos_default_route;
use netools::net::ipv4_from_octets;
use netools::order::{drop_keys, sort_by_keys};
use netools::ping_output::{
    extract_error, find_ms_value, is_reply_line, parse_rtt_text, parse_source, ping_outcome,
    wait_seconds,
};
use netools::tcp::{
    connect_failure_text, discovery_ports, scan_concurrency, tcp_presence, ConnectFailure,
    ConnectOutcome,
};

fn chars(s: &str) -> Vec<char> {
    s.chars().collect()
}

#[test]
fn reply_lines_in_several_languages() {
    assert!(is_reply_line(&chars("64 bytes from 8.8.8.8: icmp_seq=0 ttl=117 time=12.3 ms")));
    assert!(is_reply_line(&chars("Reply from 10.0.0.1: bytes=32 time<1ms TTL=64")));
    assert!(is_reply_line(&chars("来自 10.0.0.1 的回复: 字节=32 时间<1ms TTL=64")));
    assert!(!is_reply_line(&chars("Request timed out.")));
}

#[test]
fn round_trip_times() {
    assert_eq!(
        parse_rtt_text("PING 8.8.8.8\n64 bytes from 8.8.8.8: icmp_seq=0 ttl=117 time=12.345 ms\n"),
        Some(("12.345".to_string(), false))
    );
    assert_eq!(
        parse_rtt_text("Reply from 10.0.0.1: bytes=32 time<1ms TTL=64"),
        Some(("1".to_string(), true))
    );
    assert_eq!(parse_rtt_text("round-trip min/avg/max = 1.0/2.0/3.0 ms"), None);
    assert_eq!(find_ms_value(&chars("x=1.2.3 ms y= 4 ms")).map(|(t, l)| (t.into_iter().collect::<String>(), l)), Some(("4".to_string(), false)));
}

#[test]
fn reply_sources() {
    assert_eq!(parse_source("64 bytes from 8.8.8.8: icmp_seq=0"), Some("8.8.8.8".to_string()));
    assert_eq!(parse_source("64 bytes from dns.google (8.8.8.8): icmp_seq=0"), Some("dns.google".to_string()));
    assert_eq!(parse_source("来自 10.0.0.1 的回复: 字节=32"), Some("10.0.0.1".to_string()));
    assert_eq!(parse_source("Reply from 192.168.1.1, bytes=32"), Some("192.168.1.1".to_string()));
    assert_eq!(parse_source("no reply at all"), None);
}

#[test]
fn failure_texts() {
    assert_eq!(extract_error("PING x\nRequest timed out.\n\n"), "Request timed out.");
    assert_eq!(extract_error("ping: cannot resolve nohost: Unknown host"), "ping: cannot resolve nohost: Unknown host");
    assert_eq!(extract_error("first\n  last words  \n   \n"), "last words");
    assert_eq!(extract_error("   "), "ping 失败");
}

#[test]
fn one_ping_run() {
    let ok = ping_outcome("64 bytes from 1.1.1.1: icmp_seq=0 ttl=57 time=9.8 ms", "", "one.one.one.one");
    assert_eq!(ok.rtt, Some(("9.8".to_string(), false)));
    assert_eq!(ok.from, "1.1.1.1");
    assert_eq!(ok.error, None);
    let failed = ping_outcome("PING example.invalid\n", "ping: example.invalid: Name or service not known: unknown host", "example.invalid");
    assert_eq!(failed.rtt, None);
    assert_eq!(failed.from, "example.invalid");
    assert_eq!(failed.error.as_deref(), Some("ping: example.invalid: Name or service not known: unknown host"));
}

#[test]
fn wait_in_whole_seconds() {
    assert_eq!(wait_seconds(0), 1);
    assert_eq!(wait_seconds(999), 1);
    assert_eq!(wait_seconds(1000), 1);
    assert_eq!(wait_seconds(1001), 2);
    assert_eq!(wait_seconds(3000), 3);
}

#[test]
fn output_decoding() {
    assert_eq!(decode_bytes("时间=1ms".as_bytes()), "时间=1ms");
    // "时间" in GBK.
    assert_eq!(decode_bytes(&[0xCA, 0xB1, 0xBC, 0xE4]), "时间");
    assert_eq!(decode_bytes(b""), "");
}

#[test]
fn banner_classification() {
    assert_eq!(classify("SSH-2.0-OpenSSH_9.0", 22).as_deref(), Some("SSH"));
    assert_eq!(classify("  +OK POP3 ready", 110).as_deref(), Some("POP3"));
    assert_eq!(classify("* OK IMAP4rev1", 143).as_deref(), Some("IMAP"));
    assert_eq!(classify("HTTP/1.1 400 Bad Request", 8080).as_deref(), Some("HTTP"));
    assert_eq!(classify("220 ProFTPD Server", 21).as_deref(), Some("FTP"));
    assert_eq!(classify("220-mail ESMTP Postfix", 25).as_deref(), Some("SMTP"));
    assert_eq!(classify("220 welcome", 2525).as_deref(), Some("SMTP/FTP (220 banner)"));
    assert_eq!(classify("hello", 9), None);
}

#[test]
fn port_knowledge() {
    assert!(is_likely_http(8080));
    assert!(is_likely_http(3000));
    assert!(!is_likely_http(22));
    assert_eq!(port_guess(22), "SSH (probable)");
    assert_eq!(port_guess(5905), "VNC (probable)");
    assert_eq!(port_guess(8443), "HTTPS/TLS (probable)");
    assert_eq!(port_guess(12345), "open");
}

#[test]
fn fingerprint_steps() {
    match after_passive_read(22, Some("SSH-2.0-x".to_string())) {
        FingerprintStep::Done(s, b) => {
            assert_eq!(s.as_deref(), Some("SSH"));
            assert_eq!(b.as_deref(), Some("SSH-2.0-x"));
        }
        FingerprintStep::SendHttpProbe => panic!("banner must be classified"),
    }
    assert!(matches!(after_passive_read(80, None), FingerprintStep::SendHttpProbe));
    match after_passive_read(443, None) {
        FingerprintStep::Done(s, b) => {
            assert_eq!(s.as_deref(), Some("HTTPS/TLS (probable)"));
            assert_eq!(b, None);
        }
        FingerprintStep::SendHttpProbe => panic!("443 is not probed"),
    }
    assert_eq!(after_active_read(80, Some("HTTP/1.0 200 OK".to_string())), (Some("HTTP".to_string()), Some("HTTP/1.0 200 OK".to_string())));
    assert_eq!(after_active_read(8080, Some("garbage".to_string())), (Some("HTTP (probable)".to_string()), Some("garbage".to_string())));
    assert_eq!(after_active_read(81, None), (Some("open".to_string()), None));
}

#[test]
fn dns_record_types_and_servers() {
    assert_eq!(parse_record_type("aaaa"), RecordKind::Aaaa);
    assert_eq!(parse_record_type("Mx"), RecordKind::Mx);
    assert_eq!(parse_record_type("caa"), RecordKind::Caa);
    assert_eq!(parse_record_type("bogus"), RecordKind::A);
    assert_eq!(query_servers(vec![]), vec!["system".to_string()]);
    assert_eq!(query_servers(vec!["1.1.1.1".to_string()]), vec!["1.1.1.1".to_string()]);
}

#[test]
fn dns_answers() {
    let ok = lookup_answer(Ok(vec!["93.184.216.34".to_string()]));
    assert!(ok.success);
    assert_eq!(ok.error, None);
    let empty = lookup_answer(Ok(vec![]));
    assert!(!empty.success);
    assert_eq!(empty.error.as_deref(), Some("无返回记录"));
    let failed = lookup_answer(Err("timed out".to_string()));
    assert!(!failed.success);
    assert!(failed.records.is_empty());
    assert_eq!(failed.error.as_deref(), Some("timed out"));
}

#[test]
fn http_helpers() {
    assert_eq!(body_preview_bounds(10), (10, false));
    assert_eq!(body_preview_bounds(4096), (4096, false));
    assert_eq!(body_preview_bounds(5000), (4096, true));
    assert_eq!(complete_redirects(vec![], "https://b/"), Vec::<String>::new());
    assert_eq!(
        complete_redirects(vec!["http://a/".to_string()], "https://b/"),
        vec!["http://a/".to_string(), "https://b/".to_string()]
    );
    assert_eq!(
        complete_redirects(vec!["http://a/".to_string(), "https://b/".to_string()], "https://b/"),
        vec!["http://a/".to_string(), "https://b/".to_string()]
    );
    assert_eq!(days_until_expiry(86400 * 10 + 5, 0), 10);
    assert_eq!(days_until_expiry(0, 86400 + 1), -1);
    assert_eq!(days_until_expiry(100, 0), 0);
    assert_eq!(days_until_expiry(-100, 0), 0);
    assert_eq!(days_until_expiry(i64::MIN, 1), (i64::MIN).wrapping_sub(1) / 86400);
}

#[test]
fn alternative_names() {
    assert_eq!(format_general_name(&GeneralNameText::Dns("example.com".to_string())), "DNS:example.com");
    assert_eq!(format_general_name(&GeneralNameText::Uri("https://x/".to_string())), "URI:https://x/");
    assert_eq!(format_general_name(&GeneralNameText::Email("a@b".to_string())), "email:a@b");
    assert_eq!(format_general_name(&GeneralNameText::Other("X400Address".to_string())), "X400Address");
    assert_eq!(format_general_name(&GeneralNameText::Ip(vec![192, 168, 0, 1])), "IP:192.168.0.1");
    let v6 = vec![0x20, 0x01, 0x0d, 0xb8, 0, 0, 0, 0, 0, 0, 0, 0, 0, 0, 0, 1];
    assert_eq!(format_ip_name(&v6), format!("IP:{:x?}", v6));
    assert_eq!(format_ip_name(&[1, 2, 3]), format!("IP:{:?}", [1u8, 2, 3]));
}

#[test]
fn tcp_helpers() {
    assert_eq!(scan_concurrency(0), 1);
    assert_eq!(scan_concurrency(100), 100);
    assert_eq!(scan_concurrency(1000), 256);
    assert_eq!(connect_failure_text(&ConnectFailure::Error("Connection refused".to_string())), "连接失败: Connection refused");
    assert_eq!(connect_failure_text(&ConnectFailure::TimedOut(1500)), "超时 (1500 ms)");
    assert_eq!(discovery_ports(), vec![22, 80, 443, 445, 3389, 9100]);
    let attempts = [
        (22, ConnectOutcome::Silent),
        (80, ConnectOutcome::Connected),
        (443, ConnectOutcome::Refused),
        (445, ConnectOutcome::Connected),
    ];
    assert_eq!(tcp_presence(&attempts), (true, vec![80, 445]));
    assert_eq!(tcp_presence(&[(22, ConnectOutcome::Refused)]), (true, vec![]));
    assert_eq!(tcp_presence(&[(22, ConnectOutcome::Silent)]), (false, vec![]));
}

#[test]
fn macos_route_output() {
    let text = "   route to: default\ndestination: default\n       mask: default\n    gateway: 192.168.1.1\n  interface: en0\n      flags: <UP,GATEWAY,DONE,STATIC,PRCLONING>";
    let hint = parse_macos_default_route(text);
    assert_eq!(hint.gateway, Some(ipv4_from_octets(192, 168, 1, 1)));
    assert_eq!(hint.interface.as_deref(), Some("en0"));
    assert_eq!(hint.local_ip, None);
}

#[test]
fn stable_sort_by_key() {
    let v = vec![(3u32, "c"), (1, "a1"), (2, "b"), (1, "a2")];
    let sorted = sort_by_keys(v);
    assert_eq!(sorted, vec![(1, "a1"), (1, "a2"), (2, "b"), (3, "c")]);
    assert_eq!(drop_keys(sorted), vec!["a1", "a2", "b", "c"]);
}

/// A self-signed Ed25519 certificate for `CN=probe.test`, serial 0x2a5f, valid
/// from 2026-11-17 20:21:28 UTC to 2036-11-14 20:21:28 UTC, whose subject
/// alternative names are `probe.test`, 10.0.0.1 and `ops@probe.test`.
const PROBE_CERT: [u8; 351] = [
    0x30, 0x82, 0x01, 0x5b, 0x30, 0x82, 0x01, 0x0d, 0xa0, 0x03, 0x02, 0x01, 0x02, 0x02, 0x02, 0x2a,
    0x5f, 0x30, 0x05, 0x06, 0x03, 0x2b, 0x65, 0x70, 0x30, 0x15, 0x31, 0x13, 0x30, 0x11, 0x06, 0x03,
    0x55, 0x04, 0x03, 0x0c, 0x0a, 0x70, 0x72, 0x6f, 0x62, 0x65, 0x2e, 0x74, 0x65, 0x73, 0x74, 0x30,
    0x1e, 0x17, 0x0d, 0x32, 0x36, 0x31, 0x31, 0x31, 0x37, 0x32, 0x30, 0x32, 0x31, 0x32, 0x38, 0x5a,
    0x17, 0x0d, 0x33, 0x36, 0x31, 0x31, 0x31, 0x34, 0x32, 0x30, 0x32, 0x31, 0x32, 0x38, 0x5a, 0x30,
    0x15, 0x31, 0x13, 0x30, 0x11, 0x06, 0x03, 0x55, 0x04, 0x03, 0x0c, 0x0a, 0x70, 0x72, 0x6f, 0x62,
    0x65, 0x2e, 0x74, 0x65, 0x73, 0x74, 0x30, 0x2a, 0x30, 0x05, 0x06, 0x03, 0x2b, 0x65, 0x70, 0x03,
    0x21, 0x00, 0x93, 0xde, 0x4a, 0x7f, 0x7b, 0x6a, 0x37, 0x8e, 0x80, 0x38, 0x69, 0x42, 0x82, 0xaf,
    0xf9, 0x64, 0x91, 0xf9, 0xfb, 0x68, 0xdc, 0x60, 0x8c, 0xd5, 0xfa, 0x2c, 0x3a, 0x40, 0x5b, 0x04,
    0xde, 0x56, 0xa3, 0x81, 0x80, 0x30, 0x7e, 0x30, 0x1d, 0x06, 0x03, 0x55, 0x1d, 0x0e, 0x04, 0x16,
    0x04, 0x14, 0x16, 0x01, 0x0e, 0xc9, 0xed, 0xa3, 0x90, 0x38, 0xc9, 0x1a, 0xfb, 0xcd, 0x66, 0x3c,
    0xd8, 0xd8, 0xf4, 0x01, 0x73, 0x60, 0x30, 0x1f, 0x06, 0x03, 0x55, 0x1d, 0x23, 0x04, 0x18, 0x30,
    0x16, 0x80, 0x14, 0x16, 0x01, 0x0e, 0xc9, 0xed, 0xa3, 0x90, 0x38, 0xc9, 0x1a, 0xfb, 0xcd, 0x66,
    0x3c, 0xd8, 0xd8, 0xf4, 0x01, 0x73, 0x60, 0x30, 0x0f, 0x06, 0x03, 0x55, 0x1d, 0x13, 0x01, 0x01,
    0xff, 0x04, 0x05, 0x30, 0x03, 0x01, 0x01, 0xff, 0x30, 0x2b, 0x06, 0x03, 0x55, 0x1d, 0x11, 0x04,
    0x24, 0x30, 0x22, 0x82, 0x0a, 0x70, 0x72, 0x6f, 0x62, 0x65, 0x2e, 0x74, 0x65, 0x73, 0x74, 0x87,
    0x04, 0x0a, 0x00, 0x00, 0x01, 0x81, 0x0e, 0x6f, 0x70, 0x73, 0x40, 0x70, 0x72, 0x6f, 0x62, 0x65,
    0x2e, 0x74, 0x65, 0x73, 0x74, 0x30, 0x05, 0x06, 0x03, 0x2b, 0x65, 0x70, 0x03, 0x41, 0x00, 0xe6,
    0x48, 0x1d, 0x11, 0x3a, 0xc8, 0x6f, 0x14, 0xa9, 0x70, 0x7d, 0x82, 0xe0, 0x9a, 0x1a, 0xa5, 0x3a,
    0x2b, 0x92, 0xaa, 0x44, 0x29, 0x8b, 0x2e, 0xc0, 0x9b, 0x4b, 0x1a, 0x05, 0xf2, 0x43, 0x45, 0x84,
    0xca, 0xce, 0x05, 0x58, 0x5f, 0xd3, 0xbe, 0x25, 0xba, 0x90, 0xeb, 0xec, 0x19, 0x83, 0x5c, 0x69,
    0x66, 0xfe, 0xe6, 0xc5, 0x33, 0x64, 0x69, 0xae, 0x1f, 0x59, 0x0c, 0x64, 0x4a, 0xa0, 0x09,
];

const PROBE_CERT_NOT_AFTER: i64 = 2110306888;

#[test]
fn tls_cert_info_reads_a_certificate() {
    let info = tls_cert_info(&PROBE_CERT, PROBE_CERT_NOT_AFTER - 86400 * 10 - 5).unwrap();
    assert_eq!(info.subject, "CN=probe.test");
    assert_eq!(info.issuer, "CN=probe.test");
    assert_eq!(info.serial, "2a5f");
    assert_eq!(info.sans, vec!["DNS:probe.test", "IP:10.0.0.1", "email:ops@probe.test"]);
    assert_eq!(info.not_before, "Nov 17 20:21:28 2026 +00:00");
    assert_eq!(info.not_after, "Nov 14 20:21:28 2036 +00:00");
    assert_eq!(info.days_until_expiry, 10);
    assert_eq!(info.signature_algorithm, "OID(1.3.101.112)");
}

#[test]
fn tls_cert_info_counts_days_toward_zero_after_expiry() {
    let info = tls_cert_info(&PROBE_CERT, PROBE_CERT_NOT_AFTER + 86400 * 2 + 1).unwrap();
    assert_eq!(info.days_until_expiry, -2);
}

#[test]
fn tls_cert_info_refuses_what_is_no_certificate() {
    assert!(tls_cert_info(&[], 0).is_none());
    assert!(tls_cert_info(&[0x30, 0x03, 0x02, 0x01, 0x05], 0).is_none());
    assert!(tls_cert_info(&PROBE_CERT[..100], 0).is_none());
}

#[test]
fn cert_info_joins_the_names_of_every_extension() {
    let fields = CertificateFields {
        subject: "CN=a".to_string(),
        issuer: "CN=b".to_string(),
        serial: "ff".to_string(),
        not_before: "x".to_string(),
        not_after: "y".to_string(),
        not_after_unix: 86400 * 3,
        signature_algorithm: "OID(1.2.3)".to_string(),
        extension_count: 3,
    };
    let exts = vec![
        Some(vec![GeneralNameText::Dns("a.example".to_string())]),
        None,
        Some(vec![GeneralNameText::Ip(vec![1, 2, 3, 4]), GeneralNameText::Other("X400Address".to_string())]),
    ];
    let info = cert_info(fields, &exts, 0);
    assert_eq!(info.sans, vec!["DNS:a.example", "IP:1.2.3.4", "X400Address"]);
    assert_eq!(info.subject, "CN=a");
    assert_eq!(info.issuer, "CN=b");
    assert_eq!(info.serial, "ff");
    assert_eq!(info.days_until_expiry, 3);
    assert_eq!(info.signature_algorithm, "OID(1.2.3)");
}

#[test]
fn check_method_upper_cases_and_checks_tokens() {
    assert_eq!(check_method("get"), Ok("GET".to_string()));
    assert_eq!(check_method("Patch"), Ok("PATCH".to_string()));
    assert_eq!(check_method("purge"), Ok("PURGE".to_string()));
    assert_eq!(check_method("m-search"), Ok("M-SEARCH".to_string()));
    assert_eq!(check_method(""), Err("非法 HTTP method: ".to_string()));
    assert_eq!(check_method("get it"), Err("非法 HTTP method: get it".to_string()));
    assert_eq!(check_method("gét"), Err("非法 HTTP method: gét".to_string()));
    assert_eq!(check_method("a(b)"), Err("非法 HTTP method: a(b)".to_string()));
}

#[test]
fn redirects_are_followed_up_to_the_limit() {
    assert_eq!(REDIRECT_LIMIT, 10);
    assert!(redirect_allowed(0));
    assert!(redirect_allowed(10));
    assert!(!redirect_allowed(11));
    assert_eq!(TOO_MANY_REDIRECTS, "redirect 次数超过 10");
}

#[test]
fn http_outcome_reports_status_body_and_chain() {
    let r = http_outcome(200, "https://b/".to_string(), vec!["https://a/".to_string()], b"hello");
    assert!(r.success);
    assert_eq!(r.status, 200);
    assert_eq!(r.status_text, "OK");
    assert_eq!(r.final_url, "https://b/");
    assert_eq!(r.redirects, vec!["https://a/", "https://b/"]);
    assert_eq!(r.body_preview, "hello");
    assert!(!r.body_truncated);
    assert_eq!(r.body_size_bytes, 5);

    let r = http_outcome(404, "https://c/".to_string(), vec![], &[0x66, 0xff, 0x6f]);
    assert!(!r.success);
    assert_eq!(r.status_text, "Not Found");
    assert!(r.redirects.is_empty());
    assert_eq!(r.body_preview, "f\u{fffd}o");

    let r = http_outcome(299, "u".to_string(), vec![], &[]);
    assert!(r.success);
    assert_eq!(r.status_text, "");
    let r = http_outcome(301, "u".to_string(), vec![], &[]);
    assert!(!r.success);
    assert_eq!(r.status_text, "Moved Permanently");

    let big = vec![b'x'; 5000];
    let r = http_outcome(500, "u".to_string(), vec![], &big);
    assert_eq!(r.status_text, "Internal Server Error");
    assert!(r.body_truncated);
    assert_eq!(r.body_preview.len(), 4096);
    assert_eq!(r.body_size_bytes, 5000);
}

#[test]
fn received_text_replaces_malformed_bytes() {
    assert_eq!(received_text(b"SSH-2.0-OpenSSH\r\n"), "SSH-2.0-OpenSSH\r\n");
    assert_eq!(received_text(&[0xe4, 0xbd, 0xa0, 0x80]), "你\u{fffd}");
}
