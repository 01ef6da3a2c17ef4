use netools::trace::{is_float_text, is_ip_text, is_ipv6_text};

fn chars(s: &str) -> Vec<char> {
    s.chars().collect()
}

#[test]
fn float_texts_follow_the_from_str_grammar() {
    let accepted = [
        "1", "1.", ".5", "1.5", "+1.5", "-0.25", "1e5", "1E5", "1e+5", "1e-5", "1.5e3", ".5e1", "5.e1",
        "inf", "INF", "-infinity", "Infinity", "nan", "NaN", "+nan", "12.345", "00.1",
    ];
    let refused = [
        "", ".", "e5", "1e", "1e+", "+", "-", "1.2.3", "1..2", "abc", "1 ", " 1", "1,5", "0x10",
        "1_000", "١", "1e5.5", "infinit", "ms",
    ];
    for s in accepted {
        assert!(is_float_text(&chars(s)), "{s:?}");
        assert!(s.parse::<f64>().is_ok(), "{s:?}");
    }
    for s in refused {
        assert!(!is_float_text(&chars(s)), "{s:?}");
        assert!(s.parse::<f64>().is_err(), "{s:?}");
    }
}

#[test]
fn ipv6_texts() {
    let accepted = [
        "::", "::1", "1::", "1::2", "1:2:3:4:5:6:7:8", "1:2:3:4:5:6:7::", "::1:2:3:4:5:6:7",
        "1:2:3:4:5:6:1.2.3.4", "::ffff:1.2.3.4", "1:2:3:4:5::1.2.3.4", "abcd::EF01", "2001:db8::",
        "2001:0db8:0000:0000:0000:ff00:0042:8329", "::1.2.3.4", "0::0", "1::2:3:4:5:6:7",
        "a:b:c:d:e:f:0:1",
    ];
    let refused = [
        "1:2:3:4:5:6:7:8::", "::1:2:3:4:5:6:7:8", "1:2:3:4:5:6::1.2.3.4", "1.2.3.4::", "1.2.3.4",
        "1:::2", ":1::", ":::", "1::2::3", "12345::", "fe80::1%eth0", "1:2:3:4:5:6:7", "::1.2.3",
        "::01.2.3.4", "::1.2.3.4:5", "1.2.3.4:1:2:3:4:5:6", "g::", "1:2:3:4:5:1.2.3.4", "", ":",
        "1:", ":1", "[::1]", "1:2:3:4:5:6:7:1.2.3.4", "1::2:3:4:5:6:7:8", " ::1", "::1 ",
    ];
    for s in accepted {
        assert!(is_ipv6_text(&chars(s)), "{s:?}");
        assert!(is_ip_text(&chars(s)), "{s:?}");
    }
    for s in refused {
        assert!(!is_ipv6_text(&chars(s)), "{s:?}");
    }
}

#[test]
fn ip_texts() {
    for s in ["1.2.3.4", "255.255.255.255", "0.0.0.0", "::1", "fe80::1"] {
        assert!(is_ip_text(&chars(s)), "{s:?}");
    }
    for s in ["256.1.1.1", "01.2.3.4", "1.2.3", "1.2.3.4.5", "host", "*", "10.0.0.1)", "(10.0.0.1)"] {
        assert!(!is_ip_text(&chars(s)), "{s:?}");
    }
}

use netools::trace::{parse_unix_line, parse_windows_line, trace_failure};

fn texts(v: &[Option<String>]) -> Vec<Option<&str>> {
    v.iter().map(|o| o.as_deref()).collect()
}

#[test]
fn unix_traceroute_lines() {
    let h = parse_unix_line(" 1  10.0.0.1  1.234 ms  1.567 ms  1.345 ms").unwrap();
    assert_eq!(h.ttl, 1);
    assert_eq!(h.addr.as_deref(), Some("10.0.0.1"));
    assert_eq!(texts(&h.rtts), vec![Some("1.234"), Some("1.567"), Some("1.345")]);
    assert_eq!(h.raw, " 1  10.0.0.1  1.234 ms  1.567 ms  1.345 ms");

    let h = parse_unix_line(" 2  * * *").unwrap();
    assert_eq!((h.ttl, h.addr.clone()), (2, None));
    assert_eq!(texts(&h.rtts), vec![None, None, None]);

    let h = parse_unix_line(" 3  router.foo (192.168.1.1)  10.123 ms  9.876 ms  10.234 ms").unwrap();
    assert_eq!(h.addr.as_deref(), Some("192.168.1.1"));
    assert_eq!(h.rtts.len(), 3);

    let h = parse_unix_line(" 4  192.168.1.2  10.123 ms 192.168.1.3  9.876 ms 192.168.1.2  10.234 ms").unwrap();
    assert_eq!(h.addr.as_deref(), Some("192.168.1.2"));
    assert_eq!(texts(&h.rtts), vec![Some("10.123"), Some("9.876"), Some("10.234")]);

    let h = parse_unix_line(" 5  2001:db8::1  3 ms").unwrap();
    assert_eq!(h.addr.as_deref(), Some("2001:db8::1"));
    assert_eq!(texts(&h.rtts), vec![Some("3")]);

    assert!(parse_unix_line("traceroute to example.com (93.184.216.34), 30 hops max").is_none());
    assert!(parse_unix_line("").is_none());
    assert!(parse_unix_line("300  1.1.1.1").is_none());
}

#[test]
fn windows_tracert_lines() {
    let h = parse_windows_line("  1     1 ms     1 ms     1 ms  10.0.0.1").unwrap();
    assert_eq!(h.ttl, 1);
    assert_eq!(texts(&h.rtts), vec![Some("1"), Some("1"), Some("1")]);
    assert_eq!(h.addr.as_deref(), Some("10.0.0.1"));

    let h = parse_windows_line("  2     *        *        *     Request timed out.").unwrap();
    assert_eq!(texts(&h.rtts), vec![None, None, None]);
    assert_eq!(h.addr, None);

    let h = parse_windows_line("  3    12ms    11ms    x  [2001:db8::1]").unwrap();
    assert_eq!(texts(&h.rtts), vec![Some("12"), Some("11"), None]);
    assert_eq!(h.addr.as_deref(), Some("2001:db8::1"));

    let h = parse_windows_line("  4    <1 ms    <1 ms    <1 ms  192.168.1.1").unwrap();
    assert_eq!(texts(&h.rtts), vec![None, None, None]);
    assert_eq!(h.addr.as_deref(), Some("192.168.1.1"));

    let h = parse_windows_line(" 5 2").unwrap();
    assert_eq!(texts(&h.rtts), vec![Some("2")]);
    assert_eq!(h.addr, None);

    assert!(parse_windows_line("Tracing route to example.com [93.184.216.34]").is_none());
}

#[test]
fn trace_failure_only_when_failed_without_hops() {
    assert_eq!(trace_failure(true, 0, Some(0), "x"), None);
    assert_eq!(trace_failure(false, 2, Some(1), "x"), None);
    assert_eq!(
        trace_failure(false, 0, Some(1), "  unknown host\n"),
        Some("traceroute 失败 (exit Some(1)): unknown host".to_string())
    );
    assert_eq!(
        trace_failure(false, 0, Some(-2), ""),
        Some("traceroute 失败 (exit Some(-2)): ".to_string())
    );
    assert_eq!(trace_failure(false, 0, None, "killed"), Some("traceroute 失败 (exit None): killed".to_string()));
}
