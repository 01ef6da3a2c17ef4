use netools::cli::{parse_cli_args, usage, CliCommand, OutputFormat};

fn parse(line: &str) -> Result<netools::cli::CliArgs, String> {
    let tokens: Vec<&str> = line.split_whitespace().collect();
    parse_cli_args(&tokens)
}

#[test]
fn readme_examples_parse() {
    assert_eq!(
        parse("netools ping example.com --count 4").unwrap().command,
        CliCommand::Ping { host: "example.com".to_string(), count: 4, timeout_ms: 1000 }
    );
    let tcp = parse("netools tcp example.com 443 --timeout 1500 --json").unwrap();
    assert_eq!(tcp.format, OutputFormat::Json);
    assert_eq!(
        tcp.command,
        CliCommand::TcpProbe { host: "example.com".to_string(), port: 443, timeout_ms: 1500, fingerprint: false }
    );
    let mut ports = vec![22, 80, 443];
    ports.extend(8000..=8010);
    assert_eq!(
        parse("netools scan 127.0.0.1 22,80,443,8000-8010 --concurrency 64").unwrap().command,
        CliCommand::TcpScan { host: "127.0.0.1".to_string(), ports, timeout_ms: 1000, fingerprint: false, concurrency: 64 }
    );
    assert_eq!(
        parse("netools tcp-ping example.com 443 --count 5").unwrap().command,
        CliCommand::TcpPing { host: "example.com".to_string(), port: 443, count: 5, interval_ms: 1000, timeout_ms: 1000 }
    );
    assert_eq!(
        parse("netools dns example.com --type A --server 1.1.1.1 --server 8.8.8.8").unwrap().command,
        CliCommand::Dns {
            domain: "example.com".to_string(),
            record_type: "A".to_string(),
            servers: vec!["1.1.1.1".to_string(), "8.8.8.8".to_string()],
            timeout_ms: 2000
        }
    );
    let http = parse("netools http https://example.com --method GET --json").unwrap();
    assert_eq!(http.format, OutputFormat::Json);
    assert_eq!(
        http.command,
        CliCommand::Http {
            url: "https://example.com".to_string(),
            method: "GET".to_string(),
            headers: vec![],
            body: None,
            timeout_ms: 5000,
            follow_redirects: true
        }
    );
    assert_eq!(
        parse("netools trace example.com --max-hops 20").unwrap().command,
        CliCommand::Trace { host: "example.com".to_string(), max_hops: 20, timeout_ms: 3000 }
    );
}

#[test]
fn help_forms() {
    for line in ["netools", "netools help", "netools --help", "netools -h", "netools --json --help"] {
        assert_eq!(parse(line).unwrap().command, CliCommand::Help);
    }
    assert_eq!(parse_cli_args(&[]).unwrap().command, CliCommand::Help);
    assert!(usage().starts_with("netools - pure CLI network diagnostics"));
}

#[test]
fn json_flag_anywhere() {
    let a = parse("netools --json ping example.com").unwrap();
    let b = parse("netools ping example.com --json").unwrap();
    assert_eq!(a, b);
    assert_eq!(a.format, OutputFormat::Json);
    assert_eq!(parse("netools ping example.com").unwrap().format, OutputFormat::Human);
}

#[test]
fn aliases_and_defaults() {
    assert_eq!(parse("netools doctor example.com").unwrap(), parse("netools diagnose example.com").unwrap());
    assert_eq!(parse("netools traceroute h").unwrap(), parse("netools trace h").unwrap());
    assert_eq!(
        parse("netools diagnose example.com").unwrap().command,
        CliCommand::Diagnose { target: "example.com".to_string(), include_trace: true, timeout_ms: 2000, max_hops: 20, ping_count: 4 }
    );
    assert_eq!(
        parse("netools lan-scan").unwrap().command,
        CliCommand::LanScan { cidr: None, timeout_ms: 700, concurrency: 32, suggestion_count: 10, suggest_only: false }
    );
    assert_eq!(parse("netools lan-info").unwrap().command, CliCommand::LanInfo);
}

#[test]
fn http_headers_and_body() {
    let args = ["netools", "http", "http://x/", "--header", "Accept: text/html", "--header", "X-A:b", "--body", "hello", "--no-follow"];
    assert_eq!(
        parse_cli_args(&args).unwrap().command,
        CliCommand::Http {
            url: "http://x/".to_string(),
            method: "GET".to_string(),
            headers: vec![("Accept".to_string(), "text/html".to_string()), ("X-A".to_string(), "b".to_string())],
            body: Some("hello".to_string()),
            timeout_ms: 5000,
            follow_redirects: false
        }
    );
    assert_eq!(
        parse_cli_args(&["netools", "http", "http://x/", "--header", "nocolon"]).unwrap_err(),
        "header 需要 'K: V' 格式: nocolon"
    );
    assert_eq!(parse_cli_args(&["netools", "http", "http://x/", "--header", " : v"]).unwrap_err(), "header 名不能为空");
}

#[test]
fn argument_errors() {
    assert_eq!(parse("netools frobnicate").unwrap_err(), "未知子命令: frobnicate");
    assert_eq!(parse("netools lan-info extra").unwrap_err(), "lan-info 不接受位置参数");
    assert_eq!(parse("netools lan-scan a b").unwrap_err(), "用法: lan-scan [cidr]");
    assert_eq!(parse("netools ping").unwrap_err(), "用法: ping <host>");
    assert_eq!(parse("netools tcp host").unwrap_err(), "tcp 用法: tcp <host> <port>");
    assert_eq!(parse("netools scan host").unwrap_err(), "scan 用法: scan <host> <ports>");
    assert_eq!(parse("netools tcp-ping host").unwrap_err(), "tcp-ping 用法: tcp-ping <host> <port>");
    assert_eq!(parse("netools tcp host 0").unwrap_err(), "端口不能为 0");
    assert_eq!(parse("netools tcp host http").unwrap_err(), "非法端口: http");
    assert_eq!(parse("netools tcp host 70000").unwrap_err(), "非法端口: 70000");
    assert_eq!(parse("netools scan host 90-80").unwrap_err(), "非法端口范围: 90-80");
    assert_eq!(parse("netools scan host ,,").unwrap_err(), "端口列表不能为空");
    assert_eq!(parse("netools ping h --count lots").unwrap_err(), "--count 需要 0-65535 整数");
    assert_eq!(parse("netools lan-scan --timeout x").unwrap_err(), "--timeout 需要整数");
    assert_eq!(parse("netools trace h --max-hops 300").unwrap_err(), "--max-hops 需要 0-255 整数");
    // An option without a value keeps its default.
    assert_eq!(
        parse("netools ping h --count").unwrap().command,
        CliCommand::Ping { host: "h".to_string(), count: 4, timeout_ms: 1000 }
    );
}

#[test]
fn port_lists_are_sorted_and_unique() {
    assert_eq!(
        parse("netools scan h 443,22,80-82,22,81").unwrap().command,
        CliCommand::TcpScan { host: "h".to_string(), ports: vec![22, 80, 81, 82, 443], timeout_ms: 1000, fingerprint: false, concurrency: 128 }
    );
}
