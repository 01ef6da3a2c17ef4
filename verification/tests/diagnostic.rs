use netools::diagnostic::{
    diagnosis_dns_servers, diagnosis_record_type, http_status, normalize_target, replies_status, summarize, DiagnosticStatus, HttpCheck,
};

#[test]
fn normalizes_host_to_https() {
    let target = normalize_target("example.com").unwrap();
    assert_eq!(target.host, "example.com");
    assert_eq!(target.url, "https://example.com/");
    assert_eq!(target.port, 443);
}

#[test]
fn preserves_explicit_url_and_port() {
    let target = normalize_target("http://localhost:8080/health").unwrap();
    assert_eq!(target.host, "localhost");
    assert_eq!(target.url, "http://localhost:8080/health");
    assert_eq!(target.port, 8080);
}

#[test]
fn rejects_non_http_scheme() {
    assert!(normalize_target("ftp://example.com").is_err());
}

#[test]
fn empty_target_is_rejected() {
    assert_eq!(normalize_target("   ").unwrap_err(), "诊断目标不能为空");
}

#[test]
fn non_http_scheme_message() {
    assert_eq!(
        normalize_target("ftp://example.com").unwrap_err(),
        "诊断报告目前只支持 HTTP/HTTPS URL 或主机名"
    );
}

#[test]
fn unparsable_target_names_the_parse_error() {
    let err = normalize_target("http://[::1").unwrap_err();
    assert!(err.starts_with("无法解析诊断目标: "));
}

#[test]
fn target_is_trimmed_before_parsing() {
    let target = normalize_target("  example.org:8443  ").unwrap();
    assert_eq!(target.host, "example.org");
    assert_eq!(target.port, 8443);
    assert_eq!(target.scheme, "https");
}

#[test]
fn summary_counts_each_grade() {
    let s = summarize(&[
        DiagnosticStatus::Passed,
        DiagnosticStatus::Warning,
        DiagnosticStatus::Failed,
        DiagnosticStatus::Skipped,
        DiagnosticStatus::Passed,
    ]);
    assert_eq!((s.passed, s.warnings, s.failed, s.skipped), (2, 1, 1, 1));
    assert_eq!(s.status, DiagnosticStatus::Warning);
}

#[test]
fn summary_all_failed_is_failed() {
    let s = summarize(&[DiagnosticStatus::Failed, DiagnosticStatus::Failed]);
    assert_eq!(s.status, DiagnosticStatus::Failed);
}

#[test]
fn summary_passed_and_skipped_is_passed() {
    let s = summarize(&[DiagnosticStatus::Passed, DiagnosticStatus::Skipped]);
    assert_eq!(s.status, DiagnosticStatus::Passed);
}

#[test]
fn replies_grade_all_some_none() {
    assert_eq!(replies_status(4, 4), DiagnosticStatus::Passed);
    assert_eq!(replies_status(1, 4), DiagnosticStatus::Warning);
    assert_eq!(replies_status(0, 4), DiagnosticStatus::Failed);
}

fn check(status: u16, error: bool, days: Option<i64>) -> HttpCheck {
    HttpCheck {
        status,
        error: if error { Some("boom".to_string()) } else { None },
        tls_days_until_expiry: days,
    }
}

#[test]
fn http_grades() {
    assert_eq!(http_status(&check(200, true, Some(90)), true), DiagnosticStatus::Failed);
    assert_eq!(http_status(&check(0, false, None), false), DiagnosticStatus::Failed);
    assert_eq!(http_status(&check(503, false, Some(90)), true), DiagnosticStatus::Failed);
    assert_eq!(http_status(&check(404, false, Some(90)), true), DiagnosticStatus::Warning);
    assert_eq!(http_status(&check(200, false, Some(-1)), true), DiagnosticStatus::Failed);
    assert_eq!(http_status(&check(200, false, Some(29)), true), DiagnosticStatus::Warning);
    assert_eq!(http_status(&check(200, false, None), true), DiagnosticStatus::Warning);
    assert_eq!(http_status(&check(200, false, Some(30)), true), DiagnosticStatus::Passed);
    assert_eq!(http_status(&check(301, false, None), false), DiagnosticStatus::Passed);
}

#[test]
fn diagnosis_asks_three_resolvers_for_a_records() {
    assert_eq!(diagnosis_dns_servers(), vec!["system", "1.1.1.1", "8.8.8.8"]);
    assert_eq!(diagnosis_record_type(), "A");
}
