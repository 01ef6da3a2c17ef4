//! The decisions of the one-shot diagnosis: normalising the target, grading
//! each probe, and summarising the grades.

use vstd::prelude::*;
use crate::text::{contains_str, contains_seq, is_ws, lit_then, string_of, to_chars, trim, trim_end, trim_exec, trim_start};

verus! {

#[derive(Debug, Clone, Copy, PartialEq, Eq, Structural)]
pub enum DiagnosticStatus {
    Passed,
    Warning,
    Failed,
    Skipped,
}

#[derive(Debug, Clone, Copy, PartialEq, Eq)]
pub struct DiagnosticSummary {
    pub status: DiagnosticStatus,
    pub passed: usize,
    pub warnings: usize,
    pub failed: usize,
    pub skipped: usize,
}

// ---------------------------------------------------------------------------
// Summary
// ---------------------------------------------------------------------------

/// How many entries of `s` are `k`.
pub open spec fn count_of(s: Seq<DiagnosticStatus>, k: DiagnosticStatus) -> nat
    decreases s.len(),
{
    if s.len() == 0 {
        0
    } else {
        count_of(s.drop_last(), k) + if s.last() == k {
            1nat
        } else {
            0nat
        }
    }
}

/// The overall grade: failed when every step failed, a warning when any step
/// failed or warned, passed otherwise.
pub open spec fn overall(s: Seq<DiagnosticStatus>) -> DiagnosticStatus {
    if count_of(s, DiagnosticStatus::Failed) == s.len() {
        DiagnosticStatus::Failed
    } else if count_of(s, DiagnosticStatus::Failed) > 0 || count_of(s, DiagnosticStatus::Warning) > 0 {
        DiagnosticStatus::Warning
    } else {
        DiagnosticStatus::Passed
    }
}

proof fn lemma_counts_total(s: Seq<DiagnosticStatus>)
    ensures
        count_of(s, DiagnosticStatus::Passed) + count_of(s, DiagnosticStatus::Warning) + count_of(
            s,
            DiagnosticStatus::Failed,
        ) + count_of(s, DiagnosticStatus::Skipped) == s.len(),
    decreases s.len(),
{
    if s.len() > 0 {
        lemma_counts_total(s.drop_last());
    }
}

/// Counts the grades and derives the overall grade.
pub fn summarize(statuses: &[DiagnosticStatus]) -> (r: DiagnosticSummary)
    ensures
        r.passed == count_of(statuses@, DiagnosticStatus::Passed),
        r.warnings == count_of(statuses@, DiagnosticStatus::Warning),
        r.failed == count_of(statuses@, DiagnosticStatus::Failed),
        r.skipped == count_of(statuses@, DiagnosticStatus::Skipped),
        r.status == overall(statuses@),
        r.passed + r.warnings + r.failed + r.skipped == statuses.len(),
{
    let mut passed: usize = 0;
    let mut warnings: usize = 0;
    let mut failed: usize = 0;
    let mut skipped: usize = 0;
    let mut i: usize = 0;
    while i < statuses.len()
        invariant
            i <= statuses.len(),
            passed == count_of(statuses@.take(i as int), DiagnosticStatus::Passed),
            warnings == count_of(statuses@.take(i as int), DiagnosticStatus::Warning),
            failed == count_of(statuses@.take(i as int), DiagnosticStatus::Failed),
            skipped == count_of(statuses@.take(i as int), DiagnosticStatus::Skipped),
            passed + warnings + failed + skipped == i,
        decreases statuses.len() - i,
    {
        proof {
            assert(statuses@.take(i + 1).drop_last() =~= statuses@.take(i as int));
            assert(statuses@.take(i + 1).last() == statuses@[i as int]);
        }
        match statuses[i] {
            DiagnosticStatus::Passed => passed += 1,
            DiagnosticStatus::Warning => warnings += 1,
            DiagnosticStatus::Failed => failed += 1,
            DiagnosticStatus::Skipped => skipped += 1,
        }
        i += 1;
    }
    assert(statuses@.take(statuses.len() as int) =~= statuses@);
    let status = if failed == statuses.len() {
        DiagnosticStatus::Failed
    } else if failed > 0 || warnings > 0 {
        DiagnosticStatus::Warning
    } else {
        DiagnosticStatus::Passed
    };
    DiagnosticSummary { status, passed, warnings, failed, skipped }
}

/// Every step is counted once: the four counts add up to the number of steps.
pub proof fn law_summary_counts_every_step(s: Seq<DiagnosticStatus>)
    ensures
        count_of(s, DiagnosticStatus::Passed) + count_of(s, DiagnosticStatus::Warning) + count_of(
            s,
            DiagnosticStatus::Failed,
        ) + count_of(s, DiagnosticStatus::Skipped) == s.len(),
{
    lemma_counts_total(s);
}

/// The overall grade is passed only when no step failed or warned, and failed
/// whenever every step failed.
pub proof fn law_overall_grade(s: Seq<DiagnosticStatus>)
    ensures
        overall(s) == DiagnosticStatus::Passed ==> count_of(s, DiagnosticStatus::Failed) == 0
            && count_of(s, DiagnosticStatus::Warning) == 0,
        count_of(s, DiagnosticStatus::Failed) == s.len() ==> overall(s) == DiagnosticStatus::Failed,
        overall(s) != DiagnosticStatus::Skipped,
{
}

/// The lower-case name of a grade, as reports print it.
pub fn diagnostic_status(status: DiagnosticStatus) -> (r: &'static str)
    ensures
        status == DiagnosticStatus::Passed ==> r@ == "passed"@,
        status == DiagnosticStatus::Warning ==> r@ == "warning"@,
        status == DiagnosticStatus::Failed ==> r@ == "failed"@,
        status == DiagnosticStatus::Skipped ==> r@ == "skipped"@,
{
    match status {
        DiagnosticStatus::Passed => "passed",
        DiagnosticStatus::Warning => "warning",
        DiagnosticStatus::Failed => "failed",
        DiagnosticStatus::Skipped => "skipped",
    }
}

// ---------------------------------------------------------------------------
// Grading single steps
// ---------------------------------------------------------------------------

/// Grade of a step that sends several probes: passed when all answered, a
/// warning when some did, failed when none did.
pub open spec fn replies_grade(successes: nat, total: nat) -> DiagnosticStatus {
    if successes == total {
        DiagnosticStatus::Passed
    } else if successes > 0 {
        DiagnosticStatus::Warning
    } else {
        DiagnosticStatus::Failed
    }
}

pub fn replies_status(successes: usize, total: usize) -> (r: DiagnosticStatus)
    ensures
        r == replies_grade(successes as nat, total as nat),
{
    if successes == total {
        DiagnosticStatus::Passed
    } else if successes > 0 {
        DiagnosticStatus::Warning
    } else {
        DiagnosticStatus::Failed
    }
}

/// The timeout, hop limit and ping count of a diagnosis, each held to its range
/// (100–30000 ms, 1–64 hops, 1–20 pings).
pub fn diagnose_limits(timeout_ms: u64, max_hops: u8, ping_count: u16) -> (r: (u64, u8, u16))
    ensures
        r.0 == if timeout_ms < 100 {
            100
        } else if timeout_ms > 30000 {
            30000
        } else {
            timeout_ms
        },
        r.1 == if max_hops < 1 {
            1
        } else if max_hops > 64 {
            64
        } else {
            max_hops
        },
        r.2 == if ping_count < 1 {
            1
        } else if ping_count > 20 {
            20
        } else {
            ping_count
        },
{
    let t = if timeout_ms < 100 {
        100
    } else if timeout_ms > 30000 {
        30000
    } else {
        timeout_ms
    };
    let h = if max_hops < 1 {
        1
    } else if max_hops > 64 {
        64
    } else {
        max_hops
    };
    let c = if ping_count < 1 {
        1
    } else if ping_count > 20 {
        20
    } else {
        ping_count
    };
    (t, h, c)
}

/// The grade of one diagnosis step and the error it reports.
#[derive(Debug, Clone)]
pub struct StepVerdict {
    pub status: DiagnosticStatus,
    pub error: Option<String>,
}

/// A step whose probes could not run at all: failed, with the reason.
pub fn failed_verdict(error: String) -> (r: StepVerdict)
    ensures
        r.status == DiagnosticStatus::Failed,
        r.error matches Some(e) && e@ == error@,
{
    StepVerdict { status: DiagnosticStatus::Failed, error: Some(error) }
}

/// How many probes were answered.
pub open spec fn answered(replies: Seq<bool>) -> nat
    decreases replies.len(),
{
    if replies.len() == 0 {
        0
    } else {
        answered(replies.drop_last()) + if replies.last() {
            1nat
        } else {
            0nat
        }
    }
}

/// Counts the answered probes (`answered` in the model).
pub fn count_answered(replies: &[bool]) -> (r: usize)
    ensures
        r == answered(replies@),
        r <= replies.len(),
{
    let mut n: usize = 0;
    let mut i: usize = 0;
    while i < replies.len()
        invariant
            i <= replies.len(),
            n == answered(replies@.take(i as int)),
            n <= i,
        decreases replies.len() - i,
    {
        assert(replies@.take(i + 1).drop_last() =~= replies@.take(i as int));
        assert(replies@.take(i + 1).last() == replies@[i as int]);
        if replies[i] {
            n += 1;
        }
        i += 1;
    }
    assert(replies@.take(replies.len() as int) =~= replies@);
    n
}

/// The ping step: graded by how many echo requests were answered; when none
/// was, the error says so.
pub fn ping_verdict(replies: &[bool]) -> (r: StepVerdict)
    ensures
        r.status == replies_grade(answered(replies@), replies@.len()),
        answered(replies@) == 0 ==> (r.error matches Some(e) && e@ == "所有 Ping 探测均失败"@),
        answered(replies@) != 0 ==> r.error is None,
{
    let successes = count_answered(replies);
    StepVerdict {
        status: replies_status(successes, replies.len()),
        error: if successes == 0 {
            Some(String::from_str("所有 Ping 探测均失败"))
        } else {
            None
        },
    }
}

/// The DNS step: graded by how many resolvers answered; when none did, the
/// error says so.
pub fn dns_verdict(replies: &[bool]) -> (r: StepVerdict)
    ensures
        r.status == replies_grade(answered(replies@), replies@.len()),
        answered(replies@) == 0 ==> (r.error matches Some(e) && e@ == "所有 DNS 查询均失败"@),
        answered(replies@) != 0 ==> r.error is None,
{
    let successes = count_answered(replies);
    StepVerdict {
        status: replies_status(successes, replies.len()),
        error: if successes == 0 {
            Some(String::from_str("所有 DNS 查询均失败"))
        } else {
            None
        },
    }
}

/// The TCP step: passed when the connection succeeded, else failed; the
/// probe's error is passed on.
pub fn tcp_verdict(success: bool, error: &Option<String>) -> (r: StepVerdict)
    ensures
        r.status == (if success {
            DiagnosticStatus::Passed
        } else {
            DiagnosticStatus::Failed
        }),
        crate::text::opt_view(r.error) == crate::text::opt_view(*error),
{
    StepVerdict {
        status: if success {
            DiagnosticStatus::Passed
        } else {
            DiagnosticStatus::Failed
        },
        error: crate::text::clone_opt(error),
    }
}

/// The traceroute step: skipped when it was not run (`None`); passed when it
/// found hops; failed, with a reason, when it found none or could not run.
pub fn trace_verdict(outcome: Option<Result<usize, String>>) -> (r: StepVerdict)
    ensures
        match outcome {
            None => r.status == DiagnosticStatus::Skipped && r.error is None,
            Some(Ok(n)) => if n > 0 {
                r.status == DiagnosticStatus::Passed && r.error is None
            } else {
                r.status == DiagnosticStatus::Failed && (r.error matches Some(e) && e@
                    == "未解析到任何路由跳点"@)
            },
            Some(Err(e)) => r.status == DiagnosticStatus::Failed && (r.error matches Some(x) && x@
                == e@),
        },
{
    match outcome {
        None => StepVerdict { status: DiagnosticStatus::Skipped, error: None },
        Some(Ok(n)) => {
            if n > 0 {
                StepVerdict { status: DiagnosticStatus::Passed, error: None }
            } else {
                StepVerdict {
                    status: DiagnosticStatus::Failed,
                    error: Some(String::from_str("未解析到任何路由跳点")),
                }
            }
        },
        Some(Err(e)) => failed_verdict(e),
    }
}

/// What the HTTP/TLS grade reads of an HTTP probe.
#[derive(Debug, Clone)]
pub struct HttpCheck {
    pub status: u16,
    pub error: Option<String>,
    pub tls_days_until_expiry: Option<i64>,
}

/// Grade of the HTTP/TLS step: failed on a transport error, no status or a
/// 5xx status; a warning on 4xx; for HTTPS, failed on an expired certificate and
/// a warning on one expiring within 30 days or on a missing one; else passed.
pub open spec fn http_grade(status: u16, has_error: bool, tls_days: Option<i64>, uses_tls: bool) -> DiagnosticStatus {
    if has_error || status == 0 || status >= 500 {
        DiagnosticStatus::Failed
    } else if status >= 400 {
        DiagnosticStatus::Warning
    } else if uses_tls {
        match tls_days {
            Some(d) => if d < 0 {
                DiagnosticStatus::Failed
            } else if d < 30 {
                DiagnosticStatus::Warning
            } else {
                DiagnosticStatus::Passed
            },
            None => DiagnosticStatus::Warning,
        }
    } else {
        DiagnosticStatus::Passed
    }
}

/// The HTTP/TLS step: graded by `http_grade`, with the probe's error.
pub fn http_verdict(result: &HttpCheck, uses_tls: bool) -> (r: StepVerdict)
    ensures
        r.status == http_grade(result.status, result.error is Some, result.tls_days_until_expiry, uses_tls),
        crate::text::opt_view(r.error) == crate::text::opt_view(result.error),
{
    StepVerdict { status: http_status(result, uses_tls), error: crate::text::clone_opt(&result.error) }
}

pub fn http_status(result: &HttpCheck, uses_tls: bool) -> (r: DiagnosticStatus)
    ensures
        r == http_grade(result.status, result.error is Some, result.tls_days_until_expiry, uses_tls),
{
    if result.error.is_some() || result.status == 0 || result.status >= 500 {
        return DiagnosticStatus::Failed;
    }
    if result.status >= 400 {
        return DiagnosticStatus::Warning;
    }
    if uses_tls {
        match result.tls_days_until_expiry {
            Some(d) => {
                if d < 0 {
                    return DiagnosticStatus::Failed;
                }
                if d < 30 {
                    return DiagnosticStatus::Warning;
                }
            },
            None => return DiagnosticStatus::Warning,
        }
    }
    DiagnosticStatus::Passed
}

// ---------------------------------------------------------------------------
// Target normalisation
// ---------------------------------------------------------------------------

/// The parts of a parsed URL that the diagnosis reads.
#[derive(Debug, Clone)]
pub struct ParsedUrl {
    pub scheme: String,
    pub host: Option<String>,
    pub port: Option<u16>,
    pub serialization: String,
}

pub struct ParsedUrlView {
    pub scheme: Seq<char>,
    pub host: Option<Seq<char>>,
    pub port: Option<u16>,
    pub serialization: Seq<char>,
}

impl View for ParsedUrl {
    type V = ParsedUrlView;

    open spec fn view(&self) -> ParsedUrlView {
        ParsedUrlView {
            scheme: self.scheme@,
            host: match self.host {
                Some(h) => Some(h@),
                None => None,
            },
            port: self.port,
            serialization: self.serialization@,
        }
    }
}

/// What `url::Url::parse` makes of a text: the scheme, host, port (explicit or
/// the scheme's default) and serialization of the URL, or the error's text.
pub uninterp spec fn url_parse(input: Seq<char>) -> Result<ParsedUrlView, Seq<char>>;

/// Calls `url::Url::parse` and reads `scheme`, `host_str`, `port_or_known_default`
/// and the serialization of the result, or renders the `ParseError` with `Display`.
/// The contract only names the outcome (`url_parse`); nothing about URL syntax is stated.
#[verifier::external_body]
fn parse_url(input: &str) -> (r: Result<ParsedUrl, String>)
    ensures
        match url_parse(input@) {
            Ok(u) => r matches Ok(x) && x@ == u,
            Err(e) => r matches Err(x) && x@ == e,
        },
{
    match url::Url::parse(input) {
        Ok(u) => Ok(ParsedUrl {
            scheme: u.scheme().to_string(),
            host: u.host_str().map(|h| h.to_string()),
            port: u.port_or_known_default(),
            serialization: u.as_str().to_string(),
        }),
        Err(e) => Err(e.to_string()),
    }
}

#[derive(Debug, Clone)]
pub struct NormalizedTarget {
    pub host: String,
    pub url: String,
    pub scheme: String,
    pub port: u16,
}

pub struct NormalizedModel {
    pub host: Seq<char>,
    pub url: Seq<char>,
    pub scheme: Seq<char>,
    pub port: u16,
}

impl View for NormalizedTarget {
    type V = NormalizedModel;

    open spec fn view(&self) -> NormalizedModel {
        NormalizedModel { host: self.host@, url: self.url@, scheme: self.scheme@, port: self.port }
    }
}

impl NormalizedTarget {
    /// Whether the target is reached over TLS (its scheme is `https`).
    pub fn uses_tls(&self) -> (r: bool)
        ensures
            r == (self.scheme@ == "https"@),
    {
        let cs = to_chars(self.scheme.as_str());
        crate::text::eq_str(cs.as_slice(), "https")
    }
}

/// What a parsed URL gives as a diagnosis target: only HTTP and HTTPS, with a
/// non-empty host and a known port.
pub open spec fn target_of(parsed: Result<ParsedUrlView, Seq<char>>) -> Result<NormalizedModel, Seq<char>> {
    match parsed {
        Err(e) => Err("无法解析诊断目标: "@ + e),
        Ok(u) => if !(u.scheme == "http"@ || u.scheme == "https"@) {
            Err("诊断报告目前只支持 HTTP/HTTPS URL 或主机名"@)
        } else {
            match u.host {
                None => Err("诊断目标缺少主机名"@),
                Some(h) => if h.len() == 0 {
                    Err("诊断目标缺少主机名"@)
                } else {
                    match u.port {
                        None => Err("无法确定目标端口"@),
                        Some(p) => Ok(
                            NormalizedModel { host: h, url: u.serialization, scheme: u.scheme, port: p },
                        ),
                    }
                },
            }
        },
    }
}

/// The text handed to the URL parser: the trimmed target, with `https://` in
/// front unless it already names a scheme.
pub open spec fn url_candidate(t: Seq<char>) -> Seq<char> {
    if contains_seq(t, "://"@) {
        t
    } else {
        "https://"@ + t
    }
}

/// Grades a parsed URL as a diagnosis target (`target_of` in the model).
pub fn normalize_parsed(parsed: Result<ParsedUrl, String>) -> (r: Result<NormalizedTarget, String>)
    ensures
        match target_of(
            match parsed {
                Ok(u) => Ok(u@),
                Err(e) => Err(e@),
            },
        ) {
            Ok(m) => r matches Ok(x) && x@ == m,
            Err(e) => r matches Err(x) && x@ == e,
        },
{
    let u = match parsed {
        Ok(u) => u,
        Err(e) => {
            let cs = to_chars(e.as_str());
            return Err(lit_then("无法解析诊断目标: ", cs.as_slice()));
        },
    };
    let scheme_chars = to_chars(u.scheme.as_str());
    let s = scheme_chars.as_slice();
    if !(crate::text::eq_str(s, "http") || crate::text::eq_str(s, "https")) {
        return Err(String::from_str("诊断报告目前只支持 HTTP/HTTPS URL 或主机名"));
    }
    let host = match u.host {
        Some(h) => h,
        None => return Err(String::from_str("诊断目标缺少主机名")),
    };
    if host.as_str().is_empty() {
        return Err(String::from_str("诊断目标缺少主机名"));
    }
    let port = match u.port {
        Some(p) => p,
        None => return Err(String::from_str("无法确定目标端口")),
    };
    Ok(NormalizedTarget { host, url: u.serialization, scheme: u.scheme, port })
}

/// The diagnosis target that a text denotes: trimmed, not empty, parsed as a
/// URL (with `https://` added when no scheme is given), then graded.
pub open spec fn normalized_model(target: Seq<char>) -> Result<NormalizedModel, Seq<char>> {
    if trim(target).len() == 0 {
        Err("诊断目标不能为空"@)
    } else {
        target_of(url_parse(url_candidate(trim(target))))
    }
}

/// The diagnosis target (`normalized_model` in the model).
pub fn normalize_target(target: &str) -> (r: Result<NormalizedTarget, String>)
    ensures
        match normalized_model(target@) {
            Ok(m) => r matches Ok(x) && x@ == m,
            Err(e) => r matches Err(x) && x@ == e,
        },
{
    let chars = to_chars(target);
    let t = trim_exec(chars.as_slice());
    if t.len() == 0 {
        return Err(String::from_str("诊断目标不能为空"));
    }
    let candidate = if contains_str(t, "://") {
        string_of(t)
    } else {
        lit_then("https://", t)
    };
    let parsed = parse_url(candidate.as_str());
    proof {
        match url_parse(candidate@) {
            Ok(_) => {},
            Err(_) => {},
        }
    }
    normalize_parsed(parsed)
}


/// The resolvers the diagnosis asks, in order: the system's, then 1.1.1.1 and 8.8.8.8.
pub fn diagnosis_dns_servers() -> (r: Vec<String>)
    ensures
        crate::text::string_views(r@) == seq!["system"@, "1.1.1.1"@, "8.8.8.8"@],
{
    let v = vec![String::from_str("system"), String::from_str("1.1.1.1"), String::from_str("8.8.8.8")];
    assert(crate::text::string_views(v@) =~= seq!["system"@, "1.1.1.1"@, "8.8.8.8"@]);
    v
}

/// The record type the diagnosis asks those resolvers for.
pub fn diagnosis_record_type() -> (r: String)
    ensures
        r@ == "A"@,
{
    String::from_str("A")
}


proof fn lemma_trim_end_last(s: Seq<char>)
    ensures
        trim_end(s).len() > 0 ==> !is_ws(trim_end(s).last()),
        trim_end(s).len() <= s.len(),
        forall|i: int| 0 <= i < trim_end(s).len() ==> trim_end(s)[i] == s[i],
    decreases s.len(),
{
    if s.len() > 0 && is_ws(s.last()) {
        let d = s.drop_last();
        lemma_trim_end_last(d);
        assert forall|i: int| 0 <= i < trim_end(s).len() implies trim_end(s)[i] == s[i] by {
            assert(trim_end(d)[i] == d[i]);
        }
    }
}

proof fn lemma_trim_start_first(s: Seq<char>)
    ensures
        trim_start(s).len() > 0 ==> !is_ws(trim_start(s)[0]),
    decreases s.len(),
{
    if s.len() > 0 && is_ws(s[0]) {
        lemma_trim_start_first(s.drop_first());
    }
}

/// A trimmed text that is not empty trims to itself.
proof fn lemma_trim_trimmed(t: Seq<char>)
    requires
        t.len() > 0,
        !is_ws(t[0]),
        !is_ws(t.last()),
    ensures
        trim(t) == t,
{
    reveal_with_fuel(trim_start, 2);
    reveal_with_fuel(trim_end, 2);
}

/// The diagnosis target: an empty target (after trimming) is refused; a bare
/// host means the same as that host with `https://` in front; and a target
/// that is accepted is an HTTP or HTTPS one with a host.
pub proof fn law_normalized_target(target: Seq<char>)
    ensures
        trim(target).len() == 0 ==> normalized_model(target) is Err,
        trim(target).len() > 0 && !contains_seq(trim(target), "://"@) ==> normalized_model(target)
            == normalized_model("https://"@ + trim(target)),
        normalized_model(target) matches Ok(n) ==> (n.scheme == "http"@ || n.scheme == "https"@)
            && n.host.len() > 0,
{
    let t = trim(target);
    if t.len() > 0 && !contains_seq(t, "://"@) {
        let u = "https://"@ + t;
        reveal_strlit("https://");
        reveal_strlit("://");
        lemma_trim_start_first(target);
        lemma_trim_end_last(trim_start(target));
        assert(t[0] == trim_start(target)[0]);
        assert(u[0] == 'h');
        assert(u.last() == t.last());
        lemma_trim_trimmed(u);
        assert(u.subrange(5, 5 + "://"@.len() as int) =~= "://"@);
        assert(contains_seq(u, "://"@));
        assert(url_candidate(trim(u)) == u);
        assert(url_candidate(t) == u);
    }
}

} // verus!
