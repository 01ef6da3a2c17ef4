//! The human-readable reports of the command line: the text of a subnet scan
//! and of a diagnosis. Durations arrive already rendered as text.

use vstd::prelude::*;
use crate::diagnostic::{DiagnosticStatus, DiagnosticSummary};
use crate::num::{decimal, push_decimal};
use crate::scan::{FindingsModel, HostModel, LanHost, ScanFindings};
use crate::text::{string_of, string_views, to_chars};

verus! {

// ---------------------------------------------------------------------------
// Text building blocks
// ---------------------------------------------------------------------------

pub open spec fn spaces(n: nat) -> Seq<char> {
    Seq::new(n, |i: int| ' ')
}

/// `s` padded with blanks on the right to `w` characters (`{:<w}`).
pub open spec fn pad_right(s: Seq<char>, w: nat) -> Seq<char> {
    if s.len() >= w {
        s
    } else {
        s + spaces((w - s.len()) as nat)
    }
}

/// The parts with `sep` between them.
pub open spec fn join(parts: Seq<Seq<char>>, sep: Seq<char>) -> Seq<char>
    decreases parts.len(),
{
    if parts.len() == 0 {
        seq![]
    } else if parts.len() == 1 {
        parts[0]
    } else {
        join(parts.drop_last(), sep) + sep + parts.last()
    }
}

/// Each line behind `prefix` and followed by a line break.
pub open spec fn each_line(lines: Seq<Seq<char>>, prefix: Seq<char>) -> Seq<char>
    decreases lines.len(),
{
    if lines.len() == 0 {
        seq![]
    } else {
        each_line(lines.drop_last(), prefix) + prefix + lines.last() + "\n"@
    }
}

pub open spec fn decimals(ports: Seq<u16>) -> Seq<Seq<char>> {
    ports.map_values(|p: u16| decimal(p as nat))
}

/// A list of ports as `Debug` prints it: `[22, 80]`.
pub open spec fn ports_text(ports: Seq<u16>) -> Seq<char> {
    "["@ + join(decimals(ports), ", "@) + "]"@
}

pub(crate) fn push_chars(out: &mut Vec<char>, cs: &[char])
    ensures
        final(out)@ == old(out)@ + cs@,
{
    let mut i: usize = 0;
    while i < cs.len()
        invariant
            i <= cs.len(),
            out@ == old(out)@ + cs@.take(i as int),
        decreases cs.len() - i,
    {
        out.push(cs[i]);
        assert(old(out)@ + cs@.take(i + 1) =~= old(out)@ + cs@.take(i as int) + seq![cs@[i as int]]);
        i += 1;
    }
    assert(cs@.take(cs.len() as int) =~= cs@);
}

pub(crate) fn push_str(out: &mut Vec<char>, s: &str)
    ensures
        final(out)@ == old(out)@ + s@,
{
    let cs = to_chars(s);
    push_chars(out, cs.as_slice());
}

fn push_padded(out: &mut Vec<char>, s: &str, w: usize)
    ensures
        final(out)@ == old(out)@ + pad_right(s@, w as nat),
{
    let cs = to_chars(s);
    push_chars(out, cs.as_slice());
    let mut n = cs.len();
    let ghost base = out@;
    assert(spaces(0) =~= Seq::<char>::empty());
    assert(base + spaces(0) =~= base);
    while n < w
        invariant
            cs.len() <= n,
            n <= w || n == cs.len(),
            out@ == base + spaces((n - cs.len()) as nat),
        decreases w - n,
    {
        out.push(' ');
        assert(base + spaces((n + 1 - cs.len()) as nat) =~= base + spaces((n - cs.len()) as nat) + seq![' ']);
        n += 1;
    }
    proof {
        if cs.len() >= w {
            assert(out@ =~= base);
        }
    }
}

fn push_joined(out: &mut Vec<char>, parts: &Vec<String>, sep: &str)
    ensures
        final(out)@ == old(out)@ + join(string_views(parts@), sep@),
{
    let ghost p = string_views(parts@);
    let ghost base = out@;
    let mut i: usize = 0;
    assert(join(p.take(0), sep@) =~= Seq::<char>::empty());
    assert(base + Seq::<char>::empty() =~= base);
    while i < parts.len()
        invariant
            p == string_views(parts@),
            i <= parts.len(),
            out@ == base + join(p.take(i as int), sep@),
        decreases parts.len() - i,
    {
        assert(p.take(i + 1).drop_last() =~= p.take(i as int));
        assert(p.take(i + 1).last() == parts@[i as int]@);
        if i > 0 {
            push_str(out, sep);
        } else {
            assert(p.take(1)[0] == parts@[0]@);
        }
        push_str(out, parts[i].as_str());
        assert(out@ =~= base + join(p.take(i + 1), sep@));
        i += 1;
    }
    assert(p.take(parts.len() as int) =~= p);
}

fn push_ports(out: &mut Vec<char>, ports: &Vec<u16>)
    ensures
        final(out)@ == old(out)@ + ports_text(ports@),
{
    let ghost d = decimals(ports@);
    let ghost base = out@;
    out.push('[');
    let mut i: usize = 0;
    proof {
        reveal_strlit("[");
        reveal_strlit("]");
        assert(join(d.take(0), ", "@) =~= Seq::<char>::empty());
        assert(out@ =~= base + "["@ + join(d.take(0), ", "@));
    }
    while i < ports.len()
        invariant
            d == decimals(ports@),
            i <= ports.len(),
            out@ == base + "["@ + join(d.take(i as int), ", "@),
        decreases ports.len() - i,
    {
        assert(d.take(i + 1).drop_last() =~= d.take(i as int));
        assert(d.take(i + 1).last() == decimal(ports@[i as int] as nat));
        if i > 0 {
            push_str(out, ", ");
        } else {
            assert(d.take(1)[0] == decimal(ports@[0] as nat));
        }
        push_decimal(out, ports[i] as u64);
        assert(out@ =~= base + "["@ + join(d.take(i + 1), ", "@));
        i += 1;
    }
    assert(d.take(ports.len() as int) =~= d);
    out.push(']');
    assert(out@ =~= base + ports_text(ports@));
}

// ---------------------------------------------------------------------------
// The scan report
// ---------------------------------------------------------------------------

pub open spec fn or_dash(o: Option<Seq<char>>) -> Seq<char> {
    match o {
        Some(s) => s,
        None => "-"@,
    }
}

/// One found host: address and MAC in columns, how it was found, its open
/// ports and why it is reserved.
pub open spec fn host_line(h: HostModel) -> Seq<char> {
    pad_right(h.ip, 15) + " "@ + pad_right(or_dash(h.mac), 17) + " via="@ + join(h.methods, ","@) + (
    if h.open_ports.len() == 0 {
        seq![]
    } else {
        " ports="@ + ports_text(h.open_ports)
    }) + match h.reserved_reason {
        Some(r) => " ["@ + r + "]"@,
        None => seq![],
    }
}

pub open spec fn host_lines(hs: Seq<HostModel>) -> Seq<Seq<char>> {
    hs.map_values(|h: HostModel| host_line(h))
}

/// The scan report: unless only suggestions are wanted, a header and the
/// hosts found; then the candidates and the warning.
pub open spec fn scan_text(f: FindingsModel, interface: Seq<char>, duration: Seq<char>, suggest_only: bool) -> Seq<char> {
    (if suggest_only {
        seq![]
    } else {
        "scan "@ + f.cidr + " via "@ + interface + " ("@ + decimal(f.scanned_hosts) + " hosts, "@
            + decimal(f.active_hosts.len()) + " active, "@ + duration + "ms)\n"@ + each_line(
            host_lines(f.active_hosts),
            ""@,
        ) + "\n"@
    }) + "疑似空闲候选:\n"@ + each_line(f.candidates, "  "@) + "\nwarning: "@ + f.warning
}

fn push_host_line(out: &mut Vec<char>, h: &LanHost)
    ensures
        final(out)@ == old(out)@ + host_line(h@),
{
    let ghost base = out@;
    push_padded(out, h.ip.as_str(), 15);
    push_str(out, " ");
    let mac: &str = match &h.mac {
        Some(m) => m.as_str(),
        None => "-",
    };
    push_padded(out, mac, 17);
    push_str(out, " via=");
    push_joined(out, &h.methods, ",");
    let ghost mid = out@;
    if h.open_ports.len() > 0 {
        push_str(out, " ports=");
        push_ports(out, &h.open_ports);
    }
    let ghost mid2 = out@;
    match &h.reserved_reason {
        Some(r) => {
            push_str(out, " [");
            push_str(out, r.as_str());
            push_str(out, "]");
        },
        None => {},
    }
    assert(out@ =~= base + host_line(h@));
}

fn push_lines(out: &mut Vec<char>, lines: &Vec<String>, prefix: &str)
    ensures
        final(out)@ == old(out)@ + each_line(string_views(lines@), prefix@),
{
    let ghost l = string_views(lines@);
    let ghost base = out@;
    let mut i: usize = 0;
    assert(each_line(l.take(0), prefix@) =~= Seq::<char>::empty());
    assert(base + Seq::<char>::empty() =~= base);
    while i < lines.len()
        invariant
            l == string_views(lines@),
            i <= lines.len(),
            out@ == base + each_line(l.take(i as int), prefix@),
        decreases lines.len() - i,
    {
        assert(l.take(i + 1).drop_last() =~= l.take(i as int));
        assert(l.take(i + 1).last() == lines@[i as int]@);
        push_str(out, prefix);
        push_str(out, lines[i].as_str());
        push_str(out, "\n");
        assert(out@ =~= base + each_line(l.take(i + 1), prefix@));
        i += 1;
    }
    assert(l.take(lines.len() as int) =~= l);
}

fn push_host_lines(out: &mut Vec<char>, hosts: &Vec<LanHost>)
    ensures
        final(out)@ == old(out)@ + each_line(host_lines(crate::scan::hosts_view(hosts@)), ""@),
{
    let ghost l = host_lines(crate::scan::hosts_view(hosts@));
    let ghost base = out@;
    let mut i: usize = 0;
    assert(each_line(l.take(0), ""@) =~= Seq::<char>::empty());
    assert(base + Seq::<char>::empty() =~= base);
    while i < hosts.len()
        invariant
            l == host_lines(crate::scan::hosts_view(hosts@)),
            i <= hosts.len(),
            out@ == base + each_line(l.take(i as int), ""@),
        decreases hosts.len() - i,
    {
        assert(l.take(i + 1).drop_last() =~= l.take(i as int));
        assert(l.take(i + 1).last() == host_line(hosts@[i as int]@));
        push_host_line(out, &hosts[i]);
        push_str(out, "\n");
        proof {
            reveal_strlit("");
            assert(""@ =~= Seq::<char>::empty());
        }
        assert(out@ =~= base + each_line(l.take(i + 1), ""@));
        i += 1;
    }
    assert(l.take(hosts.len() as int) =~= l);
}

/// The text report of a scan (`scan_text` in the model); `duration` is the
/// scan's duration in milliseconds, already rendered.
pub fn format_lan_scan(f: &ScanFindings, interface: &str, duration: &str, suggest_only: bool) -> (r: String)
    ensures
        r@ == scan_text(f@, interface@, duration@, suggest_only),
{
    let mut out: Vec<char> = Vec::new();
    if !suggest_only {
        push_str(&mut out, "scan ");
        push_str(&mut out, f.cidr.as_str());
        push_str(&mut out, " via ");
        push_str(&mut out, interface);
        push_str(&mut out, " (");
        push_decimal(&mut out, f.scanned_hosts as u64);
        push_str(&mut out, " hosts, ");
        push_decimal(&mut out, f.active_hosts.len() as u64);
        push_str(&mut out, " active, ");
        push_str(&mut out, duration);
        push_str(&mut out, "ms)\n");
        push_host_lines(&mut out, &f.active_hosts);
        push_str(&mut out, "\n");
    }
    let ghost head = out@;
    push_str(&mut out, "疑似空闲候选:\n");
    push_lines(&mut out, &f.candidates, "  ");
    push_str(&mut out, "\nwarning: ");
    push_str(&mut out, f.warning.as_str());
    proof {
        if suggest_only {
            assert(head =~= Seq::<char>::empty());
        }
    }
    assert(out@ =~= scan_text(f@, interface@, duration@, suggest_only));
    string_of(out.as_slice())
}

// ---------------------------------------------------------------------------
// The diagnosis report
// ---------------------------------------------------------------------------

pub open spec fn label(s: DiagnosticStatus) -> Seq<char> {
    match s {
        DiagnosticStatus::Passed => "passed"@,
        DiagnosticStatus::Warning => "warning"@,
        DiagnosticStatus::Failed => "failed"@,
        DiagnosticStatus::Skipped => "skipped"@,
    }
}

pub open spec fn or_empty(o: Option<Seq<char>>) -> Seq<char> {
    match o {
        Some(s) => s,
        None => seq![],
    }
}

/// The detail of a step that sent several probes: `answered/total noun`, or
/// the step's error when it has no data.
pub open spec fn count_detail(data: Option<(nat, nat)>, error: Option<Seq<char>>, noun: Seq<char>) -> Seq<char> {
    match data {
        Some((a, t)) => decimal(a) + "/"@ + decimal(t) + " "@ + noun,
        None => or_empty(error),
    }
}

/// The detail of the TCP step: `open` or `closed`, or the error.
pub open spec fn tcp_detail(open: Option<bool>, error: Option<Seq<char>>) -> Seq<char> {
    match open {
        Some(b) => if b {
            "open"@
        } else {
            "closed"@
        },
        None => or_empty(error),
    }
}

/// The detail of the HTTP step: `HTTP <status> <ms>ms`, or the error.
pub open spec fn http_detail(data: Option<(u16, Seq<char>)>, error: Option<Seq<char>>) -> Seq<char> {
    match data {
        Some((st, ms)) => "HTTP "@ + decimal(st as nat) + " "@ + ms + "ms"@,
        None => or_empty(error),
    }
}

/// The detail of the traceroute step: `<n> hops`, or the error, or `disabled`.
pub open spec fn trace_detail(hops: Option<nat>, error: Option<Seq<char>>) -> Seq<char> {
    match hops {
        Some(n) => decimal(n) + " hops"@,
        None => match error {
            Some(e) => e,
            None => "disabled"@,
        },
    }
}

pub open spec fn step_row(name: Seq<char>, status: DiagnosticStatus, detail: Seq<char>) -> Seq<char> {
    "\n"@ + pad_right(name, 10) + " "@ + pad_right(label(status), 7) + " "@ + detail
}

/// The grade and detail of one line of the diagnosis report.
pub struct StepLine {
    pub status: DiagnosticStatus,
    pub detail: String,
}

/// The five steps of a diagnosis, in report order.
pub struct StepLines {
    pub ping: StepLine,
    pub dns: StepLine,
    pub tcp: StepLine,
    pub http: StepLine,
    pub traceroute: StepLine,
}

/// The diagnosis report: target, overall grade and counts, total time, then
/// one line per step.
pub open spec fn diagnostic_text(host: Seq<char>, port: u16, summary: DiagnosticSummary, total: Seq<char>, steps: StepLines) -> Seq<char> {
    "diagnostic report for "@ + host + " ("@ + host + ":"@ + decimal(port as nat) + ")\noverall: "@
        + label(summary.status) + " | passed="@ + decimal(summary.passed as nat) + " warnings="@
        + decimal(summary.warnings as nat) + " failed="@ + decimal(summary.failed as nat) + " skipped="@
        + decimal(summary.skipped as nat) + " | "@ + total + "ms"@ + step_row(
        "ping"@,
        steps.ping.status,
        steps.ping.detail@,
    ) + step_row("dns"@, steps.dns.status, steps.dns.detail@) + step_row(
        "tcp"@,
        steps.tcp.status,
        steps.tcp.detail@,
    ) + step_row("http/tls"@, steps.http.status, steps.http.detail@) + step_row(
        "traceroute"@,
        steps.traceroute.status,
        steps.traceroute.detail@,
    )
}

fn opt_str_view(o: &Option<String>) -> (r: &str)
    ensures
        r@ == or_empty(crate::text::opt_view(*o)),
{
    match o {
        Some(s) => s.as_str(),
        None => {
            proof {
                reveal_strlit("");
            }
            ""
        },
    }
}

/// `count_detail` with the answers of a step's probes.
pub fn count_detail_text(data: Option<&[bool]>, error: &Option<String>, noun: &str) -> (r: String)
    ensures
        r@ == count_detail(
            match data {
                Some(d) => Some((crate::diagnostic::answered(d@), d@.len())),
                None => None,
            },
            crate::text::opt_view(*error),
            noun@,
        ),
{
    match data {
        Some(d) => {
            let a = crate::diagnostic::count_answered(d);
            let t = d.len();
            let mut out: Vec<char> = Vec::new();
            push_decimal(&mut out, a as u64);
            push_str(&mut out, "/");
            push_decimal(&mut out, t as u64);
            push_str(&mut out, " ");
            push_str(&mut out, noun);
            assert(out@ =~= decimal(a as nat) + "/"@ + decimal(t as nat) + " "@ + noun@);
            string_of(out.as_slice())
        },
        None => String::from_str(opt_str_view(error)),
    }
}

pub fn tcp_detail_text(open: Option<bool>, error: &Option<String>) -> (r: String)
    ensures
        r@ == tcp_detail(open, crate::text::opt_view(*error)),
{
    match open {
        Some(b) => if b {
            String::from_str("open")
        } else {
            String::from_str("closed")
        },
        None => String::from_str(opt_str_view(error)),
    }
}

pub fn http_detail_text(data: Option<(u16, &str)>, error: &Option<String>) -> (r: String)
    ensures
        r@ == http_detail(
            match data {
                Some((st, ms)) => Some((st, ms@)),
                None => None,
            },
            crate::text::opt_view(*error),
        ),
{
    match data {
        Some((st, ms)) => {
            let mut out: Vec<char> = Vec::new();
            push_str(&mut out, "HTTP ");
            push_decimal(&mut out, st as u64);
            push_str(&mut out, " ");
            push_str(&mut out, ms);
            push_str(&mut out, "ms");
            assert(out@ =~= "HTTP "@ + decimal(st as nat) + " "@ + ms@ + "ms"@);
            string_of(out.as_slice())
        },
        None => String::from_str(opt_str_view(error)),
    }
}

pub fn trace_detail_text(hops: Option<usize>, error: &Option<String>) -> (r: String)
    ensures
        r@ == trace_detail(
            match hops {
                Some(n) => Some(n as nat),
                None => None,
            },
            crate::text::opt_view(*error),
        ),
{
    match hops {
        Some(n) => {
            let mut out: Vec<char> = Vec::new();
            push_decimal(&mut out, n as u64);
            push_str(&mut out, " hops");
            string_of(out.as_slice())
        },
        None => match error {
            Some(e) => e.clone(),
            None => String::from_str("disabled"),
        },
    }
}

fn push_row(out: &mut Vec<char>, name: &str, line: &StepLine)
    ensures
        final(out)@ == old(out)@ + step_row(name@, line.status, line.detail@),
{
    let ghost base = out@;
    push_str(out, "\n");
    push_padded(out, name, 10);
    push_str(out, " ");
    push_padded(out, crate::diagnostic::diagnostic_status(line.status), 7);
    push_str(out, " ");
    push_str(out, line.detail.as_str());
    assert(out@ =~= base + step_row(name@, line.status, line.detail@));
}

/// The text report of a diagnosis (`diagnostic_text` in the model); `total`
/// is the total time in milliseconds, already rendered.
pub fn format_diagnostic(host: &str, port: u16, summary: &DiagnosticSummary, total: &str, steps: &StepLines) -> (r: String)
    ensures
        r@ == diagnostic_text(host@, port, *summary, total@, *steps),
{
    let mut out: Vec<char> = Vec::new();
    push_str(&mut out, "diagnostic report for ");
    push_str(&mut out, host);
    push_str(&mut out, " (");
    push_str(&mut out, host);
    push_str(&mut out, ":");
    push_decimal(&mut out, port as u64);
    push_str(&mut out, ")\noverall: ");
    push_str(&mut out, crate::diagnostic::diagnostic_status(summary.status));
    push_str(&mut out, " | passed=");
    push_decimal(&mut out, summary.passed as u64);
    push_str(&mut out, " warnings=");
    push_decimal(&mut out, summary.warnings as u64);
    push_str(&mut out, " failed=");
    push_decimal(&mut out, summary.failed as u64);
    push_str(&mut out, " skipped=");
    push_decimal(&mut out, summary.skipped as u64);
    push_str(&mut out, " | ");
    push_str(&mut out, total);
    push_str(&mut out, "ms");
    push_row(&mut out, "ping", &steps.ping);
    push_row(&mut out, "dns", &steps.dns);
    push_row(&mut out, "tcp", &steps.tcp);
    push_row(&mut out, "http/tls", &steps.http);
    push_row(&mut out, "traceroute", &steps.traceroute);
    assert(out@ =~= diagnostic_text(host@, port, *summary, total@, *steps));
    string_of(out.as_slice())
}

// ---------------------------------------------------------------------------
// Probe reports
// ---------------------------------------------------------------------------

pub open spec fn or_unknown(o: Option<Seq<char>>) -> Seq<char> {
    match o {
        Some(s) => s,
        None => "unknown"@,
    }
}

/// One ping as the report shows it; the round trip is already rendered.
pub struct PingLine {
    pub seq: u16,
    pub success: bool,
    pub from: String,
    pub rtt: String,
    pub error: Option<String>,
}

pub open spec fn ping_line(l: PingLine) -> Seq<char> {
    if l.success {
        "seq="@ + decimal(l.seq as nat) + " from="@ + l.from@ + " rtt="@ + l.rtt@ + "ms"@
    } else {
        "seq="@ + decimal(l.seq as nat) + " failed: "@ + or_unknown(crate::text::opt_view(l.error))
    }
}

pub open spec fn ping_lines(rows: Seq<PingLine>) -> Seq<Seq<char>> {
    rows.map_values(|l: PingLine| ping_line(l))
}

/// The ping report: one line per ping, trailing blanks removed.
pub open spec fn ping_text(rows: Seq<PingLine>) -> Seq<char> {
    crate::text::trim_end(each_line(ping_lines(rows), ""@))
}

fn trimmed_string(out: &Vec<char>) -> (r: String)
    ensures
        r@ == crate::text::trim_end(out@),
{
    let e = crate::text::trim_end_index(out.as_slice());
    let t = vstd::slice::slice_subrange(out.as_slice(), 0, e);
    assert(t@ =~= out@.take(e as int));
    string_of(t)
}

fn push_opt_or(out: &mut Vec<char>, o: &Option<String>, fallback: &str)
    ensures
        final(out)@ == old(out)@ + match crate::text::opt_view(*o) {
            Some(s) => s,
            None => fallback@,
        },
{
    match o {
        Some(s) => push_str(out, s.as_str()),
        None => push_str(out, fallback),
    }
}

fn push_ping_line(out: &mut Vec<char>, l: &PingLine)
    ensures
        final(out)@ == old(out)@ + ping_line(*l),
{
    let ghost base = out@;
    push_str(out, "seq=");
    push_decimal(out, l.seq as u64);
    if l.success {
        push_str(out, " from=");
        push_str(out, l.from.as_str());
        push_str(out, " rtt=");
        push_str(out, l.rtt.as_str());
        push_str(out, "ms");
    } else {
        push_str(out, " failed: ");
        push_opt_or(out, &l.error, "unknown");
    }
    assert(out@ =~= base + ping_line(*l));
}

/// The ping report (`ping_text` in the model).
pub fn format_ping(rows: &Vec<PingLine>) -> (r: String)
    ensures
        r@ == ping_text(rows@),
{
    let ghost l = ping_lines(rows@);
    let mut out: Vec<char> = Vec::new();
    let mut i: usize = 0;
    assert(each_line(l.take(0), ""@) =~= Seq::<char>::empty());
    while i < rows.len()
        invariant
            l == ping_lines(rows@),
            i <= rows.len(),
            out@ == each_line(l.take(i as int), ""@),
        decreases rows.len() - i,
    {
        assert(l.take(i + 1).drop_last() =~= l.take(i as int));
        assert(l.take(i + 1).last() == ping_line(rows@[i as int]));
        push_ping_line(&mut out, &rows[i]);
        push_str(&mut out, "\n");
        proof {
            reveal_strlit("");
            assert(""@ =~= Seq::<char>::empty());
        }
        assert(out@ =~= each_line(l.take(i + 1), ""@));
        i += 1;
    }
    assert(l.take(rows.len() as int) =~= l);
    trimmed_string(&out)
}

/// One TCP probe as the report shows it; the round trip is already rendered.
pub struct TcpLine {
    pub host: String,
    pub port: u16,
    pub success: bool,
    pub rtt: String,
    pub service: Option<String>,
    pub error: Option<String>,
}

pub open spec fn tagged(tag: Seq<char>, o: Option<String>) -> Seq<char> {
    match o {
        Some(s) => tag + s@,
        None => seq![],
    }
}

pub open spec fn tcp_line(l: TcpLine) -> Seq<char> {
    l.host@ + ":"@ + decimal(l.port as nat) + " "@ + (if l.success {
        "open"@
    } else {
        "closed"@
    }) + " rtt="@ + l.rtt@ + "ms"@ + tagged(" service="@, l.service) + tagged(" error="@, l.error)
}

fn push_tagged(out: &mut Vec<char>, tag: &str, o: &Option<String>)
    ensures
        final(out)@ == old(out)@ + tagged(tag@, *o),
{
    match o {
        Some(s) => {
            push_str(out, tag);
            push_str(out, s.as_str());
        },
        None => {
            assert(out@ + Seq::<char>::empty() =~= out@);
        },
    }
}

fn push_tcp_line(out: &mut Vec<char>, l: &TcpLine)
    ensures
        final(out)@ == old(out)@ + tcp_line(*l),
{
    let ghost base = out@;
    push_str(out, l.host.as_str());
    push_str(out, ":");
    push_decimal(out, l.port as u64);
    push_str(out, " ");
    if l.success {
        push_str(out, "open");
    } else {
        push_str(out, "closed");
    }
    push_str(out, " rtt=");
    push_str(out, l.rtt.as_str());
    push_str(out, "ms");
    push_tagged(out, " service=", &l.service);
    push_tagged(out, " error=", &l.error);
    assert(out@ =~= base + tcp_line(*l));
}

/// One TCP probe's line (`tcp_line` in the model).
pub fn format_tcp_probe(l: &TcpLine) -> (r: String)
    ensures
        r@ == tcp_line(*l),
{
    let mut out: Vec<char> = Vec::new();
    push_tcp_line(&mut out, l);
    assert(out@ =~= tcp_line(*l));
    string_of(out.as_slice())
}

pub open spec fn tcp_lines(rows: Seq<TcpLine>) -> Seq<Seq<char>> {
    rows.map_values(|l: TcpLine| tcp_line(l))
}

/// Several TCP probes, one line each.
pub fn format_tcp_scan(rows: &Vec<TcpLine>) -> (r: String)
    ensures
        r@ == join(tcp_lines(rows@), "\n"@),
{
    let ghost l = tcp_lines(rows@);
    let mut out: Vec<char> = Vec::new();
    let mut i: usize = 0;
    assert(join(l.take(0), "\n"@) =~= Seq::<char>::empty());
    while i < rows.len()
        invariant
            l == tcp_lines(rows@),
            i <= rows.len(),
            out@ == join(l.take(i as int), "\n"@),
        decreases rows.len() - i,
    {
        assert(l.take(i + 1).drop_last() =~= l.take(i as int));
        assert(l.take(i + 1).last() == tcp_line(rows@[i as int]));
        if i > 0 {
            push_str(&mut out, "\n");
        } else {
            assert(l.take(1)[0] == tcp_line(rows@[0]));
            assert(out@ =~= Seq::<char>::empty());
        }
        push_tcp_line(&mut out, &rows[i]);
        assert(out@ =~= join(l.take(i + 1), "\n"@));
        i += 1;
    }
    assert(l.take(rows.len() as int) =~= l);
    string_of(out.as_slice())
}

/// One resolver's answer as the report shows it; the round trip is already rendered.
pub struct DnsLine {
    pub server: String,
    pub success: bool,
    pub rtt: String,
    pub records: Vec<String>,
    pub error: Option<String>,
}

pub open spec fn dns_line(l: DnsLine) -> Seq<char> {
    if l.success {
        l.server@ + " "@ + l.rtt@ + "ms "@ + join(string_views(l.records@), ", "@)
    } else {
        l.server@ + " failed: "@ + or_unknown(crate::text::opt_view(l.error))
    }
}

pub open spec fn dns_lines(rows: Seq<DnsLine>) -> Seq<Seq<char>> {
    rows.map_values(|l: DnsLine| dns_line(l))
}

/// The DNS report: one line per resolver, trailing blanks removed.
pub open spec fn dns_text(rows: Seq<DnsLine>) -> Seq<char> {
    crate::text::trim_end(each_line(dns_lines(rows), ""@))
}

fn push_dns_line(out: &mut Vec<char>, l: &DnsLine)
    ensures
        final(out)@ == old(out)@ + dns_line(*l),
{
    let ghost base = out@;
    push_str(out, l.server.as_str());
    if l.success {
        push_str(out, " ");
        push_str(out, l.rtt.as_str());
        push_str(out, "ms ");
        push_joined(out, &l.records, ", ");
    } else {
        push_str(out, " failed: ");
        push_opt_or(out, &l.error, "unknown");
    }
    assert(out@ =~= base + dns_line(*l));
}

/// The DNS report (`dns_text` in the model).
pub fn format_dns(rows: &Vec<DnsLine>) -> (r: String)
    ensures
        r@ == dns_text(rows@),
{
    let ghost l = dns_lines(rows@);
    let mut out: Vec<char> = Vec::new();
    let mut i: usize = 0;
    assert(each_line(l.take(0), ""@) =~= Seq::<char>::empty());
    while i < rows.len()
        invariant
            l == dns_lines(rows@),
            i <= rows.len(),
            out@ == each_line(l.take(i as int), ""@),
        decreases rows.len() - i,
    {
        assert(l.take(i + 1).drop_last() =~= l.take(i as int));
        assert(l.take(i + 1).last() == dns_line(rows@[i as int]));
        push_dns_line(&mut out, &rows[i]);
        push_str(&mut out, "\n");
        proof {
            reveal_strlit("");
            assert(""@ =~= Seq::<char>::empty());
        }
        assert(out@ =~= each_line(l.take(i + 1), ""@));
        i += 1;
    }
    assert(l.take(rows.len() as int) =~= l);
    trimmed_string(&out)
}

/// An HTTP probe as the report shows it; the total time is already rendered.
pub struct HttpLine {
    pub status: u16,
    pub status_text: String,
    pub total: String,
    pub body_size: usize,
    pub final_url: String,
    pub error: Option<String>,
    /// The certificate's subject and days until it expires.
    pub tls: Option<(String, i64)>,
    pub body_preview: String,
}

/// An integer in decimal, with a minus sign when negative.
pub open spec fn signed_decimal(d: int) -> Seq<char> {
    if d < 0 {
        "-"@ + decimal((-d) as nat)
    } else {
        decimal(d as nat)
    }
}

pub open spec fn http_text(l: HttpLine) -> Seq<char> {
    decimal(l.status as nat) + " "@ + l.status_text@ + " "@ + l.total@ + "ms "@ + decimal(
        l.body_size as nat,
    ) + " bytes\nfinal_url: "@ + l.final_url@ + tagged("\nerror: "@, l.error) + match l.tls {
        Some((subject, days)) => "\ntls_subject: "@ + subject@ + "\ntls_expires_in_days: "@
            + signed_decimal(days as int),
        None => seq![],
    } + if l.body_preview@.len() > 0 {
        "\n\n"@ + l.body_preview@
    } else {
        seq![]
    }
}

pub(crate) fn push_signed(out: &mut Vec<char>, d: i64)
    ensures
        final(out)@ == old(out)@ + signed_decimal(d as int),
{
    if d < 0 {
        push_str(out, "-");
        let m: u64 = (0i128 - (d as i128)) as u64;
        push_decimal(out, m);
    } else {
        push_decimal(out, d as u64);
    }
}

/// The HTTP report (`http_text` in the model).
pub fn format_http(l: &HttpLine) -> (r: String)
    ensures
        r@ == http_text(*l),
{
    let mut out: Vec<char> = Vec::new();
    push_decimal(&mut out, l.status as u64);
    push_str(&mut out, " ");
    push_str(&mut out, l.status_text.as_str());
    push_str(&mut out, " ");
    push_str(&mut out, l.total.as_str());
    push_str(&mut out, "ms ");
    push_decimal(&mut out, l.body_size as u64);
    push_str(&mut out, " bytes\nfinal_url: ");
    push_str(&mut out, l.final_url.as_str());
    push_tagged(&mut out, "\nerror: ", &l.error);
    let ghost mid = out@;
    match &l.tls {
        Some((subject, days)) => {
            push_str(&mut out, "\ntls_subject: ");
            push_str(&mut out, subject.as_str());
            push_str(&mut out, "\ntls_expires_in_days: ");
            push_signed(&mut out, *days);
        },
        None => {},
    }
    let ghost mid2 = out@;
    if l.body_preview.as_str().is_empty() {
    } else {
        push_str(&mut out, "\n\n");
        push_str(&mut out, l.body_preview.as_str());
    }
    assert(out@ =~= http_text(*l));
    string_of(out.as_slice())
}

/// One traceroute hop as the report shows it; each probe's time is already
/// rendered (`None` for a probe that timed out).
pub struct HopLine {
    pub ttl: u8,
    pub addr: Option<String>,
    pub rtts: Vec<Option<String>>,
}

/// `s` padded with blanks on the left to `w` characters (`{:>w}`).
pub open spec fn pad_left(s: Seq<char>, w: nat) -> Seq<char> {
    if s.len() >= w {
        s
    } else {
        spaces((w - s.len()) as nat) + s
    }
}

pub open spec fn rtt_texts(r: Seq<Option<String>>) -> Seq<Seq<char>> {
    r.map_values(|o: Option<String>| match o {
        Some(t) => t@ + "ms"@,
        None => "*"@,
    })
}

pub open spec fn hop_line(h: HopLine) -> Seq<char> {
    pad_left(decimal(h.ttl as nat), 2) + " "@ + pad_right(
        match h.addr {
            Some(a) => a@,
            None => "*"@,
        },
        20,
    ) + " "@ + join(rtt_texts(h.rtts@), " "@)
}

pub open spec fn hop_lines(rows: Seq<HopLine>) -> Seq<Seq<char>> {
    rows.map_values(|h: HopLine| hop_line(h))
}

/// The traceroute report: one line per hop, trailing blanks removed.
pub open spec fn trace_text(rows: Seq<HopLine>) -> Seq<char> {
    crate::text::trim_end(each_line(hop_lines(rows), ""@))
}

fn push_hop_line(out: &mut Vec<char>, h: &HopLine)
    ensures
        final(out)@ == old(out)@ + hop_line(*h),
{
    let ghost base = out@;
    let ttl = crate::num::decimal_exec(h.ttl as u64);
    proof {
        crate::num::lemma_decimal_digits(h.ttl as nat);
    }
    if ttl.len() < 2 {
        out.push(' ');
    }
    push_chars(out, ttl.as_slice());
    proof {
        if ttl.len() < 2 {
            assert(spaces(1) =~= seq![' ']);
            assert(out@ =~= base + pad_left(decimal(h.ttl as nat), 2));
        } else {
            assert(out@ =~= base + pad_left(decimal(h.ttl as nat), 2));
        }
    }
    push_str(out, " ");
    let addr: &str = match &h.addr {
        Some(a) => a.as_str(),
        None => "*",
    };
    push_padded(out, addr, 20);
    push_str(out, " ");
    let ghost t = rtt_texts(h.rtts@);
    let ghost mid = out@;
    let mut i: usize = 0;
    assert(join(t.take(0), " "@) =~= Seq::<char>::empty());
    assert(mid + Seq::<char>::empty() =~= mid);
    while i < h.rtts.len()
        invariant
            t == rtt_texts(h.rtts@),
            i <= h.rtts.len(),
            out@ == mid + join(t.take(i as int), " "@),
        decreases h.rtts.len() - i,
    {
        assert(t.take(i + 1).drop_last() =~= t.take(i as int));
        if i > 0 {
            push_str(out, " ");
        } else {
            assert(t.take(1)[0] == t[0]);
        }
        match &h.rtts[i] {
            Some(v) => {
                push_str(out, v.as_str());
                push_str(out, "ms");
            },
            None => push_str(out, "*"),
        }
        assert(out@ =~= mid + join(t.take(i + 1), " "@));
        i += 1;
    }
    assert(t.take(h.rtts.len() as int) =~= t);
    assert(out@ =~= base + hop_line(*h));
}

/// The traceroute report (`trace_text` in the model).
pub fn format_trace(rows: &Vec<HopLine>) -> (r: String)
    ensures
        r@ == trace_text(rows@),
{
    let ghost l = hop_lines(rows@);
    let mut out: Vec<char> = Vec::new();
    let mut i: usize = 0;
    assert(each_line(l.take(0), ""@) =~= Seq::<char>::empty());
    while i < rows.len()
        invariant
            l == hop_lines(rows@),
            i <= rows.len(),
            out@ == each_line(l.take(i as int), ""@),
        decreases rows.len() - i,
    {
        assert(l.take(i + 1).drop_last() =~= l.take(i as int));
        assert(l.take(i + 1).last() == hop_line(rows@[i as int]));
        push_hop_line(&mut out, &rows[i]);
        push_str(&mut out, "\n");
        proof {
            reveal_strlit("");
            assert(""@ =~= Seq::<char>::empty());
        }
        assert(out@ =~= each_line(l.take(i + 1), ""@));
        i += 1;
    }
    assert(l.take(rows.len() as int) =~= l);
    trimmed_string(&out)
}

} // verus!
