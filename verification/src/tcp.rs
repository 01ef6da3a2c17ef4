//! The decisions around TCP probes: how many to run at once, what a failed
//! connection reports, and what the discovery connections of a scan reveal.

use vstd::prelude::*;
use crate::num::{decimal, push_decimal};
use crate::text::{lit_then, string_of, to_chars};

verus! {

/// How many probes of a port scan run at once: the requested number held to 1–256.
pub fn scan_concurrency(requested: usize) -> (r: usize)
    ensures
        r == (if requested < 1 {
            1
        } else if requested > 256 {
            256
        } else {
            requested
        }),
{
    if requested < 1 {
        1
    } else if requested > 256 {
        256
    } else {
        requested
    }
}

/// Why a connection attempt gave up.
#[derive(Debug, Clone)]
pub enum ConnectFailure {
    /// The connection failed; the system's error text.
    Error(String),
    /// No answer within the timeout, in milliseconds.
    TimedOut(u64),
}

pub open spec fn failure_text(f: ConnectFailure) -> Seq<char> {
    match f {
        ConnectFailure::Error(e) => "连接失败: "@ + e@,
        ConnectFailure::TimedOut(ms) => "超时 ("@ + decimal(ms as nat) + " ms)"@,
    }
}

/// The error a failed probe reports (`failure_text` in the model).
pub fn connect_failure_text(f: &ConnectFailure) -> (r: String)
    ensures
        r@ == failure_text(*f),
{
    match f {
        ConnectFailure::Error(e) => {
            let cs = to_chars(e.as_str());
            lit_then("连接失败: ", cs.as_slice())
        },
        ConnectFailure::TimedOut(ms) => {
            let mut out = to_chars("超时 (");
            push_decimal(&mut out, *ms);
            crate::report::push_str(&mut out, " ms)");
            string_of(out.as_slice())
        },
    }
}

/// The ports a scan connects to when looking for hosts.
pub fn discovery_ports() -> (r: Vec<u16>)
    ensures
        r@ == seq![22u16, 80, 443, 445, 3389, 9100],
{
    let mut v: Vec<u16> = Vec::new();
    v.push(22);
    v.push(80);
    v.push(443);
    v.push(445);
    v.push(3389);
    v.push(9100);
    assert(v@ =~= seq![22u16, 80, 443, 445, 3389, 9100]);
    v
}

/// How one discovery connection ended.
#[derive(Debug, Clone, Copy, PartialEq, Eq, Structural)]
pub enum ConnectOutcome {
    Connected,
    /// Refused (a reset): a host is there, the port is closed.
    Refused,
    /// Timed out or failed otherwise.
    Silent,
}

/// Whether any attempt met a host (connected or refused).
pub open spec fn any_answer(attempts: Seq<(u16, ConnectOutcome)>) -> bool {
    exists|k: int| 0 <= k < attempts.len() && attempts[k].1 != ConnectOutcome::Silent
}

pub open spec fn connected() -> spec_fn((u16, ConnectOutcome)) -> bool {
    |a: (u16, ConnectOutcome)| a.1 == ConnectOutcome::Connected
}

pub open spec fn ports_of(s: Seq<(u16, ConnectOutcome)>) -> Seq<u16> {
    s.map_values(|a: (u16, ConnectOutcome)| a.0)
}

/// What the discovery connections of one address show: whether a host
/// answered, and the ports that accepted, in attempt order.
pub fn tcp_presence(attempts: &[(u16, ConnectOutcome)]) -> (r: (bool, Vec<u16>))
    ensures
        r.0 == any_answer(attempts@),
        r.1@ == ports_of(attempts@.filter(connected())),
{
    let ghost a = attempts@;
    let ghost pred = connected();
    let mut present = false;
    let mut open: Vec<u16> = Vec::new();
    let mut i: usize = 0;
    assert(ports_of(a.take(0).filter(pred)) =~= Seq::<u16>::empty());
    while i < attempts.len()
        invariant
            a == attempts@,
            pred == connected(),
            i <= attempts.len(),
            present == (exists|k: int| 0 <= k < i && a[k].1 != ConnectOutcome::Silent),
            open@ == ports_of(a.take(i as int).filter(pred)),
        decreases attempts.len() - i,
    {
        proof {
            crate::text::lemma_filter_step(a, i as int, pred);
        }
        let (port, outcome) = attempts[i];
        match outcome {
            ConnectOutcome::Connected => {
                present = true;
                open.push(port);
                assert(open@ =~= ports_of(a.take(i + 1).filter(pred)));
            },
            ConnectOutcome::Refused => {
                present = true;
            },
            ConnectOutcome::Silent => {},
        }
        i += 1;
    }
    assert(a.take(attempts.len() as int) =~= a);
    (present, open)
}

} // verus!
