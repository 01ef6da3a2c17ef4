//! The decisions of a DNS comparison: the record type asked for, the servers
//! asked, and what a lookup's outcome reports.

use vstd::prelude::*;
use crate::text::{ascii_upper, ascii_upper_exec, eq_str, to_chars};

verus! {

/// The record types a query can ask for.
#[derive(Debug, Clone, Copy, PartialEq, Eq, Structural)]
pub enum RecordKind {
    A,
    Aaaa,
    Cname,
    Mx,
    Ns,
    Txt,
    Soa,
    Srv,
    Ptr,
    Caa,
}

/// The record type a name stands for, in any letter case; `A` for any other name.
pub open spec fn record_kind(name: Seq<char>) -> RecordKind {
    let u = ascii_upper(name);
    if u == "A"@ {
        RecordKind::A
    } else if u == "AAAA"@ {
        RecordKind::Aaaa
    } else if u == "CNAME"@ {
        RecordKind::Cname
    } else if u == "MX"@ {
        RecordKind::Mx
    } else if u == "NS"@ {
        RecordKind::Ns
    } else if u == "TXT"@ {
        RecordKind::Txt
    } else if u == "SOA"@ {
        RecordKind::Soa
    } else if u == "SRV"@ {
        RecordKind::Srv
    } else if u == "PTR"@ {
        RecordKind::Ptr
    } else if u == "CAA"@ {
        RecordKind::Caa
    } else {
        RecordKind::A
    }
}

/// Reads a record type name (`record_kind` in the model).
pub fn parse_record_type(s: &str) -> (r: RecordKind)
    ensures
        r == record_kind(s@),
{
    let cs = to_chars(s);
    let u = ascii_upper_exec(cs.as_slice());
    let t = u.as_slice();
    if eq_str(t, "A") {
        RecordKind::A
    } else if eq_str(t, "AAAA") {
        RecordKind::Aaaa
    } else if eq_str(t, "CNAME") {
        RecordKind::Cname
    } else if eq_str(t, "MX") {
        RecordKind::Mx
    } else if eq_str(t, "NS") {
        RecordKind::Ns
    } else if eq_str(t, "TXT") {
        RecordKind::Txt
    } else if eq_str(t, "SOA") {
        RecordKind::Soa
    } else if eq_str(t, "SRV") {
        RecordKind::Srv
    } else if eq_str(t, "PTR") {
        RecordKind::Ptr
    } else if eq_str(t, "CAA") {
        RecordKind::Caa
    } else {
        RecordKind::A
    }
}

/// The servers to ask: the given ones, or the system's resolver (`system`)
/// when none is given.
pub fn query_servers(servers: Vec<String>) -> (r: Vec<String>)
    ensures
        servers.len() == 0 ==> crate::text::string_views(r@) == seq!["system"@],
        servers.len() > 0 ==> r@ == servers@,
{
    if servers.len() == 0 {
        let mut v: Vec<String> = Vec::new();
        v.push(String::from_str("system"));
        assert(crate::text::string_views(v@) =~= seq!["system"@]);
        v
    } else {
        servers
    }
}

/// What one server's answer reports.
#[derive(Debug, Clone)]
pub struct DnsAnswer {
    pub success: bool,
    pub records: Vec<String>,
    pub error: Option<String>,
}

/// The report of a lookup: its records, a success when there is at least one,
/// else the error `无返回记录`; a failed lookup reports its error and no records.
pub fn lookup_answer(outcome: Result<Vec<String>, String>) -> (r: DnsAnswer)
    ensures
        match outcome {
            Ok(records) => {
                &&& r.records@ == records@
                &&& r.success == (records.len() > 0)
                &&& records.len() > 0 ==> r.error is None
                &&& records.len() == 0 ==> (r.error matches Some(e) && e@ == "无返回记录"@)
            },
            Err(e) => !r.success && r.records.len() == 0 && (r.error matches Some(x) && x@ == e@),
        },
{
    match outcome {
        Ok(records) => {
            let success = records.len() > 0;
            DnsAnswer {
                success,
                error: if success {
                    None
                } else {
                    Some(String::from_str("无返回记录"))
                },
                records,
            }
        },
        Err(e) => DnsAnswer { success: false, records: Vec::new(), error: Some(e) },
    }
}


/// The name of a record type, in upper case.
pub open spec fn kind_name(k: RecordKind) -> Seq<char> {
    match k {
        RecordKind::A => "A"@,
        RecordKind::Aaaa => "AAAA"@,
        RecordKind::Cname => "CNAME"@,
        RecordKind::Mx => "MX"@,
        RecordKind::Ns => "NS"@,
        RecordKind::Txt => "TXT"@,
        RecordKind::Soa => "SOA"@,
        RecordKind::Srv => "SRV"@,
        RecordKind::Ptr => "PTR"@,
        RecordKind::Caa => "CAA"@,
    }
}

proof fn lemma_upper_idempotent(s: Seq<char>)
    ensures
        ascii_upper(ascii_upper(s)) == ascii_upper(s),
{
    assert(ascii_upper(ascii_upper(s)) =~= ascii_upper(s));
}

/// Record type names: each of the ten names, in any letter case, asks for its
/// own record type (so no two of them ask for the same one); the letter case of
/// a name never matters; and any name that asks for something other than `A`
/// is one of the ten.
pub proof fn law_record_kinds(name: Seq<char>, k: RecordKind)
    ensures
        ascii_upper(name) == kind_name(k) ==> record_kind(name) == k,
        record_kind(name) == record_kind(ascii_upper(name)),
        record_kind(name) != RecordKind::A ==> ascii_upper(name) == kind_name(record_kind(name)),
{
    reveal_strlit("A");
    reveal_strlit("AAAA");
    reveal_strlit("CNAME");
    reveal_strlit("MX");
    reveal_strlit("NS");
    reveal_strlit("TXT");
    reveal_strlit("SOA");
    reveal_strlit("SRV");
    reveal_strlit("PTR");
    reveal_strlit("CAA");
    lemma_upper_idempotent(name);
    assert("MX"@[0] != "NS"@[0]);
    assert("TXT"@[0] != "SOA"@[0] && "TXT"@[0] != "SRV"@[0] && "TXT"@[0] != "PTR"@[0] && "TXT"@[0]
        != "CAA"@[0]);
    assert("SOA"@[1] != "SRV"@[1] && "SOA"@[0] != "PTR"@[0] && "SOA"@[0] != "CAA"@[0]);
    assert("SRV"@[0] != "PTR"@[0] && "SRV"@[0] != "CAA"@[0] && "PTR"@[0] != "CAA"@[0]);
    assert("AAAA"@[0] == 'A');
}

} // verus!
