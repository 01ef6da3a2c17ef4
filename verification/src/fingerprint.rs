//! Service fingerprinting of an open TCP port: reading a greeting banner,
//! guessing by port number, and the decisions of the two-step probe.

use vstd::prelude::*;
use crate::text::{ascii_lower, ascii_lower_exec, contains_seq, contains_str, starts_with_str, to_chars, trim_start, trim_start_exec};

verus! {

/// The service a banner announces, judged on its text after leading blanks.
pub open spec fn banner_service(banner: Seq<char>) -> Option<Seq<char>> {
    let t = trim_start(banner);
    if t.len() >= 4 && t.take(4) == "SSH-"@ {
        Some("SSH"@)
    } else if t.len() >= 3 && t.take(3) == "+OK"@ {
        Some("POP3"@)
    } else if t.len() >= 4 && t.take(4) == "* OK"@ {
        Some("IMAP"@)
    } else if contains_seq(t, "HTTP/1"@) || contains_seq(t, "HTTP/2"@) {
        Some("HTTP"@)
    } else if t.len() >= 4 && (t.take(4) == "220 "@ || t.take(4) == "220-"@) {
        if contains_seq(ascii_lower(t), "ftp"@) {
            Some("FTP"@)
        } else if contains_seq(ascii_lower(t), "smtp"@) || contains_seq(ascii_lower(t), "esmtp"@) {
            Some("SMTP"@)
        } else {
            Some("SMTP/FTP (220 banner)"@)
        }
    } else {
        None
    }
}

proof fn lemma_lit_lens()
    ensures
        "SSH-"@.len() == 4,
        "+OK"@.len() == 3,
        "* OK"@.len() == 4,
        "220 "@.len() == 4,
        "220-"@.len() == 4,
{
    reveal_strlit("SSH-");
    reveal_strlit("+OK");
    reveal_strlit("* OK");
    reveal_strlit("220 ");
    reveal_strlit("220-");
}

/// Classifies a greeting banner (`banner_service` in the model).
pub fn classify(banner: &str, port: u16) -> (r: Option<String>)
    ensures
        match banner_service(banner@) {
            Some(s) => r matches Some(x) && x@ == s,
            None => r is None,
        },
{
    proof {
        lemma_lit_lens();
    }
    let chars = to_chars(banner);
    let t = trim_start_exec(chars.as_slice());
    if starts_with_str(t, "SSH-") {
        return Some(String::from_str("SSH"));
    }
    if starts_with_str(t, "+OK") {
        return Some(String::from_str("POP3"));
    }
    if starts_with_str(t, "* OK") {
        return Some(String::from_str("IMAP"));
    }
    if contains_str(t, "HTTP/1") || contains_str(t, "HTTP/2") {
        return Some(String::from_str("HTTP"));
    }
    if starts_with_str(t, "220 ") || starts_with_str(t, "220-") {
        let lower = ascii_lower_exec(t);
        if contains_str(lower.as_slice(), "ftp") {
            return Some(String::from_str("FTP"));
        }
        if contains_str(lower.as_slice(), "smtp") || contains_str(lower.as_slice(), "esmtp") {
            return Some(String::from_str("SMTP"));
        }
        return Some(String::from_str("SMTP/FTP (220 banner)"));
    }
    None
}

/// Ports on which HTTP servers commonly listen without greeting first.
pub open spec fn likely_http(port: u16) -> bool {
    port == 80 || port == 81 || port == 591 || port == 2480 || port == 4567 || port == 5000 || port
        == 5001 || port == 8000 || port == 8008 || port == 8080 || port == 8081 || port == 8088
        || port == 8888 || port == 9000 || port == 3000
}

pub fn is_likely_http(port: u16) -> (r: bool)
    ensures
        r == likely_http(port),
{
    port == 80 || port == 81 || port == 591 || port == 2480 || port == 4567 || port == 5000 || port
        == 5001 || port == 8000 || port == 8008 || port == 8080 || port == 8081 || port == 8088
        || port == 8888 || port == 9000 || port == 3000
}

/// The service usually found on a port, or `open`.
pub open spec fn port_service(port: u16) -> Seq<char> {
    if port == 20 || port == 21 {
        "FTP (probable)"@
    } else if port == 22 {
        "SSH (probable)"@
    } else if port == 23 {
        "Telnet (probable)"@
    } else if port == 25 || port == 587 || port == 465 {
        "SMTP (probable)"@
    } else if port == 53 {
        "DNS (probable)"@
    } else if port == 80 || port == 8080 || port == 8000 || port == 8008 || port == 8088 || port
        == 3000 || port == 5000 {
        "HTTP (probable)"@
    } else if port == 110 {
        "POP3 (probable)"@
    } else if port == 143 {
        "IMAP (probable)"@
    } else if port == 443 || port == 8443 {
        "HTTPS/TLS (probable)"@
    } else if port == 993 {
        "IMAPS (probable)"@
    } else if port == 995 {
        "POP3S (probable)"@
    } else if port == 3306 {
        "MySQL (probable)"@
    } else if port == 5432 {
        "PostgreSQL (probable)"@
    } else if port == 6379 {
        "Redis (probable)"@
    } else if port == 27017 {
        "MongoDB (probable)"@
    } else if 5900 <= port && port <= 5910 {
        "VNC (probable)"@
    } else if port == 3389 {
        "RDP (probable)"@
    } else {
        "open"@
    }
}

pub fn port_guess(port: u16) -> (r: String)
    ensures
        r@ == port_service(port),
{
    let s = match port {
        20 | 21 => "FTP (probable)",
        22 => "SSH (probable)",
        23 => "Telnet (probable)",
        25 | 587 | 465 => "SMTP (probable)",
        53 => "DNS (probable)",
        80 | 8080 | 8000 | 8008 | 8088 | 3000 | 5000 => "HTTP (probable)",
        110 => "POP3 (probable)",
        143 => "IMAP (probable)",
        443 | 8443 => "HTTPS/TLS (probable)",
        993 => "IMAPS (probable)",
        995 => "POP3S (probable)",
        3306 => "MySQL (probable)",
        5432 => "PostgreSQL (probable)",
        6379 => "Redis (probable)",
        27017 => "MongoDB (probable)",
        5900..=5910 => "VNC (probable)",
        3389 => "RDP (probable)",
        _ => "open",
    };
    String::from_str(s)
}

// ---------------------------------------------------------------------------
// The two-step probe
// ---------------------------------------------------------------------------

/// What to do after the passive read of a fresh connection.
pub enum FingerprintStep {
    /// The result: service and banner.
    Done(Option<String>, Option<String>),
    /// Send an HTTP `HEAD` request and read the answer.
    SendHttpProbe,
}

/// After waiting for a greeting: a banner is classified (falling back to the
/// port's usual service); without one, likely HTTP ports get an active probe
/// and other ports are judged by number.
pub fn after_passive_read(port: u16, banner: Option<String>) -> (r: FingerprintStep)
    ensures
        match banner {
            Some(b) => r matches FingerprintStep::Done(Some(s), Some(b2)) && b2@ == b@ && s@ == match banner_service(b@) {
                Some(x) => x,
                None => port_service(port),
            },
            None => if likely_http(port) {
                r is SendHttpProbe
            } else {
                r matches FingerprintStep::Done(Some(s), None) && s@ == port_service(port)
            },
        },
{
    match banner {
        Some(b) => {
            let service = match classify(b.as_str(), port) {
                Some(s) => s,
                None => port_guess(port),
            };
            FingerprintStep::Done(Some(service), Some(b))
        },
        None => if is_likely_http(port) {
            FingerprintStep::SendHttpProbe
        } else {
            FingerprintStep::Done(Some(port_guess(port)), None)
        },
    }
}

/// After the HTTP probe: an answer containing `HTTP/` is HTTP; any other answer
/// is kept with the port's usual service; no answer (or a failed send) leaves
/// the port's usual service alone.
pub fn after_active_read(port: u16, answer: Option<String>) -> (r: (Option<String>, Option<String>))
    ensures
        match answer {
            Some(b) => (r.1 matches Some(b2) && b2@ == b@) && (r.0 matches Some(s) && s@ == if contains_seq(
                b@,
                "HTTP/"@,
            ) {
                "HTTP"@
            } else {
                port_service(port)
            }),
            None => r.1 is None && (r.0 matches Some(s) && s@ == port_service(port)),
        },
{
    match answer {
        Some(b) => {
            let chars = to_chars(b.as_str());
            if contains_str(chars.as_slice(), "HTTP/") {
                (Some(String::from_str("HTTP")), Some(b))
            } else {
                (Some(port_guess(port)), Some(b))
            }
        },
        None => (Some(port_guess(port)), None),
    }
}


/// The text of bytes read from a port (at most the first read): decoded as
/// UTF-8, malformed sequences replaced.
pub fn received_text(bytes: &[u8]) -> (r: String)
    ensures
        r@ == crate::http::lossy_text(bytes@),
        vstd::utf8::valid_utf8(bytes@) ==> r@ == vstd::utf8::decode_utf8(bytes@),
{
    crate::http::utf8_lossy(bytes)
}


/// The well-known ports, each with the service a port guess names: FTP on 20
/// and 21, SSH on 22, Telnet on 23, SMTP on 25, 465 and 587, DNS on 53, HTTP on
/// 80, 3000, 5000, 8000, 8008, 8080 and 8088, POP3 on 110, IMAP on 143,
/// HTTPS/TLS on 443 and 8443, IMAPS on 993, POP3S on 995, MySQL on 3306,
/// PostgreSQL on 5432, Redis on 6379, MongoDB on 27017, VNC on 5900 to 5910 and
/// RDP on 3389; every other port is only reported `open`.
pub proof fn law_port_guess(port: u16)
    ensures
        (port == 20 || port == 21) ==> port_service(port) == "FTP (probable)"@,
        port == 22 ==> port_service(port) == "SSH (probable)"@,
        port == 23 ==> port_service(port) == "Telnet (probable)"@,
        (port == 25 || port == 465 || port == 587) ==> port_service(port) == "SMTP (probable)"@,
        port == 53 ==> port_service(port) == "DNS (probable)"@,
        (port == 80 || port == 3000 || port == 5000 || port == 8000 || port == 8008 || port == 8080
            || port == 8088) ==> port_service(port) == "HTTP (probable)"@,
        port == 110 ==> port_service(port) == "POP3 (probable)"@,
        port == 143 ==> port_service(port) == "IMAP (probable)"@,
        (port == 443 || port == 8443) ==> port_service(port) == "HTTPS/TLS (probable)"@,
        port == 993 ==> port_service(port) == "IMAPS (probable)"@,
        port == 995 ==> port_service(port) == "POP3S (probable)"@,
        port == 3306 ==> port_service(port) == "MySQL (probable)"@,
        port == 5432 ==> port_service(port) == "PostgreSQL (probable)"@,
        port == 6379 ==> port_service(port) == "Redis (probable)"@,
        port == 27017 ==> port_service(port) == "MongoDB (probable)"@,
        5900 <= port <= 5910 ==> port_service(port) == "VNC (probable)"@,
        port == 3389 ==> port_service(port) == "RDP (probable)"@,
        !(port == 20 || port == 21 || port == 22 || port == 23 || port == 25 || port == 465 || port
            == 587 || port == 53 || port == 80 || port == 3000 || port == 5000 || port == 8000 || port
            == 8008 || port == 8080 || port == 8088 || port == 110 || port == 143 || port == 443
            || port == 8443 || port == 993 || port == 995 || port == 3306 || port == 5432 || port
            == 6379 || port == 27017 || (5900 <= port <= 5910) || port == 3389) ==> port_service(port)
            == "open"@,
{
}

} // verus!
