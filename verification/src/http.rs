//! The bookkeeping of an HTTP probe: the method, the redirect limit and chain,
//! what the response's status and body are reported as, and the summary of
//! the server's certificate.

use vstd::prelude::*;
use crate::num::{decimal, push_decimal};
use crate::report::{join, push_str};
use crate::text::{lit_then, string_of, string_views, to_chars};
use vstd::utf8::{decode_utf8, valid_utf8};
use x509_parser::certificate::X509Certificate;
use x509_parser::extensions::{GeneralName, ParsedExtension};
use x509_parser::prelude::FromDer;

verus! {

/// How much of a response body the report shows.
pub const BODY_PREVIEW_LIMIT: usize = 4096;

/// How many bytes of a body of `total` bytes the preview keeps, and whether
/// the preview is cut short.
pub fn body_preview_bounds(total: usize) -> (r: (usize, bool))
    ensures
        r.0 == (if total <= BODY_PREVIEW_LIMIT {
            total
        } else {
            BODY_PREVIEW_LIMIT
        }),
        r.1 == (total > BODY_PREVIEW_LIMIT),
{
    if total <= BODY_PREVIEW_LIMIT {
        (total, false)
    } else {
        (BODY_PREVIEW_LIMIT, true)
    }
}

/// The redirect chain as reported: the intermediate URLs followed, and the
/// final URL after them unless it is already the last one. No redirect, no chain.
pub open spec fn redirect_chain(chain: Seq<Seq<char>>, final_url: Seq<char>) -> Seq<Seq<char>> {
    if chain.len() > 0 && chain.last() != final_url {
        chain.push(final_url)
    } else {
        chain
    }
}

/// A reported redirect chain that is not empty ends at the final URL, and
/// keeps the URLs followed, in order, in front of it.
pub proof fn law_redirect_chain(chain: Seq<Seq<char>>, final_url: Seq<char>)
    ensures
        chain.len() > 0 ==> redirect_chain(chain, final_url).last() == final_url,
        chain.len() == 0 ==> redirect_chain(chain, final_url).len() == 0,
        redirect_chain(chain, final_url).take(chain.len() as int) == chain,
{
    assert(redirect_chain(chain, final_url).take(chain.len() as int) =~= chain);
}

pub fn complete_redirects(chain: Vec<String>, final_url: &str) -> (r: Vec<String>)
    ensures
        crate::text::string_views(r@) == redirect_chain(crate::text::string_views(chain@), final_url@),
{
    let mut chain = chain;
    let n = chain.len();
    if n > 0 {
        let last = to_chars(chain[n - 1].as_str());
        let fin = to_chars(final_url);
        if !crate::text::eq_chars(last.as_slice(), fin.as_slice()) {
            let ghost before = crate::text::string_views(chain@);
            chain.push(String::from_str(final_url));
            assert(crate::text::string_views(chain@) =~= before.push(final_url@));
        }
    }
    chain
}

/// Division that rounds toward zero, as Rust's `/` on integers does.
pub open spec fn div_toward_zero(x: int, d: int) -> int {
    if x >= 0 {
        x / d
    } else {
        -((-x) / d)
    }
}

/// `a - b` on `i64`, wrapping around on overflow.
pub open spec fn wrapping_diff(a: i64, b: i64) -> int {
    let x = a - b;
    if x > i64::MAX {
        x - 0x1_0000_0000_0000_0000
    } else if x < i64::MIN {
        x + 0x1_0000_0000_0000_0000
    } else {
        x
    }
}

/// Whole days from `now` until `not_after` (both in seconds since the epoch),
/// rounded toward zero: negative for an expired certificate. The difference
/// wraps around as `i64` arithmetic does in a release build.
pub fn days_until_expiry(not_after: i64, now: i64) -> (r: i64)
    ensures
        r == div_toward_zero(wrapping_diff(not_after, now), 86400),
{
    let x: i128 = (not_after as i128) - (now as i128);
    let w: i128 = if x > 0x7fff_ffff_ffff_ffff {
        x - 0x1_0000_0000_0000_0000
    } else if x < -0x8000_0000_0000_0000 {
        x + 0x1_0000_0000_0000_0000
    } else {
        x
    };
    let q: i128 = if w >= 0 {
        w / 86400
    } else {
        -((-w) / 86400)
    };
    q as i64
}

/// An alternative name of a certificate, as the report reads it.
#[derive(Debug, Clone)]
pub enum GeneralNameText {
    Dns(String),
    Ip(Vec<u8>),
    Uri(String),
    Email(String),
    /// Any other kind, already rendered.
    Other(String),
}

/// An alternative name in the model.
pub enum GeneralNameView {
    Dns(Seq<char>),
    Ip(Seq<u8>),
    Uri(Seq<char>),
    Email(Seq<char>),
    Other(Seq<char>),
}

impl View for GeneralNameText {
    type V = GeneralNameView;

    open spec fn view(&self) -> GeneralNameView {
        match self {
            GeneralNameText::Dns(s) => GeneralNameView::Dns(s@),
            GeneralNameText::Ip(b) => GeneralNameView::Ip(b@),
            GeneralNameText::Uri(s) => GeneralNameView::Uri(s@),
            GeneralNameText::Email(s) => GeneralNameView::Email(s@),
            GeneralNameText::Other(s) => GeneralNameView::Other(s@),
        }
    }
}

pub open spec fn hex_digit(d: nat) -> char {
    if d < 10 {
        ((d + 48) as u8) as char
    } else {
        ((d + 87) as u8) as char
    }
}

/// Lower-case hexadecimal without leading zeros (`{:x}`).
pub open spec fn hex(n: nat) -> Seq<char>
    decreases n,
{
    if n < 16 {
        seq![hex_digit(n)]
    } else {
        hex(n / 16).push(hex_digit(n % 16))
    }
}

pub open spec fn byte_texts(b: Seq<u8>, in_hex: bool) -> Seq<Seq<char>> {
    b.map_values(|x: u8| if in_hex { hex(x as nat) } else { decimal(x as nat) })
}

/// The text of an address name: dotted for four bytes, the byte list in
/// hexadecimal for sixteen, in decimal otherwise.
pub open spec fn ip_name_text(b: Seq<u8>) -> Seq<char> {
    if b.len() == 4 {
        "IP:"@ + decimal(b[0] as nat) + "."@ + decimal(b[1] as nat) + "."@ + decimal(b[2] as nat) + "."@
            + decimal(b[3] as nat)
    } else {
        "IP:["@ + join(byte_texts(b, b.len() == 16), ", "@) + "]"@
    }
}

pub open spec fn general_name_text(n: GeneralNameView) -> Seq<char> {
    match n {
        GeneralNameView::Dns(s) => "DNS:"@ + s,
        GeneralNameView::Ip(b) => ip_name_text(b),
        GeneralNameView::Uri(s) => "URI:"@ + s,
        GeneralNameView::Email(s) => "email:"@ + s,
        GeneralNameView::Other(s) => s,
    }
}

fn push_hex(out: &mut Vec<char>, n: u64)
    ensures
        final(out)@ == old(out)@ + hex(n as nat),
    decreases n,
{
    if n >= 16 {
        push_hex(out, n / 16);
    }
    let d: u8 = (n % 16) as u8;
    let c: char = if d < 10 {
        (d + 48) as char
    } else {
        (d + 87) as char
    };
    out.push(c);
    proof {
        if n >= 16 {
            assert(old(out)@ + hex(n as nat) =~= old(out)@ + hex((n / 16) as nat) + seq![
                hex_digit((n % 16) as nat),
            ]);
        } else {
            assert(old(out)@ + hex(n as nat) =~= old(out)@ + seq![hex_digit(n as nat)]);
        }
    }
}

/// The text of an address name (`ip_name_text` in the model).
pub fn format_ip_name(b: &[u8]) -> (r: String)
    ensures
        r@ == ip_name_text(b@),
{
    let mut out: Vec<char> = Vec::new();
    if b.len() == 4 {
        push_str(&mut out, "IP:");
        push_decimal(&mut out, b[0] as u64);
        push_str(&mut out, ".");
        push_decimal(&mut out, b[1] as u64);
        push_str(&mut out, ".");
        push_decimal(&mut out, b[2] as u64);
        push_str(&mut out, ".");
        push_decimal(&mut out, b[3] as u64);
        assert(out@ =~= ip_name_text(b@));
        return string_of(out.as_slice());
    }
    let in_hex = b.len() == 16;
    let ghost t = byte_texts(b@, in_hex);
    push_str(&mut out, "IP:[");
    let ghost base = out@;
    let mut i: usize = 0;
    assert(join(t.take(0), ", "@) =~= Seq::<char>::empty());
    assert(base + Seq::<char>::empty() =~= base);
    while i < b.len()
        invariant
            t == byte_texts(b@, in_hex),
            in_hex == (b@.len() == 16),
            i <= b.len(),
            out@ == base + join(t.take(i as int), ", "@),
        decreases b.len() - i,
    {
        assert(t.take(i + 1).drop_last() =~= t.take(i as int));
        if i > 0 {
            push_str(&mut out, ", ");
        } else {
            assert(t.take(1)[0] == t[0]);
        }
        if in_hex {
            push_hex(&mut out, b[i] as u64);
        } else {
            push_decimal(&mut out, b[i] as u64);
        }
        assert(out@ =~= base + join(t.take(i + 1), ", "@));
        i += 1;
    }
    assert(t.take(b.len() as int) =~= t);
    push_str(&mut out, "]");
    assert(out@ =~= ip_name_text(b@));
    string_of(out.as_slice())
}

/// The text of an alternative name (`general_name_text` in the model).
pub fn format_general_name(name: &GeneralNameText) -> (r: String)
    ensures
        r@ == general_name_text(name@),
{
    match name {
        GeneralNameText::Dns(s) => {
            let mut out = String::from_str("DNS:");
            out.append(s.as_str());
            out
        },
        GeneralNameText::Ip(b) => format_ip_name(b.as_slice()),
        GeneralNameText::Uri(s) => {
            let mut out = String::from_str("URI:");
            out.append(s.as_str());
            out
        },
        GeneralNameText::Email(s) => {
            let mut out = String::from_str("email:");
            out.append(s.as_str());
            out
        },
        GeneralNameText::Other(s) => s.clone(),
    }
}


/// A parsed certificate as the report reads it: its names, serial, validity
/// and signature algorithm as texts, the end of its validity in seconds since
/// the epoch, and for each extension in order the names it lists as subject
/// alternative names (`None` for an extension of another kind).
pub struct CertificateView {
    pub subject: Seq<char>,
    pub issuer: Seq<char>,
    pub serial: Seq<char>,
    pub not_before: Seq<char>,
    pub not_after: Seq<char>,
    pub not_after_unix: i64,
    pub signature_algorithm: Seq<char>,
    pub extensions: Seq<Option<Seq<GeneralNameView>>>,
}

/// What `X509Certificate::from_der` makes of DER bytes, read as `CertificateView`:
/// `None` where the bytes do not start with a certificate.
pub uninterp spec fn der_certificate(der: Seq<u8>) -> Option<CertificateView>;

/// The fields of a certificate read in one pass, with its number of extensions.
pub struct CertificateFields {
    pub subject: String,
    pub issuer: String,
    pub serial: String,
    pub not_before: String,
    pub not_after: String,
    pub not_after_unix: i64,
    pub signature_algorithm: String,
    pub extension_count: usize,
}

/// The fields match the certificate `c`, its number of extensions included.
pub open spec fn reads_fields(f: CertificateFields, c: CertificateView) -> bool {
    &&& f.subject@ == c.subject
    &&& f.issuer@ == c.issuer
    &&& f.serial@ == c.serial
    &&& f.not_before@ == c.not_before
    &&& f.not_after@ == c.not_after
    &&& f.not_after_unix == c.not_after_unix
    &&& f.signature_algorithm@ == c.signature_algorithm
    &&& f.extension_count == c.extensions.len()
}

pub open spec fn names_view(o: Option<Vec<GeneralNameText>>) -> Option<Seq<GeneralNameView>> {
    match o {
        Some(v) => Some(v@.map_values(|n: GeneralNameText| n@)),
        None => None,
    }
}

/// Calls `X509Certificate::from_der` and reads the subject and issuer
/// (`Display`), the serial in hexadecimal (`to_str_radix(16)`), both validity
/// bounds (`Display`) and the end's `timestamp`, the signature algorithm's OID
/// (`Debug`) and the number of extensions. The outcome is named
/// (`der_certificate`); nothing of DER or X.509 is restated.
#[verifier::external_body]
fn read_der_certificate(der: &[u8]) -> (r: Option<CertificateFields>)
    ensures
        match der_certificate(der@) {
            None => r is None,
            Some(c) => r matches Some(f) && reads_fields(f, c),
        },
{
    let (_, c) = X509Certificate::from_der(der).ok()?;
    let v = c.validity();
    Some(CertificateFields {
        subject: c.subject().to_string(),
        issuer: c.issuer().to_string(),
        serial: c.tbs_certificate.serial.to_str_radix(16),
        not_before: v.not_before.to_string(),
        not_after: v.not_after.to_string(),
        not_after_unix: v.not_after.timestamp(),
        signature_algorithm: format!("{:?}", c.signature_algorithm.algorithm),
        extension_count: c.extensions().len(),
    })
}

/// Calls `X509Certificate::from_der` and reads extension `k`: for a subject
/// alternative name its names, a DNS name, address, URI or e-mail name copied
/// and any other kind rendered with `Debug`; for another kind of extension,
/// or no extension `k`, nothing. The outcome is named (`der_certificate`).
#[verifier::external_body]
fn read_der_alt_names(der: &[u8], k: usize) -> (r: Option<Vec<GeneralNameText>>)
    ensures
        match der_certificate(der@) {
            Some(c) => if k < c.extensions.len() {
                names_view(r) == c.extensions[k as int]
            } else {
                r is None
            },
            None => r is None,
        },
{
    let (_, c) = X509Certificate::from_der(der).ok()?;
    match c.extensions().get(k)?.parsed_extension() {
        ParsedExtension::SubjectAlternativeName(san) => Some(san.general_names.iter().map(|n| match n {
            GeneralName::DNSName(x) => GeneralNameText::Dns(x.to_string()),
            GeneralName::IPAddress(b) => GeneralNameText::Ip(b.to_vec()),
            GeneralName::URI(x) => GeneralNameText::Uri(x.to_string()),
            GeneralName::RFC822Name(x) => GeneralNameText::Email(x.to_string()),
            other => GeneralNameText::Other(format!("{:?}", other)),
        }).collect()),
        _ => None,
    }
}

/// A certificate summary for the report.
pub struct TlsCertInfo {
    pub subject: String,
    pub issuer: String,
    pub serial: String,
    pub sans: Vec<String>,
    pub not_before: String,
    pub not_after: String,
    pub days_until_expiry: i64,
    pub signature_algorithm: String,
}

pub struct TlsCertInfoView {
    pub subject: Seq<char>,
    pub issuer: Seq<char>,
    pub serial: Seq<char>,
    pub sans: Seq<Seq<char>>,
    pub not_before: Seq<char>,
    pub not_after: Seq<char>,
    pub days_until_expiry: int,
    pub signature_algorithm: Seq<char>,
}

impl View for TlsCertInfo {
    type V = TlsCertInfoView;

    open spec fn view(&self) -> TlsCertInfoView {
        TlsCertInfoView {
            subject: self.subject@,
            issuer: self.issuer@,
            serial: self.serial@,
            sans: string_views(self.sans@),
            not_before: self.not_before@,
            not_after: self.not_after@,
            days_until_expiry: self.days_until_expiry as int,
            signature_algorithm: self.signature_algorithm@,
        }
    }
}

/// The texts of the subject alternative names, extension after extension.
pub open spec fn alt_names(exts: Seq<Option<Seq<GeneralNameView>>>) -> Seq<Seq<char>>
    decreases exts.len(),
{
    if exts.len() == 0 {
        Seq::empty()
    } else {
        alt_names(exts.drop_last()) + match exts.last() {
            Some(ns) => ns.map_values(|n: GeneralNameView| general_name_text(n)),
            None => Seq::empty(),
        }
    }
}

/// The summary of certificate `c` at time `now_unix` (seconds since the epoch).
pub open spec fn cert_info_model(c: CertificateView, now_unix: i64) -> TlsCertInfoView {
    TlsCertInfoView {
        subject: c.subject,
        issuer: c.issuer,
        serial: c.serial,
        sans: alt_names(c.extensions),
        not_before: c.not_before,
        not_after: c.not_after,
        days_until_expiry: div_toward_zero(wrapping_diff(c.not_after_unix, now_unix), 86400),
        signature_algorithm: c.signature_algorithm,
    }
}

/// The certificate that fields `f` and per-extension names `exts` describe.
pub open spec fn certificate_of(f: CertificateFields, exts: Seq<Option<Vec<GeneralNameText>>>) -> CertificateView {
    CertificateView {
        subject: f.subject@,
        issuer: f.issuer@,
        serial: f.serial@,
        not_before: f.not_before@,
        not_after: f.not_after@,
        not_after_unix: f.not_after_unix,
        signature_algorithm: f.signature_algorithm@,
        extensions: exts.map_values(|e: Option<Vec<GeneralNameText>>| names_view(e)),
    }
}

/// The summary of a certificate read as fields `f` and the names of each of
/// its extensions, at time `now_unix`.
pub fn cert_info(f: CertificateFields, exts: &Vec<Option<Vec<GeneralNameText>>>, now_unix: i64) -> (r: TlsCertInfo)
    ensures
        r@ == cert_info_model(certificate_of(f, exts@), now_unix),
{
    let ghost c = certificate_of(f, exts@);
    let mut sans: Vec<String> = Vec::new();
    let mut k: usize = 0;
    while k < exts.len()
        invariant
            c == certificate_of(f, exts@),
            k <= exts.len(),
            string_views(sans@) == alt_names(c.extensions.take(k as int)),
        decreases exts.len() - k,
    {
        let ghost before = string_views(sans@);
        assert(c.extensions.take(k + 1).drop_last() =~= c.extensions.take(k as int));
        match &exts[k] {
            Some(names) => {
                let ghost ns = c.extensions[k as int].unwrap();
                assert(ns == names@.map_values(|n: GeneralNameText| n@));
                let mut i: usize = 0;
                while i < names.len()
                    invariant
                        ns == names@.map_values(|n: GeneralNameText| n@),
                        i <= names.len(),
                        string_views(sans@) == before + ns.take(i as int).map_values(
                            |n: GeneralNameView| general_name_text(n),
                        ),
                    decreases names.len() - i,
                {
                    let t = format_general_name(&names[i]);
                    let ghost prev = sans@;
                    sans.push(t);
                    assert(string_views(sans@) =~= string_views(prev).push(general_name_text(ns[i as int])));
                    assert(ns.take(i + 1).map_values(|n: GeneralNameView| general_name_text(n))
                        =~= ns.take(i as int).map_values(|n: GeneralNameView| general_name_text(n)).push(
                        general_name_text(ns[i as int]),
                    ));
                    assert(string_views(sans@) =~= before + ns.take(i + 1).map_values(
                        |n: GeneralNameView| general_name_text(n),
                    ));
                    i += 1;
                }
                assert(ns.take(names.len() as int) =~= ns);
            },
            None => {
                assert(before + Seq::<Seq<char>>::empty() =~= before);
            },
        }
        k += 1;
    }
    assert(c.extensions.take(exts.len() as int) =~= c.extensions);
    TlsCertInfo {
        subject: f.subject,
        issuer: f.issuer,
        serial: f.serial,
        sans,
        not_before: f.not_before,
        not_after: f.not_after,
        days_until_expiry: days_until_expiry(f.not_after_unix, now_unix),
        signature_algorithm: f.signature_algorithm,
    }
}

/// The summary of the certificate that DER bytes `der` start with, at time
/// `now_unix` (seconds since the epoch); `None` where they hold none.
pub fn tls_cert_info(der: &[u8], now_unix: i64) -> (r: Option<TlsCertInfo>)
    ensures
        match der_certificate(der@) {
            None => r is None,
            Some(c) => r matches Some(t) && t@ == cert_info_model(c, now_unix),
        },
{
    let f = match read_der_certificate(der) {
        Some(f) => f,
        None => return None,
    };
    let ghost c = der_certificate(der@).unwrap();
    let mut exts: Vec<Option<Vec<GeneralNameText>>> = Vec::new();
    let mut k: usize = 0;
    while k < f.extension_count
        invariant
            der_certificate(der@) == Some(c),
            reads_fields(f, c),
            k <= f.extension_count,
            exts@.len() == k,
            forall|j: int| 0 <= j < k ==> names_view(#[trigger] exts@[j]) == c.extensions[j],
        decreases f.extension_count - k,
    {
        let names = read_der_alt_names(der, k);
        exts.push(names);
        k += 1;
    }
    assert(certificate_of(f, exts@).extensions =~= c.extensions);
    Some(cert_info(f, &exts, now_unix))
}


// ---------------------------------------------------------------------------
// Request and response
// ---------------------------------------------------------------------------

/// What `str::to_uppercase` makes of a text (Unicode's full upper-case mapping).
pub uninterp spec fn upper_text(s: Seq<char>) -> Seq<char>;

/// Calls `str::to_uppercase`; the mapping is named (`upper_text`), its tables
/// are not restated.
#[verifier::external_body]
fn to_upper(s: &str) -> (r: String)
    ensures
        r@ == upper_text(s@),
{
    s.to_uppercase()
}

/// A token character of RFC 9110: a letter, a digit or one of ``!#$%&'*+-.^_`|~``.
pub open spec fn is_tchar(c: char) -> bool {
    ||| ('0' <= c && c <= '9')
    ||| ('A' <= c && c <= 'Z')
    ||| ('a' <= c && c <= 'z')
    ||| c == '!' || c == '#' || c == '$' || c == '%' || c == '&' || c == '\'' || c == '*'
    ||| c == '+' || c == '-' || c == '.' || c == '^' || c == '_' || c == '`' || c == '|' || c == '~'
}

/// A text that names an HTTP method: not empty, token characters only.
pub open spec fn method_token(s: Seq<char>) -> bool {
    s.len() > 0 && forall|i: int| 0 <= i < s.len() ==> #[trigger] is_tchar(s[i])
}

/// Calls `reqwest::Method::from_str`, which accepts exactly the non-empty
/// texts whose bytes are all token characters (`Method::from_bytes` checks
/// each byte against its table; a character outside ASCII has no byte there).
#[verifier::external_body]
fn method_ok(upper: &str) -> (r: bool)
    ensures
        r == method_token(upper@),
{
    upper.parse::<reqwest::Method>().is_ok()
}

/// The method to send: the given one in upper case, if that names a method;
/// else the error that names the given text.
pub fn check_method(method: &str) -> (r: Result<String, String>)
    ensures
        match r {
            Ok(m) => m@ == upper_text(method@) && method_token(m@),
            Err(e) => !method_token(upper_text(method@)) && e@ == "非法 HTTP method: "@ + method@,
        },
{
    let upper = to_upper(method);
    if method_ok(upper.as_str()) {
        Ok(upper)
    } else {
        let cs = to_chars(method);
        Err(lit_then("非法 HTTP method: ", cs.as_slice()))
    }
}

/// How many redirects a request follows at most.
pub const REDIRECT_LIMIT: usize = 10;

/// The error of a request that is redirected once too often.
pub const TOO_MANY_REDIRECTS: &'static str = "redirect 次数超过 10";

/// Whether a request that has been redirected `previous` times may follow
/// one more redirect.
pub fn redirect_allowed(previous: usize) -> (r: bool)
    ensures
        r == (previous <= REDIRECT_LIMIT),
{
    previous <= REDIRECT_LIMIT
}

/// What `StatusCode::canonical_reason` gives for a status, or the empty text
/// where it gives none.
pub uninterp spec fn reason_phrase(status: u16) -> Seq<char>;

/// Calls `reqwest::StatusCode::from_u16` and `canonical_reason`; the table of
/// reasons is named (`reason_phrase`), not restated.
#[verifier::external_body]
fn status_reason(status: u16) -> (r: String)
    ensures
        r@ == reason_phrase(status),
{
    match reqwest::StatusCode::from_u16(status) {
        Ok(code) => code.canonical_reason().unwrap_or("").to_string(),
        Err(_) => String::new(),
    }
}

/// What `String::from_utf8_lossy` makes of bytes: malformed sequences become
/// U+FFFD.
pub uninterp spec fn lossy_text(bytes: Seq<u8>) -> Seq<char>;

/// Calls `String::from_utf8_lossy`; the result is named (`lossy_text`), and is
/// the decoded text where the bytes are valid UTF-8, as its documentation says.
#[verifier::external_body]
pub(crate) fn utf8_lossy(bytes: &[u8]) -> (r: String)
    ensures
        r@ == lossy_text(bytes@),
        valid_utf8(bytes@) ==> r@ == decode_utf8(bytes@),
{
    String::from_utf8_lossy(bytes).into_owned()
}

/// What a response is reported as, apart from its headers and timing.
pub struct HttpOutcome {
    pub success: bool,
    pub status: u16,
    pub status_text: String,
    pub final_url: String,
    pub redirects: Vec<String>,
    pub body_preview: String,
    pub body_truncated: bool,
    pub body_size_bytes: usize,
}

/// The bytes of a body that its preview shows.
pub open spec fn preview_bytes(body: Seq<u8>) -> Seq<u8> {
    if body.len() <= BODY_PREVIEW_LIMIT {
        body
    } else {
        body.take(BODY_PREVIEW_LIMIT as int)
    }
}

/// The report of a response with status `status`, reached at `final_url`
/// after the redirects in `chain`, with body `body`: success is a 2xx status.
pub fn http_outcome(status: u16, final_url: String, chain: Vec<String>, body: &[u8]) -> (r: HttpOutcome)
    ensures
        r.success == (200 <= status && status <= 299),
        r.status == status,
        r.status_text@ == reason_phrase(status),
        r.final_url@ == final_url@,
        string_views(r.redirects@) == redirect_chain(string_views(chain@), final_url@),
        r.body_preview@ == lossy_text(preview_bytes(body@)),
        valid_utf8(preview_bytes(body@)) ==> r.body_preview@ == decode_utf8(preview_bytes(body@)),
        r.body_truncated == (body@.len() > BODY_PREVIEW_LIMIT),
        r.body_size_bytes == body@.len(),
{
    let n = body.len();
    assert(body@.len() == n);
    let (preview_len, truncated) = body_preview_bounds(n);
    let shown = vstd::slice::slice_subrange(body, 0, preview_len);
    assert(shown@ =~= preview_bytes(body@));
    let redirects = complete_redirects(chain, final_url.as_str());
    HttpOutcome {
        success: 200 <= status && status <= 299,
        status,
        status_text: status_reason(status),
        final_url,
        redirects,
        body_preview: utf8_lossy(shown),
        body_truncated: truncated,
        body_size_bytes: n,
    }
}

} // verus!
