//! The local-network helper: neighbour tables, default routes, interface
//! selection, and the bookkeeping of a subnet scan.

use vstd::prelude::*;
use std::collections::HashMap;
use crate::net::{ipv4_chars, ipv4_text, parse_ipv4, parse_ipv4_exec};
use crate::num::is_digit;
use crate::text::{
    ascii_lower, ascii_lower_exec, eq_str, lines, lines_all, split_all, split_char, string_of,
    to_chars, views, words, words_all,
};

verus! {

broadcast use vstd::std_specs::hash::group_hash_axioms;

// ---------------------------------------------------------------------------
// MAC addresses
// ---------------------------------------------------------------------------

/// `char::is_ascii_hexdigit`.
pub open spec fn is_hex(c: char) -> bool {
    is_digit(c) || ('a' <= c && c <= 'f') || ('A' <= c && c <= 'F')
}

pub fn is_hex_exec(c: char) -> (r: bool)
    ensures
        r == is_hex(c),
{
    ('0' <= c && c <= '9') || ('a' <= c && c <= 'f') || ('A' <= c && c <= 'F')
}

/// Six colon-separated groups of two hexadecimal digits.
pub open spec fn is_mac(v: Seq<char>) -> bool {
    let p = split_char(v, ':');
    p.len() == 6 && forall|i: int|
        0 <= i < 6 ==> (#[trigger] p[i]).len() == 2 && is_hex(p[i][0]) && is_hex(p[i][1])
}

pub fn is_mac_address(value: &[char]) -> (r: bool)
    ensures
        r == is_mac(value@),
{
    let parts = split_all(value, ':');
    let ghost p = views(parts@);
    if parts.len() != 6 {
        return false;
    }
    let mut i: usize = 0;
    while i < 6
        invariant
            parts.len() == 6,
            p == views(parts@),
            p == split_char(value@, ':'),
            i <= 6,
            forall|k: int| 0 <= k < i ==> (#[trigger] p[k]).len() == 2 && is_hex(p[k][0]) && is_hex(p[k][1]),
        decreases 6 - i,
    {
        assert(p[i as int] == parts@[i as int]@);
        let part = &parts[i];
        if !(part.len() == 2 && is_hex_exec(part[0]) && is_hex_exec(part[1])) {
            return false;
        }
        i += 1;
    }
    true
}

/// Dashes become colons (`str::replace('-', ":")`).
pub open spec fn dash_to_colon(s: Seq<char>) -> Seq<char> {
    Seq::new(s.len(), |i: int| if s[i] == '-' { ':' } else { s[i] })
}

/// A MAC address written with colons and in lower case.
pub open spec fn normal_mac(s: Seq<char>) -> Seq<char> {
    ascii_lower(dash_to_colon(s))
}

fn dash_to_colon_exec(s: &[char]) -> (r: Vec<char>)
    ensures
        r@ == dash_to_colon(s@),
{
    let mut out: Vec<char> = Vec::new();
    let mut i: usize = 0;
    while i < s.len()
        invariant
            i <= s.len(),
            out@ == dash_to_colon(s@).take(i as int),
        decreases s.len() - i,
    {
        out.push(if s[i] == '-' { ':' } else { s[i] });
        assert(out@ =~= dash_to_colon(s@).take(i + 1));
        i += 1;
    }
    assert(out@ =~= dash_to_colon(s@));
    out
}

pub fn normalize_mac(value: &str) -> (r: String)
    ensures
        r@ == normal_mac(value@),
{
    let chars = to_chars(value);
    let dashed = dash_to_colon_exec(chars.as_slice());
    let lower = ascii_lower_exec(dashed.as_slice());
    string_of(lower.as_slice())
}

// ---------------------------------------------------------------------------
// Trimming by character class
// ---------------------------------------------------------------------------

/// Brackets and commas around an address in `arp -a` output.
pub open spec fn is_paren_junk(c: char) -> bool {
    c == '(' || c == ')' || c == ','
}

/// Anything that cannot be part of a MAC address.
pub open spec fn is_mac_junk(c: char) -> bool {
    !is_hex(c) && c != ':' && c != '-'
}

pub open spec fn junk(mac: bool, c: char) -> bool {
    if mac {
        is_mac_junk(c)
    } else {
        is_paren_junk(c)
    }
}

pub open spec fn trim_junk_start(s: Seq<char>, mac: bool) -> Seq<char>
    decreases s.len(),
{
    if s.len() > 0 && junk(mac, s[0]) {
        trim_junk_start(s.drop_first(), mac)
    } else {
        s
    }
}

pub open spec fn trim_junk_end(s: Seq<char>, mac: bool) -> Seq<char>
    decreases s.len(),
{
    if s.len() > 0 && junk(mac, s.last()) {
        trim_junk_end(s.drop_last(), mac)
    } else {
        s
    }
}

/// `str::trim_matches` with the junk class.
pub open spec fn trim_junk(s: Seq<char>, mac: bool) -> Seq<char> {
    trim_junk_end(trim_junk_start(s, mac), mac)
}

fn junk_exec(mac: bool, c: char) -> (r: bool)
    ensures
        r == junk(mac, c),
{
    if mac {
        !is_hex_exec(c) && c != ':' && c != '-'
    } else {
        c == '(' || c == ')' || c == ','
    }
}

fn trim_junk_exec(s: &[char], mac: bool) -> (r: Vec<char>)
    ensures
        r@ == trim_junk(s@, mac),
{
    let mut a: usize = 0;
    assert(s@.skip(0) =~= s@);
    while a < s.len() && junk_exec(mac, s[a])
        invariant
            a <= s.len(),
            trim_junk_start(s@, mac) == trim_junk_start(s@.skip(a as int), mac),
        decreases s.len() - a,
    {
        assert(s@.skip(a as int).drop_first() =~= s@.skip(a + 1));
        a += 1;
    }
    let t = vstd::slice::slice_subrange(s, a, s.len());
    assert(t@ =~= s@.skip(a as int));
    let mut b: usize = t.len();
    assert(t@.take(b as int) =~= t@);
    while b > 0 && junk_exec(mac, t[b - 1])
        invariant
            b <= t.len(),
            trim_junk_end(t@, mac) == trim_junk_end(t@.take(b as int), mac),
        decreases b,
    {
        assert(t@.take(b as int).drop_last() =~= t@.take(b - 1));
        b -= 1;
    }
    let u = vstd::slice::slice_subrange(t, 0, b);
    assert(u@ =~= t@.take(b as int));
    vstd::slice::slice_to_vec(u)
}

// ---------------------------------------------------------------------------
// Neighbour table
// ---------------------------------------------------------------------------

/// The first word that reads as an IPv4 address once brackets and commas are trimmed.
pub open spec fn first_ip(ws: Seq<Seq<char>>) -> Option<u32>
    decreases ws.len(),
{
    if ws.len() == 0 {
        None
    } else if parse_ipv4(trim_junk(ws[0], false)) is Some {
        parse_ipv4(trim_junk(ws[0], false))
    } else {
        first_ip(ws.drop_first())
    }
}

pub open spec fn mac_candidate(w: Seq<char>) -> Seq<char> {
    normal_mac(trim_junk(w, true))
}

/// The first word that reads as a MAC address once trimmed and normalised.
pub open spec fn first_mac(ws: Seq<Seq<char>>) -> Option<Seq<char>>
    decreases ws.len(),
{
    if ws.len() == 0 {
        None
    } else if is_mac(mac_candidate(ws[0])) {
        Some(mac_candidate(ws[0]))
    } else {
        first_mac(ws.drop_first())
    }
}

/// The address and MAC of one neighbour-table line; all-zero and broadcast
/// MACs are ignored.
pub open spec fn neighbor_entry(line: Seq<char>) -> Option<(u32, Seq<char>)> {
    match (first_ip(words(line)), first_mac(words(line))) {
        (Some(ip), Some(mac)) => if mac != "00:00:00:00:00:00"@ && mac != "ff:ff:ff:ff:ff:ff"@ {
            Some((ip, mac))
        } else {
            None
        },
        _ => None,
    }
}

/// The table of a whole text; a later line for the same address wins.
pub open spec fn neighbor_map(ls: Seq<Seq<char>>) -> Map<u32, Seq<char>>
    decreases ls.len(),
{
    if ls.len() == 0 {
        Map::empty()
    } else {
        let m = neighbor_map(ls.drop_last());
        match neighbor_entry(ls.last()) {
            Some((ip, mac)) => m.insert(ip, mac),
            None => m,
        }
    }
}

fn first_ip_exec(ws: &Vec<Vec<char>>) -> (r: Option<u32>)
    ensures
        r == first_ip(views(ws@)),
{
    let ghost w = views(ws@);
    let mut i: usize = 0;
    assert(w.skip(0) =~= w);
    while i < ws.len()
        invariant
            w == views(ws@),
            i <= ws.len(),
            first_ip(w) == first_ip(w.skip(i as int)),
        decreases ws.len() - i,
    {
        assert(w.skip(i as int)[0] == ws@[i as int]@);
        assert(w.skip(i as int).drop_first() =~= w.skip(i + 1));
        let t = trim_junk_exec(ws[i].as_slice(), false);
        match parse_ipv4_exec(t.as_slice()) {
            Some(ip) => return Some(ip),
            None => {},
        }
        i += 1;
    }
    None
}

fn first_mac_exec(ws: &Vec<Vec<char>>) -> (r: Option<Vec<char>>)
    ensures
        match first_mac(views(ws@)) {
            Some(m) => r matches Some(x) && x@ == m,
            None => r is None,
        },
{
    let ghost w = views(ws@);
    let mut i: usize = 0;
    assert(w.skip(0) =~= w);
    while i < ws.len()
        invariant
            w == views(ws@),
            i <= ws.len(),
            first_mac(w) == first_mac(w.skip(i as int)),
        decreases ws.len() - i,
    {
        assert(w.skip(i as int)[0] == ws@[i as int]@);
        assert(w.skip(i as int).drop_first() =~= w.skip(i + 1));
        let t = trim_junk_exec(ws[i].as_slice(), true);
        let d = dash_to_colon_exec(t.as_slice());
        let cand = ascii_lower_exec(d.as_slice());
        if is_mac_address(cand.as_slice()) {
            return Some(cand);
        }
        i += 1;
    }
    None
}

fn neighbor_entry_exec(line: &[char]) -> (r: Option<(u32, String)>)
    ensures
        match neighbor_entry(line@) {
            Some((ip, mac)) => r matches Some((a, m)) && a == ip && m@ == mac,
            None => r is None,
        },
{
    let ws = words_all(line);
    let ip = first_ip_exec(&ws);
    let mac = first_mac_exec(&ws);
    match (ip, mac) {
        (Some(ip), Some(mac)) => {
            if !eq_str(mac.as_slice(), "00:00:00:00:00:00") && !eq_str(mac.as_slice(), "ff:ff:ff:ff:ff:ff") {
                Some((ip, string_of(mac.as_slice())))
            } else {
                None
            }
        },
        _ => None,
    }
}

/// The address-to-MAC table in the output of `ip neigh`, `arp -an` or `arp -a`.
pub fn parse_neighbor_table(text: &str) -> (r: HashMap<u32, String>)
    ensures
        r@.dom() == neighbor_map(lines(text@)).dom(),
        forall|k: u32| #[trigger] r@.contains_key(k) ==> r@[k]@ == neighbor_map(lines(text@))[k],
{
    let chars = to_chars(text);
    let ls = lines_all(chars.as_slice());
    let ghost l = views(ls@);
    let mut rows: HashMap<u32, String> = HashMap::new();
    let mut i: usize = 0;
    assert(neighbor_map(l.take(0)) =~= Map::<u32, Seq<char>>::empty());
    while i < ls.len()
        invariant
            l == views(ls@),
            l == lines(text@),
            i <= ls.len(),
            rows@.dom() == neighbor_map(l.take(i as int)).dom(),
            forall|k: u32| #[trigger] rows@.contains_key(k) ==> rows@[k]@ == neighbor_map(l.take(i as int))[k],
        decreases ls.len() - i,
    {
        assert(l.take(i + 1).drop_last() =~= l.take(i as int));
        assert(l.take(i + 1).last() == ls@[i as int]@);
        match neighbor_entry_exec(ls[i].as_slice()) {
            Some((ip, mac)) => {
                rows.insert(ip, mac);
                assert(rows@.dom() =~= neighbor_map(l.take(i + 1)).dom());
            },
            None => {},
        }
        i += 1;
    }
    assert(l.take(ls.len() as int) =~= l);
    rows
}

// ---------------------------------------------------------------------------
// Default route
// ---------------------------------------------------------------------------

/// What the default route says: the interface, the gateway and the local address.
#[derive(Debug, Clone)]
pub struct RouteHint {
    pub interface: Option<String>,
    pub gateway: Option<u32>,
    pub local_ip: Option<u32>,
}

pub struct RouteModel {
    pub interface: Option<Seq<char>>,
    pub gateway: Option<u32>,
    pub local_ip: Option<u32>,
}

impl View for RouteHint {
    type V = RouteModel;

    open spec fn view(&self) -> RouteModel {
        RouteModel {
            interface: match self.interface {
                Some(s) => Some(s@),
                None => None,
            },
            gateway: self.gateway,
            local_ip: self.local_ip,
        }
    }
}

pub open spec fn no_route() -> RouteModel {
    RouteModel { interface: None, gateway: None, local_ip: None }
}

impl RouteHint {
    pub fn empty() -> (r: RouteHint)
        ensures
            r@ == no_route(),
    {
        RouteHint { interface: None, gateway: None, local_ip: None }
    }
}

/// The hint after the word pairs `(ws[k], ws[k+1])` with `k < n`: `via` sets the
/// gateway, `dev` the interface and `src` the local address; later pairs win.
pub open spec fn linux_pairs(ws: Seq<Seq<char>>, n: nat) -> RouteModel
    decreases n,
{
    if n == 0 {
        no_route()
    } else {
        let h = linux_pairs(ws, (n - 1) as nat);
        let k = n - 1;
        if ws[k] == "via"@ {
            RouteModel { gateway: parse_ipv4(ws[k + 1]), ..h }
        } else if ws[k] == "dev"@ {
            RouteModel { interface: Some(ws[k + 1]), ..h }
        } else if ws[k] == "src"@ {
            RouteModel { local_ip: parse_ipv4(ws[k + 1]), ..h }
        } else {
            h
        }
    }
}

/// The default route in the output of `ip -4 route show default`.
pub open spec fn linux_route(text: Seq<char>) -> RouteModel {
    let ws = words(text);
    if ws.len() < 2 {
        no_route()
    } else {
        linux_pairs(ws, (ws.len() - 1) as nat)
    }
}

pub fn parse_linux_default_route(text: &str) -> (r: RouteHint)
    ensures
        r@ == linux_route(text@),
{
    let chars = to_chars(text);
    let ws = words_all(chars.as_slice());
    let ghost w = views(ws@);
    let mut hint = RouteHint::empty();
    if ws.len() < 2 {
        return hint;
    }
    let mut k: usize = 0;
    while k + 1 < ws.len()
        invariant
            w == views(ws@),
            w == words(text@),
            ws.len() >= 2,
            k + 1 <= ws.len(),
            hint@ == linux_pairs(w, k as nat),
        decreases ws.len() - k,
    {
        assert(w[k as int] == ws@[k as int]@);
        assert(w[k + 1] == ws@[k + 1]@);
        let key = ws[k].as_slice();
        let value = ws[k + 1].as_slice();
        if eq_str(key, "via") {
            hint.gateway = parse_ipv4_exec(value);
        } else if eq_str(key, "dev") {
            hint.interface = Some(string_of(value));
        } else if eq_str(key, "src") {
            hint.local_ip = parse_ipv4_exec(value);
        }
        k += 1;
    }
    hint
}

/// The first line of `route print -4` whose first two columns are `0.0.0.0`,
/// read as gateway and interface address.
pub open spec fn windows_route(ls: Seq<Seq<char>>) -> RouteModel
    decreases ls.len(),
{
    if ls.len() == 0 {
        no_route()
    } else {
        let c = words(ls[0]);
        if c.len() >= 5 && c[0] == "0.0.0.0"@ && c[1] == "0.0.0.0"@ {
            RouteModel { gateway: parse_ipv4(c[2]), local_ip: parse_ipv4(c[3]), interface: None }
        } else {
            windows_route(ls.drop_first())
        }
    }
}

pub fn parse_windows_default_route(text: &str) -> (r: RouteHint)
    ensures
        r@ == windows_route(lines(text@)),
{
    let chars = to_chars(text);
    let ls = lines_all(chars.as_slice());
    let ghost l = views(ls@);
    let mut i: usize = 0;
    assert(l.skip(0) =~= l);
    while i < ls.len()
        invariant
            l == views(ls@),
            l == lines(text@),
            i <= ls.len(),
            windows_route(l) == windows_route(l.skip(i as int)),
        decreases ls.len() - i,
    {
        assert(l.skip(i as int)[0] == ls@[i as int]@);
        assert(l.skip(i as int).drop_first() =~= l.skip(i + 1));
        let cols = words_all(ls[i].as_slice());
        let ghost c = views(cols@);
        if cols.len() >= 5 && eq_str(cols[0].as_slice(), "0.0.0.0") && eq_str(cols[1].as_slice(), "0.0.0.0") {
            assert(c[0] == cols@[0]@ && c[1] == cols@[1]@ && c[2] == cols@[2]@ && c[3] == cols@[3]@);
            return RouteHint {
                gateway: parse_ipv4_exec(cols[2].as_slice()),
                local_ip: parse_ipv4_exec(cols[3].as_slice()),
                interface: None,
            };
        }
        proof {
            if cols.len() >= 5 {
                assert(c[0] == cols@[0]@ && c[1] == cols@[1]@);
            }
        }
        i += 1;
    }
    RouteHint::empty()
}

/// The default route in the output of `route -n get default`: `key: value`
/// lines, where `gateway` sets the gateway and `interface` the interface;
/// later lines win.
pub open spec fn macos_route(ls: Seq<Seq<char>>) -> RouteModel
    decreases ls.len(),
{
    if ls.len() == 0 {
        no_route()
    } else {
        let h = macos_route(ls.drop_last());
        match crate::text::split_once(ls.last(), ':') {
            None => h,
            Some((k, v)) => if crate::text::trim(k) == "gateway"@ {
                RouteModel { gateway: parse_ipv4(crate::text::trim(v)), ..h }
            } else if crate::text::trim(k) == "interface"@ {
                RouteModel { interface: Some(crate::text::trim(v)), ..h }
            } else {
                h
            },
        }
    }
}

pub fn parse_macos_default_route(text: &str) -> (r: RouteHint)
    ensures
        r@ == macos_route(lines(text@)),
{
    let chars = to_chars(text);
    let ls = lines_all(chars.as_slice());
    let ghost l = views(ls@);
    let mut hint = RouteHint::empty();
    let mut i: usize = 0;
    assert(l.take(0) =~= Seq::<Seq<char>>::empty());
    while i < ls.len()
        invariant
            l == views(ls@),
            l == lines(text@),
            i <= ls.len(),
            hint@ == macos_route(l.take(i as int)),
        decreases ls.len() - i,
    {
        assert(l.take(i + 1).drop_last() =~= l.take(i as int));
        assert(l.take(i + 1).last() == ls@[i as int]@);
        match crate::text::split_once_exec(ls[i].as_slice(), ':') {
            Some((k, v)) => {
                let key = crate::text::trim_exec(k);
                let value = crate::text::trim_exec(v);
                if eq_str(key, "gateway") {
                    hint.gateway = parse_ipv4_exec(value);
                } else if eq_str(key, "interface") {
                    hint.interface = Some(string_of(value));
                }
            },
            None => {},
        }
        i += 1;
    }
    assert(l.take(ls.len() as int) =~= l);
    hint
}

// ---------------------------------------------------------------------------
// Address classes
// ---------------------------------------------------------------------------

/// `Ipv4Addr::is_private`: 10.0.0.0/8, 172.16.0.0/12 and 192.168.0.0/16.
pub open spec fn private_ip(a: u32) -> bool {
    a / 16777216 == 10 || a / 1048576 == 2753 || a / 65536 == 49320
}

/// Not loopback (127/8), unspecified (0.0.0.0), link-local (169.254/16) or multicast (224/4).
pub open spec fn usable_ip(a: u32) -> bool {
    a / 16777216 != 127 && a != 0 && a / 65536 != 43518 && a / 268435456 != 14
}

pub fn is_usable_interface_ip(ip: u32) -> (r: bool)
    ensures
        r == usable_ip(ip),
{
    ip / 16777216 != 127 && ip != 0 && ip / 65536 != 43518 && ip / 268435456 != 14
}

pub fn is_private_ipv4(value: &str) -> (r: bool)
    ensures
        r == (parse_ipv4(value@) matches Some(a) && private_ip(a)),
{
    match crate::net::parse_ipv4_str(value) {
        Some(a) => a / 16777216 == 10 || a / 1048576 == 2753 || a / 65536 == 49320,
        None => false,
    }
}

/// The order of dotted-quad texts: by address, unreadable ones last.
pub fn ipv4_sort_key(value: &str) -> (r: u32)
    ensures
        r == match parse_ipv4(value@) {
            Some(a) => a,
            None => u32::MAX,
        },
{
    match crate::net::parse_ipv4_str(value) {
        Some(a) => a,
        None => u32::MAX,
    }
}


// ---------------------------------------------------------------------------
// Interfaces and the local network
// ---------------------------------------------------------------------------

/// One IPv4 address of a network interface, as the system lists it.
#[derive(Debug, Clone)]
pub struct InterfaceAddress {
    pub name: String,
    pub internal: bool,
    pub ip: u32,
    pub netmask: Option<u32>,
    pub mac: Option<String>,
}

#[derive(Debug, Clone)]
pub struct LanInterface {
    pub name: String,
    pub address: String,
    pub netmask: String,
    pub prefix: u8,
    pub cidr: String,
    pub broadcast: String,
    pub mac: Option<String>,
}

#[derive(Debug, Clone)]
pub struct LanInfo {
    pub interface_name: String,
    pub address: String,
    pub netmask: String,
    pub prefix: u8,
    pub cidr: String,
    pub suggested_cidr: String,
    pub broadcast: String,
    pub gateway: Option<String>,
    pub mac: Option<String>,
    pub interfaces: Vec<LanInterface>,
}

pub struct AddrModel {
    pub name: Seq<char>,
    pub internal: bool,
    pub ip: u32,
    pub netmask: Option<u32>,
    pub mac: Option<Seq<char>>,
}

impl View for InterfaceAddress {
    type V = AddrModel;

    open spec fn view(&self) -> AddrModel {
        AddrModel {
            name: self.name@,
            internal: self.internal,
            ip: self.ip,
            netmask: self.netmask,
            mac: crate::text::opt_view(self.mac),
        }
    }
}

pub struct IfaceModel {
    pub name: Seq<char>,
    pub address: Seq<char>,
    pub netmask: Seq<char>,
    pub prefix: nat,
    pub cidr: Seq<char>,
    pub broadcast: Seq<char>,
    pub mac: Option<Seq<char>>,
}

impl View for LanInterface {
    type V = IfaceModel;

    open spec fn view(&self) -> IfaceModel {
        IfaceModel {
            name: self.name@,
            address: self.address@,
            netmask: self.netmask@,
            prefix: self.prefix as nat,
            cidr: self.cidr@,
            broadcast: self.broadcast@,
            mac: crate::text::opt_view(self.mac),
        }
    }
}

pub struct InfoModel {
    pub interface_name: Seq<char>,
    pub address: Seq<char>,
    pub netmask: Seq<char>,
    pub prefix: nat,
    pub cidr: Seq<char>,
    pub suggested_cidr: Seq<char>,
    pub broadcast: Seq<char>,
    pub gateway: Option<Seq<char>>,
    pub mac: Option<Seq<char>>,
    pub interfaces: Seq<IfaceModel>,
}

pub open spec fn addrs_view(v: Seq<InterfaceAddress>) -> Seq<AddrModel> {
    v.map_values(|a: InterfaceAddress| a@)
}

pub open spec fn ifaces_view(v: Seq<LanInterface>) -> Seq<IfaceModel> {
    v.map_values(|x: LanInterface| x@)
}

impl View for LanInfo {
    type V = InfoModel;

    open spec fn view(&self) -> InfoModel {
        InfoModel {
            interface_name: self.interface_name@,
            address: self.address@,
            netmask: self.netmask@,
            prefix: self.prefix as nat,
            cidr: self.cidr@,
            suggested_cidr: self.suggested_cidr@,
            broadcast: self.broadcast@,
            gateway: crate::text::opt_view(self.gateway),
            mac: crate::text::opt_view(self.mac),
            interfaces: ifaces_view(self.interfaces@),
        }
    }
}

/// The text `network/prefix` of the network of `ip`.
pub open spec fn cidr_text(ip: u32, prefix: nat) -> Seq<char> {
    ipv4_text(crate::net::network_of(ip, prefix)) + "/"@ + crate::num::decimal(prefix)
}

/// The prefix length of a netmask, or the error for a non-contiguous one.
pub open spec fn netmask_prefix(m: u32) -> Result<nat, Seq<char>> {
    if m == crate::net::mask_of(crate::net::ones(m)) {
        Ok(crate::net::ones(m))
    } else {
        Err("不连续的 IPv4 子网掩码: "@ + ipv4_text(m))
    }
}

/// The interface entry an address gives: none for internal interfaces,
/// unusable addresses and addresses without a netmask.
pub open spec fn iface_of(a: AddrModel) -> Result<Option<IfaceModel>, Seq<char>> {
    if a.internal || !usable_ip(a.ip) || a.netmask is None {
        Ok(None)
    } else {
        let m = a.netmask->0;
        match netmask_prefix(m) {
            Err(e) => Err(e),
            Ok(p) => Ok(
                Some(
                    IfaceModel {
                        name: a.name,
                        address: ipv4_text(a.ip),
                        netmask: ipv4_text(m),
                        prefix: p,
                        cidr: cidr_text(a.ip, p),
                        broadcast: ipv4_text(crate::net::broadcast_of(a.ip, p)),
                        mac: match a.mac {
                            Some(x) => Some(normal_mac(x)),
                            None => None,
                        },
                    },
                ),
            ),
        }
    }
}

/// The interface entries of all addresses, in order; the first bad netmask is an error.
pub open spec fn ifaces_of(addrs: Seq<AddrModel>) -> Result<Seq<IfaceModel>, Seq<char>>
    decreases addrs.len(),
{
    if addrs.len() == 0 {
        Ok(seq![])
    } else {
        match ifaces_of(addrs.drop_last()) {
            Err(e) => Err(e),
            Ok(r) => match iface_of(addrs.last()) {
                Err(e) => Err(e),
                Ok(None) => Ok(r),
                Ok(Some(i)) => Ok(r.push(i)),
            },
        }
    }
}

pub open spec fn private_text(t: Seq<char>) -> bool {
    parse_ipv4(t) matches Some(a) && private_ip(a)
}

pub open spec fn private_iface() -> spec_fn(IfaceModel) -> bool {
    |i: IfaceModel| private_text(i.address)
}

pub open spec fn public_iface() -> spec_fn(IfaceModel) -> bool {
    |i: IfaceModel| !private_text(i.address)
}

/// Private addresses first, each group in the order given (a stable sort
/// by "is not private").
pub open spec fn private_first(ifs: Seq<IfaceModel>) -> Seq<IfaceModel> {
    ifs.filter(private_iface()) + ifs.filter(public_iface())
}

/// Index of the first entry that `f` accepts, or -1.
pub open spec fn pos_by(ifs: Seq<IfaceModel>, f: spec_fn(IfaceModel) -> bool) -> int
    decreases ifs.len(),
{
    if ifs.len() == 0 {
        -1
    } else if f(ifs[0]) {
        0
    } else {
        let r = pos_by(ifs.drop_first(), f);
        if r < 0 {
            -1
        } else {
            r + 1
        }
    }
}

pub open spec fn addr_is(a: Seq<char>) -> spec_fn(IfaceModel) -> bool {
    |i: IfaceModel| i.address == a
}

pub open spec fn name_is(n: Seq<char>) -> spec_fn(IfaceModel) -> bool {
    |i: IfaceModel| i.name == n
}

/// The address the caller asked for, trimmed, when it is not blank.
pub open spec fn requested(ia: Option<Seq<char>>) -> Option<Seq<char>> {
    match ia {
        Some(a) => if crate::text::trim(a).len() > 0 {
            Some(crate::text::trim(a))
        } else {
            None
        },
        None => None,
    }
}

/// Which interface to use: the one with the requested address (an error when
/// it is gone); else the default route's interface, else the one with the
/// route's local address, else the first.
pub open spec fn select_iface(ifs: Seq<IfaceModel>, route: RouteModel, ia: Option<Seq<char>>) -> Result<int, Seq<char>> {
    match requested(ia) {
        Some(a) => if pos_by(ifs, addr_is(a)) >= 0 {
            Ok(pos_by(ifs, addr_is(a)))
        } else {
            Err("所选网络接口 "@ + a + " 已不可用，请重新打开此页面后重试"@)
        },
        None => {
            let by_name = match route.interface {
                Some(n) => pos_by(ifs, name_is(n)),
                None => -1,
            };
            let by_ip = match route.local_ip {
                Some(ip) => pos_by(ifs, addr_is(ipv4_text(ip))),
                None => -1,
            };
            Ok(
                if by_name >= 0 {
                    by_name
                } else if by_ip >= 0 {
                    by_ip
                } else {
                    0
                },
            )
        },
    }
}

/// The scan range suggested for an interface: its /24 when its own network is
/// wider than /22, else its own network.
pub open spec fn suggested_cidr(s: IfaceModel) -> Seq<char> {
    if s.prefix < 22 {
        match parse_ipv4(s.address) {
            Some(a) => cidr_text(a, 24),
            None => s.cidr,
        }
    } else {
        s.cidr
    }
}

/// What the local network looks like, from the interface addresses, the
/// default route and the address the caller asked for.
pub open spec fn lan_info_model(addrs: Seq<AddrModel>, route: RouteModel, ia: Option<Seq<char>>) -> Result<InfoModel, Seq<char>> {
    match ifaces_of(addrs) {
        Err(e) => Err(e),
        Ok(ifs0) => if ifs0.len() == 0 {
            Err("未找到可用的 IPv4 网络接口"@)
        } else {
            let ifs = private_first(ifs0);
            match select_iface(ifs, route, ia) {
                Err(e) => Err(e),
                Ok(i) => {
                    let s = ifs[i];
                    Ok(
                        InfoModel {
                            interface_name: s.name,
                            address: s.address,
                            netmask: s.netmask,
                            prefix: s.prefix,
                            cidr: s.cidr,
                            suggested_cidr: suggested_cidr(s),
                            broadcast: s.broadcast,
                            gateway: match route.gateway {
                                Some(g) => Some(ipv4_text(g)),
                                None => None,
                            },
                            mac: s.mac,
                            interfaces: ifs,
                        },
                    )
                },
            }
        },
    }
}

fn clone_iface(i: &LanInterface) -> (r: LanInterface)
    ensures
        r@ == i@,
{
    LanInterface {
        name: i.name.clone(),
        address: i.address.clone(),
        netmask: i.netmask.clone(),
        prefix: i.prefix,
        cidr: i.cidr.clone(),
        broadcast: i.broadcast.clone(),
        mac: crate::text::clone_opt(&i.mac),
    }
}

fn cidr_string(ip: u32, prefix: u8) -> (r: String)
    requires
        prefix <= 32,
    ensures
        r@ == cidr_text(ip, prefix as nat),
{
    let n = crate::net::Ipv4Network::from_ip(ip, prefix);
    n.to_text()
}

pub open spec fn iface_result_view(r: Result<Option<LanInterface>, String>) -> Result<Option<IfaceModel>, Seq<char>> {
    match r {
        Err(e) => Err(e@),
        Ok(None) => Ok(None),
        Ok(Some(x)) => Ok(Some(x@)),
    }
}

pub open spec fn ifaces_result_view(r: Result<Vec<LanInterface>, String>) -> Result<Seq<IfaceModel>, Seq<char>> {
    match r {
        Err(e) => Err(e@),
        Ok(v) => Ok(ifaces_view(v@)),
    }
}

fn iface_of_exec(a: &InterfaceAddress) -> (r: Result<Option<LanInterface>, String>)
    ensures
        iface_result_view(r) == iface_of(a@),
{
    if a.internal || !is_usable_interface_ip(a.ip) {
        return Ok(None);
    }
    let m = match a.netmask {
        Some(m) => m,
        None => return Ok(None),
    };
    let prefix = match crate::net::prefix_from_netmask(m) {
        Ok(p) => p,
        Err(e) => return Err(e),
    };
    let n = crate::net::Ipv4Network::from_ip(a.ip, prefix);
    let mac = match &a.mac {
        Some(x) => Some(normalize_mac(x.as_str())),
        None => None,
    };
    Ok(
        Some(
            LanInterface {
                name: a.name.clone(),
                address: crate::net::ipv4_to_string(a.ip),
                netmask: crate::net::ipv4_to_string(m),
                prefix,
                cidr: n.to_text(),
                broadcast: crate::net::ipv4_to_string(n.broadcast()),
                mac,
            },
        ),
    )
}

fn ifaces_of_exec(addrs: &[InterfaceAddress]) -> (r: Result<Vec<LanInterface>, String>)
    ensures
        ifaces_result_view(r) == ifaces_of(addrs_view(addrs@)),
{
    let ghost av = addrs_view(addrs@);
    let mut out: Vec<LanInterface> = Vec::new();
    let mut i: usize = 0;
    assert(av.take(0) =~= Seq::<AddrModel>::empty());
    assert(ifaces_view(out@) =~= Seq::<IfaceModel>::empty());
    while i < addrs.len()
        invariant
            av == addrs_view(addrs@),
            i <= addrs.len(),
            ifaces_of(av.take(i as int)) == Ok::<Seq<IfaceModel>, Seq<char>>(ifaces_view(out@)),
        decreases addrs.len() - i,
    {
        proof {
            lemma_ifaces_step(av, i as int);
        }
        assert(av[i as int] == addrs@[i as int]@);
        match iface_of_exec(&addrs[i]) {
            Err(e) => {
                proof {
                    lemma_ifaces_err_sticks(av, i as int + 1, e@);
                }
                return Err(e);
            },
            Ok(None) => {},
            Ok(Some(x)) => {
                let ghost before = ifaces_view(out@);
                let ghost xv = x@;
                out.push(x);
                assert(ifaces_view(out@) =~= before.push(xv));
            },
        }
        i += 1;
    }
    assert(av.take(addrs.len() as int) =~= av);
    Ok(out)
}

proof fn lemma_ifaces_step(av: Seq<AddrModel>, i: int)
    requires
        0 <= i < av.len(),
    ensures
        ifaces_of(av.take(i + 1)) == match ifaces_of(av.take(i)) {
            Err(e) => Err(e),
            Ok(r) => match iface_of(av[i]) {
                Err(e) => Err(e),
                Ok(None) => Ok(r),
                Ok(Some(x)) => Ok(r.push(x)),
            },
        },
{
    assert(av.take(i + 1).drop_last() =~= av.take(i));
    assert(av.take(i + 1).last() == av[i]);
}

proof fn lemma_ifaces_err_sticks(av: Seq<AddrModel>, n: int, e: Seq<char>)
    requires
        0 <= n <= av.len(),
        ifaces_of(av.take(n)) == Err::<Seq<IfaceModel>, Seq<char>>(e),
    ensures
        ifaces_of(av) == Err::<Seq<IfaceModel>, Seq<char>>(e),
    decreases av.len() - n,
{
    if n < av.len() {
        assert(av.take(n + 1).drop_last() =~= av.take(n));
        lemma_ifaces_err_sticks(av, n + 1, e);
    } else {
        assert(av.take(n) =~= av);
    }
}

/// Private addresses first, order otherwise kept (`private_first` in the model).
fn sort_private_first(ifs: Vec<LanInterface>) -> (r: Vec<LanInterface>)
    ensures
        ifaces_view(r@) == private_first(ifaces_view(ifs@)),
{
    let ghost v = ifaces_view(ifs@);
    let mut privs: Vec<LanInterface> = Vec::new();
    let mut pubs: Vec<LanInterface> = Vec::new();
    let mut i: usize = 0;
    while i < ifs.len()
        invariant
            v == ifaces_view(ifs@),
            i <= ifs.len(),
            ifaces_view(privs@) == v.take(i as int).filter(private_iface()),
            ifaces_view(pubs@) == v.take(i as int).filter(public_iface()),
        decreases ifs.len() - i,
    {
        proof {
            crate::text::lemma_filter_step(v, i as int, private_iface());
            crate::text::lemma_filter_step(v, i as int, public_iface());
        }
        let x = clone_iface(&ifs[i]);
        let ghost xv = x@;
        assert(xv == v[i as int]);
        if is_private_ipv4(ifs[i].address.as_str()) {
            let ghost before = ifaces_view(privs@);
            privs.push(x);
            assert(ifaces_view(privs@) =~= before.push(xv));
        } else {
            let ghost before = ifaces_view(pubs@);
            pubs.push(x);
            assert(ifaces_view(pubs@) =~= before.push(xv));
        }
        i += 1;
    }
    assert(v.take(ifs.len() as int) =~= v);
    let ghost pv = ifaces_view(privs@);
    let ghost qv = ifaces_view(pubs@);
    let mut j: usize = 0;
    while j < pubs.len()
        invariant
            j <= pubs.len(),
            qv == ifaces_view(pubs@),
            ifaces_view(privs@) == pv + qv.take(j as int),
        decreases pubs.len() - j,
    {
        let ghost before = ifaces_view(privs@);
        let x = clone_iface(&pubs[j]);
        privs.push(x);
        assert(ifaces_view(privs@) =~= before.push(qv[j as int]));
        assert(pv + qv.take(j + 1) =~= (pv + qv.take(j as int)).push(qv[j as int]));
        j += 1;
    }
    assert(qv.take(pubs.len() as int) =~= qv);
    privs
}

fn pos_by_addr(ifs: &Vec<LanInterface>, a: &[char]) -> (r: Option<usize>)
    ensures
        pos_by(ifaces_view(ifs@), addr_is(a@)) < 0 ==> r is None,
        pos_by(ifaces_view(ifs@), addr_is(a@)) >= 0 ==> r == Some(
            pos_by(ifaces_view(ifs@), addr_is(a@)) as usize,
        ) && pos_by(ifaces_view(ifs@), addr_is(a@)) < ifs.len(),
{
    let ghost v = ifaces_view(ifs@);
    let ghost f = addr_is(a@);
    let mut i: usize = 0;
    assert(v.skip(0) =~= v);
    while i < ifs.len()
        invariant
            v == ifaces_view(ifs@),
            f == addr_is(a@),
            i <= ifs.len(),
            pos_by(v, f) == if pos_by(v.skip(i as int), f) < 0 {
                -1
            } else {
                pos_by(v.skip(i as int), f) + i
            },
        decreases ifs.len() - i,
    {
        assert(v.skip(i as int)[0] == ifs@[i as int]@);
        assert(v.skip(i as int).drop_first() =~= v.skip(i + 1));
        let cs = to_chars(ifs[i].address.as_str());
        if crate::text::eq_chars(cs.as_slice(), a) {
            return Some(i);
        }
        i += 1;
    }
    None
}

fn pos_by_name(ifs: &Vec<LanInterface>, n: &[char]) -> (r: Option<usize>)
    ensures
        pos_by(ifaces_view(ifs@), name_is(n@)) < 0 ==> r is None,
        pos_by(ifaces_view(ifs@), name_is(n@)) >= 0 ==> r == Some(
            pos_by(ifaces_view(ifs@), name_is(n@)) as usize,
        ) && pos_by(ifaces_view(ifs@), name_is(n@)) < ifs.len(),
{
    let ghost v = ifaces_view(ifs@);
    let ghost f = name_is(n@);
    let mut i: usize = 0;
    assert(v.skip(0) =~= v);
    while i < ifs.len()
        invariant
            v == ifaces_view(ifs@),
            f == name_is(n@),
            i <= ifs.len(),
            pos_by(v, f) == if pos_by(v.skip(i as int), f) < 0 {
                -1
            } else {
                pos_by(v.skip(i as int), f) + i
            },
        decreases ifs.len() - i,
    {
        assert(v.skip(i as int)[0] == ifs@[i as int]@);
        assert(v.skip(i as int).drop_first() =~= v.skip(i + 1));
        let cs = to_chars(ifs[i].name.as_str());
        if crate::text::eq_chars(cs.as_slice(), n) {
            return Some(i);
        }
        i += 1;
    }
    None
}

/// The local network (`lan_info_model` in the model): usable IPv4 interface
/// addresses, private ones first, the selected interface and its suggested
/// scan range.
pub fn build_lan_info(addrs: &[InterfaceAddress], route: &RouteHint, interface_address: Option<&str>) -> (r: Result<LanInfo, String>)
    ensures
        match lan_info_model(
            addrs_view(addrs@),
            route@,
            match interface_address {
                Some(a) => Some(a@),
                None => None,
            },
        ) {
            Err(e) => r matches Err(x) && x@ == e,
            Ok(m) => r matches Ok(x) && x@ == m,
        },
{
    let ifs0 = match ifaces_of_exec(addrs) {
        Ok(v) => v,
        Err(e) => return Err(e),
    };
    if ifs0.len() == 0 {
        return Err(String::from_str("未找到可用的 IPv4 网络接口"));
    }
    let ifs = sort_private_first(ifs0);
    let ghost v = ifaces_view(ifs@);
    proof {
        let v0 = ifaces_view(ifs0@);
        broadcast use vstd::seq_lib::group_filter_ensures;
        assert(v.len() == v0.filter(private_iface()).len() + v0.filter(public_iface()).len());
        if v.len() == 0 {
            assert(v0[0] == v0[0]);
            if private_text(v0[0].address) {
                assert(v0.filter(private_iface()).contains(v0[0]));
            } else {
                assert(v0.filter(public_iface()).contains(v0[0]));
            }
        }
    }
    let req: Option<Vec<char>> = match interface_address {
        Some(a) => {
            let cs = to_chars(a);
            let t = crate::text::trim_exec(cs.as_slice());
            if t.len() > 0 {
                Some(vstd::slice::slice_to_vec(t))
            } else {
                None
            }
        },
        None => None,
    };
    let index: usize = match req {
        Some(a) => match pos_by_addr(&ifs, a.as_slice()) {
            Some(i) => i,
            None => {
                let mut e = crate::text::lit_then("所选网络接口 ", a.as_slice());
                e.append(" 已不可用，请重新打开此页面后重试");
                return Err(e);
            },
        },
        None => {
            let by_name = match &route.interface {
                Some(n) => {
                    let cs = to_chars(n.as_str());
                    pos_by_name(&ifs, cs.as_slice())
                },
                None => None,
            };
            match by_name {
                Some(i) => i,
                None => {
                    let by_ip = match route.local_ip {
                        Some(ip) => {
                            let t = ipv4_chars(ip);
                            pos_by_addr(&ifs, t.as_slice())
                        },
                        None => None,
                    };
                    match by_ip {
                        Some(i) => i,
                        None => 0,
                    }
                },
            }
        },
    };
    let selected = clone_iface(&ifs[index]);
    assert(selected@ == v[index as int]);
    let suggested = if selected.prefix < 22 {
        let cs = to_chars(selected.address.as_str());
        match parse_ipv4_exec(cs.as_slice()) {
            Some(a) => cidr_string(a, 24),
            None => selected.cidr.clone(),
        }
    } else {
        selected.cidr.clone()
    };
    let gateway = match route.gateway {
        Some(g) => Some(crate::net::ipv4_to_string(g)),
        None => None,
    };
    Ok(
        LanInfo {
            interface_name: selected.name,
            address: selected.address,
            netmask: selected.netmask,
            prefix: selected.prefix,
            cidr: selected.cidr,
            suggested_cidr: suggested,
            broadcast: selected.broadcast,
            gateway,
            mac: selected.mac,
            interfaces: ifs,
        },
    )
}

/// The text that `lan-info` prints.
pub open spec fn lan_info_text(i: InfoModel) -> Seq<char> {
    "interface: "@ + i.interface_name + "\naddress: "@ + i.address + "\nnetmask: "@ + i.netmask + " (/"@
        + crate::num::decimal(i.prefix) + ")\nsubnet: "@ + i.cidr + "\nsuggested_scan: "@
        + i.suggested_cidr + "\nbroadcast: "@ + i.broadcast + "\ngateway: "@ + or_unknown(i.gateway)
        + "\nmac: "@ + or_unknown(i.mac)
}

pub open spec fn or_unknown(o: Option<Seq<char>>) -> Seq<char> {
    match o {
        Some(s) => s,
        None => "unknown"@,
    }
}

fn or_unknown_exec(o: &Option<String>) -> (r: &str)
    ensures
        r@ == or_unknown(crate::text::opt_view(*o)),
{
    match o {
        Some(s) => s.as_str(),
        None => "unknown",
    }
}

pub fn format_lan_info(info: &LanInfo) -> (r: String)
    ensures
        r@ == lan_info_text(info@),
{
    let mut out = String::from_str("interface: ");
    out.append(info.interface_name.as_str());
    out.append("\naddress: ");
    out.append(info.address.as_str());
    out.append("\nnetmask: ");
    out.append(info.netmask.as_str());
    out.append(" (/");
    let p = crate::num::decimal_exec(info.prefix as u64);
    crate::text::append_chars(&mut out, p.as_slice());
    out.append(")\nsubnet: ");
    out.append(info.cidr.as_str());
    out.append("\nsuggested_scan: ");
    out.append(info.suggested_cidr.as_str());
    out.append("\nbroadcast: ");
    out.append(info.broadcast.as_str());
    out.append("\ngateway: ");
    out.append(or_unknown_exec(&info.gateway));
    out.append("\nmac: ");
    out.append(or_unknown_exec(&info.mac));
    out
}

// ---------------------------------------------------------------------------
// Laws
// ---------------------------------------------------------------------------

proof fn lemma_pos_by(ifs: Seq<IfaceModel>, f: spec_fn(IfaceModel) -> bool)
    ensures
        -1 <= pos_by(ifs, f) < ifs.len(),
        pos_by(ifs, f) >= 0 ==> f(ifs[pos_by(ifs, f)]),
    decreases ifs.len(),
{
    if ifs.len() > 0 && !f(ifs[0]) {
        lemma_pos_by(ifs.drop_first(), f);
    }
}

proof fn lemma_split_len(ifs: Seq<IfaceModel>)
    ensures
        ifs.filter(private_iface()).len() + ifs.filter(public_iface()).len() == ifs.len(),
    decreases ifs.len(),
{
    if ifs.len() > 0 {
        let d = ifs.drop_last();
        lemma_split_len(d);
        crate::text::lemma_filter_step(ifs, ifs.len() - 1, private_iface());
        crate::text::lemma_filter_step(ifs, ifs.len() - 1, public_iface());
        assert(ifs.take(ifs.len() - 1) =~= d);
        assert(ifs.take(ifs.len() as int) =~= ifs);
    }
}

/// The network information describes one of the interfaces it lists (the one
/// with the requested address, when one was asked for); the list keeps every
/// usable address, with the private ones before all others.
pub proof fn law_lan_info(addrs: Seq<AddrModel>, route: RouteModel, ia: Option<Seq<char>>)
    ensures
        lan_info_model(addrs, route, ia) matches Ok(m) ==> {
            &&& exists|k: int|
                0 <= k < m.interfaces.len() && #[trigger] m.interfaces[k] == IfaceModel {
                    name: m.interface_name,
                    address: m.address,
                    netmask: m.netmask,
                    prefix: m.prefix,
                    cidr: m.cidr,
                    broadcast: m.broadcast,
                    mac: m.mac,
                }
            &&& requested(ia) matches Some(a) ==> m.address == a
            &&& ifaces_of(addrs) matches Ok(all) && m.interfaces.len() == all.len()
            &&& forall|i: int, j: int|
                0 <= i < j < m.interfaces.len() && private_text(m.interfaces[j].address) ==> private_text(
                    m.interfaces[i].address,
                )
        },
{
    broadcast use vstd::seq_lib::group_filter_ensures;
    match ifaces_of(addrs) {
        Ok(ifs0) => {
            if ifs0.len() > 0 {
                let ifs = private_first(ifs0);
                let a = ifs0.filter(private_iface());
                let b = ifs0.filter(public_iface());
                lemma_split_len(ifs0);
                assert(ifs.len() == ifs0.len());
                match requested(ia) {
                    Some(x) => lemma_pos_by(ifs, addr_is(x)),
                    None => {
                        match route.interface {
                            Some(n) => lemma_pos_by(ifs, name_is(n)),
                            None => {},
                        }
                        match route.local_ip {
                            Some(ip) => lemma_pos_by(ifs, addr_is(ipv4_text(ip))),
                            None => {},
                        }
                    },
                }
                match select_iface(ifs, route, ia) {
                    Ok(i) => {
                        assert(0 <= i < ifs.len());
                        let s = ifs[i];
                        assert(ifs[i] == IfaceModel {
                            name: s.name,
                            address: s.address,
                            netmask: s.netmask,
                            prefix: s.prefix,
                            cidr: s.cidr,
                            broadcast: s.broadcast,
                            mac: s.mac,
                        });
                    },
                    Err(_) => {},
                }
                assert forall|i: int, j: int|
                    0 <= i < j < ifs.len() && private_text(ifs[j].address) implies private_text(
                    ifs[i].address,
                ) by {
                    if j >= a.len() {
                        assert(ifs[j] == b[j - a.len()]);
                        assert(public_iface()(b[j - a.len()]));
                    } else {
                        assert(ifs[i] == a[i]);
                        assert(private_iface()(a[i]));
                    }
                }
            }
        },
        Err(_) => {},
    }
}

proof fn lemma_first_mac(ws: Seq<Seq<char>>)
    ensures
        first_mac(ws) matches Some(m) ==> is_mac(m),
    decreases ws.len(),
{
    if ws.len() > 0 {
        lemma_first_mac(ws.drop_first());
    }
}

/// Every entry of a neighbour table is a MAC address in colon form, and none
/// is the all-zero or the broadcast address.
pub proof fn law_neighbor_table(ls: Seq<Seq<char>>)
    ensures
        forall|ip: u32|
            #[trigger] neighbor_map(ls).contains_key(ip) ==> is_mac(neighbor_map(ls)[ip])
                && neighbor_map(ls)[ip] != "00:00:00:00:00:00"@ && neighbor_map(ls)[ip]
                != "ff:ff:ff:ff:ff:ff"@,
    decreases ls.len(),
{
    if ls.len() > 0 {
        let m = neighbor_map(ls.drop_last());
        law_neighbor_table(ls.drop_last());
        lemma_first_mac(words(ls.last()));
        match neighbor_entry(ls.last()) {
            Some((a, mac)) => {
                assert(first_mac(words(ls.last())) == Some(mac));
                assert forall|ip: u32| #[trigger] neighbor_map(ls).contains_key(ip) implies is_mac(
                    neighbor_map(ls)[ip],
                ) && neighbor_map(ls)[ip] != "00:00:00:00:00:00"@ && neighbor_map(ls)[ip]
                    != "ff:ff:ff:ff:ff:ff"@ by {
                    if ip != a {
                        assert(m.contains_key(ip));
                    }
                }
            },
            None => {},
        }
    }
}

} // verus!
