//! A subnet scan: which addresses to probe, and what the answers say about
//! occupied and apparently free addresses.

use vstd::prelude::*;
use std::collections::{HashMap, HashSet};
use crate::lan::{cidr_text, LanInfo};
use crate::net::{
    broadcast_of, cidr_parse, ipv4_text, network_of, outside_of, parse_ipv4, scan_targets,
    Ipv4Network, MAX_SCAN_HOSTS,
};
use crate::num::decimal;
use crate::order::{drop_keys, lemma_sort_on_value, on_value, sort_by_keys, sort_keyed};
use crate::text::{opt_view, to_chars, trim, trim_exec};

verus! {

broadcast use vstd::std_specs::hash::group_hash_axioms;

/// What a scan report says of its candidates.
pub const SCAN_WARNING: &'static str = "候选地址仅表示本次 ICMP/TCP/ARP 探测未发现响应；配置前仍需核对 DHCP 租约与保留范围。";

// ---------------------------------------------------------------------------
// The plan
// ---------------------------------------------------------------------------

/// The probing to do: the scan range inside the local network, the addresses
/// to probe, and the bounded timeout, concurrency and number of suggestions.
#[derive(Debug)]
pub struct ScanPlan {
    pub local_network: Ipv4Network,
    pub network: Ipv4Network,
    pub targets: Vec<u32>,
    pub timeout_ms: u64,
    pub concurrency: usize,
    pub suggestion_count: usize,
}

pub struct PlanModel {
    pub local_network: u32,
    pub local_broadcast: u32,
    pub network: u32,
    pub broadcast: u32,
    pub prefix: nat,
    pub targets: Seq<u32>,
    pub timeout_ms: u64,
    pub concurrency: usize,
    pub suggestion_count: usize,
}

impl View for ScanPlan {
    type V = PlanModel;

    open spec fn view(&self) -> PlanModel {
        PlanModel {
            local_network: self.local_network.spec_network(),
            local_broadcast: self.local_network.spec_broadcast(),
            network: self.network.spec_network(),
            broadcast: self.network.spec_broadcast(),
            prefix: self.network.spec_prefix(),
            targets: self.targets@,
            timeout_ms: self.timeout_ms,
            concurrency: self.concurrency,
            suggestion_count: self.suggestion_count,
        }
    }
}

pub open spec fn clamp(x: int, lo: int, hi: int) -> int {
    if x < lo {
        lo
    } else if x > hi {
        hi
    } else {
        x
    }
}

/// The range asked for, trimmed; the suggested one when none or a blank one was given.
pub open spec fn scan_request(cidr: Option<Seq<char>>, suggested: Seq<char>) -> Seq<char> {
    match cidr {
        Some(c) => if trim(c).len() > 0 {
            trim(c)
        } else {
            suggested
        },
        None => suggested,
    }
}

/// The addresses `first`, `first + 1`, ..., `last`.
pub open spec fn address_range(first: u32, last: u32) -> Seq<u32> {
    Seq::new((last - first + 1) as nat, |i: int| (first + i) as u32)
}

/// The plan for a scan of `cidr` (or the suggested range) on the network
/// `info_cidr`: the range must lie in that network, hold at most
/// `MAX_SCAN_HOSTS` addresses, and hold one besides the network's own network
/// and broadcast address.
pub open spec fn scan_plan_model(
    info_cidr: Seq<char>,
    suggested: Seq<char>,
    cidr: Option<Seq<char>>,
    timeout_ms: u64,
    concurrency: usize,
    suggestion_count: usize,
) -> Result<PlanModel, Seq<char>> {
    match cidr_parse(info_cidr) {
        Err(e) => Err(e),
        Ok((la, lp)) => {
            let ln = network_of(la, lp);
            let lb = broadcast_of(la, lp);
            match cidr_parse(scan_request(cidr, suggested)) {
                Err(e) => Err(e),
                Ok((a, p)) => {
                    let n = network_of(a, p);
                    let b = broadcast_of(a, p);
                    let count = b - n + 1;
                    if !(ln <= n <= lb && ln <= b <= lb) {
                        Err(
                            "扫描范围 "@ + cidr_text(a, p) + " 不在当前直连子网 "@ + info_cidr
                                + " 内；第一版仅允许扫描本地子网"@,
                        )
                    } else if count > MAX_SCAN_HOSTS {
                        Err(
                            "扫描范围包含 "@ + decimal(count as nat)
                                + " 个地址，超过安全上限 1024；请缩小 CIDR"@,
                        )
                    } else if address_range(n, b).filter(outside_of(ln, lb)).len() == 0 {
                        Err("扫描范围 "@ + cidr_text(a, p) + " 内没有可探测的本机子网地址"@)
                    } else {
                        Ok(
                            PlanModel {
                                local_network: ln,
                                local_broadcast: lb,
                                network: n,
                                broadcast: b,
                                prefix: p,
                                targets: address_range(n, b).filter(outside_of(ln, lb)),
                                timeout_ms: clamp(timeout_ms as int, 100, 5000) as u64,
                                concurrency: clamp(concurrency as int, 1, 64) as usize,
                                suggestion_count: clamp(suggestion_count as int, 1, 100) as usize,
                            },
                        )
                    }
                },
            }
        },
    }
}

pub open spec fn plan_result_view(r: Result<ScanPlan, String>) -> Result<PlanModel, Seq<char>> {
    match r {
        Ok(p) => Ok(p@),
        Err(e) => Err(e@),
    }
}

pub open spec fn opt_str(o: Option<&str>) -> Option<Seq<char>> {
    match o {
        Some(s) => Some(s@),
        None => None,
    }
}

fn clamp_u64(x: u64, lo: u64, hi: u64) -> (r: u64)
    requires
        lo <= hi,
    ensures
        r == clamp(x as int, lo as int, hi as int),
{
    if x < lo {
        lo
    } else if x > hi {
        hi
    } else {
        x
    }
}

fn clamp_usize(x: usize, lo: usize, hi: usize) -> (r: usize)
    requires
        lo <= hi,
    ensures
        r == clamp(x as int, lo as int, hi as int),
{
    if x < lo {
        lo
    } else if x > hi {
        hi
    } else {
        x
    }
}

/// Checks a scan request against the local network and lists the addresses
/// to probe (`scan_plan_model` in the model).
pub fn plan_scan(
    info: &LanInfo,
    cidr: Option<&str>,
    timeout_ms: u64,
    concurrency: usize,
    suggestion_count: usize,
) -> (r: Result<ScanPlan, String>)
    ensures
        plan_result_view(r) == scan_plan_model(
            info.cidr@,
            info.suggested_cidr@,
            opt_str(cidr),
            timeout_ms,
            concurrency,
            suggestion_count,
        ),
{
    let local = match Ipv4Network::parse(info.cidr.as_str()) {
        Ok(n) => n,
        Err(e) => return Err(e),
    };
    let requested: Vec<char> = match cidr {
        Some(c) => {
            let cs = to_chars(c);
            let t = trim_exec(cs.as_slice());
            if t.len() > 0 {
                vstd::slice::slice_to_vec(t)
            } else {
                to_chars(info.suggested_cidr.as_str())
            }
        },
        None => to_chars(info.suggested_cidr.as_str()),
    };
    assert(requested@ == scan_request(opt_str(cidr), info.suggested_cidr@));
    let network = match Ipv4Network::parse_chars(requested.as_slice()) {
        Ok(n) => n,
        Err(e) => return Err(e),
    };
    if !local.contains(network.network()) || !local.contains(network.broadcast()) {
        let mut e = String::from_str("扫描范围 ");
        let t = network.to_text();
        e.append(t.as_str());
        e.append(" 不在当前直连子网 ");
        e.append(info.cidr.as_str());
        e.append(" 内；第一版仅允许扫描本地子网");
        return Err(e);
    }
    let targets = match scan_targets(network, local) {
        Ok(t) => t,
        Err(e) => return Err(e),
    };
    proof {
        let n = network.spec_network();
        let b = network.spec_broadcast();
        assert(Seq::new((b - n + 1) as nat, |i: int| (n + i) as u32) =~= address_range(n, b));
    }
    if targets.len() == 0 {
        let mut e = String::from_str("扫描范围 ");
        let t = network.to_text();
        e.append(t.as_str());
        e.append(" 内没有可探测的本机子网地址");
        return Err(e);
    }
    Ok(
        ScanPlan {
            local_network: local,
            network,
            targets,
            timeout_ms: clamp_u64(timeout_ms, 100, 5000),
            concurrency: clamp_usize(concurrency, 1, 64),
            suggestion_count: clamp_usize(suggestion_count, 1, 100),
        },
    )
}

// ---------------------------------------------------------------------------
// The findings
// ---------------------------------------------------------------------------

/// What the probes of one address saw: an ICMP echo reply, a TCP answer
/// (accepted or refused), and the ports that accepted.
#[derive(Debug, Clone)]
pub struct ProbeObservation {
    pub ip: u32,
    pub ping: bool,
    pub tcp: bool,
    pub open_ports: Vec<u16>,
}

pub struct ObsModel {
    pub ip: u32,
    pub ping: bool,
    pub tcp: bool,
    pub open_ports: Seq<u16>,
}

impl View for ProbeObservation {
    type V = ObsModel;

    open spec fn view(&self) -> ObsModel {
        ObsModel { ip: self.ip, ping: self.ping, tcp: self.tcp, open_ports: self.open_ports@ }
    }
}

/// An address found in use, how it was found, and why it is reserved.
#[derive(Debug, Clone)]
pub struct LanHost {
    pub ip: String,
    pub mac: Option<String>,
    pub methods: Vec<String>,
    pub open_ports: Vec<u16>,
    pub reserved_reason: Option<String>,
}

pub struct HostModel {
    pub ip: Seq<char>,
    pub mac: Option<Seq<char>>,
    pub methods: Seq<Seq<char>>,
    pub open_ports: Seq<u16>,
    pub reserved_reason: Option<Seq<char>>,
}

impl View for LanHost {
    type V = HostModel;

    open spec fn view(&self) -> HostModel {
        HostModel {
            ip: self.ip@,
            mac: opt_view(self.mac),
            methods: crate::text::string_views(self.methods@),
            open_ports: self.open_ports@,
            reserved_reason: opt_view(self.reserved_reason),
        }
    }
}

/// An address of the scan range that must not be handed out.
#[derive(Debug, Clone)]
pub struct ReservedAddress {
    pub ip: String,
    pub reason: String,
}

pub struct ReservedModel {
    pub ip: Seq<char>,
    pub reason: Seq<char>,
}

impl View for ReservedAddress {
    type V = ReservedModel;

    open spec fn view(&self) -> ReservedModel {
        ReservedModel { ip: self.ip@, reason: self.reason@ }
    }
}

/// The outcome of a scan: the range, how many addresses were probed, the
/// hosts found, the first apparently free addresses, and the reserved ones.
#[derive(Debug, Clone)]
pub struct ScanFindings {
    pub cidr: String,
    pub scanned_hosts: usize,
    pub active_hosts: Vec<LanHost>,
    pub candidates: Vec<String>,
    pub reserved: Vec<ReservedAddress>,
    pub warning: String,
}

pub struct FindingsModel {
    pub cidr: Seq<char>,
    pub scanned_hosts: nat,
    pub active_hosts: Seq<HostModel>,
    pub candidates: Seq<Seq<char>>,
    pub reserved: Seq<ReservedModel>,
    pub warning: Seq<char>,
}

pub open spec fn hosts_view(v: Seq<LanHost>) -> Seq<HostModel> {
    v.map_values(|h: LanHost| h@)
}

pub open spec fn reserved_view(v: Seq<ReservedAddress>) -> Seq<ReservedModel> {
    v.map_values(|x: ReservedAddress| x@)
}

impl View for ScanFindings {
    type V = FindingsModel;

    open spec fn view(&self) -> FindingsModel {
        FindingsModel {
            cidr: self.cidr@,
            scanned_hosts: self.scanned_hosts as nat,
            active_hosts: hosts_view(self.active_hosts@),
            candidates: crate::text::string_views(self.candidates@),
            reserved: reserved_view(self.reserved@),
            warning: self.warning@,
        }
    }
}

pub open spec fn obs_view(v: Seq<ProbeObservation>) -> Seq<ObsModel> {
    v.map_values(|o: ProbeObservation| o@)
}

/// The order key of a dotted-quad text: its address, or `u32::MAX`.
pub open spec fn text_key(t: Seq<char>) -> u32 {
    match parse_ipv4(t) {
        Some(a) => a,
        None => u32::MAX,
    }
}

pub open spec fn mac_of(macs: Map<u32, String>, ip: u32) -> Option<Seq<char>> {
    if macs.dom().contains(ip) {
        Some(macs[ip]@)
    } else {
        None
    }
}

pub open spec fn flag(b: bool, name: Seq<char>) -> Seq<Seq<char>> {
    if b {
        seq![name]
    } else {
        seq![]
    }
}

/// The host an observation shows, if any: one that answered, is in the
/// neighbour table, or is the local address or the gateway.
pub open spec fn observed_host(
    o: ObsModel,
    macs: Map<u32, String>,
    local: Option<u32>,
    gateway: Option<u32>,
) -> Option<HostModel> {
    let mac = mac_of(macs, o.ip);
    let is_local = local == Some(o.ip);
    let is_gateway = gateway == Some(o.ip);
    if !o.ping && !o.tcp && mac is None && !is_local && !is_gateway {
        None
    } else {
        Some(
            HostModel {
                ip: ipv4_text(o.ip),
                mac: mac,
                methods: flag(o.ping, "icmp"@) + flag(o.tcp, "tcp"@) + flag(mac is Some, "arp"@)
                    + flag(is_local, "local"@),
                open_ports: o.open_ports,
                reserved_reason: if is_local {
                    Some("本机地址"@)
                } else if is_gateway {
                    Some("默认网关"@)
                } else {
                    None
                },
            },
        )
    }
}

/// The hosts the observations show, in observation order, each with its order key.
pub open spec fn keyed_hosts(
    obs: Seq<ObsModel>,
    macs: Map<u32, String>,
    local: Option<u32>,
    gateway: Option<u32>,
) -> Seq<(u32, HostModel)>
    decreases obs.len(),
{
    if obs.len() == 0 {
        seq![]
    } else {
        let rest = keyed_hosts(obs.drop_last(), macs, local, gateway);
        match observed_host(obs.last(), macs, local, gateway) {
            Some(h) => rest.push((text_key(h.ip), h)),
            None => rest,
        }
    }
}

/// The addresses of the hosts the observations show.
pub open spec fn alive_ips(
    obs: Seq<ObsModel>,
    macs: Map<u32, String>,
    local: Option<u32>,
    gateway: Option<u32>,
) -> Seq<u32>
    decreases obs.len(),
{
    if obs.len() == 0 {
        seq![]
    } else {
        let rest = alive_ips(obs.drop_last(), macs, local, gateway);
        if observed_host(obs.last(), macs, local, gateway) is Some {
            rest.push(obs.last().ip)
        } else {
            rest
        }
    }
}

/// Addresses taken: by a host found, or the local address or gateway when it
/// lies in the range `first..=last`.
pub open spec fn free_in(
    alive: Seq<u32>,
    local: Option<u32>,
    gateway: Option<u32>,
    first: u32,
    last: u32,
) -> spec_fn(u32) -> bool {
    |ip: u32|
        !(alive.contains(ip) || (local == Some(ip) && first <= ip <= last) || (gateway == Some(ip)
            && first <= ip <= last))
}

/// At most `n` elements from the front.
pub open spec fn first_n<A>(s: Seq<A>, n: nat) -> Seq<A> {
    if s.len() <= n {
        s
    } else {
        s.take(n as int)
    }
}

pub open spec fn reserved_row(ip: u32, reason: Seq<char>) -> Seq<(u32, ReservedModel)> {
    seq![(text_key(ipv4_text(ip)), ReservedModel { ip: ipv4_text(ip), reason: reason })]
}

pub open spec fn reserved_if(o: Option<u32>, first: u32, last: u32, reason: Seq<char>) -> Seq<(u32, ReservedModel)> {
    match o {
        Some(ip) => if first <= ip <= last {
            reserved_row(ip, reason)
        } else {
            seq![]
        },
        None => seq![],
    }
}

/// The reserved addresses inside the range `first..=last`, before ordering:
/// the local network's network and broadcast address, the local address and
/// the gateway.
pub open spec fn reserved_rows(
    first: u32,
    last: u32,
    local_network: u32,
    local_broadcast: u32,
    local: Option<u32>,
    gateway: Option<u32>,
) -> Seq<(u32, ReservedModel)> {
    reserved_if(Some(local_network), first, last, "网络地址"@) + reserved_if(
        Some(local_broadcast),
        first,
        last,
        "广播地址"@,
    ) + reserved_if(local, first, last, "本机地址"@) + reserved_if(gateway, first, last, "默认网关"@)
}

/// Consecutive rows with the same address collapsed to the first.
pub open spec fn dedup_reserved(s: Seq<ReservedModel>) -> Seq<ReservedModel>
    decreases s.len(),
{
    if s.len() == 0 {
        s
    } else {
        let d = dedup_reserved(s.drop_last());
        if d.len() > 0 && d.last().ip == s.last().ip {
            d
        } else {
            d.push(s.last())
        }
    }
}

pub open spec fn values<A>(s: Seq<(u32, A)>) -> Seq<A> {
    s.map_values(|p: (u32, A)| p.1)
}

pub open spec fn texts(s: Seq<u32>) -> Seq<Seq<char>> {
    s.map_values(|ip: u32| ipv4_text(ip))
}

/// What a scan finds, from the plan, the local address and gateway of the
/// network information, the observations and the neighbour table.
pub open spec fn findings_model(
    plan: PlanModel,
    address: Seq<char>,
    gateway_text: Option<Seq<char>>,
    obs: Seq<ObsModel>,
    macs: Map<u32, String>,
) -> FindingsModel {
    let local = parse_ipv4(address);
    let gateway = match gateway_text {
        Some(g) => parse_ipv4(g),
        None => None,
    };
    let alive = alive_ips(obs, macs, local, gateway);
    FindingsModel {
        cidr: ipv4_text(plan.network) + "/"@ + decimal(plan.prefix),
        scanned_hosts: plan.targets.len(),
        active_hosts: values(sort_keyed(keyed_hosts(obs, macs, local, gateway))),
        candidates: texts(
            first_n(
                plan.targets.filter(free_in(alive, local, gateway, plan.network, plan.broadcast)),
                plan.suggestion_count as nat,
            ),
        ),
        reserved: dedup_reserved(
            values(
                sort_keyed(
                    reserved_rows(
                        plan.network,
                        plan.broadcast,
                        plan.local_network,
                        plan.local_broadcast,
                        local,
                        gateway,
                    ),
                ),
            ),
        ),
        warning: SCAN_WARNING@,
    }
}

pub open spec fn opt_host_view(o: Option<LanHost>) -> Option<HostModel> {
    match o {
        Some(h) => Some(h@),
        None => None,
    }
}

fn push_flag(v: &mut Vec<String>, b: bool, name: &str)
    ensures
        crate::text::string_views(final(v)@) == crate::text::string_views(old(v)@) + flag(b, name@),
{
    if b {
        let ghost before = crate::text::string_views(v@);
        v.push(String::from_str(name));
        assert(crate::text::string_views(v@) =~= before + flag(b, name@));
    } else {
        assert(crate::text::string_views(v@) =~= crate::text::string_views(v@) + flag(b, name@));
    }
}

fn observed_host_exec(
    o: &ProbeObservation,
    neighbors: &HashMap<u32, String>,
    local: Option<u32>,
    gateway: Option<u32>,
) -> (r: Option<LanHost>)
    ensures
        opt_host_view(r) == observed_host(o@, neighbors@, local, gateway),
{
    let mac: Option<String> = match neighbors.get(&o.ip) {
        Some(m) => Some(m.clone()),
        None => None,
    };
    assert(opt_view(mac) == mac_of(neighbors@, o.ip));
    let is_local = match local {
        Some(a) => a == o.ip,
        None => false,
    };
    let is_gateway = match gateway {
        Some(a) => a == o.ip,
        None => false,
    };
    if !o.ping && !o.tcp && mac.is_none() && !is_local && !is_gateway {
        return None;
    }
    let mut methods: Vec<String> = Vec::new();
    assert(crate::text::string_views(methods@) =~= Seq::<Seq<char>>::empty());
    push_flag(&mut methods, o.ping, "icmp");
    push_flag(&mut methods, o.tcp, "tcp");
    push_flag(&mut methods, mac.is_some(), "arp");
    push_flag(&mut methods, is_local, "local");
    let reserved_reason = if is_local {
        Some(String::from_str("本机地址"))
    } else if is_gateway {
        Some(String::from_str("默认网关"))
    } else {
        None
    };
    let ports = o.open_ports.clone();
    assert(ports@ =~= o.open_ports@);
    Some(
        LanHost {
            ip: crate::net::ipv4_to_string(o.ip),
            mac,
            methods,
            open_ports: ports,
            reserved_reason,
        },
    )
}

pub open spec fn host_of() -> spec_fn(LanHost) -> HostModel {
    |h: LanHost| h@
}

pub open spec fn reserved_of() -> spec_fn(ReservedAddress) -> ReservedModel {
    |x: ReservedAddress| x@
}

/// The hosts the observations show, in address order, and the addresses found alive.
fn collect_hosts(
    observations: &[ProbeObservation],
    neighbors: &HashMap<u32, String>,
    local: Option<u32>,
    gateway: Option<u32>,
) -> (r: (Vec<LanHost>, Vec<u32>))
    ensures
        hosts_view(r.0@) == values(
            sort_keyed(keyed_hosts(obs_view(observations@), neighbors@, local, gateway)),
        ),
        r.1@ == alive_ips(obs_view(observations@), neighbors@, local, gateway),
{
    let ghost ov = obs_view(observations@);
    let ghost f = host_of();
    let ghost macs = neighbors@;
    let mut keyed: Vec<(u32, LanHost)> = Vec::new();
    let mut alive: Vec<u32> = Vec::new();
    let mut i: usize = 0;
    assert(ov.take(0) =~= Seq::<ObsModel>::empty());
    assert(keyed@.map_values(on_value(f)) =~= Seq::<(u32, HostModel)>::empty());
    while i < observations.len()
        invariant
            ov == obs_view(observations@),
            f == host_of(),
            macs == neighbors@,
            i <= observations.len(),
            keyed@.map_values(on_value(f)) == keyed_hosts(ov.take(i as int), macs, local, gateway),
            alive@ == alive_ips(ov.take(i as int), macs, local, gateway),
        decreases observations.len() - i,
    {
        assert(ov.take(i + 1).drop_last() =~= ov.take(i as int));
        assert(ov.take(i + 1).last() == observations@[i as int]@);
        match observed_host_exec(&observations[i], neighbors, local, gateway) {
            Some(h) => {
                let key = crate::lan::ipv4_sort_key(h.ip.as_str());
                let ghost before = keyed@.map_values(on_value(f));
                let ghost hv = h@;
                keyed.push((key, h));
                assert(keyed@.map_values(on_value(f)) =~= before.push((key, hv)));
                alive.push(observations[i].ip);
            },
            None => {},
        }
        i += 1;
    }
    assert(ov.take(i as int) =~= ov);
    let ghost km = keyed@;
    let sorted = sort_by_keys(keyed);
    proof {
        lemma_sort_on_value(km, f);
    }
    let hosts = drop_keys(sorted);
    proof {
        let target = values(sort_keyed(keyed_hosts(ov, macs, local, gateway)));
        let mapped = sort_keyed(km).map_values(on_value(f));
        assert(mapped.len() == hosts@.len());
        assert forall|k: int| 0 <= k < hosts@.len() implies hosts_view(hosts@)[k] == target[k] by {
            assert(hosts@[k] == sort_keyed(km)[k].1);
            assert(mapped[k] == on_value(f)(sort_keyed(km)[k]));
        }
        assert(hosts_view(hosts@) =~= target);
    }
    (hosts, alive)
}

pub open spec fn rows_view(v: Seq<(u32, ReservedAddress)>) -> Seq<(u32, ReservedModel)> {
    v.map_values(on_value(reserved_of()))
}

fn add_reserved(rows: &mut Vec<(u32, ReservedAddress)>, o: Option<u32>, first: u32, last: u32, reason: &str)
    ensures
        rows_view(final(rows)@) == rows_view(old(rows)@) + reserved_if(o, first, last, reason@),
{
    match o {
        Some(ip) => {
            if first <= ip && ip <= last {
                let text = crate::net::ipv4_to_string(ip);
                let key = crate::lan::ipv4_sort_key(text.as_str());
                let ghost before = rows_view(rows@);
                let row = ReservedAddress { ip: text, reason: String::from_str(reason) };
                let ghost rv = row@;
                rows.push((key, row));
                assert(rows_view(rows@) =~= before + reserved_if(o, first, last, reason@));
                return;
            }
        },
        None => {},
    }
    assert(rows_view(rows@) =~= rows_view(rows@) + reserved_if(o, first, last, reason@));
}

fn clone_reserved(x: &ReservedAddress) -> (r: ReservedAddress)
    ensures
        r@ == x@,
{
    ReservedAddress { ip: x.ip.clone(), reason: x.reason.clone() }
}

fn same_text(a: &String, b: &String) -> (r: bool)
    ensures
        r == (a@ == b@),
{
    let x = to_chars(a.as_str());
    let y = to_chars(b.as_str());
    crate::text::eq_chars(x.as_slice(), y.as_slice())
}

fn dedup_rows(v: &Vec<ReservedAddress>) -> (r: Vec<ReservedAddress>)
    ensures
        reserved_view(r@) == dedup_reserved(reserved_view(v@)),
{
    let ghost vv = reserved_view(v@);
    let mut out: Vec<ReservedAddress> = Vec::new();
    let mut i: usize = 0;
    assert(vv.take(0) =~= Seq::<ReservedModel>::empty());
    assert(reserved_view(out@) =~= Seq::<ReservedModel>::empty());
    while i < v.len()
        invariant
            vv == reserved_view(v@),
            i <= v.len(),
            reserved_view(out@) == dedup_reserved(vv.take(i as int)),
        decreases v.len() - i,
    {
        assert(vv.take(i + 1).drop_last() =~= vv.take(i as int));
        assert(vv.take(i + 1).last() == v@[i as int]@);
        let keep = if out.len() > 0 {
            let n = out.len();
            assert(reserved_view(out@).last() == out@[n - 1]@);
            !same_text(&out[n - 1].ip, &v[i].ip)
        } else {
            true
        };
        if keep {
            let ghost before = reserved_view(out@);
            let x = clone_reserved(&v[i]);
            out.push(x);
            assert(reserved_view(out@) =~= before.push(v@[i as int]@));
        }
        i += 1;
    }
    assert(vv.take(i as int) =~= vv);
    out
}

/// The reserved addresses in the range, ordered and without repeats.
fn reserved_list(
    first: u32,
    last: u32,
    local_network: u32,
    local_broadcast: u32,
    local: Option<u32>,
    gateway: Option<u32>,
) -> (r: Vec<ReservedAddress>)
    ensures
        reserved_view(r@) == dedup_reserved(
            values(
                sort_keyed(
                    reserved_rows(first, last, local_network, local_broadcast, local, gateway),
                ),
            ),
        ),
{
    let mut rows: Vec<(u32, ReservedAddress)> = Vec::new();
    assert(rows_view(rows@) =~= Seq::<(u32, ReservedModel)>::empty());
    add_reserved(&mut rows, Some(local_network), first, last, "网络地址");
    add_reserved(&mut rows, Some(local_broadcast), first, last, "广播地址");
    add_reserved(&mut rows, local, first, last, "本机地址");
    add_reserved(&mut rows, gateway, first, last, "默认网关");
    let ghost model = reserved_rows(first, last, local_network, local_broadcast, local, gateway);
    assert(rows_view(rows@) =~= model);
    let ghost km = rows@;
    let sorted = sort_by_keys(rows);
    proof {
        lemma_sort_on_value(km, reserved_of());
    }
    let plain = drop_keys(sorted);
    proof {
        let target = values(sort_keyed(model));
        let mapped = sort_keyed(km).map_values(on_value(reserved_of()));
        assert(mapped.len() == plain@.len());
        assert forall|k: int| 0 <= k < plain@.len() implies reserved_view(plain@)[k] == target[k] by {
            assert(plain@[k] == sort_keyed(km)[k].1);
            assert(mapped[k] == on_value(reserved_of())(sort_keyed(km)[k]));
        }
        assert(reserved_view(plain@) =~= target);
    }
    dedup_rows(&plain)
}

/// The addresses a candidate must avoid: every host seen, and the local
/// address and the gateway where they fall in `first..=last`.
fn occupied_set(alive: &Vec<u32>, local: Option<u32>, gateway: Option<u32>, first: u32, last: u32) -> (r: HashSet<u32>)
    ensures
        forall|ip: u32| #[trigger] r@.contains(ip) == !free_in(alive@, local, gateway, first, last)(ip),
{
    let mut occupied: HashSet<u32> = HashSet::new();
    let mut i: usize = 0;
    while i < alive.len()
        invariant
            i <= alive.len(),
            forall|ip: u32| #[trigger] occupied@.contains(ip) == (exists|k: int| 0 <= k < i && alive@[k] == ip),
        decreases alive.len() - i,
    {
        occupied.insert(alive[i]);
        proof {
            assert forall|ip: u32| #[trigger] occupied@.contains(ip) == (exists|k: int| 0 <= k < i + 1 && alive@[k] == ip) by {
                if ip == alive@[i as int] {
                    assert(0 <= i < i + 1 && alive@[i as int] == ip);
                }
            }
        }
        i += 1;
    }
    if let Some(ip) = local {
        if first <= ip && ip <= last {
            occupied.insert(ip);
        }
    }
    if let Some(ip) = gateway {
        if first <= ip && ip <= last {
            occupied.insert(ip);
        }
    }
    occupied
}

/// The first `count` addresses of `targets` that no host, local address or
/// gateway takes, as text.
fn pick_candidates(
    targets: &Vec<u32>,
    alive: &Vec<u32>,
    local: Option<u32>,
    gateway: Option<u32>,
    first: u32,
    last: u32,
    count: usize,
) -> (r: Vec<String>)
    ensures
        crate::text::string_views(r@) == texts(
            first_n(targets@.filter(free_in(alive@, local, gateway, first, last)), count as nat),
        ),
{
    let ghost t = targets@;
    let ghost pred = free_in(alive@, local, gateway, first, last);
    let occupied = occupied_set(alive, local, gateway, first, last);
    let mut free: Vec<u32> = Vec::new();
    let mut i: usize = 0;
    assert(t.take(0).filter(pred) =~= Seq::<u32>::empty());
    while i < targets.len()
        invariant
            t == targets@,
            pred == free_in(alive@, local, gateway, first, last),
            forall|ip: u32| #[trigger] occupied@.contains(ip) == !pred(ip),
            i <= targets.len(),
            free@ == first_n(t.take(i as int).filter(pred), count as nat),
        decreases targets.len() - i,
    {
        proof {
            crate::text::lemma_filter_step(t, i as int, pred);
        }
        let ip = targets[i];
        let taken = occupied.contains(&ip);
        assert(pred(ip) == !taken);
        if !taken {
            let ghost f0 = t.take(i as int).filter(pred);
            if free.len() < count {
                free.push(ip);
                assert(free@ =~= first_n(f0.push(ip), count as nat));
            } else {
                assert(first_n(f0.push(ip), count as nat) =~= first_n(f0, count as nat));
            }
        }
        i += 1;
    }
    assert(t.take(i as int) =~= t);
    let mut out: Vec<String> = Vec::new();
    let mut j: usize = 0;
    while j < free.len()
        invariant
            j <= free.len(),
            crate::text::string_views(out@) == texts(free@.take(j as int)),
        decreases free.len() - j,
    {
        let ghost before = crate::text::string_views(out@);
        out.push(crate::net::ipv4_to_string(free[j]));
        assert(free@.take(j + 1) =~= free@.take(j as int).push(free@[j as int]));
        assert(texts(free@.take(j + 1)) =~= texts(free@.take(j as int)).push(ipv4_text(free@[j as int])));
        assert(crate::text::string_views(out@) =~= texts(free@.take(j + 1)));
        j += 1;
    }
    assert(free@.take(j as int) =~= free@);
    out
}

/// What the scan found (`findings_model` in the model): the hosts in address
/// order, the reserved addresses, and the first free-looking candidates.
pub fn scan_findings(
    plan: &ScanPlan,
    info: &LanInfo,
    observations: &[ProbeObservation],
    neighbors: &HashMap<u32, String>,
) -> (r: ScanFindings)
    ensures
        r@ == findings_model(
            plan@,
            info.address@,
            opt_view(info.gateway),
            obs_view(observations@),
            neighbors@,
        ),
{
    let local = crate::net::parse_ipv4_str(info.address.as_str());
    let gateway = match &info.gateway {
        Some(g) => crate::net::parse_ipv4_str(g.as_str()),
        None => None,
    };
    let (active_hosts, alive) = collect_hosts(observations, neighbors, local, gateway);
    let first = plan.network.network();
    let last = plan.network.broadcast();
    let reserved = reserved_list(
        first,
        last,
        plan.local_network.network(),
        plan.local_network.broadcast(),
        local,
        gateway,
    );
    let candidates = pick_candidates(&plan.targets, &alive, local, gateway, first, last, plan.suggestion_count);
    ScanFindings {
        cidr: plan.network.to_text(),
        scanned_hosts: plan.targets.len(),
        active_hosts,
        candidates,
        reserved,
        warning: String::from_str(SCAN_WARNING),
    }
}

// ---------------------------------------------------------------------------
// Laws
// ---------------------------------------------------------------------------

pub open spec fn ascending(s: Seq<u32>) -> bool {
    forall|i: int, j: int| 0 <= i < j < s.len() ==> s[i] < s[j]
}

proof fn lemma_filter_ascending(s: Seq<u32>, pred: spec_fn(u32) -> bool)
    requires
        ascending(s),
    ensures
        ascending(s.filter(pred)),
    decreases s.len(),
{
    broadcast use vstd::seq_lib::group_filter_ensures;
    if s.len() > 0 {
        let d = s.drop_last();
        lemma_filter_ascending(d, pred);
        assert(s.take(s.len() - 1) =~= d);
        crate::text::lemma_filter_step(s, s.len() - 1, pred);
        assert(s.take(s.len() as int) =~= s);
        let f = d.filter(pred);
        assert forall|k: int| 0 <= k < f.len() implies f[k] < s.last() by {
            crate::text::lemma_filter_member(d, pred, k);
            let w = choose|w: int| 0 <= w < d.len() && d[w] == f[k];
            assert(s[w] == d[w]);
        }
    }
}

proof fn lemma_address_range_ascending(n: u32, b: u32)
    requires
        n <= b,
    ensures
        ascending(address_range(n, b)),
        forall|k: int| 0 <= k < address_range(n, b).len() ==> n <= #[trigger] address_range(n, b)[k] <= b,
{
}

/// A plan probes between one and `MAX_SCAN_HOSTS` addresses, in ascending
/// order, each inside the requested range and strictly inside the local
/// network (never its network or broadcast address); its timeout,
/// concurrency and number of suggestions lie within 100–5000 ms, 1–64 and 1–100.
pub proof fn law_scan_plan(
    info_cidr: Seq<char>,
    suggested: Seq<char>,
    cidr: Option<Seq<char>>,
    timeout_ms: u64,
    concurrency: usize,
    suggestion_count: usize,
)
    ensures
        scan_plan_model(info_cidr, suggested, cidr, timeout_ms, concurrency, suggestion_count) matches Ok(m) ==> {
            &&& 1 <= m.targets.len() <= MAX_SCAN_HOSTS
            &&& ascending(m.targets)
            &&& forall|k: int|
                0 <= k < m.targets.len() ==> m.network <= #[trigger] m.targets[k] <= m.broadcast
                    && m.local_network < m.targets[k] < m.local_broadcast
            &&& 100 <= m.timeout_ms <= 5000
            &&& 1 <= m.concurrency <= 64
            &&& 1 <= m.suggestion_count <= 100
        },
{
    broadcast use vstd::seq_lib::group_filter_ensures;
    match scan_plan_model(info_cidr, suggested, cidr, timeout_ms, concurrency, suggestion_count) {
        Ok(m) => {
            match cidr_parse(scan_request(cidr, suggested)) {
                Ok((a, p)) => crate::net::law_network_contains_origin(a, p),
                Err(_) => {},
            }
            let all = address_range(m.network, m.broadcast);
            let pred = outside_of(m.local_network, m.local_broadcast);
            assert(m.targets == all.filter(pred));
            lemma_address_range_ascending(m.network, m.broadcast);
            lemma_filter_ascending(all, pred);
            all.lemma_filter_len(pred);
            assert forall|k: int| 0 <= k < m.targets.len() implies m.network <= #[trigger] m.targets[k]
                <= m.broadcast && m.local_network < m.targets[k] < m.local_broadcast by {
                crate::text::lemma_filter_member(all, pred, k);
            }
        },
        Err(_) => {},
    }
}

proof fn lemma_keyed_hosts(
    obs: Seq<ObsModel>,
    macs: Map<u32, String>,
    local: Option<u32>,
    gateway: Option<u32>,
)
    ensures
        keyed_hosts(obs, macs, local, gateway).len() <= obs.len(),
        forall|k: int|
            0 <= k < keyed_hosts(obs, macs, local, gateway).len() ==> (#[trigger] keyed_hosts(
                obs,
                macs,
                local,
                gateway,
            )[k]).0 == text_key(keyed_hosts(obs, macs, local, gateway)[k].1.ip),
    decreases obs.len(),
{
    if obs.len() > 0 {
        lemma_keyed_hosts(obs.drop_last(), macs, local, gateway);
    }
}

pub open spec fn canonical(r: ReservedModel) -> bool {
    r.ip == ipv4_text(text_key(r.ip))
}

proof fn lemma_dedup(s: Seq<ReservedModel>)
    requires
        forall|i: int, j: int| 0 <= i < j < s.len() ==> text_key(s[i].ip) <= text_key(s[j].ip),
        forall|i: int| 0 <= i < s.len() ==> canonical(#[trigger] s[i]),
    ensures
        forall|i: int, j: int|
            0 <= i < j < dedup_reserved(s).len() ==> text_key(dedup_reserved(s)[i].ip) < text_key(
                dedup_reserved(s)[j].ip,
            ),
        forall|i: int| 0 <= i < dedup_reserved(s).len() ==> canonical(#[trigger] dedup_reserved(s)[i]),
        s.len() > 0 ==> dedup_reserved(s).len() > 0 && text_key(dedup_reserved(s).last().ip) == text_key(
            s.last().ip,
        ),
        s.len() == 0 ==> dedup_reserved(s).len() == 0,
    decreases s.len(),
{
    if s.len() > 0 {
        let d0 = s.drop_last();
        lemma_dedup(d0);
        let d = dedup_reserved(d0);
        if d.len() > 0 && d.last().ip == s.last().ip {
        } else {
            if d.len() > 0 {
                assert(canonical(d.last()));
                assert(canonical(s.last()));
                assert(text_key(d.last().ip) == text_key(d0.last().ip));
                assert(text_key(d0.last().ip) <= text_key(s.last().ip));
                assert(text_key(d.last().ip) != text_key(s.last().ip));
            }
        }
    }
}

proof fn lemma_reserved_rows_canonical(
    first: u32,
    last: u32,
    local_network: u32,
    local_broadcast: u32,
    local: Option<u32>,
    gateway: Option<u32>,
)
    ensures
        ({
            let r = reserved_rows(first, last, local_network, local_broadcast, local, gateway);
            forall|k: int| 0 <= k < r.len() ==> (#[trigger] r[k]).0 == text_key(r[k].1.ip) && canonical(r[k].1)
        }),
{
    crate::net::law_ipv4_text_roundtrip(local_network);
    crate::net::law_ipv4_text_roundtrip(local_broadcast);
    if local is Some {
        crate::net::law_ipv4_text_roundtrip(local->0);
    }
    if gateway is Some {
        crate::net::law_ipv4_text_roundtrip(gateway->0);
    }
    let r = reserved_rows(first, last, local_network, local_broadcast, local, gateway);
    assert forall|k: int| 0 <= k < r.len() implies (#[trigger] r[k]).0 == text_key(r[k].1.ip) && canonical(
        r[k].1,
    ) by {
        let a = reserved_if(Some(local_network), first, last, "网络地址"@);
        let b = reserved_if(Some(local_broadcast), first, last, "广播地址"@);
        let c = reserved_if(local, first, last, "本机地址"@);
        let d = reserved_if(gateway, first, last, "默认网关"@);
        assert(r == a + b + c + d);
        if k < a.len() {
            assert(r[k] == a[k]);
        } else if k < a.len() + b.len() {
            assert(r[k] == b[k - a.len()]);
        } else if k < a.len() + b.len() + c.len() {
            assert(r[k] == c[k - a.len() - b.len()]);
        } else {
            assert(r[k] == d[k - a.len() - b.len() - c.len()]);
        }
    }
}

/// An element of a stable sort is an element of the input.
proof fn lemma_sorted_member<A>(s: Seq<(u32, A)>, k: int)
    requires
        0 <= k < sort_keyed(s).len(),
    ensures
        s.contains(sort_keyed(s)[k]),
{
    broadcast use vstd::seq_lib::group_to_multiset_ensures;
    crate::order::law_sort_keyed(s);
    assert(sort_keyed(s).contains(sort_keyed(s)[k]));
    assert(sort_keyed(s).to_multiset().count(sort_keyed(s)[k]) > 0);
}

/// What a scan report promises: it counts every probed address; the hosts
/// found come in address order and are no more than the observations; every
/// candidate is a probed address that no host found, local address or gateway
/// (inside the range) takes, and there are at most as many as were asked for;
/// the reserved addresses come in strictly ascending order, so none twice.
pub proof fn law_scan_findings(
    plan: PlanModel,
    address: Seq<char>,
    gateway_text: Option<Seq<char>>,
    obs: Seq<ObsModel>,
    macs: Map<u32, String>,
)
    ensures
        ({
            let f = findings_model(plan, address, gateway_text, obs, macs);
            let local = parse_ipv4(address);
            let gateway = match gateway_text {
                Some(g) => parse_ipv4(g),
                None => None,
            };
            let alive = alive_ips(obs, macs, local, gateway);
            let picked = first_n(
                plan.targets.filter(free_in(alive, local, gateway, plan.network, plan.broadcast)),
                plan.suggestion_count as nat,
            );
            &&& f.scanned_hosts == plan.targets.len()
            &&& f.active_hosts.len() <= obs.len()
            &&& forall|i: int, j: int|
                0 <= i < j < f.active_hosts.len() ==> text_key(f.active_hosts[i].ip) <= text_key(
                    f.active_hosts[j].ip,
                )
            &&& f.candidates == texts(picked)
            &&& picked.len() <= plan.suggestion_count
            &&& forall|k: int|
                0 <= k < picked.len() ==> {
                    &&& plan.targets.contains(#[trigger] picked[k])
                    &&& !alive.contains(picked[k])
                    &&& (local == Some(picked[k]) || gateway == Some(picked[k])) ==> !(plan.network
                        <= picked[k] <= plan.broadcast)
                }
            &&& forall|i: int, j: int|
                0 <= i < j < f.reserved.len() ==> text_key(f.reserved[i].ip) < text_key(
                    f.reserved[j].ip,
                )
        }),
{
    broadcast use vstd::seq_lib::group_filter_ensures;
    broadcast use vstd::seq_lib::group_to_multiset_ensures;
    let local = parse_ipv4(address);
    let gateway = match gateway_text {
        Some(g) => parse_ipv4(g),
        None => None,
    };
    let f = findings_model(plan, address, gateway_text, obs, macs);
    // hosts
    let kh = keyed_hosts(obs, macs, local, gateway);
    lemma_keyed_hosts(obs, macs, local, gateway);
    crate::order::law_sort_keyed(kh);
    let sk = sort_keyed(kh);
    assert(sk.len() == kh.len()) by {
        assert(sk.to_multiset().len() == kh.to_multiset().len());
    }
    assert forall|k: int| 0 <= k < sk.len() implies (#[trigger] sk[k]).0 == text_key(sk[k].1.ip) by {
        lemma_sorted_member(kh, k);
        let w = choose|w: int| 0 <= w < kh.len() && kh[w] == sk[k];
        assert(kh[w].0 == text_key(kh[w].1.ip));
    }
    assert forall|i: int, j: int| 0 <= i < j < f.active_hosts.len() implies text_key(
        f.active_hosts[i].ip,
    ) <= text_key(f.active_hosts[j].ip) by {
        assert(f.active_hosts[i] == sk[i].1);
        assert(f.active_hosts[j] == sk[j].1);
        assert(sk[i].0 == text_key(sk[i].1.ip));
        assert(sk[j].0 == text_key(sk[j].1.ip));
    }
    // candidates
    let alive = alive_ips(obs, macs, local, gateway);
    let pred = free_in(alive, local, gateway, plan.network, plan.broadcast);
    let fl = plan.targets.filter(pred);
    let picked = first_n(fl, plan.suggestion_count as nat);
    assert forall|k: int| 0 <= k < picked.len() implies {
        &&& plan.targets.contains(#[trigger] picked[k])
        &&& !alive.contains(picked[k])
        &&& (local == Some(picked[k]) || gateway == Some(picked[k])) ==> !(plan.network <= picked[k]
            <= plan.broadcast)
    } by {
        assert(picked[k] == fl[k]);
        crate::text::lemma_filter_member(plan.targets, pred, k);
    }
    // reserved
    let rr = reserved_rows(plan.network, plan.broadcast, plan.local_network, plan.local_broadcast, local, gateway);
    lemma_reserved_rows_canonical(plan.network, plan.broadcast, plan.local_network, plan.local_broadcast, local, gateway);
    crate::order::law_sort_keyed(rr);
    let sr = sort_keyed(rr);
    assert(sr.len() == rr.len()) by {
        assert(sr.to_multiset().len() == rr.to_multiset().len());
    }
    assert forall|k: int| 0 <= k < sr.len() implies (#[trigger] sr[k]).0 == text_key(sr[k].1.ip) && canonical(
        sr[k].1,
    ) by {
        lemma_sorted_member(rr, k);
        let w = choose|w: int| 0 <= w < rr.len() && rr[w] == sr[k];
        assert(rr[w].0 == text_key(rr[w].1.ip) && canonical(rr[w].1));
    }
    let vr = values(sr);
    assert forall|i: int, j: int| 0 <= i < j < vr.len() implies text_key(vr[i].ip) <= text_key(vr[j].ip) by {
        assert(sr[i].0 == text_key(sr[i].1.ip));
        assert(sr[j].0 == text_key(sr[j].1.ip));
    }
    assert forall|i: int| 0 <= i < vr.len() implies canonical(#[trigger] vr[i]) by {
        assert(sr[i].0 == text_key(sr[i].1.ip) && canonical(sr[i].1));
    }
    lemma_dedup(vr);
}

/// A suggested address of a planned scan lies inside the requested range and
/// strictly inside the local network (never its network or broadcast
/// address), and no host found, local address or gateway takes it.
pub proof fn law_suggestions_are_usable(
    info_cidr: Seq<char>,
    suggested: Seq<char>,
    cidr: Option<Seq<char>>,
    timeout_ms: u64,
    concurrency: usize,
    suggestion_count: usize,
    address: Seq<char>,
    gateway_text: Option<Seq<char>>,
    obs: Seq<ObsModel>,
    macs: Map<u32, String>,
)
    ensures
        scan_plan_model(info_cidr, suggested, cidr, timeout_ms, concurrency, suggestion_count) matches Ok(m) ==> {
            let local = parse_ipv4(address);
            let gateway = match gateway_text {
                Some(g) => parse_ipv4(g),
                None => None,
            };
            let picked = first_n(
                m.targets.filter(free_in(alive_ips(obs, macs, local, gateway), local, gateway, m.network, m.broadcast)),
                m.suggestion_count as nat,
            );
            &&& findings_model(m, address, gateway_text, obs, macs).candidates == texts(picked)
            &&& 1 <= picked.len() ==> picked.len() <= m.suggestion_count <= 100
            &&& forall|k: int|
                0 <= k < picked.len() ==> {
                    &&& m.network <= #[trigger] picked[k] <= m.broadcast
                    &&& m.local_network < picked[k] < m.local_broadcast
                    &&& !alive_ips(obs, macs, local, gateway).contains(picked[k])
                    &&& local != Some(picked[k])
                    &&& gateway != Some(picked[k])
                }
        },
{
    law_scan_plan(info_cidr, suggested, cidr, timeout_ms, concurrency, suggestion_count);
    match scan_plan_model(info_cidr, suggested, cidr, timeout_ms, concurrency, suggestion_count) {
        Ok(m) => {
            law_scan_findings(m, address, gateway_text, obs, macs);
            let local = parse_ipv4(address);
            let gateway = match gateway_text {
                Some(g) => parse_ipv4(g),
                None => None,
            };
            let alive = alive_ips(obs, macs, local, gateway);
            let picked = first_n(
                m.targets.filter(free_in(alive, local, gateway, m.network, m.broadcast)),
                m.suggestion_count as nat,
            );
            assert forall|k: int| 0 <= k < picked.len() implies {
                &&& m.network <= #[trigger] picked[k] <= m.broadcast
                &&& m.local_network < picked[k] < m.local_broadcast
                &&& !alive.contains(picked[k])
                &&& local != Some(picked[k])
                &&& gateway != Some(picked[k])
            } by {
                let pred = free_in(alive, local, gateway, m.network, m.broadcast);
                assert(picked[k] == m.targets.filter(pred)[k]);
                crate::text::lemma_filter_member(m.targets, pred, k);
                let w = choose|w: int| 0 <= w < m.targets.len() && m.targets[w] == picked[k];
                assert(m.network <= m.targets[w] <= m.broadcast);
            }
        },
        Err(_) => {},
    }
}


proof fn lemma_alive_contains(
    obs: Seq<ObsModel>,
    macs: Map<u32, String>,
    local: Option<u32>,
    gateway: Option<u32>,
    k: int,
)
    requires
        0 <= k < obs.len(),
        observed_host(obs[k], macs, local, gateway) is Some,
    ensures
        alive_ips(obs, macs, local, gateway).contains(obs[k].ip),
    decreases obs.len(),
{
    let rest = alive_ips(obs.drop_last(), macs, local, gateway);
    if k == obs.len() - 1 {
        assert(alive_ips(obs, macs, local, gateway) == rest.push(obs[k].ip));
        assert(rest.push(obs[k].ip)[rest.len() as int] == obs[k].ip);
    } else {
        assert(obs.drop_last()[k] == obs[k]);
        lemma_alive_contains(obs.drop_last(), macs, local, gateway, k);
        let w = choose|w: int| 0 <= w < rest.len() && rest[w] == obs[k].ip;
        if observed_host(obs.last(), macs, local, gateway) is Some {
            assert(rest.push(obs.last().ip)[w] == obs[k].ip);
        }
    }
}

proof fn lemma_keyed_contains(
    obs: Seq<ObsModel>,
    macs: Map<u32, String>,
    local: Option<u32>,
    gateway: Option<u32>,
    k: int,
)
    requires
        0 <= k < obs.len(),
        observed_host(obs[k], macs, local, gateway) is Some,
    ensures
        ({
            let h = observed_host(obs[k], macs, local, gateway)->0;
            keyed_hosts(obs, macs, local, gateway).contains((text_key(h.ip), h))
        }),
    decreases obs.len(),
{
    let h = observed_host(obs[k], macs, local, gateway)->0;
    let x = (text_key(h.ip), h);
    let rest = keyed_hosts(obs.drop_last(), macs, local, gateway);
    if k == obs.len() - 1 {
        assert(keyed_hosts(obs, macs, local, gateway) == rest.push(x));
        assert(rest.push(x)[rest.len() as int] == x);
    } else {
        assert(obs.drop_last()[k] == obs[k]);
        lemma_keyed_contains(obs.drop_last(), macs, local, gateway, k);
        let w = choose|w: int| 0 <= w < rest.len() && rest[w] == x;
        match observed_host(obs.last(), macs, local, gateway) {
            Some(g) => {
                assert(rest.push((text_key(g.ip), g))[w] == x);
            },
            None => {},
        }
    }
}

/// Every input of a stable sort is in its output.
proof fn lemma_sorted_keeps<A>(s: Seq<(u32, A)>, x: (u32, A))
    requires
        s.contains(x),
    ensures
        sort_keyed(s).contains(x),
{
    broadcast use vstd::seq_lib::group_to_multiset_ensures;
    crate::order::law_sort_keyed(s);
    assert(s.to_multiset().count(x) > 0);
    assert(sort_keyed(s).to_multiset().count(x) > 0);
}

/// An address that the neighbour table knows is in use: the scan reports it
/// as an active host, with its MAC address and the method `arp`, and never
/// suggests it.
pub proof fn law_neighbors_in_use(
    plan: PlanModel,
    address: Seq<char>,
    gateway_text: Option<Seq<char>>,
    obs: Seq<ObsModel>,
    macs: Map<u32, String>,
    k: int,
)
    requires
        0 <= k < obs.len(),
        macs.dom().contains(obs[k].ip),
    ensures
        ({
            let f = findings_model(plan, address, gateway_text, obs, macs);
            let ip = obs[k].ip;
            &&& exists|j: int|
                0 <= j < f.active_hosts.len() && (#[trigger] f.active_hosts[j]).ip == ipv4_text(ip)
                    && f.active_hosts[j].mac == Some(macs[ip]@) && f.active_hosts[j].methods.contains(
                    "arp"@,
                )
            &&& !f.candidates.contains(ipv4_text(ip))
        }),
{
    let local = parse_ipv4(address);
    let gateway = match gateway_text {
        Some(g) => parse_ipv4(g),
        None => None,
    };
    let f = findings_model(plan, address, gateway_text, obs, macs);
    let ip = obs[k].ip;
    let o = obs[k];
    assert(mac_of(macs, ip) == Some(macs[ip]@));
    let h = observed_host(o, macs, local, gateway)->0;
    // the host
    let a = flag(o.ping, "icmp"@) + flag(o.tcp, "tcp"@);
    assert(h.methods == a + flag(true, "arp"@) + flag(local == Some(ip), "local"@));
    assert(h.methods[a.len() as int] == "arp"@);
    let kh = keyed_hosts(obs, macs, local, gateway);
    lemma_keyed_contains(obs, macs, local, gateway, k);
    lemma_sorted_keeps(kh, (text_key(h.ip), h));
    let sk = sort_keyed(kh);
    let w = choose|w: int| 0 <= w < sk.len() && sk[w] == (text_key(h.ip), h);
    assert(f.active_hosts[w] == h);
    // the candidates
    law_scan_findings(plan, address, gateway_text, obs, macs);
    lemma_alive_contains(obs, macs, local, gateway, k);
    let alive = alive_ips(obs, macs, local, gateway);
    let picked = first_n(
        plan.targets.filter(free_in(alive, local, gateway, plan.network, plan.broadcast)),
        plan.suggestion_count as nat,
    );
    if f.candidates.contains(ipv4_text(ip)) {
        let j = choose|j: int| 0 <= j < f.candidates.len() && f.candidates[j] == ipv4_text(ip);
        assert(f.candidates[j] == ipv4_text(picked[j]));
        crate::net::law_ipv4_text_roundtrip(picked[j]);
        crate::net::law_ipv4_text_roundtrip(ip);
        assert(picked[j] == ip);
        assert(!alive.contains(picked[j]));
    }
}

} // verus!
