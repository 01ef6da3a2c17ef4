//! IPv4 addresses as 32-bit numbers: dotted-quad text in both directions,
//! prefixes and netmasks, CIDR networks and the addresses they cover.

use vstd::prelude::*;
use crate::num::{
    all_digits, decimal, decimal_exec, digits_value, is_digit, lemma_decimal_digits, parse_unsigned,
    parse_unsigned_exec, push_decimal,
};
use crate::text::{
    index_of, lemma_index_of, lit_then, split_all, split_char, split_once, split_once_exec, string_of,
    to_chars, views,
};

verus! {

/// Largest number of addresses a scan may cover.
pub const MAX_SCAN_HOSTS: usize = 1024;

// ---------------------------------------------------------------------------
// Dotted-quad text
// ---------------------------------------------------------------------------

/// One decimal octet as `Ipv4Addr::from_str` accepts it: one to three digits,
/// no leading zero unless the octet is `0`, value at most 255.
pub open spec fn valid_octet(s: Seq<char>) -> bool {
    &&& 1 <= s.len() <= 3
    &&& all_digits(s)
    &&& (s.len() == 1 || s[0] != '0')
    &&& digits_value(s) <= 255
}

pub open spec fn octets_value(a: nat, b: nat, c: nat, d: nat) -> u32 {
    (a * 16777216 + b * 65536 + c * 256 + d) as u32
}

/// `Ipv4Addr::from_str`: exactly four valid octets separated by dots.
pub open spec fn parse_ipv4(s: Seq<char>) -> Option<u32> {
    let p = split_char(s, '.');
    if p.len() == 4 && valid_octet(p[0]) && valid_octet(p[1]) && valid_octet(p[2]) && valid_octet(
        p[3],
    ) {
        Some(
            octets_value(
                digits_value(p[0]),
                digits_value(p[1]),
                digits_value(p[2]),
                digits_value(p[3]),
            ),
        )
    } else {
        None
    }
}

/// The dotted-quad rendering of an address (`Display` for `Ipv4Addr`).
pub open spec fn ipv4_text(a: u32) -> Seq<char> {
    decimal((a / 16777216) as nat) + "."@ + decimal(((a / 65536) % 256) as nat) + "."@ + decimal(
        ((a / 256) % 256) as nat,
    ) + "."@ + decimal((a % 256) as nat)
}

fn valid_octet_exec(s: &[char]) -> (r: Option<u32>)
    ensures
        valid_octet(s@) ==> r == Some(digits_value(s@) as u32),
        !valid_octet(s@) ==> r is None,
{
    if s.len() < 1 || s.len() > 3 || s[0] == '+' || (s.len() > 1 && s[0] == '0') {
        return None;
    }
    match parse_unsigned_exec(s, 255) {
        Some(v) => Some(v as u32),
        None => None,
    }
}

/// The address with the given four octets, most significant first.
pub fn ipv4_from_octets(a: u8, b: u8, c: u8, d: u8) -> (r: u32)
    ensures
        r == octets_value(a as nat, b as nat, c as nat, d as nat),
{
    (a as u32) * 16777216 + (b as u32) * 65536 + (c as u32) * 256 + (d as u32)
}

/// Parses dotted-quad text (`parse_ipv4` in the model).
pub fn parse_ipv4_exec(s: &[char]) -> (r: Option<u32>)
    ensures
        r == parse_ipv4(s@),
{
    let parts = split_all(s, '.');
    if parts.len() != 4 {
        return None;
    }
    assert(views(parts@)[0] == parts@[0]@);
    assert(views(parts@)[1] == parts@[1]@);
    assert(views(parts@)[2] == parts@[2]@);
    assert(views(parts@)[3] == parts@[3]@);
    let a = match valid_octet_exec(parts[0].as_slice()) {
        Some(v) => v,
        None => return None,
    };
    let b = match valid_octet_exec(parts[1].as_slice()) {
        Some(v) => v,
        None => return None,
    };
    let c = match valid_octet_exec(parts[2].as_slice()) {
        Some(v) => v,
        None => return None,
    };
    let d = match valid_octet_exec(parts[3].as_slice()) {
        Some(v) => v,
        None => return None,
    };
    Some(a * 16777216 + b * 65536 + c * 256 + d)
}

/// Parses dotted-quad text given as a string.
pub fn parse_ipv4_str(s: &str) -> (r: Option<u32>)
    ensures
        r == parse_ipv4(s@),
{
    let cs = to_chars(s);
    parse_ipv4_exec(cs.as_slice())
}

pub fn ipv4_chars(a: u32) -> (r: Vec<char>)
    ensures
        r@ == ipv4_text(a),
{
    let mut out: Vec<char> = Vec::new();
    push_decimal(&mut out, (a / 16777216) as u64);
    out.push('.');
    push_decimal(&mut out, ((a / 65536) % 256) as u64);
    out.push('.');
    push_decimal(&mut out, ((a / 256) % 256) as u64);
    out.push('.');
    push_decimal(&mut out, (a % 256) as u64);
    proof {
        reveal_strlit(".");
        assert(out@ =~= ipv4_text(a));
    }
    out
}

/// The dotted-quad text of an address.
pub fn ipv4_to_string(a: u32) -> (r: String)
    ensures
        r@ == ipv4_text(a),
{
    let cs = ipv4_chars(a);
    string_of(cs.as_slice())
}

// ---------------------------------------------------------------------------
// Prefixes and netmasks
// ---------------------------------------------------------------------------

/// The netmask of a prefix length: the top `prefix` bits set.
pub open spec fn mask_of(prefix: nat) -> u32 {
    if prefix == 0 {
        0
    } else {
        (0xffff_ffffu32 << ((32 - prefix) as u32)) as u32
    }
}

pub fn mask_exec(prefix: u8) -> (r: u32)
    requires
        prefix <= 32,
    ensures
        r == mask_of(prefix as nat),
{
    if prefix == 0 {
        0
    } else {
        u32::MAX << (32 - prefix as u32)
    }
}

/// Number of set bits.
pub open spec fn ones(x: u32) -> nat
    decreases x,
{
    if x == 0 {
        0
    } else {
        (x % 2) as nat + ones(x / 2)
    }
}

pub fn count_ones(x: u32) -> (r: u32)
    ensures
        r == ones(x),
        r <= 32,
{
    let mut v = x;
    let mut n: u32 = 0;
    let mut steps: u32 = 0;
    assert(pow2_of(0) == 1);
    while v != 0
        invariant
            ones(x) == n + ones(v),
            n <= steps,
            steps <= 32,
            v as nat * pow2_of(steps) <= 0xffff_ffff,
        decreases v,
    {
        n = n + v % 2;
        proof {
            lemma_pow2_step(steps, v);
        }
        v = v / 2;
        steps = steps + 1;
    }
    n
}

pub open spec fn pow2_of(n: u32) -> nat
    decreases n,
{
    if n == 0 {
        1
    } else {
        2 * pow2_of((n - 1) as u32)
    }
}

proof fn lemma_pow2_step(steps: u32, v: u32)
    requires
        v != 0,
        v as nat * pow2_of(steps) <= 0xffff_ffff,
    ensures
        steps < 32,
        (v / 2) as nat * pow2_of((steps + 1) as u32) <= 0xffff_ffff,
{
    lemma_pow2_big(steps);
    let p = pow2_of(steps);
    assert(v as nat * p >= p) by (nonlinear_arith)
        requires
            v >= 1,
    ;
    assert(pow2_of((steps + 1) as u32) == 2 * p);
    assert((v / 2) as nat * (2 * p) <= v as nat * p) by (nonlinear_arith);
}

proof fn lemma_pow2_big(steps: u32)
    ensures
        steps >= 32 ==> pow2_of(steps) > 0xffff_ffff,
        pow2_of(steps) >= 1,
    decreases steps,
{
    if steps > 0 {
        lemma_pow2_big((steps - 1) as u32);
        if steps == 32 {
            assert(pow2_of(32) == 0x1_0000_0000) by {
                reveal_with_fuel(pow2_of, 33);
            }
        }
    }
}

/// The prefix length of a contiguous netmask (`255.255.254.0` is 23); any other
/// mask is an error that names it.
pub fn prefix_from_netmask(netmask: u32) -> (r: Result<u8, String>)
    ensures
        match r {
            Ok(p) => p <= 32 && p == ones(netmask) && netmask == mask_of(p as nat),
            Err(e) => netmask != mask_of(ones(netmask)) && e@ == "不连续的 IPv4 子网掩码: "@ + ipv4_text(netmask),
        },
{
    let prefix = count_ones(netmask) as u8;
    let expected = mask_exec(prefix);
    if netmask != expected {
        let text = ipv4_chars(netmask);
        return Err(lit_then("不连续的 IPv4 子网掩码: ", text.as_slice()));
    }
    Ok(prefix)
}

// ---------------------------------------------------------------------------
// CIDR networks
// ---------------------------------------------------------------------------

pub open spec fn network_of(ip: u32, prefix: nat) -> u32 {
    ip & mask_of(prefix)
}

pub open spec fn broadcast_of(ip: u32, prefix: nat) -> u32 {
    (ip & mask_of(prefix)) | !mask_of(prefix)
}

/// A CIDR network: its first (network) and last (broadcast) address and its prefix.
#[derive(Clone, Copy, Debug)]
pub struct Ipv4Network {
    network: u32,
    broadcast: u32,
    prefix: u8,
}

impl Ipv4Network {
    /// The network address is the masked address, the broadcast address sets all
    /// host bits, and the prefix is at most 32.
    #[verifier::type_invariant]
    spec fn wf(self) -> bool {
        &&& self.prefix <= 32
        &&& self.network == network_of(self.network, self.prefix as nat)
        &&& self.broadcast == broadcast_of(self.network, self.prefix as nat)
    }

    pub closed spec fn spec_network(self) -> u32 {
        self.network
    }

    pub closed spec fn spec_broadcast(self) -> u32 {
        self.broadcast
    }

    pub closed spec fn spec_prefix(self) -> nat {
        self.prefix as nat
    }

    pub fn network(&self) -> (r: u32)
        ensures
            r == self.spec_network(),
    {
        self.network
    }

    pub fn broadcast(&self) -> (r: u32)
        ensures
            r == self.spec_broadcast(),
    {
        self.broadcast
    }

    pub fn prefix(&self) -> (r: u8)
        ensures
            r as nat == self.spec_prefix(),
    {
        self.prefix
    }

    /// The network of `ip` with the given prefix length.
    pub fn from_ip(ip: u32, prefix: u8) -> (r: Ipv4Network)
        requires
            prefix <= 32,
        ensures
            r.spec_network() == network_of(ip, prefix as nat),
            r.spec_broadcast() == broadcast_of(ip, prefix as nat),
            r.spec_prefix() == prefix as nat,
    {
        let mask = mask_exec(prefix);
        let network = ip & mask;
        proof {
            assert((ip & mask) & mask == ip & mask) by (bit_vector);
            assert(((ip & mask) & mask) | !mask == (ip & mask) | !mask) by (bit_vector);
        }
        Ipv4Network { network, broadcast: network | !mask, prefix }
    }

    /// Whether `ip` lies between the network and the broadcast address, both included.
    pub fn contains(&self, ip: u32) -> (r: bool)
        ensures
            r == (self.spec_network() <= ip && ip <= self.spec_broadcast()),
    {
        ip >= self.network && ip <= self.broadcast
    }

    /// The text `network/prefix`, such as `192.168.10.0/24`.
    pub fn to_text(&self) -> (r: String)
        ensures
            r@ == ipv4_text(self.spec_network()) + "/"@ + decimal(self.spec_prefix()),
    {
        let mut out = ipv4_chars(self.network);
        out.push('/');
        push_decimal(&mut out, self.prefix as u64);
        proof {
            reveal_strlit("/");
            assert(out@ =~= ipv4_text(self.spec_network()) + "/"@ + decimal(self.spec_prefix()));
        }
        string_of(out.as_slice())
    }

    /// Addresses strictly between the network and the broadcast address.
    pub fn usable_host_count(&self) -> (r: usize)
        ensures
            self.spec_broadcast() - self.spec_network() >= 1 ==> r == self.spec_broadcast()
                - self.spec_network() - 1,
            self.spec_broadcast() - self.spec_network() < 1 ==> r == 0,
    {
        proof {
            use_type_invariant(self);
            lemma_network_le_broadcast(self.network, mask_of(self.prefix as nat));
        }
        let d = self.broadcast - self.network;
        if d >= 1 {
            (d - 1) as usize
        } else {
            0
        }
    }

    /// The host addresses, network+1 onwards; an error when there are none or
    /// more than `MAX_SCAN_HOSTS`.
    pub fn hosts(&self) -> (r: Result<Vec<u32>, String>)
        ensures
            ({
                let count = self.spec_broadcast() - self.spec_network() - 1;
                match r {
                    Ok(v) => 1 <= count <= MAX_SCAN_HOSTS && v.len() == count && forall|i: int|
                        0 <= i < v.len() ==> v@[i] == self.spec_network() + 1 + i,
                    Err(e) => {
                        ||| count < 1 && e@ == ipv4_text(self.spec_network()) + "/"@ + decimal(
                            self.spec_prefix(),
                        ) + " 没有可扫描的主机地址"@
                        ||| count > MAX_SCAN_HOSTS && e@ == "扫描范围包含 "@ + decimal(count as nat)
                            + " 个主机，超过安全上限 1024；请缩小 CIDR"@
                    },
                }
            }),
    {
        proof {
            use_type_invariant(self);
            lemma_network_le_broadcast(self.network, mask_of(self.prefix as nat));
        }
        let count = self.usable_host_count();
        if count == 0 {
            let t = self.to_text();
            let mut e = t;
            e.append(" 没有可扫描的主机地址");
            return Err(e);
        }
        if count > MAX_SCAN_HOSTS {
            let digits = decimal_exec(count as u64);
            let mut e = lit_then("扫描范围包含 ", digits.as_slice());
            e.append(" 个主机，超过安全上限 1024；请缩小 CIDR");
            return Err(e);
        }
        let start = self.network + 1;
        let mut out: Vec<u32> = Vec::new();
        let mut i: usize = 0;
        while i < count
            invariant
                count <= MAX_SCAN_HOSTS,
                count == self.spec_broadcast() - self.spec_network() - 1,
                start == self.spec_network() + 1,
                i <= count,
                out.len() == i,
                forall|k: int| 0 <= k < i ==> out@[k] == start + k,
            decreases count - i,
        {
            out.push(start + i as u32);
            i += 1;
        }
        Ok(out)
    }

    /// Every address from the network to the broadcast address; an error when
    /// there are more than `MAX_SCAN_HOSTS`.
    pub fn addresses(&self) -> (r: Result<Vec<u32>, String>)
        ensures
            ({
                let count = self.spec_broadcast() - self.spec_network() + 1;
                match r {
                    Ok(v) => count <= MAX_SCAN_HOSTS && v.len() == count && forall|i: int|
                        0 <= i < v.len() ==> v@[i] == self.spec_network() + i,
                    Err(e) => count > MAX_SCAN_HOSTS && e@ == "扫描范围包含 "@ + decimal(count as nat)
                        + " 个地址，超过安全上限 1024；请缩小 CIDR"@,
                }
            }),
    {
        proof {
            use_type_invariant(self);
            lemma_network_le_broadcast(self.network, mask_of(self.prefix as nat));
        }
        let count: u64 = (self.broadcast as u64) - (self.network as u64) + 1;
        if count > MAX_SCAN_HOSTS as u64 {
            let digits = decimal_exec(count);
            let mut e = lit_then("扫描范围包含 ", digits.as_slice());
            e.append(" 个地址，超过安全上限 1024；请缩小 CIDR");
            return Err(e);
        }
        let start = self.network;
        let mut out: Vec<u32> = Vec::new();
        let mut i: u64 = 0;
        while i < count
            invariant
                count <= MAX_SCAN_HOSTS,
                count == self.spec_broadcast() - self.spec_network() + 1,
                start == self.spec_network(),
                i <= count,
                out.len() == i,
                forall|k: int| 0 <= k < i ==> out@[k] == start + k,
            decreases count - i,
        {
            out.push(start + i as u32);
            i += 1;
        }
        Ok(out)
    }
}

proof fn lemma_network_le_broadcast(n: u32, m: u32)
    requires
        n == n & m,
    ensures
        n <= (n & m) | !m,
{
    assert(n == n & m ==> n <= (n & m) | !m) by (bit_vector);
}

/// Text of a CIDR network: an address, `/`, and a prefix length of at most 32.
pub open spec fn cidr_parse(v: Seq<char>) -> Result<(u32, nat), Seq<char>> {
    match split_once(v, '/') {
        None => Err("CIDR 格式错误: "@ + v),
        Some((ip, pre)) => match parse_ipv4(ip) {
            None => Err("非法 IPv4 地址: "@ + ip),
            Some(a) => match parse_unsigned(pre, 255) {
                None => Err("非法 CIDR 前缀: "@ + pre),
                Some(p) => if p > 32 {
                    Err("CIDR 前缀必须在 0-32 之间: "@ + decimal(p))
                } else {
                    Ok((a, p))
                },
            },
        },
    }
}

impl Ipv4Network {
    /// Parses `a.b.c.d/p` into the network that contains the address.
    pub fn parse(value: &str) -> (r: Result<Ipv4Network, String>)
        ensures
            match cidr_parse(value@) {
                Ok((a, p)) => r matches Ok(n) && n.spec_network() == network_of(a, p)
                    && n.spec_broadcast() == broadcast_of(a, p) && n.spec_prefix() == p,
                Err(e) => r matches Err(x) && x@ == e,
            },
    {
        let v = to_chars(value);
        Self::parse_chars(v.as_slice())
    }

    pub fn parse_chars(v: &[char]) -> (r: Result<Ipv4Network, String>)
        ensures
            match cidr_parse(v@) {
                Ok((a, p)) => r matches Ok(n) && n.spec_network() == network_of(a, p)
                    && n.spec_broadcast() == broadcast_of(a, p) && n.spec_prefix() == p,
                Err(e) => r matches Err(x) && x@ == e,
            },
    {
        let (ip, pre) = match split_once_exec(v, '/') {
            Some(pair) => pair,
            None => return Err(lit_then("CIDR 格式错误: ", v)),
        };
        let a = match parse_ipv4_exec(ip) {
            Some(a) => a,
            None => return Err(lit_then("非法 IPv4 地址: ", ip)),
        };
        let p = match parse_unsigned_exec(pre, 255) {
            Some(p) => p,
            None => return Err(lit_then("非法 CIDR 前缀: ", pre)),
        };
        if p > 32 {
            let digits = decimal_exec(p);
            return Err(lit_then("CIDR 前缀必须在 0-32 之间: ", digits.as_slice()));
        }
        Ok(Self::from_ip(a, p as u8))
    }
}

/// Addresses other than the two given ones.
pub open spec fn outside_of(a: u32, b: u32) -> spec_fn(u32) -> bool {
    |ip: u32| ip != a && ip != b
}

/// The addresses of `range` other than the network and broadcast address of
/// `local_network`, in ascending order.
pub fn scan_targets(range: Ipv4Network, local_network: Ipv4Network) -> (r: Result<Vec<u32>, String>)
    ensures
        ({
            let count = range.spec_broadcast() - range.spec_network() + 1;
            let all = Seq::new(count as nat, |i: int| (range.spec_network() + i) as u32);
            match r {
                Ok(v) => count <= MAX_SCAN_HOSTS && v@ == all.filter(
                    outside_of(local_network.spec_network(), local_network.spec_broadcast()),
                ),
                Err(e) => count > MAX_SCAN_HOSTS && e@ == "扫描范围包含 "@ + decimal(count as nat)
                    + " 个地址，超过安全上限 1024；请缩小 CIDR"@,
            }
        }),
{
    let addrs = match range.addresses() {
        Ok(v) => v,
        Err(e) => return Err(e),
    };
    let ln = local_network.network();
    let lb = local_network.broadcast();
    let ghost count = range.spec_broadcast() - range.spec_network() + 1;
    let ghost all = Seq::new(count as nat, |i: int| (range.spec_network() + i) as u32);
    let ghost pred = outside_of(local_network.spec_network(), local_network.spec_broadcast());
    assert(addrs@ =~= all);
    let mut out: Vec<u32> = Vec::new();
    let mut i: usize = 0;
    while i < addrs.len()
        invariant
            i <= addrs.len(),
            addrs@ == all,
            ln == local_network.spec_network(),
            lb == local_network.spec_broadcast(),
            pred == outside_of(local_network.spec_network(), local_network.spec_broadcast()),
            out@ == all.take(i as int).filter(pred),
        decreases addrs.len() - i,
    {
        proof {
            crate::text::lemma_filter_step(all, i as int, pred);
        }
        let ip = addrs[i];
        assert(all[i as int] == ip);
        assert(pred(ip) == (ip != ln && ip != lb));
        if ip != ln && ip != lb {
            out.push(ip);
        }
        i += 1;
    }
    assert(all.take(addrs.len() as int) =~= all);
    Ok(out)
}

// ---------------------------------------------------------------------------
// Laws
// ---------------------------------------------------------------------------

/// A network built from an address contains that address, and its network
/// address has no host bits.
pub proof fn law_network_contains_origin(ip: u32, prefix: nat)
    requires
        prefix <= 32,
    ensures
        network_of(ip, prefix) <= ip <= broadcast_of(ip, prefix),
        network_of(ip, prefix) & !mask_of(prefix) == 0,
        broadcast_of(ip, prefix) - network_of(ip, prefix) == !mask_of(prefix),
{
    let m = mask_of(prefix);
    assert((ip & m) <= ip) by (bit_vector);
    assert(ip <= ((ip & m) | !m)) by (bit_vector);
    assert((ip & m) & !m == 0) by (bit_vector);
    assert(((ip & m) | !m) - (ip & m) == !m) by (bit_vector);
}

proof fn lemma_split_no_sep(x: Seq<char>, c: char)
    requires
        forall|i: int| 0 <= i < x.len() ==> x[i] != c,
    ensures
        split_char(x, c) == seq![x],
{
    lemma_index_of(x, c);
}

proof fn lemma_split_cons(x: Seq<char>, c: char, y: Seq<char>)
    requires
        forall|i: int| 0 <= i < x.len() ==> x[i] != c,
    ensures
        split_char(x + seq![c] + y, c) == seq![x] + split_char(y, c),
{
    let s = x + seq![c] + y;
    lemma_index_of(s, c);
    let k = index_of(s, c);
    assert(s[x.len() as int] == c);
    if k < 0 {
        assert(s[x.len() as int] != c);
    } else if k < x.len() {
        assert(s[k] == x[k]);
    } else if k > x.len() {
        assert(s[x.len() as int] != c);
    }
    assert(k == x.len());
    assert(s.take(k) =~= x);
    assert(s.skip(k + 1) =~= y);
}

proof fn lemma_octet_text(n: nat)
    requires
        n < 256,
    ensures
        valid_octet(decimal(n)),
        digits_value(decimal(n)) == n,
        forall|i: int| 0 <= i < decimal(n).len() ==> decimal(n)[i] != '.',
{
    lemma_decimal_digits(n);
    let d = decimal(n);
    assert forall|i: int| 0 <= i < d.len() implies d[i] != '.' by {
        assert(is_digit(d[i]));
    }
}

proof fn lemma_split_four(d0: Seq<char>, d1: Seq<char>, d2: Seq<char>, d3: Seq<char>)
    requires
        forall|i: int| 0 <= i < d0.len() ==> d0[i] != '.',
        forall|i: int| 0 <= i < d1.len() ==> d1[i] != '.',
        forall|i: int| 0 <= i < d2.len() ==> d2[i] != '.',
        forall|i: int| 0 <= i < d3.len() ==> d3[i] != '.',
    ensures
        split_char(d0 + seq!['.'] + d1 + seq!['.'] + d2 + seq!['.'] + d3, '.') == seq![d0, d1, d2, d3],
{
    let t = d0 + seq!['.'] + d1 + seq!['.'] + d2 + seq!['.'] + d3;
    let r1 = d1 + seq!['.'] + (d2 + seq!['.'] + d3);
    assert(t =~= d0 + seq!['.'] + r1);
    lemma_split_cons(d0, '.', r1);
    lemma_split_cons(d1, '.', d2 + seq!['.'] + d3);
    lemma_split_cons(d2, '.', d3);
    lemma_split_no_sep(d3, '.');
    assert(seq![d0] + (seq![d1] + (seq![d2] + seq![d3])) =~= seq![d0, d1, d2, d3]);
}

proof fn lemma_octets_sum(a: u32)
    ensures
        octets_value(
            (a / 16777216) as nat,
            ((a / 65536) % 256) as nat,
            ((a / 256) % 256) as nat,
            (a % 256) as nat,
        ) == a,
{
    let x = a as int;
    assert((x / 16777216) * 16777216 + ((x / 65536) % 256) * 65536 + ((x / 256) % 256) * 256 + x
        % 256 == x) by (nonlinear_arith)
        requires
            0 <= x,
    ;
}

/// Rendering an address as dotted-quad text and parsing it back gives the address.
pub proof fn law_ipv4_text_roundtrip(a: u32)
    ensures
        parse_ipv4(ipv4_text(a)) == Some(a),
{
    let n0 = (a / 16777216) as nat;
    let n1 = ((a / 65536) % 256) as nat;
    let n2 = ((a / 256) % 256) as nat;
    let n3 = (a % 256) as nat;
    lemma_octet_text(n0);
    lemma_octet_text(n1);
    lemma_octet_text(n2);
    lemma_octet_text(n3);
    reveal_strlit(".");
    assert("."@ =~= seq!['.']);
    lemma_split_four(decimal(n0), decimal(n1), decimal(n2), decimal(n3));
    lemma_octets_sum(a);
}

/// Two addresses lie in the same network exactly when they agree on the masked bits.
pub proof fn law_same_network(a: u32, b: u32, prefix: u8)
    requires
        prefix <= 32,
    ensures
        (network_of(a, prefix as nat) <= b && b <= broadcast_of(a, prefix as nat)) <==> network_of(
            b,
            prefix as nat,
        ) == network_of(a, prefix as nat),
{
    let m = mask_of(prefix as nat);
    if prefix == 0 {
        assert(m == 0);
        assert((a & 0) == 0 && (b & 0) == 0 && ((0u32 | !0u32) == 0xffff_ffffu32)) by (bit_vector);
    } else {
        let s: u32 = (32 - prefix) as u32;
        assert(m == 0xffff_ffffu32 << s);
        assert(((a & m) <= b && b <= ((a & m) | !m)) <==> (b & m) == (a & m)) by (bit_vector)
            requires
                s < 32,
                m == 0xffff_ffffu32 << s,
        ;
    }
}

} // verus!
