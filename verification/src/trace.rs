//! Reading traceroute output: the texts of numbers and addresses that appear
//! in it, and the hop that each line of `traceroute` or `tracert` reports.

use vstd::prelude::*;
use crate::lan::{is_hex, is_hex_exec};
use crate::net::{parse_ipv4, parse_ipv4_exec};
use crate::num::{all_digits, is_digit};
use crate::report::{push_chars, push_signed, push_str, signed_decimal};
use crate::text::{ascii_lower, ascii_lower_exec, find_char, index_of, lemma_index_of, seq_index, split_char, string_of, to_chars, trim, trim_exec};

verus! {

// ---------------------------------------------------------------------------
// Numbers
// ---------------------------------------------------------------------------

/// `s` without one leading sign.
pub open spec fn sign_skipped(s: Seq<char>) -> Seq<char> {
    if s.len() > 0 && (s[0] == '+' || s[0] == '-') {
        s.drop_first()
    } else {
        s
    }
}

/// `Digit+ | Digit+ '.' Digit* | Digit* '.' Digit+`.
pub open spec fn mantissa(m: Seq<char>) -> bool {
    let d = index_of(m, '.');
    if d < 0 {
        m.len() >= 1 && all_digits(m)
    } else {
        all_digits(m.take(d)) && all_digits(m.skip(d + 1)) && m.len() >= 2
    }
}

/// `Sign? Digit+` after the `e`.
pub open spec fn exponent(e: Seq<char>) -> bool {
    sign_skipped(e).len() >= 1 && all_digits(sign_skipped(e))
}

/// `Number ::= Mantissa ('e' Exponent)?`.
pub open spec fn number_text(n: Seq<char>) -> bool {
    let k = index_of(n, 'e');
    if k < 0 {
        mantissa(n)
    } else {
        mantissa(n.take(k)) && exponent(n.skip(k + 1))
    }
}

/// The texts `f64::from_str` accepts, by the grammar of its documentation
/// applied to the lower-cased text: a sign, then `inf`, `infinity`, `nan` or
/// a decimal number with an optional exponent.
pub open spec fn float_syntax(s: Seq<char>) -> bool {
    let b = sign_skipped(ascii_lower(s));
    b == "inf"@ || b == "infinity"@ || b == "nan"@ || number_text(b)
}

fn all_digits_exec(s: &[char]) -> (r: bool)
    ensures
        r == all_digits(s@),
{
    let mut i: usize = 0;
    while i < s.len()
        invariant
            i <= s.len(),
            forall|k: int| 0 <= k < i ==> is_digit(s@[k]),
        decreases s.len() - i,
    {
        if !('0' <= s[i] && s[i] <= '9') {
            return false;
        }
        i += 1;
    }
    true
}

fn skip_sign(s: &[char]) -> (r: &[char])
    ensures
        r@ == sign_skipped(s@),
{
    if s.len() > 0 && (s[0] == '+' || s[0] == '-') {
        let t = vstd::slice::slice_subrange(s, 1, s.len());
        assert(t@ =~= s@.drop_first());
        t
    } else {
        s
    }
}

fn mantissa_exec(m: &[char]) -> (r: bool)
    ensures
        r == mantissa(m@),
{
    proof {
        lemma_index_of(m@, '.');
    }
    match find_char(m, '.') {
        None => m.len() >= 1 && all_digits_exec(m),
        Some(d) => {
            assert(d < m.len());
            let a = vstd::slice::slice_subrange(m, 0, d);
            let b = vstd::slice::slice_subrange(m, d + 1, m.len());
            assert(a@ =~= m@.take(d as int));
            assert(b@ =~= m@.skip(d + 1));
            all_digits_exec(a) && all_digits_exec(b) && m.len() >= 2
        },
    }
}

fn number_exec(n: &[char]) -> (r: bool)
    ensures
        r == number_text(n@),
{
    proof {
        lemma_index_of(n@, 'e');
    }
    match find_char(n, 'e') {
        None => mantissa_exec(n),
        Some(k) => {
            assert(k < n.len());
            let a = vstd::slice::slice_subrange(n, 0, k);
            let b = vstd::slice::slice_subrange(n, k + 1, n.len());
            assert(a@ =~= n@.take(k as int));
            assert(b@ =~= n@.skip(k + 1));
            let e = skip_sign(b);
            mantissa_exec(a) && e.len() >= 1 && all_digits_exec(e)
        },
    }
}

/// Whether `f64::from_str` accepts the text (`float_syntax` in the model).
pub fn is_float_text(s: &[char]) -> (r: bool)
    ensures
        r == float_syntax(s@),
{
    let l = ascii_lower_exec(s);
    let b = skip_sign(l.as_slice());
    crate::text::eq_str(b, "inf") || crate::text::eq_str(b, "infinity") || crate::text::eq_str(b, "nan")
        || number_exec(b)
}

// ---------------------------------------------------------------------------
// Addresses
// ---------------------------------------------------------------------------

/// One to four hexadecimal digits.
pub open spec fn hex_group(f: Seq<char>) -> bool {
    1 <= f.len() <= 4 && forall|i: int| 0 <= i < f.len() ==> is_hex(#[trigger] f[i])
}

/// How many 16-bit groups colon-separated fields stand for: each field a
/// hexadecimal group, the last one possibly a dotted quad (two groups) when
/// `v4_last`; none for any other field.
pub open spec fn group_count(fs: Seq<Seq<char>>, v4_last: bool) -> Option<nat> {
    if fs.len() == 0 {
        None
    } else if forall|i: int| 0 <= i < fs.len() - 1 ==> hex_group(#[trigger] fs[i]) {
        if hex_group(fs.last()) {
            Some(fs.len())
        } else if v4_last && parse_ipv4(fs.last()) is Some {
            Some(fs.len() + 1)
        } else {
            None
        }
    } else {
        None
    }
}

/// The groups of one side of `::` (none for an empty side).
pub open spec fn piece_groups(p: Seq<char>, v4_last: bool) -> Option<nat> {
    if p.len() == 0 {
        Some(0)
    } else {
        group_count(split_char(p, ':'), v4_last)
    }
}

/// The IPv6 texts `Ipv6Addr::from_str` accepts: eight groups, or fewer around
/// one `::` that stands for at least one zero group; a dotted quad may stand
/// for the last two groups, but not before the `::`.
pub open spec fn ipv6_syntax(s: Seq<char>) -> bool {
    let k = seq_index(s, "::"@);
    if k < 0 {
        piece_groups(s, true) == Some(8nat)
    } else {
        match (piece_groups(s.take(k), false), piece_groups(s.skip(k + 2), true)) {
            (Some(a), Some(b)) => a + b <= 7,
            _ => false,
        }
    }
}

/// The texts `IpAddr::from_str` accepts: a dotted quad or an IPv6 text.
pub open spec fn ip_syntax(s: Seq<char>) -> bool {
    parse_ipv4(s) is Some || ipv6_syntax(s)
}

fn hex_group_exec(f: &[char]) -> (r: bool)
    ensures
        r == hex_group(f@),
{
    if f.len() < 1 || f.len() > 4 {
        return false;
    }
    let mut i: usize = 0;
    while i < f.len()
        invariant
            i <= f.len(),
            forall|k: int| 0 <= k < i ==> is_hex(f@[k]),
        decreases f.len() - i,
    {
        if !is_hex_exec(f[i]) {
            return false;
        }
        i += 1;
    }
    true
}

fn group_count_exec(fs: &Vec<Vec<char>>, v4_last: bool) -> (r: Option<u128>)
    ensures
        match group_count(crate::text::views(fs@), v4_last) {
            Some(n) => n <= usize::MAX as nat + 1 && r == Some(n as u128),
            None => r is None,
        },
{
    let ghost v = crate::text::views(fs@);
    if fs.len() == 0 {
        return None;
    }
    let n = fs.len();
    let mut i: usize = 0;
    while i + 1 < n
        invariant
            v == crate::text::views(fs@),
            n == fs.len(),
            n >= 1,
            i + 1 <= n,
            forall|k: int| 0 <= k < i ==> hex_group(#[trigger] v[k]),
        decreases n - i,
    {
        assert(v[i as int] == fs@[i as int]@);
        if !hex_group_exec(fs[i].as_slice()) {
            return None;
        }
        i += 1;
    }
    assert(v.last() == fs@[n - 1]@);
    if hex_group_exec(fs[n - 1].as_slice()) {
        Some(n as u128)
    } else if v4_last && parse_ipv4_exec(fs[n - 1].as_slice()).is_some() {
        Some(n as u128 + 1)
    } else {
        None
    }
}

fn piece_groups_exec(p: &[char], v4_last: bool) -> (r: Option<u128>)
    ensures
        match piece_groups(p@, v4_last) {
            Some(n) => n <= usize::MAX as nat + 1 && r == Some(n as u128),
            None => r is None,
        },
{
    if p.len() == 0 {
        return Some(0);
    }
    let fs = crate::text::split_all(p, ':');
    group_count_exec(&fs, v4_last)
}

/// Whether `Ipv6Addr::from_str` accepts the text (`ipv6_syntax` in the model).
pub fn is_ipv6_text(s: &[char]) -> (r: bool)
    ensures
        r == ipv6_syntax(s@),
{
    let pat = crate::text::to_chars("::");
    proof {
        reveal_strlit("::");
    }
    assert(pat@ == "::"@);
    let len = s.len();
    assert(s@.len() == len);
    match crate::text::find_index(s, pat.as_slice()) {
        None => {
            assert(seq_index(s@, "::"@) < 0);
            match piece_groups_exec(s, true) {
                Some(n) => n == 8,
                None => false,
            }
        },
        Some(k) => {
            assert(seq_index(s@, "::"@) == k as int);
            assert(pat@.len() == 2);
            assert(k + 2 <= s.len());
            let a = vstd::slice::slice_subrange(s, 0, k);
            let b = vstd::slice::slice_subrange(s, k + 2, s.len());
            assert(a@ =~= s@.take(k as int));
            assert(b@ =~= s@.skip(k + 2));
            let x = piece_groups_exec(a, false);
            let y = piece_groups_exec(b, true);
            match (x, y) {
                (Some(x), Some(y)) => x <= 7 && y <= 7 - x,
                _ => false,
            }
        },
    }
}

/// Whether `IpAddr::from_str` accepts the text (`ip_syntax` in the model).
pub fn is_ip_text(s: &[char]) -> (r: bool)
    ensures
        r == ip_syntax(s@),
{
    parse_ipv4_exec(s).is_some() || is_ipv6_text(s)
}

// ---------------------------------------------------------------------------
// Hops
// ---------------------------------------------------------------------------

/// One hop of a traceroute: its number, the answering address, and each
/// probe's time as the text of a number (`None` for a probe that got no answer).
#[derive(Debug, Clone)]
pub struct ParsedHop {
    pub ttl: u8,
    pub addr: Option<String>,
    pub rtts: Vec<Option<String>>,
    pub raw: String,
}

pub struct HopModel {
    pub ttl: u8,
    pub addr: Option<Seq<char>>,
    pub rtts: Seq<Option<Seq<char>>>,
    pub raw: Seq<char>,
}

pub open spec fn opt_texts(v: Seq<Option<String>>) -> Seq<Option<Seq<char>>> {
    v.map_values(|o: Option<String>| match o {
        Some(s) => Some(s@),
        None => None,
    })
}

impl View for ParsedHop {
    type V = HopModel;

    open spec fn view(&self) -> HopModel {
        HopModel {
            ttl: self.ttl,
            addr: match self.addr {
                Some(a) => Some(a@),
                None => None,
            },
            rtts: opt_texts(self.rtts@),
            raw: self.raw@,
        }
    }
}

pub open spec fn hop_view(h: Option<ParsedHop>) -> Option<HopModel> {
    match h {
        Some(x) => Some(x@),
        None => None,
    }
}

/// The hop number: the first word read as a `u8`.
pub open spec fn hop_number(ws: Seq<Seq<char>>) -> Option<u8> {
    if ws.len() == 0 {
        None
    } else {
        match crate::num::parse_unsigned(ws[0], 255) {
            Some(n) => Some(n as u8),
            None => None,
        }
    }
}

pub open spec fn keep_first(addr: Option<Seq<char>>, cand: Seq<char>) -> Option<Seq<char>> {
    if addr is None && ip_syntax(cand) {
        Some(cand)
    } else {
        addr
    }
}

/// The words after the hop number of a `traceroute` line: `*` is a lost
/// probe; `(address)` and a bare address name the hop (the first one wins); a
/// number followed by `ms` is a probe's time; other words are skipped.
pub open spec fn unix_words(ws: Seq<Seq<char>>, addr: Option<Seq<char>>, rtts: Seq<Option<Seq<char>>>) -> (
    Option<Seq<char>>,
    Seq<Option<Seq<char>>>,
)
    decreases ws.len(),
{
    if ws.len() == 0 {
        (addr, rtts)
    } else {
        let t = ws[0];
        if t == "*"@ {
            unix_words(ws.drop_first(), addr, rtts.push(None))
        } else if t.len() >= 2 && t[0] == '(' && t.last() == ')' {
            unix_words(ws.drop_first(), keep_first(addr, t.subrange(1, t.len() - 1)), rtts)
        } else if float_syntax(t) && ws.len() >= 2 && ws[1] == "ms"@ {
            unix_words(ws.skip(2), addr, rtts.push(Some(t)))
        } else {
            unix_words(ws.drop_first(), keep_first(addr, t), rtts)
        }
    }
}

/// The hop a `traceroute -n` line reports, if it starts with a hop number.
pub open spec fn unix_hop(line: Seq<char>) -> Option<HopModel> {
    let ws = crate::text::words(line);
    match hop_number(ws) {
        None => None,
        Some(ttl) => {
            let (addr, rtts) = unix_words(ws.drop_first(), None, seq![]);
            Some(HopModel { ttl, addr, rtts, raw: line })
        },
    }
}

pub open spec fn ends_with_ms(t: Seq<char>) -> bool {
    t.len() >= 2 && t[t.len() - 2] == 'm' && t[t.len() - 1] == 's'
}

/// The time columns of a `tracert` line, at most `n` of them: `*` is a lost
/// probe; `<n>ms` or `<n> ms` a time; anything else a probe without a time.
/// Also the words left after them.
pub open spec fn windows_columns(ws: Seq<Seq<char>>, n: nat, rtts: Seq<Option<Seq<char>>>) -> (
    Seq<Option<Seq<char>>>,
    Seq<Seq<char>>,
)
    decreases n,
{
    if n == 0 || ws.len() == 0 {
        (rtts, ws)
    } else {
        let t = ws[0];
        if t == "*"@ {
            windows_columns(ws.drop_first(), (n - 1) as nat, rtts.push(None))
        } else if ends_with_ms(t) {
            let v = t.take(t.len() - 2);
            windows_columns(
                ws.drop_first(),
                (n - 1) as nat,
                rtts.push(
                    if float_syntax(v) {
                        Some(v)
                    } else {
                        None
                    },
                ),
            )
        } else if float_syntax(t) {
            windows_columns(
                if ws.len() >= 2 && ws[1] == "ms"@ {
                    ws.skip(2)
                } else {
                    ws.drop_first()
                },
                (n - 1) as nat,
                rtts.push(Some(t)),
            )
        } else {
            windows_columns(ws.drop_first(), (n - 1) as nat, rtts.push(None))
        }
    }
}

pub open spec fn is_bracket(c: char) -> bool {
    c == '[' || c == ']'
}

pub open spec fn trim_brackets_start(s: Seq<char>) -> Seq<char>
    decreases s.len(),
{
    if s.len() > 0 && is_bracket(s[0]) {
        trim_brackets_start(s.drop_first())
    } else {
        s
    }
}

pub open spec fn trim_brackets_end(s: Seq<char>) -> Seq<char>
    decreases s.len(),
{
    if s.len() > 0 && is_bracket(s.last()) {
        trim_brackets_end(s.drop_last())
    } else {
        s
    }
}

/// `s` without `[` and `]` at either end.
pub open spec fn trim_brackets(s: Seq<char>) -> Seq<char> {
    trim_brackets_end(trim_brackets_start(s))
}

/// The first word that is an address once brackets are trimmed off.
pub open spec fn first_address(ws: Seq<Seq<char>>) -> Option<Seq<char>>
    decreases ws.len(),
{
    if ws.len() == 0 {
        None
    } else if ip_syntax(trim_brackets(ws[0])) {
        Some(trim_brackets(ws[0]))
    } else {
        first_address(ws.drop_first())
    }
}

/// The hop a `tracert -d` line reports, if it starts with a hop number: up to
/// three time columns, then the first address among the remaining words.
pub open spec fn windows_hop(line: Seq<char>) -> Option<HopModel> {
    let ws = crate::text::words(line);
    match hop_number(ws) {
        None => None,
        Some(ttl) => {
            let (rtts, rest) = windows_columns(ws.drop_first(), 3, seq![]);
            Some(HopModel { ttl, addr: first_address(rest), rtts, raw: line })
        },
    }
}

fn hop_number_exec(ws: &Vec<Vec<char>>) -> (r: Option<u8>)
    ensures
        r == hop_number(crate::text::views(ws@)),
{
    if ws.len() == 0 {
        return None;
    }
    assert(crate::text::views(ws@)[0] == ws@[0]@);
    match crate::num::parse_unsigned_exec(ws[0].as_slice(), 255) {
        Some(n) => Some(n as u8),
        None => None,
    }
}

fn push_opt(rtts: &mut Vec<Option<String>>, o: Option<String>)
    ensures
        opt_texts(final(rtts)@) == opt_texts(old(rtts)@).push(crate::text::opt_view(o)),
{
    let ghost before = opt_texts(rtts@);
    let ghost ov = crate::text::opt_view(o);
    rtts.push(o);
    assert(opt_texts(rtts@) =~= before.push(ov));
}

/// Reads a `traceroute -n` line (`unix_hop` in the model).
pub fn parse_unix_line(line: &str) -> (r: Option<ParsedHop>)
    ensures
        hop_view(r) == unix_hop(line@),
{
    let cs = crate::text::to_chars(line);
    let ws = crate::text::words_all(cs.as_slice());
    let ghost w = crate::text::views(ws@);
    let ttl = match hop_number_exec(&ws) {
        Some(t) => t,
        None => return None,
    };
    let mut addr: Option<String> = None;
    let mut rtts: Vec<Option<String>> = Vec::new();
    let mut i: usize = 1;
    assert(opt_texts(rtts@) =~= Seq::<Option<Seq<char>>>::empty());
    assert(w.skip(1) =~= w.drop_first());
    while i < ws.len()
        invariant
            w == crate::text::views(ws@),
            w == crate::text::words(cs@),
            cs@ == line@,
            1 <= i <= ws.len(),
            unix_words(w.drop_first(), None, seq![]) == unix_words(w.skip(i as int), crate::text::opt_view(addr), opt_texts(rtts@)),
        decreases ws.len() - i,
    {
        let ghost rest = w.skip(i as int);
        assert(rest[0] == ws@[i as int]@);
        assert(rest.drop_first() =~= w.skip(i + 1));
        let t = ws[i].as_slice();
        if crate::text::eq_str(t, "*") {
            push_opt(&mut rtts, None);
            i += 1;
        } else if t.len() >= 2 && t[0] == '(' && t[t.len() - 1] == ')' {
            let inner = vstd::slice::slice_subrange(t, 1, t.len() - 1);
            assert(inner@ =~= t@.subrange(1, t@.len() - 1));
            if addr.is_none() && is_ip_text(inner) {
                addr = Some(crate::text::string_of(inner));
            }
            i += 1;
        } else if is_float_text(t) && i + 1 < ws.len() && crate::text::eq_str(ws[i + 1].as_slice(), "ms") {
            assert(rest[1] == ws@[i + 1]@);
            assert(rest.skip(2) =~= w.skip(i + 2));
            push_opt(&mut rtts, Some(crate::text::string_of(t)));
            i += 2;
        } else {
            proof {
                if i + 1 < ws.len() {
                    assert(rest[1] == ws@[i + 1]@);
                }
            }
            if addr.is_none() && is_ip_text(t) {
                addr = Some(crate::text::string_of(t));
            }
            i += 1;
        }
    }
    assert(w.skip(i as int) =~= Seq::<Seq<char>>::empty());
    Some(ParsedHop { ttl, addr, rtts, raw: String::from_str(line) })
}

fn trim_brackets_exec(s: &[char]) -> (r: &[char])
    ensures
        r@ == trim_brackets(s@),
{
    let mut a: usize = 0;
    assert(s@.skip(0) =~= s@);
    while a < s.len() && (s[a] == '[' || s[a] == ']')
        invariant
            a <= s.len(),
            trim_brackets_start(s@) == trim_brackets_start(s@.skip(a as int)),
        decreases s.len() - a,
    {
        assert(s@.skip(a as int).drop_first() =~= s@.skip(a + 1));
        a += 1;
    }
    let t = vstd::slice::slice_subrange(s, a, s.len());
    assert(t@ =~= s@.skip(a as int));
    assert(trim_brackets_start(s@) == t@);
    let mut b: usize = t.len();
    assert(t@.take(t.len() as int) =~= t@);
    while b > 0 && (t[b - 1] == '[' || t[b - 1] == ']')
        invariant
            b <= t.len(),
            trim_brackets_end(t@) == trim_brackets_end(t@.take(b as int)),
        decreases b,
    {
        assert(t@.take(b as int).drop_last() =~= t@.take(b - 1));
        b -= 1;
    }
    let u = vstd::slice::slice_subrange(t, 0, b);
    assert(u@ =~= t@.take(b as int));
    u
}

fn first_address_exec(ws: &Vec<Vec<char>>, from: usize) -> (r: Option<String>)
    requires
        from <= ws.len(),
    ensures
        crate::text::opt_view(r) == first_address(crate::text::views(ws@).skip(from as int)),
{
    let ghost w = crate::text::views(ws@);
    let mut j: usize = from;
    while j < ws.len()
        invariant
            w == crate::text::views(ws@),
            from <= j <= ws.len(),
            first_address(w.skip(from as int)) == first_address(w.skip(j as int)),
        decreases ws.len() - j,
    {
        assert(w.skip(j as int)[0] == ws@[j as int]@);
        assert(w.skip(j as int).drop_first() =~= w.skip(j + 1));
        let t = trim_brackets_exec(ws[j].as_slice());
        if is_ip_text(t) {
            return Some(crate::text::string_of(t));
        }
        j += 1;
    }
    assert(w.skip(j as int) =~= Seq::<Seq<char>>::empty());
    None
}

/// Reads a `tracert -d` line (`windows_hop` in the model).
pub fn parse_windows_line(line: &str) -> (r: Option<ParsedHop>)
    ensures
        hop_view(r) == windows_hop(line@),
{
    let cs = crate::text::to_chars(line);
    let ws = crate::text::words_all(cs.as_slice());
    let ghost w = crate::text::views(ws@);
    let ttl = match hop_number_exec(&ws) {
        Some(t) => t,
        None => return None,
    };
    let mut rtts: Vec<Option<String>> = Vec::new();
    let mut i: usize = 1;
    let mut n: usize = 0;
    assert(opt_texts(rtts@) =~= Seq::<Option<Seq<char>>>::empty());
    assert(w.skip(1) =~= w.drop_first());
    while n < 3 && i < ws.len()
        invariant
            w == crate::text::views(ws@),
            w == crate::text::words(cs@),
            cs@ == line@,
            1 <= i <= ws.len(),
            n <= 3,
            windows_columns(w.drop_first(), 3, seq![]) == windows_columns(
                w.skip(i as int),
                (3 - n) as nat,
                opt_texts(rtts@),
            ),
        decreases ws.len() - i,
    {
        let ghost rest = w.skip(i as int);
        assert(rest[0] == ws@[i as int]@);
        assert(rest.drop_first() =~= w.skip(i + 1));
        let t = ws[i].as_slice();
        if crate::text::eq_str(t, "*") {
            push_opt(&mut rtts, None);
            i += 1;
        } else if t.len() >= 2 && t[t.len() - 2] == 'm' && t[t.len() - 1] == 's' {
            let v = vstd::slice::slice_subrange(t, 0, t.len() - 2);
            assert(v@ =~= t@.take(t@.len() - 2));
            if is_float_text(v) {
                push_opt(&mut rtts, Some(crate::text::string_of(v)));
            } else {
                push_opt(&mut rtts, None);
            }
            i += 1;
        } else if is_float_text(t) {
            push_opt(&mut rtts, Some(crate::text::string_of(t)));
            if i + 1 < ws.len() && crate::text::eq_str(ws[i + 1].as_slice(), "ms") {
                assert(rest[1] == ws@[i + 1]@);
                assert(rest.skip(2) =~= w.skip(i + 2));
                i += 2;
            } else {
                proof {
                    if i + 1 < ws.len() {
                        assert(rest[1] == ws@[i + 1]@);
                    }
                }
                i += 1;
            }
        } else {
            push_opt(&mut rtts, None);
            i += 1;
        }
        n += 1;
    }
    proof {
        if i == ws.len() {
            assert(w.skip(i as int) =~= Seq::<Seq<char>>::empty());
        }
    }
    let addr = first_address_exec(&ws, i);
    Some(ParsedHop { ttl, addr, rtts, raw: String::from_str(line) })
}

// ---------------------------------------------------------------------------
// Laws
// ---------------------------------------------------------------------------

pub open spec fn all_numbers(r: Seq<Option<Seq<char>>>) -> bool {
    forall|k: int| 0 <= k < r.len() ==> (#[trigger] r[k] matches Some(t) ==> float_syntax(t))
}

proof fn lemma_unix_words(ws: Seq<Seq<char>>, addr: Option<Seq<char>>, rtts: Seq<Option<Seq<char>>>)
    requires
        all_numbers(rtts),
    ensures
        all_numbers(unix_words(ws, addr, rtts).1),
        rtts.len() <= unix_words(ws, addr, rtts).1.len(),
    decreases ws.len(),
{
    if ws.len() > 0 {
        let t = ws[0];
        if t == "*"@ {
            lemma_unix_words(ws.drop_first(), addr, rtts.push(None));
        } else if t.len() >= 2 && t[0] == '(' && t.last() == ')' {
            lemma_unix_words(ws.drop_first(), keep_first(addr, t.subrange(1, t.len() - 1)), rtts);
        } else if float_syntax(t) && ws.len() >= 2 && ws[1] == "ms"@ {
            lemma_unix_words(ws.skip(2), addr, rtts.push(Some(t)));
        } else {
            lemma_unix_words(ws.drop_first(), keep_first(addr, t), rtts);
        }
    }
}

proof fn lemma_windows_columns(ws: Seq<Seq<char>>, n: nat, rtts: Seq<Option<Seq<char>>>)
    requires
        all_numbers(rtts),
    ensures
        all_numbers(windows_columns(ws, n, rtts).0),
        windows_columns(ws, n, rtts).0.len() <= rtts.len() + n,
    decreases n,
{
    if n > 0 && ws.len() > 0 {
        let t = ws[0];
        if t == "*"@ {
            lemma_windows_columns(ws.drop_first(), (n - 1) as nat, rtts.push(None));
        } else if ends_with_ms(t) {
            let v = t.take(t.len() - 2);
            let o = if float_syntax(v) {
                Some(v)
            } else {
                None
            };
            lemma_windows_columns(ws.drop_first(), (n - 1) as nat, rtts.push(o));
        } else if float_syntax(t) {
            let rest = if ws.len() >= 2 && ws[1] == "ms"@ {
                ws.skip(2)
            } else {
                ws.drop_first()
            };
            lemma_windows_columns(rest, (n - 1) as nat, rtts.push(Some(t)));
        } else {
            lemma_windows_columns(ws.drop_first(), (n - 1) as nat, rtts.push(None));
        }
    }
}

/// Every time a hop reports is the text of a number that `f64::from_str`
/// accepts; a `tracert` line gives at most three of them; the hop keeps its
/// line.
pub proof fn law_hop_times(line: Seq<char>)
    ensures
        unix_hop(line) matches Some(h) ==> all_numbers(h.rtts) && h.raw == line,
        windows_hop(line) matches Some(h) ==> all_numbers(h.rtts) && h.rtts.len() <= 3 && h.raw == line,
{
    let ws = crate::text::words(line);
    lemma_unix_words(ws.drop_first(), None, seq![]);
    lemma_windows_columns(ws.drop_first(), 3, seq![]);
}


/// How many of the words are `w`.
pub open spec fn count_word(ws: Seq<Seq<char>>, w: Seq<char>) -> nat
    decreases ws.len(),
{
    if ws.len() == 0 {
        0
    } else {
        (if ws[0] == w {
            1nat
        } else {
            0nat
        }) + count_word(ws.drop_first(), w)
    }
}

/// How many probes were lost (have no time).
pub open spec fn lost_count(r: Seq<Option<Seq<char>>>) -> nat
    decreases r.len(),
{
    if r.len() == 0 {
        0
    } else {
        lost_count(r.drop_last()) + if r.last() is None {
            1nat
        } else {
            0nat
        }
    }
}

/// How many probes have a time.
pub open spec fn timed_count(r: Seq<Option<Seq<char>>>) -> nat
    decreases r.len(),
{
    if r.len() == 0 {
        0
    } else {
        timed_count(r.drop_last()) + if r.last() is Some {
            1nat
        } else {
            0nat
        }
    }
}

/// How many words are a number that `f64::from_str` accepts followed by the word `ms`.
pub open spec fn timed_pairs(ws: Seq<Seq<char>>) -> nat
    decreases ws.len(),
{
    if ws.len() == 0 {
        0
    } else {
        (if ws.len() >= 2 && float_syntax(ws[0]) && ws[1] == "ms"@ {
            1nat
        } else {
            0nat
        }) + timed_pairs(ws.drop_first())
    }
}

/// A character that can stand in a text `float_syntax` accepts, once lower-cased.
pub open spec fn float_char(c: char) -> bool {
    is_digit(c) || c == '.' || c == 'e' || c == '+' || c == '-' || c == 'i' || c == 'n' || c == 'f'
        || c == 't' || c == 'y' || c == 'a'
}

proof fn lemma_mantissa_chars(m: Seq<char>)
    requires
        mantissa(m),
    ensures
        forall|i: int| 0 <= i < m.len() ==> float_char(#[trigger] m[i]),
{
    lemma_index_of(m, '.');
    let d = index_of(m, '.');
    if d >= 0 {
        assert forall|i: int| 0 <= i < m.len() implies float_char(#[trigger] m[i]) by {
            if i < d {
                assert(m.take(d)[i] == m[i]);
            } else if i > d {
                assert(m.skip(d + 1)[i - d - 1] == m[i]);
            }
        }
    }
}

proof fn lemma_number_chars(n: Seq<char>)
    requires
        number_text(n),
    ensures
        forall|i: int| 0 <= i < n.len() ==> float_char(#[trigger] n[i]),
{
    lemma_index_of(n, 'e');
    let k = index_of(n, 'e');
    if k < 0 {
        lemma_mantissa_chars(n);
    } else {
        lemma_mantissa_chars(n.take(k));
        let e = n.skip(k + 1);
        assert forall|i: int| 0 <= i < n.len() implies float_char(#[trigger] n[i]) by {
            if i < k {
                assert(n.take(k)[i] == n[i]);
            } else if i > k {
                assert(e[i - k - 1] == n[i]);
                if e.len() > 0 && (e[0] == '+' || e[0] == '-') {
                    if i - k - 1 > 0 {
                        assert(sign_skipped(e)[i - k - 2] == e[i - k - 1]);
                    }
                } else {
                    assert(sign_skipped(e)[i - k - 1] == e[i - k - 1]);
                }
            }
        }
    }
}

/// A number text holds no `m`, `*` or `(`.
proof fn lemma_float_chars(t: Seq<char>)
    requires
        float_syntax(t),
    ensures
        forall|i: int| 0 <= i < t.len() ==> #[trigger] t[i] != 'm' && t[i] != '*' && t[i] != '(',
{
    reveal_strlit("inf");
    reveal_strlit("infinity");
    reveal_strlit("nan");
    let l = ascii_lower(t);
    let b = sign_skipped(l);
    if number_text(b) {
        lemma_number_chars(b);
    }
    assert forall|i: int| 0 <= i < t.len() implies #[trigger] t[i] != 'm' && t[i] != '*' && t[i] != '(' by {
        assert(l[i] == crate::text::lower_char(t[i]));
        if l.len() > 0 && (l[0] == '+' || l[0] == '-') {
            if i > 0 {
                assert(b[i - 1] == l[i]);
                assert(float_char(b[i - 1]));
            }
        } else {
            assert(b[i] == l[i]);
            assert(float_char(b[i]));
        }
    }
}

/// Reading the words of a `traceroute` line only appends probes: one lost
/// probe for every `*` word wherever it stands (before or after the address),
/// and one timed probe for every number followed by `ms`.
pub proof fn law_unix_words(ws: Seq<Seq<char>>, addr: Option<Seq<char>>, rtts: Seq<Option<Seq<char>>>)
    ensures
        unix_words(ws, addr, rtts).1.len() >= rtts.len(),
        unix_words(ws, addr, rtts).1.take(rtts.len() as int) == rtts,
        lost_count(unix_words(ws, addr, rtts).1) == lost_count(rtts) + count_word(ws, "*"@),
        timed_count(unix_words(ws, addr, rtts).1) == timed_count(rtts) + timed_pairs(ws),
    decreases ws.len(),
{
    reveal_strlit("*");
    reveal_strlit("ms");
    if ws.len() > 0 {
        let t = ws[0];
        let d = ws.drop_first();
        if float_syntax(t) {
            lemma_float_chars(t);
        }
        if t == "*"@ {
            assert(t[0] == '*');
            let r2 = rtts.push(None);
            law_unix_words(d, addr, r2);
            assert(r2.drop_last() =~= rtts);
            assert(lost_count(r2) == lost_count(rtts) + 1);
            assert(timed_count(r2) == timed_count(rtts));
            let out = unix_words(d, addr, r2).1;
            assert(out.take(rtts.len() as int) =~= out.take(r2.len() as int).take(rtts.len() as int));
        } else if t.len() >= 2 && t[0] == '(' && t.last() == ')' {
            law_unix_words(d, keep_first(addr, t.subrange(1, t.len() - 1)), rtts);
        } else if float_syntax(t) && ws.len() >= 2 && ws[1] == "ms"@ {
            let r2 = rtts.push(Some(t));
            law_unix_words(ws.skip(2), addr, r2);
            assert(ws.skip(2) =~= d.drop_first());
            assert(d[0] == "ms"@);
            assert("ms"@ != "*"@) by {
                assert("ms"@.len() != "*"@.len());
            }
            if float_syntax(d[0]) {
                lemma_float_chars(d[0]);
                assert(d[0][0] == 'm');
            }
            assert(r2.drop_last() =~= rtts);
            assert(lost_count(r2) == lost_count(rtts));
            assert(timed_count(r2) == timed_count(rtts) + 1);
            assert(count_word(d, "*"@) == count_word(ws.skip(2), "*"@));
            assert(count_word(ws, "*"@) == count_word(d, "*"@));
            assert(timed_pairs(d) == timed_pairs(ws.skip(2)));
            assert(timed_pairs(ws) == 1 + timed_pairs(d));
            let out = unix_words(ws.skip(2), addr, r2).1;
            assert(out.take(rtts.len() as int) =~= out.take(r2.len() as int).take(rtts.len() as int));
        } else {
            law_unix_words(d, keep_first(addr, t), rtts);
        }
    }
}

/// A `traceroute -n` line reports one lost probe for every `*` word after the
/// hop number, and one timed probe for every number followed by `ms` there.
pub proof fn law_unix_probes(line: Seq<char>)
    ensures
        unix_hop(line) matches Some(h) ==> {
            &&& lost_count(h.rtts) == count_word(crate::text::words(line).drop_first(), "*"@)
            &&& timed_count(h.rtts) == timed_pairs(crate::text::words(line).drop_first())
        },
{
    let ws = crate::text::words(line);
    law_unix_words(ws.drop_first(), None, seq![]);
}


// ---------------------------------------------------------------------------
// The run as a whole
// ---------------------------------------------------------------------------

/// An exit code as `{:?}` shows an `Option<i32>`.
pub open spec fn exit_code_text(code: Option<i32>) -> Seq<char> {
    match code {
        Some(n) => "Some("@ + signed_decimal(n as int) + ")"@,
        None => "None"@,
    }
}

/// The error of a traceroute run: there is one only when the command failed
/// and no hop was read, and it names the exit code and the trimmed error output.
pub fn trace_failure(success: bool, hop_count: usize, exit_code: Option<i32>, stderr: &str) -> (r: Option<String>)
    ensures
        r is Some <==> (!success && hop_count == 0),
        r matches Some(t) ==> t@ == "traceroute 失败 (exit "@ + exit_code_text(exit_code) + "): "@ + trim(stderr@),
{
    if success || hop_count > 0 {
        return None;
    }
    let mut out: Vec<char> = Vec::new();
    push_str(&mut out, "traceroute 失败 (exit ");
    match exit_code {
        Some(n) => {
            push_str(&mut out, "Some(");
            push_signed(&mut out, n as i64);
            push_str(&mut out, ")");
        },
        None => push_str(&mut out, "None"),
    }
    push_str(&mut out, "): ");
    let cs = to_chars(stderr);
    let t = trim_exec(cs.as_slice());
    push_chars(&mut out, t);
    assert(out@ =~= "traceroute 失败 (exit "@ + exit_code_text(exit_code) + "): "@ + trim(stderr@));
    Some(string_of(out.as_slice()))
}

} // verus!
