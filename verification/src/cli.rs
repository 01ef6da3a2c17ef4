//! Command-line parsing for the pure CLI: subcommands, options with values,
//! flags, numeric options with defaults, port lists and HTTP headers.

use vstd::prelude::*;
use crate::num::{lemma_u16_ordered, parse_unsigned, parse_unsigned_exec, u16_ordered};
use std::collections::BTreeSet;
use crate::text::{
    eq_str, find_char, index_of, lemma_index_of, lit_then, split_char, split_once, split_once_exec,
    string_of, to_chars, trim, trim_exec, views,
};

verus! {

broadcast use vstd::std_specs::btree::group_btree_axioms;

// ---------------------------------------------------------------------------
// Public types
// ---------------------------------------------------------------------------

#[derive(Debug, Clone, PartialEq, Eq, Structural)]
pub enum OutputFormat {
    Human,
    Json,
}

#[derive(Debug, Clone, PartialEq, Eq)]
pub struct CliArgs {
    pub command: CliCommand,
    pub format: OutputFormat,
}

#[derive(Debug, Clone, PartialEq, Eq)]
pub enum CliCommand {
    LanInfo,
    LanScan {
        cidr: Option<String>,
        timeout_ms: u64,
        concurrency: usize,
        suggestion_count: usize,
        suggest_only: bool,
    },
    Diagnose {
        target: String,
        include_trace: bool,
        timeout_ms: u64,
        max_hops: u8,
        ping_count: u16,
    },
    Ping {
        host: String,
        count: u16,
        timeout_ms: u64,
    },
    TcpProbe {
        host: String,
        port: u16,
        timeout_ms: u64,
        fingerprint: bool,
    },
    TcpScan {
        host: String,
        ports: Vec<u16>,
        timeout_ms: u64,
        fingerprint: bool,
        concurrency: usize,
    },
    TcpPing {
        host: String,
        port: u16,
        count: u16,
        interval_ms: u64,
        timeout_ms: u64,
    },
    Dns {
        domain: String,
        record_type: String,
        servers: Vec<String>,
        timeout_ms: u64,
    },
    Http {
        url: String,
        method: String,
        headers: Vec<(String, String)>,
        body: Option<String>,
        timeout_ms: u64,
        follow_redirects: bool,
    },
    Trace {
        host: String,
        max_hops: u8,
        timeout_ms: u64,
    },
    Help,
}

// ---------------------------------------------------------------------------
// Mathematical model of the parsed command line
// ---------------------------------------------------------------------------

pub enum CommandModel {
    LanInfo,
    LanScan {
        cidr: Option<Seq<char>>,
        timeout_ms: nat,
        concurrency: nat,
        suggestion_count: nat,
        suggest_only: bool,
    },
    Diagnose {
        target: Seq<char>,
        include_trace: bool,
        timeout_ms: nat,
        max_hops: nat,
        ping_count: nat,
    },
    Ping { host: Seq<char>, count: nat, timeout_ms: nat },
    TcpProbe { host: Seq<char>, port: nat, timeout_ms: nat, fingerprint: bool },
    TcpScan {
        host: Seq<char>,
        ports: Seq<u16>,
        timeout_ms: nat,
        fingerprint: bool,
        concurrency: nat,
    },
    TcpPing { host: Seq<char>, port: nat, count: nat, interval_ms: nat, timeout_ms: nat },
    Dns { domain: Seq<char>, record_type: Seq<char>, servers: Seq<Seq<char>>, timeout_ms: nat },
    Http {
        url: Seq<char>,
        method: Seq<char>,
        headers: Seq<(Seq<char>, Seq<char>)>,
        body: Option<Seq<char>>,
        timeout_ms: nat,
        follow_redirects: bool,
    },
    Trace { host: Seq<char>, max_hops: nat, timeout_ms: nat },
    Help,
}

pub struct ArgsModel {
    pub command: CommandModel,
    pub format: OutputFormat,
}

pub open spec fn headers_view(v: Seq<(String, String)>) -> Seq<(Seq<char>, Seq<char>)> {
    v.map_values(|h: (String, String)| (h.0@, h.1@))
}

pub open spec fn strs_view(v: Seq<&str>) -> Seq<Seq<char>> {
    v.map_values(|s: &str| s@)
}

impl View for CliCommand {
    type V = CommandModel;

    open spec fn view(&self) -> CommandModel {
        match self {
            CliCommand::LanInfo => CommandModel::LanInfo,
            CliCommand::LanScan { cidr, timeout_ms, concurrency, suggestion_count, suggest_only } =>
                CommandModel::LanScan {
                cidr: crate::text::opt_view(*cidr),
                timeout_ms: *timeout_ms as nat,
                concurrency: *concurrency as nat,
                suggestion_count: *suggestion_count as nat,
                suggest_only: *suggest_only,
            },
            CliCommand::Diagnose { target, include_trace, timeout_ms, max_hops, ping_count } =>
                CommandModel::Diagnose {
                target: target@,
                include_trace: *include_trace,
                timeout_ms: *timeout_ms as nat,
                max_hops: *max_hops as nat,
                ping_count: *ping_count as nat,
            },
            CliCommand::Ping { host, count, timeout_ms } => CommandModel::Ping {
                host: host@,
                count: *count as nat,
                timeout_ms: *timeout_ms as nat,
            },
            CliCommand::TcpProbe { host, port, timeout_ms, fingerprint } => CommandModel::TcpProbe {
                host: host@,
                port: *port as nat,
                timeout_ms: *timeout_ms as nat,
                fingerprint: *fingerprint,
            },
            CliCommand::TcpScan { host, ports, timeout_ms, fingerprint, concurrency } =>
                CommandModel::TcpScan {
                host: host@,
                ports: ports@,
                timeout_ms: *timeout_ms as nat,
                fingerprint: *fingerprint,
                concurrency: *concurrency as nat,
            },
            CliCommand::TcpPing { host, port, count, interval_ms, timeout_ms } =>
                CommandModel::TcpPing {
                host: host@,
                port: *port as nat,
                count: *count as nat,
                interval_ms: *interval_ms as nat,
                timeout_ms: *timeout_ms as nat,
            },
            CliCommand::Dns { domain, record_type, servers, timeout_ms } => CommandModel::Dns {
                domain: domain@,
                record_type: record_type@,
                servers: crate::text::string_views(servers@),
                timeout_ms: *timeout_ms as nat,
            },
            CliCommand::Http { url, method, headers, body, timeout_ms, follow_redirects } =>
                CommandModel::Http {
                url: url@,
                method: method@,
                headers: headers_view(headers@),
                body: crate::text::opt_view(*body),
                timeout_ms: *timeout_ms as nat,
                follow_redirects: *follow_redirects,
            },
            CliCommand::Trace { host, max_hops, timeout_ms } => CommandModel::Trace {
                host: host@,
                max_hops: *max_hops as nat,
                timeout_ms: *timeout_ms as nat,
            },
            CliCommand::Help => CommandModel::Help,
        }
    }
}

impl View for CliArgs {
    type V = ArgsModel;

    open spec fn view(&self) -> ArgsModel {
        ArgsModel { command: self.command@, format: self.format }
    }
}

// ---------------------------------------------------------------------------
// Tokens: the program name, `--json`, and options
// ---------------------------------------------------------------------------

/// The tokens after the program name.
pub open spec fn after_program(args: Seq<Seq<char>>) -> Seq<Seq<char>> {
    if args.len() == 0 {
        args
    } else {
        args.drop_first()
    }
}

/// The tokens with every `--json` removed, order kept.
pub open spec fn without_json(t: Seq<Seq<char>>) -> Seq<Seq<char>>
    decreases t.len(),
{
    if t.len() == 0 {
        t
    } else {
        let r = without_json(t.drop_last());
        if t.last() == "--json"@ {
            r
        } else {
            r.push(t.last())
        }
    }
}

/// JSON output is chosen by any `--json` token, wherever it stands.
pub open spec fn format_of(t: Seq<Seq<char>>) -> OutputFormat {
    if t.contains("--json"@) {
        OutputFormat::Json
    } else {
        OutputFormat::Human
    }
}

/// A token that names an option: it starts with `--`.
pub open spec fn is_option(t: Seq<char>) -> bool {
    t.len() >= 2 && t[0] == '-' && t[1] == '-'
}

pub type OptModel = (Seq<char>, Option<Seq<char>>);

/// Positional tokens and options, in order. An option takes the next token as
/// its value unless that token is itself an option (or there is none).
pub open spec fn options_of(t: Seq<Seq<char>>) -> (Seq<Seq<char>>, Seq<OptModel>)
    decreases t.len(),
{
    if t.len() == 0 {
        (seq![], seq![])
    } else if is_option(t[0]) {
        if t.len() > 1 && !is_option(t[1]) {
            let r = options_of(t.skip(2));
            (r.0, seq![(t[0], Some(t[1]))] + r.1)
        } else {
            let r = options_of(t.skip(1));
            (r.0, seq![(t[0], None::<Seq<char>>)] + r.1)
        }
    } else {
        let r = options_of(t.skip(1));
        (seq![t[0]] + r.0, r.1)
    }
}

/// The first option named `name`, with its value if it has one.
pub open spec fn opt_entry(opts: Seq<OptModel>, name: Seq<char>) -> Option<Option<Seq<char>>>
    decreases opts.len(),
{
    if opts.len() == 0 {
        None
    } else if opts[0].0 == name {
        Some(opts[0].1)
    } else {
        opt_entry(opts.drop_first(), name)
    }
}

/// The value of the first option named `name`; absent when that option has no value.
pub open spec fn opt_value(opts: Seq<OptModel>, name: Seq<char>) -> Option<Seq<char>> {
    match opt_entry(opts, name) {
        Some(Some(v)) => Some(v),
        _ => None,
    }
}

pub open spec fn flag_given(opts: Seq<OptModel>, name: Seq<char>) -> bool {
    opt_entry(opts, name) is Some
}

/// The values of every option named `name`, in order; valueless ones are skipped.
pub open spec fn opt_values(opts: Seq<OptModel>, name: Seq<char>) -> Seq<Seq<char>>
    decreases opts.len(),
{
    if opts.len() == 0 {
        seq![]
    } else {
        let r = opt_values(opts.drop_last(), name);
        match opts.last() {
            (k, Some(v)) => if k == name {
                r.push(v)
            } else {
                r
            },
            _ => r,
        }
    }
}

pub open spec fn string_option(opts: Seq<OptModel>, name: Seq<char>, default: Seq<char>) -> Seq<char> {
    match opt_value(opts, name) {
        Some(v) => v,
        None => default,
    }
}

/// A numeric option: the default when absent, else its value parsed as an
/// unsigned number of at most `max`, else the error `name` + `msg`.
pub open spec fn opt_number(
    opts: Seq<OptModel>,
    name: Seq<char>,
    default: nat,
    max: nat,
    msg: Seq<char>,
) -> Result<nat, Seq<char>> {
    match opt_value(opts, name) {
        None => Ok(default),
        Some(v) => match parse_unsigned(v, max) {
            Some(n) => Ok(n),
            None => Err(name + msg),
        },
    }
}

pub open spec fn u64_msg() -> Seq<char> {
    " 需要整数"@
}

pub open spec fn u16_msg() -> Seq<char> {
    " 需要 0-65535 整数"@
}

pub open spec fn u8_msg() -> Seq<char> {
    " 需要 0-255 整数"@
}

pub open spec fn u64_option(opts: Seq<OptModel>, name: Seq<char>, default: nat) -> Result<nat, Seq<char>> {
    opt_number(opts, name, default, u64::MAX as nat, u64_msg())
}

pub open spec fn usize_option(opts: Seq<OptModel>, name: Seq<char>, default: nat) -> Result<nat, Seq<char>> {
    opt_number(opts, name, default, usize::MAX as nat, u64_msg())
}

pub open spec fn u16_option(opts: Seq<OptModel>, name: Seq<char>, default: nat) -> Result<nat, Seq<char>> {
    opt_number(opts, name, default, u16::MAX as nat, u16_msg())
}

pub open spec fn u8_option(opts: Seq<OptModel>, name: Seq<char>, default: nat) -> Result<nat, Seq<char>> {
    opt_number(opts, name, default, u8::MAX as nat, u8_msg())
}

/// Exactly one positional token, else a usage error.
pub open spec fn single_positional(pos: Seq<Seq<char>>, usage: Seq<char>) -> Result<Seq<char>, Seq<char>> {
    if pos.len() == 1 {
        Ok(pos[0])
    } else {
        Err("用法: "@ + usage)
    }
}

// ---------------------------------------------------------------------------
// Executable token handling
// ---------------------------------------------------------------------------

pub struct Opt {
    pub key: Vec<char>,
    pub value: Option<Vec<char>>,
}

impl View for Opt {
    type V = OptModel;

    open spec fn view(&self) -> OptModel {
        (
            self.key@,
            match self.value {
                Some(v) => Some(v@),
                None => None,
            },
        )
    }
}

pub open spec fn opts_view(v: Seq<Opt>) -> Seq<OptModel> {
    v.map_values(|o: Opt| o@)
}

fn clone_chars(v: &Vec<char>) -> (r: Vec<char>)
    ensures
        r@ == v@,
{
    vstd::slice::slice_to_vec(v.as_slice())
}

fn to_token_vecs(args: &[&str]) -> (r: Vec<Vec<char>>)
    ensures
        views(r@) == strs_view(args@),
{
    let mut out: Vec<Vec<char>> = Vec::new();
    let mut i: usize = 0;
    while i < args.len()
        invariant
            i <= args.len(),
            views(out@) == strs_view(args@).take(i as int),
        decreases args.len() - i,
    {
        let a: &str = args[i];
        let c = to_chars(a);
        let ghost old_out = out@;
        out.push(c);
        proof {
            assert(a@ == strs_view(args@)[i as int]);
            assert(out@ == old_out.push(c));
            assert(views(out@) =~= views(old_out).push(c@));
            assert(strs_view(args@).take(i + 1) =~= strs_view(args@).take(i as int).push(a@));
        }
        i += 1;
    }
    assert(strs_view(args@).take(args.len() as int) =~= strs_view(args@));
    out
}

/// Drops the first token (the program name), if any.
fn drop_program(toks: Vec<Vec<char>>) -> (r: Vec<Vec<char>>)
    ensures
        views(r@) == after_program(views(toks@)),
{
    let mut toks = toks;
    if toks.len() > 0 {
        let ghost before = toks@;
        toks.remove(0);
        assert(views(toks@) =~= views(before).drop_first());
    }
    toks
}

/// Removes every `--json` token and reports whether one was present.
fn strip_json(toks: &Vec<Vec<char>>) -> (r: (Vec<Vec<char>>, OutputFormat))
    ensures
        views(r.0@) == without_json(views(toks@)),
        r.1 == format_of(views(toks@)),
{
    let ghost t = views(toks@);
    let mut out: Vec<Vec<char>> = Vec::new();
    let mut found = false;
    let mut i: usize = 0;
    while i < toks.len()
        invariant
            t == views(toks@),
            i <= toks.len(),
            views(out@) == without_json(t.take(i as int)),
            found == (exists|k: int| 0 <= k < i && t[k] == "--json"@),
        decreases toks.len() - i,
    {
        let is_json = eq_str(toks[i].as_slice(), "--json");
        assert(t.take(i + 1).drop_last() =~= t.take(i as int));
        assert(t.take(i + 1).last() == t[i as int]);
        if is_json {
            found = true;
        } else {
            out.push(clone_chars(&toks[i]));
            assert(views(out@) =~= without_json(t.take(i as int)).push(t[i as int]));
        }
        i += 1;
    }
    assert(t.take(toks.len() as int) =~= t);
    proof {
        if found {
            let k = choose|k: int| 0 <= k < toks.len() && t[k] == "--json"@;
            assert(t.contains("--json"@));
        } else {
            assert(!t.contains("--json"@));
        }
    }
    (out, if found { OutputFormat::Json } else { OutputFormat::Human })
}

fn is_option_exec(t: &Vec<char>) -> (r: bool)
    ensures
        r == is_option(t@),
{
    t.len() >= 2 && t[0] == '-' && t[1] == '-'
}

/// Separates positional tokens from options (`options_of` in the model).
fn split_options(toks: &Vec<Vec<char>>) -> (r: (Vec<Vec<char>>, Vec<Opt>))
    ensures
        (views(r.0@), opts_view(r.1@)) == options_of(views(toks@)),
{
    let ghost t = views(toks@);
    let mut pos: Vec<Vec<char>> = Vec::new();
    let mut opts: Vec<Opt> = Vec::new();
    let mut i: usize = 0;
    assert(t.skip(0) =~= t);
    while i < toks.len()
        invariant
            t == views(toks@),
            i <= toks.len(),
            options_of(t) == (
                views(pos@) + options_of(t.skip(i as int)).0,
                opts_view(opts@) + options_of(t.skip(i as int)).1,
            ),
        decreases toks.len() - i,
    {
        let ghost rest = t.skip(i as int);
        let ghost p0 = views(pos@);
        let ghost o0 = opts_view(opts@);
        assert(rest[0] == t[i as int]);
        if is_option_exec(&toks[i]) {
            if i + 1 < toks.len() && !is_option_exec(&toks[i + 1]) {
                assert(rest[1] == t[i + 1]);
                assert(rest.skip(2) =~= t.skip(i + 2));
                let o = Opt { key: clone_chars(&toks[i]), value: Some(clone_chars(&toks[i + 1])) };
                let ghost ov = o@;
                opts.push(o);
                proof {
                    let r2 = options_of(t.skip(i + 2));
                    assert(opts_view(opts@) =~= o0.push(ov));
                    assert(o0 + (seq![ov] + r2.1) =~= o0.push(ov) + r2.1);
                }
                i += 2;
            } else {
                assert(rest.skip(1) =~= t.skip(i + 1));
                let o = Opt { key: clone_chars(&toks[i]), value: None };
                let ghost ov = o@;
                opts.push(o);
                proof {
                    let r1 = options_of(t.skip(i + 1));
                    assert(opts_view(opts@) =~= o0.push(ov));
                    assert(o0 + (seq![ov] + r1.1) =~= o0.push(ov) + r1.1);
                }
                i += 1;
            }
        } else {
            assert(rest.skip(1) =~= t.skip(i + 1));
            pos.push(clone_chars(&toks[i]));
            proof {
                let r1 = options_of(t.skip(i + 1));
                assert(views(pos@) =~= p0.push(t[i as int]));
                assert(p0 + (seq![t[i as int]] + r1.0) =~= p0.push(t[i as int]) + r1.0);
            }
            i += 1;
        }
    }
    proof {
        assert(t.skip(toks.len() as int) =~= Seq::<Seq<char>>::empty());
        assert(views(pos@) + Seq::<Seq<char>>::empty() =~= views(pos@));
        assert(opts_view(opts@) + Seq::<OptModel>::empty() =~= opts_view(opts@));
    }
    (pos, opts)
}


/// Index of the first option named `name`.
fn find_opt(opts: &Vec<Opt>, name: &str) -> (r: Option<usize>)
    ensures
        r is None ==> opt_entry(opts_view(opts@), name@) is None,
        r matches Some(i) ==> i < opts.len() && opt_entry(opts_view(opts@), name@) == Some(
            opts@[i as int]@.1,
        ),
{
    let ghost o = opts_view(opts@);
    let mut i: usize = 0;
    assert(o.skip(0) =~= o);
    while i < opts.len()
        invariant
            o == opts_view(opts@),
            i <= opts.len(),
            opt_entry(o, name@) == opt_entry(o.skip(i as int), name@),
        decreases opts.len() - i,
    {
        assert(o.skip(i as int)[0] == opts@[i as int]@);
        if eq_str(opts[i].key.as_slice(), name) {
            return Some(i);
        }
        assert(o.skip(i as int).drop_first() =~= o.skip(i + 1));
        i += 1;
    }
    None
}

fn opt_optional_string(opts: &Vec<Opt>, name: &str) -> (r: Option<Vec<char>>)
    ensures
        match opt_value(opts_view(opts@), name@) {
            Some(v) => r matches Some(x) && x@ == v,
            None => r is None,
        },
{
    match find_opt(opts, name) {
        None => None,
        Some(i) => match &opts[i].value {
            Some(v) => Some(clone_chars(v)),
            None => None,
        },
    }
}

fn has_flag(opts: &Vec<Opt>, name: &str) -> (r: bool)
    ensures
        r == flag_given(opts_view(opts@), name@),
{
    find_opt(opts, name).is_some()
}

fn opt_string(opts: &Vec<Opt>, name: &str, default: &str) -> (r: String)
    ensures
        r@ == string_option(opts_view(opts@), name@, default@),
{
    match opt_optional_string(opts, name) {
        Some(v) => string_of(v.as_slice()),
        None => String::from_str(default),
    }
}

fn opt_strings(opts: &Vec<Opt>, name: &str) -> (r: Vec<Vec<char>>)
    ensures
        views(r@) == opt_values(opts_view(opts@), name@),
{
    let ghost o = opts_view(opts@);
    let mut out: Vec<Vec<char>> = Vec::new();
    let mut i: usize = 0;
    while i < opts.len()
        invariant
            o == opts_view(opts@),
            i <= opts.len(),
            views(out@) == opt_values(o.take(i as int), name@),
        decreases opts.len() - i,
    {
        assert(o.take(i + 1).drop_last() =~= o.take(i as int));
        assert(o.take(i + 1).last() == opts@[i as int]@);
        match &opts[i].value {
            Some(v) => {
                if eq_str(opts[i].key.as_slice(), name) {
                    let ghost before = out@;
                    out.push(clone_chars(v));
                    assert(views(out@) =~= views(before).push(v@));
                }
            },
            None => {},
        }
        i += 1;
    }
    assert(o.take(opts.len() as int) =~= o);
    out
}

fn opt_number_exec(opts: &Vec<Opt>, name: &str, default: u64, max: u64, msg: &str) -> (r: Result<
    u64,
    String,
>)
    requires
        default <= max,
    ensures
        match opt_number(opts_view(opts@), name@, default as nat, max as nat, msg@) {
            Ok(n) => r matches Ok(v) && v == n && v <= max,
            Err(e) => r matches Err(x) && x@ == e,
        },
{
    match opt_optional_string(opts, name) {
        None => Ok(default),
        Some(v) => match parse_unsigned_exec(v.as_slice(), max) {
            Some(n) => Ok(n),
            None => {
                let mut e = String::from_str(name);
                e.append(msg);
                Err(e)
            },
        },
    }
}

fn opt_u64(opts: &Vec<Opt>, name: &str, default: u64) -> (r: Result<u64, String>)
    ensures
        match u64_option(opts_view(opts@), name@, default as nat) {
            Ok(n) => r matches Ok(v) && v == n,
            Err(e) => r matches Err(x) && x@ == e,
        },
{
    opt_number_exec(opts, name, default, u64::MAX, " 需要整数")
}

fn opt_usize(opts: &Vec<Opt>, name: &str, default: usize) -> (r: Result<usize, String>)
    ensures
        match usize_option(opts_view(opts@), name@, default as nat) {
            Ok(n) => r matches Ok(v) && v == n,
            Err(e) => r matches Err(x) && x@ == e,
        },
{
    match opt_number_exec(opts, name, default as u64, usize::MAX as u64, " 需要整数") {
        Ok(v) => Ok(v as usize),
        Err(e) => Err(e),
    }
}

fn opt_u16(opts: &Vec<Opt>, name: &str, default: u16) -> (r: Result<u16, String>)
    ensures
        match u16_option(opts_view(opts@), name@, default as nat) {
            Ok(n) => r matches Ok(v) && v == n,
            Err(e) => r matches Err(x) && x@ == e,
        },
{
    match opt_number_exec(opts, name, default as u64, 65535, " 需要 0-65535 整数") {
        Ok(v) => Ok(v as u16),
        Err(e) => Err(e),
    }
}

fn opt_u8(opts: &Vec<Opt>, name: &str, default: u8) -> (r: Result<u8, String>)
    ensures
        match u8_option(opts_view(opts@), name@, default as nat) {
            Ok(n) => r matches Ok(v) && v == n,
            Err(e) => r matches Err(x) && x@ == e,
        },
{
    match opt_number_exec(opts, name, default as u64, 255, " 需要 0-255 整数") {
        Ok(v) => Ok(v as u8),
        Err(e) => Err(e),
    }
}

fn one_pos(pos: &Vec<Vec<char>>, usage: &str) -> (r: Result<String, String>)
    ensures
        match single_positional(views(pos@), usage@) {
            Ok(v) => r matches Ok(x) && x@ == v,
            Err(e) => r matches Err(x) && x@ == e,
        },
{
    if pos.len() == 1 {
        Ok(string_of(pos[0].as_slice()))
    } else {
        let mut e = String::from_str("用法: ");
        e.append(usage);
        Err(e)
    }
}


// ---------------------------------------------------------------------------
// Ports and headers
// ---------------------------------------------------------------------------

/// A single port: a decimal number from 1 to 65535.
pub open spec fn port_number(s: Seq<char>) -> Result<nat, Seq<char>> {
    match parse_unsigned(s, 65535) {
        None => Err("非法端口: "@ + s),
        Some(n) => if n == 0 {
            Err("端口不能为 0"@)
        } else {
            Ok(n)
        },
    }
}

pub open spec fn port_range(lo: nat, hi: nat) -> Set<u16> {
    Set::new(|p: u16| lo <= p && p <= hi)
}

/// The ports one comma-separated piece names: nothing for a blank piece,
/// `a-b` for an inclusive range (each end trimmed), else a single port.
pub open spec fn part_ports(part: Seq<char>) -> Result<Set<u16>, Seq<char>> {
    if trim(part).len() == 0 {
        Ok(Set::empty())
    } else {
        match split_once(part, '-') {
            Some((a, b)) => match port_number(trim(a)) {
                Err(e) => Err(e),
                Ok(lo) => match port_number(trim(b)) {
                    Err(e) => Err(e),
                    Ok(hi) => if lo > hi {
                        Err("非法端口范围: "@ + part)
                    } else {
                        Ok(port_range(lo, hi))
                    },
                },
            },
            None => match port_number(trim(part)) {
                Err(e) => Err(e),
                Ok(p) => Ok(port_range(p, p)),
            },
        }
    }
}

/// The union of the ports of every piece; the first bad piece decides the error.
pub open spec fn parts_ports(parts: Seq<Seq<char>>) -> Result<Set<u16>, Seq<char>>
    decreases parts.len(),
{
    if parts.len() == 0 {
        Ok(Set::empty())
    } else {
        match part_ports(parts[0]) {
            Err(e) => Err(e),
            Ok(s) => match parts_ports(parts.drop_first()) {
                Err(e) => Err(e),
                Ok(r) => Ok(s.union(r)),
            },
        }
    }
}

/// The members of `set` below `n`, in ascending order.
pub open spec fn ports_below(set: Set<u16>, n: nat) -> Seq<u16>
    decreases n,
{
    if n == 0 {
        seq![]
    } else {
        let r = ports_below(set, (n - 1) as nat);
        if set.contains((n - 1) as u16) {
            r.push((n - 1) as u16)
        } else {
            r
        }
    }
}

/// A port list such as `22,80,8000-8010`: the ports it names, ascending and
/// without repeats; an error when a piece is bad or nothing is named.
pub open spec fn ports_list(spec: Seq<char>) -> Result<Seq<u16>, Seq<char>> {
    match parts_ports(split_char(spec, ',')) {
        Err(e) => Err(e),
        Ok(set) => if exists|p: u16| set.contains(p) {
            Ok(ports_below(set, 65536))
        } else {
            Err("端口列表不能为空"@)
        },
    }
}

/// `K: V`, split at the first colon, both sides trimmed; the key must not be empty.
pub open spec fn header_model(s: Seq<char>) -> Result<(Seq<char>, Seq<char>), Seq<char>> {
    match split_once(s, ':') {
        None => Err("header 需要 'K: V' 格式: "@ + s),
        Some((k, v)) => if trim(k).len() == 0 {
            Err("header 名不能为空"@)
        } else {
            Ok((trim(k), trim(v)))
        },
    }
}

/// Every header parsed in order; the first bad one decides the error.
pub open spec fn headers_model(hs: Seq<Seq<char>>) -> Result<Seq<(Seq<char>, Seq<char>)>, Seq<char>>
    decreases hs.len(),
{
    if hs.len() == 0 {
        Ok(seq![])
    } else {
        match header_model(hs[0]) {
            Err(e) => Err(e),
            Ok(h) => match headers_model(hs.drop_first()) {
                Err(e) => Err(e),
                Ok(r) => Ok(seq![h] + r),
            },
        }
    }
}

fn parse_port(s: &[char]) -> (r: Result<u16, String>)
    ensures
        match port_number(s@) {
            Ok(n) => r matches Ok(p) && p == n,
            Err(e) => r matches Err(x) && x@ == e,
        },
{
    match parse_unsigned_exec(s, 65535) {
        None => Err(lit_then("非法端口: ", s)),
        Some(p) => if p == 0 {
            Err(String::from_str("端口不能为 0"))
        } else {
            Ok(p as u16)
        },
    }
}

/// The inclusive range of ports that one piece names, if any.
fn part_range(part: &[char]) -> (r: Result<Option<(u16, u16)>, String>)
    ensures
        match part_ports(part@) {
            Err(e) => r matches Err(x) && x@ == e,
            Ok(s) => r matches Ok(o) && match o {
                None => s == Set::<u16>::empty(),
                Some((lo, hi)) => lo <= hi && s == port_range(lo as nat, hi as nat),
            },
        },
{
    let t = trim_exec(part);
    if t.len() == 0 {
        return Ok(None);
    }
    match split_once_exec(part, '-') {
        Some((a, b)) => {
            let lo = match parse_port(trim_exec(a)) {
                Ok(p) => p,
                Err(e) => return Err(e),
            };
            let hi = match parse_port(trim_exec(b)) {
                Ok(p) => p,
                Err(e) => return Err(e),
            };
            if lo > hi {
                Err(lit_then("非法端口范围: ", part))
            } else {
                Ok(Some((lo, hi)))
            }
        },
        None => match parse_port(t) {
            Ok(p) => Ok(Some((p, p))),
            Err(e) => Err(e),
        },
    }
}

pub open spec fn lift_union(acc: Set<u16>, r: Result<Set<u16>, Seq<char>>) -> Result<Set<u16>, Seq<char>> {
    match r {
        Ok(s) => Ok(acc.union(s)),
        Err(e) => Err(e),
    }
}

proof fn lemma_parts_cons(a: Seq<char>, tail: Seq<Seq<char>>)
    ensures
        parts_ports(seq![a] + tail) == match part_ports(a) {
            Err(e) => Err(e),
            Ok(s) => lift_union(s, parts_ports(tail)),
        },
{
    let parts = seq![a] + tail;
    assert(parts[0] == a);
    assert(parts.drop_first() =~= tail);
}

proof fn lemma_split_step(rest: Seq<char>)
    ensures
        index_of(rest, ',') >= 0 ==> split_char(rest, ',') == seq![rest.take(index_of(rest, ','))]
            + split_char(rest.skip(index_of(rest, ',') + 1), ','),
        index_of(rest, ',') < 0 ==> split_char(rest, ',') == seq![rest],
{
}

/// Sorted, repeat-free port list (`ports_list` in the model).
fn parse_ports(spec: &[char]) -> (r: Result<Vec<u16>, String>)
    ensures
        match ports_list(spec@) {
            Ok(v) => r matches Ok(x) && x@ == v,
            Err(e) => r matches Err(x) && x@ == e,
        },
{
    proof {
        lemma_u16_ordered();
    }
    let mut set: BTreeSet<u16> = BTreeSet::new();
    let ghost mut acc: Set<u16> = Set::empty();
    let ghost whole = parts_ports(split_char(spec@, ','));
    let mut start: usize = 0;
    proof {
        assert(spec@.skip(0) =~= spec@);
        match whole {
            Ok(w) => {
                assert(Set::<u16>::empty().union(w) =~= w);
            },
            Err(_) => {},
        }
    }
    loop
        invariant_except_break
            whole == lift_union(acc, parts_ports(split_char(spec@.skip(start as int), ','))),
        invariant
            start <= spec.len(),
            u16_ordered(),
            set@ == acc,
            whole == parts_ports(split_char(spec@, ',')),
        ensures
            whole == Ok::<Set<u16>, Seq<char>>(acc),
        decreases spec.len() - start,
    {
        let ghost acc0 = acc;
        let rest = vstd::slice::slice_subrange(spec, start, spec.len());
        assert(rest@ =~= spec@.skip(start as int));
        let found = find_char(rest, ',');
        proof {
            lemma_index_of(rest@, ',');
            lemma_split_step(rest@);
        }
        let (part, next) = match found {
            Some(k) => (vstd::slice::slice_subrange(rest, 0, k), Some(start + k + 1)),
            None => (rest, None),
        };
        let ghost later = match next {
            Some(n) => parts_ports(split_char(spec@.skip(n as int), ',')),
            None => Ok(Set::<u16>::empty()),
        };
        proof {
            match found {
                Some(k) => {
                    assert(part@ =~= rest@.take(k as int));
                    assert(rest@.skip(k + 1) =~= spec@.skip(start + k + 1));
                    lemma_parts_cons(part@, split_char(rest@.skip(k + 1), ','));
                },
                None => {
                    assert(seq![rest@] =~= seq![rest@] + Seq::<Seq<char>>::empty());
                    lemma_parts_cons(rest@, Seq::<Seq<char>>::empty());
                },
            }
            assert(parts_ports(split_char(rest@, ',')) == match part_ports(part@) {
                Err(e) => Err(e),
                Ok(s) => lift_union(s, later),
            });
        }
        match part_range(part) {
            Err(e) => {
                return Err(e);
            },
            Ok(None) => {
                proof {
                    match later {
                        Ok(ls) => {
                            assert(acc0.union(Set::<u16>::empty().union(ls)) =~= acc0.union(ls));
                        },
                        Err(_) => {},
                    }
                }
            },
            Ok(Some((lo, hi))) => {
                let ghost added = port_range(lo as nat, hi as nat);
                let mut q: u32 = lo as u32;
                while q <= hi as u32
                    invariant
                        lo <= hi,
                        lo as u32 <= q <= hi as u32 + 1,
                        u16_ordered(),
                        set@ == acc0.union(Set::new(|p: u16| lo <= p && (p as u32) < q)),
                    decreases hi as u32 + 1 - q,
                {
                    set.insert(q as u16);
                    assert(set@ =~= acc0.union(Set::new(|p: u16| lo <= p && (p as u32) < q + 1)));
                    q += 1;
                }
                proof {
                    acc = acc0.union(added);
                    assert forall|p: u16| #[trigger] added.contains(p) == (lo <= p && (p as u32) < q) by {
                        assert(added.contains(p) == (lo <= p && p <= hi));
                    }
                    assert(set@ =~= acc);
                    match later {
                        Ok(ls) => {
                            assert(acc0.union(added.union(ls)) =~= acc.union(ls));
                        },
                        Err(_) => {},
                    }
                }
            },
        }
        match next {
            Some(n) => {
                start = n;
            },
            None => {
                proof {
                    assert(acc.union(Set::<u16>::empty()) =~= acc);
                }
                break;
            },
        }
    }
    if set.is_empty() {
        proof {
            assert forall|p: u16| !acc.contains(p) by {
                assert(!Set::<u16>::empty().contains(p));
            }
        }
        return Err(String::from_str("端口列表不能为空"));
    }
    proof {
        if forall|p: u16| !acc.contains(p) {
            assert(acc =~= Set::<u16>::empty());
        }
    }
    // The set's members in increasing order: each port, in turn, that it holds.
    let mut out: Vec<u16> = Vec::new();
    let mut p: u32 = 0;
    while p < 65536
        invariant
            p <= 65536,
            u16_ordered(),
            set@ == acc,
            out@ == ports_below(acc, p as nat),
        decreases 65536 - p,
    {
        let port: u16 = p as u16;
        if set.contains(&port) {
            out.push(port);
        }
        p += 1;
    }
    Ok(out)
}

fn parse_header(s: &[char]) -> (r: Result<(String, String), String>)
    ensures
        match header_model(s@) {
            Ok(h) => r matches Ok(x) && x.0@ == h.0 && x.1@ == h.1,
            Err(e) => r matches Err(x) && x@ == e,
        },
{
    match split_once_exec(s, ':') {
        None => Err(lit_then("header 需要 'K: V' 格式: ", s)),
        Some((k, v)) => {
            let key = trim_exec(k);
            if key.len() == 0 {
                return Err(String::from_str("header 名不能为空"));
            }
            Ok((string_of(key), string_of(trim_exec(v))))
        },
    }
}

pub open spec fn prepend_headers(
    done: Seq<(Seq<char>, Seq<char>)>,
    r: Result<Seq<(Seq<char>, Seq<char>)>, Seq<char>>,
) -> Result<Seq<(Seq<char>, Seq<char>)>, Seq<char>> {
    match r {
        Ok(x) => Ok(done + x),
        Err(e) => Err(e),
    }
}

fn parse_headers(hs: &Vec<Vec<char>>) -> (r: Result<Vec<(String, String)>, String>)
    ensures
        match headers_model(views(hs@)) {
            Ok(v) => r matches Ok(x) && headers_view(x@) == v,
            Err(e) => r matches Err(x) && x@ == e,
        },
{
    let ghost h = views(hs@);
    let mut out: Vec<(String, String)> = Vec::new();
    let mut i: usize = 0;
    assert(h.skip(0) =~= h);
    assert(headers_view(out@) + Seq::<(Seq<char>, Seq<char>)>::empty() =~= headers_view(out@));
    while i < hs.len()
        invariant
            h == views(hs@),
            i <= hs.len(),
            headers_model(h) == prepend_headers(headers_view(out@), headers_model(h.skip(i as int))),
        decreases hs.len() - i,
    {
        let ghost rest = h.skip(i as int);
        assert(rest[0] == hs@[i as int]@);
        assert(rest.drop_first() =~= h.skip(i + 1));
        match parse_header(hs[i].as_slice()) {
            Err(e) => {
                return Err(e);
            },
            Ok(kv) => {
                let ghost before = headers_view(out@);
                let ghost hv = (kv.0@, kv.1@);
                out.push(kv);
                proof {
                    assert(headers_view(out@) =~= before.push(hv));
                    match headers_model(h.skip(i + 1)) {
                        Ok(x) => {
                            assert(before + (seq![hv] + x) =~= before.push(hv) + x);
                        },
                        Err(_) => {},
                    }
                }
            },
        }
        i += 1;
    }
    proof {
        assert(h.skip(hs.len() as int) =~= Seq::<Seq<char>>::empty());
        assert(headers_view(out@) + Seq::<(Seq<char>, Seq<char>)>::empty() =~= headers_view(out@));
    }
    Ok(out)
}


// ---------------------------------------------------------------------------
// Subcommands
// ---------------------------------------------------------------------------

pub open spec fn lan_info_model(t: Seq<Seq<char>>) -> Result<CommandModel, Seq<char>> {
    if t.len() == 0 {
        Ok(CommandModel::LanInfo)
    } else {
        Err("lan-info 不接受位置参数"@)
    }
}

pub open spec fn lan_scan_model(t: Seq<Seq<char>>, suggest_only: bool) -> Result<CommandModel, Seq<char>> {
    let pos = options_of(t).0;
    let opts = options_of(t).1;
    if pos.len() > 1 {
        Err("用法: lan-scan [cidr]"@)
    } else {
        match u64_option(opts, "--timeout"@, 700) {
            Err(e) => Err(e),
            Ok(timeout_ms) => match usize_option(opts, "--concurrency"@, 32) {
                Err(e) => Err(e),
                Ok(concurrency) => match usize_option(opts, "--count"@, 10) {
                    Err(e) => Err(e),
                    Ok(suggestion_count) => Ok(
                        CommandModel::LanScan {
                            cidr: if pos.len() == 1 {
                                Some(pos[0])
                            } else {
                                None
                            },
                            timeout_ms,
                            concurrency,
                            suggestion_count,
                            suggest_only,
                        },
                    ),
                },
            },
        }
    }
}

pub open spec fn diagnose_model(t: Seq<Seq<char>>) -> Result<CommandModel, Seq<char>> {
    let pos = options_of(t).0;
    let opts = options_of(t).1;
    match single_positional(pos, "diagnose <host-or-url>"@) {
        Err(e) => Err(e),
        Ok(target) => match u64_option(opts, "--timeout"@, 2000) {
            Err(e) => Err(e),
            Ok(timeout_ms) => match u8_option(opts, "--max-hops"@, 20) {
                Err(e) => Err(e),
                Ok(max_hops) => match u16_option(opts, "--count"@, 4) {
                    Err(e) => Err(e),
                    Ok(ping_count) => Ok(
                        CommandModel::Diagnose {
                            target,
                            include_trace: !flag_given(opts, "--no-trace"@),
                            timeout_ms,
                            max_hops,
                            ping_count,
                        },
                    ),
                },
            },
        },
    }
}

pub open spec fn ping_model(t: Seq<Seq<char>>) -> Result<CommandModel, Seq<char>> {
    let pos = options_of(t).0;
    let opts = options_of(t).1;
    match single_positional(pos, "ping <host>"@) {
        Err(e) => Err(e),
        Ok(host) => match u16_option(opts, "--count"@, 4) {
            Err(e) => Err(e),
            Ok(count) => match u64_option(opts, "--timeout"@, 1000) {
                Err(e) => Err(e),
                Ok(timeout_ms) => Ok(CommandModel::Ping { host, count, timeout_ms }),
            },
        },
    }
}

pub open spec fn tcp_model(t: Seq<Seq<char>>) -> Result<CommandModel, Seq<char>> {
    let pos = options_of(t).0;
    let opts = options_of(t).1;
    if pos.len() != 2 {
        Err("tcp 用法: tcp <host> <port>"@)
    } else {
        match port_number(pos[1]) {
            Err(e) => Err(e),
            Ok(port) => match u64_option(opts, "--timeout"@, 1000) {
                Err(e) => Err(e),
                Ok(timeout_ms) => Ok(
                    CommandModel::TcpProbe {
                        host: pos[0],
                        port,
                        timeout_ms,
                        fingerprint: flag_given(opts, "--fingerprint"@),
                    },
                ),
            },
        }
    }
}

pub open spec fn scan_model(t: Seq<Seq<char>>) -> Result<CommandModel, Seq<char>> {
    let pos = options_of(t).0;
    let opts = options_of(t).1;
    if pos.len() != 2 {
        Err("scan 用法: scan <host> <ports>"@)
    } else {
        match ports_list(pos[1]) {
            Err(e) => Err(e),
            Ok(ports) => match u64_option(opts, "--timeout"@, 1000) {
                Err(e) => Err(e),
                Ok(timeout_ms) => match usize_option(opts, "--concurrency"@, 128) {
                    Err(e) => Err(e),
                    Ok(concurrency) => Ok(
                        CommandModel::TcpScan {
                            host: pos[0],
                            ports,
                            timeout_ms,
                            fingerprint: flag_given(opts, "--fingerprint"@),
                            concurrency,
                        },
                    ),
                },
            },
        }
    }
}

pub open spec fn tcp_ping_model(t: Seq<Seq<char>>) -> Result<CommandModel, Seq<char>> {
    let pos = options_of(t).0;
    let opts = options_of(t).1;
    if pos.len() != 2 {
        Err("tcp-ping 用法: tcp-ping <host> <port>"@)
    } else {
        match port_number(pos[1]) {
            Err(e) => Err(e),
            Ok(port) => match u16_option(opts, "--count"@, 4) {
                Err(e) => Err(e),
                Ok(count) => match u64_option(opts, "--interval"@, 1000) {
                    Err(e) => Err(e),
                    Ok(interval_ms) => match u64_option(opts, "--timeout"@, 1000) {
                        Err(e) => Err(e),
                        Ok(timeout_ms) => Ok(
                            CommandModel::TcpPing { host: pos[0], port, count, interval_ms, timeout_ms },
                        ),
                    },
                },
            },
        }
    }
}

pub open spec fn dns_model(t: Seq<Seq<char>>) -> Result<CommandModel, Seq<char>> {
    let pos = options_of(t).0;
    let opts = options_of(t).1;
    match single_positional(pos, "dns <domain>"@) {
        Err(e) => Err(e),
        Ok(domain) => match u64_option(opts, "--timeout"@, 2000) {
            Err(e) => Err(e),
            Ok(timeout_ms) => Ok(
                CommandModel::Dns {
                    domain,
                    record_type: string_option(opts, "--type"@, "A"@),
                    servers: opt_values(opts, "--server"@),
                    timeout_ms,
                },
            ),
        },
    }
}

pub open spec fn http_model(t: Seq<Seq<char>>) -> Result<CommandModel, Seq<char>> {
    let pos = options_of(t).0;
    let opts = options_of(t).1;
    match single_positional(pos, "http <url>"@) {
        Err(e) => Err(e),
        Ok(url) => match headers_model(opt_values(opts, "--header"@)) {
            Err(e) => Err(e),
            Ok(headers) => match u64_option(opts, "--timeout"@, 5000) {
                Err(e) => Err(e),
                Ok(timeout_ms) => Ok(
                    CommandModel::Http {
                        url,
                        method: string_option(opts, "--method"@, "GET"@),
                        headers,
                        body: opt_value(opts, "--body"@),
                        timeout_ms,
                        follow_redirects: !flag_given(opts, "--no-follow"@),
                    },
                ),
            },
        },
    }
}

pub open spec fn trace_model(t: Seq<Seq<char>>) -> Result<CommandModel, Seq<char>> {
    let pos = options_of(t).0;
    let opts = options_of(t).1;
    match single_positional(pos, "trace <host>"@) {
        Err(e) => Err(e),
        Ok(host) => match u8_option(opts, "--max-hops"@, 30) {
            Err(e) => Err(e),
            Ok(max_hops) => match u64_option(opts, "--timeout"@, 3000) {
                Err(e) => Err(e),
                Ok(timeout_ms) => Ok(CommandModel::Trace { host, max_hops, timeout_ms }),
            },
        },
    }
}

/// The command that a subcommand name and its remaining tokens denote.
pub open spec fn command_model(sub: Seq<char>, rest: Seq<Seq<char>>) -> Result<CommandModel, Seq<char>> {
    if sub == "lan-info"@ {
        lan_info_model(rest)
    } else if sub == "lan-scan"@ {
        lan_scan_model(rest, false)
    } else if sub == "ip-suggest"@ {
        lan_scan_model(rest, true)
    } else if sub == "diagnose"@ || sub == "doctor"@ {
        diagnose_model(rest)
    } else if sub == "ping"@ {
        ping_model(rest)
    } else if sub == "tcp"@ {
        tcp_model(rest)
    } else if sub == "scan"@ {
        scan_model(rest)
    } else if sub == "tcp-ping"@ {
        tcp_ping_model(rest)
    } else if sub == "dns"@ {
        dns_model(rest)
    } else if sub == "http"@ {
        http_model(rest)
    } else if sub == "trace"@ || sub == "traceroute"@ {
        trace_model(rest)
    } else {
        Err("未知子命令: "@ + sub)
    }
}

pub open spec fn is_help_word(w: Seq<char>) -> bool {
    w == "help"@ || w == "--help"@ || w == "-h"@
}

/// What the whole argument list (program name first) denotes.
pub open spec fn cli_model(args: Seq<Seq<char>>) -> Result<ArgsModel, Seq<char>> {
    let t0 = after_program(args);
    let format = format_of(t0);
    let t = without_json(t0);
    if t.len() == 0 || is_help_word(t[0]) {
        Ok(ArgsModel { command: CommandModel::Help, format })
    } else {
        match command_model(t[0], t.drop_first()) {
            Ok(command) => Ok(ArgsModel { command, format }),
            Err(e) => Err(e),
        }
    }
}

pub open spec fn command_result(r: Result<CliCommand, String>, m: Result<CommandModel, Seq<char>>) -> bool {
    match m {
        Ok(c) => r matches Ok(x) && x@ == c,
        Err(e) => r matches Err(x) && x@ == e,
    }
}

fn parse_lan_info(tokens: &Vec<Vec<char>>) -> (r: Result<CliCommand, String>)
    ensures
        command_result(r, lan_info_model(views(tokens@))),
{
    if tokens.len() == 0 {
        Ok(CliCommand::LanInfo)
    } else {
        Err(String::from_str("lan-info 不接受位置参数"))
    }
}

fn parse_lan_scan(tokens: &Vec<Vec<char>>, suggest_only: bool) -> (r: Result<CliCommand, String>)
    ensures
        command_result(r, lan_scan_model(views(tokens@), suggest_only)),
{
    let (pos, opts) = split_options(tokens);
    if pos.len() > 1 {
        return Err(String::from_str("用法: lan-scan [cidr]"));
    }
    let cidr = if pos.len() == 1 {
        Some(string_of(pos[0].as_slice()))
    } else {
        None
    };
    let timeout_ms = match opt_u64(&opts, "--timeout", 700) {
        Ok(v) => v,
        Err(e) => return Err(e),
    };
    let concurrency = match opt_usize(&opts, "--concurrency", 32) {
        Ok(v) => v,
        Err(e) => return Err(e),
    };
    let suggestion_count = match opt_usize(&opts, "--count", 10) {
        Ok(v) => v,
        Err(e) => return Err(e),
    };
    Ok(CliCommand::LanScan { cidr, timeout_ms, concurrency, suggestion_count, suggest_only })
}

fn parse_diagnose(tokens: &Vec<Vec<char>>) -> (r: Result<CliCommand, String>)
    ensures
        command_result(r, diagnose_model(views(tokens@))),
{
    let (pos, opts) = split_options(tokens);
    let target = match one_pos(&pos, "diagnose <host-or-url>") {
        Ok(v) => v,
        Err(e) => return Err(e),
    };
    let include_trace = !has_flag(&opts, "--no-trace");
    let timeout_ms = match opt_u64(&opts, "--timeout", 2000) {
        Ok(v) => v,
        Err(e) => return Err(e),
    };
    let max_hops = match opt_u8(&opts, "--max-hops", 20) {
        Ok(v) => v,
        Err(e) => return Err(e),
    };
    let ping_count = match opt_u16(&opts, "--count", 4) {
        Ok(v) => v,
        Err(e) => return Err(e),
    };
    Ok(CliCommand::Diagnose { target, include_trace, timeout_ms, max_hops, ping_count })
}

fn parse_ping(tokens: &Vec<Vec<char>>) -> (r: Result<CliCommand, String>)
    ensures
        command_result(r, ping_model(views(tokens@))),
{
    let (pos, opts) = split_options(tokens);
    let host = match one_pos(&pos, "ping <host>") {
        Ok(v) => v,
        Err(e) => return Err(e),
    };
    let count = match opt_u16(&opts, "--count", 4) {
        Ok(v) => v,
        Err(e) => return Err(e),
    };
    let timeout_ms = match opt_u64(&opts, "--timeout", 1000) {
        Ok(v) => v,
        Err(e) => return Err(e),
    };
    Ok(CliCommand::Ping { host, count, timeout_ms })
}

fn parse_tcp(tokens: &Vec<Vec<char>>) -> (r: Result<CliCommand, String>)
    ensures
        command_result(r, tcp_model(views(tokens@))),
{
    let (pos, opts) = split_options(tokens);
    if pos.len() != 2 {
        return Err(String::from_str("tcp 用法: tcp <host> <port>"));
    }
    let host = string_of(pos[0].as_slice());
    let port = match parse_port(pos[1].as_slice()) {
        Ok(v) => v,
        Err(e) => return Err(e),
    };
    let timeout_ms = match opt_u64(&opts, "--timeout", 1000) {
        Ok(v) => v,
        Err(e) => return Err(e),
    };
    let fingerprint = has_flag(&opts, "--fingerprint");
    Ok(CliCommand::TcpProbe { host, port, timeout_ms, fingerprint })
}

fn parse_scan(tokens: &Vec<Vec<char>>) -> (r: Result<CliCommand, String>)
    ensures
        command_result(r, scan_model(views(tokens@))),
{
    let (pos, opts) = split_options(tokens);
    if pos.len() != 2 {
        return Err(String::from_str("scan 用法: scan <host> <ports>"));
    }
    let host = string_of(pos[0].as_slice());
    let ports = match parse_ports(pos[1].as_slice()) {
        Ok(v) => v,
        Err(e) => return Err(e),
    };
    let timeout_ms = match opt_u64(&opts, "--timeout", 1000) {
        Ok(v) => v,
        Err(e) => return Err(e),
    };
    let fingerprint = has_flag(&opts, "--fingerprint");
    let concurrency = match opt_usize(&opts, "--concurrency", 128) {
        Ok(v) => v,
        Err(e) => return Err(e),
    };
    Ok(CliCommand::TcpScan { host, ports, timeout_ms, fingerprint, concurrency })
}

fn parse_tcp_ping(tokens: &Vec<Vec<char>>) -> (r: Result<CliCommand, String>)
    ensures
        command_result(r, tcp_ping_model(views(tokens@))),
{
    let (pos, opts) = split_options(tokens);
    if pos.len() != 2 {
        return Err(String::from_str("tcp-ping 用法: tcp-ping <host> <port>"));
    }
    let host = string_of(pos[0].as_slice());
    let port = match parse_port(pos[1].as_slice()) {
        Ok(v) => v,
        Err(e) => return Err(e),
    };
    let count = match opt_u16(&opts, "--count", 4) {
        Ok(v) => v,
        Err(e) => return Err(e),
    };
    let interval_ms = match opt_u64(&opts, "--interval", 1000) {
        Ok(v) => v,
        Err(e) => return Err(e),
    };
    let timeout_ms = match opt_u64(&opts, "--timeout", 1000) {
        Ok(v) => v,
        Err(e) => return Err(e),
    };
    Ok(CliCommand::TcpPing { host, port, count, interval_ms, timeout_ms })
}

fn strings_of(v: &Vec<Vec<char>>) -> (r: Vec<String>)
    ensures
        crate::text::string_views(r@) == views(v@),
{
    let mut out: Vec<String> = Vec::new();
    let mut i: usize = 0;
    while i < v.len()
        invariant
            i <= v.len(),
            crate::text::string_views(out@) == views(v@).take(i as int),
        decreases v.len() - i,
    {
        let s = string_of(v[i].as_slice());
        let ghost before = out@;
        out.push(s);
        assert(crate::text::string_views(out@) =~= crate::text::string_views(before).push(v@[i as int]@));
        assert(views(v@).take(i + 1) =~= views(v@).take(i as int).push(v@[i as int]@));
        i += 1;
    }
    assert(views(v@).take(v.len() as int) =~= views(v@));
    out
}

fn parse_dns(tokens: &Vec<Vec<char>>) -> (r: Result<CliCommand, String>)
    ensures
        command_result(r, dns_model(views(tokens@))),
{
    let (pos, opts) = split_options(tokens);
    let domain = match one_pos(&pos, "dns <domain>") {
        Ok(v) => v,
        Err(e) => return Err(e),
    };
    let record_type = opt_string(&opts, "--type", "A");
    let servers = strings_of(&opt_strings(&opts, "--server"));
    let timeout_ms = match opt_u64(&opts, "--timeout", 2000) {
        Ok(v) => v,
        Err(e) => return Err(e),
    };
    Ok(CliCommand::Dns { domain, record_type, servers, timeout_ms })
}

fn parse_http(tokens: &Vec<Vec<char>>) -> (r: Result<CliCommand, String>)
    ensures
        command_result(r, http_model(views(tokens@))),
{
    let (pos, opts) = split_options(tokens);
    let url = match one_pos(&pos, "http <url>") {
        Ok(v) => v,
        Err(e) => return Err(e),
    };
    let headers = match parse_headers(&opt_strings(&opts, "--header")) {
        Ok(v) => v,
        Err(e) => return Err(e),
    };
    let method = opt_string(&opts, "--method", "GET");
    let body = match opt_optional_string(&opts, "--body") {
        Some(b) => Some(string_of(b.as_slice())),
        None => None,
    };
    let timeout_ms = match opt_u64(&opts, "--timeout", 5000) {
        Ok(v) => v,
        Err(e) => return Err(e),
    };
    let follow_redirects = !has_flag(&opts, "--no-follow");
    Ok(CliCommand::Http { url, method, headers, body, timeout_ms, follow_redirects })
}

fn parse_trace(tokens: &Vec<Vec<char>>) -> (r: Result<CliCommand, String>)
    ensures
        command_result(r, trace_model(views(tokens@))),
{
    let (pos, opts) = split_options(tokens);
    let host = match one_pos(&pos, "trace <host>") {
        Ok(v) => v,
        Err(e) => return Err(e),
    };
    let max_hops = match opt_u8(&opts, "--max-hops", 30) {
        Ok(v) => v,
        Err(e) => return Err(e),
    };
    let timeout_ms = match opt_u64(&opts, "--timeout", 3000) {
        Ok(v) => v,
        Err(e) => return Err(e),
    };
    Ok(CliCommand::Trace { host, max_hops, timeout_ms })
}

/// Parses a command line, program name first.
///
/// Any `--json` token, wherever it stands, selects JSON output and is removed;
/// no subcommand, or `help`, `--help` or `-h`, yields `Help`; otherwise the
/// subcommand and its positional tokens and options are read as `cli_model` says.
pub fn parse_cli_args(args: &[&str]) -> (r: Result<CliArgs, String>)
    ensures
        match cli_model(strs_view(args@)) {
            Ok(m) => r matches Ok(a) && a@ == m,
            Err(e) => r matches Err(x) && x@ == e,
        },
{
    let toks = drop_program(to_token_vecs(args));
    let (tokens, format) = strip_json(&toks);
    if tokens.len() == 0 || eq_str(tokens[0].as_slice(), "help") || eq_str(tokens[0].as_slice(), "--help")
        || eq_str(tokens[0].as_slice(), "-h") {
        return Ok(CliArgs { command: CliCommand::Help, format });
    }
    let mut rest = tokens;
    let sub = rest.remove(0);
    let ghost t = views(toks@);
    assert(views(rest@) =~= without_json(after_program(strs_view(args@))).drop_first());
    let s = sub.as_slice();
    let command = if eq_str(s, "lan-info") {
        parse_lan_info(&rest)
    } else if eq_str(s, "lan-scan") {
        parse_lan_scan(&rest, false)
    } else if eq_str(s, "ip-suggest") {
        parse_lan_scan(&rest, true)
    } else if eq_str(s, "diagnose") || eq_str(s, "doctor") {
        parse_diagnose(&rest)
    } else if eq_str(s, "ping") {
        parse_ping(&rest)
    } else if eq_str(s, "tcp") {
        parse_tcp(&rest)
    } else if eq_str(s, "scan") {
        parse_scan(&rest)
    } else if eq_str(s, "tcp-ping") {
        parse_tcp_ping(&rest)
    } else if eq_str(s, "dns") {
        parse_dns(&rest)
    } else if eq_str(s, "http") {
        parse_http(&rest)
    } else if eq_str(s, "trace") || eq_str(s, "traceroute") {
        parse_trace(&rest)
    } else {
        Err(lit_then("未知子命令: ", s))
    };
    match command {
        Ok(command) => Ok(CliArgs { command, format }),
        Err(e) => Err(e),
    }
}

pub open spec fn usage_text() -> Seq<char> {
    USAGE@
}

pub const USAGE: &'static str = "netools - pure CLI network diagnostics

USAGE:
  netools lan-info [--json]
  netools lan-scan [cidr] [--timeout MS] [--concurrency N] [--count N] [--json]
  netools ip-suggest [cidr] [--timeout MS] [--concurrency N] [--count N] [--json]
  netools diagnose <host-or-url> [--no-trace] [--count N] [--max-hops N] [--timeout MS] [--json]
  netools ping <host> [--count N] [--timeout MS] [--json]
  netools tcp <host> <port> [--timeout MS] [--fingerprint] [--json]
  netools scan <host> <ports> [--timeout MS] [--concurrency N] [--fingerprint] [--json]
  netools tcp-ping <host> <port> [--count N] [--interval MS] [--timeout MS] [--json]
  netools dns <domain> [--type A] [--server IP ...] [--timeout MS] [--json]
  netools http <url> [--method GET] [--header 'K: V'] [--body TEXT] [--no-follow] [--timeout MS] [--json]
  netools trace <host> [--max-hops N] [--timeout MS] [--json]

PORTS:
  scan accepts comma/range syntax, e.g. 22,80,443,8000-8010
";

/// The help text of the command line.
pub fn usage() -> (r: String)
    ensures
        r@ == usage_text(),
{
    String::from_str(USAGE)
}

// ---------------------------------------------------------------------------
// Laws
// ---------------------------------------------------------------------------

proof fn lemma_ports_below(set: Set<u16>, n: nat)
    requires
        n <= 65536,
    ensures
        forall|i: int, j: int|
            0 <= i < j < ports_below(set, n).len() ==> ports_below(set, n)[i] < ports_below(set, n)[j],
        forall|k: int| 0 <= k < ports_below(set, n).len() ==> (#[trigger] ports_below(set, n)[k]) < n,
        forall|p: u16| p < n ==> (ports_below(set, n).contains(p) <==> set.contains(p)),
    decreases n,
{
    if n > 0 {
        let r = ports_below(set, (n - 1) as nat);
        lemma_ports_below(set, (n - 1) as nat);
        let x = (n - 1) as u16;
        assert(x as nat == n - 1);
        if set.contains(x) {
            assert forall|p: u16| p < n implies (r.push(x).contains(p) <==> set.contains(p)) by {
                if p == x {
                    assert(r.push(x)[r.len() as int] == x);
                } else {
                    if r.push(x).contains(p) {
                        let k = choose|k: int| 0 <= k < r.push(x).len() && r.push(x)[k] == p;
                        assert(k < r.len());
                        assert(r[k] == p);
                    }
                    if r.contains(p) {
                        let k = choose|k: int| 0 <= k < r.len() && r[k] == p;
                        assert(r.push(x)[k] == p);
                    }
                }
            }
        } else {
            assert forall|p: u16| p < n implies (r.contains(p) <==> set.contains(p)) by {
                if p == x {
                    if r.contains(p) {
                        let k = choose|k: int| 0 <= k < r.len() && r[k] == p;
                        assert(r[k] < n - 1);
                    }
                }
            }
        }
    }
}

/// A port list comes out in strictly ascending order, each port once, never
/// empty, and holds exactly the ports that its comma-separated parts name.
pub proof fn law_port_list(spec: Seq<char>)
    ensures
        ports_list(spec) matches Ok(v) ==> {
            &&& v.len() > 0
            &&& forall|i: int, j: int| 0 <= i < j < v.len() ==> v[i] < v[j]
            &&& forall|p: u16|
                v.contains(p) <==> (parts_ports(split_char(spec, ',')) matches Ok(set) && set.contains(p))
        },
{
    match parts_ports(split_char(spec, ',')) {
        Ok(set) => {
            lemma_ports_below(set, 65536);
            if exists|p: u16| set.contains(p) {
                let p = choose|p: u16| set.contains(p);
                assert(ports_below(set, 65536).contains(p));
            }
        },
        Err(_) => {},
    }
}

proof fn lemma_without_json_concat(x: Seq<Seq<char>>, y: Seq<Seq<char>>)
    ensures
        without_json(x + y) == without_json(x) + without_json(y),
    decreases y.len(),
{
    if y.len() == 0 {
        assert(x + y =~= x);
        assert(without_json(x) + without_json(y) =~= without_json(x));
    } else {
        lemma_without_json_concat(x, y.drop_last());
        assert((x + y).drop_last() =~= x + y.drop_last());
        assert((x + y).last() == y.last());
        if y.last() != "--json"@ {
            assert(without_json(x) + without_json(y.drop_last()).push(y.last()) =~= (without_json(x)
                + without_json(y.drop_last())).push(y.last()));
        }
    }
}

/// `--json` may stand anywhere after the program name: it selects JSON output
/// and leaves the rest of the command line as it would be without it.
pub proof fn law_json_anywhere(program: Seq<char>, before: Seq<Seq<char>>, after: Seq<Seq<char>>)
    ensures
        cli_model(seq![program] + before + seq!["--json"@] + after) == match cli_model(
            seq![program] + before + after,
        ) {
            Ok(m) => Ok(ArgsModel { format: OutputFormat::Json, ..m }),
            Err(e) => Err(e),
        },
{
    let with = seq![program] + before + seq!["--json"@] + after;
    let without = seq![program] + before + after;
    assert(after_program(with) =~= before + seq!["--json"@] + after);
    assert(after_program(without) =~= before + after);
    lemma_without_json_concat(before + seq!["--json"@], after);
    lemma_without_json_concat(before, seq!["--json"@]);
    lemma_without_json_concat(before, after);
    assert(without_json(seq!["--json"@]) =~= Seq::<Seq<char>>::empty()) by {
        reveal_with_fuel(without_json, 2);
        assert(seq!["--json"@].drop_last() =~= Seq::<Seq<char>>::empty());
        assert(seq!["--json"@].last() == "--json"@);
    }
    assert(without_json(before) + Seq::<Seq<char>>::empty() =~= without_json(before));
    assert(after_program(with)[before.len() as int] == "--json"@);
    assert(format_of(after_program(with)) == OutputFormat::Json);
}


/// A lan-scan command line read as an ip-suggest one: the same, with only the
/// suggestions asked for.
pub open spec fn suggesting(m: Result<ArgsModel, Seq<char>>) -> Result<ArgsModel, Seq<char>> {
    match m {
        Ok(ArgsModel { command: CommandModel::LanScan { cidr, timeout_ms, concurrency, suggestion_count, .. }, format }) =>
            Ok(ArgsModel {
                command: CommandModel::LanScan { cidr, timeout_ms, concurrency, suggestion_count, suggest_only: true },
                format,
            }),
        other => other,
    }
}

proof fn lemma_subcommand_line(program: Seq<char>, sub: Seq<char>, rest: Seq<Seq<char>>)
    requires
        sub != "--json"@,
        !is_help_word(sub),
    ensures
        cli_model(seq![program, sub] + rest) == match command_model(sub, without_json(rest)) {
            Ok(command) => Ok(ArgsModel { command, format: format_of(rest) }),
            Err(e) => Err::<ArgsModel, Seq<char>>(e),
        },
{
    let args = seq![program, sub] + rest;
    let t0 = seq![sub] + rest;
    assert(after_program(args) =~= t0);
    lemma_without_json_concat(seq![sub], rest);
    assert(without_json(seq![sub]) =~= seq![sub]) by {
        reveal_with_fuel(without_json, 2);
        assert(seq![sub].drop_last() =~= Seq::<Seq<char>>::empty());
    }
    let t = without_json(t0);
    assert(t =~= seq![sub] + without_json(rest));
    assert(t[0] == sub);
    assert(t.drop_first() =~= without_json(rest));
    assert(t0.contains("--json"@) == rest.contains("--json"@)) by {
        if rest.contains("--json"@) {
            let k = choose|k: int| 0 <= k < rest.len() && rest[k] == "--json"@;
            assert(t0[k + 1] == "--json"@);
        }
        if t0.contains("--json"@) {
            let k = choose|k: int| 0 <= k < t0.len() && t0[k] == "--json"@;
            assert(k > 0);
            assert(rest[k - 1] == "--json"@);
        }
    }
}

/// The subcommand aliases mean what they stand for: `doctor` is `diagnose`,
/// `traceroute` is `trace`, and `ip-suggest` is `lan-scan` asking for the
/// suggestions only, whatever follows them.
pub proof fn law_subcommand_aliases(program: Seq<char>, rest: Seq<Seq<char>>)
    ensures
        cli_model(seq![program, "doctor"@] + rest) == cli_model(seq![program, "diagnose"@] + rest),
        cli_model(seq![program, "traceroute"@] + rest) == cli_model(seq![program, "trace"@] + rest),
        cli_model(seq![program, "ip-suggest"@] + rest) == suggesting(cli_model(seq![program, "lan-scan"@] + rest)),
{
    reveal_strlit("doctor");
    reveal_strlit("diagnose");
    reveal_strlit("traceroute");
    reveal_strlit("trace");
    reveal_strlit("ip-suggest");
    reveal_strlit("lan-scan");
    reveal_strlit("--json");
    reveal_strlit("help");
    reveal_strlit("--help");
    reveal_strlit("-h");
    reveal_strlit("lan-info");
    reveal_strlit("ping");
    reveal_strlit("tcp");
    reveal_strlit("scan");
    reveal_strlit("tcp-ping");
    reveal_strlit("dns");
    reveal_strlit("http");
    assert("lan-scan"@[4] != "lan-info"@[4]);
    assert("traceroute"@[0] != "ip-suggest"@[0]);
    assert("traceroute"@.len() == 10 && "trace"@.len() == 5);
    assert("traceroute"@[0] != "lan-info"@[0] && "traceroute"@[0] != "lan-scan"@[0] && "traceroute"@[0]
        != "diagnose"@[0] && "traceroute"@[0] != "doctor"@[0] && "traceroute"@[0] != "ping"@[0]
        && "traceroute"@[0] != "scan"@[0] && "traceroute"@[0] != "dns"@[0] && "traceroute"@[0]
        != "http"@[0]);
    assert("traceroute"@[1] != "tcp"@[1] && "traceroute"@[1] != "tcp-ping"@[1]);
    assert("trace"@ != "traceroute"@);
    assert("diagnose"@[0] != "lan-info"@[0] && "diagnose"@[0] != "lan-scan"@[0]);
    assert("doctor"@[0] != "--json"@[0] && "doctor"@[0] != "help"@[0] && "doctor"@[0] != "--help"@[0]
        && "doctor"@[0] != "-h"@[0]);
    assert("diagnose"@[0] != "--json"@[0] && "diagnose"@[0] != "help"@[0] && "diagnose"@[0]
        != "--help"@[0] && "diagnose"@[0] != "-h"@[0]);
    assert("traceroute"@[0] != "--json"@[0] && "traceroute"@[0] != "help"@[0] && "traceroute"@[0]
        != "--help"@[0] && "traceroute"@[0] != "-h"@[0]);
    assert("trace"@[0] != "--json"@[0] && "trace"@[0] != "help"@[0] && "trace"@[0] != "--help"@[0]
        && "trace"@[0] != "-h"@[0]);
    assert("ip-suggest"@[0] != "--json"@[0] && "ip-suggest"@[0] != "help"@[0] && "ip-suggest"@[0]
        != "--help"@[0] && "ip-suggest"@[0] != "-h"@[0]);
    assert("lan-scan"@[0] != "--json"@[0] && "lan-scan"@[0] != "help"@[0] && "lan-scan"@[0]
        != "--help"@[0] && "lan-scan"@[0] != "-h"@[0]);
    lemma_subcommand_line(program, "doctor"@, rest);
    lemma_subcommand_line(program, "diagnose"@, rest);
    lemma_subcommand_line(program, "traceroute"@, rest);
    lemma_subcommand_line(program, "trace"@, rest);
    lemma_subcommand_line(program, "ip-suggest"@, rest);
    lemma_subcommand_line(program, "lan-scan"@, rest);
}


/// `tcp-ping` waits between probes for the number given with `--interval`
/// (1000 ms without one), and times each probe out after the number given
/// with `--timeout` (1000 ms without one): neither option stands in for the
/// other, wherever they stand among the tokens after the subcommand.
pub proof fn law_tcp_ping_options(program: Seq<char>, rest: Seq<Seq<char>>)
    ensures
        cli_model(seq![program, "tcp-ping"@] + rest) matches Ok(
            ArgsModel { command: CommandModel::TcpPing { interval_ms, timeout_ms, .. }, .. },
        ) ==> {
            let opts = options_of(without_json(rest)).1;
            &&& match opt_value(opts, "--interval"@) {
                Some(v) => parse_unsigned(v, u64::MAX as nat) == Some(interval_ms),
                None => interval_ms == 1000,
            }
            &&& match opt_value(opts, "--timeout"@) {
                Some(v) => parse_unsigned(v, u64::MAX as nat) == Some(timeout_ms),
                None => timeout_ms == 1000,
            }
        },
{
    reveal_strlit("tcp-ping");
    reveal_strlit("--json");
    reveal_strlit("help");
    reveal_strlit("--help");
    reveal_strlit("-h");
    reveal_strlit("lan-info");
    reveal_strlit("lan-scan");
    reveal_strlit("ip-suggest");
    reveal_strlit("diagnose");
    reveal_strlit("doctor");
    reveal_strlit("ping");
    reveal_strlit("tcp");
    reveal_strlit("scan");
    assert("tcp-ping"@[0] != "--json"@[0] && "tcp-ping"@[0] != "help"@[0] && "tcp-ping"@[0]
        != "--help"@[0] && "tcp-ping"@[0] != "-h"@[0]);
    assert("tcp-ping"@[0] != "lan-info"@[0] && "tcp-ping"@[0] != "lan-scan"@[0] && "tcp-ping"@[0]
        != "diagnose"@[0]);
    lemma_subcommand_line(program, "tcp-ping"@, rest);
}

} // verus!
