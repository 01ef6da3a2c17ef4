//! Reading the output of the system `ping` command, in English and Chinese:
//! reply lines, the replying address, the round-trip time and the error line.

use vstd::prelude::*;
use crate::num::is_digit;
use crate::text::{
    ascii_lower, ascii_lower_exec, contains_seq, contains_str, find_index, lines, lines_all,
    seq_index, string_of, to_chars, trim, trim_exec, trim_start, trim_start_exec, views, words,
    words_all,
};

verus! {

// ---------------------------------------------------------------------------
// Reply lines
// ---------------------------------------------------------------------------

/// A line that reports a reply: `bytes from` / `reply from` in any letter
/// case, or the Chinese `来自` / `字节=`.
pub open spec fn is_reply(line: Seq<char>) -> bool {
    let lower = ascii_lower(line);
    contains_seq(lower, "bytes from"@) || contains_seq(lower, "reply from"@) || contains_seq(
        line,
        "来自"@,
    ) || contains_seq(line, "字节="@)
}

pub fn is_reply_line(line: &[char]) -> (r: bool)
    ensures
        r == is_reply(line@),
{
    let lower = ascii_lower_exec(line);
    contains_str(lower.as_slice(), "bytes from") || contains_str(lower.as_slice(), "reply from")
        || contains_str(line, "来自") || contains_str(line, "字节=")
}

// ---------------------------------------------------------------------------
// Replying address
// ---------------------------------------------------------------------------

/// `s` without the trailing characters `:` and `,` (and, when `wide`, the
/// full-width `：` and `，`).
pub open spec fn trim_punct(s: Seq<char>, wide: bool) -> Seq<char>
    decreases s.len(),
{
    if s.len() > 0 && (s.last() == ':' || s.last() == ',' || (wide && (s.last() == '：' || s.last()
        == '，'))) {
        trim_punct(s.drop_last(), wide)
    } else {
        s
    }
}

fn trim_punct_exec(s: &[char], wide: bool) -> (r: String)
    ensures
        r@ == trim_punct(s@, wide),
{
    let mut j = s.len();
    assert(s@.take(j as int) =~= s@);
    while j > 0 && (s[j - 1] == ':' || s[j - 1] == ',' || (wide && (s[j - 1] == '：' || s[j - 1]
        == '，')))
        invariant
            j <= s.len(),
            trim_punct(s@, wide) == trim_punct(s@.take(j as int), wide),
        decreases j,
    {
        assert(s@.take(j as int).drop_last() =~= s@.take(j - 1));
        j -= 1;
    }
    string_of(vstd::slice::slice_subrange(s, 0, j))
}

/// Index of the first word equal to `from` in any letter case, or -1.
pub open spec fn from_index(ws: Seq<Seq<char>>) -> int
    decreases ws.len(),
{
    if ws.len() == 0 {
        -1
    } else if ascii_lower(ws[0]) == "from"@ {
        0
    } else {
        let r = from_index(ws.drop_first());
        if r < 0 {
            -1
        } else {
            r + 1
        }
    }
}

/// The piece after the first `来自`, up to the next one.
pub open spec fn after_laizi(line: Seq<char>) -> Seq<char> {
    let after = line.skip(seq_index(line, "来自"@) + "来自"@.len());
    if seq_index(after, "来自"@) >= 0 {
        after.take(seq_index(after, "来自"@))
    } else {
        after
    }
}

/// What one line says of the replying address: nothing (look further), or the
/// answer of the whole search (an address, or none).
pub open spec fn source_in_line(line: Seq<char>) -> Option<Option<Seq<char>>> {
    if seq_index(line, "来自"@) >= 0 {
        let ws = words(trim_start(after_laizi(line)));
        if ws.len() == 0 {
            Some(None)
        } else {
            Some(Some(trim_punct(ws[0], true)))
        }
    } else if !(contains_seq(ascii_lower(line), "bytes from"@) || contains_seq(
        ascii_lower(line),
        "reply from"@,
    )) {
        None
    } else {
        let ws = words(line);
        let j = from_index(ws);
        if 0 <= j && j + 1 < ws.len() {
            Some(Some(trim_punct(ws[j + 1], false)))
        } else {
            Some(None)
        }
    }
}

/// The replying address of the first line that names one.
pub open spec fn source_of(ls: Seq<Seq<char>>) -> Option<Seq<char>>
    decreases ls.len(),
{
    if ls.len() == 0 {
        None
    } else {
        match source_in_line(ls[0]) {
            Some(x) => x,
            None => source_of(ls.drop_first()),
        }
    }
}

fn from_index_exec(ws: &Vec<Vec<char>>) -> (r: Option<usize>)
    ensures
        from_index(views(ws@)) < 0 ==> r is None,
        from_index(views(ws@)) >= 0 ==> r == Some(from_index(views(ws@)) as usize) && from_index(
            views(ws@),
        ) < ws.len(),
{
    let ghost w = views(ws@);
    let mut i: usize = 0;
    assert(w.skip(0) =~= w);
    while i < ws.len()
        invariant
            w == views(ws@),
            i <= ws.len(),
            from_index(w) == if from_index(w.skip(i as int)) < 0 {
                -1
            } else {
                from_index(w.skip(i as int)) + i
            },
        decreases ws.len() - i,
    {
        assert(w.skip(i as int)[0] == ws@[i as int]@);
        assert(w.skip(i as int).drop_first() =~= w.skip(i + 1));
        let lower = ascii_lower_exec(ws[i].as_slice());
        if crate::text::eq_str(lower.as_slice(), "from") {
            return Some(i);
        }
        i += 1;
    }
    None
}

fn source_in_line_exec(line: &[char]) -> (r: Option<Option<String>>)
    ensures
        match source_in_line(line@) {
            None => r is None,
            Some(None) => r == Some(None::<String>),
            Some(Some(a)) => r matches Some(Some(x)) && x@ == a,
        },
{
    let laizi = to_chars("来自");
    match find_index(line, laizi.as_slice()) {
        Some(i) => {
            let plen = laizi.len();
            assert(i + plen <= line.len());
            let after = vstd::slice::slice_subrange(line, i + plen, line.len());
            assert(after@ =~= line@.skip(i + laizi@.len()));
            let rest = match find_index(after, laizi.as_slice()) {
                Some(k) => {
                    let r = vstd::slice::slice_subrange(after, 0, k);
                    assert(r@ =~= after@.take(k as int));
                    r
                },
                None => after,
            };
            let ws = words_all(trim_start_exec(rest));
            if ws.len() == 0 {
                Some(None)
            } else {
                assert(views(ws@)[0] == ws@[0]@);
                Some(Some(trim_punct_exec(ws[0].as_slice(), true)))
            }
        },
        None => {
            let lower = ascii_lower_exec(line);
            if !(contains_str(lower.as_slice(), "bytes from") || contains_str(
                lower.as_slice(),
                "reply from",
            )) {
                return None;
            }
            let ws = words_all(line);
            match from_index_exec(&ws) {
                Some(j) => {
                    if j + 1 < ws.len() {
                        assert(views(ws@)[j + 1] == ws@[j + 1]@);
                        Some(Some(trim_punct_exec(ws[j + 1].as_slice(), false)))
                    } else {
                        Some(None)
                    }
                },
                None => Some(None),
            }
        },
    }
}

/// The address that answered, as the ping output names it: after `来自`, or
/// the word after `from` on an English reply line.
pub fn parse_source(text: &str) -> (r: Option<String>)
    ensures
        match source_of(lines(text@)) {
            None => r is None,
            Some(a) => r matches Some(x) && x@ == a,
        },
{
    let chars = to_chars(text);
    let ls = lines_all(chars.as_slice());
    let ghost l = views(ls@);
    let mut i: usize = 0;
    assert(l.skip(0) =~= l);
    while i < ls.len()
        invariant
            l == views(ls@),
            l == lines(text@),
            i <= ls.len(),
            source_of(l) == source_of(l.skip(i as int)),
        decreases ls.len() - i,
    {
        assert(l.skip(i as int)[0] == ls@[i as int]@);
        assert(l.skip(i as int).drop_first() =~= l.skip(i + 1));
        match source_in_line_exec(ls[i].as_slice()) {
            Some(x) => return x,
            None => {},
        }
        i += 1;
    }
    None
}

// ---------------------------------------------------------------------------
// Error line
// ---------------------------------------------------------------------------

/// A line that explains a failed ping.
pub open spec fn is_error_line(line: Seq<char>) -> bool {
    let lower = ascii_lower(line);
    ||| contains_seq(lower, "timeout"@)
    ||| contains_seq(lower, "timed out"@)
    ||| contains_seq(lower, "unknown host"@)
    ||| contains_seq(lower, "unreachable"@)
    ||| contains_seq(lower, "cannot resolve"@)
    ||| contains_seq(lower, "not be resolved"@)
    ||| contains_seq(line, "请求超时"@)
    ||| contains_seq(line, "找不到主机"@)
    ||| contains_seq(line, "无法访问"@)
    ||| contains_seq(line, "传输失败"@)
}

pub open spec fn first_error_line(ls: Seq<Seq<char>>) -> Option<Seq<char>>
    decreases ls.len(),
{
    if ls.len() == 0 {
        None
    } else if is_error_line(ls[0]) {
        Some(ls[0])
    } else {
        first_error_line(ls.drop_first())
    }
}

pub open spec fn last_nonblank(ls: Seq<Seq<char>>) -> Option<Seq<char>>
    decreases ls.len(),
{
    if ls.len() == 0 {
        None
    } else if trim(ls.last()).len() > 0 {
        Some(ls.last())
    } else {
        last_nonblank(ls.drop_last())
    }
}

/// The error a failed ping reports: the first line naming a known failure,
/// else the last non-blank line, else `ping 失败`; trimmed.
pub open spec fn ping_error(text: Seq<char>) -> Seq<char> {
    match first_error_line(lines(text)) {
        Some(l) => trim(l),
        None => match last_nonblank(lines(text)) {
            Some(l) => trim(l),
            None => trim("ping 失败"@),
        },
    }
}

fn is_error_line_exec(line: &[char]) -> (r: bool)
    ensures
        r == is_error_line(line@),
{
    let lower = ascii_lower_exec(line);
    let lo = lower.as_slice();
    contains_str(lo, "timeout") || contains_str(lo, "timed out") || contains_str(lo, "unknown host")
        || contains_str(lo, "unreachable") || contains_str(lo, "cannot resolve") || contains_str(
        lo,
        "not be resolved",
    ) || contains_str(line, "请求超时") || contains_str(line, "找不到主机") || contains_str(
        line,
        "无法访问",
    ) || contains_str(line, "传输失败")
}

pub fn extract_error(text: &str) -> (r: String)
    ensures
        r@ == ping_error(text@),
{
    let chars = to_chars(text);
    let ls = lines_all(chars.as_slice());
    let ghost l = views(ls@);
    let mut i: usize = 0;
    assert(l.skip(0) =~= l);
    while i < ls.len()
        invariant
            l == views(ls@),
            l == lines(text@),
            i <= ls.len(),
            first_error_line(l) == first_error_line(l.skip(i as int)),
        decreases ls.len() - i,
    {
        assert(l.skip(i as int)[0] == ls@[i as int]@);
        assert(l.skip(i as int).drop_first() =~= l.skip(i + 1));
        if is_error_line_exec(ls[i].as_slice()) {
            return string_of(trim_exec(ls[i].as_slice()));
        }
        i += 1;
    }
    assert(l.skip(ls.len() as int) =~= Seq::<Seq<char>>::empty());
    let mut j = ls.len();
    assert(l.take(j as int) =~= l);
    while j > 0
        invariant
            l == views(ls@),
            l == lines(text@),
            first_error_line(l) is None,
            j <= ls.len(),
            last_nonblank(l) == last_nonblank(l.take(j as int)),
        decreases j,
    {
        assert(l.take(j as int).last() == ls@[j - 1]@);
        assert(l.take(j as int).drop_last() =~= l.take(j - 1));
        let t = trim_exec(ls[j - 1].as_slice());
        if t.len() > 0 {
            return string_of(t);
        }
        j -= 1;
    }
    let fallback = to_chars("ping 失败");
    string_of(trim_exec(fallback.as_slice()))
}

// ---------------------------------------------------------------------------
// Round-trip time
// ---------------------------------------------------------------------------

/// `u8::is_ascii_whitespace`.
pub open spec fn is_ascii_ws(c: char) -> bool {
    c == ' ' || c == '\t' || c == '\n' || c == '\x0C' || c == '\r'
}

pub open spec fn is_num_char(c: char) -> bool {
    is_digit(c) || c == '.'
}

/// First index at or after `j` that is not ASCII whitespace.
pub open spec fn skip_ascii_ws(s: Seq<char>, j: int) -> int
    decreases s.len() - j,
{
    if 0 <= j < s.len() && is_ascii_ws(s[j]) {
        skip_ascii_ws(s, j + 1)
    } else {
        j
    }
}

/// First index at or after `j` that is neither a digit nor a dot.
pub open spec fn skip_num(s: Seq<char>, j: int) -> int
    decreases s.len() - j,
{
    if 0 <= j < s.len() && is_num_char(s[j]) {
        skip_num(s, j + 1)
    } else {
        j
    }
}

/// The time at index `i` of a line: `=` or `<`, optional blanks, a number,
/// optional blanks, then `ms`. The number's text and whether it followed `<`.
pub open spec fn ms_at(s: Seq<char>, i: int) -> Option<(Seq<char>, bool)> {
    if 0 <= i < s.len() && (s[i] == '=' || s[i] == '<') {
        let j = skip_ascii_ws(s, i + 1);
        let e = skip_num(s, j);
        let k = skip_ascii_ws(s, e);
        if e > j && k + 1 < s.len() && s[k] == 'm' && s[k + 1] == 's' && crate::trace::float_syntax(
            s.subrange(j, e),
        ) {
            Some((s.subrange(j, e), s[i] == '<'))
        } else {
            None
        }
    } else {
        None
    }
}

/// The first time of the form `ms_at` found at or after index `i`.
pub open spec fn ms_from(s: Seq<char>, i: int) -> Option<(Seq<char>, bool)>
    decreases s.len() - i,
{
    if i < 0 || i >= s.len() {
        None
    } else {
        match ms_at(s, i) {
            Some(x) => Some(x),
            None => ms_from(s, i + 1),
        }
    }
}

/// The round-trip time of the first reply line that states one: its number
/// text and whether it was given as `<` (an upper bound).
pub open spec fn rtt_of(ls: Seq<Seq<char>>) -> Option<(Seq<char>, bool)>
    decreases ls.len(),
{
    if ls.len() == 0 {
        None
    } else if is_reply(ls[0]) && ms_from(ls[0], 0) is Some {
        ms_from(ls[0], 0)
    } else {
        rtt_of(ls.drop_first())
    }
}

fn is_ascii_ws_exec(c: char) -> (r: bool)
    ensures
        r == is_ascii_ws(c),
{
    c == ' ' || c == '\t' || c == '\n' || c == '\x0C' || c == '\r'
}

fn skip_ascii_ws_exec(s: &[char], j: usize) -> (r: usize)
    requires
        j <= s.len(),
    ensures
        r as int == skip_ascii_ws(s@, j as int),
        j <= r <= s.len(),
{
    let mut k = j;
    while k < s.len() && is_ascii_ws_exec(s[k])
        invariant
            j <= k <= s.len(),
            skip_ascii_ws(s@, j as int) == skip_ascii_ws(s@, k as int),
        decreases s.len() - k,
    {
        k += 1;
    }
    k
}

fn skip_num_exec(s: &[char], j: usize) -> (r: usize)
    requires
        j <= s.len(),
    ensures
        r as int == skip_num(s@, j as int),
        j <= r <= s.len(),
        forall|m: int| j <= m < r ==> is_num_char(#[trigger] s@[m]),
{
    let mut k = j;
    while k < s.len() && (('0' <= s[k] && s[k] <= '9') || s[k] == '.')
        invariant
            j <= k <= s.len(),
            skip_num(s@, j as int) == skip_num(s@, k as int),
            forall|m: int| j <= m < k ==> is_num_char(#[trigger] s@[m]),
        decreases s.len() - k,
    {
        k += 1;
    }
    k
}

fn ms_at_exec(s: &[char], i: usize) -> (r: Option<(Vec<char>, bool)>)
    requires
        i < s.len(),
    ensures
        match ms_at(s@, i as int) {
            None => r is None,
            Some((t, less)) => r matches Some((x, l)) && x@ == t && l == less,
        },
{
    if !(s[i] == '=' || s[i] == '<') {
        return None;
    }
    let j = skip_ascii_ws_exec(s, i + 1);
    let e = skip_num_exec(s, j);
    if e <= j {
        return None;
    }
    let k = skip_ascii_ws_exec(s, e);
    if s.len() > 0 && k < s.len() - 1 && s[k] == 'm' && s[k + 1] == 's' {
        let num = vstd::slice::slice_subrange(s, j, e);
        if crate::trace::is_float_text(num) {
            return Some((vstd::slice::slice_to_vec(num), s[i] == '<'));
        }
    }
    None
}

/// The first time stated on a line (`ms_from` from index 0).
pub fn find_ms_value(line: &[char]) -> (r: Option<(Vec<char>, bool)>)
    ensures
        match ms_from(line@, 0) {
            None => r is None,
            Some((t, less)) => r matches Some((x, l)) && x@ == t && l == less,
        },
{
    let mut i: usize = 0;
    while i < line.len()
        invariant
            i <= line.len(),
            ms_from(line@, 0) == ms_from(line@, i as int),
        decreases line.len() - i,
    {
        match ms_at_exec(line, i) {
            Some(x) => return Some(x),
            None => {},
        }
        i += 1;
    }
    None
}

/// The round-trip time that a ping output reports (`rtt_of` over its lines):
/// the text of the number (`law_ping_time` shows that `f64::from_str` accepts
/// it), and whether it was stated as an upper bound (`time<1ms`).
pub fn parse_rtt_text(text: &str) -> (r: Option<(String, bool)>)
    ensures
        match rtt_of(lines(text@)) {
            None => r is None,
            Some((t, less)) => r matches Some((x, l)) && x@ == t && l == less,
        },
{
    let chars = to_chars(text);
    let ls = lines_all(chars.as_slice());
    let ghost l = views(ls@);
    let mut i: usize = 0;
    assert(l.skip(0) =~= l);
    while i < ls.len()
        invariant
            l == views(ls@),
            l == lines(text@),
            i <= ls.len(),
            rtt_of(l) == rtt_of(l.skip(i as int)),
        decreases ls.len() - i,
    {
        assert(l.skip(i as int)[0] == ls@[i as int]@);
        assert(l.skip(i as int).drop_first() =~= l.skip(i + 1));
        if is_reply_line(ls[i].as_slice()) {
            match find_ms_value(ls[i].as_slice()) {
                Some((t, less)) => return Some((string_of(t.as_slice()), less)),
                None => {},
            }
        }
        i += 1;
    }
    None
}

// ---------------------------------------------------------------------------
// One ping run
// ---------------------------------------------------------------------------

/// What one ping run reports: the round trip (the text of its number and
/// whether it was an upper bound), the answering address, and on failure the
/// reason.
#[derive(Debug, Clone)]
pub struct PingOutcome {
    pub rtt: Option<(String, bool)>,
    pub from: String,
    pub error: Option<String>,
}

/// The output that is read: standard output, a line break, standard error.
pub open spec fn combined_output(stdout: Seq<char>, stderr: Seq<char>) -> Seq<char> {
    stdout + "\n"@ + stderr
}

/// Reads one ping run's output: a reply with a time is a success; otherwise
/// the failure text of `ping_error`. The answering address falls back to the
/// host asked for.
pub fn ping_outcome(stdout: &str, stderr: &str, host: &str) -> (r: PingOutcome)
    ensures
        ({
            let t = combined_output(stdout@, stderr@);
            &&& match rtt_of(lines(t)) {
                None => r.rtt is None && (r.error matches Some(e) && e@ == ping_error(t)),
                Some((n, less)) => (r.rtt matches Some((x, l)) && x@ == n && l == less) && r.error is None,
            }
            &&& r.from@ == match source_of(lines(t)) {
                Some(a) => a,
                None => host@,
            }
        }),
{
    let mut combined = String::from_str(stdout);
    combined.append("\n");
    combined.append(stderr);
    let rtt = parse_rtt_text(combined.as_str());
    let from = match parse_source(combined.as_str()) {
        Some(a) => a,
        None => String::from_str(host),
    };
    let error = match rtt {
        Some(_) => None,
        None => Some(extract_error(combined.as_str())),
    };
    PingOutcome { rtt, from, error }
}

/// How many whole seconds a command that counts its wait in seconds gets for a
/// timeout in milliseconds: rounded up, at least one.
pub fn wait_seconds(timeout_ms: u64) -> (r: u64)
    ensures
        r == (if timeout_ms <= 1000 {
            1
        } else {
            timeout_ms / 1000 + if timeout_ms % 1000 == 0 {
                0int
            } else {
                1int
            }
        }),
{
    let q = timeout_ms / 1000;
    let s = if timeout_ms % 1000 == 0 {
        q
    } else {
        q + 1
    };
    if s < 1 {
        1
    } else {
        s
    }
}

proof fn lemma_ms_from(s: Seq<char>, i: int)
    ensures
        ms_from(s, i) matches Some((t, _)) ==> crate::trace::float_syntax(t),
    decreases s.len() - i,
{
    if 0 <= i < s.len() && ms_at(s, i) is None {
        lemma_ms_from(s, i + 1);
    }
}

/// The time a ping output reports is the text of a number that
/// `f64::from_str` accepts.
pub proof fn law_ping_time(ls: Seq<Seq<char>>)
    ensures
        rtt_of(ls) matches Some((t, _)) ==> crate::trace::float_syntax(t),
    decreases ls.len(),
{
    if ls.len() > 0 {
        lemma_ms_from(ls[0], 0);
        law_ping_time(ls.drop_first());
    }
}

} // verus!
