//! Character-level text model: whitespace, trimming, searching and splitting
//! over `Seq<char>`, with executable counterparts on `&[char]`.

use vstd::prelude::*;

verus! {

/// The Unicode `White_Space` property, as `char::is_whitespace` defines it.
pub open spec fn is_ws(c: char) -> bool {
    ||| ('\t' <= c && c <= '\r')
    ||| c == ' '
    ||| c == '\u{85}'
    ||| c == '\u{a0}'
    ||| c == '\u{1680}'
    ||| ('\u{2000}' <= c && c <= '\u{200a}')
    ||| c == '\u{2028}'
    ||| c == '\u{2029}'
    ||| c == '\u{202f}'
    ||| c == '\u{205f}'
    ||| c == '\u{3000}'
}

pub fn is_ws_char(c: char) -> (r: bool)
    ensures
        r == is_ws(c),
{
    ('\t' <= c && c <= '\r') || c == ' ' || c == '\u{85}' || c == '\u{a0}' || c == '\u{1680}'
        || ('\u{2000}' <= c && c <= '\u{200a}') || c == '\u{2028}' || c == '\u{2029}' || c
        == '\u{202f}' || c == '\u{205f}' || c == '\u{3000}'
}

/// `str::trim_start`.
pub open spec fn trim_start(s: Seq<char>) -> Seq<char>
    decreases s.len(),
{
    if s.len() > 0 && is_ws(s[0]) {
        trim_start(s.drop_first())
    } else {
        s
    }
}

/// `str::trim_end`.
pub open spec fn trim_end(s: Seq<char>) -> Seq<char>
    decreases s.len(),
{
    if s.len() > 0 && is_ws(s.last()) {
        trim_end(s.drop_last())
    } else {
        s
    }
}

/// `str::trim`.
pub open spec fn trim(s: Seq<char>) -> Seq<char> {
    trim_end(trim_start(s))
}

/// Index of the first `c` in `s`, or -1.
pub open spec fn index_of(s: Seq<char>, c: char) -> int
    decreases s.len(),
{
    if s.len() == 0 {
        -1
    } else if s[0] == c {
        0
    } else {
        let r = index_of(s.drop_first(), c);
        if r < 0 {
            -1
        } else {
            r + 1
        }
    }
}

pub proof fn lemma_index_of(s: Seq<char>, c: char)
    ensures
        index_of(s, c) < 0 ==> index_of(s, c) == -1 && forall|i: int| 0 <= i < s.len() ==> s[i] != c,
        index_of(s, c) >= 0 ==> {
            &&& index_of(s, c) < s.len()
            &&& s[index_of(s, c)] == c
            &&& forall|j: int| 0 <= j < index_of(s, c) ==> s[j] != c
        },
    decreases s.len(),
{
    if s.len() > 0 && s[0] != c {
        lemma_index_of(s.drop_first(), c);
        let t = s.drop_first();
        assert forall|i: int| 0 < i < s.len() implies s[i] == t[i - 1] by {}
    }
}

/// `str::split_once` on a single character.
pub open spec fn split_once(s: Seq<char>, c: char) -> Option<(Seq<char>, Seq<char>)> {
    let i = index_of(s, c);
    if i < 0 {
        None
    } else {
        Some((s.take(i), s.skip(i + 1)))
    }
}

/// `str::split` on a single character: every piece between separators, empty ones included.
pub open spec fn split_char(s: Seq<char>, c: char) -> Seq<Seq<char>>
    decreases s.len(),
{
    let i = index_of(s, c);
    if i < 0 {
        seq![s]
    } else {
        proof {
            lemma_index_of(s, c);
        }
        seq![s.take(i)] + split_char(s.skip(i + 1), c)
    }
}

/// Whether `p` occurs in `s` as a contiguous piece.
pub open spec fn contains_seq(s: Seq<char>, p: Seq<char>) -> bool {
    exists|i: int| 0 <= i && i + p.len() <= s.len() && #[trigger] s.subrange(i, i + p.len()) == p
}

/// ASCII lower-casing of one character (`char::to_ascii_lowercase`).
pub open spec fn lower_char(c: char) -> char {
    if 'A' <= c && c <= 'Z' {
        ((c as u32) + 32) as char
    } else {
        c
    }
}

/// `str::to_ascii_lowercase`.
pub open spec fn ascii_lower(s: Seq<char>) -> Seq<char> {
    Seq::new(s.len(), |i: int| lower_char(s[i]))
}

/// ASCII upper-casing of one character (`char::to_ascii_uppercase`).
pub open spec fn upper_char(c: char) -> char {
    if 'a' <= c && c <= 'z' {
        ((c as u32) - 32) as char
    } else {
        c
    }
}

/// `str::to_ascii_uppercase`.
pub open spec fn ascii_upper(s: Seq<char>) -> Seq<char> {
    Seq::new(s.len(), |i: int| upper_char(s[i]))
}

/// The text of an optional string.
pub open spec fn opt_view(o: Option<String>) -> Option<Seq<char>> {
    match o {
        Some(s) => Some(s@),
        None => None,
    }
}

/// The texts of a sequence of strings.
pub open spec fn string_views(v: Seq<String>) -> Seq<Seq<char>> {
    v.map_values(|s: String| s@)
}

/// A copy of an optional string.
pub fn clone_opt(o: &Option<String>) -> (r: Option<String>)
    ensures
        opt_view(r) == opt_view(*o),
{
    match o {
        Some(s) => Some(s.clone()),
        None => None,
    }
}

/// Views of a sequence of character vectors.
pub open spec fn views(v: Seq<Vec<char>>) -> Seq<Seq<char>> {
    v.map_values(|x: Vec<char>| x@)
}

pub fn to_chars(s: &str) -> (r: Vec<char>)
    ensures
        r@ == s@,
{
    let mut out: Vec<char> = Vec::new();
    for c in it: s.chars()
        invariant
            out@ == it.seq().take(it.index() as int),
            it.seq() == s@,
    {
        out.push(c);
    }
    out
}

/// Appends one character to a string (`String::push`).
#[verifier::external_body]
fn push_char(s: &mut String, c: char)
    ensures
        final(s)@ == old(s)@.push(c),
{
    s.push(c);
}

pub fn append_chars(s: &mut String, cs: &[char])
    ensures
        final(s)@ == old(s)@ + cs@,
{
    let mut i: usize = 0;
    while i < cs.len()
        invariant
            i <= cs.len(),
            s@ == old(s)@ + cs@.take(i as int),
        decreases cs.len() - i,
    {
        push_char(s, cs[i]);
        assert(old(s)@ + cs@.take(i + 1) =~= old(s)@ + cs@.take(i as int) + seq![cs@[i as int]]);
        i += 1;
    }
    assert(cs@.take(cs.len() as int) =~= cs@);
}

pub fn string_of(cs: &[char]) -> (r: String)
    ensures
        r@ == cs@,
{
    let mut s = String::new();
    append_chars(&mut s, cs);
    assert(Seq::<char>::empty() + cs@ =~= cs@);
    s
}

/// `lit` followed by `cs`.
pub fn lit_then(lit: &str, cs: &[char]) -> (r: String)
    ensures
        r@ == lit@ + cs@,
{
    let mut s = String::from_str(lit);
    append_chars(&mut s, cs);
    s
}

pub fn copy_range(s: &[char], i: usize, j: usize) -> (r: Vec<char>)
    requires
        i <= j <= s.len(),
    ensures
        r@ == s@.subrange(i as int, j as int),
{
    vstd::slice::slice_to_vec(vstd::slice::slice_subrange(s, i, j))
}

pub fn eq_chars(a: &[char], b: &[char]) -> (r: bool)
    ensures
        r == (a@ == b@),
{
    if a.len() != b.len() {
        return false;
    }
    let mut i: usize = 0;
    while i < a.len()
        invariant
            a.len() == b.len(),
            i <= a.len(),
            forall|k: int| 0 <= k < i ==> a@[k] == b@[k],
        decreases a.len() - i,
    {
        if a[i] != b[i] {
            return false;
        }
        i += 1;
    }
    assert(a@ =~= b@);
    true
}

pub fn eq_str(a: &[char], b: &str) -> (r: bool)
    ensures
        r == (a@ == b@),
{
    let bc = to_chars(b);
    eq_chars(a, bc.as_slice())
}

/// Whether `p` occurs in `s` starting at index `i`.
pub fn matches_at(s: &[char], p: &[char], i: usize) -> (r: bool)
    requires
        i <= s.len(),
    ensures
        r == (i + p.len() <= s.len() && s@.subrange(i as int, i + p.len()) == p@),
{
    if p.len() > s.len() - i {
        return false;
    }
    let mut k: usize = 0;
    while k < p.len()
        invariant
            i + p.len() <= s.len(),
            k <= p.len(),
            forall|m: int| 0 <= m < k ==> s@[i + m] == p@[m],
        decreases p.len() - k,
    {
        if s[i + k] != p[k] {
            assert(s@.subrange(i as int, i + p.len())[k as int] != p@[k as int]);
            return false;
        }
        k += 1;
    }
    assert(s@.subrange(i as int, i + p.len()) =~= p@);
    true
}

pub fn starts_with(s: &[char], p: &[char]) -> (r: bool)
    ensures
        r == (p.len() <= s.len() && s@.take(p.len() as int) == p@),
{
    let r = matches_at(s, p, 0);
    assert(s@.subrange(0, p.len() as int) =~= s@.take(p.len() as int));
    r
}

pub fn starts_with_str(s: &[char], p: &str) -> (r: bool)
    ensures
        r == (p@.len() <= s@.len() && s@.take(p@.len() as int) == p@),
{
    let pc = to_chars(p);
    starts_with(s, pc.as_slice())
}

/// Position of the first occurrence of `p` in `s`, if any.
pub fn find_seq(s: &[char], p: &[char]) -> (r: Option<usize>)
    ensures
        r is None <==> !contains_seq(s@, p@),
        r matches Some(i) ==> {
            &&& i + p.len() <= s.len()
            &&& s@.subrange(i as int, i + p.len()) == p@
            &&& forall|j: int|
                0 <= j < i ==> #[trigger] s@.subrange(j, j + p.len()) != p@
        },
{
    if p.len() > s.len() {
        assert(!contains_seq(s@, p@));
        return None;
    }
    let last = s.len() - p.len();
    let mut i: usize = 0;
    while i < last
        invariant
            last == s.len() - p.len(),
            i <= last,
            forall|j: int| 0 <= j < i ==> #[trigger] s@.subrange(j, j + p.len()) != p@,
        decreases last - i,
    {
        if matches_at(s, p, i) {
            return Some(i);
        }
        i += 1;
    }
    if matches_at(s, p, last) {
        return Some(last);
    }
    assert(!contains_seq(s@, p@));
    None
}

pub fn contains_str(s: &[char], p: &str) -> (r: bool)
    ensures
        r == contains_seq(s@, p@),
{
    let pc = to_chars(p);
    find_seq(s, pc.as_slice()).is_some()
}

pub fn find_char(s: &[char], c: char) -> (r: Option<usize>)
    ensures
        index_of(s@, c) < 0 ==> r is None,
        index_of(s@, c) >= 0 ==> r == Some(index_of(s@, c) as usize),
{
    proof {
        lemma_index_of(s@, c);
    }
    let mut i: usize = 0;
    while i < s.len()
        invariant
            i <= s.len(),
            forall|j: int| 0 <= j < i ==> s@[j] != c,
        decreases s.len() - i,
    {
        proof {
            lemma_index_of(s@, c);
        }
        if s[i] == c {
            return Some(i);
        }
        i += 1;
    }
    None
}

/// Splits at the first `c`, as `str::split_once`.
pub fn split_once_exec(s: &[char], c: char) -> (r: Option<(&[char], &[char])>)
    ensures
        match split_once(s@, c) {
            None => r is None,
            Some((a, b)) => r matches Some((x, y)) && x@ == a && y@ == b,
        },
{
    proof {
        lemma_index_of(s@, c);
    }
    match find_char(s, c) {
        None => None,
        Some(i) => {
            assert(i < s.len());
            let a = vstd::slice::slice_subrange(s, 0, i);
            let b = vstd::slice::slice_subrange(s, i + 1, s.len());
            assert(a@ =~= s@.take(i as int));
            assert(b@ =~= s@.skip(i + 1));
            Some((a, b))
        },
    }
}

pub proof fn lemma_trim_start_step(s: Seq<char>, i: int)
    requires
        0 <= i < s.len(),
        is_ws(s[i]),
    ensures
        trim_start(s.skip(i)) == trim_start(s.skip(i + 1)),
{
    assert(s.skip(i).drop_first() =~= s.skip(i + 1));
}

pub proof fn lemma_trim_end_step(s: Seq<char>, j: int)
    requires
        0 < j <= s.len(),
        is_ws(s[j - 1]),
    ensures
        trim_end(s.take(j)) == trim_end(s.take(j - 1)),
{
    assert(s.take(j).drop_last() =~= s.take(j - 1));
}

/// Index of the first non-whitespace character.
pub fn trim_start_index(s: &[char]) -> (r: usize)
    ensures
        r <= s.len(),
        trim_start(s@) == s@.skip(r as int),
{
    let mut i: usize = 0;
    assert(s@.skip(0) =~= s@);
    while i < s.len() && is_ws_char(s[i])
        invariant
            i <= s.len(),
            trim_start(s@) == trim_start(s@.skip(i as int)),
        decreases s.len() - i,
    {
        proof {
            lemma_trim_start_step(s@, i as int);
        }
        i += 1;
    }
    proof {
        r_final_start(s@, i as int);
    }
    i
}

proof fn r_final_start(s: Seq<char>, i: int)
    requires
        0 <= i <= s.len(),
        i == s.len() || !is_ws(s[i]),
    ensures
        trim_start(s.skip(i)) == s.skip(i),
{
}

/// Length of the prefix kept by `trim_end`.
pub fn trim_end_index(s: &[char]) -> (r: usize)
    ensures
        r <= s.len(),
        trim_end(s@) == s@.take(r as int),
{
    let mut j: usize = s.len();
    assert(s@.take(s.len() as int) =~= s@);
    while j > 0 && is_ws_char(s[j - 1])
        invariant
            j <= s.len(),
            trim_end(s@) == trim_end(s@.take(j as int)),
        decreases j,
    {
        proof {
            lemma_trim_end_step(s@, j as int);
        }
        j -= 1;
    }
    j
}

pub fn trim_exec(s: &[char]) -> (r: &[char])
    ensures
        r@ == trim(s@),
{
    let a = trim_start_index(s);
    let t = vstd::slice::slice_subrange(s, a, s.len());
    assert(t@ =~= s@.skip(a as int));
    let b = trim_end_index(t);
    let u = vstd::slice::slice_subrange(t, 0, b);
    assert(u@ =~= t@.take(b as int));
    u
}

pub fn trim_start_exec(s: &[char]) -> (r: &[char])
    ensures
        r@ == trim_start(s@),
{
    let a = trim_start_index(s);
    let t = vstd::slice::slice_subrange(s, a, s.len());
    assert(t@ =~= s@.skip(a as int));
    t
}

pub fn lower_char_exec(c: char) -> (r: char)
    ensures
        r == lower_char(c),
{
    if 'A' <= c && c <= 'Z' {
        let u = (c as u8) + 32;
        u as char
    } else {
        c
    }
}

pub fn upper_char_exec(c: char) -> (r: char)
    ensures
        r == upper_char(c),
{
    if 'a' <= c && c <= 'z' {
        let u = (c as u8) - 32;
        u as char
    } else {
        c
    }
}

pub fn ascii_upper_exec(s: &[char]) -> (r: Vec<char>)
    ensures
        r@ == ascii_upper(s@),
{
    let mut out: Vec<char> = Vec::new();
    let mut i: usize = 0;
    while i < s.len()
        invariant
            i <= s.len(),
            out@ == ascii_upper(s@).take(i as int),
        decreases s.len() - i,
    {
        out.push(upper_char_exec(s[i]));
        assert(out@ =~= ascii_upper(s@).take(i + 1));
        i += 1;
    }
    assert(out@ =~= ascii_upper(s@));
    out
}

pub fn ascii_lower_exec(s: &[char]) -> (r: Vec<char>)
    ensures
        r@ == ascii_lower(s@),
{
    let mut out: Vec<char> = Vec::new();
    let mut i: usize = 0;
    while i < s.len()
        invariant
            i <= s.len(),
            out@ == ascii_lower(s@).take(i as int),
        decreases s.len() - i,
    {
        out.push(lower_char_exec(s[i]));
        assert(out@ =~= ascii_lower(s@).take(i + 1));
        i += 1;
    }
    assert(out@ =~= ascii_lower(s@));
    out
}


/// All pieces of `s` between occurrences of `c` (`split_char` in the model).
pub fn split_all(s: &[char], c: char) -> (r: Vec<Vec<char>>)
    ensures
        views(r@) == split_char(s@, c),
{
    let mut out: Vec<Vec<char>> = Vec::new();
    let mut start: usize = 0;
    assert(s@.skip(0) =~= s@);
    assert(views(out@) + split_char(s@, c) =~= split_char(s@, c));
    loop
        invariant_except_break
            split_char(s@, c) == views(out@) + split_char(s@.skip(start as int), c),
        invariant
            start <= s.len(),
        ensures
            split_char(s@, c) == views(out@),
        decreases s.len() - start,
    {
        let rest = vstd::slice::slice_subrange(s, start, s.len());
        assert(rest@ =~= s@.skip(start as int));
        proof {
            lemma_index_of(rest@, c);
        }
        let ghost before = views(out@);
        match find_char(rest, c) {
            Some(k) => {
                let piece = copy_range(rest, 0, k);
                out.push(piece);
                proof {
                    assert(rest@.skip(k + 1) =~= s@.skip(start + k + 1));
                    assert(views(out@) =~= before.push(rest@.take(k as int)));
                    let tail = split_char(s@.skip(start + k + 1), c);
                    assert(before + (seq![rest@.take(k as int)] + tail) =~= views(out@) + tail);
                }
                start = start + k + 1;
            },
            None => {
                let piece = copy_range(rest, 0, rest.len());
                out.push(piece);
                proof {
                    assert(rest@.subrange(0, rest@.len() as int) =~= rest@);
                    assert(views(out@) =~= before + seq![rest@]);
                }
                break;
            },
        }
    }
    out
}


/// One more element of a prefix passes through a filter or not.
pub proof fn lemma_filter_step<A>(s: Seq<A>, i: int, pred: spec_fn(A) -> bool)
    requires
        0 <= i < s.len(),
    ensures
        s.take(i + 1).filter(pred) == if pred(s[i]) {
            s.take(i).filter(pred).push(s[i])
        } else {
            s.take(i).filter(pred)
        },
{
    reveal_with_fuel(Seq::<_>::filter, 1);
    assert(s.take(i + 1).drop_last() =~= s.take(i));
    assert(s.take(i + 1).last() == s[i]);
}


/// An element that a filter keeps comes from the filtered sequence and passes the filter.
pub proof fn lemma_filter_member<A>(s: Seq<A>, pred: spec_fn(A) -> bool, k: int)
    requires
        0 <= k < s.filter(pred).len(),
    ensures
        s.contains(s.filter(pred)[k]),
        pred(s.filter(pred)[k]),
{
    broadcast use vstd::seq_lib::group_filter_ensures;
    assert(s.filter(pred).contains(s.filter(pred)[k]));
    s.lemma_filter_contains_rev(pred, s.filter(pred)[k]);
}

/// A line without its `\r`, when it ended in `\r\n`.
pub open spec fn strip_cr(l: Seq<char>) -> Seq<char> {
    if l.len() > 0 && l.last() == '\r' {
        l.drop_last()
    } else {
        l
    }
}

/// `str::lines`: pieces ended by `\n` (a `\r` before it is dropped); a final
/// piece without `\n` is kept as it is; no piece after a final `\n`.
pub open spec fn lines(s: Seq<char>) -> Seq<Seq<char>>
    decreases s.len(),
{
    if s.len() == 0 {
        seq![]
    } else {
        let i = index_of(s, '\n');
        if i < 0 {
            seq![s]
        } else {
            proof {
                lemma_index_of(s, '\n');
            }
            seq![strip_cr(s.take(i))] + lines(s.skip(i + 1))
        }
    }
}

/// Index of the first whitespace character, or the length when there is none.
pub open spec fn ws_index(s: Seq<char>) -> int
    decreases s.len(),
{
    if s.len() == 0 {
        0
    } else if is_ws(s[0]) {
        0
    } else {
        ws_index(s.drop_first()) + 1
    }
}

pub proof fn lemma_ws_index(s: Seq<char>)
    ensures
        0 <= ws_index(s) <= s.len(),
        forall|j: int| 0 <= j < ws_index(s) ==> !is_ws(s[j]),
        ws_index(s) < s.len() ==> is_ws(s[ws_index(s)]),
    decreases s.len(),
{
    if s.len() > 0 && !is_ws(s[0]) {
        lemma_ws_index(s.drop_first());
        assert forall|j: int| 0 < j < ws_index(s) implies !is_ws(s[j]) by {
            assert(s[j] == s.drop_first()[j - 1]);
        }
    }
}

pub proof fn lemma_trim_start_len(s: Seq<char>)
    ensures
        trim_start(s).len() <= s.len(),
        trim_start(s).len() > 0 ==> !is_ws(trim_start(s)[0]),
        exists|k: int| 0 <= k <= s.len() && trim_start(s) == s.skip(k),
    decreases s.len(),
{
    if s.len() > 0 && is_ws(s[0]) {
        lemma_trim_start_len(s.drop_first());
        let k = choose|k: int| 0 <= k <= s.drop_first().len() && trim_start(s.drop_first()) == s.drop_first().skip(k);
        assert(s.drop_first().skip(k) =~= s.skip(k + 1));
    } else {
        assert(s.skip(0) =~= s);
    }
}

/// `str::split_whitespace`: the maximal runs of non-whitespace characters.
pub open spec fn words(s: Seq<char>) -> Seq<Seq<char>>
    decreases s.len(),
{
    let t = trim_start(s);
    if t.len() == 0 {
        seq![]
    } else {
        proof {
            lemma_trim_start_len(s);
            lemma_ws_index(t);
        }
        let k = ws_index(t);
        seq![t.take(k)] + words(t.skip(k))
    }
}

pub proof fn lemma_lines_step(rest: Seq<char>)
    ensures
        rest.len() == 0 ==> lines(rest) == Seq::<Seq<char>>::empty(),
        rest.len() > 0 && index_of(rest, '\n') >= 0 ==> lines(rest) == seq![
            strip_cr(rest.take(index_of(rest, '\n'))),
        ] + lines(rest.skip(index_of(rest, '\n') + 1)),
        rest.len() > 0 && index_of(rest, '\n') < 0 ==> lines(rest) == seq![rest],
{
}

fn strip_cr_exec(l: &[char]) -> (r: &[char])
    ensures
        r@ == strip_cr(l@),
{
    if l.len() > 0 && l[l.len() - 1] == '\r' {
        let r = vstd::slice::slice_subrange(l, 0, l.len() - 1);
        assert(r@ =~= l@.drop_last());
        r
    } else {
        l
    }
}

/// The lines of a text (`lines` in the model).
pub fn lines_all(s: &[char]) -> (r: Vec<Vec<char>>)
    ensures
        views(r@) == lines(s@),
{
    let mut out: Vec<Vec<char>> = Vec::new();
    let mut start: usize = 0;
    assert(s@.skip(0) =~= s@);
    assert(views(out@) + lines(s@) =~= lines(s@));
    while start < s.len()
        invariant
            start <= s.len(),
            lines(s@) == views(out@) + lines(s@.skip(start as int)),
        decreases s.len() - start,
    {
        let rest = vstd::slice::slice_subrange(s, start, s.len());
        assert(rest@ =~= s@.skip(start as int));
        proof {
            lemma_index_of(rest@, '\n');
            lemma_lines_step(rest@);
        }
        let ghost before = views(out@);
        match find_char(rest, '\n') {
            Some(k) => {
                let head = vstd::slice::slice_subrange(rest, 0, k);
                assert(head@ =~= rest@.take(k as int));
                let piece = strip_cr_exec(head);
                out.push(vstd::slice::slice_to_vec(piece));
                proof {
                    assert(rest@.skip(k + 1) =~= s@.skip(start + k + 1));
                    let tail = lines(s@.skip(start + k + 1));
                    assert(views(out@) =~= before.push(strip_cr(rest@.take(k as int))));
                    assert(before + (seq![strip_cr(rest@.take(k as int))] + tail) =~= views(out@) + tail);
                }
                start = start + k + 1;
            },
            None => {
                out.push(vstd::slice::slice_to_vec(rest));
                proof {
                    assert(s@.skip(s.len() as int) =~= Seq::<char>::empty());
                    lemma_lines_step(s@.skip(s.len() as int));
                    assert(views(out@) =~= before.push(rest@));
                    assert(before + seq![rest@] =~= views(out@) + Seq::<Seq<char>>::empty());
                }
                start = s.len();
            },
        }
    }
    proof {
        assert(s@.skip(s.len() as int) =~= Seq::<char>::empty());
        lemma_lines_step(s@.skip(s.len() as int));
        assert(views(out@) + Seq::<Seq<char>>::empty() =~= views(out@));
    }
    out
}

proof fn lemma_words_ws(s: Seq<char>, i: int)
    requires
        0 <= i < s.len(),
        is_ws(s[i]),
    ensures
        words(s.skip(i)) == words(s.skip(i + 1)),
{
    lemma_trim_start_step(s, i);
}

proof fn lemma_words_run(s: Seq<char>, i: int, j: int)
    requires
        0 <= i < j <= s.len(),
        forall|m: int| i <= m < j ==> !is_ws(#[trigger] s[m]),
        j == s.len() || is_ws(s[j]),
    ensures
        words(s.skip(i)) == seq![s.subrange(i, j)] + words(s.skip(j)),
{
    let t = s.skip(i);
    assert(trim_start(t) == t);
    lemma_ws_index(t);
    let k = ws_index(t);
    assert forall|m: int| 0 <= m < j - i implies !is_ws(t[m]) by {
        assert(t[m] == s[i + m]);
    }
    if j < s.len() {
        assert(t[j - i] == s[j]);
    }
    assert(k == j - i);
    assert(t.take(k) =~= s.subrange(i, j));
    assert(t.skip(k) =~= s.skip(j));
}

/// The whitespace-separated words of a text (`words` in the model).
pub fn words_all(s: &[char]) -> (r: Vec<Vec<char>>)
    ensures
        views(r@) == words(s@),
{
    let mut out: Vec<Vec<char>> = Vec::new();
    let mut i: usize = 0;
    assert(s@.skip(0) =~= s@);
    assert(views(out@) + words(s@) =~= words(s@));
    while i < s.len()
        invariant
            i <= s.len(),
            words(s@) == views(out@) + words(s@.skip(i as int)),
        decreases s.len() - i,
    {
        if is_ws_char(s[i]) {
            proof {
                lemma_words_ws(s@, i as int);
            }
            i += 1;
        } else {
            let mut j = i + 1;
            while j < s.len() && !is_ws_char(s[j])
                invariant
                    i < j <= s.len(),
                    forall|m: int| i <= m < j ==> !is_ws(#[trigger] s@[m]),
                decreases s.len() - j,
            {
                j += 1;
            }
            proof {
                lemma_words_run(s@, i as int, j as int);
            }
            let ghost before = views(out@);
            out.push(copy_range(s, i, j));
            proof {
                assert(views(out@) =~= before.push(s@.subrange(i as int, j as int)));
                let tail = words(s@.skip(j as int));
                assert(before + (seq![s@.subrange(i as int, j as int)] + tail) =~= views(out@) + tail);
            }
            i = j;
        }
    }
    proof {
        assert(s@.skip(s.len() as int) =~= Seq::<char>::empty());
        assert(trim_start(Seq::<char>::empty()) =~= Seq::<char>::empty());
        assert(views(out@) + Seq::<Seq<char>>::empty() =~= views(out@));
    }
    out
}


/// `i` is where `p` first occurs in `s`.
pub open spec fn is_first_match(s: Seq<char>, p: Seq<char>, i: int) -> bool {
    &&& 0 <= i
    &&& i + p.len() <= s.len()
    &&& s.subrange(i, i + p.len()) == p
    &&& forall|j: int| 0 <= j < i ==> #[trigger] s.subrange(j, j + p.len()) != p
}

/// Index of the first occurrence of `p` in `s` (`str::find`), or -1.
pub open spec fn seq_index(s: Seq<char>, p: Seq<char>) -> int {
    if exists|i: int| is_first_match(s, p, i) {
        choose|i: int| is_first_match(s, p, i)
    } else {
        -1
    }
}

pub proof fn lemma_first_match_unique(s: Seq<char>, p: Seq<char>, i: int)
    requires
        is_first_match(s, p, i),
    ensures
        seq_index(s, p) == i,
{
    let k = choose|k: int| is_first_match(s, p, k);
    if k < i {
        assert(s.subrange(k, k + p.len()) != p);
    } else if k > i {
        assert(s.subrange(i, i + p.len()) != p);
    }
}

/// Position of the first occurrence of `p` (`seq_index` in the model).
pub fn find_index(s: &[char], p: &[char]) -> (r: Option<usize>)
    ensures
        seq_index(s@, p@) < 0 ==> r is None,
        seq_index(s@, p@) >= 0 ==> r == Some(seq_index(s@, p@) as usize) && seq_index(s@, p@) + p@.len()
            <= s@.len(),
{
    match find_seq(s, p) {
        Some(i) => {
            proof {
                assert(is_first_match(s@, p@, i as int));
                lemma_first_match_unique(s@, p@, i as int);
            }
            Some(i)
        },
        None => {
            proof {
                if exists|i: int| is_first_match(s@, p@, i) {
                    let k = choose|i: int| is_first_match(s@, p@, i);
                    assert(s@.subrange(k, k + p@.len()) == p@);
                    assert(contains_seq(s@, p@));
                }
            }
            None
        },
    }
}

} // verus!
