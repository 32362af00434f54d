//! The expression grammar of code templates: `{{ $name | pipe ... }}` placeholders and
//! `{{ with $name }} ... {{ end }}` blocks, scanned left to right.
use vstd::prelude::*;
use crate::pipes::{apply_pipe, pipe_result};
use crate::text::{append_all, append_range, append_str};

verus! {

/// Whitespace: the Unicode `White_Space` characters.
pub open spec fn is_ws(c: char) -> bool {
    let u = c as u32;
    (0x09 <= u <= 0x0D) || u == 0x20 || u == 0x85 || u == 0xA0 || u == 0x1680 || (0x2000 <= u <= 0x200A)
        || u == 0x2028 || u == 0x2029 || u == 0x202F || u == 0x205F || u == 0x3000
}

/// Whether std counts `c` as alphanumeric: a Unicode letter or number.
pub uninterp spec fn alphanumeric(c: char) -> bool;

/// A character of a pipe name: a letter, a number or an underscore.
pub open spec fn is_word(c: char) -> bool {
    alphanumeric(c) || c == '_'
}

/// The first index at or after `i` that holds no whitespace.
pub open spec fn skip_ws(t: Seq<char>, i: int) -> int
    decreases t.len() - i,
{
    if 0 <= i < t.len() && is_ws(t[i]) {
        skip_ws(t, i + 1)
    } else {
        i
    }
}

/// Whether `s` stands in `t` at index `i`.
pub open spec fn has_at(t: Seq<char>, i: int, s: Seq<char>) -> bool {
    0 <= i && i + s.len() <= t.len() && t.subrange(i, i + s.len()) == s
}

/// Where the scanner stands inside the pipe chain of a placeholder.
#[derive(Clone, Copy, PartialEq, Eq, Structural)]
pub enum Lex {
    /// Before the first `|`.
    Start,
    /// After a `|`, before its name.
    Bar,
    /// Inside a pipe name.
    Word,
    /// After a pipe name, before the next `|` or the closing braces.
    Gap,
}

/// The value after the pipe whose name the scanner has just finished reading, if any.
pub open spec fn finish_pipe(t: Seq<char>, st: Lex, w0: int, w1: int, k: int, val: Seq<char>) -> Seq<char> {
    match st {
        Lex::Word => pipe_result(t.subrange(w0, k), val),
        Lex::Gap => pipe_result(t.subrange(w0, w1), val),
        _ => val,
    }
}

/**
Scans the pipe chain `(| name)*` of a placeholder from index `k` up to its closing `}}`,
applying each named pipe to `val` in turn. Gives the index after `}}` and the final value,
or `None` where the text is no pipe chain.
*/
pub open spec fn pipes_scan(t: Seq<char>, k: int, st: Lex, w0: int, w1: int, val: Seq<char>) -> Option<(int, Seq<char>)>
    decreases t.len() - k,
{
    if k < 0 || k >= t.len() {
        None
    } else {
        let c = t[k];
        if c == '}' {
            if has_at(t, k, "}}"@) {
                Some((k + 2, finish_pipe(t, st, w0, w1, k, val)))
            } else {
                None
            }
        } else if c == '|' {
            pipes_scan(t, k + 1, Lex::Bar, 0, 0, finish_pipe(t, st, w0, w1, k, val))
        } else if is_ws(c) {
            if st == Lex::Word {
                pipes_scan(t, k + 1, Lex::Gap, w0, k, val)
            } else {
                pipes_scan(t, k + 1, st, w0, w1, val)
            }
        } else if is_word(c) {
            if st == Lex::Bar {
                pipes_scan(t, k + 1, Lex::Word, k, 0, val)
            } else if st == Lex::Word {
                pipes_scan(t, k + 1, Lex::Word, w0, w1, val)
            } else {
                None
            }
        } else {
            None
        }
    }
}

/**
A placeholder `{{ $name | pipe ... }}` that starts at `i`: the index after it and what it
stands for when `name` has the value `v`.
*/
pub open spec fn placeholder_at(t: Seq<char>, i: int, name: Seq<char>, v: Seq<char>) -> Option<(int, Seq<char>)> {
    if has_at(t, i, "{{"@) {
        let j = skip_ws(t, i + 2);
        if has_at(t, j, "$"@ + name) {
            pipes_scan(t, skip_ws(t, j + 1 + name.len()), Lex::Start, 0, 0, v)
        } else {
            None
        }
    } else {
        None
    }
}

proof fn lemma_pipes_scan_advances(t: Seq<char>, k: int, st: Lex, w0: int, w1: int, val: Seq<char>)
    ensures
        pipes_scan(t, k, st, w0, w1, val) matches Some((e, _)) ==> k < e <= t.len(),
    decreases t.len() - k,
{
    reveal_strlit("}}");
    if 0 <= k < t.len() {
        let c = t[k];
        if c == '|' {
            lemma_pipes_scan_advances(t, k + 1, Lex::Bar, 0, 0, finish_pipe(t, st, w0, w1, k, val));
        } else if is_ws(c) {
            if st == Lex::Word {
                lemma_pipes_scan_advances(t, k + 1, Lex::Gap, w0, k, val);
            } else {
                lemma_pipes_scan_advances(t, k + 1, st, w0, w1, val);
            }
        } else if is_word(c) {
            if st == Lex::Bar {
                lemma_pipes_scan_advances(t, k + 1, Lex::Word, k, 0, val);
            } else if st == Lex::Word {
                lemma_pipes_scan_advances(t, k + 1, Lex::Word, w0, w1, val);
            }
        }
    }
}

pub(crate) proof fn lemma_skip_ws_ge(t: Seq<char>, i: int)
    ensures
        skip_ws(t, i) >= i,
        0 <= i <= t.len() ==> skip_ws(t, i) <= t.len(),
        0 <= i ==> (skip_ws(t, i) < t.len() ==> !is_ws(t[skip_ws(t, i)])),
        forall|j: int| i <= j < skip_ws(t, i) ==> is_ws(t[j]),
    decreases t.len() - i,
{
    if 0 <= i < t.len() && is_ws(t[i]) {
        lemma_skip_ws_ge(t, i + 1);
    }
}

proof fn lemma_placeholder_advances(t: Seq<char>, i: int, name: Seq<char>, v: Seq<char>)
    ensures
        placeholder_at(t, i, name, v) matches Some((e, _)) ==> i < e <= t.len(),
{
    if has_at(t, i, "{{"@) {
        let j = skip_ws(t, i + 2);
        lemma_skip_ws_ge(t, i + 2);
        lemma_skip_ws_ge(t, j + 1 + name.len());
        lemma_pipes_scan_advances(t, skip_ws(t, j + 1 + name.len()), Lex::Start, 0, 0, v);
    }
}

/// `t` from index `i` on with every placeholder of `name` replaced, appended to `out`.
pub open spec fn fill_scan(t: Seq<char>, i: int, name: Seq<char>, v: Seq<char>, out: Seq<char>) -> Seq<char>
    decreases t.len() - i via fill_scan_decreases
{
    if i < 0 || i >= t.len() {
        out
    } else {
        match placeholder_at(t, i, name, v) {
            Some((e, r)) => fill_scan(t, e, name, v, out + r),
            None => fill_scan(t, i + 1, name, v, out.push(t[i])),
        }
    }
}

#[via_fn]
proof fn fill_scan_decreases(t: Seq<char>, i: int, name: Seq<char>, v: Seq<char>, out: Seq<char>) {
    lemma_placeholder_advances(t, i, name, v);
}

/// `t` with every placeholder of parameter `name` replaced by the value `v` passed through its pipes.
pub open spec fn fill(t: Seq<char>, name: Seq<char>, v: Seq<char>) -> Seq<char> {
    fill_scan(t, 0, name, v, Seq::empty())
}

/// Where the opening `{{ with $name }}` that starts at `i` ends.
pub open spec fn with_open_at(t: Seq<char>, i: int, name: Seq<char>) -> Option<int> {
    if has_at(t, i, "{{"@) {
        let a = skip_ws(t, i + 2);
        if has_at(t, a, "with"@) {
            let b = skip_ws(t, a + 4);
            if has_at(t, b, "$"@ + name) {
                let c = skip_ws(t, b + 1 + name.len());
                if has_at(t, c, "}}"@) {
                    Some(c + 2)
                } else {
                    None
                }
            } else {
                None
            }
        } else {
            None
        }
    } else {
        None
    }
}

/// Where the closing `{{ end }}` that starts at `j` ends.
pub open spec fn end_marker_at(t: Seq<char>, j: int) -> Option<int> {
    if has_at(t, j, "{{"@) {
        let a = skip_ws(t, j + 2);
        if has_at(t, a, "end"@) {
            let b = skip_ws(t, a + 3);
            if has_at(t, b, "}}"@) {
                Some(b + 2)
            } else {
                None
            }
        } else {
            None
        }
    } else {
        None
    }
}

/**
The first closing marker at or after `e`, allowing one whitespace character before it:
the index where the block's inner text ends and the index after the marker.
*/
pub open spec fn close_scan(t: Seq<char>, e: int) -> Option<(int, int)>
    decreases t.len() - e,
{
    if e < 0 || e >= t.len() {
        None
    } else if is_ws(t[e]) && end_marker_at(t, e + 1) is Some {
        Some((e, end_marker_at(t, e + 1)->0))
    } else if end_marker_at(t, e) is Some {
        Some((e, end_marker_at(t, e)->0))
    } else {
        close_scan(t, e + 1)
    }
}

/**
A block `{{ with $name }} inner {{ end }}` that starts at `i`: where its inner text starts and
ends and where the block ends. One whitespace character next to each marker belongs to the
markers, and the block closes at the first closing marker.
*/
pub open spec fn with_block_at(t: Seq<char>, i: int, name: Seq<char>) -> Option<(int, int, int)> {
    match with_open_at(t, i, name) {
        Some(p) => {
            let s = if p < t.len() && is_ws(t[p]) {
                p + 1
            } else {
                p
            };
            match close_scan(t, s) {
                Some((e, be)) => Some((s, e, be)),
                None => None,
            }
        },
        None => None,
    }
}

/// `s` from index `i` on with each `from` replaced by `to`, left to right, appended to `out`.
pub open spec fn replace_scan(s: Seq<char>, i: int, from: Seq<char>, to: Seq<char>, out: Seq<char>) -> Seq<char>
    decreases s.len() - i,
{
    if i < 0 || i >= s.len() {
        out
    } else if from.len() > 0 && has_at(s, i, from) {
        replace_scan(s, i + from.len(), from, to, out + to)
    } else {
        replace_scan(s, i + 1, from, to, out.push(s[i]))
    }
}

/// `s` with every occurrence of `from` replaced by `to`.
pub open spec fn replace_all(s: Seq<char>, from: Seq<char>, to: Seq<char>) -> Seq<char> {
    replace_scan(s, 0, from, to, Seq::empty())
}

/// The inner text of a kept block: `{{ . ` (the current value) becomes `{{ $name `.
pub open spec fn bind_current(inner: Seq<char>, name: Seq<char>) -> Seq<char> {
    replace_all(inner, "{{ . "@, "{{ $"@ + name + " "@)
}

proof fn lemma_close_scan_bounds(t: Seq<char>, e: int)
    ensures
        close_scan(t, e) matches Some((x, be)) ==> 0 <= e <= x < be <= t.len(),
    decreases t.len() - e,
{
    reveal_strlit("{{");
    reveal_strlit("}}");
    reveal_strlit("end");
    if 0 <= e < t.len() {
        lemma_skip_ws_ge(t, e + 3);
        lemma_skip_ws_ge(t, e + 2);
        let a = skip_ws(t, e + 2);
        lemma_skip_ws_ge(t, a + 3);
        let a1 = skip_ws(t, e + 3);
        lemma_skip_ws_ge(t, a1 + 3);
        lemma_close_scan_bounds(t, e + 1);
    }
}

proof fn lemma_with_block_bounds(t: Seq<char>, i: int, name: Seq<char>)
    ensures
        with_block_at(t, i, name) matches Some((s, e, be)) ==> 0 <= i < s <= e < be <= t.len(),
{
    reveal_strlit("{{");
    reveal_strlit("}}");
    reveal_strlit("with");
    reveal_strlit("$");
    if let Some(p) = with_open_at(t, i, name) {
        lemma_skip_ws_ge(t, i + 2);
        let a = skip_ws(t, i + 2);
        lemma_skip_ws_ge(t, a + 4);
        let b = skip_ws(t, a + 4);
        lemma_skip_ws_ge(t, b + 1 + name.len());
        let s = if p < t.len() && is_ws(t[p]) {
            p + 1
        } else {
            p
        };
        lemma_close_scan_bounds(t, s);
    }
}

/**
`t` from index `i` on, appended to `out`, with each block of `name` replaced by its inner text
(where `keep`) or removed.
*/
pub open spec fn blocks_scan(t: Seq<char>, i: int, name: Seq<char>, keep: bool, out: Seq<char>) -> Seq<char>
    decreases t.len() - i via blocks_scan_decreases
{
    if i < 0 || i >= t.len() {
        out
    } else {
        match with_block_at(t, i, name) {
            Some((s, e, be)) => blocks_scan(
                t,
                be,
                name,
                keep,
                if keep {
                    out + bind_current(t.subrange(s, e), name)
                } else {
                    out
                },
            ),
            None => blocks_scan(t, i + 1, name, keep, out.push(t[i])),
        }
    }
}

#[via_fn]
proof fn blocks_scan_decreases(t: Seq<char>, i: int, name: Seq<char>, keep: bool, out: Seq<char>) {
    lemma_with_block_bounds(t, i, name);
}

/// `t` with each `{{ with $name }}` block opened: its markers dropped and its inner text kept.
pub open spec fn open_blocks(t: Seq<char>, name: Seq<char>) -> Seq<char> {
    blocks_scan(t, 0, name, true, Seq::empty())
}

/// `t` with each `{{ with $name }}` block deleted whole.
pub open spec fn drop_blocks(t: Seq<char>, name: Seq<char>) -> Seq<char> {
    blocks_scan(t, 0, name, false, Seq::empty())
}

pub(crate) fn is_ws_char(c: char) -> (r: bool)
    ensures
        r == is_ws(c),
{
    let u = c as u32;
    (0x09 <= u && u <= 0x0D) || u == 0x20 || u == 0x85 || u == 0xA0 || u == 0x1680 || (0x2000 <= u && u <= 0x200A)
        || u == 0x2028 || u == 0x2029 || u == 0x202F || u == 0x205F || u == 0x3000
}

/// Relies on `char::is_alphanumeric`: whether `c` has the Unicode `Alphabetic` or `Numeric` property.
#[verifier::external_body]
fn char_is_alphanumeric(c: char) -> (r: bool)
    ensures
        r == alphanumeric(c),
{
    c.is_alphanumeric()
}

fn is_word_char(c: char) -> (r: bool)
    ensures
        r == is_word(c),
{
    c == '_' || char_is_alphanumeric(c)
}

pub(crate) fn skip_ws_at(t: &Vec<char>, i: usize) -> (r: usize)
    requires
        i <= t.len(),
    ensures
        r as int == skip_ws(t@, i as int),
        i <= r <= t.len(),
{
    let mut j = i;
    while j < t.len() && is_ws_char(t[j])
        invariant
            i <= j <= t.len(),
            skip_ws(t@, i as int) == skip_ws(t@, j as int),
        decreases t.len() - j,
    {
        j = j + 1;
    }
    j
}

/// Whether the characters of `s` stand in `t` at index `i`.
pub(crate) fn seq_at(t: &Vec<char>, i: usize, s: &Vec<char>) -> (r: bool)
    ensures
        r == has_at(t@, i as int, s@),
{
    if i > t.len() || t.len() - i < s.len() {
        return false;
    }
    let mut k: usize = 0;
    while k < s.len()
        invariant
            i + s.len() <= t.len(),
            k <= s.len(),
            forall|j: int| 0 <= j < k ==> t@[i + j] == s@[j],
        decreases s.len() - k,
    {
        if t[i + k] != s[k] {
            assert(t@.subrange(i as int, i + s.len())[k as int] != s@[k as int]);
            return false;
        }
        k = k + 1;
    }
    assert(t@.subrange(i as int, i + s.len()) =~= s@);
    true
}

/// Whether the characters of the literal `s` stand in `t` at index `i`.
pub(crate) fn lit_at(t: &Vec<char>, i: usize, s: &str) -> (r: bool)
    ensures
        r == has_at(t@, i as int, s@),
{
    let w = crate::text::to_chars(s);
    seq_at(t, i, &w)
}

/// Scans a pipe chain from `k` on; see `pipes_scan`.
fn scan_pipes(t: &Vec<char>, start: usize, v: &Vec<char>) -> (r: Option<(usize, Vec<char>)>)
    requires
        start <= t.len(),
    ensures
        match pipes_scan(t@, start as int, Lex::Start, 0, 0, v@) {
            Some((e, s)) => r matches Some((re, rs)) && re == e && rs@ == s,
            None => r is None,
        },
{
    let mut k = start;
    let mut st = Lex::Start;
    let mut w0: usize = 0;
    let mut w1: usize = 0;
    let mut val = v.clone();
    let ghost goal = pipes_scan(t@, start as int, Lex::Start, 0, 0, v@);
    while k < t.len()
        invariant
            k <= t.len(),
            goal == pipes_scan(t@, start as int, Lex::Start, 0, 0, v@),
            w0 <= w1 || st != Lex::Gap,
            st == Lex::Word ==> w0 <= k,
            st == Lex::Gap ==> w0 <= w1 <= k,
            goal == pipes_scan(t@, k as int, st, w0 as int, w1 as int, val@),
        decreases t.len() - k,
    {
        let c = t[k];
        if c == '}' || c == '|' {
            let done = match st {
                Lex::Word => apply_pipe(t, w0, k, &val),
                Lex::Gap => apply_pipe(t, w0, w1, &val),
                _ => val.clone(),
            };
            assert(done@ == finish_pipe(t@, st, w0 as int, w1 as int, k as int, val@));
            if c == '}' {
                proof {
                    reveal_strlit("}}");
                }
                if lit_at(t, k, "}}") {
                    return Some((k + 2, done));
                } else {
                    return None;
                }
            }
            val = done;
            st = Lex::Bar;
            w0 = 0;
            w1 = 0;
        } else if is_ws_char(c) {
            if st == Lex::Word {
                st = Lex::Gap;
                w1 = k;
            }
        } else if is_word_char(c) {
            if st == Lex::Bar {
                st = Lex::Word;
                w0 = k;
                w1 = 0;
            } else if st != Lex::Word {
                return None;
            }
        } else {
            return None;
        }
        k = k + 1;
    }
    None
}

/// The placeholder of `name` that starts at `i`, if any; see `placeholder_at`.
fn match_placeholder(t: &Vec<char>, i: usize, name: &Vec<char>, v: &Vec<char>) -> (r: Option<(usize, Vec<char>)>)
    requires
        i <= t.len(),
    ensures
        match placeholder_at(t@, i as int, name@, v@) {
            Some((e, s)) => r matches Some((re, rs)) && re == e && rs@ == s,
            None => r is None,
        },
{
    proof {
        reveal_strlit("{{");
    }
    proof {
        reveal_strlit("$");
    }
    if !lit_at(t, i, "{{") {
        return None;
    }
    let j = skip_ws_at(t, i + 2);
    let mut dn = crate::text::to_chars("$");
    append_all(&mut dn, name);
    if !seq_at(t, j, &dn) {
        return None;
    }
    let k = skip_ws_at(t, j + 1 + name.len());
    scan_pipes(t, k, v)
}

/// Replaces every placeholder of parameter `name` in `t`; see `fill`.
pub fn fill_param(t: &Vec<char>, name: &Vec<char>, v: &Vec<char>) -> (r: Vec<char>)
    ensures
        r@ == fill(t@, name@, v@),
{
    let mut out: Vec<char> = Vec::new();
    let mut i: usize = 0;
    while i < t.len()
        invariant
            i <= t.len(),
            fill(t@, name@, v@) == fill_scan(t@, i as int, name@, v@, out@),
        decreases t.len() - i,
    {
        proof {
            lemma_placeholder_advances(t@, i as int, name@, v@);
        }
        match match_placeholder(t, i, name, v) {
            Some((e, s)) => {
                append_all(&mut out, &s);
                i = e;
            },
            None => {
                out.push(t[i]);
                i = i + 1;
            },
        }
    }
    out
}

/// See `with_open_at`.
fn match_with_open(t: &Vec<char>, i: usize, name: &Vec<char>) -> (r: Option<usize>)
    requires
        i <= t.len(),
    ensures
        match with_open_at(t@, i as int, name@) {
            Some(p) => r == Some(p as usize) && p <= t.len(),
            None => r is None,
        },
{
    proof {
        reveal_strlit("{{");
        reveal_strlit("}}");
        reveal_strlit("with");
        reveal_strlit("$");
    }
    if !lit_at(t, i, "{{") {
        return None;
    }
    let a = skip_ws_at(t, i + 2);
    if !lit_at(t, a, "with") {
        return None;
    }
    let b = skip_ws_at(t, a + 4);
    let mut dn = crate::text::to_chars("$");
    append_all(&mut dn, name);
    if !seq_at(t, b, &dn) {
        return None;
    }
    let c = skip_ws_at(t, b + 1 + name.len());
    if !lit_at(t, c, "}}") {
        return None;
    }
    Some(c + 2)
}

/// See `end_marker_at`.
fn match_end_marker(t: &Vec<char>, j: usize) -> (r: Option<usize>)
    requires
        j <= t.len(),
    ensures
        match end_marker_at(t@, j as int) {
            Some(p) => r == Some(p as usize) && p <= t.len(),
            None => r is None,
        },
{
    proof {
        reveal_strlit("{{");
        reveal_strlit("}}");
        reveal_strlit("end");
    }
    if !lit_at(t, j, "{{") {
        return None;
    }
    let a = skip_ws_at(t, j + 2);
    if !lit_at(t, a, "end") {
        return None;
    }
    let b = skip_ws_at(t, a + 3);
    if !lit_at(t, b, "}}") {
        return None;
    }
    Some(b + 2)
}

/// See `close_scan`.
fn find_close(t: &Vec<char>, start: usize) -> (r: Option<(usize, usize)>)
    requires
        start <= t.len(),
    ensures
        match close_scan(t@, start as int) {
            Some((e, be)) => r == Some((e as usize, be as usize)),
            None => r is None,
        },
{
    let mut e = start;
    while e < t.len()
        invariant
            start <= e <= t.len(),
            close_scan(t@, start as int) == close_scan(t@, e as int),
        decreases t.len() - e,
    {
        proof {
            lemma_close_scan_bounds(t@, e as int);
        }
        if is_ws_char(t[e]) {
            if let Some(be) = match_end_marker(t, e + 1) {
                return Some((e, be));
            }
        }
        if let Some(be) = match_end_marker(t, e) {
            return Some((e, be));
        }
        e = e + 1;
    }
    None
}

/// See `with_block_at`.
fn match_with_block(t: &Vec<char>, i: usize, name: &Vec<char>) -> (r: Option<(usize, usize, usize)>)
    requires
        i <= t.len(),
    ensures
        match with_block_at(t@, i as int, name@) {
            Some((s, e, be)) => r == Some((s as usize, e as usize, be as usize)),
            None => r is None,
        },
{
    proof {
        lemma_with_block_bounds(t@, i as int, name@);
    }
    match match_with_open(t, i, name) {
        Some(p) => {
            let s = if p < t.len() && is_ws_char(t[p]) {
                p + 1
            } else {
                p
            };
            proof {
                lemma_close_scan_bounds(t@, s as int);
            }
            match find_close(t, s) {
                Some((e, be)) => Some((s, e, be)),
                None => None,
            }
        },
        None => None,
    }
}

/// Replaces every occurrence of the non-empty `from` in `s` by `to`; see `replace_all`.
pub fn replace_chars(s: &Vec<char>, from: &Vec<char>, to: &Vec<char>) -> (r: Vec<char>)
    ensures
        r@ == replace_all(s@, from@, to@),
{
    let mut out: Vec<char> = Vec::new();
    let mut i: usize = 0;
    while i < s.len()
        invariant
            i <= s.len(),
            replace_all(s@, from@, to@) == replace_scan(s@, i as int, from@, to@, out@),
        decreases s.len() - i,
    {
        if from.len() > 0 && seq_at(s, i, from) {
            append_all(&mut out, to);
            i = i + from.len();
        } else {
            out.push(s[i]);
            i = i + 1;
        }
    }
    out
}

/// Opens (`keep`) or deletes every `{{ with $name }}` block of `t`; see `blocks_scan`.
pub fn rewrite_blocks(t: &Vec<char>, name: &Vec<char>, keep: bool) -> (r: Vec<char>)
    ensures
        r@ == blocks_scan(t@, 0, name@, keep, Seq::empty()),
{
    let from = crate::text::to_chars("{{ . ");
    let mut to = crate::text::to_chars("{{ $");
    append_all(&mut to, name);
    append_str(&mut to, " ");
    let mut out: Vec<char> = Vec::new();
    let mut i: usize = 0;
    while i < t.len()
        invariant
            i <= t.len(),
            from@ == "{{ . "@,
            to@ == "{{ $"@ + name@ + " "@,
            blocks_scan(t@, 0, name@, keep, Seq::empty()) == blocks_scan(t@, i as int, name@, keep, out@),
        decreases t.len() - i,
    {
        proof {
            lemma_with_block_bounds(t@, i as int, name@);
        }
        match match_with_block(t, i, name) {
            Some((s, e, be)) => {
                if keep {
                    let mut inner: Vec<char> = Vec::new();
                    append_range(&mut inner, t, s, e);
                    let bound = replace_chars(&inner, &from, &to);
                    append_all(&mut out, &bound);
                }
                i = be;
            },
            None => {
                out.push(t[i]);
                i = i + 1;
            },
        }
    }
    out
}

} // verus!
