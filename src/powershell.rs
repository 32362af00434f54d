//! The `inlinePowerShell` pipe: folds a multi-line PowerShell fragment into one line.
use vstd::prelude::*;
use crate::template::{
    has_at, is_ws, is_ws_char, lemma_skip_ws_ge, lit_at, replace_all, replace_chars, skip_ws, skip_ws_at,
};
use crate::text::{append_all, append_range, append_str, to_chars};

verus! {

/// A line break character.
pub open spec fn is_newline(c: char) -> bool {
    c == '\n' || c == '\r'
}

/// A quote that opens a here-string.
pub open spec fn is_quote(c: char) -> bool {
    c == '\'' || c == '"'
}

/// The first index at or after `j` that holds `\n`, or the end.
pub open spec fn line_end(t: Seq<char>, j: int) -> int
    decreases t.len() - j,
{
    if 0 <= j < t.len() && t[j] != '\n' {
        line_end(t, j + 1)
    } else {
        j
    }
}

/// The last index `m` with `j <= m` and `m + 2 <= k` where `#>` stands.
pub open spec fn last_close(t: Seq<char>, j: int, k: int) -> Option<int>
    decreases k - j,
{
    if k - 2 < j {
        None
    } else if has_at(t, k - 2, "#>"@) {
        Some(k - 2)
    } else {
        last_close(t, j, k - 1)
    }
}

/// The first index in `lo..hi` that holds no whitespace, or `hi`.
pub open spec fn ws_fwd(t: Seq<char>, lo: int, hi: int) -> int
    decreases hi - lo,
{
    if lo < hi && is_ws(t[lo]) {
        ws_fwd(t, lo + 1, hi)
    } else {
        lo
    }
}

/// The end of `t[lo..hi]` once trailing whitespace is dropped.
pub open spec fn ws_back(t: Seq<char>, lo: int, hi: int) -> int
    decreases hi - lo,
{
    if lo < hi && is_ws(t[hi - 1]) {
        ws_back(t, lo, hi - 1)
    } else {
        hi
    }
}

/// `t[lo..hi]` without leading and trailing whitespace.
pub open spec fn trimmed(t: Seq<char>, lo: int, hi: int) -> Seq<char> {
    let a = ws_fwd(t, lo, hi);
    t.subrange(a, ws_back(t, a, hi))
}

/// The last line break in `t[lo..hi]`.
pub open spec fn last_newline(t: Seq<char>, lo: int, hi: int) -> Option<int>
    decreases hi - lo,
{
    if hi <= lo {
        None
    } else if is_newline(t[hi - 1]) {
        Some(hi - 1)
    } else {
        last_newline(t, lo, hi - 1)
    }
}

/// A here-string close at `e`: a line break, a quote and `@`; gives the index after it.
pub open spec fn here_close_at(t: Seq<char>, e: int) -> Option<int> {
    if 0 <= e && e + 3 < t.len() && t[e] == '\r' && t[e + 1] == '\n' && is_quote(t[e + 2]) && t[e + 3] == '@' {
        Some(e + 4)
    } else if 0 <= e && e + 2 < t.len() && is_newline(t[e]) && is_quote(t[e + 1]) && t[e + 2] == '@' {
        Some(e + 3)
    } else {
        None
    }
}

/// The first here-string close at or after `e`: where the content ends and where the close ends.
pub open spec fn here_close_scan(t: Seq<char>, e: int) -> Option<(int, int)>
    decreases t.len() - e,
{
    if e < 0 || e >= t.len() {
        None
    } else if here_close_at(t, e) is Some {
        Some((e, here_close_at(t, e)->0))
    } else {
        here_close_scan(t, e + 1)
    }
}

/// `s` from `i` on with each line break (`\r\n`, `\r` or `\n`) replaced by `sep`, appended to `out`.
pub open spec fn newline_join(s: Seq<char>, i: int, sep: Seq<char>, out: Seq<char>) -> Seq<char>
    decreases s.len() - i,
{
    if i < 0 || i >= s.len() {
        out
    } else if s[i] == '\r' && i + 1 < s.len() && s[i + 1] == '\n' {
        newline_join(s, i + 2, sep, out + sep)
    } else if is_newline(s[i]) {
        newline_join(s, i + 1, sep, out + sep)
    } else {
        newline_join(s, i + 1, sep, out.push(s[i]))
    }
}

/// A here-string's content as one quoted string, with escaped quotes and explicit line breaks.
pub open spec fn here_quoted(q: char, content: Seq<char>) -> Seq<char> {
    if q == '\'' {
        "'"@ + newline_join(replace_all(content, "'"@, "''"@), 0, "'+\"`r`n\"+'"@, Seq::empty()) + "'"@
    } else {
        "\""@ + newline_join(replace_all(content, "\""@, "`\""@), 0, "`r`n"@, Seq::empty()) + "\""@
    }
}

/// The end of the run of spaces that starts at `i`.
pub open spec fn spaces_end(t: Seq<char>, i: int) -> int
    decreases t.len() - i,
{
    if 0 <= i < t.len() && t[i] == ' ' {
        spaces_end(t, i + 1)
    } else {
        i
    }
}

/// The rewrites that the pipe makes, one pass each.
#[derive(Clone, Copy, PartialEq, Eq, Structural)]
pub enum Rule {
    /// A block comment `<# text #>` and a line comment `# text` (up to the end of its line) both
    /// become `<# text #>`, with the text trimmed.
    Comment,
    /// `@'...'@` and `@"..."@` here-strings become single-line quoted strings.
    HereString,
    /// A backtick at the end of a line joins the next line with one space.
    Continuation,
}

/// What `rule` matches at `i`: the index after the match and its replacement.
pub open spec fn rule_at(t: Seq<char>, i: int, rule: Rule) -> Option<(int, Seq<char>)> {
    match rule {
        Rule::Comment => {
            let j = skip_ws(t, i + 2);
            if has_at(t, i, "<#"@) && last_close(t, j, line_end(t, j)) is Some {
                let m = last_close(t, j, line_end(t, j))->0;
                Some((m + 2, "<# "@ + trimmed(t, j, m) + " #>"@))
            } else if 0 <= i < t.len() && t[i] == '#' {
                let le = line_end(t, i + 1);
                Some((le, "<# "@ + trimmed(t, i + 1, le) + " #>"@))
            } else {
                None
            }
        },
        Rule::HereString => {
            if 0 <= i && i + 1 < t.len() && t[i] == '@' && is_quote(t[i + 1]) {
                match last_newline(t, i + 2, skip_ws(t, i + 2)) {
                    Some(n) => match here_close_scan(t, n + 2) {
                        Some((e, end)) => Some((end, here_quoted(t[i + 1], t.subrange(n + 1, e)))),
                        None => None,
                    },
                    None => None,
                }
            } else {
                None
            }
        },
        Rule::Continuation => {
            if 0 <= i < t.len() && t[i] == ' ' {
                let j = spaces_end(t, i);
                let k = skip_ws(t, j + 1);
                if j < t.len() && t[j] == '`' && last_newline(t, j + 1, k) is Some {
                    Some((k, " "@))
                } else {
                    None
                }
            } else {
                None
            }
        },
    }
}

proof fn lemma_line_end_bounds(t: Seq<char>, j: int)
    ensures
        line_end(t, j) >= j,
        j <= t.len() ==> line_end(t, j) <= t.len(),
    decreases t.len() - j,
{
    if 0 <= j < t.len() && t[j] != '\n' {
        lemma_line_end_bounds(t, j + 1);
    }
}

proof fn lemma_last_close_bounds(t: Seq<char>, j: int, k: int)
    ensures
        last_close(t, j, k) matches Some(m) ==> j <= m && m + 2 <= k,
    decreases k - j,
{
    if k - 2 >= j && !has_at(t, k - 2, "#>"@) {
        lemma_last_close_bounds(t, j, k - 1);
    }
}

proof fn lemma_last_newline_bounds(t: Seq<char>, lo: int, hi: int)
    ensures
        last_newline(t, lo, hi) matches Some(n) ==> lo <= n < hi && is_newline(t[n]),
    decreases hi - lo,
{
    if hi > lo && !is_newline(t[hi - 1]) {
        lemma_last_newline_bounds(t, lo, hi - 1);
    }
}

proof fn lemma_here_close_bounds(t: Seq<char>, e: int)
    ensures
        here_close_scan(t, e) matches Some((x, end)) ==> e <= x < end <= t.len(),
    decreases t.len() - e,
{
    if 0 <= e < t.len() && here_close_at(t, e) is None {
        lemma_here_close_bounds(t, e + 1);
    }
}

proof fn lemma_spaces_end_bounds(t: Seq<char>, i: int)
    ensures
        spaces_end(t, i) >= i,
        i <= t.len() ==> spaces_end(t, i) <= t.len(),
    decreases t.len() - i,
{
    if 0 <= i < t.len() && t[i] == ' ' {
        lemma_spaces_end_bounds(t, i + 1);
    }
}

proof fn lemma_rule_advances(t: Seq<char>, i: int, rule: Rule)
    requires
        0 <= i < t.len(),
    ensures
        rule_at(t, i, rule) matches Some((e, _)) ==> i < e <= t.len(),
{
    reveal_strlit("<#");
    reveal_strlit("#>");
    match rule {
        Rule::Comment => {
            let j = skip_ws(t, i + 2);
            lemma_skip_ws_ge(t, i + 2);
            lemma_line_end_bounds(t, j);
            lemma_last_close_bounds(t, j, line_end(t, j));
            lemma_line_end_bounds(t, i + 1);
        },
        Rule::HereString => {
            lemma_skip_ws_ge(t, i + 2);
            lemma_last_newline_bounds(t, i + 2, skip_ws(t, i + 2));
            if let Some(n) = last_newline(t, i + 2, skip_ws(t, i + 2)) {
                lemma_here_close_bounds(t, n + 2);
            }
        },
        Rule::Continuation => {
            lemma_spaces_end_bounds(t, i);
            let j = spaces_end(t, i);
            lemma_skip_ws_ge(t, j + 1);
        },
    }
}

/// `t` from `i` on with every match of `rule` replaced, left to right, appended to `out`.
pub open spec fn rewrite_scan(t: Seq<char>, i: int, rule: Rule, out: Seq<char>) -> Seq<char>
    decreases t.len() - i via rewrite_scan_decreases
{
    if i < 0 || i >= t.len() {
        out
    } else {
        match rule_at(t, i, rule) {
            Some((e, r)) => rewrite_scan(t, e, rule, out + r),
            None => rewrite_scan(t, i + 1, rule, out.push(t[i])),
        }
    }
}

#[via_fn]
proof fn rewrite_scan_decreases(t: Seq<char>, i: int, rule: Rule, out: Seq<char>) {
    if 0 <= i < t.len() {
        lemma_rule_advances(t, i, rule);
    }
}

/// `t` with every match of `rule` replaced.
pub open spec fn rewrite(t: Seq<char>, rule: Rule) -> Seq<char> {
    rewrite_scan(t, 0, rule, Seq::empty())
}

/// `acc` and `r` joined by `sep`, where an empty part adds nothing.
pub open spec fn join_part(acc: Seq<char>, r: Seq<char>, sep: Seq<char>) -> Seq<char> {
    if r.len() == 0 {
        acc
    } else if acc.len() == 0 {
        r
    } else {
        acc + sep + r
    }
}

/**
The lines of `t` from `i` on (the current one starting at `lo`), each trimmed, the empty ones
dropped, joined by `; ` after `out`.
*/
pub open spec fn lines_scan(t: Seq<char>, i: int, lo: int, out: Seq<char>) -> Seq<char>
    decreases t.len() - i,
{
    if i < 0 || i >= t.len() {
        join_part(out, trimmed(t, lo, t.len() as int), "; "@)
    } else if is_newline(t[i]) {
        lines_scan(t, i + 1, i + 1, join_part(out, trimmed(t, lo, i), "; "@))
    } else {
        lines_scan(t, i + 1, lo, out)
    }
}

/// What the `inlinePowerShell` pipe makes of `v`: comments, here-strings and continuations
/// rewritten, then the non-empty trimmed lines joined by `; `.
pub open spec fn inline_powershell(v: Seq<char>) -> Seq<char> {
    let a = rewrite(v, Rule::Comment);
    let b = rewrite(a, Rule::HereString);
    let c = rewrite(b, Rule::Continuation);
    lines_scan(c, 0, 0, Seq::empty())
}

fn line_end_at(t: &Vec<char>, j: usize) -> (r: usize)
    requires
        j <= t.len(),
    ensures
        r as int == line_end(t@, j as int),
        j <= r <= t.len(),
{
    let mut k = j;
    while k < t.len() && t[k] != '\n'
        invariant
            j <= k <= t.len(),
            line_end(t@, j as int) == line_end(t@, k as int),
        decreases t.len() - k,
    {
        k = k + 1;
    }
    k
}

fn last_close_in(t: &Vec<char>, j: usize, k: usize) -> (r: Option<usize>)
    requires
        j <= k <= t.len(),
    ensures
        match last_close(t@, j as int, k as int) {
            Some(m) => r == Some(m as usize) && j <= m && m + 2 <= k,
            None => r is None,
        },
{
    proof {
        lemma_last_close_bounds(t@, j as int, k as int);
    }
    let mut kk = k;
    while kk - j >= 2
        invariant
            j <= kk <= k <= t.len(),
            last_close(t@, j as int, k as int) == last_close(t@, j as int, kk as int),
        decreases kk,
    {
        if lit_at(t, kk - 2, "#>") {
            return Some(kk - 2);
        }
        kk = kk - 1;
    }
    None
}

fn ws_fwd_at(t: &Vec<char>, lo: usize, hi: usize) -> (r: usize)
    requires
        lo <= hi <= t.len(),
    ensures
        r as int == ws_fwd(t@, lo as int, hi as int),
        lo <= r <= hi,
{
    let mut a = lo;
    while a < hi && is_ws_char(t[a])
        invariant
            lo <= a <= hi <= t.len(),
            ws_fwd(t@, lo as int, hi as int) == ws_fwd(t@, a as int, hi as int),
        decreases hi - a,
    {
        a = a + 1;
    }
    a
}

fn ws_back_at(t: &Vec<char>, lo: usize, hi: usize) -> (r: usize)
    requires
        lo <= hi <= t.len(),
    ensures
        r as int == ws_back(t@, lo as int, hi as int),
        lo <= r <= hi,
{
    let mut b = hi;
    while b > lo && is_ws_char(t[b - 1])
        invariant
            lo <= b <= hi <= t.len(),
            ws_back(t@, lo as int, hi as int) == ws_back(t@, lo as int, b as int),
        decreases b,
    {
        b = b - 1;
    }
    b
}

/// Appends `trimmed(t, lo, hi)` to `out`.
fn append_trimmed(out: &mut Vec<char>, t: &Vec<char>, lo: usize, hi: usize)
    requires
        lo <= hi <= t.len(),
    ensures
        final(out)@ == old(out)@ + trimmed(t@, lo as int, hi as int),
{
    let a = ws_fwd_at(t, lo, hi);
    let b = ws_back_at(t, a, hi);
    append_range(out, t, a, b);
}

fn last_newline_in(t: &Vec<char>, lo: usize, hi: usize) -> (r: Option<usize>)
    requires
        lo <= hi <= t.len(),
    ensures
        match last_newline(t@, lo as int, hi as int) {
            Some(n) => r == Some(n as usize),
            None => r is None,
        },
{
    let mut h = hi;
    while h > lo
        invariant
            lo <= h <= hi <= t.len(),
            last_newline(t@, lo as int, hi as int) == last_newline(t@, lo as int, h as int),
        decreases h,
    {
        if t[h - 1] == '\n' || t[h - 1] == '\r' {
            return Some(h - 1);
        }
        h = h - 1;
    }
    None
}

fn is_quote_char(c: char) -> (r: bool)
    ensures
        r == is_quote(c),
{
    c == '\'' || c == '"'
}

fn here_close_find(t: &Vec<char>, start: usize) -> (r: Option<(usize, usize)>)
    requires
        start <= t.len(),
    ensures
        match here_close_scan(t@, start as int) {
            Some((x, end)) => r == Some((x as usize, end as usize)),
            None => r is None,
        },
{
    let mut e = start;
    while e < t.len()
        invariant
            start <= e <= t.len(),
            here_close_scan(t@, start as int) == here_close_scan(t@, e as int),
        decreases t.len() - e,
    {
        if t.len() - e > 3 && t[e] == '\r' && t[e + 1] == '\n' && is_quote_char(t[e + 2]) && t[e + 3] == '@' {
            return Some((e, e + 4));
        }
        if t.len() - e > 2 && (t[e] == '\n' || t[e] == '\r') && is_quote_char(t[e + 1]) && t[e + 2] == '@' {
            return Some((e, e + 3));
        }
        e = e + 1;
    }
    None
}

fn join_lines_with(s: &Vec<char>, sep: &str) -> (r: Vec<char>)
    ensures
        r@ == newline_join(s@, 0, sep@, Seq::empty()),
{
    let mut out: Vec<char> = Vec::new();
    let mut i: usize = 0;
    while i < s.len()
        invariant
            i <= s.len(),
            newline_join(s@, 0, sep@, Seq::empty()) == newline_join(s@, i as int, sep@, out@),
        decreases s.len() - i,
    {
        if s[i] == '\r' && i + 1 < s.len() && s[i + 1] == '\n' {
            append_str(&mut out, sep);
            i = i + 2;
        } else if s[i] == '\n' || s[i] == '\r' {
            append_str(&mut out, sep);
            i = i + 1;
        } else {
            out.push(s[i]);
            i = i + 1;
        }
    }
    out
}

fn quote_here(q: char, content: &Vec<char>) -> (r: Vec<char>)
    ensures
        r@ == here_quoted(q, content@),
{
    if q == '\'' {
        let escaped = replace_chars(content, &to_chars("'"), &to_chars("''"));
        let joined = join_lines_with(&escaped, "'+\"`r`n\"+'");
        let mut out = to_chars("'");
        append_all(&mut out, &joined);
        append_str(&mut out, "'");
        out
    } else {
        let escaped = replace_chars(content, &to_chars("\""), &to_chars("`\""));
        let joined = join_lines_with(&escaped, "`r`n");
        let mut out = to_chars("\"");
        append_all(&mut out, &joined);
        append_str(&mut out, "\"");
        out
    }
}

fn spaces_end_at(t: &Vec<char>, i: usize) -> (r: usize)
    requires
        i <= t.len(),
    ensures
        r as int == spaces_end(t@, i as int),
        i <= r <= t.len(),
{
    let mut j = i;
    while j < t.len() && t[j] == ' '
        invariant
            i <= j <= t.len(),
            spaces_end(t@, i as int) == spaces_end(t@, j as int),
        decreases t.len() - j,
    {
        j = j + 1;
    }
    j
}

/// What `rule` matches at `i`; see `rule_at`.
fn match_rule(t: &Vec<char>, i: usize, rule: Rule) -> (r: Option<(usize, Vec<char>)>)
    requires
        i < t.len(),
    ensures
        match rule_at(t@, i as int, rule) {
            Some((e, s)) => r matches Some((re, rs)) && re == e && rs@ == s,
            None => r is None,
        },
{
    proof {
        lemma_rule_advances(t@, i as int, rule);
        reveal_strlit("<#");
    }
    match rule {
        Rule::Comment => {
            if lit_at(t, i, "<#") {
                let j = skip_ws_at(t, i + 2);
                let le = line_end_at(t, j);
                if let Some(m) = last_close_in(t, j, le) {
                    let mut out = to_chars("<# ");
                    append_trimmed(&mut out, t, j, m);
                    append_str(&mut out, " #>");
                    return Some((m + 2, out));
                }
            }
            if t[i] == '#' {
                let le = line_end_at(t, i + 1);
                let mut out = to_chars("<# ");
                append_trimmed(&mut out, t, i + 1, le);
                append_str(&mut out, " #>");
                return Some((le, out));
            }
            None
        },
        Rule::HereString => {
            if i + 1 < t.len() && t[i] == '@' && is_quote_char(t[i + 1]) {
                let k = skip_ws_at(t, i + 2);
                match last_newline_in(t, i + 2, k) {
                    Some(n) => {
                        proof {
                            lemma_last_newline_bounds(t@, i + 2, k as int);
                            lemma_here_close_bounds(t@, n + 2);
                        }
                        if t.len() - n < 2 {
                            return None;
                        }
                        match here_close_find(t, n + 2) {
                            Some((e, end)) => {
                                let mut content: Vec<char> = Vec::new();
                                append_range(&mut content, t, n + 1, e);
                                Some((end, quote_here(t[i + 1], &content)))
                            },
                            None => None,
                        }
                    },
                    None => None,
                }
            } else {
                None
            }
        },
        Rule::Continuation => {
            if t[i] == ' ' {
                let j = spaces_end_at(t, i);
                if j < t.len() && t[j] == '`' {
                    let k = skip_ws_at(t, j + 1);
                    if last_newline_in(t, j + 1, k).is_some() {
                        return Some((k, to_chars(" ")));
                    }
                }
            }
            None
        },
    }
}

/// Replaces every match of `rule` in `t`; see `rewrite`.
fn rewrite_all(t: &Vec<char>, rule: Rule) -> (r: Vec<char>)
    ensures
        r@ == rewrite(t@, rule),
{
    let mut out: Vec<char> = Vec::new();
    let mut i: usize = 0;
    while i < t.len()
        invariant
            i <= t.len(),
            rewrite(t@, rule) == rewrite_scan(t@, i as int, rule, out@),
        decreases t.len() - i,
    {
        proof {
            lemma_rule_advances(t@, i as int, rule);
        }
        match match_rule(t, i, rule) {
            Some((e, s)) => {
                append_all(&mut out, &s);
                i = e;
            },
            None => {
                out.push(t[i]);
                i = i + 1;
            },
        }
    }
    out
}

fn join_trimmed(out: &mut Vec<char>, t: &Vec<char>, lo: usize, hi: usize)
    requires
        lo <= hi <= t.len(),
    ensures
        final(out)@ == join_part(old(out)@, trimmed(t@, lo as int, hi as int), "; "@),
{
    let mut part: Vec<char> = Vec::new();
    append_trimmed(&mut part, t, lo, hi);
    assert(part@ =~= trimmed(t@, lo as int, hi as int));
    if part.len() == 0 {
        return;
    }
    if out.len() == 0 {
        append_all(out, &part);
        assert(out@ =~= part@);
        return;
    }
    append_str(out, "; ");
    append_all(out, &part);
}

/// Trims each line of `t`, drops the empty ones and joins the rest by `; `.
fn merge_lines(t: &Vec<char>) -> (r: Vec<char>)
    ensures
        r@ == lines_scan(t@, 0, 0, Seq::empty()),
{
    let mut out: Vec<char> = Vec::new();
    let mut lo: usize = 0;
    let mut i: usize = 0;
    while i < t.len()
        invariant
            lo <= i <= t.len(),
            lines_scan(t@, 0, 0, Seq::empty()) == lines_scan(t@, i as int, lo as int, out@),
        decreases t.len() - i,
    {
        if t[i] == '\n' || t[i] == '\r' {
            join_trimmed(&mut out, t, lo, i);
            lo = i + 1;
        }
        i = i + 1;
    }
    join_trimmed(&mut out, t, lo, t.len());
    out
}

/// Folds the PowerShell fragment `v` into one line; see `inline_powershell`.
pub fn inline_powershell_chars(v: &Vec<char>) -> (r: Vec<char>)
    ensures
        r@ == inline_powershell(v@),
{
    let a = rewrite_all(v, Rule::Comment);
    let b = rewrite_all(&a, Rule::HereString);
    let c = rewrite_all(&b, Rule::Continuation);
    merge_lines(&c)
}

} // verus!
