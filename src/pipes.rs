//! Named text transforms applied to a parameter's value by a `| pipe` chain.
use vstd::prelude::*;
use crate::powershell::{inline_powershell, inline_powershell_chars};
use crate::text::{append_str, from_chars, range_is, to_chars};

verus! {

/// `s` with each double quote replaced by the batch escape `"^""`.
pub open spec fn escape_quotes(s: Seq<char>) -> Seq<char>
    decreases s.len(),
{
    if s.len() == 0 {
        Seq::empty()
    } else {
        let head = escape_quotes(s.drop_last());
        if s.last() == '"' {
            head + "\"^\"\""@
        } else {
            head.push(s.last())
        }
    }
}

/// What the pipe named `name` makes of `v`; an unknown name leaves `v` as it is.
pub open spec fn pipe_result(name: Seq<char>, v: Seq<char>) -> Seq<char> {
    if name == "escapeDoubleQuotes"@ {
        escape_quotes(v)
    } else if name == "inlinePowerShell"@ {
        inline_powershell(v)
    } else {
        v
    }
}

/// Escapes every double quote of `v`.
pub fn escape_double_quotes(v: &Vec<char>) -> (r: Vec<char>)
    ensures
        r@ == escape_quotes(v@),
{
    let mut out: Vec<char> = Vec::new();
    let mut i: usize = 0;
    while i < v.len()
        invariant
            i <= v.len(),
            out@ == escape_quotes(v@.subrange(0, i as int)),
        decreases v.len() - i,
    {
        let ghost pre = v@.subrange(0, i as int);
        let ghost next = v@.subrange(0, i + 1);
        assert(next.drop_last() =~= pre);
        if v[i] == '"' {
            append_str(&mut out, "\"^\"\"");
        } else {
            out.push(v[i]);
        }
        i = i + 1;
    }
    assert(v@.subrange(0, v@.len() as int) =~= v@);
    out
}

/// Applies the pipe named by `t[lo..hi]` to `v`.
pub fn apply_pipe(t: &Vec<char>, lo: usize, hi: usize, v: &Vec<char>) -> (r: Vec<char>)
    requires
        lo <= hi <= t.len(),
    ensures
        r@ == pipe_result(t@.subrange(lo as int, hi as int), v@),
{
    if range_is(t, lo, hi, "escapeDoubleQuotes") {
        escape_double_quotes(v)
    } else if range_is(t, lo, hi, "inlinePowerShell") {
        inline_powershell_chars(v)
    } else {
        v.clone()
    }
}

/**
Applies the pipe named `pipe` to `text`. Known pipes: `escapeDoubleQuotes`, `inlinePowerShell`;
any other name leaves the text unchanged.
*/
pub fn piper(pipe: &str, text: &str) -> (r: String)
    ensures
        r@ == pipe_result(pipe@, text@),
{
    let p = to_chars(pipe);
    let v = to_chars(text);
    let r = apply_pipe(&p, 0, p.len(), &v);
    assert(p@.subrange(0, p@.len() as int) =~= pipe@);
    from_chars(&r)
}

} // verus!
