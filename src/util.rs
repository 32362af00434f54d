//! Script formatting, text pipes and global variables of the start and end code.
use vstd::prelude::*;
use crate::template::{replace_all, replace_chars};
use crate::text::{append_all, append_str, from_chars, to_chars};
use crate::OS;

verus! {

/// Width of the banner rules that frame each script.
pub const BANNER_WIDTH: usize = 60;

/// `n` dashes.
pub open spec fn dashes(n: nat) -> Seq<char> {
    Seq::new(n, |i: int| '-')
}

/// `s` centred in a field of `BANNER_WIDTH` dashes; the extra dash of an odd padding goes right.
pub open spec fn centered(s: Seq<char>) -> Seq<char> {
    if s.len() >= BANNER_WIDTH {
        s
    } else {
        let pad = (BANNER_WIDTH - s.len()) as nat;
        dashes(pad / 2) + s + dashes((pad - pad / 2) as nat)
    }
}

/// The line comment marker of the scripts for `os`.
pub open spec fn comment_prefix(os: OS) -> Seq<char> {
    match os {
        OS::Windows => "::"@,
        _ => "#"@,
    }
}

/// The name shown for a script, marked when it is the revert code.
pub open spec fn display_name(name: Seq<char>, revert: bool) -> Seq<char> {
    if revert {
        name + " (revert)"@
    } else {
        name
    }
}

/// A full banner rule: the comment marker, a space and `BANNER_WIDTH` dashes.
pub open spec fn rule_line(os: OS) -> Seq<char> {
    comment_prefix(os) + " "@ + dashes(BANNER_WIDTH as nat)
}

/// `code` framed by banner rules, with the script's name and an `echo` line announcing it.
pub open spec fn banner(code: Seq<char>, name: Seq<char>, os: OS, revert: bool) -> Seq<char> {
    let n = display_name(name, revert);
    rule_line(os) + "\n"@ + comment_prefix(os) + " "@ + centered(n) + "\n"@ + rule_line(os) + "\n"@
        + "echo --- "@ + n + "\n"@ + code + "\n"@ + rule_line(os)
}

fn push_dashes(out: &mut Vec<char>, n: usize)
    ensures
        final(out)@ == old(out)@ + dashes(n as nat),
{
    let mut i: usize = 0;
    while i < n
        invariant
            i <= n,
            out@ == old(out)@ + dashes(i as nat),
        decreases n - i,
    {
        out.push('-');
        i = i + 1;
        assert(out@ =~= old(out)@ + dashes(i as nat));
    }
}

fn push_prefix(out: &mut Vec<char>, os: OS)
    ensures
        final(out)@ == old(out)@ + comment_prefix(os),
{
    match os {
        OS::Windows => append_str(out, "::"),
        _ => append_str(out, "#"),
    }
}

fn push_rule(out: &mut Vec<char>, os: OS)
    ensures
        final(out)@ == old(out)@ + rule_line(os),
{
    let ghost start = out@;
    push_prefix(out, os);
    append_str(out, " ");
    push_dashes(out, BANNER_WIDTH);
    assert(out@ =~= start + rule_line(os));
}

/**
Wraps `code_string` in comment banners naming the script and adds an `echo` line that
announces it; `revert` marks the name with " (revert)".
*/
pub fn beautify(code_string: &str, name: &str, os: OS, revert: bool) -> (r: String)
    ensures
        r@ == banner(code_string@, name@, os, revert),
{
    let mut n = to_chars(name);
    if revert {
        append_str(&mut n, " (revert)");
    }
    assert(n@ == display_name(name@, revert));
    let len = n.len();
    let mut out: Vec<char> = Vec::new();
    push_rule(&mut out, os);
    append_str(&mut out, "\n");
    push_prefix(&mut out, os);
    append_str(&mut out, " ");
    let ghost before_name = out@;
    if len >= BANNER_WIDTH {
        append_all(&mut out, &n);
    } else {
        let pad = BANNER_WIDTH - len;
        push_dashes(&mut out, pad / 2);
        append_all(&mut out, &n);
        push_dashes(&mut out, pad - pad / 2);
    }
    assert(out@ =~= before_name + centered(n@));
    append_str(&mut out, "\n");
    push_rule(&mut out, os);
    append_str(&mut out, "\n");
    append_str(&mut out, "echo --- ");
    append_all(&mut out, &n);
    append_str(&mut out, "\n");
    let code = to_chars(code_string);
    append_all(&mut out, &code);
    append_str(&mut out, "\n");
    push_rule(&mut out, os);
    assert(out@ =~= banner(code_string@, name@, os, revert));
    from_chars(&out)
}

/// `code` with the global variables `{{ $date }}`, `{{ $homepage }}` and `{{ $version }}` replaced, in that order.
pub open spec fn with_globals(code: Seq<char>, date: Seq<char>, homepage: Seq<char>, version: Seq<char>) -> Seq<char> {
    replace_all(
        replace_all(replace_all(code, "{{ $date }}"@, date), "{{ $homepage }}"@, homepage),
        "{{ $version }}"@,
        version,
    )
}

/**
Replaces the global variables of `code_string`: `{{ $date }}` by `date`, `{{ $homepage }}` by
`homepage` and `{{ $version }}` by `version`; see `with_globals`.
*/
pub fn parse_start_end(code_string: &str, date: &str, homepage: &str, version: &str) -> (r: String)
    ensures
        r@ == with_globals(code_string@, date@, homepage@, version@),
{
    let code = to_chars(code_string);
    let a = replace_chars(&code, &to_chars("{{ $date }}"), &to_chars(date));
    let b = replace_chars(&a, &to_chars("{{ $homepage }}"), &to_chars(homepage));
    let c = replace_chars(&b, &to_chars("{{ $version }}"), &to_chars(version));
    from_chars(&c)
}

} // verus!
