//! Properties of resolution that hold for every collection, proved over the models.
use vstd::prelude::*;
use crate::collection::{
    admitted, call_result, calls_result, category_result, child_result, children_result, chosen, excluded,
    function_result, join2, listed, opted_in, rank, script_body, script_result, CategoryData,
    CategoryOrScriptData, Failure, FunctionData, Recommend, ScriptData, actions_result, body_result,
    collection_result, document, funcs_of, CollectionData, arg_lookup, param_step, ParameterDefinitionData,
};
use crate::pipes::escape_quotes;
use crate::util::{banner, with_globals};
use crate::template::{
    blocks_scan, close_scan, drop_blocks, end_marker_at, fill, fill_scan, has_at, is_ws, placeholder_at, skip_ws,
    with_block_at, with_open_at,
};
use crate::OS;

verus! {

/**
A function that defines no call and not the code that `revert` selects fails with `CallCode`
naming it, whatever its arguments.
*/
pub proof fn law_function_without_body_fails(f: FunctionData, args: Seq<(String, String)>, funcs: Seq<FunctionData>, revert: bool, fuel: nat)
    requires
        f.call is None,
        chosen(f.code, f.revert_code, revert) is None,
    ensures
        function_result(f, args, funcs, revert, fuel) == Err::<Seq<char>, Failure>(Failure::CallCode(f.name@)),
{
}

/**
A script that the filters keep, and that defines no call and not the code that `revert`
selects, fails with `CallCode` naming it; in particular a script with only `code` fails so in
revert mode.
*/
pub proof fn law_script_without_body_fails(s: ScriptData, names: Option<Seq<String>>, funcs: Seq<FunctionData>, os: OS, revert: bool, recommend: Option<Recommend>)
    requires
        !excluded(s, names, recommend),
        s.call is None,
        chosen(s.code, s.revert_code, revert) is None,
    ensures
        script_result(s, names, funcs, os, revert, recommend) == Err::<Seq<char>, Failure>(Failure::CallCode(s.name@)),
{
}

/**
Defining both a call and code is no error: the call is resolved and the code is ignored, for a
script and for a function alike.
*/
pub proof fn law_call_wins_over_code(s: ScriptData, f: FunctionData, args: Seq<(String, String)>, funcs: Seq<FunctionData>, revert: bool, fuel: nat)
    ensures
        s.call matches Some(c) ==> script_body(s, funcs, revert) == calls_result(c, funcs, revert, crate::collection::MAX_CALL_DEPTH as nat),
        f.call matches Some(c) ==> function_result(f, args, funcs, revert, fuel) == match calls_result(c, funcs, revert, fuel) {
            Ok(b) => crate::collection::substitution(b, crate::collection::params_of(f), args),
            Err(e) => Err(e),
        },
{
}

/// Under a name filter, a script that contributes any text is one that the filter lists.
pub proof fn law_name_filter_keeps_listed(s: ScriptData, names: Seq<String>, funcs: Seq<FunctionData>, os: OS, revert: bool, recommend: Option<Recommend>)
    ensures
        script_result(s, Some(names), funcs, os, revert, recommend) matches Ok(t) && t.len() > 0 ==> listed(names, s.name@),
{
}

/**
A script that the name filter lists and the recommendation filter admits contributes its
formatted block, or the failure of its body.
*/
pub proof fn law_listed_admitted_script_kept(s: ScriptData, names: Seq<String>, funcs: Seq<FunctionData>, os: OS, revert: bool, recommend: Option<Recommend>)
    requires
        listed(names, s.name@),
        admitted(recommend, s.recommend),
    ensures
        script_result(s, Some(names), funcs, os, revert, recommend) == match script_body(s, funcs, revert) {
            Ok(b) => Ok(banner(b, s.name@, os, revert)),
            Err(e) => Err(e),
        },
{
}

/// A category that the name filter lists resolves as with no filter at all.
pub proof fn law_listed_category_lifts_filters(c: CategoryData, names: Seq<String>, funcs: Seq<FunctionData>, os: OS, revert: bool, recommend: Option<Recommend>)
    requires
        listed(names, c.category@),
    ensures
        category_result(c, Some(names), funcs, os, revert, recommend) == category_result(c, None, funcs, os, revert, None),
{
}

/// The `Standard` filter admits only what the `Strict` filter admits, and no filter admits all.
pub proof fn law_stricter_filter_admits_less(level: Option<Recommend>)
    ensures
        admitted(Some(Recommend::Standard), level) ==> admitted(Some(Recommend::Strict), level),
        admitted(Some(Recommend::Strict), level) ==> admitted(None, level),
{
}

/// Number of scripts under the first `n` children of `cs` that the filters keep.
pub open spec fn children_count(cs: Seq<CategoryOrScriptData>, n: nat, names: Option<Seq<String>>, recommend: Option<Recommend>) -> nat
    decreases cs, n,
{
    if n == 0 || n > cs.len() {
        0
    } else {
        children_count(cs, (n - 1) as nat, names, recommend) + child_count(cs[n - 1], names, recommend)
    }
}

/// Number of scripts under `x` that the filters keep.
pub open spec fn child_count(x: CategoryOrScriptData, names: Option<Seq<String>>, recommend: Option<Recommend>) -> nat
    decreases x, 0nat,
{
    match x {
        CategoryOrScriptData::CategoryData(c) => category_count(c, names, recommend),
        CategoryOrScriptData::ScriptData(s) => if excluded(s, names, recommend) {
            0
        } else {
            1
        },
    }
}

/// Number of scripts in category `c` that the filters keep; a listed category lifts them.
pub open spec fn category_count(c: CategoryData, names: Option<Seq<String>>, recommend: Option<Recommend>) -> nat
    decreases c, 0nat,
{
    if opted_in(c, names) {
        children_count(c.children@, c.children@.len(), None, None)
    } else {
        children_count(c.children@, c.children@.len(), names, recommend)
    }
}

proof fn lemma_children_count_monotone(cs: Seq<CategoryOrScriptData>, n: nat, names: Option<Seq<String>>)
    ensures
        children_count(cs, n, names, Some(Recommend::Standard)) <= children_count(cs, n, names, Some(Recommend::Strict)),
        children_count(cs, n, names, Some(Recommend::Strict)) <= children_count(cs, n, names, None),
    decreases cs, n,
{
    if n == 0 || n > cs.len() {
    } else {
        lemma_children_count_monotone(cs, (n - 1) as nat, names);
        lemma_child_count_monotone(cs[n - 1], names);
    }
}

proof fn lemma_child_count_monotone(x: CategoryOrScriptData, names: Option<Seq<String>>)
    ensures
        child_count(x, names, Some(Recommend::Standard)) <= child_count(x, names, Some(Recommend::Strict)),
        child_count(x, names, Some(Recommend::Strict)) <= child_count(x, names, None),
    decreases x, 0nat,
{
    match x {
        CategoryOrScriptData::CategoryData(c) => lemma_category_count_monotone(c, names),
        CategoryOrScriptData::ScriptData(s) => {},
    }
}

proof fn lemma_category_count_monotone(c: CategoryData, names: Option<Seq<String>>)
    ensures
        category_count(c, names, Some(Recommend::Standard)) <= category_count(c, names, Some(Recommend::Strict)),
        category_count(c, names, Some(Recommend::Strict)) <= category_count(c, names, None),
    decreases c, 0nat,
{
    if !opted_in(c, names) {
        lemma_children_count_monotone(c.children@, c.children@.len(), names);
    }
}

/// Number of scripts in the first `n` top-level categories that the filters keep.
pub open spec fn actions_count(cs: Seq<CategoryData>, n: nat, names: Option<Seq<String>>, recommend: Option<Recommend>) -> nat
    decreases n,
{
    if n == 0 || n > cs.len() {
        0
    } else {
        actions_count(cs, (n - 1) as nat, names, recommend) + category_count(cs[n - 1], names, recommend)
    }
}

proof fn lemma_actions_count_monotone(cs: Seq<CategoryData>, n: nat, names: Option<Seq<String>>)
    ensures
        actions_count(cs, n, names, Some(Recommend::Standard)) <= actions_count(cs, n, names, Some(Recommend::Strict)),
        actions_count(cs, n, names, Some(Recommend::Strict)) <= actions_count(cs, n, names, None),
    decreases n,
{
    if n > 0 && n <= cs.len() {
        lemma_actions_count_monotone(cs, (n - 1) as nat, names);
        lemma_category_count_monotone(cs[n - 1], names);
    }
}

/**
Moving the recommendation filter from none to `Strict` to the stricter `Standard` never raises
the number of scripts that a collection keeps.
*/
pub proof fn law_stricter_filter_keeps_fewer_in_collection(cd: CollectionData, names: Option<Seq<String>>)
    ensures
        actions_count(cd.actions@, cd.actions@.len(), names, Some(Recommend::Standard)) <= actions_count(cd.actions@, cd.actions@.len(), names, Some(Recommend::Strict)),
        actions_count(cd.actions@, cd.actions@.len(), names, Some(Recommend::Strict)) <= actions_count(cd.actions@, cd.actions@.len(), names, None),
{
    lemma_actions_count_monotone(cd.actions@, cd.actions@.len(), names);
}

/**
Moving the recommendation filter from none to `Strict` to the stricter `Standard` never raises
the number of scripts that a category keeps.
*/
pub proof fn law_stricter_filter_keeps_fewer(c: CategoryData, names: Option<Seq<String>>)
    ensures
        category_count(c, names, Some(Recommend::Standard)) <= category_count(c, names, Some(Recommend::Strict)),
        category_count(c, names, Some(Recommend::Strict)) <= category_count(c, names, None),
{
    lemma_category_count_monotone(c, names);
}

/// `parts` joined by `sep`, where empty parts add nothing.
pub open spec fn join_all(parts: Seq<Seq<char>>, sep: Seq<char>) -> Seq<char>
    decreases parts.len(),
{
    if parts.len() == 0 {
        Seq::empty()
    } else {
        join2(join_all(parts.drop_last(), sep), parts.last(), sep)
    }
}

/// The joined text of a list of blocks, or its failure.
pub open spec fn joined(r: Result<Seq<Seq<char>>, Failure>, sep: Seq<char>) -> Result<Seq<char>, Failure> {
    match r {
        Ok(bs) => Ok(join_all(bs, sep)),
        Err(e) => Err(e),
    }
}

/// `a` followed by `b`, or the first failure.
pub open spec fn concat_blocks(a: Result<Seq<Seq<char>>, Failure>, b: Result<Seq<Seq<char>>, Failure>) -> Result<Seq<Seq<char>>, Failure> {
    match a {
        Ok(x) => match b {
            Ok(y) => Ok(x + y),
            Err(e) => Err(e),
        },
        Err(e) => Err(e),
    }
}

/// The formatted block of a script that the filters keep; none for one they leave out.
pub open spec fn script_blocks(s: ScriptData, names: Option<Seq<String>>, funcs: Seq<FunctionData>, os: OS, revert: bool, recommend: Option<Recommend>) -> Result<Seq<Seq<char>>, Failure> {
    if excluded(s, names, recommend) {
        Ok(Seq::empty())
    } else {
        match script_body(s, funcs, revert) {
            Ok(b) => Ok(seq![banner(b, s.name@, os, revert)]),
            Err(e) => Err(e),
        }
    }
}

/// The blocks of the kept scripts under the first `n` children of `cs`, in declaration order.
pub open spec fn children_blocks(cs: Seq<CategoryOrScriptData>, n: nat, names: Option<Seq<String>>, funcs: Seq<FunctionData>, os: OS, revert: bool, recommend: Option<Recommend>) -> Result<Seq<Seq<char>>, Failure>
    decreases cs, n,
{
    if n == 0 || n > cs.len() {
        Ok(Seq::empty())
    } else {
        concat_blocks(
            children_blocks(cs, (n - 1) as nat, names, funcs, os, revert, recommend),
            child_blocks(cs[n - 1], names, funcs, os, revert, recommend),
        )
    }
}

/// The blocks of the kept scripts under `x`, in declaration order.
pub open spec fn child_blocks(x: CategoryOrScriptData, names: Option<Seq<String>>, funcs: Seq<FunctionData>, os: OS, revert: bool, recommend: Option<Recommend>) -> Result<Seq<Seq<char>>, Failure>
    decreases x, 0nat,
{
    match x {
        CategoryOrScriptData::CategoryData(c) => category_blocks(c, names, funcs, os, revert, recommend),
        CategoryOrScriptData::ScriptData(s) => script_blocks(s, names, funcs, os, revert, recommend),
    }
}

/// The blocks of the kept scripts in category `c`, in declaration order.
pub open spec fn category_blocks(c: CategoryData, names: Option<Seq<String>>, funcs: Seq<FunctionData>, os: OS, revert: bool, recommend: Option<Recommend>) -> Result<Seq<Seq<char>>, Failure>
    decreases c, 0nat,
{
    if opted_in(c, names) {
        children_blocks(c.children@, c.children@.len(), None, funcs, os, revert, None)
    } else {
        children_blocks(c.children@, c.children@.len(), names, funcs, os, revert, recommend)
    }
}

/// The blocks of the kept scripts in the first `n` top-level categories, in declaration order.
pub open spec fn actions_blocks(cs: Seq<CategoryData>, n: nat, names: Option<Seq<String>>, funcs: Seq<FunctionData>, os: OS, revert: bool, recommend: Option<Recommend>) -> Result<Seq<Seq<char>>, Failure>
    decreases n,
{
    if n == 0 || n > cs.len() {
        Ok(Seq::empty())
    } else {
        concat_blocks(
            actions_blocks(cs, (n - 1) as nat, names, funcs, os, revert, recommend),
            category_blocks(cs[n - 1], names, funcs, os, revert, recommend),
        )
    }
}

proof fn lemma_join2_assoc(x: Seq<char>, y: Seq<char>, z: Seq<char>, sep: Seq<char>)
    ensures
        join2(join2(x, y, sep), z, sep) == join2(x, join2(y, z, sep), sep),
{
    if x.len() > 0 && y.len() > 0 && z.len() > 0 {
        assert(x + sep + y + sep + z =~= x + sep + (y + sep + z));
    }
}

proof fn lemma_join_all_concat(a: Seq<Seq<char>>, b: Seq<Seq<char>>, sep: Seq<char>)
    ensures
        join_all(a + b, sep) == join2(join_all(a, sep), join_all(b, sep), sep),
    decreases b.len(),
{
    if b.len() == 0 {
        assert(a + b =~= a);
    } else {
        assert((a + b).drop_last() =~= a + b.drop_last());
        lemma_join_all_concat(a, b.drop_last(), sep);
        lemma_join2_assoc(join_all(a, sep), join_all(b.drop_last(), sep), b.last(), sep);
    }
}

proof fn lemma_concat_joined(a: Result<Seq<Seq<char>>, Failure>, b: Result<Seq<Seq<char>>, Failure>, sep: Seq<char>)
    ensures
        joined(concat_blocks(a, b), sep) == match joined(a, sep) {
            Ok(x) => match joined(b, sep) {
                Ok(y) => Ok(join2(x, y, sep)),
                Err(e) => Err(e),
            },
            Err(e) => Err(e),
        },
{
    if let Ok(x) = a {
        if let Ok(y) = b {
            lemma_join_all_concat(x, y, sep);
        }
    }
}

proof fn lemma_children_blocks(cs: Seq<CategoryOrScriptData>, n: nat, names: Option<Seq<String>>, funcs: Seq<FunctionData>, os: OS, revert: bool, recommend: Option<Recommend>)
    ensures
        children_result(cs, n, names, funcs, os, revert, recommend) == joined(children_blocks(cs, n, names, funcs, os, revert, recommend), "\n\n\n"@),
    decreases cs, n,
{
    if n == 0 || n > cs.len() {
    } else {
        lemma_children_blocks(cs, (n - 1) as nat, names, funcs, os, revert, recommend);
        lemma_child_blocks(cs[n - 1], names, funcs, os, revert, recommend);
        lemma_concat_joined(
            children_blocks(cs, (n - 1) as nat, names, funcs, os, revert, recommend),
            child_blocks(cs[n - 1], names, funcs, os, revert, recommend),
            "\n\n\n"@,
        );
    }
}

proof fn lemma_child_blocks(x: CategoryOrScriptData, names: Option<Seq<String>>, funcs: Seq<FunctionData>, os: OS, revert: bool, recommend: Option<Recommend>)
    ensures
        child_result(x, names, funcs, os, revert, recommend) == joined(child_blocks(x, names, funcs, os, revert, recommend), "\n\n\n"@),
    decreases x, 0nat,
{
    match x {
        CategoryOrScriptData::CategoryData(c) => {
            lemma_category_blocks(c, names, funcs, os, revert, recommend);
        },
        CategoryOrScriptData::ScriptData(s) => {
            if !excluded(s, names, recommend) && script_body(s, funcs, revert) is Ok {
                let bn = banner(script_body(s, funcs, revert)->Ok_0, s.name@, os, revert);
                let one = seq![bn];
                assert(one.drop_last() =~= Seq::<Seq<char>>::empty());
                assert(join_all(one.drop_last(), "\n\n\n"@) =~= Seq::<char>::empty());
                if bn.len() == 0 {
                    assert(bn =~= Seq::<char>::empty());
                }
                assert(join_all(one, "\n\n\n"@) == bn);
            }
        },
    }
}

proof fn lemma_category_blocks(c: CategoryData, names: Option<Seq<String>>, funcs: Seq<FunctionData>, os: OS, revert: bool, recommend: Option<Recommend>)
    ensures
        category_result(c, names, funcs, os, revert, recommend) == joined(category_blocks(c, names, funcs, os, revert, recommend), "\n\n\n"@),
    decreases c, 0nat,
{
    if opted_in(c, names) {
        lemma_children_blocks(c.children@, c.children@.len(), None, funcs, os, revert, None);
    } else {
        lemma_children_blocks(c.children@, c.children@.len(), names, funcs, os, revert, recommend);
    }
}

proof fn lemma_actions_blocks(cs: Seq<CategoryData>, n: nat, names: Option<Seq<String>>, funcs: Seq<FunctionData>, os: OS, revert: bool, recommend: Option<Recommend>)
    ensures
        actions_result(cs, n, names, funcs, os, revert, recommend) == joined(actions_blocks(cs, n, names, funcs, os, revert, recommend), "\n\n\n"@),
    decreases n,
{
    if n == 0 || n > cs.len() {
    } else {
        lemma_actions_blocks(cs, (n - 1) as nat, names, funcs, os, revert, recommend);
        lemma_category_blocks(cs[n - 1], names, funcs, os, revert, recommend);
        lemma_concat_joined(
            actions_blocks(cs, (n - 1) as nat, names, funcs, os, revert, recommend),
            category_blocks(cs[n - 1], names, funcs, os, revert, recommend),
            "\n\n\n"@,
        );
    }
}

/**
A resolved collection is its start code, then the formatted block of each script that the
filters keep, in declaration order and joined by two blank lines (left-out scripts and empty
categories leave no separator behind), then its end code; or the first failure met in that order.
*/
pub proof fn law_document_layout(cd: CollectionData, names: Option<Seq<String>>, revert: bool, recommend: Option<Recommend>, date: Seq<char>, homepage: Seq<char>, version: Seq<char>)
    ensures
        collection_result(cd, names, revert, recommend, date, homepage, version) == match actions_blocks(cd.actions@, cd.actions@.len(), names, funcs_of(cd), cd.os, revert, recommend) {
            Ok(blocks) => Ok(
                document(
                    with_globals(cd.scripting.start_code@, date, homepage, version),
                    join_all(blocks, "\n\n\n"@),
                    with_globals(cd.scripting.end_code@, date, homepage, version),
                ),
            ),
            Err(e) => Err(e),
        },
{
    lemma_actions_blocks(cd.actions@, cd.actions@.len(), names, funcs_of(cd), cd.os, revert, recommend);
}

proof fn lemma_fill_scan_plain(s: Seq<char>, k: int, name: Seq<char>, v: Seq<char>, out: Seq<char>)
    requires
        0 <= k <= s.len(),
        forall|i: int| k <= i < s.len() ==> placeholder_at(s, i, name, v) is None,
    ensures
        fill_scan(s, k, name, v, out) == out + s.subrange(k, s.len() as int),
    decreases s.len() - k,
{
    if k < s.len() {
        lemma_fill_scan_plain(s, k + 1, name, v, out.push(s[k]));
        assert(out.push(s[k]) + s.subrange(k + 1, s.len() as int) =~= out + s.subrange(k, s.len() as int));
    } else {
        assert(out + s.subrange(k, s.len() as int) =~= out);
    }
}

/// A text without placeholders of `name` is left as it is by the pass for `name`.
pub proof fn law_fill_without_placeholders(s: Seq<char>, name: Seq<char>, v: Seq<char>)
    requires
        forall|i: int| 0 <= i < s.len() ==> placeholder_at(s, i, name, v) is None,
    ensures
        fill(s, name, v) == s,
{
    lemma_fill_scan_plain(s, 0, name, v, Seq::empty());
    assert(Seq::<char>::empty() + s.subrange(0, s.len() as int) =~= s);
}

/**
A second pass for a required parameter with the same value changes nothing once the first pass
has left no placeholder of it, as when its output holds no `{` at all.
*/
pub proof fn law_fill_idempotent(t: Seq<char>, name: Seq<char>, v: Seq<char>)
    requires
        forall|i: int| 0 <= i < fill(t, name, v).len() ==> placeholder_at(fill(t, name, v), i, name, v) is None,
    ensures
        fill(fill(t, name, v), name, v) == fill(t, name, v),
{
    law_fill_without_placeholders(fill(t, name, v), name, v);
}

/// A pass over a text that holds no `{` finds no placeholder, so a second pass changes nothing.
pub proof fn law_fill_idempotent_without_braces(t: Seq<char>, name: Seq<char>, v: Seq<char>)
    requires
        forall|j: int| 0 <= j < fill(t, name, v).len() ==> fill(t, name, v)[j] != '{',
    ensures
        fill(fill(t, name, v), name, v) == fill(t, name, v),
{
    reveal_strlit("{{");
    let f = fill(t, name, v);
    assert forall|i: int| 0 <= i < f.len() implies placeholder_at(f, i, name, v) is None by {
        if crate::template::has_at(f, i, "{{"@) {
            assert(f.subrange(i, i + 2)[0] == f[i]);
        }
    }
    law_fill_idempotent(t, name, v);
}

/// Whether `s` holds no `{`.
pub open spec fn brace_free(s: Seq<char>) -> bool {
    forall|j: int| 0 <= j < s.len() ==> s[j] != '{'
}

/// The block `{{ with $name }}inner{{ end }}`.
pub open spec fn with_block(name: Seq<char>, inner: Seq<char>) -> Seq<char> {
    "{{ with $"@ + name + " }}"@ + inner + "{{ end }}"@
}

proof fn lemma_blocks_scan_plain(t: Seq<char>, i: int, j: int, name: Seq<char>, keep: bool, out: Seq<char>)
    requires
        0 <= i <= j <= t.len(),
        forall|k: int| i <= k < j ==> t[k] != '{',
    ensures
        blocks_scan(t, i, name, keep, out) == blocks_scan(t, j, name, keep, out + t.subrange(i, j)),
    decreases j - i,
{
    reveal_strlit("{{");
    if i < j {
        if has_at(t, i, "{{"@) {
            assert(t.subrange(i, i + 2)[0] == t[i]);
        }
        assert(with_block_at(t, i, name) is None);
        lemma_blocks_scan_plain(t, i + 1, j, name, keep, out.push(t[i]));
        assert(out.push(t[i]) + t.subrange(i + 1, j) =~= out + t.subrange(i, j));
    } else {
        assert(out + t.subrange(i, j) =~= out);
    }
}

proof fn lemma_close_scan_plain(t: Seq<char>, e: int, q: int, be: int)
    requires
        0 <= e <= q < t.len(),
        forall|k: int| e <= k < q ==> t[k] != '{',
        t[q] == '{',
        end_marker_at(t, q) == Some(be),
    ensures
        close_scan(t, e) matches Some((_, b)) && b == be,
    decreases q - e,
{
    reveal_strlit("{{");
    if e < q {
        if e + 1 < q && has_at(t, e + 1, "{{"@) {
            assert(t.subrange(e + 1, e + 3)[0] == t[e + 1]);
        }
        if has_at(t, e, "{{"@) {
            assert(t.subrange(e, e + 2)[0] == t[e]);
        }
        assert(end_marker_at(t, e) is None);
        if !(is_ws(t[e]) && end_marker_at(t, e + 1) is Some) {
            lemma_close_scan_plain(t, e + 1, q, be);
        }
    }
}

/**
With no value for an optional parameter, a template `prefix + block + suffix`, where the block is
`{{ with $name }}inner{{ end }}` and no part holds another `{`, becomes `prefix + suffix`: the
same as the template with the block deleted by hand.
*/
#[verifier::rlimit(50)]
pub proof fn law_unsupplied_block_deleted(prefix: Seq<char>, inner: Seq<char>, suffix: Seq<char>, p: ParameterDefinitionData, args: Seq<(String, String)>)
    requires
        p.optional,
        arg_lookup(args, p.name@) is None,
        brace_free(prefix),
        brace_free(inner),
        brace_free(suffix),
    ensures
        param_step(prefix + with_block(p.name@, inner) + suffix, p, args) == Ok::<Seq<char>, Failure>(prefix + suffix),
{
    reveal_strlit("{{ with $");
    reveal_strlit(" }}");
    reveal_strlit("{{ end }}");
    reveal_strlit("{{");
    reveal_strlit("}}");
    reveal_strlit("with");
    reveal_strlit("end");
    reveal_strlit("$");
    let name = p.name@;
    let n = name.len() as int;
    let open = "{{ with $"@ + name + " }}"@;
    let close = "{{ end }}"@;
    let t = prefix + with_block(name, inner) + suffix;
    let pl = prefix.len() as int;
    let q = pl + 12 + n + inner.len();
    let be = q + 9;
    assert(t =~= prefix + open + inner + close + suffix);
    assert forall|k: int| 0 <= k < open.len() implies t[pl + k] == open[k] by {}
    assert forall|k: int| 0 <= k < inner.len() implies t[pl + 12 + n + k] == inner[k] by {}
    assert forall|k: int| 0 <= k < 9 implies t[q + k] == close[k] by {}
    assert forall|k: int| 0 <= k < suffix.len() implies t[be + k] == suffix[k] by {}
    // the opening marker
    assert(t.subrange(pl, pl + 2) =~= "{{"@);
    assert(skip_ws(t, pl + 3) == pl + 3);
    assert(skip_ws(t, pl + 2) == pl + 3);
    assert(t.subrange(pl + 3, pl + 7) =~= "with"@);
    assert(skip_ws(t, pl + 8) == pl + 8);
    assert(skip_ws(t, pl + 7) == pl + 8);
    assert(t.subrange(pl + 8, pl + 9 + n) =~= "$"@ + name);
    assert(skip_ws(t, pl + 10 + n) == pl + 10 + n);
    assert(skip_ws(t, pl + 9 + n) == pl + 10 + n);
    assert(t.subrange(pl + 10 + n, pl + 12 + n) =~= "}}"@);
    assert(with_open_at(t, pl, name) == Some(pl + 12 + n));
    // the closing marker
    assert(t.subrange(q, q + 2) =~= "{{"@);
    assert(skip_ws(t, q + 3) == q + 3);
    assert(skip_ws(t, q + 2) == q + 3);
    assert(t.subrange(q + 3, q + 6) =~= "end"@);
    assert(skip_ws(t, q + 7) == q + 7);
    assert(skip_ws(t, q + 6) == q + 7);
    assert(t.subrange(q + 7, q + 9) =~= "}}"@);
    assert(end_marker_at(t, q) == Some(be));
    let o = pl + 12 + n;
    let st = if o < t.len() && is_ws(t[o]) {
        o + 1
    } else {
        o
    };
    lemma_close_scan_plain(t, st, q, be);
    assert(with_block_at(t, pl, name) matches Some((_, _, b)) && b == be);
    lemma_blocks_scan_plain(t, 0, pl, name, false, Seq::empty());
    assert(t.subrange(0, pl) =~= prefix);
    assert(Seq::<char>::empty() + prefix =~= prefix);
    lemma_blocks_scan_plain(t, be, t.len() as int, name, false, prefix);
    assert(t.subrange(be, t.len() as int) =~= suffix);
    assert(drop_blocks(t, name) == prefix + suffix);
}

/// `pieces` joined by `sep`, with no separator before the first or after the last.
pub open spec fn interleave(pieces: Seq<Seq<char>>, sep: Seq<char>) -> Seq<char>
    decreases pieces.len(),
{
    if pieces.len() == 0 {
        Seq::empty()
    } else if pieces.len() == 1 {
        pieces[0]
    } else {
        pieces[0] + sep + interleave(pieces.drop_first(), sep)
    }
}

/// The plain placeholder `{{ $name }}`.
pub open spec fn plain_placeholder(name: Seq<char>) -> Seq<char> {
    "{{ $"@ + name + " }}"@
}

proof fn lemma_fill_scan_stretch(t: Seq<char>, i: int, j: int, name: Seq<char>, v: Seq<char>, out: Seq<char>)
    requires
        0 <= i <= j <= t.len(),
        forall|k: int| i <= k < j ==> t[k] != '{',
    ensures
        fill_scan(t, i, name, v, out) == fill_scan(t, j, name, v, out + t.subrange(i, j)),
    decreases j - i,
{
    reveal_strlit("{{");
    if i < j {
        if has_at(t, i, "{{"@) {
            assert(t.subrange(i, i + 2)[0] == t[i]);
        }
        assert(placeholder_at(t, i, name, v) is None);
        lemma_fill_scan_stretch(t, i + 1, j, name, v, out.push(t[i]));
        assert(out.push(t[i]) + t.subrange(i + 1, j) =~= out + t.subrange(i, j));
    } else {
        assert(out + t.subrange(i, j) =~= out);
    }
}

#[verifier::rlimit(50)]
proof fn lemma_plain_placeholder_at(t: Seq<char>, q: int, name: Seq<char>, v: Seq<char>)
    requires
        0 <= q,
        q + plain_placeholder(name).len() <= t.len(),
        t.subrange(q, q + plain_placeholder(name).len()) == plain_placeholder(name),
    ensures
        placeholder_at(t, q, name, v) == Some((q + plain_placeholder(name).len(), v)),
{
    reveal_strlit("{{ $");
    reveal_strlit(" }}");
    reveal_strlit("{{");
    reveal_strlit("}}");
    reveal_strlit("$");
    let n = name.len() as int;
    let ph = plain_placeholder(name);
    assert forall|k: int| 0 <= k < ph.len() implies t[q + k] == ph[k] by {
        assert(t.subrange(q, q + ph.len())[k] == t[q + k]);
    }
    assert(ph =~= "{{ $"@ + name + " }}"@);
    assert(ph[0] == '{' && ph[1] == '{' && ph[2] == ' ' && ph[3] == '$');
    assert forall|k: int| 0 <= k < n implies ph[4 + k] == name[k] by {}
    assert(ph[4 + n] == ' ' && ph[5 + n] == '}' && ph[6 + n] == '}');
    assert(t.subrange(q, q + 2) =~= "{{"@);
    assert(skip_ws(t, q + 3) == q + 3);
    assert(skip_ws(t, q + 2) == q + 3);
    assert(t.subrange(q + 3, q + 4 + n) =~= "$"@ + name);
    assert(skip_ws(t, q + 5 + n) == q + 5 + n);
    assert(skip_ws(t, q + 4 + n) == q + 5 + n);
    assert(t.subrange(q + 5 + n, q + 7 + n) =~= "}}"@);
}

proof fn lemma_fill_scan_interleave(t: Seq<char>, off: int, pieces: Seq<Seq<char>>, name: Seq<char>, v: Seq<char>, out: Seq<char>)
    requires
        0 <= off <= t.len(),
        t.subrange(off, t.len() as int) == interleave(pieces, plain_placeholder(name)),
        forall|p: int| 0 <= p < pieces.len() ==> brace_free(#[trigger] pieces[p]),
    ensures
        fill_scan(t, off, name, v, out) == out + interleave(pieces, v),
    decreases pieces.len(),
{
    let ph = plain_placeholder(name);
    if pieces.len() == 0 {
        assert(t.subrange(off, t.len() as int).len() == 0);
        assert(out + interleave(pieces, v) =~= out);
    } else {
        let p0 = pieces[0];
        let e0 = off + p0.len();
        let whole = interleave(pieces, ph);
        if pieces.len() == 1 {
            assert(whole == p0);
        } else {
            assert(whole == p0 + ph + interleave(pieces.drop_first(), ph));
        }
        assert(p0.len() <= whole.len());
        assert(forall|k: int| 0 <= k < p0.len() ==> whole[k] == p0[k]);
        assert(brace_free(p0));
        assert forall|k: int| off <= k < e0 implies t[k] != '{' by {
            assert(t.subrange(off, t.len() as int)[k - off] == t[k]);
            assert(interleave(pieces, ph)[k - off] == p0[k - off]);
        }
        lemma_fill_scan_stretch(t, off, e0, name, v, out);
        assert(t.subrange(off, e0) =~= p0);
        if pieces.len() == 1 {
            assert(e0 == t.len());
            assert(out + p0 =~= out + interleave(pieces, v));
        } else {
            let rest = pieces.drop_first();
            let q = e0;
            assert(t.subrange(off, t.len() as int) =~= p0 + ph + interleave(rest, ph));
            assert(t.subrange(q, q + ph.len()) =~= ph) by {
                assert forall|k: int| 0 <= k < ph.len() implies t.subrange(q, q + ph.len())[k] == ph[k] by {
                    assert(t.subrange(off, t.len() as int)[p0.len() + k] == t[q + k]);
                }
            }
            lemma_plain_placeholder_at(t, q, name, v);
            assert(t.subrange(q + ph.len(), t.len() as int) =~= interleave(rest, ph)) by {
                assert forall|k: int| 0 <= k < t.len() - (q + ph.len()) implies t.subrange(q + ph.len(), t.len() as int)[k] == interleave(rest, ph)[k] by {
                    assert(t.subrange(off, t.len() as int)[p0.len() + ph.len() + k] == t[q + ph.len() + k]);
                }
            }
            assert forall|p: int| 0 <= p < rest.len() implies brace_free(#[trigger] rest[p]) by {
                assert(rest[p] == pieces[p + 1]);
            }
            lemma_fill_scan_interleave(t, q + ph.len(), rest, name, v, out + p0 + v);
            assert(out + p0 + v + interleave(rest, v) =~= out + interleave(pieces, v));
        }
    }
}

proof fn lemma_interleave_brace_free(pieces: Seq<Seq<char>>, v: Seq<char>)
    requires
        brace_free(v),
        forall|p: int| 0 <= p < pieces.len() ==> brace_free(#[trigger] pieces[p]),
    ensures
        brace_free(interleave(pieces, v)),
    decreases pieces.len(),
{
    if pieces.len() > 1 {
        let rest = pieces.drop_first();
        assert forall|p: int| 0 <= p < rest.len() implies brace_free(#[trigger] rest[p]) by {
            assert(rest[p] == pieces[p + 1]);
        }
        lemma_interleave_brace_free(rest, v);
        let whole = pieces[0] + v + interleave(rest, v);
        assert(brace_free(pieces[0]));
        assert forall|j: int| 0 <= j < whole.len() implies whole[j] != '{' by {
            if j < pieces[0].len() {
            } else if j < pieces[0].len() + v.len() {
            } else {
            }
        }
    } else if pieces.len() == 1 {
        assert(brace_free(pieces[0]));
    }
}

/**
A template made of pieces without `{` separated by `{{ $name }}`, filled with a value without
`{`, is the pieces joined by the value; a second pass with the same value leaves it unchanged.
*/
pub proof fn law_fill_twice(pieces: Seq<Seq<char>>, name: Seq<char>, v: Seq<char>)
    requires
        brace_free(v),
        forall|p: int| 0 <= p < pieces.len() ==> brace_free(#[trigger] pieces[p]),
    ensures
        fill(interleave(pieces, plain_placeholder(name)), name, v) == interleave(pieces, v),
        fill(fill(interleave(pieces, plain_placeholder(name)), name, v), name, v) == interleave(pieces, v),
{
    let t = interleave(pieces, plain_placeholder(name));
    assert(t.subrange(0, t.len() as int) =~= t);
    lemma_fill_scan_interleave(t, 0, pieces, name, v, Seq::empty());
    assert(Seq::<char>::empty() + interleave(pieces, v) =~= interleave(pieces, v));
    lemma_interleave_brace_free(pieces, v);
    law_fill_idempotent_without_braces(t, name, v);
}

proof fn lemma_children_blocks_count(cs: Seq<CategoryOrScriptData>, n: nat, names: Option<Seq<String>>, funcs: Seq<FunctionData>, os: OS, revert: bool, recommend: Option<Recommend>)
    ensures
        children_blocks(cs, n, names, funcs, os, revert, recommend) matches Ok(bs) ==> bs.len() == children_count(cs, n, names, recommend),
    decreases cs, n,
{
    if n > 0 && n <= cs.len() {
        lemma_children_blocks_count(cs, (n - 1) as nat, names, funcs, os, revert, recommend);
        lemma_child_blocks_count(cs[n - 1], names, funcs, os, revert, recommend);
    }
}

proof fn lemma_child_blocks_count(x: CategoryOrScriptData, names: Option<Seq<String>>, funcs: Seq<FunctionData>, os: OS, revert: bool, recommend: Option<Recommend>)
    ensures
        child_blocks(x, names, funcs, os, revert, recommend) matches Ok(bs) ==> bs.len() == child_count(x, names, recommend),
    decreases x, 0nat,
{
    match x {
        CategoryOrScriptData::CategoryData(c) => lemma_category_blocks_count(c, names, funcs, os, revert, recommend),
        CategoryOrScriptData::ScriptData(s) => {},
    }
}

proof fn lemma_category_blocks_count(c: CategoryData, names: Option<Seq<String>>, funcs: Seq<FunctionData>, os: OS, revert: bool, recommend: Option<Recommend>)
    ensures
        category_blocks(c, names, funcs, os, revert, recommend) matches Ok(bs) ==> bs.len() == category_count(c, names, recommend),
    decreases c, 0nat,
{
    if opted_in(c, names) {
        lemma_children_blocks_count(c.children@, c.children@.len(), None, funcs, os, revert, None);
    } else {
        lemma_children_blocks_count(c.children@, c.children@.len(), names, funcs, os, revert, recommend);
    }
}

proof fn lemma_actions_blocks_count(cs: Seq<CategoryData>, n: nat, names: Option<Seq<String>>, funcs: Seq<FunctionData>, os: OS, revert: bool, recommend: Option<Recommend>)
    ensures
        actions_blocks(cs, n, names, funcs, os, revert, recommend) matches Ok(bs) ==> bs.len() == actions_count(cs, n, names, recommend),
    decreases n,
{
    if n > 0 && n <= cs.len() {
        lemma_actions_blocks_count(cs, (n - 1) as nat, names, funcs, os, revert, recommend);
        lemma_category_blocks_count(cs[n - 1], names, funcs, os, revert, recommend);
    }
}

/**
The blocks that a resolved collection holds (see `law_document_layout`) are as many as the
scripts that the filters keep; with `law_stricter_filter_keeps_fewer_in_collection`, moving the
filter from none to `Strict` to `Standard` never raises the number of blocks in the output.
*/
pub proof fn law_blocks_count_kept_scripts(cd: CollectionData, names: Option<Seq<String>>, revert: bool, recommend: Option<Recommend>)
    ensures
        actions_blocks(cd.actions@, cd.actions@.len(), names, funcs_of(cd), cd.os, revert, recommend) matches Ok(bs)
            ==> bs.len() == actions_count(cd.actions@, cd.actions@.len(), names, recommend),
{
    lemma_actions_blocks_count(cd.actions@, cd.actions@.len(), names, funcs_of(cd), cd.os, revert, recommend);
}

proof fn lemma_children_insert_before(cs: Seq<CategoryOrScriptData>, k: int, x: CategoryOrScriptData, n: nat, names: Option<Seq<String>>, funcs: Seq<FunctionData>, os: OS, revert: bool, recommend: Option<Recommend>)
    requires
        0 <= k <= cs.len(),
        n <= k,
    ensures
        children_result(cs.insert(k, x), n, names, funcs, os, revert, recommend) == children_result(cs, n, names, funcs, os, revert, recommend),
    decreases n,
{
    if n > 0 {
        lemma_children_insert_before(cs, k, x, (n - 1) as nat, names, funcs, os, revert, recommend);
        assert(cs.insert(k, x)[n - 1] == cs[n - 1]);
    }
}

proof fn lemma_children_insert_after(cs: Seq<CategoryOrScriptData>, k: int, s: ScriptData, n: nat, names: Option<Seq<String>>, funcs: Seq<FunctionData>, os: OS, revert: bool, recommend: Option<Recommend>)
    requires
        0 <= k <= cs.len(),
        k <= n <= cs.len(),
        excluded(s, names, recommend),
    ensures
        children_result(cs.insert(k, CategoryOrScriptData::ScriptData(s)), n + 1, names, funcs, os, revert, recommend)
            == children_result(cs, n, names, funcs, os, revert, recommend),
    decreases n,
{
    let x = CategoryOrScriptData::ScriptData(s);
    let ins = cs.insert(k, x);
    if n == k {
        lemma_children_insert_before(cs, k, x, k as nat, names, funcs, os, revert, recommend);
        assert(ins[k] == x);
        assert(child_result(x, names, funcs, os, revert, recommend) == Ok::<Seq<char>, Failure>(Seq::empty()));
        if let Ok(acc) = children_result(ins, k as nat, names, funcs, os, revert, recommend) {
            assert(join2(acc, Seq::<char>::empty(), "\n\n\n"@) == acc);
        }
    } else {
        lemma_children_insert_after(cs, k, s, (n - 1) as nat, names, funcs, os, revert, recommend);
        assert(ins[n as int] == cs[n - 1]);
    }
}

/**
Inserting, among a category's children, a script that the filters leave out (with or without a
body) changes neither the category's text nor its failure: a left-out script leaves no block, no
separator and no error.
*/
pub proof fn law_left_out_script_leaves_no_trace(cs: Seq<CategoryOrScriptData>, k: int, s: ScriptData, names: Option<Seq<String>>, funcs: Seq<FunctionData>, os: OS, revert: bool, recommend: Option<Recommend>)
    requires
        0 <= k <= cs.len(),
        excluded(s, names, recommend),
    ensures
        children_result(cs.insert(k, CategoryOrScriptData::ScriptData(s)), cs.len() + 1, names, funcs, os, revert, recommend)
            == children_result(cs, cs.len(), names, funcs, os, revert, recommend),
{
    lemma_children_insert_after(cs, k, s, cs.len(), names, funcs, os, revert, recommend);
}

/// Number of double quotes in `s`.
pub open spec fn quote_count(s: Seq<char>) -> nat
    decreases s.len(),
{
    if s.len() == 0 {
        0
    } else {
        quote_count(s.drop_last()) + if s.last() == '"' {
            1nat
        } else {
            0nat
        }
    }
}

proof fn lemma_quote_count_concat(a: Seq<char>, b: Seq<char>)
    ensures
        quote_count(a + b) == quote_count(a) + quote_count(b),
    decreases b.len(),
{
    if b.len() == 0 {
        assert(a + b =~= a);
    } else {
        assert((a + b).drop_last() =~= a + b.drop_last());
        lemma_quote_count_concat(a, b.drop_last());
    }
}

/**
`escapeDoubleQuotes` turns each double quote into the three-quote escape `"^""`: the result has
three times as many double quotes as the input.
*/
pub proof fn law_escape_triples_quotes(v: Seq<char>)
    ensures
        quote_count(escape_quotes(v)) == 3 * quote_count(v),
    decreases v.len(),
{
    reveal_strlit("\"^\"\"");
    if v.len() > 0 {
        law_escape_triples_quotes(v.drop_last());
        let head = escape_quotes(v.drop_last());
        if v.last() == '"' {
            let esc = "\"^\"\""@;
            lemma_quote_count_concat(head, esc);
            assert(esc =~= seq!['"', '^', '"', '"']);
            reveal_with_fuel(quote_count, 5);
            assert(esc.drop_last() =~= seq!['"', '^', '"']);
            assert(esc.drop_last().drop_last() =~= seq!['"', '^']);
            assert(esc.drop_last().drop_last().drop_last() =~= seq!['"']);
            assert(esc.drop_last().drop_last().drop_last().drop_last() =~= Seq::<char>::empty());
            assert(quote_count(esc) == 3);
        } else {
            assert(head.push(v.last()).drop_last() =~= head);
        }
    }
}

/// The substitution pass of a function whose one parameter is that optional one deletes the block too.
pub proof fn law_unsupplied_block_deleted_by_substitution(prefix: Seq<char>, inner: Seq<char>, suffix: Seq<char>, p: ParameterDefinitionData, args: Seq<(String, String)>)
    requires
        p.optional,
        arg_lookup(args, p.name@) is None,
        brace_free(prefix),
        brace_free(inner),
        brace_free(suffix),
    ensures
        crate::collection::substitution(prefix + with_block(p.name@, inner) + suffix, seq![p], args) == Ok::<Seq<char>, Failure>(prefix + suffix),
{
    let t = prefix + with_block(p.name@, inner) + suffix;
    law_unsupplied_block_deleted(prefix, inner, suffix, p, args);
    assert(seq![p].drop_last() =~= Seq::<ParameterDefinitionData>::empty());
    assert(seq![p].last() == p);
    assert(crate::collection::substitution(t, seq![p].drop_last(), args) == Ok::<Seq<char>, Failure>(t));
}

} // verus!
