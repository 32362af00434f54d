//! The collection tree, its function table, and how both resolve into script text.
use vstd::prelude::*;
use crate::template::{drop_blocks, fill, fill_param, open_blocks, rewrite_blocks};
use crate::text::{append_all, append_str, from_chars, to_chars};
use crate::util::{banner, beautify, parse_start_end, with_globals};
use crate::OS;

verus! {

/// Error emitted while resolving a collection into a script.
#[derive(Debug, Clone)]
pub enum ParseError {
    /// A call names a function that the collection does not define.
    Function(String),
    /// A required parameter was given no value.
    Parameter(String),
    /// A script or function defines neither a call nor the code it is asked for.
    CallCode(String),
    /// Calls nest deeper than `MAX_CALL_DEPTH`, as a call cycle does; names the function.
    Recursion(String),
}

/// The failure that a `ParseError` reports, with the name it carries.
pub enum Failure {
    /// An undefined function.
    Function(Seq<char>),
    /// A required parameter without a value.
    Parameter(Seq<char>),
    /// A script or function without the body asked for.
    CallCode(Seq<char>),
    /// A function where calls nest too deep.
    Recursion(Seq<char>),
}

impl View for ParseError {
    type V = Failure;

    open spec fn view(&self) -> Failure {
        match self {
            ParseError::Function(n) => Failure::Function(n@),
            ParseError::Parameter(n) => Failure::Parameter(n@),
            ParseError::CallCode(n) => Failure::CallCode(n@),
            ParseError::Recursion(n) => Failure::Recursion(n@),
        }
    }
}

/// A parameter that a function declares.
#[derive(Debug, Clone)]
pub struct ParameterDefinitionData {
    /// Name of the parameter, used as `{{ $name }}` in the function's code.
    pub name: String,
    /// Whether callers may leave the parameter without a value.
    pub optional: bool,
}

/// The value of `name` among `args`: the first entry with that key.
pub open spec fn arg_lookup(args: Seq<(String, String)>, name: Seq<char>) -> Option<Seq<char>>
    decreases args.len(),
{
    if args.len() == 0 {
        None
    } else if args[0].0@ == name {
        Some(args[0].1@)
    } else {
        arg_lookup(args.drop_first(), name)
    }
}

/// The template after the pass for one declared parameter.
pub open spec fn param_step(body: Seq<char>, p: ParameterDefinitionData, args: Seq<(String, String)>) -> Result<Seq<char>, Failure> {
    match arg_lookup(args, p.name@) {
        Some(v) => Ok(
            fill(
                if p.optional {
                    open_blocks(body, p.name@)
                } else {
                    body
                },
                p.name@,
                v,
            ),
        ),
        None => if p.optional {
            Ok(drop_blocks(body, p.name@))
        } else {
            Err(Failure::Parameter(p.name@))
        },
    }
}

/// The template after the passes for `params`, in declaration order; the first failure stops it.
pub open spec fn substitution(body: Seq<char>, params: Seq<ParameterDefinitionData>, args: Seq<(String, String)>) -> Result<Seq<char>, Failure>
    decreases params.len(),
{
    if params.len() == 0 {
        Ok(body)
    } else {
        match substitution(body, params.drop_last(), args) {
            Ok(b) => param_step(b, params.last(), args),
            Err(e) => Err(e),
        }
    }
}

/// A failure on a prefix of the parameters is the failure of the whole pass.
proof fn lemma_substitution_failure_stays(body: Seq<char>, params: Seq<ParameterDefinitionData>, args: Seq<(String, String)>, k: int)
    requires
        0 <= k <= params.len(),
        substitution(body, params.subrange(0, k), args) is Err,
    ensures
        substitution(body, params, args) == substitution(body, params.subrange(0, k), args),
    decreases params.len() - k,
{
    if k < params.len() {
        assert(params.subrange(0, k + 1).drop_last() =~= params.subrange(0, k));
        lemma_substitution_failure_stays(body, params, args, k + 1);
    } else {
        assert(params.subrange(0, k) =~= params);
    }
}

/// The character sequence of an exec result, or its failure.
pub open spec fn result_view(r: Result<Vec<char>, ParseError>) -> Result<Seq<char>, Failure> {
    match r {
        Ok(v) => Ok(v@),
        Err(e) => Err(e@),
    }
}

/// The value of `name` among `args`; see `arg_lookup`.
fn find_arg<'a>(args: &'a Vec<(String, String)>, name: &String) -> (r: Option<&'a String>)
    ensures
        match arg_lookup(args@, name@) {
            Some(v) => r matches Some(s) && s@ == v,
            None => r is None,
        },
{
    let mut i: usize = 0;
    assert(args@.subrange(0, args@.len() as int) =~= args@);
    while i < args.len()
        invariant
            i <= args.len(),
            arg_lookup(args@, name@) == arg_lookup(args@.subrange(i as int, args@.len() as int), name@),
        decreases args.len() - i,
    {
        let ghost rest = args@.subrange(i as int, args@.len() as int);
        assert(rest.drop_first() =~= args@.subrange(i + 1, args@.len() as int));
        if args[i].0 == *name {
            return Some(&args[i].1);
        }
        i = i + 1;
    }
    None
}

/**
Substitutes the arguments `args` for the declared `params` in `body`, one parameter after the
other: a required parameter without a value fails with `ParseError::Parameter`; an optional one
opens its `with` blocks when it has a value and deletes them when it has none.
*/
pub fn substitute(body: &Vec<char>, params: &Vec<ParameterDefinitionData>, args: &Vec<(String, String)>) -> (r: Result<Vec<char>, ParseError>)
    ensures
        result_view(r) == substitution(body@, params@, args@),
{
    let mut cur = body.clone();
    let mut i: usize = 0;
    while i < params.len()
        invariant
            i <= params.len(),
            substitution(body@, params@.subrange(0, i as int), args@) == Ok::<Seq<char>, Failure>(cur@),
        decreases params.len() - i,
    {
        let p = &params[i];
        let name = to_chars(p.name.as_str());
        let ghost prefix = params@.subrange(0, i + 1);
        assert(prefix.drop_last() =~= params@.subrange(0, i as int));
        match find_arg(args, &p.name) {
            Some(v) => {
                let value = to_chars(v.as_str());
                let opened = if p.optional {
                    rewrite_blocks(&cur, &name, true)
                } else {
                    cur.clone()
                };
                cur = fill_param(&opened, &name, &value);
            },
            None => {
                if p.optional {
                    cur = rewrite_blocks(&cur, &name, false);
                } else {
                    proof {
                        lemma_substitution_failure_stays(body@, params@, args@, i + 1);
                    }
                    return Err(ParseError::Parameter(p.name.clone()));
                }
            },
        }
        i = i + 1;
    }
    assert(params@.subrange(0, params@.len() as int) =~= params@);
    Ok(cur)
}

/// Deepest nesting of function calls that resolution follows before it reports a cycle.
pub const MAX_CALL_DEPTH: usize = 64;

/// A single documentation URL or a list of them.
#[derive(Debug, Clone)]
pub enum DocumentationUrlsData {
    /// Several URLs.
    VecStrings(Vec<String>),
    /// One URL.
    String(String),
}

/// How conservative a script is. `Strict` scripts may break some functionality for privacy.
#[derive(Clone, Copy, Debug, PartialEq, Eq, PartialOrd, Structural)]
pub enum Recommend {
    /// May break certain functionality in favour of privacy and security.
    Strict,
    /// Only non-breaking scripts that keep the OS fully functional.
    Standard,
}

/// The position of a level in the order `Strict < Standard`.
pub open spec fn rank(r: Recommend) -> int {
    match r {
        Recommend::Strict => 0,
        Recommend::Standard => 1,
    }
}

/// One call: the function's name and the values of its parameters, by name.
#[derive(Debug, Clone)]
pub struct FunctionCallData {
    /// Name of the function to call.
    pub function: String,
    /// Values of the parameters, as (name, value) pairs; the first pair of a name counts.
    pub parameters: Option<Vec<(String, String)>>,
}

/// One call, or several called in order.
#[derive(Debug, Clone)]
pub enum FunctionCallsData {
    /// Several calls, in order.
    VecFunctionCallData(Vec<FunctionCallData>),
    /// A single call.
    FunctionCallData(FunctionCallData),
}

/// A reusable named template: inline code, or calls to other functions. Where both are given,
/// the calls are used and the code is ignored.
#[derive(Debug, Clone)]
pub struct FunctionData {
    /// Name that calls use; unique in the collection.
    pub name: String,
    /// The code, where the function does not call others.
    pub code: Option<String>,
    /// The code that undoes `code`.
    pub revert_code: Option<String>,
    /// The functions that this one calls, in order.
    pub call: Option<FunctionCallsData>,
    /// The parameters that the code refers to.
    pub parameters: Option<Vec<ParameterDefinitionData>>,
}

/// A single tweak: inline code, or calls into the function table. Where both are given, the
/// calls are used and the code is ignored.
#[derive(Debug, Clone)]
pub struct ScriptData {
    /// Name of the script; unique in the collection.
    pub name: String,
    /// The code that applies the tweak.
    pub code: Option<String>,
    /// The code that undoes it.
    pub revert_code: Option<String>,
    /// The functions to call, in order, in place of inline code.
    pub call: Option<FunctionCallsData>,
    /// Where to learn more about the tweak.
    pub docs: Option<DocumentationUrlsData>,
    /// How conservative the tweak is; a script without a level is not recommended.
    pub recommend: Option<Recommend>,
}

/// A named group of scripts and subcategories.
#[derive(Debug)]
pub struct CategoryData {
    /// Subcategories and scripts, in order.
    pub children: Vec<CategoryOrScriptData>,
    /// Name of the category; unique in the collection.
    pub category: String,
    /// Where to learn more about the category.
    pub docs: Option<DocumentationUrlsData>,
}

/// A child of a category.
#[derive(Debug)]
pub enum CategoryOrScriptData {
    /// A subcategory.
    CategoryData(CategoryData),
    /// A script.
    ScriptData(ScriptData),
}

/// The scripting language of a collection and the code around the scripts.
#[derive(Debug, Clone)]
pub struct ScriptingDefinitionData {
    /// Name of the language.
    pub language: String,
    /// Extension that a file of the script takes.
    pub file_extension: Option<String>,
    /// Code put before the scripts; may use the global variables.
    pub start_code: String,
    /// Code put after the scripts; may use the global variables.
    pub end_code: String,
}

/// The code that a body selects: `revert_code` in revert mode, else `code`.
pub open spec fn chosen(code: Option<String>, revert_code: Option<String>, revert: bool) -> Option<Seq<char>> {
    let c = if revert {
        revert_code
    } else {
        code
    };
    match c {
        Some(s) => Some(s@),
        None => None,
    }
}

/// `acc` and `r` joined by `sep`, where an empty part adds nothing.
pub open spec fn join2(acc: Seq<char>, r: Seq<char>, sep: Seq<char>) -> Seq<char> {
    if r.len() == 0 {
        acc
    } else if acc.len() == 0 {
        r
    } else {
        acc + sep + r
    }
}

/// Index of the first function named `name` in `funcs[k..]`.
pub open spec fn find_from(funcs: Seq<FunctionData>, name: Seq<char>, k: int) -> Option<int>
    decreases funcs.len() - k,
{
    if k < 0 || k >= funcs.len() {
        None
    } else if funcs[k].name@ == name {
        Some(k)
    } else {
        find_from(funcs, name, k + 1)
    }
}

/// The declared parameters of `f`.
pub open spec fn params_of(f: FunctionData) -> Seq<ParameterDefinitionData> {
    match f.parameters {
        Some(v) => v@,
        None => Seq::empty(),
    }
}

/// The argument pairs of a call.
pub open spec fn args_of(c: FunctionCallData) -> Seq<(String, String)> {
    match c.parameters {
        Some(v) => v@,
        None => Seq::empty(),
    }
}

/**
What function `f` yields, called with `args` and with calls allowed to nest `fuel` deeper: its
body (its calls, or the code selected by `revert`) with the arguments substituted.
*/
pub open spec fn function_result(f: FunctionData, args: Seq<(String, String)>, funcs: Seq<FunctionData>, revert: bool, fuel: nat) -> Result<Seq<char>, Failure>
    decreases fuel, 3nat, 0nat,
{
    let body = match f.call {
        Some(c) => calls_result(c, funcs, revert, fuel),
        None => match chosen(f.code, f.revert_code, revert) {
            Some(code) => Ok(code),
            None => Err(Failure::CallCode(f.name@)),
        },
    };
    match body {
        Ok(b) => substitution(b, params_of(f), args),
        Err(e) => Err(e),
    }
}

/// What a call yields: the named function's result, one level deeper.
pub open spec fn call_result(c: FunctionCallData, funcs: Seq<FunctionData>, revert: bool, fuel: nat) -> Result<Seq<char>, Failure>
    decreases fuel, 0nat, 0nat,
{
    match find_from(funcs, c.function@, 0) {
        Some(k) => if fuel == 0 {
            Err(Failure::Recursion(c.function@))
        } else {
            function_result(funcs[k], args_of(c), funcs, revert, (fuel - 1) as nat)
        },
        None => Err(Failure::Function(c.function@)),
    }
}

/// The results of the first `n` calls of `cs`, joined by a blank line; the first failure stops it.
pub open spec fn call_list_result(cs: Seq<FunctionCallData>, n: nat, funcs: Seq<FunctionData>, revert: bool, fuel: nat) -> Result<Seq<char>, Failure>
    decreases fuel, 1nat, n,
{
    if n == 0 || n > cs.len() {
        Ok(Seq::empty())
    } else {
        match call_list_result(cs, (n - 1) as nat, funcs, revert, fuel) {
            Ok(acc) => match call_result(cs[n - 1], funcs, revert, fuel) {
                Ok(r) => Ok(join2(acc, r, "\n\n"@)),
                Err(e) => Err(e),
            },
            Err(e) => Err(e),
        }
    }
}

/// What a call chain yields.
pub open spec fn calls_result(c: FunctionCallsData, funcs: Seq<FunctionData>, revert: bool, fuel: nat) -> Result<Seq<char>, Failure>
    decreases fuel, 2nat, 0nat,
{
    match c {
        FunctionCallsData::VecFunctionCallData(v) => call_list_result(v@, v@.len(), funcs, revert, fuel),
        FunctionCallsData::FunctionCallData(x) => call_result(x, funcs, revert, fuel),
    }
}

/// Appends `r` to `acc` as `join2` says.
fn join_into(acc: &mut Vec<char>, r: &Vec<char>, sep: &str)
    ensures
        final(acc)@ == join2(old(acc)@, r@, sep@),
{
    if r.len() == 0 {
        return;
    }
    if acc.len() == 0 {
        append_all(acc, r);
        assert(acc@ =~= r@);
        return;
    }
    append_str(acc, sep);
    append_all(acc, r);
}

/// A failure of the first `k` calls is the failure of the first `n`.
proof fn lemma_call_list_failure_stays(cs: Seq<FunctionCallData>, k: nat, n: nat, funcs: Seq<FunctionData>, revert: bool, fuel: nat)
    requires
        k <= n <= cs.len(),
        call_list_result(cs, k, funcs, revert, fuel) is Err,
    ensures
        call_list_result(cs, n, funcs, revert, fuel) == call_list_result(cs, k, funcs, revert, fuel),
    decreases n - k,
{
    if k < n {
        lemma_call_list_failure_stays(cs, k, (n - 1) as nat, funcs, revert, fuel);
    }
}

/// Index of the first function named `name`; see `find_from`.
fn find_function(funcs: &Vec<FunctionData>, name: &String) -> (r: Option<usize>)
    ensures
        match find_from(funcs@, name@, 0) {
            Some(k) => r == Some(k as usize) && 0 <= k < funcs.len(),
            None => r is None,
        },
{
    let mut i: usize = 0;
    while i < funcs.len()
        invariant
            i <= funcs.len(),
            find_from(funcs@, name@, 0) == find_from(funcs@, name@, i as int),
        decreases funcs.len() - i,
    {
        if funcs[i].name == *name {
            return Some(i);
        }
        i = i + 1;
    }
    None
}

impl FunctionData {
    /// Resolves the function called with `args`; see `function_result`.
    pub fn parse(&self, args: &Vec<(String, String)>, funcs: &Vec<FunctionData>, revert: bool, fuel: usize) -> (r: Result<Vec<char>, ParseError>)
        ensures
            result_view(r) == function_result(*self, args@, funcs@, revert, fuel as nat),
        decreases fuel, 3nat, 0nat,
    {
        let body = match &self.call {
            Some(c) => c.parse(funcs, revert, fuel),
            None => {
                let code = if revert {
                    &self.revert_code
                } else {
                    &self.code
                };
                match code {
                    Some(s) => Ok(to_chars(s.as_str())),
                    None => Err(ParseError::CallCode(self.name.clone())),
                }
            },
        };
        match body {
            Ok(b) => match &self.parameters {
                Some(ps) => substitute(&b, ps, args),
                None => {
                    let none: Vec<ParameterDefinitionData> = Vec::new();
                    substitute(&b, &none, args)
                },
            },
            Err(e) => Err(e),
        }
    }
}

impl FunctionCallData {
    /// Resolves the call; see `call_result`.
    pub fn parse(&self, funcs: &Vec<FunctionData>, revert: bool, fuel: usize) -> (r: Result<Vec<char>, ParseError>)
        ensures
            result_view(r) == call_result(*self, funcs@, revert, fuel as nat),
        decreases fuel, 0nat, 0nat,
    {
        match find_function(funcs, &self.function) {
            Some(k) => {
                if fuel == 0 {
                    return Err(ParseError::Recursion(self.function.clone()));
                }
                match &self.parameters {
                    Some(args) => funcs[k].parse(args, funcs, revert, fuel - 1),
                    None => {
                        let none: Vec<(String, String)> = Vec::new();
                        funcs[k].parse(&none, funcs, revert, fuel - 1)
                    },
                }
            },
            None => Err(ParseError::Function(self.function.clone())),
        }
    }
}

impl FunctionCallsData {
    /// Resolves the call chain; see `calls_result`.
    pub fn parse(&self, funcs: &Vec<FunctionData>, revert: bool, fuel: usize) -> (r: Result<Vec<char>, ParseError>)
        ensures
            result_view(r) == calls_result(*self, funcs@, revert, fuel as nat),
        decreases fuel, 2nat, 0nat,
    {
        match self {
            FunctionCallsData::VecFunctionCallData(v) => {
                let mut acc: Vec<char> = Vec::new();
                let mut i: usize = 0;
                while i < v.len()
                    invariant
                        i <= v.len(),
                        call_list_result(v@, i as nat, funcs@, revert, fuel as nat) == Ok::<Seq<char>, Failure>(acc@),
                        calls_result(*self, funcs@, revert, fuel as nat) == call_list_result(v@, v@.len(), funcs@, revert, fuel as nat),
                    decreases v.len() - i,
                {
                    match v[i].parse(funcs, revert, fuel) {
                        Ok(r) => join_into(&mut acc, &r, "\n\n"),
                        Err(e) => {
                            proof {
                                assert(call_list_result(v@, (i + 1) as nat, funcs@, revert, fuel as nat) == Err::<Seq<char>, Failure>(e@));
                                lemma_call_list_failure_stays(v@, (i + 1) as nat, v@.len(), funcs@, revert, fuel as nat);
                            }
                            return Err(e);
                        },
                    }
                    i = i + 1;
                }
                Ok(acc)
            },
            FunctionCallsData::FunctionCallData(x) => x.parse(funcs, revert, fuel),
        }
    }
}

/// Whether `n` is one of `names`.
pub open spec fn listed(names: Seq<String>, n: Seq<char>) -> bool {
    exists|i: int| 0 <= i < names.len() && #[trigger] names[i]@ == n
}

/// Whether a recommendation filter admits a script of level `level`: one no more aggressive.
pub open spec fn admitted(filter: Option<Recommend>, level: Option<Recommend>) -> bool {
    match filter {
        None => true,
        Some(f) => match level {
            Some(l) => rank(f) <= rank(l),
            None => false,
        },
    }
}

/// Whether the filters leave script `s` out.
pub open spec fn excluded(s: ScriptData, names: Option<Seq<String>>, recommend: Option<Recommend>) -> bool {
    !admitted(recommend, s.recommend) || (names matches Some(ns) && !listed(ns, s.name@))
}

/// The script's code before formatting: its calls, or the code selected by `revert`.
pub open spec fn script_body(s: ScriptData, funcs: Seq<FunctionData>, revert: bool) -> Result<Seq<char>, Failure> {
    match s.call {
        Some(c) => calls_result(c, funcs, revert, MAX_CALL_DEPTH as nat),
        None => match chosen(s.code, s.revert_code, revert) {
            Some(code) => Ok(code),
            None => Err(Failure::CallCode(s.name@)),
        },
    }
}

/// What a script contributes: nothing where it is filtered out, else its formatted body.
pub open spec fn script_result(s: ScriptData, names: Option<Seq<String>>, funcs: Seq<FunctionData>, os: OS, revert: bool, recommend: Option<Recommend>) -> Result<Seq<char>, Failure> {
    if excluded(s, names, recommend) {
        Ok(Seq::empty())
    } else {
        match script_body(s, funcs, revert) {
            Ok(b) => Ok(banner(b, s.name@, os, revert)),
            Err(e) => Err(e),
        }
    }
}

/// Whether the name filter lists category `c` itself, which lifts both filters below it.
pub open spec fn opted_in(c: CategoryData, names: Option<Seq<String>>) -> bool {
    names matches Some(ns) && listed(ns, c.category@)
}

/// What a category contributes: its children's parts, joined by two blank lines.
pub open spec fn category_result(c: CategoryData, names: Option<Seq<String>>, funcs: Seq<FunctionData>, os: OS, revert: bool, recommend: Option<Recommend>) -> Result<Seq<char>, Failure>
    decreases c, 0nat,
{
    if opted_in(c, names) {
        children_result(c.children@, c.children@.len(), None, funcs, os, revert, None)
    } else {
        children_result(c.children@, c.children@.len(), names, funcs, os, revert, recommend)
    }
}

/// The parts of the first `n` children of `cs`, joined; the first failure stops it.
pub open spec fn children_result(cs: Seq<CategoryOrScriptData>, n: nat, names: Option<Seq<String>>, funcs: Seq<FunctionData>, os: OS, revert: bool, recommend: Option<Recommend>) -> Result<Seq<char>, Failure>
    decreases cs, n,
{
    if n == 0 || n > cs.len() {
        Ok(Seq::empty())
    } else {
        match children_result(cs, (n - 1) as nat, names, funcs, os, revert, recommend) {
            Ok(acc) => match child_result(cs[n - 1], names, funcs, os, revert, recommend) {
                Ok(r) => Ok(join2(acc, r, "\n\n\n"@)),
                Err(e) => Err(e),
            },
            Err(e) => Err(e),
        }
    }
}

/// What one child contributes.
pub open spec fn child_result(x: CategoryOrScriptData, names: Option<Seq<String>>, funcs: Seq<FunctionData>, os: OS, revert: bool, recommend: Option<Recommend>) -> Result<Seq<char>, Failure>
    decreases x, 0nat,
{
    match x {
        CategoryOrScriptData::CategoryData(c) => category_result(c, names, funcs, os, revert, recommend),
        CategoryOrScriptData::ScriptData(s) => script_result(s, names, funcs, os, revert, recommend),
    }
}

/// The name list that a filter argument stands for.
pub open spec fn names_view(names: Option<&Vec<String>>) -> Option<Seq<String>> {
    match names {
        Some(v) => Some(v@),
        None => None,
    }
}

fn is_listed(names: &Vec<String>, n: &String) -> (r: bool)
    ensures
        r == listed(names@, n@),
{
    let mut i: usize = 0;
    while i < names.len()
        invariant
            i <= names.len(),
            forall|j: int| 0 <= j < i ==> names@[j]@ != n@,
        decreases names.len() - i,
    {
        if names[i] == *n {
            return true;
        }
        i = i + 1;
    }
    false
}

fn is_admitted(filter: Option<Recommend>, level: Option<Recommend>) -> (r: bool)
    ensures
        r == admitted(filter, level),
{
    match filter {
        None => true,
        Some(f) => match level {
            Some(l) => f == Recommend::Strict || l == Recommend::Standard,
            None => false,
        },
    }
}

/// A failure of the first `k` children is the failure of the first `n`.
proof fn lemma_children_failure_stays(cs: Seq<CategoryOrScriptData>, k: nat, n: nat, names: Option<Seq<String>>, funcs: Seq<FunctionData>, os: OS, revert: bool, recommend: Option<Recommend>)
    requires
        k <= n <= cs.len(),
        children_result(cs, k, names, funcs, os, revert, recommend) is Err,
    ensures
        children_result(cs, n, names, funcs, os, revert, recommend) == children_result(cs, k, names, funcs, os, revert, recommend),
    decreases n - k,
{
    if k < n {
        lemma_children_failure_stays(cs, k, (n - 1) as nat, names, funcs, os, revert, recommend);
    }
}

impl ScriptData {
    /// Resolves the script; see `script_result`.
    pub fn parse(&self, names: Option<&Vec<String>>, funcs: &Vec<FunctionData>, os: OS, revert: bool, recommend: Option<Recommend>) -> (r: Result<Vec<char>, ParseError>)
        ensures
            result_view(r) == script_result(*self, names_view(names), funcs@, os, revert, recommend),
    {
        let listed_out = match names {
            Some(ns) => !is_listed(ns, &self.name),
            None => false,
        };
        if !is_admitted(recommend, self.recommend) || listed_out {
            return Ok(Vec::new());
        }
        let body = match &self.call {
            Some(c) => c.parse(funcs, revert, MAX_CALL_DEPTH),
            None => {
                let code = if revert {
                    &self.revert_code
                } else {
                    &self.code
                };
                match code {
                    Some(s) => Ok(to_chars(s.as_str())),
                    None => Err(ParseError::CallCode(self.name.clone())),
                }
            },
        };
        match body {
            Ok(b) => {
                let text = from_chars(&b);
                let formatted = beautify(text.as_str(), self.name.as_str(), os, revert);
                Ok(to_chars(formatted.as_str()))
            },
            Err(e) => Err(e),
        }
    }
}

impl CategoryData {
    /// Resolves the category; see `category_result`.
    pub fn parse(&self, names: Option<&Vec<String>>, funcs: &Vec<FunctionData>, os: OS, revert: bool, recommend: Option<Recommend>) -> (r: Result<Vec<char>, ParseError>)
        ensures
            result_view(r) == category_result(*self, names_view(names), funcs@, os, revert, recommend),
        decreases self, 0nat,
    {
        let ghost goal = category_result(*self, names_view(names), funcs@, os, revert, recommend);
        let opted = match names {
            Some(ns) => is_listed(ns, &self.category),
            None => false,
        };
        let (sub_names, sub_recommend) = if opted {
            (None, None)
        } else {
            (names, recommend)
        };
        let ghost nv = names_view(sub_names);
        let mut acc: Vec<char> = Vec::new();
        let mut i: usize = 0;
        while i < self.children.len()
            invariant
                i <= self.children.len(),
                nv == names_view(sub_names),
                goal == category_result(*self, names_view(names), funcs@, os, revert, recommend),
                goal == children_result(self.children@, self.children@.len(), nv, funcs@, os, revert, sub_recommend),
                children_result(self.children@, i as nat, nv, funcs@, os, revert, sub_recommend) == Ok::<Seq<char>, Failure>(acc@),
            decreases self.children.len() - i,
        {
            match self.children[i].parse(sub_names, funcs, os, revert, sub_recommend) {
                Ok(r) => join_into(&mut acc, &r, "\n\n\n"),
                Err(e) => {
                    proof {
                        assert(children_result(self.children@, (i + 1) as nat, nv, funcs@, os, revert, sub_recommend) == Err::<Seq<char>, Failure>(e@));
                        lemma_children_failure_stays(self.children@, (i + 1) as nat, self.children@.len(), nv, funcs@, os, revert, sub_recommend);
                    }
                    return Err(e);
                },
            }
            i = i + 1;
        }
        Ok(acc)
    }
}

impl CategoryOrScriptData {
    /// Resolves the child; see `child_result`.
    pub fn parse(&self, names: Option<&Vec<String>>, funcs: &Vec<FunctionData>, os: OS, revert: bool, recommend: Option<Recommend>) -> (r: Result<Vec<char>, ParseError>)
        ensures
            result_view(r) == child_result(*self, names_view(names), funcs@, os, revert, recommend),
        decreases self, 1nat,
    {
        match self {
            CategoryOrScriptData::CategoryData(c) => c.parse(names, funcs, os, revert, recommend),
            CategoryOrScriptData::ScriptData(s) => s.parse(names, funcs, os, revert, recommend),
        }
    }
}

/// A collection of tweaks for one OS: the category tree and the shared functions.
#[derive(Debug)]
pub struct CollectionData {
    /// The OS that the collection is written for.
    pub os: OS,
    /// The scripting language and the code around the scripts.
    pub scripting: ScriptingDefinitionData,
    /// The top-level categories, in order; at least one.
    pub actions: Vec<CategoryData>,
    /// Functions that scripts and other functions call.
    pub functions: Option<Vec<FunctionData>>,
}

/// The function table of a collection.
pub open spec fn funcs_of(cd: CollectionData) -> Seq<FunctionData> {
    match cd.functions {
        Some(v) => v@,
        None => Seq::empty(),
    }
}

/// The parts of the first `n` top-level categories, joined by two blank lines; the first failure stops it.
pub open spec fn actions_result(cs: Seq<CategoryData>, n: nat, names: Option<Seq<String>>, funcs: Seq<FunctionData>, os: OS, revert: bool, recommend: Option<Recommend>) -> Result<Seq<char>, Failure>
    decreases n,
{
    if n == 0 || n > cs.len() {
        Ok(Seq::empty())
    } else {
        match actions_result(cs, (n - 1) as nat, names, funcs, os, revert, recommend) {
            Ok(acc) => match category_result(cs[n - 1], names, funcs, os, revert, recommend) {
                Ok(r) => Ok(join2(acc, r, "\n\n\n"@)),
                Err(e) => Err(e),
            },
            Err(e) => Err(e),
        }
    }
}

/// The scripts of a collection, resolved and joined.
pub open spec fn body_result(cd: CollectionData, names: Option<Seq<String>>, revert: bool, recommend: Option<Recommend>) -> Result<Seq<char>, Failure> {
    actions_result(cd.actions@, cd.actions@.len(), names, funcs_of(cd), cd.os, revert, recommend)
}

/// The start code, the body and the end code, two blank lines apart.
pub open spec fn document(start: Seq<char>, body: Seq<char>, end: Seq<char>) -> Seq<char> {
    start + "\n\n\n"@ + body + "\n\n\n"@ + end
}

/// The whole script of a collection, with the given values for the global variables.
pub open spec fn collection_result(cd: CollectionData, names: Option<Seq<String>>, revert: bool, recommend: Option<Recommend>, date: Seq<char>, homepage: Seq<char>, version: Seq<char>) -> Result<Seq<char>, Failure> {
    match body_result(cd, names, revert, recommend) {
        Ok(b) => Ok(
            document(
                with_globals(cd.scripting.start_code@, date, homepage, version),
                b,
                with_globals(cd.scripting.end_code@, date, homepage, version),
            ),
        ),
        Err(e) => Err(e),
    }
}

/// The text of a string result, or its failure.
pub open spec fn text_view(r: Result<String, ParseError>) -> Result<Seq<char>, Failure> {
    match r {
        Ok(s) => Ok(s@),
        Err(e) => Err(e@),
    }
}

/// A failure of the first `k` categories is the failure of the first `n`.
proof fn lemma_actions_failure_stays(cs: Seq<CategoryData>, k: nat, n: nat, names: Option<Seq<String>>, funcs: Seq<FunctionData>, os: OS, revert: bool, recommend: Option<Recommend>)
    requires
        k <= n <= cs.len(),
        actions_result(cs, k, names, funcs, os, revert, recommend) is Err,
    ensures
        actions_result(cs, n, names, funcs, os, revert, recommend) == actions_result(cs, k, names, funcs, os, revert, recommend),
    decreases n - k,
{
    if k < n {
        lemma_actions_failure_stays(cs, k, (n - 1) as nat, names, funcs, os, revert, recommend);
    }
}

impl CollectionData {
    /// Resolves all categories and joins their parts; see `body_result`.
    pub fn resolve_body(&self, names: Option<&Vec<String>>, revert: bool, recommend: Option<Recommend>) -> (r: Result<Vec<char>, ParseError>)
        ensures
            result_view(r) == body_result(*self, names_view(names), revert, recommend),
    {
        let none: Vec<FunctionData> = Vec::new();
        let funcs = match &self.functions {
            Some(v) => v,
            None => &none,
        };
        let ghost goal = body_result(*self, names_view(names), revert, recommend);
        let mut acc: Vec<char> = Vec::new();
        let mut i: usize = 0;
        while i < self.actions.len()
            invariant
                i <= self.actions.len(),
                funcs@ == funcs_of(*self),
                goal == body_result(*self, names_view(names), revert, recommend),
                goal == actions_result(self.actions@, self.actions@.len(), names_view(names), funcs@, self.os, revert, recommend),
                actions_result(self.actions@, i as nat, names_view(names), funcs@, self.os, revert, recommend) == Ok::<Seq<char>, Failure>(acc@),
            decreases self.actions.len() - i,
        {
            match self.actions[i].parse(names, funcs, self.os, revert, recommend) {
                Ok(r) => join_into(&mut acc, &r, "\n\n\n"),
                Err(e) => {
                    proof {
                        assert(actions_result(self.actions@, (i + 1) as nat, names_view(names), funcs@, self.os, revert, recommend) == Err::<Seq<char>, Failure>(e@));
                        lemma_actions_failure_stays(self.actions@, (i + 1) as nat, self.actions@.len(), names_view(names), funcs@, self.os, revert, recommend);
                    }
                    return Err(e);
                },
            }
            i = i + 1;
        }
        Ok(acc)
    }

    /**
    Resolves the collection into one script: only the scripts that `names` lists (or that stand
    under a category it lists) and that `recommend` admits, each formatted, with the revert code
    where `revert` is set. `date`, `homepage` and `version` are the values of the global variables
    of the start and end code; see `collection_result`.
    */
    pub fn parse(&self, names: Option<&Vec<String>>, revert: bool, recommend: Option<Recommend>, date: &str, homepage: &str, version: &str) -> (r: Result<String, ParseError>)
        ensures
            text_view(r) == collection_result(*self, names_view(names), revert, recommend, date@, homepage@, version@),
    {
        match self.resolve_body(names, revert, recommend) {
            Ok(b) => {
                let start = parse_start_end(self.scripting.start_code.as_str(), date, homepage, version);
                let end = parse_start_end(self.scripting.end_code.as_str(), date, homepage, version);
                let mut out = to_chars(start.as_str());
                append_str(&mut out, "\n\n\n");
                append_all(&mut out, &b);
                append_str(&mut out, "\n\n\n");
                append_all(&mut out, &to_chars(end.as_str()));
                Ok(from_chars(&out))
            },
            Err(e) => Err(e),
        }
    }
}

} // verus!
