use privacy_sexy::collection::{
    substitute, CategoryData, CategoryOrScriptData, CollectionData, FunctionCallData, FunctionCallsData,
    FunctionData, ParameterDefinitionData, ParseError, Recommend, ScriptData, ScriptingDefinitionData,
};
use privacy_sexy::pipes::piper;
use privacy_sexy::util::{beautify, parse_start_end};
use privacy_sexy::OS;

fn chars(s: &str) -> Vec<char> {
    s.chars().collect()
}

fn text(v: &[char]) -> String {
    v.iter().collect()
}

fn param(name: &str, optional: bool) -> ParameterDefinitionData {
    ParameterDefinitionData { name: name.to_string(), optional }
}

fn args(pairs: &[(&str, &str)]) -> Vec<(String, String)> {
    pairs.iter().map(|(k, v)| (k.to_string(), v.to_string())).collect()
}

fn sub(body: &str, params: Vec<ParameterDefinitionData>, pairs: &[(&str, &str)]) -> Result<String, ParseError> {
    substitute(&chars(body), &params, &args(pairs)).map(|v| text(&v))
}

fn script(name: &str, code: &str, recommend: Option<Recommend>) -> CategoryOrScriptData {
    CategoryOrScriptData::ScriptData(ScriptData {
        name: name.to_string(),
        code: Some(code.to_string()),
        revert_code: Some(format!("undo {code}")),
        call: None,
        docs: None,
        recommend,
    })
}

fn calling(name: &str, calls: FunctionCallsData) -> CategoryOrScriptData {
    CategoryOrScriptData::ScriptData(ScriptData {
        name: name.to_string(),
        code: None,
        revert_code: None,
        call: Some(calls),
        docs: None,
        recommend: None,
    })
}

fn call(function: &str, pairs: &[(&str, &str)]) -> FunctionCallData {
    FunctionCallData { function: function.to_string(), parameters: Some(args(pairs)) }
}

fn collection(actions: Vec<CategoryData>, functions: Vec<FunctionData>) -> CollectionData {
    CollectionData {
        os: OS::MacOs,
        scripting: ScriptingDefinitionData {
            language: "shell".to_string(),
            file_extension: None,
            start_code: "# v{{ $version }}".to_string(),
            end_code: "# bye".to_string(),
        },
        actions,
        functions: Some(functions),
    }
}

fn category(name: &str, children: Vec<CategoryOrScriptData>) -> CategoryData {
    CategoryData { children, category: name.to_string(), docs: None }
}

fn filtered() -> CollectionData {
    collection(
        vec![
            category(
                "Top",
                vec![
                    script("strict one", "s1", Some(Recommend::Strict)),
                    script("standard one", "s2", Some(Recommend::Standard)),
                    script("unrated", "s3", None),
                ],
            ),
            category(
                "Other",
                vec![CategoryOrScriptData::CategoryData(category("Inner", vec![script("deep", "s4", Some(Recommend::Strict))]))],
            ),
        ],
        vec![],
    )
}

fn count_blocks(out: &str) -> usize {
    out.matches("echo --- ").count()
}

#[test]
fn required_parameter_with_pipe() {
    let out = sub("echo {{ $msg | escapeDoubleQuotes }}!", vec![param("msg", false)], &[("msg", "\"hi\"")]).unwrap();
    assert_eq!(out, "echo \"^\"\"hi\"^\"\"!");
}

#[test]
fn placeholder_tolerates_unicode_whitespace() {
    let out = sub("a{{\u{a0}$x\u{3000}|\u{2003}escapeDoubleQuotes }}b", vec![param("x", false)], &[("x", "\"")]).unwrap();
    assert_eq!(out, "a\"^\"\"b");
}

#[test]
fn pipe_names_may_hold_letters_beyond_ascii() {
    let out = sub("{{ $x | caf\u{e9} }}", vec![param("x", false)], &[("x", "V")]).unwrap();
    assert_eq!(out, "V");
}

#[test]
fn inline_powershell_trims_unicode_whitespace() {
    assert_eq!(piper("inlinePowerShell", "\u{a0}a\u{a0}\n\u{2003}\nb\u{3000}"), "a; b");
}

#[test]
fn placeholder_tolerates_inner_whitespace() {
    let out = sub("a{{$x}}b{{   $x   |   noSuch   }}c", vec![param("x", false)], &[("x", "V")]).unwrap();
    assert_eq!(out, "aVbVc");
}

#[test]
fn placeholder_of_other_name_is_kept() {
    let out = sub("{{ $xy }} {{ $x }}", vec![param("x", false)], &[("x", "V")]).unwrap();
    assert_eq!(out, "{{ $xy }} V");
}

#[test]
fn missing_required_parameter_fails() {
    match sub("echo {{ $x }}", vec![param("x", false)], &[("y", "1")]) {
        Err(ParseError::Parameter(n)) => assert_eq!(n, "x"),
        other => panic!("unexpected {:?}", other),
    }
}

#[test]
fn second_pass_changes_nothing() {
    let params = vec![param("x", false)];
    let once = sub("run {{ $x }} and {{ $x | escapeDoubleQuotes }}", params.clone(), &[("x", "a\"b")]).unwrap();
    let twice = sub(&once, params, &[("x", "a\"b")]).unwrap();
    assert_eq!(once, "run a\"b and a\"^\"\"b");
    assert_eq!(twice, once);
}

#[test]
fn optional_block_kept_with_value() {
    let out = sub("a {{ with $x }} x={{ . }} {{ end }} b", vec![param("x", true)], &[("x", "V")]).unwrap();
    assert_eq!(out, "a x=V b");
}

#[test]
fn optional_block_current_value_takes_pipes() {
    let out = sub("{{ with $x }}say {{ . | escapeDoubleQuotes }}{{ end }}", vec![param("x", true)], &[("x", "\"q\"")]).unwrap();
    assert_eq!(out, "say \"^\"\"q\"^\"\"");
}

#[test]
fn optional_block_deleted_without_value() {
    let template = "before {{ with $x }} inner {{ $x }} {{ end }} after";
    let out = sub(template, vec![param("x", true)], &[]).unwrap();
    assert_eq!(out, "before  after");
    let by_hand = sub("before  after", vec![param("x", true)], &[]).unwrap();
    assert_eq!(out, by_hand);
}

#[test]
fn optional_without_block_or_value_leaves_text() {
    let out = sub("keep {{ $x }}", vec![param("x", true)], &[]).unwrap();
    assert_eq!(out, "keep {{ $x }}");
}

#[test]
fn parameters_apply_in_declaration_order() {
    let out = sub("{{ $a }}", vec![param("a", false), param("b", false)], &[("a", "{{ $b }}"), ("b", "B")]).unwrap();
    assert_eq!(out, "B");
}

#[test]
fn undefined_function_fails() {
    let cd = collection(vec![category("C", vec![calling("s", FunctionCallsData::FunctionCallData(call("nope", &[])))])], vec![]);
    match cd.parse(None, false, None, "", "", "") {
        Err(ParseError::Function(n)) => assert_eq!(n, "nope"),
        other => panic!("unexpected {:?}", other),
    }
}

#[test]
fn function_without_code_or_call_fails() {
    let f = FunctionData { name: "empty".to_string(), code: None, revert_code: None, call: None, parameters: None };
    let cd = collection(vec![category("C", vec![calling("s", FunctionCallsData::FunctionCallData(call("empty", &[])))])], vec![f]);
    match cd.parse(None, false, None, "", "", "") {
        Err(ParseError::CallCode(n)) => assert_eq!(n, "empty"),
        other => panic!("unexpected {:?}", other),
    }
}

#[test]
fn script_without_code_or_call_fails() {
    let s = CategoryOrScriptData::ScriptData(ScriptData {
        name: "bare".to_string(),
        code: None,
        revert_code: None,
        call: None,
        docs: None,
        recommend: None,
    });
    let cd = collection(vec![category("C", vec![s])], vec![]);
    match cd.parse(None, false, None, "", "", "") {
        Err(ParseError::CallCode(n)) => assert_eq!(n, "bare"),
        other => panic!("unexpected {:?}", other),
    }
}

#[test]
fn self_calling_function_reports_recursion() {
    let f = FunctionData {
        name: "loop".to_string(),
        code: None,
        revert_code: None,
        call: Some(FunctionCallsData::FunctionCallData(call("loop", &[]))),
        parameters: None,
    };
    let cd = collection(vec![category("C", vec![calling("s", FunctionCallsData::FunctionCallData(call("loop", &[])))])], vec![f]);
    match cd.parse(None, false, None, "", "", "") {
        Err(ParseError::Recursion(n)) => assert_eq!(n, "loop"),
        other => panic!("unexpected {:?}", other),
    }
}

#[test]
fn call_chain_forwards_parameters() {
    let inner = FunctionData {
        name: "say".to_string(),
        code: Some("echo {{ $word }}".to_string()),
        revert_code: Some("echo undo {{ $word }}".to_string()),
        call: None,
        parameters: Some(vec![param("word", false)]),
    };
    let outer = FunctionData {
        name: "twice".to_string(),
        code: None,
        revert_code: None,
        call: Some(FunctionCallsData::VecFunctionCallData(vec![
            call("say", &[("word", "{{ $w }}")]),
            call("say", &[("word", "again")]),
        ])),
        parameters: Some(vec![param("w", false)]),
    };
    let cd = collection(
        vec![category("C", vec![calling("s", FunctionCallsData::FunctionCallData(call("twice", &[("w", "hi")])))])],
        vec![inner, outer],
    );
    let out = cd.parse(None, false, None, "", "", "2").unwrap();
    assert_eq!(out, format!("# v2\n\n\n{}\n\n\n# bye", beautify("echo hi\n\necho again", "s", OS::MacOs, false)));
    let reverted = cd.parse(None, true, None, "", "", "2").unwrap();
    assert!(reverted.contains("echo undo hi\n\necho undo again"));
    assert!(reverted.contains("s (revert)"));
}

#[test]
fn stricter_filter_keeps_fewer() {
    let cd = filtered();
    let all = cd.parse(None, false, None, "", "", "").unwrap();
    let strict = cd.parse(None, false, Some(Recommend::Strict), "", "", "").unwrap();
    let standard = cd.parse(None, false, Some(Recommend::Standard), "", "", "").unwrap();
    assert_eq!(count_blocks(&all), 4);
    assert_eq!(count_blocks(&strict), 3);
    assert_eq!(count_blocks(&standard), 1);
    assert!(standard.contains("standard one"));
    assert!(!strict.contains("unrated"));
}

#[test]
fn name_filter_keeps_listed_scripts() {
    let cd = filtered();
    let names = vec!["unrated".to_string()];
    let out = cd.parse(Some(&names), false, None, "", "", "").unwrap();
    assert_eq!(count_blocks(&out), 1);
    assert!(out.contains("echo --- unrated"));
    assert_eq!(out, format!("# v\n\n\n{}\n\n\n# bye", beautify("s3", "unrated", OS::MacOs, false)));
}

#[test]
fn listed_category_lifts_filters() {
    let cd = filtered();
    let names = vec!["Other".to_string()];
    let out = cd.parse(Some(&names), false, Some(Recommend::Standard), "", "", "").unwrap();
    assert_eq!(count_blocks(&out), 1);
    assert!(out.contains("echo --- deep"));
}

#[test]
fn nothing_kept_leaves_only_frame() {
    let cd = filtered();
    let names = vec!["no such script".to_string()];
    let out = cd.parse(Some(&names), false, None, "", "", "").unwrap();
    assert_eq!(out, "# v\n\n\n\n\n\n# bye");
}

#[test]
fn parse_fills_the_globals() {
    let mut cd = filtered();
    cd.scripting.start_code = "{{ $date }}|{{ $homepage }}|{{$version}}".to_string();
    let out = cd.parse(None, false, None, "Mon, 1 Jan 2024", "https://example.org", "1").unwrap();
    assert!(out.starts_with("Mon, 1 Jan 2024|https://example.org|{{$version}}\n\n\n"));
}

#[test]
fn parse_start_end_fills_globals() {
    assert_eq!(parse_start_end("{{ $version }} {{ $homepage }} {{ $date }} {{ $other }}", "D", "H", "V"), "V H D {{ $other }}");
}

#[test]
fn os_names() {
    assert_eq!(OS::MacOs.name(), "macos");
    assert_eq!(OS::Windows.name(), "windows");
    assert_eq!(OS::Linux.name(), "linux");
}

#[test]
fn inline_powershell_inlines_line_comments() {
    assert_eq!(piper("inlinePowerShell", "Write-Host 'a' # note\nGet-Item x"), "Write-Host 'a' <# note #>; Get-Item x");
    assert_eq!(piper("inlinePowerShell", "Get-Process # list"), "Get-Process <# list #>");
}

#[test]
fn inline_powershell_line_comment_ends_at_its_line() {
    assert_eq!(piper("inlinePowerShell", "a #\nb"), "a <#  #>; b");
}

#[test]
fn inline_powershell_keeps_block_comments_inline() {
    assert_eq!(piper("inlinePowerShell", "<#   block  #>\n$a = 1\n\n  $b = 2  "), "<# block #>; $a = 1; $b = 2");
}

#[test]
fn inline_powershell_single_quoted_here_string() {
    assert_eq!(piper("inlinePowerShell", "$s = @'\nit's\nok\n'@"), "$s = 'it''s'+\"`r`n\"+'ok'");
}

#[test]
fn inline_powershell_double_quoted_here_string() {
    assert_eq!(piper("inlinePowerShell", "$s = @\"\r\nsay \"hi\"\r\nbye\r\n\"@"), "$s = \"say `\"hi`\"`r`nbye\"");
}

#[test]
fn inline_powershell_merges_backtick_lines() {
    assert_eq!(piper("inlinePowerShell", "Get-Thing `\n   -Force\nNext"), "Get-Thing -Force; Next");
}

#[test]
fn left_out_script_leaves_no_trace() {
    let names = vec!["strict one".to_string(), "deep".to_string()];
    let before = filtered().parse(Some(&names), false, Some(Recommend::Strict), "", "", "").unwrap();
    let mut cd = filtered();
    let bodiless = CategoryOrScriptData::ScriptData(ScriptData {
        name: "not listed".to_string(),
        code: None,
        revert_code: None,
        call: None,
        docs: None,
        recommend: None,
    });
    cd.actions[0].children.insert(1, bodiless);
    let after = cd.parse(Some(&names), false, Some(Recommend::Strict), "", "", "").unwrap();
    assert_eq!(before, after);
    assert_eq!(count_blocks(&after), 2);
}

#[test]
fn escape_triples_quotes() {
    let out = piper("escapeDoubleQuotes", "say \"a\" and \"b\"");
    assert_eq!(out.matches('"').count(), 12);
    assert_eq!(out.replace("\"^\"\"", ""), "say a and b");
}
