use privacy_sexy::collection::{
    CategoryData, CategoryOrScriptData, CollectionData, FunctionCallData, FunctionCallsData, FunctionData,
    ParameterDefinitionData, ParseError, Recommend, ScriptData, ScriptingDefinitionData,
};
use privacy_sexy::pipes::piper;
use privacy_sexy::util::{beautify, parse_start_end};
use privacy_sexy::OS;

fn script(name: &str, code: Option<&str>, revert: Option<&str>, recommend: Option<Recommend>) -> CategoryOrScriptData {
    CategoryOrScriptData::ScriptData(ScriptData {
        name: name.to_string(),
        code: code.map(|c| c.to_string()),
        revert_code: revert.map(|c| c.to_string()),
        call: None,
        docs: None,
        recommend,
    })
}

fn calling_script(name: &str, call: FunctionCallsData) -> CategoryOrScriptData {
    CategoryOrScriptData::ScriptData(ScriptData {
        name: name.to_string(),
        code: None,
        revert_code: None,
        call: Some(call),
        docs: None,
        recommend: None,
    })
}

fn call(function: &str, args: &[(&str, &str)]) -> FunctionCallData {
    FunctionCallData {
        function: function.to_string(),
        parameters: Some(args.iter().map(|(k, v)| (k.to_string(), v.to_string())).collect()),
    }
}

fn function(name: &str, code: &str, params: &[(&str, bool)]) -> FunctionData {
    FunctionData {
        name: name.to_string(),
        code: Some(code.to_string()),
        revert_code: None,
        call: None,
        parameters: Some(
            params
                .iter()
                .map(|(n, o)| ParameterDefinitionData { name: n.to_string(), optional: *o })
                .collect(),
        ),
    }
}

fn category(name: &str, children: Vec<CategoryOrScriptData>) -> CategoryData {
    CategoryData { children, category: name.to_string(), docs: None }
}

fn collection(actions: Vec<CategoryData>, functions: Option<Vec<FunctionData>>) -> CollectionData {
    CollectionData {
        os: OS::Linux,
        scripting: ScriptingDefinitionData {
            language: "shell".to_string(),
            file_extension: Some("sh".to_string()),
            start_code: "start".to_string(),
            end_code: "end".to_string(),
        },
        actions,
        functions,
    }
}

fn render(cd: &CollectionData, names: Option<&Vec<String>>, revert: bool, recommend: Option<Recommend>) -> Result<String, ParseError> {
    cd.parse(names, revert, recommend, "today", "home", "1.0")
}

#[test]
fn two_categories_inline_and_call() {
    let cd = collection(
        vec![
            category("A", vec![script("sa", Some("echo A"), None, None)]),
            category("B", vec![calling_script("sb", FunctionCallsData::FunctionCallData(call("f", &[("x", "B")])))]),
        ],
        Some(vec![function("f", "echo {{ $x }}", &[("x", false)])]),
    );
    let out = render(&cd, None, false, None).unwrap();
    let expected = format!(
        "start\n\n\n{}\n\n\n{}\n\n\nend",
        beautify("echo A", "sa", OS::Linux, false),
        beautify("echo B", "sb", OS::Linux, false)
    );
    assert_eq!(out, expected);
    let a = out.find("echo A").unwrap();
    let b = out.find("echo B").unwrap();
    assert!(a < b);
}

#[test]
fn revert_without_revert_code_fails() {
    let cd = collection(vec![category("A", vec![script("only code", Some("echo A"), None, None)])], None);
    match render(&cd, None, true, None) {
        Err(ParseError::CallCode(n)) => assert_eq!(n, "only code"),
        other => panic!("unexpected {:?}", other),
    }
}

#[test]
fn escape_double_quotes_pipe() {
    assert_eq!(piper("escapeDoubleQuotes", "\"Hello\""), "\"^\"\"Hello\"^\"\"");
}

#[test]
fn unknown_pipe_is_identity() {
    assert_eq!(piper("noSuchPipe", "a \"b\""), "a \"b\"");
}

#[test]
fn beautify_linux_banner() {
    let expected = "# ------------------------------------------------------------\n\
# ---------------------Clear bash history---------------------\n\
# ------------------------------------------------------------\n\
echo --- Clear bash history\n\
rm -f ~/.bash_history\n\
# ------------------------------------------------------------";
    assert_eq!(beautify("rm -f ~/.bash_history", "Clear bash history", OS::Linux, false), expected);
}

#[test]
fn beautify_windows_revert_banner() {
    let out = beautify("x", "ab", OS::Windows, true);
    let lines: Vec<&str> = out.lines().collect();
    assert_eq!(lines[0], format!(":: {}", "-".repeat(60)));
    assert_eq!(lines[1], format!(":: {}ab (revert){}", "-".repeat(24), "-".repeat(25)));
    assert_eq!(lines[3], "echo --- ab (revert)");
    assert_eq!(lines[4], "x");
}

#[test]
fn globals_are_substituted() {
    assert_eq!(
        parse_start_end("v{{ $version }} at {{ $homepage }} on {{ $date }}", "D", "H", "V"),
        "vV at H on D"
    );
}
