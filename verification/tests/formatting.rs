use quo_client::formatter::{
    format_by_language, format_generic, format_go, format_javascript_typescript, format_php,
    format_rust, format_rust_with, rust_declaration,
    rustfmt_input, tidy_rustfmt_output, truncate_type, try_tidy,
};
use quo_client::payloads::{IncomingQuoPayload, QuoPayloadLanguage, QuoPayloadVariable};
use quo_client::snippet::format_code_snippet;

fn payload(language: QuoPayloadLanguage, name: &str, var_type: &str, value: &str) -> IncomingQuoPayload {
    let mut p = IncomingQuoPayload::default();
    p.language = language;
    p.meta.variable = QuoPayloadVariable {
        var_type: var_type.to_string(),
        name: name.to_string(),
        value: value.to_string(),
        ..Default::default()
    };
    p
}

#[test]
fn snippet_breaks_after_brackets_and_commas() {
    assert_eq!(
        format_code_snippet("Foo { a: 1, b: [1, 2] }", 4),
        "Foo {\n    a: 1,\n    b: [\n        1,\n        2\n    ] \n}"
    );
}

#[test]
fn snippet_keeps_empty_brackets_together() {
    assert_eq!(format_code_snippet("Vec []", 4), "Vec []");
    assert_eq!(format_code_snippet("f()", 2), "f()");
}

#[test]
fn snippet_leaves_strings_alone() {
    assert_eq!(format_code_snippet("\"a, {b}\"", 4), "\"a, {b}\"");
    assert_eq!(format_code_snippet("'x\\', y'", 4), "'x\\', y'");
}

#[test]
fn snippet_collapses_and_trims_whitespace() {
    assert_eq!(format_code_snippet("  a    b  ", 4), "a b");
    assert_eq!(format_code_snippet("", 4), "");
}

#[test]
fn snippet_closing_right_after_indent_pulls_back() {
    assert_eq!(format_code_snippet("[1,]", 2), "[\n  1,]");
}

#[test]
fn truncates_long_rust_paths() {
    assert_eq!(
        truncate_type("std::collections::HashMap<String, i32>"),
        "std::...::HashMap<String, i32>"
    );
    assert_eq!(truncate_type("a::b"), "a::b");
    assert_eq!(truncate_type("i32"), "i32");
}

#[test]
fn truncates_long_php_namespaces() {
    assert_eq!(truncate_type("App\\Models\\User"), "App\\...\\User");
    assert_eq!(truncate_type("App\\User"), "App\\User");
}

#[test]
fn javascript_and_unknown_use_let_form() {
    let js = payload(QuoPayloadLanguage::Javascript, "x", "number", "42");
    assert_eq!(format_by_language(&js, false), "let x: number = 42");
    let mut py = payload(QuoPayloadLanguage::Python, "y", "dict", "{}");
    py.meta.variable.is_constant = true;
    assert_eq!(format_by_language(&py, false), "const y: dict = {}");
}

#[test]
fn php_form() {
    let p = payload(QuoPayloadLanguage::Php, "user", "App\\Models\\User", "[1]");
    assert_eq!(format_php(&p), "// @var App\\Models\\User\n$user = [\n    1\n]");
    assert_eq!(
        format_by_language(&p, true),
        "// @var App\\...\\User\n$user = [\n    1\n]"
    );
}

#[test]
fn go_form() {
    let g = payload(QuoPayloadLanguage::Go, "n", "int", "3");
    assert_eq!(format_go(&g), "var n int = 3");
}

#[test]
fn rustfmt_output_is_tidied() {
    let v = QuoPayloadVariable {
        var_type: "i32".to_string(),
        name: "x".to_string(),
        value: "5".to_string(),
        ..Default::default()
    };
    assert_eq!(format_rust_with(&v, "i32", Some("fn main() {\n    let x: i32 = 5;\n}\n")), "let x: i32 = 5");
    assert_eq!(format_rust_with(&v, "i32", None), "let x: i32 = 5");
    assert_eq!(
        tidy_rustfmt_output("fn main() {\n    let v: Vec<i32> = vec![\n        1, 2,\n    ];\n}"),
        "let v: Vec<i32> = vec![\n    1, 2,\n]"
    );
    assert_eq!(tidy_rustfmt_output("no braces here\n"), "no braces here\n");
    assert_eq!(rustfmt_input(&v, "i32"), "fn main() { let x: i32 = 5; }");
}

#[test]
fn rust_dumps_are_declarations() {
    let mut p = payload(QuoPayloadLanguage::Rust, "x", "i32", "5");
    assert_eq!(format_rust(&p), "let x: i32 = 5");
    p.meta.variable.is_expression = true;
    p.meta.variable.name = "a + b".to_string();
    p.meta.variable.value = "a + b".to_string();
    assert_eq!(rust_declaration(&p.meta.variable, "i32"), "a + b: i32");
}

#[test]
fn javascript_and_generic_forms() {
    let mut js = payload(QuoPayloadLanguage::Typescript, "cfg", "Config", "{a: 1}");
    js.meta.variable.is_constant = true;
    assert_eq!(format_javascript_typescript(&js), "const cfg: Config = {\n    a: 1\n}");
    let rb = payload(QuoPayloadLanguage::Ruby, "n", "Integer", "3");
    assert_eq!(format_generic(&rb), "let n: Integer = 3");
}

#[test]
fn untidy_rustfmt_output_is_reported() {
    assert_eq!(try_tidy("} backwards {"), None);
    assert_eq!(try_tidy("fn main() {\n    let a = 1;\n}"), Some("let a = 1".to_string()));
}

#[test]
fn truncated_rendering_equals_rendering_of_truncated_type() {
    let d = payload(QuoPayloadLanguage::Php, "u", "App\\Models\\User", "1");
    let mut d2 = d.clone();
    d2.meta.variable.var_type = truncate_type(&d.meta.variable.var_type);
    assert_eq!(format_by_language(&d, true), format_by_language(&d2, false));
    let js = payload(QuoPayloadLanguage::Javascript, "x", "a::b::c", "[1]");
    let mut rb = js.clone();
    rb.language = QuoPayloadLanguage::Ruby;
    assert_eq!(format_by_language(&js, true), format_by_language(&rb, true));
    assert_eq!(truncate_type(&truncate_type("a::b::c::d")), truncate_type("a::b::c::d"));
}
