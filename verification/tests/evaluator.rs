use render_md::environment::Environment;
use render_md::error::{Error, ErrorKind, SourceText, Span};
use render_md::evaluator::{evaluate_with_answers, Evaluator};
use std::cell::RefCell;
use std::collections::HashMap;

/// A stub environment for testing the evaluator in isolation.
struct FakeEnv {
    vars: HashMap<String, String>,
    included: RefCell<Vec<String>>,
    lookups: RefCell<Vec<String>>,
}

impl FakeEnv {
    fn new() -> Self {
        Self { vars: HashMap::new(), included: RefCell::new(Vec::new()), lookups: RefCell::new(Vec::new()) }
    }

    fn with_var(mut self, key: &str, value: &str) -> Self {
        self.vars.insert(key.to_string(), value.to_string());
        self
    }
}

impl Environment for FakeEnv {
    fn resolve_var(&self, var_name: &str, span: Span, named_src: &SourceText) -> Result<String, Error> {
        self.lookups.borrow_mut().push(var_name.to_string());
        match self.vars.get(var_name) {
            Some(v) => Ok(v.clone()),
            None => Err(Error(ErrorKind::VariableNotFound {
                var_name: var_name.to_string(),
                src: named_src.duplicate(),
                span,
            })),
        }
    }

    fn resolve_file(&self, file: &str, args_str: &str, _span: Span, _named_src: &SourceText) -> Result<String, Error> {
        self.included.borrow_mut().push(file.to_string());
        Ok(format!("[included {file} args={args_str}]"))
    }

    fn resolve_block(&self, block_name_or_classes: &str) -> String {
        format!("<div class=\"{block_name_or_classes}\">")
    }

    fn resolve_end(&self) -> String {
        "</div>".to_string()
    }

    fn lookup_var(&self, var_name: &str) -> Option<String> {
        self.lookups.borrow_mut().push(var_name.to_string());
        self.vars.get(var_name).cloned()
    }

    fn resolve_literal(&self, raw: &str) -> Result<String, Error> {
        Evaluator::evaluate(raw, path(), self)
    }
}

fn path() -> &'static str {
    "test.md"
}

#[test]
fn test_evaluate_plain_text_is_unchanged() {
    let env = FakeEnv::new();
    let result = Evaluator::evaluate("just plain text", path(), &env).unwrap();
    assert_eq!(result, "just plain text");
}

#[test]
fn test_evaluate_var_interpolation_preserves_surrounding_text() {
    let env = FakeEnv::new().with_var("name", "World");
    let result = Evaluator::evaluate("Hello {{.var name}}!", path(), &env).unwrap();
    assert_eq!(result, "Hello World!");
}

#[test]
fn test_evaluate_missing_var_bubbles_up_error() {
    let env = FakeEnv::new();
    let err = Evaluator::evaluate("{{.var missing}}", path(), &env).unwrap_err();
    match err.inner() {
        ErrorKind::VariableNotFound { var_name, .. } => assert_eq!(var_name, "missing"),
        _ => panic!("expected VariableNotFound"),
    }
}

#[test]
fn test_evaluate_include_delegates_to_environment() {
    let env = FakeEnv::new();
    let result = Evaluator::evaluate(r#"{{.include ./a.md x="1"}}"#, path(), &env).unwrap();
    assert_eq!(result, r#"[included ./a.md args=x="1"]"#);
    assert_eq!(env.included.borrow().as_slice(), ["./a.md"]);
}

#[test]
fn test_evaluate_block_and_end() {
    let env = FakeEnv::new();
    let result = Evaluator::evaluate("{{.block hero}}content{{.end}}", path(), &env).unwrap();
    assert_eq!(result, "<div class=\"hero\">content</div>");
}

#[test]
fn test_evaluate_unclosed_block_errors() {
    let env = FakeEnv::new();
    let err = Evaluator::evaluate("{{.block hero}}content", path(), &env).unwrap_err();
    assert!(matches!(err.inner(), ErrorKind::UnclosedBlock { .. }));
}

#[test]
fn test_evaluate_stray_end_tag_is_tolerated() {
    let env = FakeEnv::new();
    let result = Evaluator::evaluate("{{.end}}", path(), &env).unwrap();
    assert_eq!(result, "</div>");
}

#[test]
fn test_evaluate_multiple_tags_in_sequence() {
    let env = FakeEnv::new().with_var("a", "1").with_var("b", "2");
    let result = Evaluator::evaluate("{{.var a}}-{{.var b}}", path(), &env).unwrap();
    assert_eq!(result, "1-2");
}

#[test]
fn test_evaluate_if_true_renders_body() {
    let env = FakeEnv::new().with_var("flag", "1");
    let result = Evaluator::evaluate("{{.if flag}}shown{{.end}}", path(), &env).unwrap();
    assert_eq!(result, "shown");
}

#[test]
fn test_evaluate_if_missing_var_is_falsy_no_error() {
    let env = FakeEnv::new();
    let result = Evaluator::evaluate("{{.if missing}}shown{{.end}}", path(), &env).unwrap();
    assert_eq!(result, "");
}

#[test]
fn test_evaluate_if_else_renders_else_branch_when_false() {
    let env = FakeEnv::new();
    let result = Evaluator::evaluate("{{.if missing}}A{{.else}}B{{.end}}", path(), &env).unwrap();
    assert_eq!(result, "B");
}

#[test]
fn test_evaluate_if_negation() {
    let env = FakeEnv::new();
    let result = Evaluator::evaluate("{{.if !missing}}shown{{.end}}", path(), &env).unwrap();
    assert_eq!(result, "shown");
}

#[test]
fn test_evaluate_if_eq_literal_true() {
    let env = FakeEnv::new().with_var("name", "Bob");
    let result = Evaluator::evaluate(r#"{{.if name == "Bob"}}match{{.end}}"#, path(), &env).unwrap();
    assert_eq!(result, "match");
}

#[test]
fn test_evaluate_if_eq_literal_false() {
    let env = FakeEnv::new().with_var("name", "Alice");
    let result = Evaluator::evaluate(r#"{{.if name == "Bob"}}match{{.end}}"#, path(), &env).unwrap();
    assert_eq!(result, "");
}

#[test]
fn test_evaluate_if_ne_var_var() {
    let env = FakeEnv::new().with_var("a", "1").with_var("b", "2");
    let result = Evaluator::evaluate("{{.if a != b}}different{{.end}}", path(), &env).unwrap();
    assert_eq!(result, "different");
}

#[test]
fn test_evaluate_if_end_does_not_emit_closing_div() {
    let env = FakeEnv::new().with_var("flag", "1");
    let result = Evaluator::evaluate("{{.if flag}}content{{.end}}", path(), &env).unwrap();
    assert_eq!(result, "content");
    assert!(!result.contains("</div>"));
}

#[test]
fn test_evaluate_nested_block_inside_true_if_renders_normally() {
    let env = FakeEnv::new().with_var("flag", "1");
    let result = Evaluator::evaluate("{{.if flag}}{{.block hero}}content{{.end}}{{.end}}", path(), &env).unwrap();
    assert_eq!(result, "<div class=\"hero\">content</div>");
}

#[test]
fn test_evaluate_nested_if_inside_false_branch_skips_condition_evaluation_entirely() {
    let env = FakeEnv::new();
    let template = r#"{{.if outer}}{{.if x == "prefix {{.var missing}}"}}inner{{.end}}shown{{.end}}"#;
    let result = Evaluator::evaluate(template, path(), &env).unwrap();
    assert_eq!(result, "");
}

#[test]
fn test_evaluate_block_inside_false_if_is_suppressed_but_still_tracked_for_matching() {
    let env = FakeEnv::new();
    let template = "{{.if outer}}{{.block hero}}content{{.end}}{{.end}}after";
    let result = Evaluator::evaluate(template, path(), &env).unwrap();
    assert_eq!(result, "after");
}

#[test]
fn test_evaluate_stray_second_else_is_tolerated_as_noop() {
    let env = FakeEnv::new().with_var("flag", "1");
    let result = Evaluator::evaluate("{{.if flag}}A{{.else}}B{{.else}}C{{.end}}", path(), &env).unwrap();
    assert_eq!(result, "A");
}

#[test]
fn test_evaluate_unclosed_if_errors() {
    let env = FakeEnv::new().with_var("flag", "1");
    let err = Evaluator::evaluate("{{.if flag}}content", path(), &env).unwrap_err();
    assert!(matches!(err.inner(), ErrorKind::UnclosedIf { .. }));
}

#[test]
fn test_evaluate_var_with_single_filter() {
    let env = FakeEnv::new().with_var("name", "world");
    let result = Evaluator::evaluate("{{.var name | upper}}", path(), &env).unwrap();
    assert_eq!(result, "WORLD");
}

#[test]
fn test_evaluate_var_with_chained_filters() {
    let env = FakeEnv::new().with_var("name", "  world  ");
    let result = Evaluator::evaluate("{{.var name | trim | upper}}", path(), &env).unwrap();
    assert_eq!(result, "WORLD");
}

#[test]
fn test_evaluate_var_unknown_filter_errors() {
    let env = FakeEnv::new().with_var("name", "world");
    let err = Evaluator::evaluate("{{.var name | bogus}}", path(), &env).unwrap_err();
    match err.inner() {
        ErrorKind::UnknownFilter { filter_name, .. } => assert_eq!(filter_name, "bogus"),
        _ => panic!("expected UnknownFilter, got {:?}", err),
    }
}

#[test]
fn test_evaluate_var_missing_errors_even_with_filters_chained() {
    let env = FakeEnv::new();
    let err = Evaluator::evaluate("{{.var missing | upper}}", path(), &env).unwrap_err();
    match err.inner() {
        ErrorKind::VariableNotFound { var_name, .. } => assert_eq!(var_name, "missing"),
        _ => panic!("expected VariableNotFound, got {:?}", err),
    }
}

#[test]
fn test_evaluate_escaped_tag_renders_literally_without_backslash() {
    let env = FakeEnv::new();
    let result = Evaluator::evaluate(r#"\{{.if missing}}"#, path(), &env).unwrap();
    assert_eq!(result, r#"{{.if missing}}"#);
}

#[test]
fn test_evaluate_escaped_tag_does_not_error_even_if_it_looks_broken() {
    let env = FakeEnv::new();
    let result = Evaluator::evaluate(r#"\{{.var missing | bogus}}"#, path(), &env).unwrap();
    assert_eq!(result, r#"{{.var missing | bogus}}"#);
}

#[test]
fn test_evaluate_escaped_tag_mixed_with_real_tag() {
    let env = FakeEnv::new().with_var("name", "World");
    let result = Evaluator::evaluate(r#"\{{.var name}} says {{.var name}}"#, path(), &env).unwrap();
    assert_eq!(result, r#"{{.var name}} says World"#);
}

#[test]
fn test_evaluate_multiline_escaped_tip_block_renders_literally() {
    let env = FakeEnv::new();
    let template = "\\{{.if status == \"online\"}}\n🟢 Status: **\\{{.var status}}**\n\\{{.else}}\n🔴 Status: offline\n\\{{.end}}";
    let expected = "{{.if status == \"online\"}}\n🟢 Status: **{{.var status}}**\n{{.else}}\n🔴 Status: offline\n{{.end}}";
    let result = Evaluator::evaluate(template, path(), &env).unwrap();
    assert_eq!(result, expected);
}

#[test]
fn suppressed_branch_asks_the_environment_nothing() {
    let env = FakeEnv::new();
    let template = "{{.if off}}{{.var a}}{{.include x.md}}{{.block b}}{{.end}}{{.end}}done";
    let result = Evaluator::evaluate(template, path(), &env).unwrap();
    assert_eq!(result, "done");
    assert!(env.included.borrow().is_empty());
    assert_eq!(env.lookups.borrow().as_slice(), ["off"]);
}

#[test]
fn condition_literal_is_interpolated() {
    let env = FakeEnv::new().with_var("name", "Bob").with_var("greeting", "Hi Bob");
    let result = Evaluator::evaluate(r#"{{.if greeting == "Hi {{.var name}}"}}yes{{.else}}no{{.end}}"#, path(), &env).unwrap();
    assert_eq!(result, "yes");
}

#[test]
fn invalid_condition_reports_reason() {
    let env = FakeEnv::new();
    let err = Evaluator::evaluate("{{.if a b}}x{{.end}}", path(), &env).unwrap_err();
    match err.inner() {
        ErrorKind::InvalidCondition { reason, span, .. } => {
            assert_eq!(reason, "expected '==' or '!=' after the first operand");
            assert_eq!(*span, Span::new(0, 11));
        }
        _ => panic!("expected InvalidCondition, got {:?}", err),
    }
    assert_eq!(
        err.message(),
        "Invalid condition in '{{.if}}' directive: expected '==' or '!=' after the first operand"
    );
}

#[test]
fn else_inside_block_is_ignored() {
    let env = FakeEnv::new();
    let result = Evaluator::evaluate("{{.block b}}x{{.else}}y{{.end}}", path(), &env).unwrap();
    assert_eq!(result, "<div class=\"b\">xy</div>");
}

#[test]
fn unclosed_error_points_at_innermost_frame() {
    let env = FakeEnv::new().with_var("f", "1");
    let err = Evaluator::evaluate("{{.block b}}{{.if f}}", path(), &env).unwrap_err();
    match err.inner() {
        ErrorKind::UnclosedIf { span, .. } => assert_eq!(*span, Span::new(12, 9)),
        _ => panic!("expected UnclosedIf, got {:?}", err),
    }
}

fn answers(a: &[(&str, bool)]) -> Vec<(String, bool)> {
    a.iter().map(|(t, b)| (t.to_string(), *b)).collect()
}

#[test]
fn answers_fill_tags_in_order() {
    assert_eq!(evaluate_with_answers("a{{.var x}}b{{.include p.md}}c", &answers(&[("X", false), ("P", false)])), Some("aXbPc".to_string()));
    assert_eq!(evaluate_with_answers("{{.var x}}", &answers(&[])), Some(String::new()));
}

#[test]
fn answers_decide_conditions() {
    let t = "{{.if c}}T{{.else}}F{{.end}}";
    assert_eq!(evaluate_with_answers(t, &answers(&[("", true)])), Some("T".to_string()));
    assert_eq!(evaluate_with_answers(t, &answers(&[("", false)])), Some("F".to_string()));
}

#[test]
fn answers_skip_suppressed_tags_but_count_them() {
    let t = "{{.if c}}{{.var a}}{{.end}}{{.var b}}";
    assert_eq!(evaluate_with_answers(t, &answers(&[("", false), ("A", false), ("", false), ("B", false)])), Some("B".to_string()));
}

#[test]
fn answers_wrap_blocks_and_fail_on_open_frames() {
    assert_eq!(evaluate_with_answers("{{.block b}}x{{.end}}", &answers(&[("<B>", false), ("</B>", false)])), Some("<B>x</B>".to_string()));
    assert_eq!(evaluate_with_answers("{{.block b}}x", &answers(&[("<B>", false)])), None);
    assert_eq!(evaluate_with_answers("{{.var x", &answers(&[])), None);
    assert_eq!(evaluate_with_answers("{{.nope}}", &answers(&[])), None);
    assert_eq!(evaluate_with_answers(r"\{{.var x}} y", &answers(&[])), Some("{{.var x}} y".to_string()));
}

/// An environment whose fallible lookups all fail.
struct RefusingEnv;

impl Environment for RefusingEnv {
    fn resolve_var(&self, var_name: &str, span: Span, named_src: &SourceText) -> Result<String, Error> {
        Err(Error(ErrorKind::VariableNotFound { var_name: var_name.to_string(), src: named_src.duplicate(), span }))
    }
    fn resolve_file(&self, file: &str, _args_str: &str, span: Span, named_src: &SourceText) -> Result<String, Error> {
        Err(Error(ErrorKind::IncludeFileNotFound { include_path: file.to_string(), src: named_src.duplicate(), span }))
    }
    fn resolve_block(&self, block_name_or_classes: &str) -> String {
        format!("<{block_name_or_classes}>")
    }
    fn resolve_end(&self) -> String {
        "</>".to_string()
    }
    fn lookup_var(&self, _var_name: &str) -> Option<String> {
        None
    }
    fn resolve_literal(&self, raw: &str) -> Result<String, Error> {
        Err(Error(ErrorKind::Io(raw.to_string())))
    }
}

#[test]
fn templates_that_ask_nothing_fallible_succeed_whatever_the_environment() {
    let out = Evaluator::evaluate("a{{.block x}}b{{.if flag}}c{{.else}}d{{.end}}{{.end}}", "t.md", &RefusingEnv).unwrap();
    assert_eq!(out, "a<x>bd</>");
    assert!(Evaluator::evaluate("{{.var v}}", "t.md", &RefusingEnv).is_err());
    assert!(Evaluator::evaluate("{{.if v == \"x\"}}y{{.end}}", "t.md", &RefusingEnv).is_err());
}

#[test]
fn conditions_on_variables_resolve_whatever_the_environment() {
    let c = render_md::condition::parse_condition("a != b").unwrap();
    assert_eq!(c.evaluate(&RefusingEnv).unwrap(), false);
    let c = render_md::condition::parse_condition("!a").unwrap();
    assert_eq!(c.evaluate(&RefusingEnv).unwrap(), true);
    let c = render_md::condition::parse_condition("a == \"x\"").unwrap();
    assert!(c.evaluate(&RefusingEnv).is_err());
}
