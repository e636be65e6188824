use render_md::error::{ErrorKind, Span};
use render_md::lexer::{find_tag_end, unescape_tag_markers, Directive, TagScanner};

fn scanner(src: &str) -> TagScanner {
    TagScanner::new(src, "test.md")
}

fn include_directive(file: &str, args: &str) -> Directive {
    Directive::Include { file: file.to_string(), args: args.to_string() }
}

#[test]
fn test_next_tag_returns_none_without_a_tag() {
    let s = scanner("just plain text");
    assert!(s.next_tag(0).unwrap().is_none());
}

#[test]
fn test_next_tag_var_directive() {
    let s = scanner("Hello {{.var name}}!");
    let tag = s.next_tag(0).unwrap().unwrap();
    assert_eq!(tag.directive, Directive::Var("name".to_string()));
    assert_eq!(tag.match_start, 6);
    assert_eq!(tag.match_end, 19);
}

#[test]
fn test_next_tag_include_directive_with_args() {
    let s = scanner(r#"{{.include ./greeter.md name="Bob"}}"#);
    let tag = s.next_tag(0).unwrap().unwrap();
    assert_eq!(tag.directive, include_directive("./greeter.md", r#"name="Bob""#));
}

#[test]
fn test_next_tag_include_directive_without_args() {
    let s = scanner("{{.include ./partial.md}}");
    let tag = s.next_tag(0).unwrap().unwrap();
    assert_eq!(tag.directive, include_directive("./partial.md", ""));
}

#[test]
fn test_next_tag_bare_include_is_unknown_directive() {
    let s = scanner("{{.include}}");
    let err = s.next_tag(0).unwrap_err();
    match err.inner() {
        ErrorKind::UnknownDirective { directive, .. } => assert_eq!(directive, "include"),
        _ => panic!("expected UnknownDirective, got {:?}", err),
    }
}

#[test]
fn test_parse_directive_missing_include_name_errors() {
    let s = scanner("");
    let err = s.parse_directive("include ", Span::new(0, 0)).unwrap_err();
    assert!(matches!(err.inner(), ErrorKind::MissingIncludeName { .. }));
}

#[test]
fn test_next_tag_block_directive() {
    let s = scanner("{{.block hero}}");
    let tag = s.next_tag(0).unwrap().unwrap();
    assert_eq!(tag.directive, Directive::Block("hero".to_string()));
}

#[test]
fn test_next_tag_missing_block_name_errors() {
    let s = scanner("{{.block}}");
    let err = s.next_tag(0).unwrap_err();
    assert!(matches!(err.inner(), ErrorKind::MissingBlockName { .. }));
}

#[test]
fn test_next_tag_block_with_trailing_space_only_is_missing_name() {
    let s = scanner("{{.block }}");
    let err = s.next_tag(0).unwrap_err();
    assert!(matches!(err.inner(), ErrorKind::MissingBlockName { .. }));
}

#[test]
fn test_next_tag_blockquote_is_unknown_directive() {
    let s = scanner("{{.blockquote}}");
    let err = s.next_tag(0).unwrap_err();
    match err.inner() {
        ErrorKind::UnknownDirective { directive, .. } => assert_eq!(directive, "blockquote"),
        _ => panic!("expected UnknownDirective, got {:?}", err),
    }
}

#[test]
fn test_next_tag_end_directive() {
    let s = scanner("{{.end}}");
    let tag = s.next_tag(0).unwrap().unwrap();
    assert_eq!(tag.directive, Directive::End);
}

#[test]
fn test_next_tag_if_directive() {
    let s = scanner("{{.if flag}}");
    let tag = s.next_tag(0).unwrap().unwrap();
    assert_eq!(tag.directive, Directive::If("flag".to_string()));
}

#[test]
fn test_next_tag_if_directive_with_comparison() {
    let s = scanner(r#"{{.if a == "b"}}"#);
    let tag = s.next_tag(0).unwrap().unwrap();
    assert_eq!(tag.directive, Directive::If(r#"a == "b""#.to_string()));
}

#[test]
fn test_next_tag_if_negation_directive() {
    let s = scanner("{{.if !flag}}");
    let tag = s.next_tag(0).unwrap().unwrap();
    assert_eq!(tag.directive, Directive::If("!flag".to_string()));
}

#[test]
fn test_next_tag_missing_if_condition_errors() {
    let s = scanner("{{.if}}");
    let err = s.next_tag(0).unwrap_err();
    assert!(matches!(err.inner(), ErrorKind::MissingIfCondition { .. }));
}

#[test]
fn test_next_tag_if_with_trailing_space_only_is_missing_condition() {
    let s = scanner("{{.if }}");
    let err = s.next_tag(0).unwrap_err();
    assert!(matches!(err.inner(), ErrorKind::MissingIfCondition { .. }));
}

#[test]
fn test_parse_directive_missing_if_condition_direct() {
    let s = scanner("");
    let err = s.parse_directive("if ", Span::new(0, 0)).unwrap_err();
    assert!(matches!(err.inner(), ErrorKind::MissingIfCondition { .. }));
}

#[test]
fn test_next_tag_ifoo_is_unknown_directive() {
    let s = scanner("{{.ifoo}}");
    let err = s.next_tag(0).unwrap_err();
    match err.inner() {
        ErrorKind::UnknownDirective { directive, .. } => assert_eq!(directive, "ifoo"),
        _ => panic!("expected UnknownDirective, got {:?}", err),
    }
}

#[test]
fn test_next_tag_else_directive() {
    let s = scanner("{{.else}}");
    let tag = s.next_tag(0).unwrap().unwrap();
    assert_eq!(tag.directive, Directive::Else);
}

#[test]
fn test_next_tag_elseif_is_unknown_directive() {
    let s = scanner("{{.elseif x}}");
    let err = s.next_tag(0).unwrap_err();
    match err.inner() {
        ErrorKind::UnknownDirective { directive, .. } => assert_eq!(directive, "elseif x"),
        _ => panic!("expected UnknownDirective, got {:?}", err),
    }
}

#[test]
fn test_next_tag_include_with_nested_tag_in_literal_arg() {
    let s = scanner(r#"{{.include card.md title="Hi {{.var name}}"}}"#);
    let tag = s.next_tag(0).unwrap().unwrap();
    assert_eq!(tag.directive, include_directive("card.md", r#"title="Hi {{.var name}}""#));
}

#[test]
fn test_next_tag_if_with_nested_tag_in_literal_operand() {
    let s = scanner(r#"{{.if name == "Hi {{.var other}}"}}"#);
    let tag = s.next_tag(0).unwrap().unwrap();
    assert_eq!(tag.directive, Directive::If(r#"name == "Hi {{.var other}}""#.to_string()));
}

#[test]
fn test_next_tag_var_with_filters_directive() {
    let s = scanner("{{.var name | upper | trim}}");
    let tag = s.next_tag(0).unwrap().unwrap();
    assert_eq!(tag.directive, Directive::Var("name | upper | trim".to_string()));
}

#[test]
fn test_next_tag_unknown_directive_errors() {
    let s = scanner("{{.magic spell}}");
    let err = s.next_tag(0).unwrap_err();
    match err.inner() {
        ErrorKind::UnknownDirective { directive, .. } => assert_eq!(directive, "magic spell"),
        _ => panic!("expected UnknownDirective"),
    }
}

#[test]
fn test_next_tag_unclosed_tag_errors() {
    let s = scanner("Hello {{.var name");
    let err = s.next_tag(0).unwrap_err();
    assert!(matches!(err.inner(), ErrorKind::UnclosedTag { .. }));
}

#[test]
fn test_next_tag_respects_offset_for_sequential_scanning() {
    let s = scanner("{{.var a}} and {{.var b}}");
    let first = s.next_tag(0).unwrap().unwrap();
    assert_eq!(first.directive, Directive::Var("a".to_string()));
    let second = s.next_tag(first.match_end).unwrap().unwrap();
    assert_eq!(second.directive, Directive::Var("b".to_string()));
}

#[test]
fn escaped_marker_is_not_a_tag() {
    let s = scanner(r"a \{{.var x}} b");
    assert!(s.next_tag(0).unwrap().is_none());
}

#[test]
fn unclosed_tag_span_runs_to_the_end() {
    let s = scanner("ab{{.var x");
    let err = s.next_tag(0).unwrap_err();
    match err.inner() {
        ErrorKind::UnclosedTag { span, src } => {
            assert_eq!(*span, Span::new(2, 8));
            assert_eq!(src.name, "test.md");
            assert_eq!(src.text, "ab{{.var x");
        }
        _ => panic!("expected UnclosedTag, got {:?}", err),
    }
}

#[test]
fn tag_span_covers_the_whole_tag() {
    let s = scanner("x{{.end}}");
    let tag = s.next_tag(0).unwrap().unwrap();
    assert_eq!(tag.span, Span::new(1, 8));
}

#[test]
fn tag_end_skips_braces_inside_quotes() {
    assert_eq!(find_tag_end(r#"include a b="}}" }} rest"#), Some(17));
    assert_eq!(find_tag_end(r#"x "\"}}" }}"#), Some(9));
    assert_eq!(find_tag_end("no end"), None);
}

#[test]
fn unescaping_turns_escaped_markers_literal() {
    assert_eq!(unescape_tag_markers(r"\{{.var x}} and \{{ and {{."), "{{.var x}} and \\{{ and {{.");
}

#[test]
fn spans_count_bytes_of_the_text() {
    let s = scanner("é{{.bogus}}");
    let err = s.next_tag(0).unwrap_err();
    match err.inner() {
        ErrorKind::UnknownDirective { span, .. } => assert_eq!(*span, Span::new(2, 10)),
        _ => panic!("expected UnknownDirective, got {:?}", err),
    }
    let s = scanner("ü€{{.var x");
    let err = s.next_tag(0).unwrap_err();
    match err.inner() {
        ErrorKind::UnclosedTag { span, .. } => assert_eq!(*span, Span::new(5, 8)),
        _ => panic!("expected UnclosedTag, got {:?}", err),
    }
    let t = scanner("€{{.var x}}").next_tag(0).unwrap().unwrap();
    assert_eq!(t.span, Span::new(3, 10));
    assert_eq!(t.match_start, 3);
    assert_eq!(t.match_end, 13);
}

#[test]
fn positions_are_byte_offsets() {
    assert_eq!(find_tag_end("é}}"), Some(2));
    assert_eq!(find_tag_end("\"}}\"€}}"), Some(7));
    let s = scanner("é{{.end}}x{{.else}}");
    let t = s.next_tag(0).unwrap().unwrap();
    assert_eq!((t.match_start, t.match_end), (2, 10));
    let u = s.next_tag(t.match_end).unwrap().unwrap();
    assert_eq!((u.match_start, u.match_end), (11, 20));
    assert!(s.next_tag(u.match_end).unwrap().is_none());
}
