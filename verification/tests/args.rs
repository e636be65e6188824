use render_md::args::{parse_args, parse_filter_chain, parse_quoted_literal, Argument};

fn lit(v: &str, filters: &[&str]) -> Argument {
    Argument::Literal(v.to_string(), filters.iter().map(|f| f.to_string()).collect())
}

fn var(v: &str, filters: &[&str]) -> Argument {
    Argument::Variable(v.to_string(), filters.iter().map(|f| f.to_string()).collect())
}

#[test]
fn test_parse_args() {
    let parsed = parse_args(r#"title="Hello\"World" count=my_count"#);
    assert_eq!(parsed.get("title"), Some(&lit("Hello\"World", &[])));
    assert_eq!(parsed.get("count"), Some(&var("my_count", &[])));
}

#[test]
fn test_parse_args_empty_string_yields_no_args() {
    let parsed = parse_args("");
    assert!(parsed.is_empty());
}

#[test]
fn test_parse_args_whitespace_only_yields_no_args() {
    let parsed = parse_args("   \t  ");
    assert!(parsed.is_empty());
}

#[test]
fn test_parse_args_single_literal() {
    let parsed = parse_args(r#"name="Bob""#);
    assert_eq!(parsed.len(), 1);
    assert_eq!(parsed.get("name"), Some(&lit("Bob", &[])));
}

#[test]
fn test_parse_args_single_variable() {
    let parsed = parse_args("name=my_name");
    assert_eq!(parsed.len(), 1);
    assert_eq!(parsed.get("name"), Some(&var("my_name", &[])));
}

#[test]
fn test_parse_args_tolerates_extra_whitespace_between_pairs() {
    let parsed = parse_args(r#"  a="1"    b="2"  "#);
    assert_eq!(parsed.get("a"), Some(&lit("1", &[])));
    assert_eq!(parsed.get("b"), Some(&lit("2", &[])));
}

#[test]
fn test_parse_args_literal_with_empty_value() {
    let parsed = parse_args(r#"name="""#);
    assert_eq!(parsed.get("name"), Some(&lit("", &[])));
}

#[test]
fn test_parse_args_bareword_between_pairs_is_shorthand() {
    let parsed = parse_args(r#"a="1" justatoken b="2""#);
    assert_eq!(parsed.get("a"), Some(&lit("1", &[])));
    assert_eq!(parsed.get("justatoken"), Some(&var("justatoken", &[])));
    assert_eq!(parsed.get("b"), Some(&lit("2", &[])));
}

#[test]
fn test_parse_args_single_bareword_is_shorthand() {
    let parsed = parse_args("var_name");
    assert_eq!(parsed.len(), 1);
    assert_eq!(parsed.get("var_name"), Some(&var("var_name", &[])));
}

#[test]
fn test_parse_args_mixed_named_and_shorthand() {
    let parsed = parse_args("count=my_count active");
    assert_eq!(parsed.get("count"), Some(&var("my_count", &[])));
    assert_eq!(parsed.get("active"), Some(&var("active", &[])));
}

#[test]
fn test_parse_args_unterminated_quote_still_captures_partial_value() {
    let parsed = parse_args(r#"name="unterminated"#);
    assert_eq!(parsed.get("name"), Some(&lit("unterminated", &[])));
}

#[test]
fn test_parse_args_variable_with_filter_no_space() {
    let parsed = parse_args("greeter|uppercase");
    assert_eq!(parsed.get("greeter"), Some(&var("greeter", &["uppercase"])));
}

#[test]
fn test_parse_args_key_value_variable_with_filter_after_space() {
    let parsed = parse_args("greeter=greeter |uppercase");
    assert_eq!(parsed.get("greeter"), Some(&var("greeter", &["uppercase"])));
}

#[test]
fn test_parse_args_variable_with_chained_filters() {
    let parsed = parse_args("name=my_name | upper | trim");
    assert_eq!(parsed.get("name"), Some(&var("my_name", &["upper", "trim"])));
}

#[test]
fn test_parse_args_literal_with_filter() {
    let parsed = parse_args(r#"name="bob" | upper"#);
    assert_eq!(parsed.get("name"), Some(&lit("bob", &["upper"])));
}

#[test]
fn test_parse_args_filtered_arg_followed_by_another_pair() {
    let parsed = parse_args(r#"a=my_var|upper b="2""#);
    assert_eq!(parsed.get("a"), Some(&var("my_var", &["upper"])));
    assert_eq!(parsed.get("b"), Some(&lit("2", &[])));
}

#[test]
fn bareword_reads_like_explicit_pair() {
    let short = parse_args("name");
    let long = parse_args("name=name");
    assert_eq!(short.get("name"), long.get("name"));
    assert_eq!(short.len(), long.len());
}

#[test]
fn later_pair_with_same_key_wins() {
    let parsed = parse_args(r#"a="1" a="2""#);
    assert_eq!(parsed.len(), 1);
    assert_eq!(parsed.get("a"), Some(&lit("2", &[])));
}

#[test]
fn quoted_literal_keeps_braces_and_escapes() {
    let (value, rest, closed) = parse_quoted_literal(r#""Hi {{.var name}}" tail"#);
    assert_eq!(value, "Hi {{.var name}}");
    assert_eq!(rest, "tail");
    assert!(closed);
    let (value, rest, closed) = parse_quoted_literal(r#""a\\b\"c""#);
    assert_eq!(value, "a\\b\"c");
    assert_eq!(rest, "");
    assert!(closed);
}

#[test]
fn quoted_literal_unterminated_reports_open() {
    let (value, rest, closed) = parse_quoted_literal(r#""open"#);
    assert_eq!(value, "open");
    assert_eq!(rest, "");
    assert!(!closed);
}

#[test]
fn filter_chain_reads_names_and_rest() {
    let (names, rest) = parse_filter_chain(" | upper|trim  b=1");
    assert_eq!(names, vec!["upper".to_string(), "trim".to_string()]);
    assert_eq!(rest, "b=1");
    let (names, rest) = parse_filter_chain("b=1");
    assert!(names.is_empty());
    assert_eq!(rest, "b=1");
}
