use render_md::error::{ErrorKind, SourceText, Span};
use render_md::filters::{apply_filter, apply_filters, parse_var_spec, title_case};
use render_md::text::parse_usize;

fn span() -> Span {
    Span::new(0, 0)
}

fn named_src() -> SourceText {
    SourceText::new("test.md".to_string(), String::new())
}

fn strings(v: &[&str]) -> Vec<String> {
    v.iter().map(|s| s.to_string()).collect()
}

#[test]
fn test_parse_var_spec_no_filters() {
    assert_eq!(parse_var_spec("name"), ("name".to_string(), strings(&[])));
}

#[test]
fn test_parse_var_spec_single_filter() {
    assert_eq!(parse_var_spec("name | upper"), ("name".to_string(), strings(&["upper"])));
}

#[test]
fn test_parse_var_spec_chained_filters() {
    assert_eq!(parse_var_spec("name | upper | trim"), ("name".to_string(), strings(&["upper", "trim"])));
}

#[test]
fn test_apply_filter_upper() {
    let result = apply_filter("world".to_string(), "upper", span(), &named_src()).unwrap();
    assert_eq!(result, "WORLD");
}

#[test]
fn test_apply_filter_lower() {
    let result = apply_filter("WORLD".to_string(), "lower", span(), &named_src()).unwrap();
    assert_eq!(result, "world");
}

#[test]
fn test_apply_filter_trim() {
    let result = apply_filter("  hi  ".to_string(), "trim", span(), &named_src()).unwrap();
    assert_eq!(result, "hi");
}

#[test]
fn test_apply_filter_title() {
    let result = apply_filter("hello world".to_string(), "title", span(), &named_src()).unwrap();
    assert_eq!(result, "Hello World");
}

#[test]
fn test_apply_filter_unknown_errors() {
    let err = apply_filter("x".to_string(), "bogus", span(), &named_src()).unwrap_err();
    match err.inner() {
        ErrorKind::UnknownFilter { filter_name, .. } => assert_eq!(filter_name, "bogus"),
        _ => panic!("expected UnknownFilter, got {:?}", err),
    }
}

#[test]
fn filters_apply_in_order() {
    let r = apply_filters("  hello world ".to_string(), &strings(&["trim", "title"]), span(), &named_src()).unwrap();
    assert_eq!(r, "Hello World");
    let r = apply_filters("MiXed".to_string(), &strings(&["upper", "lower"]), span(), &named_src()).unwrap();
    assert_eq!(r, "mixed");
    let r = apply_filters("kept".to_string(), &strings(&[]), span(), &named_src()).unwrap();
    assert_eq!(r, "kept");
}

#[test]
fn first_unknown_filter_is_reported() {
    let err = apply_filters("x".to_string(), &strings(&["upper", "nope", "worse"]), Span::new(3, 4), &named_src()).unwrap_err();
    match err.inner() {
        ErrorKind::UnknownFilter { filter_name, span, .. } => {
            assert_eq!(filter_name, "nope");
            assert_eq!(*span, Span::new(3, 4));
        }
        _ => panic!("expected UnknownFilter, got {:?}", err),
    }
}

#[test]
fn title_case_capitalizes_each_word_and_lowers_the_rest() {
    assert_eq!(title_case("hELLO   wORLD"), "Hello World");
    assert_eq!(title_case(""), "");
    assert_eq!(title_case("élan vital"), "Élan Vital");
}

#[test]
fn var_spec_keeps_empty_filter_names() {
    assert_eq!(parse_var_spec("  name |  | upper "), ("name".to_string(), strings(&["", "upper"])));
}

#[test]
fn numbers_parse_like_from_str() {
    assert_eq!(parse_usize("0"), Some(0));
    assert_eq!(parse_usize("+12"), Some(12));
    assert_eq!(parse_usize("+"), None);
    assert_eq!(parse_usize("1a"), None);
    assert_eq!(parse_usize("18446744073709551615"), Some(usize::MAX));
    assert_eq!(parse_usize("18446744073709551616"), None);
}
