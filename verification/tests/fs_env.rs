use gray_matter::engine::YAML;
use gray_matter::{Matter, Pod};
use render_md::engine::RenderOptions;
use render_md::environment::Environment;
use render_md::error::{Error, ErrorKind, SourceText, Span};
use render_md::fs_env::{bind_include_args, normalize_html_content, FileSystemEnvironment, SourceEntry, SourceStore};
use render_md::strmap::StrMap;

const SRC: &str = "/site/src/pages";

fn span() -> Span {
    Span::new(0, 0)
}

fn named_src() -> SourceText {
    SourceText::new("test.md".to_string(), String::new())
}

/// What a component file holds once its front matter is read.
fn component(raw: &str) -> SourceEntry {
    match Matter::<YAML>::new().parse::<Pod>(raw) {
        Ok(parsed) => {
            let mut args = Vec::new();
            if let Some(Pod::Hash(h)) = parsed.data {
                if let Some(Pod::Hash(a)) = h.get("args") {
                    for (k, v) in a {
                        match v {
                            Pod::Null => args.push((k.clone(), None)),
                            other => args.push((k.clone(), other.as_string().ok())),
                        }
                    }
                }
            }
            SourceEntry::Loaded { content: parsed.content, args }
        }
        Err(_) => SourceEntry::Loaded { content: raw.to_string(), args: Vec::new() },
    }
}

fn vars(pairs: &[(&str, &str)]) -> StrMap<String> {
    let mut m = StrMap::new();
    for (k, v) in pairs {
        m.insert(k.to_string(), v.to_string());
    }
    m
}

fn options(max_include_depth: usize) -> RenderOptions {
    RenderOptions { max_include_depth, ..Default::default() }
}

/// Runs `f` in an environment for `SRC/index.md`, handing it the files it asks for.
fn run<F>(files: &[(&str, &str)], opts: &RenderOptions, var_pairs: &[(&str, &str)], depth: usize, f: F) -> Result<String, Error>
where
    F: Fn(&FileSystemEnvironment) -> Result<String, Error>,
{
    let mut store = SourceStore::new();
    loop {
        let env = FileSystemEnvironment::new(SRC, format!("{SRC}/index.md"), vars(var_pairs), opts, depth, &store);
        let r = f(&env);
        drop(env);
        match r {
            Err(Error(ErrorKind::SourceRequired { path })) => {
                let entry = match files.iter().find(|(name, _)| format!("{SRC}/{name}") == path) {
                    Some((_, raw)) => component(raw),
                    None => SourceEntry::Missing,
                };
                store.insert(path, entry);
            }
            other => return other,
        }
    }
}

#[test]
fn test_resolve_file_rejects_path_traversal() {
    let opts = RenderOptions::default();
    let err = run(&[], &opts, &[], 0, |env| env.resolve_file("../secret.txt", "", span(), &named_src())).unwrap_err();
    match err.inner() {
        ErrorKind::IncludePathTraversal { include_path, .. } => assert_eq!(include_path, "../secret.txt"),
        _ => panic!("expected IncludePathTraversal, got {:?}", err),
    }
}

#[test]
fn test_resolve_file_recursion_depth_limit() {
    let opts = options(1);
    let err = run(&[("partial.md", "hi")], &opts, &[], 1, |env| env.resolve_file("partial.md", "", span(), &named_src())).unwrap_err();
    match err.inner() {
        ErrorKind::MaxRecursionDepthExceeded { depth, max_depth, .. } => {
            assert_eq!(*depth, 1);
            assert_eq!(*max_depth, 1);
        }
        _ => panic!("expected MaxRecursionDepthExceeded, got {:?}", err),
    }
}

#[test]
fn test_resolve_file_default_arg_used_when_missing() {
    let opts = RenderOptions::default();
    let files = [("greeting.md", "---\nargs:\n    name: \"stranger\"\n---\nHi {{.var name}}")];
    let result = run(&files, &opts, &[], 0, |env| env.resolve_file("greeting.md", "", span(), &named_src())).unwrap();
    assert_eq!(result, "Hi stranger");
}

#[test]
fn test_resolve_file_literal_arg_overrides_default() {
    let opts = RenderOptions::default();
    let files = [("greeting.md", "---\nargs:\n    name: \"stranger\"\n---\nHi {{.var name}}")];
    let result = run(&files, &opts, &[], 0, |env| env.resolve_file("greeting.md", r#"name="Bob""#, span(), &named_src())).unwrap();
    assert_eq!(result, "Hi Bob");
}

#[test]
fn test_resolve_file_missing_required_arg_returns_typed_error() {
    let opts = RenderOptions::default();
    let files = [("greeting.md", "---\nargs:\n    name:\n---\nHi {{.var name}}")];
    let err = run(&files, &opts, &[], 0, |env| env.resolve_file("greeting.md", "", span(), &named_src())).unwrap_err();
    match err.inner() {
        ErrorKind::MissingIncludeArgument { include_path, arg_name, .. } => {
            assert_eq!(include_path, "greeting.md");
            assert_eq!(arg_name, "name");
        }
        _ => panic!("expected MissingIncludeArgument, got {:?}", err),
    }
}

#[test]
fn test_resolve_file_normalizes_html_whitespace() {
    let opts = RenderOptions::default();
    let files = [("partial.html", "  <div>\n    <p>hi</p>\n  </div>")];
    let result = run(&files, &opts, &[], 0, |env| env.resolve_file("partial.html", "", span(), &named_src())).unwrap();
    assert_eq!(result, "\n\n<div>\n<p>hi</p>\n</div>\n\n");
}

#[test]
fn test_lookup_var_returns_none_for_missing() {
    let opts = RenderOptions::default();
    let store = SourceStore::new();
    let env = FileSystemEnvironment::new(SRC, format!("{SRC}/index.md"), StrMap::new(), &opts, 0, &store);
    assert_eq!(env.lookup_var("missing"), None);
}

#[test]
fn test_lookup_var_returns_some_for_present() {
    let opts = RenderOptions::default();
    let store = SourceStore::new();
    let env = FileSystemEnvironment::new(SRC, format!("{SRC}/index.md"), vars(&[("name", "Alice")]), &opts, 0, &store);
    assert_eq!(env.lookup_var("name"), Some("Alice".to_string()));
}

#[test]
fn test_resolve_literal_interpolates_var_and_include() {
    let opts = RenderOptions::default();
    let files = [("partial.md", "included")];
    let result = run(&files, &opts, &[("name", "Alice")], 0, |env| env.resolve_literal("Hi {{.var name}}, {{.include partial.md}}")).unwrap();
    assert_eq!(result, "Hi Alice, included");
}

#[test]
fn test_resolve_file_literal_arg_interpolates_var_tag() {
    let opts = RenderOptions::default();
    let files = [("greeting.md", "---\nargs:\n    msg:\n---\n{{.var msg}}")];
    let result = run(&files, &opts, &[("name", "Alice")], 0, |env| {
        env.resolve_file("greeting.md", r#"msg="Hello {{.var name}}""#, span(), &named_src())
    })
    .unwrap();
    assert_eq!(result, "Hello Alice");
}

#[test]
fn test_resolve_file_variable_arg_shorthand_with_filter_applies_it() {
    let opts = RenderOptions::default();
    let files = [("greeter.md", "---\nargs:\n    greeter:\n---\n{{.var greeter}}")];
    let result = run(&files, &opts, &[("greeter", "world")], 0, |env| env.resolve_file("greeter.md", "greeter|upper", span(), &named_src())).unwrap();
    assert_eq!(result, "WORLD");
}

#[test]
fn test_resolve_file_key_value_arg_with_filter_after_space_applies_it() {
    let opts = RenderOptions::default();
    let files = [("greeter.md", "---\nargs:\n    greeter:\n---\n{{.var greeter}}")];
    let result = run(&files, &opts, &[("greeter", "world")], 0, |env| {
        env.resolve_file("greeter.md", "greeter=greeter |upper", span(), &named_src())
    })
    .unwrap();
    assert_eq!(result, "WORLD");
}

#[test]
fn test_resolve_file_literal_arg_interpolation_respects_max_recursion_depth() {
    let opts = options(3);
    let files = [("loop.md", r#"{{.include loop.md payload="{{.include loop.md}}"}}"#)];
    let err = run(&files, &opts, &[], 0, |env| env.resolve_file("loop.md", "", span(), &named_src())).unwrap_err();
    assert!(matches!(err.inner(), ErrorKind::MaxRecursionDepthExceeded { .. }));
}

#[test]
fn missing_file_is_not_found() {
    let opts = RenderOptions::default();
    let err = run(&[], &opts, &[], 0, |env| env.resolve_file("nope.md", "", span(), &named_src())).unwrap_err();
    match err.inner() {
        ErrorKind::IncludeFileNotFound { include_path, .. } => assert_eq!(include_path, "nope.md"),
        _ => panic!("expected IncludeFileNotFound, got {:?}", err),
    }
}

#[test]
fn unloaded_file_is_asked_for_by_normalized_path() {
    let opts = RenderOptions::default();
    let store = SourceStore::new();
    let env = FileSystemEnvironment::new(SRC, format!("{SRC}/docs/index.md"), StrMap::new(), &opts, 0, &store);
    let err = env.resolve_file("./../parts/./nav.md", "", span(), &named_src()).unwrap_err();
    match err.inner() {
        ErrorKind::SourceRequired { path } => assert_eq!(path, "/site/src/pages/parts/nav.md"),
        _ => panic!("expected SourceRequired, got {:?}", err),
    }
}

#[test]
fn unreadable_file_is_an_io_error() {
    let opts = RenderOptions::default();
    let mut store = SourceStore::new();
    store.insert(format!("{SRC}/locked.md"), SourceEntry::Unreadable("permission denied".to_string()));
    let env = FileSystemEnvironment::new(SRC, format!("{SRC}/index.md"), StrMap::new(), &opts, 0, &store);
    let err = env.resolve_file("locked.md", "", span(), &named_src()).unwrap_err();
    match err.inner() {
        ErrorKind::Io(m) => assert_eq!(m, "permission denied"),
        _ => panic!("expected Io, got {:?}", err),
    }
}

#[test]
fn includes_nest_relative_to_the_including_file() {
    let opts = RenderOptions::default();
    let files = [("parts/outer.md", "[{{.include inner.md}}]"), ("parts/inner.md", "inside")];
    let result = run(&files, &opts, &[], 0, |env| env.resolve_file("parts/outer.md", "", span(), &named_src())).unwrap();
    assert_eq!(result, "[inside]");
}

#[test]
fn block_markup_uses_configured_classes_or_the_name() {
    let mut opts = RenderOptions::default();
    opts.blocks.insert("hero".to_string(), "bg-hero p-8".to_string());
    let store = SourceStore::new();
    let env = FileSystemEnvironment::new(SRC, format!("{SRC}/index.md"), StrMap::new(), &opts, 0, &store);
    assert_eq!(env.resolve_block("hero"), "\n\n<div class=\"bg-hero p-8\">\n\n");
    assert_eq!(env.resolve_block("plain"), "\n\n<div class=\"plain\">\n\n");
    assert_eq!(env.resolve_end(), "\n\n</div>\n\n");
}

#[test]
fn html_normalization_handles_crlf_and_final_newline() {
    assert_eq!(normalize_html_content("  a\r\n\tb\n"), "\n\na\nb\n\n");
    assert_eq!(normalize_html_content(""), "\n\n\n\n");
    assert_eq!(normalize_html_content("x\r"), "\n\nx\r\n\n");
}

#[test]
fn binding_reports_the_first_missing_required_argument() {
    let schema = vec![
        ("a".to_string(), None),
        ("b".to_string(), Some("dflt".to_string())),
        ("c".to_string(), None),
    ];
    let mut passed = StrMap::new();
    passed.insert("c".to_string(), "given".to_string());
    let err = bind_include_args(&schema, &passed, "card.md", Span::new(1, 2), &named_src()).unwrap_err();
    match err.inner() {
        ErrorKind::MissingIncludeArgument { include_path, arg_name, .. } => {
            assert_eq!(include_path, "card.md");
            assert_eq!(arg_name, "a");
        }
        _ => panic!("expected MissingIncludeArgument, got {:?}", err),
    }
    passed.insert("a".to_string(), "x".to_string());
    passed.insert("b".to_string(), "override".to_string());
    let bound = bind_include_args(&schema, &passed, "card.md", Span::new(1, 2), &named_src()).unwrap();
    assert_eq!(bound.get("a"), Some(&"x".to_string()));
    assert_eq!(bound.get("b"), Some(&"override".to_string()));
    assert_eq!(bound.get("c"), Some(&"given".to_string()));
}

#[test]
fn a_repeated_argument_name_takes_its_last_value_only() {
    let opts = RenderOptions::default();
    let files = [("card.md", "[{{.var who}}]")];
    // The first `who` names a variable that is not in scope; it is overridden, so it is
    // never resolved.
    let result = run(&files, &opts, &[], 0, |env| {
        env.resolve_file("card.md", "who=nobody who=\"Ann\"", span(), &named_src())
    })
    .unwrap();
    assert_eq!(result, "[Ann]");
    let err = run(&files, &opts, &[], 0, |env| {
        env.resolve_file("card.md", "who=\"Ann\" who=nobody", span(), &named_src())
    })
    .unwrap_err();
    assert!(matches!(err.inner(), ErrorKind::VariableNotFound { var_name, .. } if var_name == "nobody"));
}

#[test]
fn included_file_sees_caller_variables_and_its_arguments() {
    let opts = RenderOptions::default();
    let files = [("card.md", "{{.var site}}/{{.var who}}")];
    let result = run(&files, &opts, &[("site", "S"), ("who", "outer")], 0, |env| {
        env.resolve_file("card.md", "who=\"inner\"", span(), &named_src())
    })
    .unwrap();
    assert_eq!(result, "S/inner");
}

#[test]
fn template_evaluation_handles_conditions_blocks_and_filters() {
    let mut opts = RenderOptions::default();
    opts.blocks.insert("hero".to_string(), "bg".to_string());
    let store = SourceStore::new();
    let env = FileSystemEnvironment::new(SRC, format!("{SRC}/index.md"), vars(&[("name", "bob"), ("flag", "1")]), &opts, 0, &store);
    let out = env
        .evaluate_template("{{.if flag}}Hi {{.var name | upper}}{{.else}}no{{.end}}{{.block hero}}x{{.end}}", "index.md")
        .unwrap();
    assert_eq!(out, "Hi BOB\n\n<div class=\"bg\">\n\nx\n\n</div>\n\n");
    let out = env.evaluate_template("{{.if name == \"{{.var name}}\"}}same{{.end}}", "index.md").unwrap();
    assert_eq!(out, "same");
    assert!(env.evaluate_template("{{.if flag}}open", "index.md").is_err());
    assert!(env.evaluate_template("{{.var missing}}", "index.md").is_err());
}

#[test]
fn literal_interpolation_at_the_depth_limit_fails_only_when_it_includes() {
    let opts = options(1);
    let store = SourceStore::new();
    let env = FileSystemEnvironment::new(SRC, format!("{SRC}/index.md"), vars(&[("a", "A")]), &opts, 1, &store);
    assert_eq!(env.resolve_literal("x{{.var a}}").unwrap(), "xA");
    let err = env.resolve_literal("{{.include card.md}}").unwrap_err();
    assert!(matches!(err.inner(), ErrorKind::MaxRecursionDepthExceeded { .. } | ErrorKind::SourceRequired { .. }));
}

#[test]
fn a_schema_name_declared_twice_keeps_its_first_default() {
    let schema = vec![("a".to_string(), Some("1".to_string())), ("a".to_string(), Some("2".to_string()))];
    let bound = bind_include_args(&schema, &StrMap::new(), "card.md", Span::new(0, 0), &named_src()).unwrap();
    assert_eq!(bound.get("a"), Some(&"1".to_string()));
}

#[test]
fn nested_failures_keep_their_error_kind() {
    let opts = options(3);
    let files = [("loop.md", "x{{.include loop.md}}"), ("outer.md", "[{{.include inner.md}}]"), ("inner.md", "{{.var nope}}")];
    let err = run(&files, &opts, &[], 0, |env| env.resolve_file("loop.md", "", span(), &named_src())).unwrap_err();
    assert!(matches!(err.inner(), ErrorKind::MaxRecursionDepthExceeded { depth: 3, max_depth: 3, .. }));
    let err = run(&files, &opts, &[], 0, |env| env.resolve_file("outer.md", "", span(), &named_src())).unwrap_err();
    assert!(matches!(err.inner(), ErrorKind::VariableNotFound { var_name, .. } if var_name == "nope"));
}
