use gray_matter::engine::YAML;
use gray_matter::{Matter, Pod};
use render_md::engine::{include_depth_setting, is_page_source, PageMatter, ParsedPage, RenderEngine, RenderOptions, RenderPaths, SourceTimes, MAX_INCLUDE_DEPTH_DEFAULT};
use render_md::error::{Error, ErrorKind};
use render_md::fs_env::{SourceEntry, SourceStore};
use render_md::strmap::StrMap;
use std::collections::HashMap;

const SRC: &str = "/site/src/pages";

fn setup_env() -> RenderEngine {
    let paths = RenderPaths {
        base_dir: "/site".to_string(),
        src_dir: SRC.to_string(),
        public_dir: "/site/public".to_string(),
        template_path: "/site/src/template.html".to_string(),
        style_path: "/site/src/styles/style.css".to_string(),
    };
    let options = RenderOptions { max_include_depth: 3, ..Default::default() };
    RenderEngine::new(paths, options)
}

fn strmap_of(pod: Option<&Pod>) -> StrMap<String> {
    let mut m = StrMap::new();
    if let Some(Pod::Hash(h)) = pod {
        for (k, v) in h {
            if let Ok(s) = v.as_string() {
                m.insert(k.clone(), s);
            }
        }
    }
    m
}

fn args_of(pod: Option<&Pod>) -> Vec<(String, Option<String>)> {
    let mut args = Vec::new();
    if let Some(Pod::Hash(h)) = pod {
        for (k, v) in h {
            match v {
                Pod::Null => args.push((k.clone(), None)),
                other => args.push((k.clone(), other.as_string().ok())),
            }
        }
    }
    args
}

fn page_matter(pod: Pod) -> PageMatter {
    let h = match pod {
        Pod::Hash(h) => h,
        _ => HashMap::new(),
    };
    let mut custom_vars = StrMap::new();
    for (k, v) in &h {
        if !["title", "tags", "blocks", "args"].contains(&k.as_str()) {
            if let Ok(s) = v.as_string() {
                custom_vars.insert(k.clone(), s);
            }
        }
    }
    PageMatter {
        title: h.get("title").and_then(|t| t.as_string().ok()),
        tags: strmap_of(h.get("tags")),
        blocks: strmap_of(h.get("blocks")),
        args: args_of(h.get("args")),
        custom_vars,
    }
}

fn parse_page(raw: &str) -> ParsedPage {
    let parsed = Matter::<YAML>::new().parse::<Pod>(raw).unwrap();
    ParsedPage { data: parsed.data.map(page_matter), content: parsed.content }
}

fn component(raw: &str) -> SourceEntry {
    match Matter::<YAML>::new().parse::<Pod>(raw) {
        Ok(parsed) => {
            let args = match &parsed.data {
                Some(Pod::Hash(h)) => args_of(h.get("args")),
                _ => Vec::new(),
            };
            SourceEntry::Loaded { content: parsed.content, args }
        }
        Err(_) => SourceEntry::Loaded { content: raw.to_string(), args: Vec::new() },
    }
}

/// Renders `content` as the page `filename` beside the component `files`, with the
/// template `{{body}}`, handing the renderer each file it asks for.
fn render_with_files(
    engine: &RenderEngine,
    files: &[(&str, &str)],
    filename: &str,
    content: &str,
    vars: &mut StrMap<String>,
) -> Result<String, Error> {
    let page = parse_page(content);
    let src_md = format!("{SRC}/{filename}");
    let template: Result<String, String> = Ok("{{body}}".to_string());
    let mut store = SourceStore::new();
    loop {
        let mut attempt = vars.duplicate();
        match engine.render_page(&page, &src_md, &template, &store, &mut attempt) {
            Err(Error(ErrorKind::SourceRequired { path })) => {
                let entry = match files.iter().find(|(name, _)| format!("{SRC}/{name}") == path) {
                    Some((_, raw)) => component(raw),
                    None if path == src_md => component(content),
                    None => SourceEntry::Missing,
                };
                store.insert(path, entry);
            }
            other => {
                *vars = attempt;
                return other;
            }
        }
    }
}

fn render(engine: &RenderEngine, filename: &str, content: &str) -> Result<String, Error> {
    render_with_files(engine, &[], filename, content, &mut StrMap::new())
}

fn vars(pairs: &[(&str, &str)]) -> StrMap<String> {
    let mut m = StrMap::new();
    for (k, v) in pairs {
        m.insert(k.to_string(), v.to_string());
    }
    m
}

#[test]
fn test_variable_interpolation() {
    let engine = setup_env();
    let mut v = vars(&[("name", "World")]);
    let result = render_with_files(&engine, &[], "test.md", "Hello {{.var name}}!", &mut v).unwrap();
    assert_eq!(result, "<p>Hello World!</p>\n");
}

#[test]
fn test_page_args_default_applied_when_missing() {
    let engine = setup_env();
    let result = render(&engine, "test.md", "---\nargs:\n    error: \"An unknown error occurred\"\n---\n{{.var error}}").unwrap();
    assert_eq!(result, "<p>An unknown error occurred</p>\n");
}

#[test]
fn test_page_args_default_does_not_override_caller_value() {
    let engine = setup_env();
    let mut v = vars(&[("error", "Something specific broke")]);
    let result = render_with_files(
        &engine,
        &[],
        "test.md",
        "---\nargs:\n    error: \"An unknown error occurred\"\n---\n{{.var error}}",
        &mut v,
    )
    .unwrap();
    assert_eq!(result, "<p>Something specific broke</p>\n");
}

#[test]
fn test_page_args_required_without_value_still_errors_naturally() {
    let engine = setup_env();
    let err = render(&engine, "test.md", "---\nargs:\n    greeter:\n---\nHello {{.var greeter}}").unwrap_err();
    match err.inner() {
        ErrorKind::VariableNotFound { var_name, .. } => assert_eq!(var_name, "greeter"),
        _ => panic!("Expected VariableNotFound error, got {:?}", err),
    }
}

#[test]
fn test_missing_variable_errors() {
    let engine = setup_env();
    let err = render(&engine, "test.md", "Hello {{.var missing}}!").unwrap_err();
    match err.inner() {
        ErrorKind::VariableNotFound { var_name, .. } => assert_eq!(var_name, "missing"),
        _ => panic!("Expected VariableNotFound error"),
    }
}

#[test]
fn test_file_inclusion() {
    let engine = setup_env();
    let result = render_with_files(&engine, &[("partial.md", "I am a partial")], "index.md", "Include: {{.include partial.md}}", &mut StrMap::new()).unwrap();
    assert_eq!(result, "<p>Include: I am a partial</p>\n");
}

#[test]
fn test_html_inclusion_newlines() {
    let engine = setup_env();
    let result = render_with_files(&engine, &[("nav.html", "<nav>Links</nav>")], "index.md", "Header {{.include nav.html}} Footer", &mut StrMap::new()).unwrap();
    assert!(result.contains("<nav>Links</nav>"));
}

#[test]
fn test_include_not_found() {
    let engine = setup_env();
    let err = render(&engine, "index.md", "{{.include nope.md}}").unwrap_err();
    match err.inner() {
        ErrorKind::IncludeFileNotFound { include_path, .. } => assert_eq!(include_path, "nope.md"),
        _ => panic!("Expected IncludeFileNotFound error"),
    }
}

#[test]
fn test_include_path_traversal() {
    let engine = setup_env();
    let err = render(&engine, "index.md", "{{.include ../secret.txt}}").unwrap_err();
    match err.inner() {
        ErrorKind::IncludePathTraversal { include_path, .. } => assert_eq!(include_path, "../secret.txt"),
        _ => panic!("Expected IncludePathTraversal error"),
    }
}

#[test]
fn test_max_recursion_depth() {
    let engine = setup_env();
    let files = [("a.md", "{{.include b.md}}"), ("b.md", "{{.include a.md}}")];
    let err = render_with_files(&engine, &files, "index.md", "{{.include a.md}}", &mut StrMap::new()).unwrap_err();
    match err.inner() {
        ErrorKind::MaxRecursionDepthExceeded { depth, max_depth, .. } => {
            assert_eq!(*depth, 3);
            assert_eq!(*max_depth, 3);
        }
        _ => panic!("Expected MaxRecursionDepthExceeded error, got {:?}", err),
    }
}

#[test]
fn test_unknown_directive() {
    let engine = setup_env();
    let err = render(&engine, "index.md", "{{.magic spell}}").unwrap_err();
    match err.inner() {
        ErrorKind::UnknownDirective { directive, .. } => assert_eq!(directive, "magic spell"),
        _ => panic!("Expected UnknownDirective error"),
    }
}

#[test]
fn test_unclosed_tag() {
    let engine = setup_env();
    let err = render(&engine, "index.md", "Text {{.var title").unwrap_err();
    match err.inner() {
        ErrorKind::UnclosedTag { .. } => {}
        _ => panic!("Expected UnclosedTag error"),
    }
}

#[test]
fn test_include_with_default_arg_used_when_not_passed() {
    let engine = setup_env();
    let files = [("greeting.md", "---\nargs:\n    name: \"stranger\"\n---\nHi {{.var name}}")];
    let result = render_with_files(&engine, &files, "index.md", "{{.include greeting.md}}", &mut StrMap::new()).unwrap();
    assert_eq!(result, "<p>Hi stranger</p>\n");
}

#[test]
fn test_include_passed_literal_arg_overrides_default() {
    let engine = setup_env();
    let files = [("greeting.md", "---\nargs:\n    name: \"stranger\"\n---\nHi {{.var name}}")];
    let result = render_with_files(&engine, &files, "index.md", r#"{{.include greeting.md name="Bob"}}"#, &mut StrMap::new()).unwrap();
    assert_eq!(result, "<p>Hi Bob</p>\n");
}

#[test]
fn test_include_passed_variable_arg_resolves_from_parent_scope() {
    let engine = setup_env();
    let files = [("greeting.md", "---\nargs:\n    name:\n---\nHi {{.var name}}")];
    let mut v = vars(&[("visitor", "Alice")]);
    let result = render_with_files(&engine, &files, "index.md", "{{.include greeting.md name=visitor}}", &mut v).unwrap();
    assert_eq!(result, "<p>Hi Alice</p>\n");
}

#[test]
fn test_include_shorthand_arg_resolves_from_parent_scope() {
    let engine = setup_env();
    let files = [("greeting.md", "---\nargs:\n    name:\n---\nHi {{.var name}}")];
    let mut v = vars(&[("name", "Alice")]);
    let result = render_with_files(&engine, &files, "index.md", "{{.include greeting.md name}}", &mut v).unwrap();
    assert_eq!(result, "<p>Hi Alice</p>\n");
}

#[test]
fn test_include_missing_required_arg_errors() {
    let engine = setup_env();
    let files = [("greeting.md", "---\nargs:\n    name:\n---\nHi {{.var name}}")];
    let err = render_with_files(&engine, &files, "index.md", "{{.include greeting.md}}", &mut StrMap::new()).unwrap_err();
    match err.inner() {
        ErrorKind::MissingIncludeArgument { include_path, arg_name, .. } => {
            assert_eq!(arg_name, "name");
            assert_eq!(include_path, "greeting.md");
        }
        _ => panic!("Expected MissingIncludeArgument error, got {:?}", err),
    }
}

#[test]
fn test_frontmatter_title_overrides_default_title() {
    let engine = setup_env();
    let mut v = StrMap::new();
    render_with_files(&engine, &[], "index.md", "---\ntitle: My Page\n---\nBody", &mut v).unwrap();
    assert_eq!(v.get("title"), Some(&"My Page".to_string()));
}

#[test]
fn test_frontmatter_custom_vars_are_available_in_body() {
    let engine = setup_env();
    let result = render(&engine, "index.md", "---\ngreeting: Howdy\n---\n{{.var greeting}}").unwrap();
    assert_eq!(result, "<p>Howdy</p>\n");
}

#[test]
fn test_if_else_conditional_rendering() {
    let engine = setup_env();
    let mut v = vars(&[("flag", "1")]);
    let result = render_with_files(&engine, &[], "index.md", "{{.if flag}}Yes{{.else}}No{{.end}}", &mut v).unwrap();
    assert_eq!(result, "<p>Yes</p>\n");
}

#[test]
fn test_if_missing_var_renders_nothing_without_error() {
    let engine = setup_env();
    let result = render(&engine, "index.md", "{{.if flag}}Yes{{.end}}Done").unwrap();
    assert_eq!(result, "<p>Done</p>\n");
}

#[test]
fn test_filter_upper_applied_in_rendered_output() {
    let engine = setup_env();
    let mut v = vars(&[("name", "world")]);
    let result = render_with_files(&engine, &[], "index.md", "{{.var name | upper}}", &mut v).unwrap();
    assert_eq!(result, "<p>WORLD</p>\n");
}

#[test]
fn test_include_arg_literal_interpolates_var_end_to_end() {
    let engine = setup_env();
    let files = [("greeting.md", "---\nargs:\n    msg:\n---\n{{.var msg}}")];
    let mut v = vars(&[("name", "Alice")]);
    let result = render_with_files(&engine, &files, "index.md", r#"{{.include greeting.md msg="Hi {{.var name}}"}}"#, &mut v).unwrap();
    assert_eq!(result, "<p>Hi Alice</p>\n");
}

#[test]
fn test_include_arg_bareword_shorthand_with_filter_end_to_end() {
    let engine = setup_env();
    let files = [("greeter.md", "---\nargs:\n    greeter:\n---\n{{.var greeter}}")];
    let mut v = vars(&[("greeter", "world")]);
    let result = render_with_files(&engine, &files, "index.md", "{{.include greeter.md greeter|upper}}", &mut v).unwrap();
    assert_eq!(result, "<p>WORLD</p>\n");
}

#[test]
fn test_include_arg_key_value_with_filter_after_space_end_to_end() {
    let engine = setup_env();
    let files = [("greeter.md", "---\nargs:\n    greeter:\n---\n{{.var greeter}}")];
    let mut v = vars(&[("greeter", "world")]);
    let result = render_with_files(&engine, &files, "index.md", "{{.include greeter.md greeter=greeter |upper}}", &mut v).unwrap();
    assert_eq!(result, "<p>WORLD</p>\n");
}

#[test]
fn test_unknown_filter_errors_end_to_end() {
    let engine = setup_env();
    let mut v = vars(&[("name", "world")]);
    let err = render_with_files(&engine, &[], "index.md", "{{.var name | bogus}}", &mut v).unwrap_err();
    match err.inner() {
        ErrorKind::UnknownFilter { filter_name, .. } => assert_eq!(filter_name, "bogus"),
        _ => panic!("expected UnknownFilter, got {:?}", err),
    }
}

#[test]
fn test_unclosed_if_errors_end_to_end() {
    let engine = setup_env();
    let err = render(&engine, "index.md", "{{.if flag}}content").unwrap_err();
    assert!(matches!(err.inner(), ErrorKind::UnclosedIf { .. }));
}

#[test]
fn test_if_interpolation_and_filters_compose() {
    let engine = setup_env();
    let files = [("greeting.md", "---\nargs:\n    msg:\n---\n{{.var msg}}")];
    let mut v = vars(&[("name", "alice")]);
    let result = render_with_files(
        &engine,
        &files,
        "index.md",
        r#"{{.if !name}}Anonymous{{.else}}{{.include greeting.md msg="Hi {{.var name | title}}"}}{{.end}}"#,
        &mut v,
    )
    .unwrap();
    assert_eq!(result, "<p>Hi Alice</p>\n");
}

#[test]
fn test_block_and_end_directives_render_wrapping_div() {
    let engine = setup_env();
    let result = render(&engine, "index.md", "{{.block hero}}\n\ncontent\n\n{{.end}}").unwrap();
    assert!(result.contains("<div class=\"hero\">"));
    assert!(result.contains("</div>"));
}

#[test]
fn test_block_directive_maps_name_to_configured_classes() {
    let base = setup_env();
    let mut options = RenderOptions { max_include_depth: 3, ..Default::default() };
    options.blocks.insert("hero".to_string(), "bg-hero p-8".to_string());
    let engine = RenderEngine::new(base.paths.clone(), options);
    let result = render(&engine, "index.md", "{{.block hero}}\n\ncontent\n\n{{.end}}").unwrap();
    assert!(result.contains("<div class=\"bg-hero p-8\">"));
}

/// The routes whose page exists among `existing`.
fn resolve_existing(engine: &RenderEngine, uri: &str, existing: &[&str]) -> Option<(String, String, String)> {
    engine.resolve_paths(uri).filter(|(_, src_md, _)| existing.contains(&src_md.as_str()))
}

#[test]
fn test_resolve_paths_returns_none_for_nonexistent_route() {
    let engine = setup_env();
    assert!(resolve_existing(&engine, "/does-not-exist", &[]).is_none());
}

#[test]
fn test_resolve_paths_strips_slashes_and_extensions() {
    let engine = setup_env();
    let about_dir = format!("{SRC}/about");
    let about_md = format!("{SRC}/about/index.md");
    let existing = [about_md.as_str()];
    let (route_dir, src_md, public_html) = resolve_existing(&engine, "/about/", &existing).unwrap();
    assert_eq!(route_dir, about_dir);
    assert_eq!(src_md, about_md);
    assert!(public_html.ends_with("about/index.html"));
    let (route_dir2, ..) = resolve_existing(&engine, "/about.html", &existing).unwrap();
    assert_eq!(route_dir2, about_dir);
    let (route_dir3, ..) = resolve_existing(&engine, "/about.md", &existing).unwrap();
    assert_eq!(route_dir3, about_dir);
}

#[test]
fn test_resolve_paths_rejects_parent_dir_traversal() {
    let engine = setup_env();
    let existing = ["/site/secret/index.md"];
    assert!(resolve_existing(&engine, "../../secret", &existing).is_none());
    assert!(resolve_existing(&engine, "/about/../../../secret", &existing).is_none());
    assert!(engine.resolve_paths("../../secret").is_none());
}

#[test]
fn test_resolve_paths_root_uri_maps_to_src_dir() {
    let engine = setup_env();
    let index = format!("{SRC}/index.md");
    let (route_dir, src_md, _public_html) = resolve_existing(&engine, "/", &[index.as_str()]).unwrap();
    assert_eq!(route_dir, SRC);
    assert_eq!(src_md, index);
}

#[test]
fn test_is_stale_true_when_output_missing() {
    let engine = setup_env();
    let times = SourceTimes { output: None, template: Some(1), style: Some(1), sources: vec![Some(1)] };
    assert!(engine.is_stale(&times));
}

#[test]
fn test_is_stale_false_when_output_is_newer_than_sources() {
    let engine = setup_env();
    let times = SourceTimes { output: Some(50), template: Some(10), style: Some(10), sources: vec![Some(20), None] };
    assert!(!engine.is_stale(&times));
}

#[test]
fn stale_when_any_source_changed_after_output() {
    let engine = setup_env();
    let newer_source = SourceTimes { output: Some(50), template: Some(10), style: Some(10), sources: vec![Some(20), Some(51)] };
    assert!(engine.is_stale(&newer_source));
    let newer_template = SourceTimes { output: Some(50), template: Some(60), style: None, sources: vec![] };
    assert!(engine.is_stale(&newer_template));
    let newer_style = SourceTimes { output: Some(50), template: None, style: Some(55), sources: vec![] };
    assert!(engine.is_stale(&newer_style));
    let newer_style_than_page = SourceTimes { output: Some(10), template: Some(0), style: Some(20), sources: vec![] };
    assert!(engine.is_stale(&newer_style_than_page));
    let older_style = SourceTimes { output: Some(50), template: None, style: Some(45), sources: vec![] };
    assert!(!engine.is_stale(&older_style));
}

#[test]
fn template_gets_title_and_body() {
    let engine = setup_env();
    let page = parse_page("---\ntitle: Home\n---\nHi");
    let template: Result<String, String> = Ok("<title>{{title}}</title>{{body}}{{title}}".to_string());
    let store = SourceStore::new();
    let mut v = StrMap::new();
    let html = engine.render_page(&page, &format!("{SRC}/index.md"), &template, &store, &mut v).unwrap();
    assert_eq!(html, "<title>Home</title><p>Hi</p>\nHome");
}

#[test]
fn unreadable_template_is_an_io_error() {
    let engine = setup_env();
    let page = parse_page("Hi");
    let template: Result<String, String> = Err("no such file".to_string());
    let store = SourceStore::new();
    let mut v = StrMap::new();
    let err = engine.render_page(&page, &format!("{SRC}/index.md"), &template, &store, &mut v).unwrap_err();
    match err.inner() {
        ErrorKind::Io(m) => assert_eq!(m, "no such file"),
        _ => panic!("expected Io, got {:?}", err),
    }
}

#[test]
fn fallback_title_and_merged_classes() {
    let mut options = RenderOptions { title: Some("Site".to_string()), ..Default::default() };
    options.tags.insert("p".to_string(), "base".to_string());
    options.tags.insert("h1".to_string(), "big".to_string());
    let engine = RenderEngine::new(setup_env().paths.clone(), options);
    let page = parse_page("---\ntags:\n  p: page\n---\n# T\n\nx");
    let mut v = StrMap::new();
    let (title, tags, _blocks) = engine.merge_page_vars(page.data.as_ref(), &mut v);
    assert_eq!(title, "Site");
    assert_eq!(tags.get("p"), Some(&"page".to_string()));
    assert_eq!(tags.get("h1"), Some(&"big".to_string()));
    assert_eq!(v.get("title"), Some(&"Site".to_string()));
}

#[test]
fn format_error_is_the_message() {
    let engine = setup_env();
    assert_eq!(engine.format_error(Error::custom("boom".to_string())), "boom");
    let err = render(&engine, "index.md", "{{.var missing}}").unwrap_err();
    assert_eq!(engine.format_error(err), "Variable 'missing' was not found in context");
}

#[test]
fn page_sources_are_markdown_and_html() {
    assert!(is_page_source("/a/b/index.md"));
    assert!(is_page_source("nav.html"));
    assert!(!is_page_source("style.css"));
    assert!(!is_page_source(".md"));
    assert!(!is_page_source("/a/b/"));
}

#[test]
fn output_css_goes_under_public_assets() {
    let engine = setup_env();
    assert_eq!(engine.output_css_path(), "/site/public/assets/style.css");
}

#[test]
fn default_depth_is_ten() {
    assert_eq!(MAX_INCLUDE_DEPTH_DEFAULT, 10);
    assert_eq!(RenderOptions::default().max_include_depth, 10);
}

#[test]
fn compiled_pages_mirror_the_source_tree() {
    let engine = setup_env();
    assert_eq!(engine.public_html_for("/site/src/pages/index.md"), "/site/public/index.html");
    assert_eq!(engine.public_html_for("/site/src/pages/blog/post/index.md"), "/site/public/blog/post/index.html");
}

#[test]
fn include_depth_setting_reads_numbers_only() {
    assert_eq!(include_depth_setting(Some("3")), 3);
    assert_eq!(include_depth_setting(Some("+7")), 7);
    assert_eq!(include_depth_setting(Some("-1")), 10);
    assert_eq!(include_depth_setting(Some("")), 10);
    assert_eq!(include_depth_setting(Some(" 4")), 10);
    assert_eq!(include_depth_setting(Some("99999999999999999999999")), 10);
    assert_eq!(include_depth_setting(None), 10);
}

#[test]
fn conventional_layout_under_a_base_directory() {
    let p = render_md::engine::render_paths_for("/srv/site");
    assert_eq!(p.base_dir, "/srv/site");
    assert_eq!(p.src_dir, "/srv/site/src");
    assert_eq!(p.public_dir, "/srv/site/public");
    assert_eq!(p.template_path, "/srv/site/src/template.html");
    assert_eq!(p.style_path, "/srv/site/src/styles/tailwind.css");
}
