use render_md::markdown::{render_markdown, rewrite_event, EndKind, Rewrite, StartKind};
use render_md::strmap::StrMap;

fn tags(pairs: &[(&str, &str)]) -> StrMap<String> {
    let mut m = StrMap::new();
    for (k, v) in pairs {
        m.insert(k.to_string(), v.to_string());
    }
    m
}

#[test]
fn test_plain_paragraph_no_active_tags() {
    let result = render_markdown("Hello world", &StrMap::new());
    assert_eq!(result, "<p>Hello world</p>\n");
}

#[test]
fn test_heading_gets_class_for_its_level() {
    let active = tags(&[("h1", "text-4xl"), ("h2", "text-2xl")]);
    let result = render_markdown("# Title\n\n## Subtitle", &active);
    assert!(result.contains("<h1 class=\"text-4xl\">Title</h1>"));
    assert!(result.contains("<h2 class=\"text-2xl\">Subtitle</h2>"));
}

#[test]
fn test_heading_without_matching_tag_is_unstyled() {
    let active = tags(&[("h2", "text-2xl")]);
    let result = render_markdown("# Title", &active);
    assert_eq!(result, "<h1>Title</h1>\n");
}

#[test]
fn test_paragraph_gets_class() {
    let active = tags(&[("p", "leading-6")]);
    let result = render_markdown("Hello world", &active);
    assert_eq!(result, "<p class=\"leading-6\">Hello world</p>\n");
}

#[test]
fn test_blockquote_gets_class() {
    let active = tags(&[("blockquote", "italic")]);
    let result = render_markdown("> Quoted text", &active);
    assert!(result.contains("<blockquote class=\"italic\">\n"));
    assert!(result.contains("</blockquote>\n"));
}

#[test]
fn test_fenced_code_block_gets_class_and_language() {
    let active = tags(&[("code", "overflow-x-auto")]);
    let result = render_markdown("```rust\nfn main() {}\n```", &active);
    assert!(result.contains("<pre class=\"overflow-x-auto\"><code class=\"language-rust\">"));
    assert!(result.contains("</code></pre>\n"));
}

#[test]
fn test_code_block_without_language_omits_class_attr() {
    let active = tags(&[("code", "overflow-x-auto")]);
    let result = render_markdown("```\nplain\n```", &active);
    assert!(result.contains("<pre class=\"overflow-x-auto\"><code>"));
}

#[test]
fn test_unordered_list_and_items_get_classes() {
    let active = tags(&[("ul", "list-disc"), ("li", "ml-4")]);
    let result = render_markdown("- one\n- two", &active);
    assert!(result.contains("<ul class=\"list-disc\">\n"));
    assert!(result.contains("<li class=\"ml-4\">one</li>\n"));
    assert!(result.contains("</ul>\n"));
}

#[test]
fn test_ordered_list_gets_class_and_start() {
    let active = tags(&[("ol", "list-decimal")]);
    let result = render_markdown("3. three\n4. four", &active);
    assert!(result.contains("<ol class=\"list-decimal\" start=\"3\">\n"));
    assert!(result.contains("</ol>\n"));
}

#[test]
fn test_table_extension_is_enabled() {
    let result = render_markdown("| a | b |\n|---|---|\n| 1 | 2 |", &StrMap::new());
    assert!(result.contains("<table>"));
}

#[test]
fn test_strikethrough_extension_is_enabled() {
    let result = render_markdown("~~gone~~", &StrMap::new());
    assert!(result.contains("<del>gone</del>"));
}

#[test]
fn test_tasklist_extension_is_enabled() {
    let result = render_markdown("- [x] done", &StrMap::new());
    assert!(result.contains("type=\"checkbox\""));
    assert!(result.contains("checked"));
}

#[test]
fn rewrite_decisions() {
    let active = tags(&[("h3", "c3"), ("p", "pc"), ("ol", "oc"), ("li", "lc"), ("code", "cc")]);
    assert_eq!(
        rewrite_event(
            &active,
            &StartKind::Heading { level: 3, classes: vec!["own".to_string()], attrs: vec![("k".to_string(), Some("v".to_string()))] },
            EndKind::NotAnEnd
        ),
        Rewrite::Heading { classes: vec!["own".to_string(), "c3".to_string()], attrs: vec![] }
    );
    assert_eq!(
        rewrite_event(&active, &StartKind::Heading { level: 4, classes: vec![], attrs: vec![] }, EndKind::NotAnEnd),
        Rewrite::Heading { classes: vec![], attrs: vec![] }
    );
    assert_eq!(rewrite_event(&active, &StartKind::Paragraph, EndKind::NotAnEnd), Rewrite::Html("<p class=\"pc\">".to_string()));
    assert_eq!(rewrite_event(&active, &StartKind::NotAStart, EndKind::Paragraph), Rewrite::Html("</p>\n".to_string()));
    assert_eq!(
        rewrite_event(&active, &StartKind::List { start: Some(12) }, EndKind::NotAnEnd),
        Rewrite::Html("<ol class=\"oc\" start=\"12\">\n".to_string())
    );
    assert_eq!(rewrite_event(&active, &StartKind::List { start: None }, EndKind::NotAnEnd), Rewrite::Keep);
    assert_eq!(rewrite_event(&active, &StartKind::NotAStart, EndKind::List { ordered: false }), Rewrite::Keep);
    assert_eq!(rewrite_event(&active, &StartKind::NotAStart, EndKind::List { ordered: true }), Rewrite::Html("</ol>\n".to_string()));
    assert_eq!(rewrite_event(&active, &StartKind::Item, EndKind::NotAnEnd), Rewrite::Html("<li class=\"lc\">".to_string()));
    assert_eq!(
        rewrite_event(&active, &StartKind::CodeBlock { fenced_lang: Some(String::new()) }, EndKind::NotAnEnd),
        Rewrite::Html("<pre class=\"cc\"><code>".to_string())
    );
    assert_eq!(rewrite_event(&active, &StartKind::NotAStart, EndKind::CodeBlock), Rewrite::Html("</code></pre>\n".to_string()));
    assert_eq!(rewrite_event(&active, &StartKind::BlockQuote, EndKind::NotAnEnd), Rewrite::Keep);
    assert_eq!(rewrite_event(&active, &StartKind::NotAStart, EndKind::NotAnEnd), Rewrite::Keep);
}

#[test]
fn heading_attributes_are_dropped_but_id_and_classes_kept() {
    let active = tags(&[("h1", "big")]);
    let result = render_markdown("# Title {#top .own data-x=1}", &active);
    assert!(result.contains("id=\"top\""));
    assert!(result.contains("own big"));
    assert!(!result.contains("data-x"));
}
