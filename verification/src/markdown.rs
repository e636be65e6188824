//! Markdown to HTML with pulldown-cmark, with configured CSS classes put on headings,
//! paragraphs, block quotes, code blocks, lists and list items.
use vstd::prelude::*;
use pulldown_cmark::{CodeBlockKind, Event, Tag, TagEnd};
use crate::strmap::StrMap;
use crate::text::{decimal, decimal_string};

verus! {

#[verifier::external_type_specification]
#[verifier::external_body]
pub struct ExMarkdownEvent<'a>(pulldown_cmark::Event<'a>);

/// The opening tag of an event, as the renderer reads it. A heading carries its level, its
/// classes and its custom attributes.
#[derive(Debug, Clone, PartialEq, Eq)]
pub enum StartKind {
    Heading { level: usize, classes: Vec<String>, attrs: Vec<(String, Option<String>)> },
    Paragraph,
    BlockQuote,
    CodeBlock { fenced_lang: Option<String> },
    List { start: Option<u64> },
    Item,
    NotAStart,
}

/// The closing tag of an event, as the renderer reads it.
#[derive(Debug, Clone, Copy, PartialEq, Eq)]
pub enum EndKind {
    Paragraph,
    BlockQuote,
    CodeBlock,
    List { ordered: bool },
    Item,
    NotAnEnd,
}

/// The kinds of the events that pulldown-cmark's parser (`Parser::new_ext` with
/// `Options::from_bits_truncate(options)`) yields for `text`, in order.
pub uninterp spec fn markdown_kinds(text: Seq<char>, options: u32) -> Seq<(StartKindModel, EndKind)>;

/// The HTML that pulldown-cmark's `html::push_html` writes for the events that the parser
/// yields for `text` (as in [`markdown_kinds`]), the `i`-th event replaced as `rewrites[i]`
/// says.
pub uninterp spec fn markdown_html(text: Seq<char>, options: u32, rewrites: Seq<RewriteModel>) -> Seq<char>;

/// The views of a list of event kinds.
pub open spec fn kinds_view(v: Seq<(StartKind, EndKind)>) -> Seq<(StartKindModel, EndKind)> {
    v.map_values(|p: (StartKind, EndKind)| (p.0@, p.1))
}

/// The views of a list of rewrites.
pub open spec fn rewrites_view(v: Seq<Rewrite>) -> Seq<RewriteModel> {
    v.map_values(|r: Rewrite| r@)
}

/// pulldown-cmark's `Parser::new_ext` over `text` with the option bits `options`
/// (`Options::from_bits_truncate`), each event read as its kinds ([`event_kind`]). Claimed:
/// the result is named by [`markdown_kinds`] of the arguments.
#[verifier::external_body]
fn event_kinds(text: &str, options: u32) -> (r: Vec<(StartKind, EndKind)>)
    ensures
        kinds_view(r@) == markdown_kinds(text@, options),
{
    pulldown_cmark::Parser::new_ext(text, pulldown_cmark::Options::from_bits_truncate(options)).map(|e| event_kind(&e)).collect()
}

/// pulldown-cmark's `Parser::new_ext` over `text` (as in [`event_kinds`]), each event put
/// through [`rewritten_event`] with the rewrite at its position, the events then written by
/// `html::push_html`. Claimed: the result is named by [`markdown_html`] of the arguments.
#[verifier::external_body]
fn render_rewritten(text: &str, options: u32, rewrites: &Vec<Rewrite>) -> (r: String)
    ensures
        r@ == markdown_html(text@, options, rewrites_view(rewrites@)),
{
    let parser = pulldown_cmark::Parser::new_ext(text, pulldown_cmark::Options::from_bits_truncate(options));
    let mut out = String::new();
    pulldown_cmark::html::push_html(&mut out, parser.zip(rewrites.iter()).map(|(e, rw)| rewritten_event(e, rw)));
    out
}

/// Reads a pulldown-cmark event as the opening and closing tags the renderer styles.
#[verifier::external_body]
fn event_kind(e: &Event) -> (StartKind, EndKind) {
    (start_kind(e), end_kind(e))
}

/// The opening tag that a pulldown-cmark event starts, if it is one the renderer styles
/// (a heading read by [`heading_kind`]).
#[verifier::external_body]
fn start_kind(e: &Event) -> StartKind {
    match e {
        Event::Start(Tag::Heading { .. }) => heading_kind(e),
        Event::Start(Tag::Paragraph) => StartKind::Paragraph,
        Event::Start(Tag::BlockQuote(_)) => StartKind::BlockQuote,
        Event::Start(Tag::CodeBlock(CodeBlockKind::Fenced(l))) => StartKind::CodeBlock { fenced_lang: Some(l.to_string()) },
        Event::Start(Tag::CodeBlock(CodeBlockKind::Indented)) => StartKind::CodeBlock { fenced_lang: None },
        Event::Start(Tag::List(s)) => StartKind::List { start: *s },
        Event::Start(Tag::Item) => StartKind::Item,
        _ => StartKind::NotAStart,
    }
}

/// A heading's start event read as its level (`HeadingLevel`, `H1 = 1` to `H6`), classes
/// and custom attributes, as `String`s.
#[verifier::external_body]
fn heading_kind(e: &Event) -> StartKind {
    match e {
        Event::Start(Tag::Heading { level, classes, attrs, .. }) => StartKind::Heading {
            level: *level as usize,
            classes: classes.iter().map(|c| c.to_string()).collect(),
            attrs: attrs.iter().map(|(k, v)| (k.to_string(), v.as_ref().map(|x| x.to_string()))).collect(),
        },
        _ => StartKind::NotAStart,
    }
}

/// The closing tag that a pulldown-cmark event ends, if it is one the renderer styles.
#[verifier::external_body]
fn end_kind(e: &Event) -> EndKind {
    match e {
        Event::End(TagEnd::Paragraph) => EndKind::Paragraph,
        Event::End(TagEnd::BlockQuote(_)) => EndKind::BlockQuote,
        Event::End(TagEnd::CodeBlock) => EndKind::CodeBlock,
        Event::End(TagEnd::List(o)) => EndKind::List { ordered: *o },
        Event::End(TagEnd::Item) => EndKind::Item,
        _ => EndKind::NotAnEnd,
    }
}

/// Turns a rewrite back into a pulldown-cmark event: `Keep` gives the event itself, `Html`
/// an `Event::Html`, and `Heading` the heading rebuilt by [`rebuilt_heading`].
#[verifier::external_body]
fn rewritten_event<'a>(e: Event<'a>, rw: &Rewrite) -> Event<'a> {
    match rw {
        Rewrite::Keep => e,
        Rewrite::Html(h) => Event::Html(h.clone().into()),
        Rewrite::Heading { classes, attrs } => rebuilt_heading(e, classes, attrs),
    }
}

/// A heading's start event taken apart and rebuilt with its level and id and the given
/// classes and attributes (`Tag::Heading`); any other event as it is.
#[verifier::external_body]
fn rebuilt_heading<'a>(e: Event<'a>, classes: &Vec<String>, attrs: &Vec<(String, Option<String>)>) -> Event<'a> {
    match e {
        Event::Start(Tag::Heading { level, id, .. }) => Event::Start(Tag::Heading {
            level,
            id,
            classes: classes.iter().map(|c| c.clone().into()).collect(),
            attrs: attrs.iter().map(|(k, v)| (k.clone().into(), v.clone().map(|x| x.into()))).collect(),
        }),
        e => e,
    }
}

/// The opening tag of an event, as a mathematical value.
pub enum StartKindModel {
    Heading { level: usize, classes: Seq<Seq<char>>, attrs: Seq<(Seq<char>, Option<Seq<char>>)> },
    Paragraph,
    BlockQuote,
    CodeBlock { fenced_lang: Option<Seq<char>> },
    List { start: Option<u64> },
    Item,
    NotAStart,
}

/// The views of a list of strings.
pub open spec fn texts_view(v: Seq<String>) -> Seq<Seq<char>> {
    v.map_values(|s: String| s@)
}

/// The views of a list of attributes.
pub open spec fn attrs_view(v: Seq<(String, Option<String>)>) -> Seq<(Seq<char>, Option<Seq<char>>)> {
    v.map_values(|p: (String, Option<String>)| (p.0@, match p.1 {
        Some(x) => Some(x@),
        None => None,
    }))
}

impl View for StartKind {
    type V = StartKindModel;

    open spec fn view(&self) -> StartKindModel {
        match self {
            StartKind::Heading { level, classes, attrs } => StartKindModel::Heading {
                level: *level,
                classes: texts_view(classes@),
                attrs: attrs_view(attrs@),
            },
            StartKind::Paragraph => StartKindModel::Paragraph,
            StartKind::BlockQuote => StartKindModel::BlockQuote,
            StartKind::CodeBlock { fenced_lang } => StartKindModel::CodeBlock {
                fenced_lang: match fenced_lang {
                    Some(l) => Some(l@),
                    None => None,
                },
            },
            StartKind::List { start } => StartKindModel::List { start: *start },
            StartKind::Item => StartKindModel::Item,
            StartKind::NotAStart => StartKindModel::NotAStart,
        }
    }
}

/// What becomes of an event, as a mathematical value.
pub enum RewriteModel {
    Keep,
    Html(Seq<char>),
    Heading { classes: Seq<Seq<char>>, attrs: Seq<(Seq<char>, Option<Seq<char>>)> },
}

/// What becomes of an event: kept, replaced by raw HTML, or (a heading's start) rebuilt
/// with the given classes and attributes.
#[derive(Debug, PartialEq, Eq)]
pub enum Rewrite {
    Keep,
    Html(String),
    Heading { classes: Vec<String>, attrs: Vec<(String, Option<String>)> },
}

impl View for Rewrite {
    type V = RewriteModel;

    open spec fn view(&self) -> RewriteModel {
        match self {
            Rewrite::Keep => RewriteModel::Keep,
            Rewrite::Html(h) => RewriteModel::Html(h@),
            Rewrite::Heading { classes, attrs } => RewriteModel::Heading {
                classes: texts_view(classes@),
                attrs: attrs_view(attrs@),
            },
        }
    }
}

/// The opening tag `<tag class="...">` (with a newline after it when `nl`), if `key` has a
/// configured class.
pub open spec fn styled_open_spec(tags: Map<Seq<char>, Seq<char>>, key: Seq<char>, tag: Seq<char>, nl: bool) -> RewriteModel {
    if tags.contains_key(key) {
        RewriteModel::Html("<"@ + tag + " class=\""@ + tags[key] + "\">"@ + if nl { "\n"@ } else { Seq::empty() })
    } else {
        RewriteModel::Keep
    }
}

/// The closing tag `</tag>` and a newline, if `key` has a configured class.
pub open spec fn styled_close_spec(tags: Map<Seq<char>, Seq<char>>, key: Seq<char>) -> RewriteModel {
    if tags.contains_key(key) {
        RewriteModel::Html("</"@ + key + ">\n"@)
    } else {
        RewriteModel::Keep
    }
}

/// The ` class="language-..."` attribute of a fenced code block with a language.
pub open spec fn lang_attr(fenced_lang: Option<Seq<char>>) -> Seq<char> {
    match fenced_lang {
        Some(l) => if l.len() > 0 {
            " class=\"language-"@ + l + "\""@
        } else {
            Seq::empty()
        },
        None => Seq::empty(),
    }
}

/// The ` start="N"` attribute of an ordered list.
pub open spec fn start_attr(start: Option<u64>) -> Seq<char> {
    match start {
        Some(n) => " start=\""@ + decimal(n as nat) + "\""@,
        None => Seq::empty(),
    }
}

/// The class key of a list: `ol` when ordered, `ul` otherwise.
pub open spec fn list_key(ordered: bool) -> Seq<char> {
    if ordered {
        "ol"@
    } else {
        "ul"@
    }
}

/// What becomes of an event with opening tag `start` and closing tag `end`, given the
/// configured classes `tags`: a heading is rebuilt with its level's class (`h1`..`h6`)
/// added to its classes, when one is configured, and its custom attributes dropped; a
/// paragraph, block quote, list item, code block or list gets raw HTML with its class when
/// one is configured; anything else is kept.
pub open spec fn rewrite_spec(tags: Map<Seq<char>, Seq<char>>, start: StartKindModel, end: EndKind) -> RewriteModel {
    match start {
        StartKindModel::Heading { level, classes, .. } => {
            let key = "h"@ + decimal(level as nat);
            RewriteModel::Heading {
                classes: if tags.contains_key(key) { classes.push(tags[key]) } else { classes },
                attrs: Seq::empty(),
            }
        },
        StartKindModel::Paragraph => styled_open_spec(tags, "p"@, "p"@, false),
        StartKindModel::BlockQuote => styled_open_spec(tags, "blockquote"@, "blockquote"@, true),
        StartKindModel::CodeBlock { fenced_lang } => if tags.contains_key("code"@) {
            RewriteModel::Html("<pre class=\""@ + tags["code"@] + "\"><code"@ + lang_attr(fenced_lang) + ">"@)
        } else {
            RewriteModel::Keep
        },
        StartKindModel::List { start } => {
            let key = list_key(start is Some);
            if tags.contains_key(key) {
                RewriteModel::Html("<"@ + key + " class=\""@ + tags[key] + "\""@ + start_attr(start) + ">\n"@)
            } else {
                RewriteModel::Keep
            }
        },
        StartKindModel::Item => styled_open_spec(tags, "li"@, "li"@, false),
        StartKindModel::NotAStart => match end {
            EndKind::Paragraph => styled_close_spec(tags, "p"@),
            EndKind::BlockQuote => styled_close_spec(tags, "blockquote"@),
            EndKind::CodeBlock => if tags.contains_key("code"@) {
                RewriteModel::Html("</code></pre>\n"@)
            } else {
                RewriteModel::Keep
            },
            EndKind::List { ordered } => styled_close_spec(tags, list_key(ordered)),
            EndKind::Item => styled_close_spec(tags, "li"@),
            EndKind::NotAnEnd => RewriteModel::Keep,
        },
    }
}

/// The opening tag for a styled block, if `key` has a configured class; `nl` puts a newline
/// after it.
fn styled_open(tags: &StrMap<String>, key: &str, tag: &str, nl: bool) -> (r: Rewrite)
    ensures
        r@ == styled_open_spec(tags@, key@, tag@, nl),
{
    match tags.get(key) {
        Some(c) => {
            let mut h = String::from_str("<");
            h.append(tag);
            h.append(" class=\"");
            h.append(c.as_str());
            h.append("\">");
            if nl {
                h.append("\n");
            } else {
                assert(h@ =~= h@ + Seq::<char>::empty());
            }
            Rewrite::Html(h)
        },
        None => Rewrite::Keep,
    }
}

/// The closing tag for a styled block, if `key` has a configured class.
fn styled_close(tags: &StrMap<String>, key: &str) -> (r: Rewrite)
    ensures
        r@ == styled_close_spec(tags@, key@),
{
    if tags.contains_key(key) {
        let mut h = String::from_str("</");
        h.append(key);
        h.append(">\n");
        Rewrite::Html(h)
    } else {
        Rewrite::Keep
    }
}

/// What becomes of an event with opening tag `start` and closing tag `end` (see
/// [`rewrite_spec`]).
pub fn rewrite_event(tags: &StrMap<String>, start: &StartKind, end: EndKind) -> (r: Rewrite)
    ensures
        r@ == rewrite_spec(tags@, start@, end),
{
    match start {
        StartKind::Heading { level, classes, .. } => {
            let mut key = String::from_str("h");
            let lv: usize = *level;
            let d = decimal_string(lv as u64);
            assert(d@ == decimal(lv as nat));
            key.append(d.as_str());
            let mut all = copy_texts(classes);
            if let Some(c) = tags.get(key.as_str()) {
                all.push(c.clone());
                proof {
                    assert(texts_view(all@) =~= texts_view(classes@).push(c@));
                }
            }
            let attrs: Vec<(String, Option<String>)> = Vec::new();
            proof {
                assert(attrs_view(attrs@) =~= Seq::<(Seq<char>, Option<Seq<char>>)>::empty());
            }
            Rewrite::Heading { classes: all, attrs }
        },
        StartKind::Paragraph => styled_open(tags, "p", "p", false),
        StartKind::BlockQuote => styled_open(tags, "blockquote", "blockquote", true),
        StartKind::CodeBlock { fenced_lang } => match tags.get("code") {
            Some(c) => {
                let mut h = String::from_str("<pre class=\"");
                h.append(c.as_str());
                h.append("\"><code");
                let ghost before = h@;
                match fenced_lang {
                    Some(l) => {
                        if !l.as_str().is_empty() {
                            h.append(" class=\"language-");
                            h.append(l.as_str());
                            h.append("\"");
                        } else {
                            assert(h@ =~= before + Seq::<char>::empty());
                        }
                    },
                    None => {
                        assert(h@ =~= before + Seq::<char>::empty());
                    },
                }
                h.append(">");
                assert(h@ == "<pre class=\""@ + tags@["code"@] + "\"><code"@ + lang_attr(start@->fenced_lang) + ">"@);
                Rewrite::Html(h)
            },
            None => Rewrite::Keep,
        },
        StartKind::List { start } => {
            let key = if start.is_some() { "ol" } else { "ul" };
            match tags.get(key) {
                Some(c) => {
                    let mut h = String::from_str("<");
                    h.append(key);
                    h.append(" class=\"");
                    h.append(c.as_str());
                    h.append("\"");
                    let ghost before = h@;
                    match start {
                        Some(n) => {
                            h.append(" start=\"");
                            let d = decimal_string(*n);
                            h.append(d.as_str());
                            h.append("\"");
                        },
                        None => {
                            assert(h@ =~= before + Seq::<char>::empty());
                        },
                    }
                    h.append(">\n");
                    assert(key@ == list_key(start.is_some()));
                    assert(h@ == "<"@ + key@ + " class=\""@ + tags@[key@] + "\""@ + start_attr(*start) + ">\n"@);
                    Rewrite::Html(h)
                },
                None => Rewrite::Keep,
            }
        },
        StartKind::Item => styled_open(tags, "li", "li", false),
        StartKind::NotAStart => match end {
            EndKind::Paragraph => styled_close(tags, "p"),
            EndKind::BlockQuote => styled_close(tags, "blockquote"),
            EndKind::CodeBlock => if tags.contains_key("code") {
                Rewrite::Html(String::from_str("</code></pre>\n"))
            } else {
                Rewrite::Keep
            },
            EndKind::List { ordered } => styled_close(tags, if ordered { "ol" } else { "ul" }),
            EndKind::Item => styled_close(tags, "li"),
            EndKind::NotAnEnd => Rewrite::Keep,
        },
    }
}

/// A copy of a list of strings.
fn copy_texts(v: &Vec<String>) -> (r: Vec<String>)
    ensures
        texts_view(r@) == texts_view(v@),
{
    let mut r: Vec<String> = Vec::new();
    let mut i: usize = 0;
    while i < v.len()
        invariant
            i <= v@.len(),
            texts_view(r@) == texts_view(v@).take(i as int),
        decreases v.len() - i,
    {
        let c = v[i].clone();
        let ghost prev = r@;
        r.push(c);
        proof {
            assert(c@ == v@[i as int]@);
            assert(r@ == prev.push(c));
            assert(texts_view(v@).take(i + 1) =~= texts_view(v@).take(i as int).push(v@[i as int]@));
            assert(texts_view(r@) =~= texts_view(prev).push(c@));
        }
        i = i + 1;
    }
    proof {
        assert(texts_view(v@).take(v@.len() as int) =~= texts_view(v@));
    }
    r
}

/// The rewrites of a list of event kinds, each by [`rewrite_spec`].
pub open spec fn rewrites_for(tags: Map<Seq<char>, Seq<char>>, kinds: Seq<(StartKindModel, EndKind)>) -> Seq<RewriteModel> {
    kinds.map_values(|k: (StartKindModel, EndKind)| rewrite_spec(tags, k.0, k.1))
}

/// The HTML that [`render_markdown`] gives for `text` with the configured classes `tags`.
pub open spec fn markdown_spec(text: Seq<char>, tags: Map<Seq<char>, Seq<char>>) -> Seq<char> {
    markdown_html(text, MARKDOWN_OPTIONS, rewrites_for(tags, markdown_kinds(text, MARKDOWN_OPTIONS)))
}

/// The option bits that pages are parsed with: tables, footnotes, strikethrough, task lists,
/// heading attributes and wiki links (pulldown-cmark's `Options` bits).
pub const MARKDOWN_OPTIONS: u32 = 2 | 4 | 8 | 16 | 64 | 32768;

/// Renders Markdown to HTML with pulldown-cmark, applying [`rewrite_event`] to every event
/// before the HTML is written.
pub fn render_markdown(processed_content: &str, active_tags: &StrMap<String>) -> (r: String)
    ensures
        r@ == markdown_spec(processed_content@, active_tags@),
{
    let kinds = event_kinds(processed_content, MARKDOWN_OPTIONS);
    let ghost gk = kinds_view(kinds@);
    let mut rewrites: Vec<Rewrite> = Vec::new();
    let mut i: usize = 0;
    while i < kinds.len()
        invariant
            i <= kinds@.len(),
            gk == kinds_view(kinds@),
            rewrites_view(rewrites@) == rewrites_for(active_tags@, gk.take(i as int)),
        decreases kinds.len() - i,
    {
        let rw = rewrite_event(active_tags, &kinds[i].0, kinds[i].1);
        let ghost prev = rewrites@;
        let ghost m = rw@;
        rewrites.push(rw);
        proof {
            assert(gk[i as int] == (kinds@[i as int].0@, kinds@[i as int].1));
            assert(m == rewrite_spec(active_tags@, gk[i as int].0, gk[i as int].1));
            assert(rewrites@ == prev.push(rw));
            assert(gk.take(i + 1) =~= gk.take(i as int).push(gk[i as int]));
            assert(rewrites_for(active_tags@, gk.take(i + 1)) =~= rewrites_for(active_tags@, gk.take(i as int)).push(m));
            assert(rewrites_view(rewrites@) =~= rewrites_view(prev).push(m));
        }
        i = i + 1;
    }
    proof {
        assert(gk.take(kinds@.len() as int) =~= gk);
    }
    render_rewritten(processed_content, MARKDOWN_OPTIONS, &rewrites)
}

} // verus!
