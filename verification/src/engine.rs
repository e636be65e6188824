//! The page renderer: its options, its paths, page front matter, route resolution,
//! staleness and the page pipeline (front matter, body, template).
use vstd::prelude::*;
use crate::condition::opt_view;
use crate::fs_env::{is_html_path, name_extension, schema_view};
use crate::paths::{clean_path, clean_spec, comps_view, components, is_prefix, join_path, join_spec, lemma_join_extends, lemma_prefix_trans, parent_components, path_components, path_starts_with, ComponentModel, PathComponent};
use crate::error::{message_spec, Error, ErrorKind};
use crate::evaluator::eval_spec;
use crate::fs_env::{fs_eval, FileSystemEnvironment, FsContext, FsScope, SourceEntryModel, SourceStore};
use crate::markdown::{markdown_spec, render_markdown};
use crate::text::{matches_at, replace_all, replace_spec};
use crate::strmap::{lemma_map_of_push, map_of, StrMap};
use crate::text::{back_char, skip_char, strip_suffix_all, strip_suffix_all_exec, trim_char, trim_char_exec};

verus! {

/// The include depth limit used when none is configured.
pub const MAX_INCLUDE_DEPTH_DEFAULT: usize = 10;

/// The include depth limit that a setting gives: the number it spells (as `usize::from_str`
/// reads it), or the default when it is absent or not a number.
pub fn include_depth_setting(value: Option<&str>) -> (r: usize)
    ensures
        r == match value {
            Some(v) => match crate::text::usize_text(v@) {
                Some(n) => n as usize,
                None => MAX_INCLUDE_DEPTH_DEFAULT,
            },
            None => MAX_INCLUDE_DEPTH_DEFAULT,
        },
{
    match value {
        Some(v) => match crate::text::parse_usize(v) {
            Some(n) => n,
            None => MAX_INCLUDE_DEPTH_DEFAULT,
        },
        None => MAX_INCLUDE_DEPTH_DEFAULT,
    }
}

/// Engine-level rendering configuration. Built by the program that runs the engine, never
/// read from a page's front matter, so a page cannot override process-wide settings.
#[derive(Debug)]
pub struct RenderOptions {
    /// Used as fallback if no front matter attribute is set.
    pub title: Option<String>,
    /// Maximum recursion depth of inclusion directives.
    pub max_include_depth: usize,
    /// Mapping of standard HTML tags (e.g., "p", "h1") to CSS classes.
    pub tags: StrMap<String>,
    /// Custom block mappings: section name -> CSS classes.
    pub blocks: StrMap<String>,
}

impl Default for RenderOptions {
    fn default() -> (r: RenderOptions)
        ensures
            r.title is None,
            r.max_include_depth == MAX_INCLUDE_DEPTH_DEFAULT,
            r.tags@ == Map::<Seq<char>, Seq<char>>::empty(),
            r.blocks@ == Map::<Seq<char>, Seq<char>>::empty(),
    {
        RenderOptions {
            title: None,
            max_include_depth: MAX_INCLUDE_DEPTH_DEFAULT,
            tags: StrMap::new(),
            blocks: StrMap::new(),
        }
    }
}

/// A single page's front matter.
#[derive(Debug)]
pub struct PageMatter {
    /// Overrides `RenderOptions::title` for this page, if set.
    pub title: Option<String>,
    /// Mapping of standard HTML tags to CSS classes, merged onto (and overriding) the
    /// engine's configured `tags`.
    pub tags: StrMap<String>,
    /// Custom block mappings, merged onto (and overriding) the engine's configured `blocks`.
    pub blocks: StrMap<String>,
    /// Argument schema for this page: name and default value (`None` means required).
    pub args: Vec<(String, Option<String>)>,
    /// Any remaining front matter keys, as custom variables.
    pub custom_vars: StrMap<String>,
}

/// A page as read from disk: its front matter, if any, and its body.
#[derive(Debug)]
pub struct ParsedPage {
    pub data: Option<PageMatter>,
    pub content: String,
}

/// Where the engine finds its inputs and writes its outputs.
#[derive(Debug, Clone)]
pub struct RenderPaths {
    pub base_dir: String,
    pub src_dir: String,
    pub public_dir: String,
    pub template_path: String,
    pub style_path: String,
}

/// The conventional layout under `base`: pages in `src`, output in `public`, the template
/// at `src/template.html` and the stylesheet at `src/styles/tailwind.css`.
pub fn render_paths_for(base: &str) -> (r: RenderPaths)
    ensures
        r.base_dir@ == base@,
        r.src_dir@ == join_spec(base@, "src"@),
        r.public_dir@ == join_spec(base@, "public"@),
        r.template_path@ == join_spec(base@, "src/template.html"@),
        r.style_path@ == join_spec(base@, "src/styles/tailwind.css"@),
{
    RenderPaths {
        base_dir: String::from_str(base),
        src_dir: join_path(base, "src"),
        public_dir: join_path(base, "public"),
        template_path: join_path(base, "src/template.html"),
        style_path: join_path(base, "src/styles/tailwind.css"),
    }
}

/// Modification times (nanoseconds since the epoch) that decide whether a page's output is
/// stale; `None` where a file could not be inspected.
#[derive(Debug)]
pub struct SourceTimes {
    /// The page's compiled output.
    pub output: Option<u128>,
    /// The shared HTML template.
    pub template: Option<u128>,
    /// The stylesheet source.
    pub style: Option<u128>,
    /// Every Markdown or HTML file under the route's directory.
    pub sources: Vec<Option<u128>>,
}

/// A time, or the epoch when unknown.
pub open spec fn time_or_epoch(t: Option<u128>) -> u128 {
    match t {
        Some(x) => x,
        None => 0,
    }
}

/// Whether the output is stale: missing, or older than the template, the stylesheet or any
/// source file.
pub open spec fn stale_spec(t: SourceTimes) -> bool {
    match t.output {
        None => true,
        Some(cache) => time_or_epoch(t.template) > cache || time_or_epoch(t.style) > cache
            || exists|i: int| 0 <= i < t.sources@.len() && time_or_epoch(#[trigger] t.sources@[i]) > cache,
    }
}

/// `uri` with its leading and trailing `/` removed, then any trailing `.md`, then any
/// trailing `.html`.
pub open spec fn clean_uri(uri: Seq<char>) -> Seq<char> {
    strip_suffix_all(strip_suffix_all(trim_char(uri, '/'), ".md"@), ".html"@)
}

/// The route directory, page source and output file for `uri`, or `None` when the route
/// leaves `src_dir`.
pub open spec fn route_spec(src_dir: Seq<char>, public_dir: Seq<char>, uri: Seq<char>) -> Option<(Seq<char>, Seq<char>, Seq<char>)> {
    let c = clean_uri(uri);
    let route_dir = if c.len() == 0 {
        src_dir
    } else {
        clean_spec(join_spec(src_dir, c))
    };
    let public_base = if c.len() == 0 {
        public_dir
    } else {
        join_spec(public_dir, c)
    };
    if is_prefix(components(src_dir), components(route_dir)) {
        Some((route_dir, join_spec(route_dir, "index.md"@), join_spec(public_base, "index.html"@)))
    } else {
        None
    }
}

/// The page's title: its front matter's, else the configured fallback, else empty.
pub open spec fn page_title(own: Option<Seq<char>>, fallback: Option<Seq<char>>) -> Seq<char> {
    match own {
        Some(t) => t,
        None => match fallback {
            Some(t) => t,
            None => Seq::empty(),
        },
    }
}

/// A page's own title wins over the configured one; without its own, the page takes the
/// configured title, or none.
pub proof fn law_page_title_prefers_own(own: Option<Seq<char>>, fallback: Option<Seq<char>>)
    ensures
        own matches Some(t) ==> page_title(own, fallback) == t,
        own is None ==> (fallback matches Some(f) ==> page_title(own, fallback) == f),
        own is None && fallback is None ==> page_title(own, fallback).len() == 0,
{
}

/// Staleness: a missing output is stale; with an output, the page is stale when the
/// template, the stylesheet or any source file (at any position) is newer than it, and fresh
/// when none is.
pub proof fn law_stale_when_any_input_is_newer(t: SourceTimes, i: int)
    ensures
        t.output is None ==> stale_spec(t),
        t.output matches Some(out) ==> (0 <= i < t.sources@.len() && time_or_epoch(t.sources@[i]) > out ==> stale_spec(t)),
        t.output matches Some(out) ==> (time_or_epoch(t.template) > out ==> stale_spec(t)),
        t.output matches Some(out) ==> (time_or_epoch(t.style) > out ==> stale_spec(t)),
        t.output matches Some(out) ==> (time_or_epoch(t.template) <= out && time_or_epoch(t.style) <= out
            && (forall|j: int| 0 <= j < t.sources@.len() ==> time_or_epoch(#[trigger] t.sources@[j]) <= out) ==> !stale_spec(t)),
{
}

/// `vars` with each declared default added where the name is not yet set.
pub open spec fn with_arg_defaults(vars: Map<Seq<char>, Seq<char>>, args: Seq<(Seq<char>, Option<Seq<char>>)>) -> Map<Seq<char>, Seq<char>>
    decreases args.len(),
{
    if args.len() == 0 {
        vars
    } else {
        let prev = with_arg_defaults(vars, args.drop_last());
        match args.last().1 {
            Some(d) => if prev.contains_key(args.last().0) {
                prev
            } else {
                prev.insert(args.last().0, d)
            },
            None => prev,
        }
    }
}

/// The front matter an optional reference points to.
pub open spec fn deref_matter(data: Option<&PageMatter>) -> Option<PageMatter> {
    match data {
        Some(d) => Some(*d),
        None => None,
    }
}

/// The variables a page renders with: the caller's, its front matter's custom variables
/// over them, its argument defaults where unset, and its title.
pub open spec fn page_vars(vars: Map<Seq<char>, Seq<char>>, data: Option<PageMatter>, title: Seq<char>) -> Map<Seq<char>, Seq<char>> {
    match data {
        Some(d) => with_arg_defaults(vars.union_prefer_right(d.custom_vars@), schema_view(d.args@)).insert("title"@, title),
        None => vars.insert("title"@, title),
    }
}

/// Whether a file name counts as a page source: its extension is `md` or `html`.
pub open spec fn is_source_path(p: Seq<char>) -> bool {
    let cs = components(p);
    cs.len() > 0 && (cs.last() matches ComponentModel::Normal(f) && (name_extension(f) == Some(seq!['m', 'd'])
        || name_extension(f) == Some(seq!['h', 't', 'm', 'l'])))
}

/// The text of one component.
pub open spec fn component_text(c: ComponentModel) -> Seq<char> {
    match c {
        ComponentModel::Root => Seq::empty(),
        ComponentModel::Cur => seq!['.'],
        ComponentModel::Parent => seq!['.', '.'],
        ComponentModel::Normal(x) => x,
    }
}

/// Components written back as a relative path: their texts joined by `/`.
pub open spec fn join_components(cs: Seq<ComponentModel>) -> Seq<char>
    decreases cs.len(),
{
    if cs.len() == 0 {
        Seq::empty()
    } else if cs.len() == 1 {
        component_text(cs[0])
    } else {
        join_components(cs.drop_last()) + seq!['/'] + component_text(cs.last())
    }
}

/// Components written back as a path: a leading root as `/`, the rest joined by `/`.
pub open spec fn components_text(cs: Seq<ComponentModel>) -> Seq<char> {
    if cs.len() > 0 && cs[0] is Root {
        seq!['/'] + join_components(cs.skip(1))
    } else {
        join_components(cs)
    }
}

/// Where a page source compiles to: its directory taken relative to `src_dir` (kept whole
/// when it is not inside it), under `public_dir`, as `index.html`.
pub open spec fn public_html_spec(src_dir: Seq<char>, public_dir: Seq<char>, src_md: Seq<char>) -> Seq<char> {
    let route = match parent_components(components(src_md)) {
        Some(p) => p,
        None => components(src_dir),
    };
    let base = components(src_dir);
    let rel = if is_prefix(base, route) { route.skip(base.len() as int) } else { route };
    join_spec(join_spec(public_dir, components_text(rel)), "index.html"@)
}

fn component_text_exec(c: &PathComponent) -> (r: String)
    ensures
        r@ == component_text(c@),
{
    match c {
        PathComponent::Root => String::new(),
        PathComponent::Cur => {
            let mut s = String::new();
            s.push('.');
            s
        },
        PathComponent::Parent => {
            let mut s = String::new();
            s.push('.');
            s.push('.');
            s
        },
        PathComponent::Normal(x) => x.clone(),
    }
}

/// `cs[from..]` written back as a path.
fn components_text_exec(cs: &Vec<PathComponent>, from: usize) -> (r: String)
    requires
        from <= cs@.len(),
    ensures
        r@ == components_text(comps_view(cs@).skip(from as int)),
{
    let ghost all = comps_view(cs@).skip(from as int);
    let mut out = String::new();
    let mut start = from;
    if from < cs.len() {
        if let PathComponent::Root = &cs[from] {
            out.push('/');
            start = from + 1;
        }
    }
    let ghost rest = comps_view(cs@).skip(start as int);
    let ghost head = out@;
    assert(all.len() > 0 && all[0] is Root ==> rest =~= all.skip(1));
    assert(!(all.len() > 0 && all[0] is Root) ==> rest =~= all);
    let mut i = start;
    assert(rest.take(0) =~= Seq::<ComponentModel>::empty());
    assert(out@ =~= head + join_components(rest.take(0)));
    while i < cs.len()
        invariant
            start <= i <= cs@.len(),
            rest == comps_view(cs@).skip(start as int),
            out@ == head + join_components(rest.take(i - start)),
        decreases cs.len() - i,
    {
        let ghost t = rest.take(i + 1 - start);
        assert(t.drop_last() =~= rest.take(i - start));
        assert(t.last() == cs@[i as int]@);
        let piece = component_text_exec(&cs[i]);
        if i > start {
            out.push('/');
        }
        out.append(piece.as_str());
        assert(out@ =~= head + join_components(t));
        i = i + 1;
    }
    assert(rest.take(cs@.len() - start) =~= rest);
    out
}

/// Copies every entry of `from` into `into`, replacing earlier values.
fn merge_into(into: &mut StrMap<String>, from: &StrMap<String>)
    ensures
        final(into)@ == old(into)@.union_prefer_right(from@),
{
    let ghost start = into@;
    let n = from.count();
    proof {
        from.lemma_view();
    }
    let mut i: usize = 0;
    while i < n
        invariant
            i <= n == from.ordered().len(),
            from@ == map_of(from.ordered()),
            into@ == start.union_prefer_right(map_of(from.ordered().take(i as int))),
        decreases n - i,
    {
        let (k, v) = from.entry(i);
        let ghost pt = from.ordered().take(i as int);
        proof {
            assert(from.ordered().take(i + 1) =~= pt.push(from.ordered()[i as int]));
            lemma_map_of_push(pt, from.ordered()[i as int].0, from.ordered()[i as int].1);
        }
        into.insert(k.clone(), v.clone());
        assert(into@ =~= start.union_prefer_right(map_of(from.ordered().take(i + 1))));
        i = i + 1;
    }
    assert(from.ordered().take(n as int) =~= from.ordered());
}

/// The page renderer.
#[derive(Debug)]
pub struct RenderEngine {
    pub paths: RenderPaths,
    pub options: RenderOptions,
}

impl RenderEngine {
    /// A renderer over `render_paths` with `options`.
    pub fn new(render_paths: RenderPaths, options: RenderOptions) -> (r: RenderEngine)
        ensures
            r.paths == render_paths,
            r.options == options,
    {
        RenderEngine { paths: render_paths, options }
    }

    /// Resolves the paths for a URI such as `/about`: the route directory under `src_dir`,
    /// its `index.md`, and the `index.html` it compiles to under `public_dir`. Leading and
    /// trailing `/` and trailing `.md`/`.html` are ignored, and `..` is resolved; `None` when
    /// the route leaves `src_dir`. Whether the page exists is for the caller to check.
    pub fn resolve_paths(&self, uri: &str) -> (r: Option<(String, String, String)>)
        ensures
            match route_spec(self.paths.src_dir@, self.paths.public_dir@, uri@) {
                None => r is None,
                Some((d, m, h)) => r matches Some((rd, rm, rh)) && rd@ == d && rm@ == m && rh@ == h,
            },
    {
        let trimmed = trim_char_exec(uri, '/');
        let no_md = strip_suffix_all_exec(trimmed.as_str(), ".md");
        let c = strip_suffix_all_exec(no_md.as_str(), ".html");
        let empty = c.as_str().is_empty();
        let route_dir = if empty {
            self.paths.src_dir.clone()
        } else {
            let joined = join_path(self.paths.src_dir.as_str(), c.as_str());
            clean_path(joined.as_str())
        };
        let public_base = if empty {
            self.paths.public_dir.clone()
        } else {
            join_path(self.paths.public_dir.as_str(), c.as_str())
        };
        if !path_starts_with(route_dir.as_str(), self.paths.src_dir.as_str()) {
            return None;
        }
        let src_md = join_path(route_dir.as_str(), "index.md");
        let public_html = join_path(public_base.as_str(), "index.html");
        Some((route_dir, src_md, public_html))
    }

    /// Where the compiled stylesheet goes: `assets/style.css` under `public_dir`.
    pub fn output_css_path(&self) -> (r: String)
        ensures
            r@ == join_spec(self.paths.public_dir@, "assets/style.css"@),
    {
        join_path(self.paths.public_dir.as_str(), "assets/style.css")
    }

    /// Where a page source compiles to: its directory relative to `src_dir` (the whole
    /// directory when it is not inside `src_dir`), under `public_dir`, as `index.html`.
    pub fn public_html_for(&self, src_md: &str) -> (r: String)
        ensures
            r@ == public_html_spec(self.paths.src_dir@, self.paths.public_dir@, src_md@),
    {
        let mc = path_components(src_md);
        let n = mc.len();
        let has_parent = n > 0 && match &mc[n - 1] {
            PathComponent::Root => false,
            _ => true,
        };
        let route = if has_parent {
            let mut r: Vec<PathComponent> = Vec::new();
            let mut i: usize = 0;
            while i < n - 1
                invariant
                    i <= n - 1,
                    n == mc@.len(),
                    comps_view(r@) == comps_view(mc@).take(i as int),
                decreases n - 1 - i,
            {
                let ghost prev = r@;
                let c = crate::paths::copy_component(&mc[i]);
                r.push(c);
                assert(r@ == prev.push(c));
                assert(comps_view(r@) =~= comps_view(prev).push(mc@[i as int]@));
                assert(comps_view(r@) =~= comps_view(mc@).take(i + 1));
                i = i + 1;
            }
            assert(comps_view(mc@).take(n - 1) =~= comps_view(mc@).drop_last());
            r
        } else {
            path_components(self.paths.src_dir.as_str())
        };
        let base = path_components(self.paths.src_dir.as_str());
        let inside = crate::paths::comps_prefix(&base, &route);
        let rel_text = if inside {
            components_text_exec(&route, base.len())
        } else {
            let t = components_text_exec(&route, 0);
            assert(comps_view(route@).skip(0) =~= comps_view(route@));
            t
        };
        proof {
            if inside {
                assert(comps_view(route@).skip(base@.len() as int) =~= comps_view(route@).skip(comps_view(base@).len() as int));
            }
        }
        let dir = join_path(self.paths.public_dir.as_str(), rel_text.as_str());
        join_path(dir.as_str(), "index.html")
    }

    /// Whether the output is stale compared to its sources: it is missing, or the template,
    /// the stylesheet or any Markdown or HTML file of the route is newer than it. A time that could not be read counts as
    /// the epoch.
    pub fn is_stale(&self, times: &SourceTimes) -> (b: bool)
        ensures
            b == stale_spec(*times),
    {
        let cache = match times.output {
            None => return true,
            Some(t) => t,
        };
        let tpl = match times.template { Some(t) => t, None => 0 };
        let style = match times.style { Some(t) => t, None => 0 };
        if tpl > cache || style > cache {
            return true;
        }
        let mut i: usize = 0;
        while i < times.sources.len()
            invariant
                i <= times.sources@.len(),
                times.output == Some(cache),
                !(time_or_epoch(times.template) > cache || time_or_epoch(times.style) > cache),
                forall|j: int| 0 <= j < i ==> time_or_epoch(#[trigger] times.sources@[j]) <= cache,
            decreases times.sources.len() - i,
        {
            let m = match times.sources[i] { Some(t) => t, None => 0 };
            if m > cache {
                assert(time_or_epoch(times.sources@[i as int]) > cache);
                return true;
            }
            i = i + 1;
        }
        false
    }

    /// Resolves the page's title, merges its front matter `tags`/`blocks` over the
    /// configured ones, and folds its custom variables, its argument defaults (where unset)
    /// and its title into `vars`. Returns the title and the active tags and blocks.
    pub fn merge_page_vars(&self, data: Option<&PageMatter>, vars: &mut StrMap<String>) -> (r: (String, StrMap<String>, StrMap<String>))
        ensures
            r.0@ == page_title(
                match data { Some(d) => opt_view(d.title), None => None },
                opt_view(self.options.title),
            ),
            r.1@ == (match data { Some(d) => self.options.tags@.union_prefer_right(d.tags@), None => self.options.tags@ }),
            r.2@ == (match data { Some(d) => self.options.blocks@.union_prefer_right(d.blocks@), None => self.options.blocks@ }),
            final(vars)@ == page_vars(old(vars)@, deref_matter(data), r.0@),
    {
        let title = match data {
            Some(d) => match &d.title {
                Some(t) => t.clone(),
                None => match &self.options.title {
                    Some(t) => t.clone(),
                    None => String::new(),
                },
            },
            None => match &self.options.title {
                Some(t) => t.clone(),
                None => String::new(),
            },
        };
        let mut active_tags = self.options.tags.duplicate();
        let mut active_blocks = self.options.blocks.duplicate();
        if let Some(d) = data {
            merge_into(&mut active_tags, &d.tags);
            merge_into(&mut active_blocks, &d.blocks);
            merge_into(vars, &d.custom_vars);
            let ghost base = vars@;
            let ghost sv = schema_view(d.args@);
            let mut i: usize = 0;
            while i < d.args.len()
                invariant
                    i <= d.args@.len(),
                    sv == schema_view(d.args@),
                    vars@ == with_arg_defaults(base, sv.take(i as int)),
                decreases d.args.len() - i,
            {
                assert(sv.take(i + 1).drop_last() =~= sv.take(i as int));
                assert(sv.take(i + 1).last() == (d.args@[i as int].0@, opt_view(d.args@[i as int].1)));
                if let Some(default_val) = &d.args[i].1 {
                    if !vars.contains_key(d.args[i].0.as_str()) {
                        vars.insert(d.args[i].0.clone(), default_val.clone());
                    }
                }
                i = i + 1;
            }
            assert(sv.take(sv.len() as int) =~= sv);
        }
        vars.insert(String::from_str("title"), title.clone());
        (title, active_tags, active_blocks)
    }

    /// Evaluates a page's body in the page's scope and renders it to HTML with the active
    /// tag classes.
    fn render_body(
        &self,
        src_md: &str,
        content: &str,
        vars: StrMap<String>,
        active_tags: &StrMap<String>,
        active_blocks: StrMap<String>,
        sources: &SourceStore,
    ) -> (r: Result<String, Error>)
        ensures
            match fs_eval(self.eval_context(sources@, active_blocks@), FsScope { file: src_md@, vars: vars@, depth: 0 }, content@) {
                Some(p) => r matches Ok(h) && h@ == markdown_spec(p, active_tags@),
                None => r is Err,
            },
    {
        let title = match &self.options.title {
            Some(t) => Some(t.clone()),
            None => None,
        };
        let local_options = RenderOptions {
            title,
            max_include_depth: self.options.max_include_depth,
            tags: active_tags.duplicate(),
            blocks: active_blocks,
        };
        let env = FileSystemEnvironment::new(self.paths.src_dir.as_str(), String::from_str(src_md), vars, &local_options, 0, sources);
        let processed = match env.evaluate_template(content, src_md) {
            Ok(p) => p,
            Err(e) => return Err(e),
        };
        Ok(render_markdown(processed.as_str(), active_tags))
    }

    /// Evaluates the template's directives (with the engine's own options), then puts the
    /// title in place of every `{{title}}` and the body in place of every `{{body}}`. A
    /// template that could not be read is an `Io` error with the reader's message.
    fn apply_template(
        &self,
        vars: StrMap<String>,
        title: &str,
        body: &str,
        template: &Result<String, String>,
        sources: &SourceStore,
    ) -> (r: Result<String, Error>)
        ensures
            template matches Err(m) ==> (r matches Err(e) && e.0 matches ErrorKind::Io(x) && x@ == m@),
            template matches Ok(t) ==> (match fs_eval(
                self.eval_context(sources@, self.options.blocks@),
                FsScope { file: self.paths.template_path@, vars: vars@, depth: 0 },
                t@,
            ) {
                Some(out) => r matches Ok(h) && h@ == replace_spec(
                    replace_spec(out, 0, "{{title}}"@, title@),
                    0,
                    "{{body}}"@,
                    body@,
                ),
                None => r is Err,
            }),
            template matches Ok(t) ==> (r matches Ok(h) ==> exists|out: Seq<char>, ans: Seq<(Seq<char>, bool)>|
                eval_spec(t@, ans) == Some(out) && h@ == replace_spec(
                    replace_spec(out, 0, "{{title}}"@, title@),
                    0,
                    "{{body}}"@,
                    body@,
                )),
    {
        let template_content = match template {
            Ok(t) => t,
            Err(m) => return Err(Error(ErrorKind::Io(m.clone()))),
        };
        let env = FileSystemEnvironment::new(
            self.paths.src_dir.as_str(),
            self.paths.template_path.clone(),
            vars,
            &self.options,
            0,
            sources,
        );
        let processed = match env.evaluate_template(template_content.as_str(), self.paths.template_path.as_str()) {
            Ok(p) => p,
            Err(e) => return Err(e),
        };
        proof {
            reveal_strlit("{{title}}");
            reveal_strlit("{{body}}");
        }
        let with_title = replace_all(processed.as_str(), "{{title}}", title);
        Ok(replace_all(with_title.as_str(), "{{body}}", body))
    }

    /// Renders a page to a complete HTML document: merges its front matter into `vars`
    /// (see [`RenderEngine::merge_page_vars`]), evaluates and renders its body, and puts
    /// title and body into the template. `template` is the template's text, or the message
    /// of the error that reading it gave. Files that includes need come from `sources`; one
    /// that is not there yet is a `SourceRequired` error naming its path.
    pub fn render_page(
        &self,
        page: &ParsedPage,
        src_md: &str,
        template: &Result<String, String>,
        sources: &SourceStore,
        vars: &mut StrMap<String>,
    ) -> (r: Result<String, Error>)
        ensures
            final(vars)@ == page_vars(old(vars)@, page.data, self.title_of(page.data)),
            template is Err ==> r is Err,
            fs_eval(
                self.eval_context(sources@, self.page_blocks(page.data)),
                FsScope { file: src_md@, vars: final(vars)@, depth: 0 },
                page.content@,
            ) is None ==> r is Err,
            template matches Ok(t) ==> (fs_eval(
                self.eval_context(sources@, self.page_blocks(page.data)),
                FsScope { file: src_md@, vars: final(vars)@, depth: 0 },
                page.content@,
            ) matches Some(p) ==> match fs_eval(
                self.eval_context(sources@, self.options.blocks@),
                FsScope { file: self.paths.template_path@, vars: final(vars)@, depth: 0 },
                t@,
            ) {
                Some(out) => r matches Ok(h) && h@ == replace_spec(
                    replace_spec(out, 0, "{{title}}"@, self.title_of(page.data)),
                    0,
                    "{{body}}"@,
                    markdown_spec(p, self.page_tags(page.data)),
                ),
                None => r is Err,
            }),
            template matches Ok(t) ==> (r matches Ok(h) ==> exists|out: Seq<char>, ans: Seq<(Seq<char>, bool)>, body: Seq<char>|
                eval_spec(t@, ans) == Some(out) && h@ == replace_spec(
                    replace_spec(out, 0, "{{title}}"@, self.title_of(page.data)),
                    0,
                    "{{body}}"@,
                    body,
                )),
    {
        let data = page.data.as_ref();
        assert(deref_matter(data) == page.data);
        let (title, active_tags, active_blocks) = self.merge_page_vars(data, vars);
        let html_output = match self.render_body(src_md, page.content.as_str(), vars.duplicate(), &active_tags, active_blocks, sources) {
            Ok(h) => h,
            Err(e) => return Err(e),
        };
        assert(title@ == self.title_of(page.data));
        let r = self.apply_template(vars.duplicate(), title.as_str(), html_output.as_str(), template, sources);
        assert(r matches Ok(h) ==> template matches Ok(t) ==> exists|out: Seq<char>, ans: Seq<(Seq<char>, bool)>|
                eval_spec(t@, ans) == Some(out) && h@ == replace_spec(
                    replace_spec(out, 0, "{{title}}"@, title@),
                    0,
                    "{{body}}"@,
                    html_output@,
                ));
        r
    }

    /// What an evaluation of a page or of the template shares: the source directory, the
    /// files handed over, the include limit and the block classes `blocks`.
    pub open spec fn eval_context(
        &self,
        sources: Map<Seq<char>, SourceEntryModel>,
        blocks: Map<Seq<char>, Seq<char>>,
    ) -> FsContext {
        FsContext { src_dir: self.paths.src_dir@, sources, max: self.options.max_include_depth, blocks }
    }

    /// The tag classes a page with front matter `data` is rendered with: the engine's,
    /// overridden by the page's.
    pub open spec fn page_tags(&self, data: Option<PageMatter>) -> Map<Seq<char>, Seq<char>> {
        match data {
            Some(d) => self.options.tags@.union_prefer_right(d.tags@),
            None => self.options.tags@,
        }
    }

    /// The block classes a page with front matter `data` is rendered with: the engine's,
    /// overridden by the page's.
    pub open spec fn page_blocks(&self, data: Option<PageMatter>) -> Map<Seq<char>, Seq<char>> {
        match data {
            Some(d) => self.options.blocks@.union_prefer_right(d.blocks@),
            None => self.options.blocks@,
        }
    }

    /// A page whose front matter sets a title gets that title, whatever title is configured;
    /// merging its front matter puts that title in the `title` variable.
    pub proof fn law_front_matter_title_wins(&self, data: Option<PageMatter>, vars: Map<Seq<char>, Seq<char>>)
        ensures
            data matches Some(d) ==> (d.title matches Some(t) ==> self.title_of(data) == t@
                && page_vars(vars, data, self.title_of(data))["title"@] == t@),
    {
    }

    /// The title a page with front matter `data` gets.
    pub open spec fn title_of(&self, data: Option<PageMatter>) -> Seq<char> {
        page_title(
            match data { Some(d) => opt_view(d.title), None => None },
            opt_view(self.options.title),
        )
    }

    /// Formats an error for display: its message.
    pub fn format_error(&self, err: Error) -> (r: String)
        ensures
            r@ == message_spec(err.0),
    {
        err.message()
    }
}

/// Whether a path names a page source: a Markdown or HTML file.
pub fn is_page_source(p: &str) -> (b: bool)
    ensures
        b == is_source_path(p@),
{
    let cs = path_components(p);
    let n = cs.len();
    if n == 0 {
        return false;
    }
    assert(components(p@).last() == cs@[n - 1]@);
    match &cs[n - 1] {
        PathComponent::Normal(f) => {
            let is_md = crate::fs_env::extension_is(f.as_str(), &['m', 'd']);
            let is_html = crate::fs_env::extension_is(f.as_str(), &['h', 't', 'm', 'l']);
            is_md || is_html
        },
        _ => false,
    }
}

/// A resolved route stays inside `src_dir`, its page is the route directory's `index.md`,
/// and the bare route (`/`, or an empty URI) is `src_dir` itself with output
/// `public_dir/index.html`.
pub proof fn law_route_resolution(src_dir: Seq<char>, public_dir: Seq<char>, uri: Seq<char>)
    ensures
        route_spec(src_dir, public_dir, uri) matches Some((d, m, _)) ==> is_prefix(components(src_dir), components(d))
            && m == join_spec(d, "index.md"@),
        clean_uri(uri).len() == 0 && is_prefix(components(src_dir), components(src_dir)) ==> route_spec(src_dir, public_dir, uri)
            == Some((src_dir, join_spec(src_dir, "index.md"@), join_spec(public_dir, "index.html"@))),
{
}

/// The compiled page of a route lies under `public_dir`, never under `src_dir`: the output
/// path's components begin with those of `public_dir`, it names `index.html`, it does not
/// depend on where the sources are, and for a non-empty route it is `public_dir`, then the
/// route, then `index.html`.
pub proof fn law_output_under_public_dir(src_dir: Seq<char>, other_src: Seq<char>, public_dir: Seq<char>, uri: Seq<char>)
    ensures
        route_spec(src_dir, public_dir, uri) matches Some((_, _, h)) ==> is_prefix(components(public_dir), components(h))
            && h.len() >= 10 && h.skip(h.len() - 10) == "index.html"@,
        route_spec(src_dir, public_dir, uri) matches Some((_, _, h)) ==> (route_spec(other_src, public_dir, uri) matches Some((_, _, h2)) ==> h2 == h),
        route_spec(src_dir, public_dir, uri) matches Some((_, _, h)) ==> (clean_uri(uri).len() > 0 ==> h == join_spec(
            join_spec(public_dir, clean_uri(uri)),
            "index.html"@,
        )),
{
    reveal_strlit("index.html");
    let c = clean_uri(uri);
    lemma_clean_uri_relative(uri);
    let base = if c.len() == 0 { public_dir } else { join_spec(public_dir, c) };
    if c.len() > 0 {
        lemma_join_extends(public_dir, c);
    } else {
        assert(components(public_dir).take(components(public_dir).len() as int) =~= components(public_dir));
    }
    let ih = "index.html"@;
    assert(ih[0] == 'i');
    lemma_join_extends(base, ih);
    lemma_prefix_trans(components(public_dir), components(base), components(join_spec(base, ih)));
    let h = join_spec(base, ih);
    assert(h.skip(h.len() - 10) =~= ih);
}

/// Stripping a suffix leaves a prefix of the text.
proof fn lemma_strip_suffix_prefix(s: Seq<char>, p: Seq<char>)
    ensures
        strip_suffix_all(s, p).len() <= s.len(),
        s.take(strip_suffix_all(s, p).len() as int) == strip_suffix_all(s, p),
    decreases s.len(),
{
    if 0 < p.len() <= s.len() && s.skip(s.len() - p.len()) == p {
        let t = s.take(s.len() - p.len());
        lemma_strip_suffix_prefix(t, p);
        let r = strip_suffix_all(t, p);
        assert(s.take(r.len() as int) =~= t.take(r.len() as int));
    } else {
        assert(s.take(s.len() as int) =~= s);
    }
}

proof fn lemma_skip_char_stops(s: Seq<char>, c: char, i: int, hi: int)
    requires
        0 <= i <= hi <= s.len(),
    ensures
        i <= skip_char(s, c, i, hi) <= hi,
        skip_char(s, c, i, hi) < hi ==> s[skip_char(s, c, i, hi)] != c,
    decreases hi - i,
{
    if i < hi && s[i] == c {
        lemma_skip_char_stops(s, c, i + 1, hi);
    }
}

proof fn lemma_back_char_range(s: Seq<char>, c: char, lo: int, j: int)
    requires
        0 <= lo <= j <= s.len(),
    ensures
        lo <= back_char(s, c, lo, j) <= j,
    decreases j - lo,
{
    if lo < j && 0 < j && s[j - 1] == c {
        lemma_back_char_range(s, c, lo, j - 1);
    }
}

/// A cleaned URI is relative: it does not begin with `/`.
proof fn lemma_clean_uri_relative(uri: Seq<char>)
    ensures
        clean_uri(uri).len() == 0 || clean_uri(uri)[0] != '/',
{
    let a = skip_char(uri, '/', 0, uri.len() as int);
    lemma_skip_char_stops(uri, '/', 0, uri.len() as int);
    lemma_back_char_range(uri, '/', a, uri.len() as int);
    let t = trim_char(uri, '/');
    if t.len() > 0 {
        assert(t[0] == uri[a]);
    }
    let t1 = strip_suffix_all(t, ".md"@);
    lemma_strip_suffix_prefix(t, ".md"@);
    lemma_strip_suffix_prefix(t1, ".html"@);
    let t2 = strip_suffix_all(t1, ".html"@);
    if t2.len() > 0 {
        assert(t2[0] == t1.take(t2.len() as int)[0]);
        assert(t1[0] == t.take(t1.len() as int)[0]);
    }
}

/// Merging a page's front matter into the variables: `title` is the page's title; a custom
/// variable of the page (other than `title`) overrides the caller's; a caller's variable the
/// page does not set stays.
pub proof fn law_page_vars_merge(
    vars: Map<Seq<char>, Seq<char>>,
    data: Option<PageMatter>,
    title: Seq<char>,
    k: Seq<char>,
)
    ensures
        page_vars(vars, data, title)["title"@] == title,
        k != "title"@ ==> page_vars(vars, data, title).contains_key(k) == match data {
            Some(d) => vars.contains_key(k) || d.custom_vars@.contains_key(k) || first_default(schema_view(d.args@), k) is Some,
            None => vars.contains_key(k),
        },
        data matches Some(d) ==> (k != "title"@ && !d.custom_vars@.contains_key(k) && !vars.contains_key(k)
            && first_default(schema_view(d.args@), k) is Some ==> page_vars(vars, data, title)[k] == first_default(
            schema_view(d.args@),
            k,
        )->0),
        data matches Some(d) ==> (k != "title"@ && d.custom_vars@.contains_key(k) ==> page_vars(vars, data, title)[k]
            == d.custom_vars@[k]),
        k != "title"@ && vars.contains_key(k) && (data matches Some(d) ==> !d.custom_vars@.contains_key(k))
            ==> page_vars(vars, data, title)[k] == vars[k],
{
    if let Some(d) = data {
        let base = vars.union_prefer_right(d.custom_vars@);
        law_arg_defaults_keep_set_values(base, schema_view(d.args@), k);
        law_arg_defaults_exact(base, schema_view(d.args@), k);
    }
}

proof fn lemma_replace_none(s: Seq<char>, i: int, pat: Seq<char>, to: Seq<char>)
    requires
        0 <= i <= s.len(),
        pat.len() > 0,
        forall|j: int| i <= j < s.len() ==> !matches_at(s, j, pat),
    ensures
        replace_spec(s, i, pat, to) == s.skip(i),
    decreases s.len() - i,
{
    if i < s.len() {
        lemma_replace_none(s, i + 1, pat, to);
        assert(seq![s[i]] + s.skip(i + 1) =~= s.skip(i));
    } else {
        assert(s.skip(i) =~= Seq::<char>::empty());
    }
}

/// Putting the title and the body into the evaluated template is two replacements, the
/// title's first: a template that is just `{{body}}` gives the body, and one in which neither
/// marker occurs stays as it is.
pub proof fn law_template_replacements(title: Seq<char>, body: Seq<char>, t: Seq<char>)
    ensures
        replace_spec(replace_spec("{{body}}"@, 0, "{{title}}"@, title), 0, "{{body}}"@, body) == body,
        (forall|j: int| 0 <= j < t.len() ==> !matches_at(t, j, "{{title}}"@) && !matches_at(t, j, "{{body}}"@))
            ==> replace_spec(replace_spec(t, 0, "{{title}}"@, title), 0, "{{body}}"@, body) == t,
{
    reveal_strlit("{{body}}");
    reveal_strlit("{{title}}");
    let b = "{{body}}"@;
    lemma_replace_none(b, 0, "{{title}}"@, title);
    assert(b.skip(0) =~= b);
    assert(matches_at(b, 0, b)) by {
        assert(b.subrange(0, 8) =~= b);
    }
    assert(b.skip(8) =~= Seq::<char>::empty());
    assert(replace_spec(b, 0, "{{title}}"@, title) == b);
    assert(replace_spec(b, 8, b, body) == Seq::<char>::empty());
    assert(replace_spec(b, 0, b, body) == body + replace_spec(b, 8, b, body));
    assert(body + Seq::<char>::empty() =~= body);
    if forall|j: int| 0 <= j < t.len() ==> !matches_at(t, j, "{{title}}"@) && !matches_at(t, j, "{{body}}"@) {
        lemma_replace_none(t, 0, "{{title}}"@, title);
        assert(t.skip(0) =~= t);
        lemma_replace_none(t, 0, "{{body}}"@, body);
    }
}

/// The first default that `args` declares for `k`, if any.
pub open spec fn first_default(args: Seq<(Seq<char>, Option<Seq<char>>)>, k: Seq<char>) -> Option<Seq<char>>
    decreases args.len(),
{
    if args.len() == 0 {
        None
    } else {
        match first_default(args.drop_last(), k) {
            Some(d) => Some(d),
            None => if args.last().0 == k { args.last().1 } else { None },
        }
    }
}

/// Which value a name gets from argument defaults: a set value stays; an unset name gets its
/// first declared default; a name with neither stays unset.
pub proof fn law_arg_defaults_exact(
    vars: Map<Seq<char>, Seq<char>>,
    args: Seq<(Seq<char>, Option<Seq<char>>)>,
    k: Seq<char>,
)
    ensures
        with_arg_defaults(vars, args).contains_key(k) == (vars.contains_key(k) || first_default(args, k) is Some),
        with_arg_defaults(vars, args).contains_key(k) ==> with_arg_defaults(vars, args)[k] == (if vars.contains_key(k) {
            vars[k]
        } else {
            first_default(args, k)->0
        }),
    decreases args.len(),
{
    if args.len() > 0 {
        law_arg_defaults_exact(vars, args.drop_last(), k);
    }
}

/// A page's argument defaults never replace a value that is already set (by the caller or
/// by a custom variable), and every name left unset that has a default gets one.
pub proof fn law_arg_defaults_keep_set_values(
    vars: Map<Seq<char>, Seq<char>>,
    args: Seq<(Seq<char>, Option<Seq<char>>)>,
    k: Seq<char>,
)
    ensures
        vars.contains_key(k) ==> with_arg_defaults(vars, args).contains_key(k) && with_arg_defaults(vars, args)[k] == vars[k],
        (exists|i: int| 0 <= i < args.len() && #[trigger] args[i].0 == k && args[i].1 is Some) ==> with_arg_defaults(vars, args).contains_key(k),
    decreases args.len(),
{
    if args.len() > 0 {
        law_arg_defaults_keep_set_values(vars, args.drop_last(), k);
        if exists|i: int| 0 <= i < args.len() && #[trigger] args[i].0 == k && args[i].1 is Some {
            let i = choose|i: int| 0 <= i < args.len() && #[trigger] args[i].0 == k && args[i].1 is Some;
            if i < args.len() - 1 {
                assert(args.drop_last()[i] == args[i]);
            }
        }
    }
}

proof fn lemma_skip_char_concat(t: Seq<char>, p: Seq<char>, c: char, i: int)
    requires
        0 <= i < t.len(),
        t.last() != c,
    ensures
        skip_char(t + p, c, i, (t + p).len() as int) == skip_char(t, c, i, t.len() as int),
        i <= skip_char(t, c, i, t.len() as int) < t.len(),
    decreases t.len() - i,
{
    assert((t + p)[i] == t[i]);
    if t[i] == c {
        assert(i != t.len() - 1);
        lemma_skip_char_concat(t, p, c, i + 1);
    }
}

/// Trimming `c` from `t + p`, where `t` does not end in `c` and `p` holds no `c`, trims the
/// front of `t` and keeps `p`.
proof fn lemma_trim_char_concat(t: Seq<char>, p: Seq<char>, c: char)
    requires
        t.len() > 0,
        t.last() != c,
        p.len() > 0,
        forall|k: int| 0 <= k < p.len() ==> #[trigger] p[k] != c,
    ensures
        trim_char(t + p, c) == trim_char(t, c) + p,
{
    let s = t + p;
    lemma_skip_char_concat(t, p, c, 0);
    let a = skip_char(t, c, 0, t.len() as int);
    assert(s[s.len() - 1] == p[p.len() - 1]);
    assert(back_char(s, c, a, s.len() as int) == s.len());
    assert(t[t.len() - 1] == t.last());
    assert(back_char(t, c, a, t.len() as int) == t.len());
    assert(s.subrange(a, s.len() as int) =~= t.subrange(a, t.len() as int) + p);
}

/// `t + p` with trailing `p`s removed is `t` with trailing `p`s removed.
proof fn lemma_strip_concat(t: Seq<char>, p: Seq<char>)
    requires
        p.len() > 0,
    ensures
        strip_suffix_all(t + p, p) == strip_suffix_all(t, p),
{
    let s = t + p;
    assert(s.skip(s.len() - p.len()) =~= p);
    assert(s.take(s.len() - p.len()) =~= t);
}

proof fn lemma_clean_uri_suffix(uri: Seq<char>)
    requires
        uri.len() > 0,
        uri.last() != '/',
        strip_suffix_all(trim_char(uri, '/'), ".md"@) == trim_char(uri, '/'),
        strip_suffix_all(trim_char(uri, '/'), ".html"@) == trim_char(uri, '/'),
    ensures
        clean_uri(uri + ".md"@) == clean_uri(uri),
        clean_uri(uri + ".html"@) == clean_uri(uri),
{
    reveal_strlit(".md");
    reveal_strlit(".html");
    let t = trim_char(uri, '/');
    let md = ".md"@;
    let html = ".html"@;
    assert(md =~= seq!['.', 'm', 'd']);
    assert(html =~= seq!['.', 'h', 't', 'm', 'l']);
    lemma_trim_char_concat(uri, md, '/');
    lemma_trim_char_concat(uri, html, '/');
    lemma_strip_concat(t, md);
    lemma_strip_concat(t, html);
    let th = t + html;
    assert(th.skip(th.len() - 3) =~= seq!['t', 'm', 'l']);
    assert(th.skip(th.len() - 3) != md);
    assert(strip_suffix_all(th, md) == th);
}

/// A URI for a page that does not end in `/`, and whose name does not already end in `.md`
/// or `.html`, resolves to the same route with `.md` or `.html` appended.
pub proof fn law_route_ignores_page_suffix(src_dir: Seq<char>, public_dir: Seq<char>, uri: Seq<char>)
    requires
        uri.len() > 0,
        uri.last() != '/',
        strip_suffix_all(trim_char(uri, '/'), ".md"@) == trim_char(uri, '/'),
        strip_suffix_all(trim_char(uri, '/'), ".html"@) == trim_char(uri, '/'),
    ensures
        route_spec(src_dir, public_dir, uri + ".md"@) == route_spec(src_dir, public_dir, uri),
        route_spec(src_dir, public_dir, uri + ".html"@) == route_spec(src_dir, public_dir, uri),
{
    lemma_clean_uri_suffix(uri);
}

} // verus!
