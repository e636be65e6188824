//! Rendering against a source directory: include resolution under `src_dir`, component
//! argument schemas, block markup and the include depth limit.
use vstd::prelude::*;
use crate::args::{arg_list_view, args_spec, parse_args_list, Argument, ArgumentModel};
use crate::condition::{opt_view, parse_condition, Condition, Operand};
use crate::engine::RenderOptions;
use crate::environment::Environment;
use crate::error::{Error, ErrorKind, SourceText, Span};
use crate::evaluator::{
    advance, answer_at, eval_from, eval_spec, lemma_prepend_assoc, lemma_prepend_empty, prepend, lemma_progress_done, lemma_progress_init, lemma_progress_step,
    lemma_tag_bounds, need_of, need_spec, next_state, progress, unclosed_error, Frame, Need,
};
use crate::filters::{apply_filters, parse_var_spec};
use crate::lexer::{
    lemma_condition_shorter, push_unescaped, scan_spec, span_of, unescape_spec, Directive, DirectiveModel,
    ScanModel, TagScanner,
};
use crate::paths::{components, include_path, include_target, is_prefix, path_components, path_starts_with, render, ComponentModel, PathComponent};
use crate::strmap::StrMap;
use crate::text::{chars_of, lemma_skip_ws_sub, lemma_skip_ws, skip_ws, trim_start, trim_start_range};

verus! {

/// What the renderer knows of a file, as a mathematical value.
pub enum SourceEntryModel {
    Missing,
    Unreadable(Seq<char>),
    Loaded { content: Seq<char>, args: Seq<(Seq<char>, Option<Seq<char>>)> },
}

/// What the renderer knows of a file that an include names. Files are read, and their front
/// matter parsed, by the caller, which hands the results to the renderer in a [`SourceStore`].
#[derive(Debug)]
pub enum SourceEntry {
    /// There is no such file.
    Missing,
    /// The file exists but could not be read; the reader's message.
    Unreadable(String),
    /// The file's body (after any front matter) and the argument schema its front matter
    /// declares: each argument name with its default value, `None` for a required argument.
    Loaded { content: String, args: Vec<(String, Option<String>)> },
}

/// The views of an argument schema.
pub open spec fn schema_view(v: Seq<(String, Option<String>)>) -> Seq<(Seq<char>, Option<Seq<char>>)> {
    v.map_values(|p: (String, Option<String>)| (p.0@, opt_view(p.1)))
}

impl View for SourceEntry {
    type V = SourceEntryModel;

    open spec fn view(&self) -> SourceEntryModel {
        match self {
            SourceEntry::Missing => SourceEntryModel::Missing,
            SourceEntry::Unreadable(m) => SourceEntryModel::Unreadable(m@),
            SourceEntry::Loaded { content, args } => SourceEntryModel::Loaded {
                content: content@,
                args: schema_view(args@),
            },
        }
    }
}

/// The files that includes may name, keyed by their normalized path.
#[derive(Debug)]
pub struct SourceStore {
    files: StrMap<SourceEntry>,
}

impl View for SourceStore {
    type V = Map<Seq<char>, SourceEntryModel>;

    closed spec fn view(&self) -> Map<Seq<char>, SourceEntryModel> {
        self.files@
    }
}

impl SourceStore {
    /// A store that knows no file.
    pub fn new() -> (r: SourceStore)
        ensures
            r@ == Map::<Seq<char>, SourceEntryModel>::empty(),
    {
        SourceStore { files: StrMap::new() }
    }

    /// Records what is known of the file at `path`.
    pub fn insert(&mut self, path: String, entry: SourceEntry)
        ensures
            final(self)@ == old(self)@.insert(path@, entry@),
    {
        self.files.insert(path, entry);
    }

    /// What is known of the file at `path`.
    pub fn get(&self, path: &str) -> (r: Option<&SourceEntry>)
        ensures
            r matches Some(e) ==> self@.contains_key(path@) && e@ == self@[path@],
            r is None ==> !self@.contains_key(path@),
    {
        self.files.get(path)
    }
}

/// Index of the first `\n` at or after `i`, or the length of `s`.
pub open spec fn line_end(s: Seq<char>, i: int) -> int
    decreases s.len() - i,
{
    if 0 <= i < s.len() && s[i] != '\n' {
        line_end(s, i + 1)
    } else {
        i
    }
}

pub proof fn lemma_line_end(s: Seq<char>, i: int)
    requires
        0 <= i <= s.len(),
    ensures
        i <= line_end(s, i) <= s.len(),
        line_end(s, i) < s.len() ==> s[line_end(s, i)] == '\n',
    decreases s.len() - i,
{
    if i < s.len() && s[i] != '\n' {
        lemma_line_end(s, i + 1);
    }
}

/// The lines of `s[i..]` as `str::lines` yields them: split at each `\n`, with a `\r` right
/// before it dropped, and no empty line after a final `\n`.
pub open spec fn lines_from(s: Seq<char>, i: int) -> Seq<Seq<char>>
    decreases s.len() - i,
{
    if i < 0 || i >= s.len() {
        Seq::empty()
    } else {
        let e = line_end(s, i);
        proof {
            lemma_line_end(s, i);
        }
        let line = if e < s.len() && e > i && s[e - 1] == '\r' {
            s.subrange(i, e - 1)
        } else {
            s.subrange(i, e)
        };
        seq![line] + if e < s.len() {
            lines_from(s, e + 1)
        } else {
            Seq::empty()
        }
    }
}

/// The lines with leading whitespace removed, joined by `\n`.
pub open spec fn join_trimmed(ls: Seq<Seq<char>>) -> Seq<char>
    decreases ls.len(),
{
    if ls.len() == 0 {
        Seq::empty()
    } else if ls.len() == 1 {
        trim_start(ls[0])
    } else {
        trim_start(ls[0]) + seq!['\n'] + join_trimmed(ls.skip(1))
    }
}

/// An included HTML file's text: each line's leading whitespace removed, padded with blank
/// lines so that Markdown treats it as a block of its own.
pub open spec fn html_normalized(c: Seq<char>) -> Seq<char> {
    seq!['\n', '\n'] + join_trimmed(lines_from(c, 0)) + seq!['\n', '\n']
}

/// Index of the last `.` in `f[0..i]`, or -1.
pub open spec fn last_dot(f: Seq<char>, i: int) -> int
    decreases i,
{
    if i <= 0 {
        -1
    } else if f[i - 1] == '.' {
        i - 1
    } else {
        last_dot(f, i - 1)
    }
}

/// The extension of a file name (`Path::extension`): the text after its last `.`, unless
/// there is none or the only one opens the name.
pub open spec fn name_extension(f: Seq<char>) -> Option<Seq<char>> {
    let k = last_dot(f, f.len() as int);
    if k <= 0 {
        None
    } else {
        Some(f.subrange(k + 1, f.len() as int))
    }
}

/// The path names a file whose extension is `html`.
pub open spec fn is_html_path(p: Seq<char>) -> bool {
    let cs = components(p);
    cs.len() > 0 && (cs.last() matches ComponentModel::Normal(f) && name_extension(f) == Some(
        seq!['h', 't', 'm', 'l'],
    ))
}

/// The text an included file contributes before evaluation: HTML normalized, anything
/// else as it is.
pub open spec fn include_text(content: Seq<char>, target: Seq<char>) -> Seq<char> {
    if is_html_path(target) {
        html_normalized(content)
    } else {
        content
    }
}

/// The markup that opens a block named `name`: its configured classes, or the name itself.
pub open spec fn block_open_spec(blocks: Map<Seq<char>, Seq<char>>, name: Seq<char>) -> Seq<char> {
    let classes = if blocks.contains_key(name) {
        blocks[name]
    } else {
        name
    };
    "\n\n<div class=\""@ + classes + "\">\n\n"@
}

/// The remaining include budget: how many more nested includes the limit allows.
pub open spec fn include_fuel(depth: usize, max: usize) -> nat {
    if depth < max {
        (max - depth) as nat
    } else {
        0
    }
}

/// The normalized path that the include of `file` denotes.
pub open spec fn target_of(src_dir: Seq<char>, current_file: Seq<char>, file: Seq<char>) -> Seq<char> {
    render(include_target(src_dir, current_file, file))
}

/// What an include resolves to before the included text is evaluated: the errors for a
/// path outside `src_dir`, a file not yet handed over, a missing file, the depth limit and an
/// unreadable file, in that order; for a loaded file, the result is that file's text
/// evaluated in the child scope.
pub open spec fn include_outcome(
    r: Result<String, Error>,
    src_dir: Seq<char>,
    current_file: Seq<char>,
    sources: Map<Seq<char>, SourceEntryModel>,
    depth: usize,
    max: usize,
    file: Seq<char>,
    named_src: (Seq<char>, Seq<char>),
    span: Span,
) -> bool {
    let target = target_of(src_dir, current_file, file);
    if !is_prefix(components(src_dir), components(target)) {
        r matches Err(e) && e.0 matches ErrorKind::IncludePathTraversal { include_path, src, span: sp }
            && include_path@ == file && src@ == named_src && sp == span
    } else if !sources.contains_key(target) {
        r matches Err(e) && e.0 matches ErrorKind::SourceRequired { path } && path@ == target
    } else if sources[target] is Missing {
        r matches Err(e) && e.0 matches ErrorKind::IncludeFileNotFound { include_path, src, span: sp }
            && include_path@ == file && src@ == named_src && sp == span
    } else if depth >= max {
        r matches Err(e) && e.0 matches ErrorKind::MaxRecursionDepthExceeded { src, span: sp, depth: d, max_depth }
            && src@ == named_src && sp == span && d == depth && max_depth == max
    } else {
        match sources[target] {
            SourceEntryModel::Unreadable(m) => r matches Err(e) && e.0 matches ErrorKind::Io(msg) && msg@ == m,
            SourceEntryModel::Loaded { content, .. } => r matches Ok(out) ==> exists|ans: Seq<(Seq<char>, bool)>|
                eval_spec(include_text(content, target), ans) == Some(out@),
            SourceEntryModel::Missing => true,
        }
    }
}

/// The defaults a schema declares. A name declared twice keeps its first default, as a
/// page's argument defaults do (see [`crate::engine::with_arg_defaults`]).
pub open spec fn schema_defaults(schema: Seq<(Seq<char>, Option<Seq<char>>)>) -> Map<Seq<char>, Seq<char>>
    decreases schema.len(),
{
    if schema.len() == 0 {
        Map::empty()
    } else {
        let prev = schema_defaults(schema.drop_last());
        match schema.last().1 {
            Some(v) => if prev.contains_key(schema.last().0) {
                prev
            } else {
                prev.insert(schema.last().0, v)
            },
            None => prev,
        }
    }
}

fn line_end_exec(s: &Vec<char>, i: usize) -> (e: usize)
    requires
        i <= s@.len(),
    ensures
        e == line_end(s@, i as int),
{
    proof {
        lemma_line_end(s@, i as int);
    }
    let mut e = i;
    while e < s.len() && s[e] != '\n'
        invariant
            i <= e <= s@.len(),
            line_end(s@, i as int) == line_end(s@, e as int),
        decreases s.len() - e,
    {
        e = e + 1;
    }
    e
}

/// An included HTML file's text with each line's leading whitespace removed, padded with
/// blank lines so that Markdown treats it as a block of its own.
pub fn normalize_html_content(content: &str) -> (r: String)
    ensures
        r@ == html_normalized(content@),
{
    let v = chars_of(content);
    let n = v.len();
    let mut out = String::new();
    out.push('\n');
    out.push('\n');
    let mut i: usize = 0;
    let mut first = true;
    let ghost whole = join_trimmed(lines_from(v@, 0));
    while i < n
        invariant
            i <= n == v@.len(),
            first ==> i == 0,
            seq!['\n', '\n'] + whole == out@ + (if i >= n {
                Seq::<char>::empty()
            } else if first {
                join_trimmed(lines_from(v@, i as int))
            } else {
                seq!['\n'] + join_trimmed(lines_from(v@, i as int))
            }),
        decreases n - i,
    {
        let e = line_end_exec(&v, i);
        proof {
            lemma_line_end(v@, i as int);
        }
        let end = if e < n && e > i && v[e - 1] == '\r' { e - 1 } else { e };
        let a = trim_start_range(&v, i, end);
        let ghost before = out@;
        let ghost ls = lines_from(v@, i as int);
        let ghost rest = if e < n { lines_from(v@, e + 1) } else { Seq::<Seq<char>>::empty() };
        proof {
            assert(ls == seq![v@.subrange(i as int, end as int)] + rest);
            assert(ls.skip(1) =~= rest);
            assert(ls[0] == v@.subrange(i as int, end as int));
            assert(e + 1 < n ==> rest.len() > 0);
            assert(e + 1 >= n ==> rest.len() == 0);
        }
        if !first {
            out.push('\n');
        }
        let piece = crate::text::string_of_range(&v, a, end);
        out.append(piece.as_str());
        proof {
            let t = trim_start(v@.subrange(i as int, end as int));
            assert(piece@ == t);
            if rest.len() == 0 {
                assert(join_trimmed(ls) == t);
            } else {
                assert(join_trimmed(ls) == t + seq!['\n'] + join_trimmed(rest));
            }
        }
        first = false;
        if e >= n {
            i = n;
        } else {
            i = e + 1;
        }
    }
    out.push('\n');
    out.push('\n');
    out
}

fn last_dot_exec(f: &Vec<char>) -> (k: Option<usize>)
    ensures
        k matches Some(j) ==> j < f@.len() && j as int == last_dot(f@, f@.len() as int),
        k is None ==> last_dot(f@, f@.len() as int) == -1,
{
    let mut i = f.len();
    while i > 0
        invariant
            i <= f@.len(),
            last_dot(f@, f@.len() as int) == last_dot(f@, i as int),
        decreases i,
    {
        if f[i - 1] == '.' {
            return Some(i - 1);
        }
        i = i - 1;
    }
    None
}

/// Whether the extension of the file name `f` is `ext`.
pub fn extension_is(f: &str, ext: &[char]) -> (b: bool)
    ensures
        b == (name_extension(f@) == Some(ext@)),
{
    let fv = chars_of(f);
    match last_dot_exec(&fv) {
        Some(k) => {
            if k == 0 {
                return false;
            }
            let m = fv.len();
            let same = m - (k + 1) == ext.len() && crate::text::matches_at_exec(&fv, k + 1, m, ext);
            assert(same == (fv@.subrange(k + 1, m as int) =~= ext@));
            same
        },
        None => false,
    }
}

/// Whether the path names a file whose extension is `html`.
pub fn has_html_extension(p: &str) -> (b: bool)
    ensures
        b == is_html_path(p@),
{
    let cs = path_components(p);
    let n = cs.len();
    if n == 0 {
        return false;
    }
    assert(components(p@).last() == cs@[n - 1]@);
    match &cs[n - 1] {
        PathComponent::Normal(f) => {
            let r = extension_is(f.as_str(), &['h', 't', 'm', 'l']);
            assert(['h', 't', 'm', 'l']@ == seq!['h', 't', 'm', 'l']);
            r
        },
        _ => false,
    }
}

/// The first name from `i` on that `schema` requires and `m` lacks.
pub open spec fn first_missing(
    schema: Seq<(Seq<char>, Option<Seq<char>>)>,
    i: int,
    m: Map<Seq<char>, Seq<char>>,
) -> Option<Seq<char>>
    decreases schema.len() - i,
{
    if i < 0 || i >= schema.len() {
        None
    } else if schema[i].1 is None && !m.contains_key(schema[i].0) {
        Some(schema[i].0)
    } else {
        first_missing(schema, i + 1, m)
    }
}

/// The variables an include binds: the schema's defaults overridden by the values the tag
/// passes. The first required name (in schema order) left unbound is a
/// `MissingIncludeArgument` error.
pub fn bind_include_args(
    schema: &Vec<(String, Option<String>)>,
    passed: &StrMap<String>,
    file: &str,
    span: Span,
    named_src: &SourceText,
) -> (r: Result<StrMap<String>, Error>)
    ensures
        ({
            let merged = schema_defaults(schema_view(schema@)).union_prefer_right(passed@);
            match first_missing(schema_view(schema@), 0, merged) {
                None => r matches Ok(m) && m@ == merged,
                Some(k) => r matches Err(e) && e.0 matches ErrorKind::MissingIncludeArgument {
                    include_path,
                    arg_name,
                    src,
                    span: sp,
                } && include_path@ == file@ && arg_name@ == k && src@ == named_src@ && sp == span,
            }
        }),
{
    let ghost sv = schema_view(schema@);
    let mut bound: StrMap<String> = StrMap::new();
    let mut i: usize = 0;
    while i < schema.len()
        invariant
            i <= schema@.len(),
            sv == schema_view(schema@),
            bound@ == schema_defaults(sv.take(i as int)),
        decreases schema.len() - i,
    {
        assert(sv.take(i + 1).drop_last() =~= sv.take(i as int));
        assert(sv.take(i + 1).last() == (schema@[i as int].0@, opt_view(schema@[i as int].1)));
        match &schema[i].1 {
            Some(v) => {
                if !bound.contains_key(schema[i].0.as_str()) {
                    bound.insert(schema[i].0.clone(), v.clone());
                }
            },
            None => {},
        }
        i = i + 1;
    }
    assert(sv.take(sv.len() as int) =~= sv);
    let ghost defaults = bound@;
    let mut t: usize = 0;
    let nt = passed.count();
    proof {
        passed.lemma_view();
    }
    while t < nt
        invariant
            t <= nt == passed.ordered().len(),
            passed@ == crate::strmap::map_of(passed.ordered()),
            bound@ == defaults.union_prefer_right(crate::strmap::map_of(passed.ordered().take(t as int))),
        decreases nt - t,
    {
        let (key, v) = passed.entry(t);
        let ghost pt = passed.ordered().take(t as int);
        proof {
            assert(passed.ordered().take(t + 1) =~= pt.push(passed.ordered()[t as int]));
            crate::strmap::lemma_map_of_push(pt, passed.ordered()[t as int].0, passed.ordered()[t as int].1);
        }
        bound.insert(key.clone(), v.clone());
        proof {
            assert(bound@ =~= defaults.union_prefer_right(crate::strmap::map_of(passed.ordered().take(t + 1))));
        }
        t = t + 1;
    }
    assert(passed.ordered().take(nt as int) =~= passed.ordered());
    let ghost merged = bound@;
    let mut q: usize = 0;
    while q < schema.len()
        invariant
            q <= schema@.len(),
            sv == schema_view(schema@),
            merged == bound@,
            merged == schema_defaults(sv).union_prefer_right(passed@),
            first_missing(sv, 0, merged) == first_missing(sv, q as int, merged),
        decreases schema.len() - q,
    {
        assert(sv[q as int] == (schema@[q as int].0@, opt_view(schema@[q as int].1)));
        if schema[q].1.is_none() && !bound.contains_key(schema[q].0.as_str()) {
            assert(sv[q as int].1 is None);
            assert(!merged.contains_key(sv[q as int].0));
            assert(first_missing(sv, q as int, merged) == Some(sv[q as int].0));
            return Err(Error(ErrorKind::MissingIncludeArgument {
                include_path: String::from_str(file),
                arg_name: schema[q].0.clone(),
                src: named_src.duplicate(),
                span,
            }));
        }
        q = q + 1;
    }
    Ok(bound)
}

/// What every nested evaluation shares: the source directory, the files handed over, the
/// include depth limit and the block classes.
pub struct FsContext {
    pub src_dir: Seq<char>,
    pub sources: Map<Seq<char>, SourceEntryModel>,
    pub max: usize,
    pub blocks: Map<Seq<char>, Seq<char>>,
}

/// One evaluation's own scope: its file, its variables and its include depth.
pub struct FsScope {
    pub file: Seq<char>,
    pub vars: Map<Seq<char>, Seq<char>>,
    pub depth: usize,
}

/// One include deeper; the counter stops at `usize::MAX`.
pub open spec fn deeper(d: usize) -> usize {
    if d < usize::MAX {
        (d + 1) as usize
    } else {
        d
    }
}

/// The text of a `.var` directive `spec_text` in scope `vars`: the variable, through each
/// filter; `None` when it is missing or a filter is unknown.
pub open spec fn fs_var(vars: Map<Seq<char>, Seq<char>>, spec_text: Seq<char>) -> Option<Seq<char>> {
    let segs = crate::filters::pipe_segments(spec_text, 0, spec_text.len() as int);
    let name = segs[0];
    if !vars.contains_key(name) {
        None
    } else {
        match crate::filters::filters_spec(vars[name], segs.skip(1)) {
            Ok(v) => Some(v),
            Err(_) => None,
        }
    }
}

/// The key at `i` is passed again later in the list, so this occurrence is overridden.
pub open spec fn passed_later(list: Seq<(Seq<char>, ArgumentModel)>, i: int) -> bool {
    exists|j: int| i < j < list.len() && #[trigger] list[j].0 == list[i].0
}

/// What an evaluation in `c` and `sc` gives; `None` when it fails.
pub open spec fn fs_eval(c: FsContext, sc: FsScope, s: Seq<char>) -> Option<Seq<char>>
    decreases include_fuel(sc.depth, c.max), s.len(), 4nat, 0nat,
{
    fs_run(c, sc, s, 0, Seq::empty(), true)
}

/// What evaluating `s` from `cursor` gives, with open frames `frames` and emission state
/// `emitting`: the evaluation of [`eval_from`], with each tag answered by this scope.
pub open spec fn fs_run(c: FsContext, sc: FsScope, s: Seq<char>, cursor: int, frames: Seq<Frame>, emitting: bool) -> Option<Seq<char>>
    decreases include_fuel(sc.depth, c.max), s.len(), 3nat, s.len() - cursor,
{
    if cursor < 0 || cursor > s.len() {
        None
    } else {
        match scan_spec(s, cursor) {
            ScanModel::Done => if frames.len() == 0 {
                Some(if emitting { unescape_spec(s, cursor, s.len() as int) } else { Seq::empty() })
            } else {
                None
            },
            ScanModel::Tag { directive, start, end } => {
                if !(cursor <= start && start < end && end <= s.len()) {
                    None
                } else {
                    let text = if emitting { unescape_spec(s, cursor, start) } else { Seq::empty() };
                    let span = span_of(s, start, end);
                    match need_spec(frames, emitting, directive) {
                        Need::Nothing => {
                            let st = next_state(frames, emitting, directive, span, false);
                            crate::evaluator::prepend(text, fs_run(c, sc, s, end, st.0, st.1))
                        },
                        Need::Value => {
                            let v = match directive {
                                DirectiveModel::Var(spec_text) => fs_var(sc.vars, spec_text),
                                DirectiveModel::Include { file, args } => fs_include(c, sc, file, args),
                                DirectiveModel::Block(name) => Some(block_open_spec(c.blocks, name)),
                                DirectiveModel::End => Some("\n\n</div>\n\n"@),
                                _ => Some(Seq::empty()),
                            };
                            match v {
                                None => None,
                                Some(val) => {
                                    let st = next_state(frames, emitting, directive, span, false);
                                    crate::evaluator::prepend(text + val, fs_run(c, sc, s, end, st.0, st.1))
                                },
                            }
                        },
                        Need::Condition => {
                            let b = match directive {
                                DirectiveModel::If(cs) => match crate::condition::condition_spec(cs, 0, cs.len() as int) {
                                    Ok(cm) => fs_truth(c, sc, cm, s.len()),
                                    Err(_) => None,
                                },
                                _ => Some(false),
                            };
                            match b {
                                None => None,
                                Some(cond) => {
                                    let st = next_state(frames, emitting, directive, span, cond);
                                    crate::evaluator::prepend(text, fs_run(c, sc, s, end, st.0, st.1))
                                },
                            }
                        },
                    }
                }
            },
            _ => None,
        }
    }
}

/// The value of one `.if` operand: `Some(None)` for a variable out of scope, `None` when
/// interpolating a literal fails.
pub open spec fn fs_operand(c: FsContext, sc: FsScope, o: crate::condition::OperandModel, bound: nat) -> Option<Option<Seq<char>>>
    decreases include_fuel(sc.depth, c.max), bound, 2nat, 1nat,
{
    match o {
        crate::condition::OperandModel::Var(name) => Some(if sc.vars.contains_key(name) { Some(sc.vars[name]) } else { None }),
        crate::condition::OperandModel::Literal(raw) => if raw.len() < bound {
            match fs_literal(c, sc, raw) {
                Some(v) => Some(Some(v)),
                None => None,
            }
        } else {
            None
        },
    }
}

/// The truth of a parsed `.if` condition in this scope; `None` when an operand fails.
pub open spec fn fs_truth(c: FsContext, sc: FsScope, cm: crate::condition::ConditionModel, bound: nat) -> Option<bool>
    decreases include_fuel(sc.depth, c.max), bound, 2nat, 2nat,
{
    match cm {
        crate::condition::ConditionModel::Truthy { operand, .. } => match fs_operand(c, sc, operand, bound) {
            Some(v) => Some(crate::condition::truth_spec(cm, v, None)),
            None => None,
        },
        crate::condition::ConditionModel::Compare { lhs, rhs, .. } => match fs_operand(c, sc, lhs, bound) {
            Some(l) => match fs_operand(c, sc, rhs, bound) {
                Some(r) => Some(crate::condition::truth_spec(cm, l, r)),
                None => None,
            },
            None => None,
        },
    }
}

/// A quoted literal interpolated as a template one include deeper.
pub open spec fn fs_literal(c: FsContext, sc: FsScope, raw: Seq<char>) -> Option<Seq<char>>
    decreases include_fuel(sc.depth, c.max), (if sc.depth < c.max { 0 } else { raw.len() + 1 }), 0nat, 0nat,
{
    fs_eval(c, FsScope { file: sc.file, vars: sc.vars, depth: deeper(sc.depth) }, raw)
}

/// The values an include tag passes, from the `i`-th argument on, added to `acc`: each
/// argument not passed again later, a literal interpolated or a variable looked up, then
/// filtered; `None` when one fails.
pub open spec fn fs_args(
    c: FsContext,
    sc: FsScope,
    list: Seq<(Seq<char>, ArgumentModel)>,
    i: int,
    acc: Map<Seq<char>, Seq<char>>,
) -> Option<Map<Seq<char>, Seq<char>>>
    decreases include_fuel(sc.depth, c.max), 0nat, 1nat, list.len() - i,
{
    if i < 0 || i >= list.len() {
        Some(acc)
    } else if passed_later(list, i) {
        fs_args(c, sc, list, i + 1, acc)
    } else {
        let v = match list[i].1 {
            ArgumentModel::Literal(raw, fs) => if sc.depth < c.max {
                match fs_literal(c, sc, raw) {
                    Some(x) => match crate::filters::filters_spec(x, fs) {
                        Ok(y) => Some(y),
                        Err(_) => None,
                    },
                    None => None,
                }
            } else {
                None
            },
            ArgumentModel::Variable(name, fs) => if sc.vars.contains_key(name) {
                match crate::filters::filters_spec(sc.vars[name], fs) {
                    Ok(y) => Some(y),
                    Err(_) => None,
                }
            } else {
                None
            },
        };
        match v {
            None => None,
            Some(val) => fs_args(c, sc, list, i + 1, acc.insert(list[i].0, val)),
        }
    }
}

/// What an include of `file` with argument text `args` gives; `None` when it fails.
pub open spec fn fs_include(c: FsContext, sc: FsScope, file: Seq<char>, args: Seq<char>) -> Option<Seq<char>>
    decreases include_fuel(sc.depth, c.max), 0nat, 2nat, 0nat,
{
    let target = target_of(c.src_dir, sc.file, file);
    if !is_prefix(components(c.src_dir), components(target)) || !c.sources.contains_key(target) || sc.depth >= c.max {
        None
    } else {
        match c.sources[target] {
            SourceEntryModel::Loaded { content, args: schema } => match fs_args(
                c,
                sc,
                crate::args::args_spec(args, 0, args.len() as int),
                0,
                Map::empty(),
            ) {
                None => None,
                Some(passed) => {
                    let merged = schema_defaults(schema).union_prefer_right(passed);
                    if first_missing(schema, 0, merged) is Some {
                        None
                    } else {
                        fs_eval(
                            c,
                            FsScope { file: target, vars: sc.vars.union_prefer_right(merged), depth: (sc.depth + 1) as usize },
                            include_text(content, target),
                        )
                    }
                },
            },
            _ => None,
        }
    }
}

/// Whether the name of the `i`-th argument is passed again later in `list`.
fn appears_later(list: &Vec<(String, Argument)>, i: usize) -> (b: bool)
    requires
        i < list@.len(),
    ensures
        b == passed_later(arg_list_view(list@), i as int),
{
    let ghost gl = arg_list_view(list@);
    let n = list.len();
    let mut j: usize = i + 1;
    while j < n
        invariant
            i < j <= n == list@.len(),
            gl == arg_list_view(list@),
            gl.len() == list@.len(),
            forall|k: int| i < k < j ==> #[trigger] gl[k].0 != gl[i as int].0,
        decreases n - j,
    {
        let same = list[j].0 == list[i].0;
        assert(gl[j as int].0 == list@[j as int].0@ && gl[i as int].0 == list@[i as int].0@);
        if same {
            assert(gl[j as int].0 == gl[i as int].0);
            return true;
        }
        j = j + 1;
    }
    false
}

/// `base` with each entry of `over` inserted in order, so that `over` wins.
fn merge_strmap(base: &StrMap<String>, over: &StrMap<String>) -> (r: StrMap<String>)
    ensures
        r@ == base@.union_prefer_right(over@),
{
    let mut out = base.duplicate();
    let mut i: usize = 0;
    let n = over.count();
    proof {
        over.lemma_view();
        assert(over.ordered().take(0) =~= Seq::<(Seq<char>, Seq<char>)>::empty());
        assert(base@.union_prefer_right(crate::strmap::map_of(over.ordered().take(0))) =~= base@);
    }
    while i < n
        invariant
            i <= n == over.ordered().len(),
            out@ == base@.union_prefer_right(crate::strmap::map_of(over.ordered().take(i as int))),
        decreases n - i,
    {
        let (k, v) = over.entry(i);
        let ghost pt = over.ordered().take(i as int);
        proof {
            assert(over.ordered().take(i + 1) =~= pt.push(over.ordered()[i as int]));
            crate::strmap::lemma_map_of_push(pt, k@, v@);
        }
        out.insert(k.clone(), v.clone());
        proof {
            assert(out@ =~= base@.union_prefer_right(crate::strmap::map_of(over.ordered().take(i + 1))));
        }
        i = i + 1;
    }
    proof {
        assert(over.ordered().take(n as int) =~= over.ordered());
    }
    out
}

/// A failure whose error kind the evaluation reports: a tag in `text` that is unclosed or
/// malformed, a `.block` or `.if` left open, a `.var` naming a variable that is not in scope
/// or an unknown filter, an include past the depth limit, or an include that lacks a
/// required argument.
pub enum FsFault {
    Scan { text: Seq<char>, scan: ScanModel },
    Unclosed(Frame),
    MissingVar(Seq<char>),
    UnknownFilter(Seq<char>),
    Depth { depth: usize, max: usize },
    MissingArg { file: Seq<char>, name: Seq<char> },
}

/// `e` is the error that reports `f`.
pub open spec fn fault_is(e: Error, f: FsFault) -> bool {
    match f {
        FsFault::Scan { text, scan: ScanModel::Unclosed { start } } => e.0 matches ErrorKind::UnclosedTag { span, .. }
            && span == span_of(text, start, text.len() as int),
        FsFault::Scan { text, scan: ScanModel::Malformed { fault, start, end, body } } => match fault {
            crate::lexer::DirectiveFault::UnknownDirective => e.0 matches ErrorKind::UnknownDirective { directive, span, .. }
                && directive@ == body && span == span_of(text, start, end),
            crate::lexer::DirectiveFault::MissingIncludeName => e.0 matches ErrorKind::MissingIncludeName { span, .. }
                && span == span_of(text, start, end),
            crate::lexer::DirectiveFault::MissingBlockName => e.0 matches ErrorKind::MissingBlockName { span, .. }
                && span == span_of(text, start, end),
            crate::lexer::DirectiveFault::MissingIfCondition => e.0 matches ErrorKind::MissingIfCondition { span, .. }
                && span == span_of(text, start, end),
        },
        FsFault::Scan { .. } => true,
        FsFault::Unclosed(Frame::Block(span)) => e.0 matches ErrorKind::UnclosedBlock { span: sp, .. } && sp == span,
        FsFault::Unclosed(Frame::If { span, .. }) => e.0 matches ErrorKind::UnclosedIf { span: sp, .. } && sp == span,
        FsFault::UnknownFilter(n) => e.0 matches ErrorKind::UnknownFilter { filter_name, .. } && filter_name@ == n,
        FsFault::MissingVar(n) => e.0 matches ErrorKind::VariableNotFound { var_name, .. } && var_name@ == n,
        FsFault::Depth { depth, max } => e.0 matches ErrorKind::MaxRecursionDepthExceeded { depth: d, max_depth, .. }
            && d == depth && max_depth == max,
        FsFault::MissingArg { file, name } => e.0 matches ErrorKind::MissingIncludeArgument { include_path, arg_name, .. }
            && include_path@ == file && arg_name@ == name,
    }
}

/// The failure that stops evaluating `s` in this scope, where it is one of those of
/// [`FsFault`]; `None` when the evaluation succeeds or stops for another reason.
pub open spec fn fs_eval_fault(c: FsContext, sc: FsScope, s: Seq<char>) -> Option<FsFault>
    decreases include_fuel(sc.depth, c.max), s.len(), 4nat, 0nat,
{
    fs_run_fault(c, sc, s, 0, Seq::empty(), true)
}

/// The failure that stops evaluating `s` from `cursor` (see [`fs_run`]), as in
/// [`fs_eval_fault`]: the first tag that fails decides.
pub open spec fn fs_run_fault(c: FsContext, sc: FsScope, s: Seq<char>, cursor: int, frames: Seq<Frame>, emitting: bool) -> Option<FsFault>
    decreases include_fuel(sc.depth, c.max), s.len(), 3nat, s.len() - cursor,
{
    if cursor < 0 || cursor > s.len() {
        None
    } else {
        match scan_spec(s, cursor) {
            ScanModel::Done => if frames.len() > 0 {
                Some(FsFault::Unclosed(frames.last()))
            } else {
                None
            },
            ScanModel::Tag { directive, start, end } => {
                if !(cursor <= start && start < end && end <= s.len()) {
                    None
                } else {
                    let span = span_of(s, start, end);
                    match need_spec(frames, emitting, directive) {
                        Need::Nothing => {
                            let st = next_state(frames, emitting, directive, span, false);
                            fs_run_fault(c, sc, s, end, st.0, st.1)
                        },
                        Need::Value => {
                            let st = next_state(frames, emitting, directive, span, false);
                            match directive {
                                DirectiveModel::Var(spec_text) => {
                                    let segs = crate::filters::pipe_segments(spec_text, 0, spec_text.len() as int);
                                    if !sc.vars.contains_key(segs[0]) {
                                        Some(FsFault::MissingVar(segs[0]))
                                    } else {
                                        match crate::filters::filters_spec(sc.vars[segs[0]], segs.skip(1)) {
                                            Err(bad) => Some(FsFault::UnknownFilter(bad)),
                                            Ok(_) => fs_run_fault(c, sc, s, end, st.0, st.1),
                                        }
                                    }
                                },
                                DirectiveModel::Include { file, args } => if fs_include(c, sc, file, args) is None {
                                    fs_include_fault(c, sc, file, args)
                                } else {
                                    fs_run_fault(c, sc, s, end, st.0, st.1)
                                },
                                _ => fs_run_fault(c, sc, s, end, st.0, st.1),
                            }
                        },
                        Need::Condition => match directive {
                            DirectiveModel::If(cs) => match crate::condition::condition_spec(cs, 0, cs.len() as int) {
                                Ok(cm) => match fs_truth(c, sc, cm, s.len()) {
                                    Some(cond) => {
                                        let st = next_state(frames, emitting, directive, span, cond);
                                        fs_run_fault(c, sc, s, end, st.0, st.1)
                                    },
                                    None => fs_truth_fault(c, sc, cm, s.len()),
                                },
                                Err(_) => None,
                            },
                            _ => {
                                let st = next_state(frames, emitting, directive, span, false);
                                fs_run_fault(c, sc, s, end, st.0, st.1)
                            },
                        },
                    }
                }
            },
            m => Some(FsFault::Scan { text: s, scan: m }),
        }
    }
}

/// The failure that resolving an `.if` operand meets, as in [`fs_eval_fault`].
pub open spec fn fs_operand_fault(c: FsContext, sc: FsScope, o: crate::condition::OperandModel, bound: nat) -> Option<FsFault>
    decreases include_fuel(sc.depth, c.max), bound, 2nat, 1nat,
{
    match o {
        crate::condition::OperandModel::Var(_) => None,
        crate::condition::OperandModel::Literal(raw) => if raw.len() < bound {
            fs_literal_fault(c, sc, raw)
        } else {
            None
        },
    }
}

/// The failure that judging an `.if` condition meets, as in [`fs_eval_fault`].
pub open spec fn fs_truth_fault(c: FsContext, sc: FsScope, cm: crate::condition::ConditionModel, bound: nat) -> Option<FsFault>
    decreases include_fuel(sc.depth, c.max), bound, 2nat, 2nat,
{
    match cm {
        crate::condition::ConditionModel::Truthy { operand, .. } => fs_operand_fault(c, sc, operand, bound),
        crate::condition::ConditionModel::Compare { lhs, rhs, .. } => if fs_operand(c, sc, lhs, bound) is None {
            fs_operand_fault(c, sc, lhs, bound)
        } else {
            fs_operand_fault(c, sc, rhs, bound)
        },
    }
}

/// The failure that interpolating a literal meets, as in [`fs_eval_fault`].
pub open spec fn fs_literal_fault(c: FsContext, sc: FsScope, raw: Seq<char>) -> Option<FsFault>
    decreases include_fuel(sc.depth, c.max), (if sc.depth < c.max { 0 } else { raw.len() + 1 }), 0nat, 0nat,
{
    fs_eval_fault(c, FsScope { file: sc.file, vars: sc.vars, depth: deeper(sc.depth) }, raw)
}

/// The failure that resolving an include tag's arguments from the `i`-th on meets, as in
/// [`fs_eval_fault`].
pub open spec fn fs_args_fault(
    c: FsContext,
    sc: FsScope,
    list: Seq<(Seq<char>, ArgumentModel)>,
    i: int,
    acc: Map<Seq<char>, Seq<char>>,
) -> Option<FsFault>
    decreases include_fuel(sc.depth, c.max), 0nat, 1nat, list.len() - i,
{
    if i < 0 || i >= list.len() {
        None
    } else if passed_later(list, i) {
        fs_args_fault(c, sc, list, i + 1, acc)
    } else {
        match list[i].1 {
            ArgumentModel::Literal(raw, fs) => if sc.depth < c.max {
                match fs_literal(c, sc, raw) {
                    Some(x) => match crate::filters::filters_spec(x, fs) {
                        Ok(y) => fs_args_fault(c, sc, list, i + 1, acc.insert(list[i].0, y)),
                        Err(_) => None,
                    },
                    None => fs_literal_fault(c, sc, raw),
                }
            } else {
                None
            },
            ArgumentModel::Variable(name, fs) => if sc.vars.contains_key(name) {
                match crate::filters::filters_spec(sc.vars[name], fs) {
                    Ok(y) => fs_args_fault(c, sc, list, i + 1, acc.insert(list[i].0, y)),
                    Err(_) => None,
                }
            } else {
                Some(FsFault::MissingVar(name))
            },
        }
    }
}

/// The failure that an include of `file` with argument text `args` meets, as in
/// [`fs_eval_fault`]: the depth limit, a missing required argument, or what its arguments or
/// the included text meet.
pub open spec fn fs_include_fault(c: FsContext, sc: FsScope, file: Seq<char>, args: Seq<char>) -> Option<FsFault>
    decreases include_fuel(sc.depth, c.max), 0nat, 2nat, 0nat,
{
    let target = target_of(c.src_dir, sc.file, file);
    if !is_prefix(components(c.src_dir), components(target)) || !c.sources.contains_key(target) || c.sources[target] is Missing {
        None
    } else if sc.depth >= c.max {
        Some(FsFault::Depth { depth: sc.depth, max: c.max })
    } else {
        match c.sources[target] {
            SourceEntryModel::Loaded { content, args: schema } => {
                let list = crate::args::args_spec(args, 0, args.len() as int);
                match fs_args(c, sc, list, 0, Map::empty()) {
                    None => fs_args_fault(c, sc, list, 0, Map::empty()),
                    Some(passed) => {
                        let merged = schema_defaults(schema).union_prefer_right(passed);
                        match first_missing(schema, 0, merged) {
                            Some(k) => Some(FsFault::MissingArg { file, name: k }),
                            None => fs_eval_fault(
                                c,
                                FsScope { file: target, vars: sc.vars.union_prefer_right(merged), depth: (sc.depth + 1) as usize },
                                include_text(content, target),
                            ),
                        }
                    },
                }
            },
            _ => None,
        }
    }
}

/// Filesystem-backed environment for template evaluation.
pub struct FileSystemEnvironment<'a> {
    /// The directory that includes must stay inside.
    pub src_dir: String,
    /// The file being evaluated; includes are relative to its directory.
    pub current_file: String,
    /// The variables in scope.
    pub vars: StrMap<String>,
    /// The rendering options.
    pub options: &'a RenderOptions,
    /// How many includes deep this file is.
    pub depth: usize,
    /// The files that includes may name.
    pub sources: &'a SourceStore,
}

impl<'a> FileSystemEnvironment<'a> {
    /// An environment for evaluating `current_file` at include depth `depth`.
    pub fn new(
        src_dir: &str,
        current_file: String,
        vars: StrMap<String>,
        options: &'a RenderOptions,
        depth: usize,
        sources: &'a SourceStore,
    ) -> (r: Self)
        ensures
            r.src_dir@ == src_dir@,
            r.current_file@ == current_file@,
            r.vars@ == vars@,
            r.options == options,
            r.depth == depth,
            r.sources == sources,
    {
        FileSystemEnvironment {
            src_dir: String::from_str(src_dir),
            current_file,
            vars,
            options,
            depth,
            sources,
        }
    }

    /// The environment for a file one include deeper, with its own variables. The depth
    /// counter stops at `usize::MAX`.
    fn child(&self, child_file: String, new_vars: StrMap<String>) -> (r: FileSystemEnvironment<'a>)
        ensures
            r.src_dir@ == self.src_dir@,
            r.current_file@ == child_file@,
            r.vars@ == new_vars@,
            r.options == self.options,
            r.depth == (if self.depth < usize::MAX { (self.depth + 1) as usize } else { self.depth }),
            r.sources == self.sources,
    {
        let d = if self.depth < usize::MAX { self.depth + 1 } else { self.depth };
        FileSystemEnvironment::new(self.src_dir.as_str(), child_file, new_vars, self.options, d, self.sources)
    }

    /// The value of a variable in scope; a missing one is a `VariableNotFound` error.
    pub fn var_value(&self, var_name: &str, span: Span, named_src: &SourceText) -> (r: Result<String, Error>)
        ensures
            self.vars@.contains_key(var_name@) ==> (r matches Ok(v) && v@ == self.vars@[var_name@]),
            !self.vars@.contains_key(var_name@) ==> (r matches Err(e) && e.0 matches ErrorKind::VariableNotFound {
                var_name: n,
                src,
                span: sp,
            } && n@ == var_name@ && src@ == named_src@ && sp == span),
    {
        match self.vars.get(var_name) {
            Some(v) => Ok(v.clone()),
            None => Err(Error(ErrorKind::VariableNotFound {
                var_name: String::from_str(var_name),
                src: named_src.duplicate(),
                span,
            })),
        }
    }

    /// The value of a variable in scope, if any.
    pub fn var_lookup(&self, var_name: &str) -> (r: Option<String>)
        ensures
            opt_view(r) == (if self.vars@.contains_key(var_name@) { Some(self.vars@[var_name@]) } else { None }),
    {
        match self.vars.get(var_name) {
            Some(v) => Some(v.clone()),
            None => None,
        }
    }

    /// The markup that opens a block: a `div` whose classes are the block's configured
    /// classes, or its name when none are configured.
    pub fn block_open(&self, block_name_or_classes: &str) -> (r: String)
        ensures
            r@ == block_open_spec(self.options.blocks@, block_name_or_classes@),
    {
        let mut out = String::from_str("\n\n<div class=\"");
        match self.options.blocks.get(block_name_or_classes) {
            Some(c) => out.append(c.as_str()),
            None => out.append(block_name_or_classes),
        }
        out.append("\">\n\n");
        out
    }

    /// The markup that closes a block.
    pub fn block_close(&self) -> (r: String)
        ensures
            r@ == "\n\n</div>\n\n"@,
    {
        String::from_str("\n\n</div>\n\n")
    }

    /// Joins `file` against the current file's directory, normalizes `..`/`.`, and checks
    /// that the result stays inside `src_dir`.
    pub fn include_target_path(&self, file: &str, span: Span, named_src: &SourceText) -> (r: Result<String, Error>)
        ensures
            is_prefix(components(self.src_dir@), components(target_of(self.src_dir@, self.current_file@, file@)))
                ==> (r matches Ok(p) && p@ == target_of(self.src_dir@, self.current_file@, file@)),
            !is_prefix(components(self.src_dir@), components(target_of(self.src_dir@, self.current_file@, file@)))
                ==> (r matches Err(e) && e.0 matches ErrorKind::IncludePathTraversal { include_path, src, span: sp }
                && include_path@ == file@ && src@ == named_src@ && sp == span),
    {
        let clean = include_path(self.src_dir.as_str(), self.current_file.as_str(), file);
        if !path_starts_with(clean.as_str(), self.src_dir.as_str()) {
            return Err(Error(ErrorKind::IncludePathTraversal {
                include_path: String::from_str(file),
                src: named_src.duplicate(),
                span,
            }));
        }
        Ok(clean)
    }

    /// What every evaluation nested in this one shares.
    pub open spec fn context(&self) -> FsContext {
        FsContext {
            src_dir: self.src_dir@,
            sources: self.sources@,
            max: self.options.max_include_depth,
            blocks: self.options.blocks@,
        }
    }

    /// An include of `file` with argument text `args` that reaches a loaded file, and whose
    /// argument values all resolve, fails with `MissingIncludeArgument` naming the first
    /// required argument (in schema order) that neither the tag nor a default gives.
    pub open spec fn missing_argument_outcome(
        &self,
        r: Result<String, Error>,
        file: Seq<char>,
        args: Seq<char>,
        named_src: (Seq<char>, Seq<char>),
        span: Span,
    ) -> bool {
        let target = target_of(self.src_dir@, self.current_file@, file);
        (is_prefix(components(self.src_dir@), components(target)) && self.sources@.contains_key(target)
            && self.depth < self.options.max_include_depth) ==> (
        self.sources@[target] matches SourceEntryModel::Loaded { args: schema, .. } ==> match fs_args(
            self.context(),
            self.scope(),
            args_spec(args, 0, args.len() as int),
            0,
            Map::empty(),
        ) {
            Some(passed) => match first_missing(schema, 0, schema_defaults(schema).union_prefer_right(passed)) {
                Some(k) => r matches Err(e) && e.0 matches ErrorKind::MissingIncludeArgument {
                    include_path,
                    arg_name,
                    src,
                    span: sp,
                } && include_path@ == file && arg_name@ == k && src@ == named_src && sp == span,
                None => true,
            },
            None => true,
        })
    }

    /// This evaluation's own file, variables and include depth.
    pub open spec fn scope(&self) -> FsScope {
        FsScope { file: self.current_file@, vars: self.vars@, depth: self.depth }
    }

    /// The value of one `.if` operand: a variable's value (`None` when it is not in scope),
    /// or a quoted literal interpolated as a template.
    fn operand_value(&self, o: &Operand, Ghost(bound): Ghost<nat>) -> (r: Result<Option<String>, Error>)
        requires
            crate::condition::operand_below(o@, bound as int),
        ensures
            match fs_operand(self.context(), self.scope(), o@, bound) {
                Some(v) => r matches Ok(x) && opt_view(x) == v,
                None => r is Err,
            },
            fs_operand_fault(self.context(), self.scope(), o@, bound) matches Some(f) ==> (r matches Err(e) && fault_is(e, f)),
        decreases include_fuel(self.depth, self.options.max_include_depth), bound, 1nat,
    {
        match o {
            Operand::Var(name) => Ok(self.var_lookup(name.as_str())),
            Operand::Literal(raw) => match self.interpolate_literal(raw.as_str()) {
                Ok(v) => Ok(Some(v)),
                Err(e) => Err(e),
            },
        }
    }

    /// The truth of an `.if` condition here: its operands resolved (left first), then
    /// [`Condition::truth`].
    fn condition_truth(&self, c: &Condition, Ghost(bound): Ghost<nat>) -> (r: Result<bool, Error>)
        requires
            crate::condition::literals_below(c@, bound as int),
        ensures
            match fs_truth(self.context(), self.scope(), c@, bound) {
                Some(b) => r matches Ok(x) && x == b,
                None => r is Err,
            },
            fs_truth_fault(self.context(), self.scope(), c@, bound) matches Some(f) ==> (r matches Err(e) && fault_is(e, f)),
        decreases include_fuel(self.depth, self.options.max_include_depth), bound, 2nat,
    {
        match c {
            Condition::Truthy { operand, .. } => {
                let v = match self.operand_value(operand, Ghost(bound)) {
                    Ok(v) => v,
                    Err(e) => return Err(e),
                };
                Ok(c.truth(v, None))
            },
            Condition::Compare { lhs, rhs, .. } => {
                let l = match self.operand_value(lhs, Ghost(bound)) {
                    Ok(v) => v,
                    Err(e) => return Err(e),
                };
                let r = match self.operand_value(rhs, Ghost(bound)) {
                    Ok(v) => v,
                    Err(e) => return Err(e),
                };
                Ok(c.truth(l, r))
            },
        }
    }

    /// Interpolates the tags in a quoted literal by evaluating it as a template one level
    /// deeper, so that includes reached only through literals still meet the depth limit.
    pub fn interpolate_literal(&self, raw: &str) -> (r: Result<String, Error>)
        ensures
            match fs_literal(self.context(), self.scope(), raw@) {
                Some(v) => r matches Ok(x) && x@ == v,
                None => r is Err,
            },
            fs_literal_fault(self.context(), self.scope(), raw@) matches Some(f) ==> (r matches Err(e) && fault_is(e, f)),
            r matches Ok(out) ==> exists|ans: Seq<(Seq<char>, bool)>| eval_spec(raw@, ans) == Some(out@),
        decreases include_fuel(self.depth, self.options.max_include_depth),
            (if self.depth < self.options.max_include_depth { 0 } else { raw@.len() + 1 }),
            0nat,
    {
        let env = self.child(self.current_file.clone(), self.vars.duplicate());
        env.evaluate_template(raw, self.current_file.as_str())
    }

    /// The values of an include tag's arguments, taken in the order they are written: a
    /// literal interpolated, a variable resolved here, each then passed through its filters.
    /// A name passed again later is left to its last occurrence.
    fn tag_arg_values(&self, args_str: &str, span: Span, named_src: &SourceText) -> (r: Result<StrMap<String>, Error>)
        requires
            self.depth < self.options.max_include_depth,
        ensures
            match fs_args(self.context(), self.scope(), args_spec(args_str@, 0, args_str@.len() as int), 0, Map::empty()) {
                Some(m) => r matches Ok(x) && x@ == m,
                None => r is Err,
            },
            fs_args_fault(self.context(), self.scope(), args_spec(args_str@, 0, args_str@.len() as int), 0, Map::empty())
                matches Some(f) ==> (r matches Err(e) && fault_is(e, f)),
        decreases include_fuel(self.depth, self.options.max_include_depth), 0nat, 1nat,
    {
        let list = parse_args_list(args_str);
        let ghost gl = arg_list_view(list@);
        let mut values: StrMap<String> = StrMap::new();
        let mut t: usize = 0;
        while t < list.len()
            invariant
                t <= list@.len(),
                gl == arg_list_view(list@),
                gl.len() == list@.len(),
                gl == args_spec(args_str@, 0, args_str@.len() as int),
                self.depth < self.options.max_include_depth,
                fs_args(self.context(), self.scope(), gl, 0, Map::empty()) == fs_args(
                    self.context(),
                    self.scope(),
                    gl,
                    t as int,
                    values@,
                ),
                fs_args_fault(self.context(), self.scope(), gl, 0, Map::empty()) == fs_args_fault(
                    self.context(),
                    self.scope(),
                    gl,
                    t as int,
                    values@,
                ),
            decreases list.len() - t,
        {
            if !appears_later(&list, t) {
                let key = &list[t].0;
                let (raw_val, arg_filters) = match &list[t].1 {
                    Argument::Literal(val, fs) => (
                        match self.interpolate_literal(val.as_str()) {
                            Ok(v) => v,
                            Err(e) => return Err(e),
                        },
                        fs,
                    ),
                    Argument::Variable(name, fs) => (
                        match self.var_value(name.as_str(), span, named_src) {
                            Ok(v) => v,
                            Err(e) => return Err(e),
                        },
                        fs,
                    ),
                };
                let val = match apply_filters(raw_val, arg_filters, span, named_src) {
                    Ok(v) => v,
                    Err(e) => return Err(e),
                };
                values.insert(key.clone(), val);
            }
            t = t + 1;
        }
        Ok(values)
    }

    /// Includes a file: resolves its path inside `src_dir`, checks the depth limit, binds its
    /// declared arguments and evaluates its text one level deeper (HTML files normalized).
    pub fn include_file(&self, file: &str, args_str: &str, span: Span, named_src: &SourceText) -> (r: Result<String, Error>)
        ensures
            include_outcome(r, self.src_dir@, self.current_file@, self.sources@, self.depth,
                self.options.max_include_depth, file@, named_src@, span),
            self.missing_argument_outcome(r, file@, args_str@, named_src@, span),
            match fs_include(self.context(), self.scope(), file@, args_str@) {
                Some(v) => r matches Ok(x) && x@ == v,
                None => r is Err,
            },
            fs_include_fault(self.context(), self.scope(), file@, args_str@) matches Some(f) ==> (r matches Err(e) && fault_is(e, f)),
        decreases include_fuel(self.depth, self.options.max_include_depth), 0nat, 2nat,
    {
        let target = match self.include_target_path(file, span, named_src) {
            Ok(p) => p,
            Err(e) => return Err(e),
        };
        let entry = match self.sources.get(target.as_str()) {
            Some(e) => e,
            None => return Err(Error(ErrorKind::SourceRequired { path: target })),
        };
        if let SourceEntry::Missing = entry {
            return Err(Error(ErrorKind::IncludeFileNotFound {
                include_path: String::from_str(file),
                src: named_src.duplicate(),
                span,
            }));
        }
        if self.depth >= self.options.max_include_depth {
            return Err(Error(ErrorKind::MaxRecursionDepthExceeded {
                src: named_src.duplicate(),
                span,
                depth: self.depth,
                max_depth: self.options.max_include_depth,
            }));
        }
        match entry {
            SourceEntry::Unreadable(m) => Err(Error(ErrorKind::Io(m.clone()))),
            SourceEntry::Loaded { content, args } => {
                let passed = match self.tag_arg_values(args_str, span, named_src) {
                    Ok(m) => m,
                    Err(e) => return Err(e),
                };
                let resolved = match bind_include_args(args, &passed, file, span, named_src) {
                    Ok(m) => m,
                    Err(e) => return Err(e),
                };
                let child_vars = merge_strmap(&self.vars, &resolved);
                let text = if has_html_extension(target.as_str()) {
                    normalize_html_content(content.as_str())
                } else {
                    content.clone()
                };
                let env = self.child(target.clone(), child_vars);
                env.evaluate_template(text.as_str(), target.as_str())
            },
            SourceEntry::Missing => Err(Error(ErrorKind::IncludeFileNotFound {
                include_path: String::from_str(file),
                src: named_src.duplicate(),
                span,
            })),
        }
    }

    /// Evaluates `content`, the text of `file_path`, in this environment: the same
    /// evaluation as [`crate::evaluator::Evaluator::evaluate`], with this environment's
    /// variables, includes, blocks and literals.
    #[verifier::rlimit(40)]
    pub fn evaluate_template(&self, content: &str, file_path: &str) -> (r: Result<String, Error>)
        ensures
            match fs_eval(self.context(), self.scope(), content@) {
                Some(v) => r matches Ok(x) && x@ == v,
                None => r is Err,
            },
            fs_eval_fault(self.context(), self.scope(), content@) matches Some(f) ==> (r matches Err(e) && fault_is(e, f)),
            r matches Ok(out) ==> exists|ans: Seq<(Seq<char>, bool)>| eval_spec(content@, ans) == Some(out@),
        decreases include_fuel(self.depth, self.options.max_include_depth), content@.len(), 3nat,
    {
        let scanner = TagScanner::new(content, file_path);
        let n = scanner.src.len();
        let mut result = String::new();
        let mut cursor: usize = 0;
        let mut frames: Vec<Frame> = Vec::new();
        let mut emitting = true;
        let ghost ans: Seq<(Seq<char>, bool)> = Seq::empty();
        let ghost c = self.context();
        let ghost sc = self.scope();
        proof {
            lemma_progress_init(scanner.src@);
            lemma_prepend_empty(fs_run(c, sc, content@, 0, Seq::empty(), true));
        }
        loop
            invariant
                cursor <= n == scanner.src@.len(),
                scanner.src@ == content@,
                scanner.wf(),
                c == self.context(),
                sc == self.scope(),
                progress(scanner.src@, result@, cursor as int, frames@, emitting, ans),
                fs_eval(c, sc, content@) == prepend(result@, fs_run(c, sc, content@, cursor as int, frames@, emitting)),
                fs_eval_fault(c, sc, content@) == fs_run_fault(c, sc, content@, cursor as int, frames@, emitting),
            decreases n - cursor,
        {
            proof {
                lemma_tag_bounds(scanner.src@, cursor as int);
                lemma_condition_shorter(scanner.src@, cursor as int);
            }
            let tm = match scanner.tag_at(cursor) {
                Err(e) => return Err(e),
                Ok(None) => {
                    if frames.len() > 0 {
                        let f = frames[frames.len() - 1];
                        return Err(unclosed_error(f, &scanner.named_src));
                    }
                    let ghost before = result@;
                    if emitting {
                        push_unescaped(&mut result, &scanner.src, cursor, n);
                    }
                    proof {
                        lemma_progress_done(scanner.src@, before, cursor as int, emitting, ans);
                        if !emitting {
                            assert(before + Seq::<char>::empty() =~= before);
                        }
                    }
                    return Ok(result);
                },
                Ok(Some(t)) => t,
            };
            let ghost before = result@;
            let ghost start = tm.start as int;
            let ghost end = tm.end as int;
            let ghost text = if emitting { unescape_spec(scanner.src@, cursor as int, start) } else { Seq::<char>::empty() };
            if emitting {
                push_unescaped(&mut result, &scanner.src, cursor, tm.start);
            }
            proof {
                if !emitting {
                    assert(before + Seq::<char>::empty() =~= before);
                }
            }
            let need = need_of(&frames, emitting, &tm.directive);
            let mut cond = false;
            let mut value = String::new();
            match need {
                Need::Nothing => {},
                Need::Condition => {
                    if let Directive::If(cond_str) = &tm.directive {
                        let parsed = match parse_condition(cond_str.as_str()) {
                            Ok(p) => p,
                            Err(e) => return Err(Error(ErrorKind::InvalidCondition {
                                reason: e.message(),
                                src: scanner.named_src.duplicate(),
                                span: tm.span,
                            })),
                        };
                        cond = match self.condition_truth(&parsed, Ghost(n as nat)) {
                            Ok(b) => b,
                            Err(e) => return Err(e),
                        };
                    }
                },
                Need::Value => {
                    value = match &tm.directive {
                        Directive::Var(spec) => {
                            let (var_name, filter_names) = parse_var_spec(spec.as_str());
                            let v = match self.var_value(var_name.as_str(), tm.span, &scanner.named_src) {
                                Ok(v) => v,
                                Err(e) => return Err(e),
                            };
                            match apply_filters(v, &filter_names, tm.span, &scanner.named_src) {
                                Ok(v) => v,
                                Err(e) => return Err(e),
                            }
                        },
                        Directive::Include { file, args } => match self.include_file(file.as_str(), args.as_str(), tm.span, &scanner.named_src) {
                            Ok(v) => v,
                            Err(e) => return Err(e),
                        },
                        Directive::Block(name) => self.block_open(name.as_str()),
                        Directive::End => self.block_close(),
                        _ => String::new(),
                    };
                },
            }
            let ghost a = (value@, cond);
            let ghost old_frames = frames@;
            let ghost old_emitting = emitting;
            advance(&mut frames, &mut emitting, &tm.directive, tm.span, cond);
            result.append(value.as_str());
            proof {
                lemma_progress_step(scanner.src@, before, cursor as int, old_frames, old_emitting, ans, tm.directive@, start, end, a);
                let val = if need is Value { value@ } else { Seq::<char>::empty() };
                if need is Value {
                    assert(result@ == before + text + value@);
                } else {
                    assert(value@ == Seq::<char>::empty());
                    assert(result@ =~= before + text + Seq::<char>::empty());
                }
                assert(before + text + val =~= before + (text + val));
                lemma_prepend_assoc(before, text + val, fs_run(c, sc, content@, end, frames@, emitting));
                ans = ans.push(a);
            }
            cursor = tm.end;
        }
    }
}

/// The path an include resolves to is normalized: its components are its names after an
/// optional root, with no `.` or `..` left, so the `src_dir` prefix test on it cannot be
/// fooled by `..`.
pub proof fn law_include_target_normalized(src_dir: Seq<char>, current_file: Seq<char>, file: Seq<char>)
    ensures
        components(target_of(src_dir, current_file, file)) == crate::paths::normal_components(include_target(src_dir, current_file, file)),
        forall|i: int| 0 <= i < components(target_of(src_dir, current_file, file)).len()
            ==> !(#[trigger] components(target_of(src_dir, current_file, file))[i] is Parent)
            && !(components(target_of(src_dir, current_file, file))[i] is Cur),
{
    crate::paths::lemma_components_good(current_file);
    crate::paths::lemma_components_good(src_dir);
    crate::paths::lemma_components_good(file);
    let cc = components(current_file);
    let base = match crate::paths::parent_components(cc) {
        Some(p) => p,
        None => components(src_dir),
    };
    assert(crate::paths::good_components(base)) by {
        if crate::paths::parent_components(cc) is Some {
            assert forall|i: int| 0 <= i < base.len() implies (#[trigger] base[i] matches ComponentModel::Normal(x) ==> crate::paths::good_name(x)) by {
                assert(base[i] == cc[i]);
            }
        }
    }
    let fc = components(file);
    let all = if file.len() > 0 && file[0] == '/' { fc } else { base + fc };
    assert(crate::paths::good_components(all)) by {
        assert forall|i: int| 0 <= i < all.len() implies (#[trigger] all[i] matches ComponentModel::Normal(x) ==> crate::paths::good_name(x)) by {
            if !(file.len() > 0 && file[0] == '/') {
                if i < base.len() {
                    assert(all[i] == base[i]);
                } else {
                    assert(all[i] == fc[i - base.len()]);
                }
            }
        }
    }
    crate::paths::lemma_normalize_good(all);
    crate::paths::lemma_render_components(include_target(src_dir, current_file, file));
    let n = include_target(src_dir, current_file, file);
    let cs = crate::paths::normal_components(n);
    assert forall|i: int| 0 <= i < cs.len() implies !(#[trigger] cs[i] is Parent) && !(cs[i] is Cur) by {
        if n.0 {
            if i > 0 {
                assert(cs[i] == ComponentModel::Normal(n.1[i - 1]));
            }
        } else {
            assert(cs[i] == ComponentModel::Normal(n.1[i]));
        }
    }
}

proof fn lemma_first_missing_none(
    schema: Seq<(Seq<char>, Option<Seq<char>>)>,
    m: Map<Seq<char>, Seq<char>>,
    i: int,
)
    requires
        0 <= i,
        first_missing(schema, i, m) is None,
    ensures
        forall|k: int| i <= k < schema.len() && #[trigger] schema[k].1 is None ==> m.contains_key(schema[k].0),
    decreases schema.len() - i,
{
    if i < schema.len() {
        lemma_first_missing_none(schema, m, i + 1);
    }
}

/// An include cycle ends at the depth limit: where a file's whole text is one include of
/// itself (no arguments, not HTML), including it from its own scope at any depth up to the
/// limit fails, and the failure reported is the depth error at the limit.
pub proof fn law_include_cycle_hits_depth_limit(c: FsContext, sc: FsScope, file: Seq<char>)
    requires
        target_of(c.src_dir, sc.file, file) == sc.file,
        is_prefix(components(c.src_dir), components(sc.file)),
        c.sources.contains_key(sc.file),
        c.sources[sc.file] matches SourceEntryModel::Loaded { content, args } && args.len() == 0
            && scan_spec(content, 0) == (ScanModel::Tag {
                directive: DirectiveModel::Include { file, args: Seq::empty() },
                start: 0,
                end: content.len() as int,
            }),
        !is_html_path(sc.file),
        sc.depth <= c.max,
    ensures
        fs_include(c, sc, file, Seq::empty()) is None,
        fs_include_fault(c, sc, file, Seq::empty()) == Some(FsFault::Depth { depth: c.max, max: c.max }),
    decreases c.max - sc.depth,
{
    if sc.depth < c.max {
        let content = c.sources[sc.file]->content;
        let schema = c.sources[sc.file]->args;
        let list = crate::args::args_spec(Seq::<char>::empty(), 0, 0);
        assert(list == Seq::<(Seq<char>, ArgumentModel)>::empty());
        assert(fs_args(c, sc, list, 0, Map::empty()) == Some(Map::<Seq<char>, Seq<char>>::empty()));
        let merged = schema_defaults(schema).union_prefer_right(Map::<Seq<char>, Seq<char>>::empty());
        assert(first_missing(schema, 0, merged) is None);
        let child = FsScope { file: sc.file, vars: sc.vars.union_prefer_right(merged), depth: (sc.depth + 1) as usize };
        law_include_cycle_hits_depth_limit(c, child, file);
        assert(include_text(content, sc.file) == content);
        crate::evaluator::lemma_tag_bounds(content, 0);
        assert(fs_run(c, child, content, 0, Seq::empty(), true) is None);
        assert(fs_run_fault(c, child, content, 0, Seq::empty(), true) == Some(FsFault::Depth { depth: c.max, max: c.max }));
    }
}

/// Binding include arguments succeeds exactly when every name the schema declares without a
/// default has a value (see [`bind_include_args`], which fails on `first_missing`).
pub proof fn law_bound_args_cover_required(schema: Seq<(Seq<char>, Option<Seq<char>>)>, m: Map<Seq<char>, Seq<char>>)
    ensures
        first_missing(schema, 0, m) is None <==> forall|k: int| 0 <= k < schema.len() && #[trigger] schema[k].1 is None
            ==> m.contains_key(schema[k].0),
{
    if first_missing(schema, 0, m) is None {
        lemma_first_missing_none(schema, m, 0);
    } else {
        lemma_first_missing_some(schema, m, 0);
    }
}

proof fn lemma_first_missing_some(
    schema: Seq<(Seq<char>, Option<Seq<char>>)>,
    m: Map<Seq<char>, Seq<char>>,
    i: int,
)
    requires
        0 <= i,
        first_missing(schema, i, m) is Some,
    ensures
        exists|k: int| i <= k < schema.len() && #[trigger] schema[k].1 is None && !m.contains_key(schema[k].0),
    decreases schema.len() - i,
{
    if i < schema.len() && !(schema[i].1 is None && !m.contains_key(schema[i].0)) {
        lemma_first_missing_some(schema, m, i + 1);
    }
}

/// An include's argument defaults follow the rule of a page's: a name declared twice keeps
/// its first default. The schema's defaults are what the page rule gives over no variables.
pub proof fn law_schema_defaults_follow_page_rule(schema: Seq<(Seq<char>, Option<Seq<char>>)>)
    ensures
        schema_defaults(schema) == crate::engine::with_arg_defaults(Map::empty(), schema),
    decreases schema.len(),
{
    if schema.len() > 0 {
        law_schema_defaults_follow_page_rule(schema.drop_last());
    }
}

/// Binding include arguments lets the tag's values win over the schema's defaults, and
/// keeps a default wherever the tag passes nothing.
pub proof fn law_passed_args_override_defaults(
    schema: Seq<(Seq<char>, Option<Seq<char>>)>,
    passed: Map<Seq<char>, Seq<char>>,
    k: Seq<char>,
)
    ensures
        passed.contains_key(k) ==> schema_defaults(schema).union_prefer_right(passed)[k] == passed[k],
        !passed.contains_key(k) && schema_defaults(schema).contains_key(k) ==> schema_defaults(schema).union_prefer_right(
            passed,
        )[k] == schema_defaults(schema)[k],
{
}

/// At or past the include depth limit no include succeeds, whatever the file and its
/// arguments; an interpolated literal is evaluated one level deeper still, so it cannot
/// include either.
pub proof fn law_no_include_past_the_limit(c: FsContext, sc: FsScope, file: Seq<char>, args: Seq<char>)
    requires
        sc.depth >= c.max,
    ensures
        fs_include(c, sc, file, args) is None,
        fs_include(c, FsScope { file: sc.file, vars: sc.vars, depth: deeper(sc.depth) }, file, args) is None,
{
}

/// What evaluating from `cursor` gives in this scope is what [`eval_from`] gives from there,
/// after any answers `pre`, for some further answers: each tag answered with the value or
/// truth that this scope gave it.
proof fn lemma_fs_run_answers(
    c: FsContext,
    sc: FsScope,
    s: Seq<char>,
    cursor: int,
    frames: Seq<Frame>,
    emitting: bool,
    pre: Seq<(Seq<char>, bool)>,
)
    requires
        fs_run(c, sc, s, cursor, frames, emitting) is Some,
    ensures
        exists|ext: Seq<(Seq<char>, bool)>| #[trigger] eval_from(s, cursor, frames, emitting, pre + ext, pre.len() as int)
            == fs_run(c, sc, s, cursor, frames, emitting),
    decreases s.len() - cursor,
{
    let none: Seq<(Seq<char>, bool)> = Seq::empty();
    match scan_spec(s, cursor) {
        ScanModel::Done => {
            assert(pre + none =~= pre);
            assert(eval_from(s, cursor, frames, emitting, pre + none, pre.len() as int) == fs_run(c, sc, s, cursor, frames, emitting));
        },
        ScanModel::Tag { directive, start, end } => {
            let text = if emitting { unescape_spec(s, cursor, start) } else { Seq::<char>::empty() };
            let span = span_of(s, start, end);
            let a: (Seq<char>, bool) = match need_spec(frames, emitting, directive) {
                Need::Nothing => (Seq::empty(), false),
                Need::Value => {
                    let v = match directive {
                        DirectiveModel::Var(spec_text) => fs_var(sc.vars, spec_text),
                        DirectiveModel::Include { file, args } => fs_include(c, sc, file, args),
                        DirectiveModel::Block(name) => Some(block_open_spec(c.blocks, name)),
                        DirectiveModel::End => Some("\n\n</div>\n\n"@),
                        _ => Some(Seq::empty()),
                    };
                    (v->0, false)
                },
                Need::Condition => {
                    let b = match directive {
                        DirectiveModel::If(cs) => match crate::condition::condition_spec(cs, 0, cs.len() as int) {
                            Ok(cm) => fs_truth(c, sc, cm, s.len()),
                            Err(_) => None,
                        },
                        _ => Some(false),
                    };
                    (Seq::empty(), b->0)
                },
            };
            let val = if need_spec(frames, emitting, directive) is Value { a.0 } else { Seq::<char>::empty() };
            let st = next_state(frames, emitting, directive, span, a.1);
            assert(fs_run(c, sc, s, cursor, frames, emitting) == prepend(text + val, fs_run(c, sc, s, end, st.0, st.1))) by {
                if !(need_spec(frames, emitting, directive) is Value) {
                    assert(text + val =~= text);
                }
            }
            lemma_fs_run_answers(c, sc, s, end, st.0, st.1, pre.push(a));
            let ext2 = choose|ext2: Seq<(Seq<char>, bool)>| #[trigger] eval_from(s, end, st.0, st.1, pre.push(a) + ext2, pre.push(a).len() as int)
                == fs_run(c, sc, s, end, st.0, st.1);
            let ext = seq![a] + ext2;
            assert(pre + ext =~= pre.push(a) + ext2);
            assert(answer_at(pre + ext, pre.len() as int) == a);
            let rest = fs_run(c, sc, s, end, st.0, st.1)->0;
            assert(text + val + rest =~= text + (val + rest));
            assert(eval_from(s, cursor, frames, emitting, pre + ext, pre.len() as int) == fs_run(c, sc, s, cursor, frames, emitting));
        },
        _ => {},
    }
}

/// Evaluating against the source directory is an evaluation in the sense of
/// [`eval_spec`]: whatever it produces, some answers to the template's tags produce too.
pub proof fn law_fs_eval_is_an_evaluation(c: FsContext, sc: FsScope, s: Seq<char>)
    ensures
        fs_eval(c, sc, s) matches Some(out) ==> exists|ans: Seq<(Seq<char>, bool)>| #[trigger] eval_spec(s, ans) == Some(out),
{
    if fs_eval(c, sc, s) is Some {
        let none: Seq<(Seq<char>, bool)> = Seq::empty();
        lemma_fs_run_answers(c, sc, s, 0, Seq::empty(), true, none);
        let ext = choose|ext: Seq<(Seq<char>, bool)>| #[trigger] eval_from(s, 0, Seq::empty(), true, none + ext, 0)
            == fs_run(c, sc, s, 0, Seq::empty(), true);
        assert(none + ext =~= ext);
        assert(eval_spec(s, ext) == fs_eval(c, sc, s));
    }
}

impl<'a> Environment for FileSystemEnvironment<'a> {
    open spec fn var_spec(&self, name: Seq<char>) -> Option<Seq<char>> {
        if self.vars@.contains_key(name) {
            Some(self.vars@[name])
        } else {
            None
        }
    }

    open spec fn file_spec(&self, file: Seq<char>, args: Seq<char>) -> Option<Seq<char>> {
        fs_include(self.context(), self.scope(), file, args)
    }

    open spec fn block_spec(&self, name: Seq<char>) -> Seq<char> {
        block_open_spec(self.options.blocks@, name)
    }

    open spec fn end_spec(&self) -> Seq<char> {
        "\n\n</div>\n\n"@
    }

    open spec fn literal_spec(&self, raw: Seq<char>) -> Option<Seq<char>> {
        fs_literal(self.context(), self.scope(), raw)
    }

    fn resolve_var(&self, var_name: &str, span: Span, named_src: &SourceText) -> (r: Result<String, Error>)
        ensures
            self.vars@.contains_key(var_name@) ==> (r matches Ok(v) && v@ == self.vars@[var_name@]),
            !self.vars@.contains_key(var_name@) ==> (r matches Err(e) && e.0 matches ErrorKind::VariableNotFound {
                var_name: n,
                src,
                span: sp,
            } && n@ == var_name@ && src@ == named_src@ && sp == span),
    {
        self.var_value(var_name, span, named_src)
    }

    fn resolve_file(&self, file: &str, args_str: &str, span: Span, named_src: &SourceText) -> (r: Result<String, Error>)
        ensures
            include_outcome(r, self.src_dir@, self.current_file@, self.sources@, self.depth,
                self.options.max_include_depth, file@, named_src@, span),
            self.missing_argument_outcome(r, file@, args_str@, named_src@, span),
            match fs_include(self.context(), self.scope(), file@, args_str@) {
                Some(v) => r matches Ok(x) && x@ == v,
                None => r is Err,
            },
    {
        self.include_file(file, args_str, span, named_src)
    }

    fn resolve_block(&self, block_name_or_classes: &str) -> (r: String)
        ensures
            r@ == block_open_spec(self.options.blocks@, block_name_or_classes@),
    {
        self.block_open(block_name_or_classes)
    }

    fn resolve_end(&self) -> (r: String)
        ensures
            r@ == "\n\n</div>\n\n"@,
    {
        self.block_close()
    }

    fn lookup_var(&self, var_name: &str) -> (r: Option<String>)
        ensures
            opt_view(r) == (if self.vars@.contains_key(var_name@) { Some(self.vars@[var_name@]) } else { None }),
    {
        self.var_lookup(var_name)
    }

    fn resolve_literal(&self, raw: &str) -> (r: Result<String, Error>)
        ensures
            match fs_literal(self.context(), self.scope(), raw@) {
                Some(v) => r matches Ok(x) && x@ == v,
                None => r is Err,
            },
    {
        self.interpolate_literal(raw)
    }
}

} // verus!
