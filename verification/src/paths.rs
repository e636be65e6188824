//! A model of `/`-separated paths: their components, lexical normalization of `..`/`.`,
//! joining, and the component-wise prefix test.
use vstd::prelude::*;
use crate::args::strings_view;
use crate::text::{chars_of, string_of_range};

verus! {

/// A path component, as its mathematical value.
pub enum ComponentModel {
    Root,
    Cur,
    Parent,
    Normal(Seq<char>),
}

/// A path component (`std::path::Component` on Unix).
#[derive(Debug, Clone, PartialEq, Eq)]
pub enum PathComponent {
    Root,
    Cur,
    Parent,
    Normal(String),
}

impl View for PathComponent {
    type V = ComponentModel;

    open spec fn view(&self) -> ComponentModel {
        match self {
            PathComponent::Root => ComponentModel::Root,
            PathComponent::Cur => ComponentModel::Cur,
            PathComponent::Parent => ComponentModel::Parent,
            PathComponent::Normal(n) => ComponentModel::Normal(n@),
        }
    }
}

pub open spec fn comps_view(v: Seq<PathComponent>) -> Seq<ComponentModel> {
    v.map_values(|c: PathComponent| c@)
}

/// End of the segment starting at `i`: the next `/` or the end of `p`.
pub open spec fn seg_end(p: Seq<char>, i: int) -> int
    decreases p.len() - i,
{
    if 0 <= i < p.len() && p[i] != '/' {
        seg_end(p, i + 1)
    } else {
        i
    }
}

pub proof fn lemma_seg_end(p: Seq<char>, i: int)
    requires
        0 <= i <= p.len(),
    ensures
        i <= seg_end(p, i) <= p.len(),
    decreases p.len() - i,
{
    if i < p.len() && p[i] != '/' {
        lemma_seg_end(p, i + 1);
    }
}

/// The component a segment denotes, if any: empty segments and `.` (except a leading `.` of
/// a relative path) denote none.
pub open spec fn seg_component(seg: Seq<char>, at_start: bool) -> Option<ComponentModel> {
    if seg.len() == 0 {
        None
    } else if seg == seq!['.'] {
        if at_start {
            Some(ComponentModel::Cur)
        } else {
            None
        }
    } else if seg == seq!['.', '.'] {
        Some(ComponentModel::Parent)
    } else {
        Some(ComponentModel::Normal(seg))
    }
}

/// The components of the segments of `p` from `i` on.
pub open spec fn comps_from(p: Seq<char>, i: int, at_start: bool) -> Seq<ComponentModel>
    decreases p.len() - i,
{
    if i < 0 || i > p.len() {
        Seq::empty()
    } else {
        let e = seg_end(p, i);
        proof {
            lemma_seg_end(p, i);
        }
        let rest = if e >= p.len() {
            Seq::empty()
        } else {
            comps_from(p, e + 1, false)
        };
        match seg_component(p.subrange(i, e), at_start) {
            Some(c) => seq![c] + rest,
            None => rest,
        }
    }
}

/// The components of a path (`Path::components`).
pub open spec fn components(p: Seq<char>) -> Seq<ComponentModel> {
    if p.len() > 0 && p[0] == '/' {
        seq![ComponentModel::Root] + comps_from(p, 1, false)
    } else {
        comps_from(p, 0, true)
    }
}

/// Lexical normalization: `.` dropped, `..` removes the last name (if any), a root restarts.
pub open spec fn normalize(cs: Seq<ComponentModel>) -> (bool, Seq<Seq<char>>)
    decreases cs.len(),
{
    if cs.len() == 0 {
        (false, Seq::empty())
    } else {
        let prev = normalize(cs.drop_last());
        match cs.last() {
            ComponentModel::Root => (true, Seq::empty()),
            ComponentModel::Cur => prev,
            ComponentModel::Parent => (prev.0, if prev.1.len() > 0 { prev.1.drop_last() } else { prev.1 }),
            ComponentModel::Normal(x) => (prev.0, prev.1.push(x)),
        }
    }
}

/// The components of a normalized path.
pub open spec fn normal_components(n: (bool, Seq<Seq<char>>)) -> Seq<ComponentModel> {
    (if n.0 { seq![ComponentModel::Root] } else { Seq::empty() }) + n.1.map_values(|x: Seq<char>| ComponentModel::Normal(x))
}

/// Names joined by `/`.
pub open spec fn join_names(ns: Seq<Seq<char>>) -> Seq<char>
    decreases ns.len(),
{
    if ns.len() == 0 {
        Seq::empty()
    } else if ns.len() == 1 {
        ns[0]
    } else {
        join_names(ns.drop_last()) + seq!['/'] + ns.last()
    }
}

/// The text of a normalized path.
pub open spec fn render(n: (bool, Seq<Seq<char>>)) -> Seq<char> {
    (if n.0 { seq!['/'] } else { Seq::empty() }) + join_names(n.1)
}

/// `p` with `..` and `.` resolved lexically (`clean_path`).
pub open spec fn clean_spec(p: Seq<char>) -> Seq<char> {
    render(normalize(components(p)))
}

/// `pre` is a prefix of `cs`.
pub open spec fn is_prefix(pre: Seq<ComponentModel>, cs: Seq<ComponentModel>) -> bool {
    pre.len() <= cs.len() && cs.take(pre.len() as int) == pre
}

/// `a` joined with `b` (`PathBuf::join`): `b` if absolute, else `a`, a `/` unless `a` is empty
/// or ends in one, and `b`.
pub open spec fn join_spec(a: Seq<char>, b: Seq<char>) -> Seq<char> {
    if b.len() > 0 && b[0] == '/' {
        b
    } else if a.len() == 0 || a.last() == '/' {
        a + b
    } else {
        a + seq!['/'] + b
    }
}

proof fn lemma_seg_end_extend(a: Seq<char>, p: Seq<char>, i: int)
    requires
        a.len() <= p.len(),
        p.subrange(0, a.len() as int) == a,
        a.len() == p.len() || p[a.len() as int] == '/',
        0 <= i <= a.len(),
    ensures
        seg_end(p, i) == seg_end(a, i),
    decreases a.len() - i,
{
    if i < a.len() {
        assert(p[i] == p.subrange(0, a.len() as int)[i]);
        lemma_seg_end_extend(a, p, i + 1);
    }
}

/// The components of `p` from `i` on, where `p` extends `a` past a `/` (or equals it), are
/// those of `a` from `i` on followed by those of the rest.
proof fn lemma_comps_from_prefix(a: Seq<char>, p: Seq<char>, i: int, st: bool)
    requires
        a.len() <= p.len(),
        p.subrange(0, a.len() as int) == a,
        a.len() == p.len() || p[a.len() as int] == '/',
        0 <= i <= a.len(),
    ensures
        comps_from(p, i, st) == comps_from(a, i, st) + (if a.len() < p.len() {
            comps_from(p, a.len() as int + 1, false)
        } else {
            Seq::empty()
        }),
    decreases a.len() - i,
{
    lemma_seg_end_extend(a, p, i);
    lemma_seg_end(a, i);
    let e = seg_end(a, i);
    assert(p.subrange(i, e) =~= a.subrange(i, e)) by {
        assert forall|k: int| 0 <= k < e - i implies p.subrange(i, e)[k] == a.subrange(i, e)[k] by {
            assert(p[i + k] == p.subrange(0, a.len() as int)[i + k]);
        }
    }
    let tail: Seq<ComponentModel> = if a.len() < p.len() { comps_from(p, a.len() as int + 1, false) } else { Seq::empty() };
    if e < a.len() {
        lemma_comps_from_prefix(a, p, e + 1, false);
    }
    match seg_component(a.subrange(i, e), st) {
        Some(c) => {
            assert(seq![c] + comps_from(a, i, st).skip(1) =~= comps_from(a, i, st));
            if e < a.len() {
                assert(seq![c] + (comps_from(a, e + 1, false) + tail) =~= (seq![c] + comps_from(a, e + 1, false)) + tail);
            } else {
                assert(seq![c] + tail =~= (seq![c] + Seq::<ComponentModel>::empty()) + tail);
            }
        },
        None => {
            if e >= a.len() {
                assert(tail =~= Seq::<ComponentModel>::empty() + tail);
            }
        },
    }
}

/// A path that extends `a` past a `/` (or equals it) has the components of `a` first.
pub proof fn lemma_components_extend(a: Seq<char>, p: Seq<char>)
    requires
        a.len() <= p.len(),
        p.subrange(0, a.len() as int) == a,
        a.len() == p.len() || p[a.len() as int] == '/',
    ensures
        is_prefix(components(a), components(p)),
{
    if a.len() == 0 {
        assert(components(a) =~= Seq::<ComponentModel>::empty());
        assert(components(p).take(0) =~= Seq::<ComponentModel>::empty());
    } else {
        assert(p[0] == p.subrange(0, a.len() as int)[0]);
        if a[0] == '/' {
            lemma_comps_from_prefix(a, p, 1, false);
        } else {
            lemma_comps_from_prefix(a, p, 0, true);
        }
        let tail: Seq<ComponentModel> = if a.len() < p.len() { comps_from(p, a.len() as int + 1, false) } else { Seq::empty() };
        assert(components(p) =~= components(a) + tail);
        assert(components(p).take(components(a).len() as int) =~= components(a));
    }
}

/// Joining a relative path onto `a` keeps `a`'s components first (`PathBuf::join` only
/// extends).
pub proof fn lemma_join_extends(a: Seq<char>, b: Seq<char>)
    requires
        b.len() == 0 || b[0] != '/',
    ensures
        is_prefix(components(a), components(join_spec(a, b))),
{
    let p = join_spec(a, b);
    if a.len() == 0 {
        assert(components(a) =~= Seq::<ComponentModel>::empty());
        assert(components(p).take(0) =~= Seq::<ComponentModel>::empty());
    } else if a.last() == '/' {
        if b.len() == 0 {
            assert(p =~= a);
            assert(components(p).take(components(p).len() as int) =~= components(p));
        } else {
            let a0 = a.drop_last();
            // `a` is `a0/`, and `p` is `a0/b`.
            assert(a.subrange(0, a0.len() as int) =~= a0);
            assert(p.subrange(0, a0.len() as int) =~= a0);
            assert(p.subrange(0, a.len() as int) =~= a);
            if a0.len() == 0 {
                assert(comps_from(a, 1, false) =~= Seq::<ComponentModel>::empty());
                assert(components(a) =~= seq![ComponentModel::Root]);
                assert(p[0] == '/');
                assert(components(p).take(1) =~= seq![ComponentModel::Root]);
            } else {
                let st = !(a0[0] == '/');
                let i: int = if a0[0] == '/' { 1 } else { 0 };
                assert(a[0] == a0[0] && p[0] == a0[0]);
                lemma_comps_from_prefix(a0, a, i, st);
                lemma_comps_from_prefix(a0, p, i, st);
                assert(comps_from(a, a0.len() as int + 1, false) =~= Seq::<ComponentModel>::empty());
                assert(comps_from(a, i, st) =~= comps_from(a0, i, st));
                assert(components(p) =~= components(a) + comps_from(p, a0.len() as int + 1, false));
                assert(components(p).take(components(a).len() as int) =~= components(a));
            }
        }
    } else {
        assert(p.subrange(0, a.len() as int) =~= a);
        assert(p[a.len() as int] == '/');
        lemma_components_extend(a, p);
    }
}

/// Components: a prefix of a prefix is a prefix.
pub proof fn lemma_prefix_trans(x: Seq<ComponentModel>, y: Seq<ComponentModel>, z: Seq<ComponentModel>)
    requires
        is_prefix(x, y),
        is_prefix(y, z),
    ensures
        is_prefix(x, z),
{
    assert(z.take(x.len() as int) =~= y.take(x.len() as int));
}

fn seg_end_exec(p: &Vec<char>, i: usize) -> (e: usize)
    requires
        i <= p@.len(),
    ensures
        e == seg_end(p@, i as int),
        i <= e <= p@.len(),
{
    proof {
        lemma_seg_end(p@, i as int);
    }
    let mut e = i;
    while e < p.len() && p[e] != '/'
        invariant
            i <= e <= p@.len(),
            seg_end(p@, i as int) == seg_end(p@, e as int),
        decreases p.len() - e,
    {
        e = e + 1;
    }
    e
}

/// The components of the segments of `p[i..]`.
fn comps_from_exec(p: &Vec<char>, i: usize, at_start: bool, init: Vec<PathComponent>) -> (r: Vec<PathComponent>)
    requires
        i <= p@.len(),
    ensures
        comps_view(r@) == comps_view(init@) + comps_from(p@, i as int, at_start),
{
    let mut out: Vec<PathComponent> = init;
    let mut k: usize = i;
    let mut first = at_start;
    assert(comps_view(out@) + comps_from(p@, i as int, at_start) == comps_view(init@) + comps_from(p@, i as int, at_start));
    loop
        invariant
            i <= k <= p@.len(),
            comps_view(init@) + comps_from(p@, i as int, at_start) == comps_view(out@) + comps_from(p@, k as int, first),
        decreases p@.len() - k,
    {
        let e = seg_end_exec(p, k);
        let ghost before = comps_view(out@);
        let len = e - k;
        let is_dot = len == 1 && p[k] == '.';
        let is_dotdot = len == 2 && p[k] == '.' && p[k + 1] == '.';
        proof {
            let seg = p@.subrange(k as int, e as int);
            if len == 1 {
                assert(seg[0] == p@[k as int]);
                assert(is_dot == (seg =~= seq!['.']));
            } else {
                assert(seg.len() != 1);
            }
            if len == 2 {
                assert(seg[0] == p@[k as int] && seg[1] == p@[k + 1]);
                assert(is_dotdot == (seg =~= seq!['.', '.']));
            } else {
                assert(seg.len() != 2);
            }
        }
        if len == 0 {
        } else if is_dot {
            if first {
                out.push(PathComponent::Cur);
            }
        } else if is_dotdot {
            out.push(PathComponent::Parent);
        } else {
            out.push(PathComponent::Normal(string_of_range(p, k, e)));
        }
        proof {
            let rest = if e >= p@.len() { Seq::empty() } else { comps_from(p@, e + 1, false) };
            assert(comps_from(p@, k as int, first) == match seg_component(p@.subrange(k as int, e as int), first) {
                Some(c) => seq![c] + rest,
                None => rest,
            });
            assert(before + comps_from(p@, k as int, first) =~= comps_view(out@) + rest);
        }
        if e >= p.len() {
            assert(comps_view(out@) =~= comps_view(out@) + Seq::<ComponentModel>::empty());
            return out;
        }
        k = e + 1;
        first = false;
    }
}

/// The components of a path.
pub fn path_components(p: &str) -> (r: Vec<PathComponent>)
    ensures
        comps_view(r@) == components(p@),
{
    let v = chars_of(p);
    if v.len() > 0 && v[0] == '/' {
        let mut root: Vec<PathComponent> = Vec::new();
        root.push(PathComponent::Root);
        comps_from_exec(&v, 1, false, root)
    } else {
        let r = comps_from_exec(&v, 0, true, Vec::new());
        assert(comps_view(Seq::<PathComponent>::empty()) + comps_from(v@, 0, true) =~= comps_from(v@, 0, true));
        r
    }
}


/// The components of `Path::parent`: `None` when there is no component or the last one is
/// the root, else all but the last.
pub open spec fn parent_components(cs: Seq<ComponentModel>) -> Option<Seq<ComponentModel>> {
    if cs.len() == 0 || cs.last() is Root {
        None
    } else {
        Some(cs.drop_last())
    }
}

/// Where an include of `file` from `current_file` points, normalized: `file` taken relative
/// to the current file's directory (or to `src_dir` when the current file has no parent),
/// unless `file` is absolute.
pub open spec fn include_target(src_dir: Seq<char>, current_file: Seq<char>, file: Seq<char>) -> (bool, Seq<Seq<char>>) {
    let base = match parent_components(components(current_file)) {
        Some(p) => p,
        None => components(src_dir),
    };
    normalize(if file.len() > 0 && file[0] == '/' { components(file) } else { base + components(file) })
}

/// Whether `c` is the same component as `d`.
fn component_eq(c: &PathComponent, d: &PathComponent) -> (b: bool)
    ensures
        b == (c@ == d@),
{
    match (c, d) {
        (PathComponent::Root, PathComponent::Root) => true,
        (PathComponent::Cur, PathComponent::Cur) => true,
        (PathComponent::Parent, PathComponent::Parent) => true,
        (PathComponent::Normal(x), PathComponent::Normal(y)) => {
            let same = *x == *y;
            same
        },
        _ => false,
    }
}

/// Lexical normalization of a component list (see [`normalize`]).
fn normalize_exec(cs: &Vec<PathComponent>) -> (r: (bool, Vec<String>))
    ensures
        (r.0, strings_view(r.1@)) == normalize(comps_view(cs@)),
{
    let mut absolute = false;
    let mut names: Vec<String> = Vec::new();
    let mut i: usize = 0;
    assert(comps_view(cs@).take(0) =~= Seq::<ComponentModel>::empty());
    while i < cs.len()
        invariant
            i <= cs@.len(),
            (absolute, strings_view(names@)) == normalize(comps_view(cs@).take(i as int)),
        decreases cs.len() - i,
    {
        let ghost prev = strings_view(names@);
        assert(comps_view(cs@).take(i + 1).drop_last() =~= comps_view(cs@).take(i as int));
        assert(comps_view(cs@).take(i + 1).last() == cs@[i as int]@);
        match &cs[i] {
            PathComponent::Root => {
                absolute = true;
                names = Vec::new();
                assert(strings_view(names@) =~= Seq::<Seq<char>>::empty());
            },
            PathComponent::Cur => {},
            PathComponent::Parent => {
                if names.len() > 0 {
                    names.pop();
                    assert(strings_view(names@) =~= prev.drop_last());
                }
            },
            PathComponent::Normal(x) => {
                names.push(x.clone());
                assert(strings_view(names@) =~= prev.push(x@));
            },
        }
        i = i + 1;
    }
    assert(comps_view(cs@).take(cs@.len() as int) =~= comps_view(cs@));
    (absolute, names)
}

/// The text of a normalized path (see [`render`]).
fn render_exec(absolute: bool, names: &Vec<String>) -> (r: String)
    ensures
        r@ == render((absolute, strings_view(names@))),
{
    let mut out = String::new();
    if absolute {
        out.push('/');
    }
    let ghost head = out@;
    assert(head == (if absolute { seq!['/'] } else { Seq::<char>::empty() }));
    let mut i: usize = 0;
    assert(strings_view(names@).take(0) =~= Seq::<Seq<char>>::empty());
    assert(head =~= head + join_names(Seq::<Seq<char>>::empty()));
    while i < names.len()
        invariant
            i <= names@.len(),
            out@ == head + join_names(strings_view(names@).take(i as int)),
        decreases names.len() - i,
    {
        let ghost ns = strings_view(names@).take(i + 1);
        assert(ns.drop_last() =~= strings_view(names@).take(i as int));
        assert(ns.last() == names@[i as int]@);
        if i > 0 {
            out.push('/');
        }
        out.append(names[i].as_str());
        if i > 0 {
            assert(out@ =~= head + join_names(ns));
        } else {
            assert(ns.len() == 1);
            assert(out@ =~= head + join_names(ns));
        }
        i = i + 1;
    }
    assert(strings_view(names@).take(names@.len() as int) =~= strings_view(names@));
    out
}

/// The path with `..` and `.` resolved lexically: `.` is dropped, `..` removes the name before
/// it (if any), and the result is rendered with single `/` separators.
pub fn clean_path(p: &str) -> (r: String)
    ensures
        r@ == clean_spec(p@),
{
    let cs = path_components(p);
    let (absolute, names) = normalize_exec(&cs);
    render_exec(absolute, &names)
}

/// Whether the components `pre` begin the components `cs`.
pub fn comps_prefix(pre: &Vec<PathComponent>, cs: &Vec<PathComponent>) -> (b: bool)
    ensures
        b == is_prefix(comps_view(pre@), comps_view(cs@)),
{
    if pre.len() > cs.len() {
        return false;
    }
    let mut i: usize = 0;
    while i < pre.len()
        invariant
            i <= pre@.len() <= cs@.len(),
            forall|j: int| 0 <= j < i ==> #[trigger] comps_view(pre@)[j] == comps_view(cs@)[j],
        decreases pre.len() - i,
    {
        if !component_eq(&pre[i], &cs[i]) {
            assert(comps_view(cs@).take(pre@.len() as int)[i as int] != comps_view(pre@)[i as int]);
            return false;
        }
        i = i + 1;
    }
    assert(comps_view(cs@).take(pre@.len() as int) =~= comps_view(pre@));
    true
}

/// Whether `base` is a component-wise prefix of `path` (`Path::starts_with`).
pub fn path_starts_with(path: &str, base: &str) -> (b: bool)
    ensures
        b == is_prefix(components(base@), components(path@)),
{
    let pc = path_components(path);
    let bc = path_components(base);
    comps_prefix(&bc, &pc)
}

/// Whether `p` starts with `/`.
fn is_absolute(p: &str) -> (b: bool)
    ensures
        b == (p@.len() > 0 && p@[0] == '/'),
{
    let v = chars_of(p);
    v.len() > 0 && v[0] == '/'
}

/// `a` joined with `b` (`PathBuf::join`).
pub fn join_path(a: &str, b: &str) -> (r: String)
    ensures
        r@ == join_spec(a@, b@),
{
    if is_absolute(b) {
        return String::from_str(b);
    }
    let av = chars_of(a);
    let mut out = String::from_str(a);
    if av.len() > 0 && av[av.len() - 1] != '/' {
        out.push('/');
    }
    out.append(b);
    out
}

/// A copy of a component.
pub fn copy_component(c: &PathComponent) -> (r: PathComponent)
    ensures
        r@ == c@,
{
    match c {
        PathComponent::Root => PathComponent::Root,
        PathComponent::Cur => PathComponent::Cur,
        PathComponent::Parent => PathComponent::Parent,
        PathComponent::Normal(x) => PathComponent::Normal(x.clone()),
    }
}

/// A copy of the first `k` components.
fn copy_components(cs: &Vec<PathComponent>, k: usize) -> (r: Vec<PathComponent>)
    requires
        k <= cs@.len(),
    ensures
        comps_view(r@) == comps_view(cs@).take(k as int),
{
    let mut out: Vec<PathComponent> = Vec::new();
    let mut i: usize = 0;
    while i < k
        invariant
            i <= k <= cs@.len(),
            comps_view(out@) == comps_view(cs@).take(i as int),
        decreases k - i,
    {
        let ghost prev = out@;
        let c = copy_component(&cs[i]);
        out.push(c);
        assert(out@ == prev.push(c));
        assert(comps_view(out@) =~= comps_view(prev).push(cs@[i as int]@));
        assert(comps_view(out@) =~= comps_view(cs@).take(i + 1));
        i = i + 1;
    }
    out
}

/// Appends the components `w` to `v`.
fn append_components(v: &mut Vec<PathComponent>, w: Vec<PathComponent>)
    ensures
        comps_view(final(v)@) == comps_view(old(v)@) + comps_view(w@),
{
    let ghost start = comps_view(v@);
    let mut i: usize = 0;
    while i < w.len()
        invariant
            i <= w@.len(),
            comps_view(v@) == start + comps_view(w@).take(i as int),
        decreases w.len() - i,
    {
        let ghost prev = v@;
        let c = copy_component(&w[i]);
        v.push(c);
        assert(v@ == prev.push(c));
        assert(comps_view(v@) =~= comps_view(prev).push(w@[i as int]@));
        assert(comps_view(v@) =~= start + comps_view(w@).take(i + 1));
        i = i + 1;
    }
    assert(comps_view(w@).take(w@.len() as int) =~= comps_view(w@));
}

/// The normalized path that an include of `file`, written in `current_file`, points to.
pub fn include_path(src_dir: &str, current_file: &str, file: &str) -> (r: String)
    ensures
        r@ == render(include_target(src_dir@, current_file@, file@)),
{
    let cur = path_components(current_file);
    let mut combined: Vec<PathComponent> = Vec::new();
    let fc = path_components(file);
    let file_abs = is_absolute(file);
    if file_abs {
        combined = fc;
    } else {
        let n = cur.len();
        let has_parent = n > 0 && match &cur[n - 1] {
            PathComponent::Root => false,
            _ => true,
        };
        let base = if has_parent {
            copy_components(&cur, n - 1)
        } else {
            path_components(src_dir)
        };
        assert(has_parent ==> comps_view(cur@).drop_last() =~= comps_view(cur@).take(n - 1));
        combined = base;
        append_components(&mut combined, fc);
    }
    let (absolute, names) = normalize_exec(&combined);
    render_exec(absolute, &names)
}

/// A name that a path component can hold: non-empty, without `/`, and neither `.` nor `..`.
pub open spec fn good_name(x: Seq<char>) -> bool {
    &&& x.len() > 0
    &&& forall|j: int| 0 <= j < x.len() ==> x[j] != '/'
    &&& x != seq!['.']
    &&& x != seq!['.', '.']
}

/// Every `Normal` component holds a good name.
pub open spec fn good_components(cs: Seq<ComponentModel>) -> bool {
    forall|i: int| 0 <= i < cs.len() ==> (#[trigger] cs[i] matches ComponentModel::Normal(x) ==> good_name(x))
}

proof fn lemma_seg_end_no_slash(p: Seq<char>, i: int)
    requires
        0 <= i <= p.len(),
    ensures
        forall|j: int| i <= j < seg_end(p, i) ==> p[j] != '/',
        seg_end(p, i) < p.len() ==> p[seg_end(p, i)] == '/',
    decreases p.len() - i,
{
    if i < p.len() && p[i] != '/' {
        lemma_seg_end_no_slash(p, i + 1);
    }
}

/// The components that `comps_from` finds hold good names.
proof fn lemma_comps_from_good(p: Seq<char>, i: int, at_start: bool)
    requires
        0 <= i <= p.len(),
    ensures
        good_components(comps_from(p, i, at_start)),
    decreases p.len() - i,
{
    let e = seg_end(p, i);
    lemma_seg_end(p, i);
    lemma_seg_end_no_slash(p, i);
    let rest = if e >= p.len() { Seq::empty() } else { comps_from(p, e + 1, false) };
    if e < p.len() {
        lemma_comps_from_good(p, e + 1, false);
    }
    let seg = p.subrange(i, e);
    assert(forall|j: int| 0 <= j < seg.len() ==> seg[j] == p[i + j]);
    match seg_component(seg, at_start) {
        Some(c) => {
            let r = seq![c] + rest;
            assert forall|k: int| 0 <= k < r.len() implies (#[trigger] r[k] matches ComponentModel::Normal(x) ==> good_name(x)) by {
                if k > 0 {
                    assert(r[k] == rest[k - 1]);
                }
            }
        },
        None => {},
    }
}

pub proof fn lemma_components_good(p: Seq<char>)
    ensures
        good_components(components(p)),
{
    if p.len() > 0 && p[0] == '/' {
        lemma_comps_from_good(p, 1, false);
        let r = seq![ComponentModel::Root] + comps_from(p, 1, false);
        assert forall|k: int| 0 <= k < r.len() implies (#[trigger] r[k] matches ComponentModel::Normal(x) ==> good_name(x)) by {
            if k > 0 {
                assert(r[k] == comps_from(p, 1, false)[k - 1]);
            }
        }
    } else {
        lemma_comps_from_good(p, 0, true);
    }
}

/// Normalizing good components gives good names.
pub proof fn lemma_normalize_good(cs: Seq<ComponentModel>)
    requires
        good_components(cs),
    ensures
        forall|i: int| 0 <= i < normalize(cs).1.len() ==> good_name(#[trigger] normalize(cs).1[i]),
    decreases cs.len(),
{
    if cs.len() > 0 {
        let d = cs.drop_last();
        assert(good_components(d)) by {
            assert forall|i: int| 0 <= i < d.len() implies (#[trigger] d[i] matches ComponentModel::Normal(x) ==> good_name(x)) by {
                assert(d[i] == cs[i]);
            }
        }
        lemma_normalize_good(d);
        let prev = normalize(d);
        assert(cs.last() == cs[cs.len() - 1]);
        match cs.last() {
            ComponentModel::Parent => {
                if prev.1.len() > 0 {
                    assert forall|i: int| 0 <= i < prev.1.drop_last().len() implies good_name(#[trigger] prev.1.drop_last()[i]) by {
                        assert(prev.1.drop_last()[i] == prev.1[i]);
                    }
                }
            },
            ComponentModel::Normal(x) => {
                assert forall|i: int| 0 <= i < prev.1.push(x).len() implies good_name(#[trigger] prev.1.push(x)[i]) by {
                    if i < prev.1.len() {
                        assert(prev.1.push(x)[i] == prev.1[i]);
                    }
                }
            },
            _ => {},
        }
    }
}

proof fn lemma_seg_end_shift(s: Seq<char>, k: int, i: int)
    requires
        0 <= k,
        0 <= i,
        k + i <= s.len(),
    ensures
        seg_end(s, k + i) == k + seg_end(s.subrange(k, s.len() as int), i),
    decreases s.len() - (k + i),
{
    let t = s.subrange(k, s.len() as int);
    if k + i < s.len() {
        assert(t[i] == s[k + i]);
        if s[k + i] != '/' {
            lemma_seg_end_shift(s, k, i + 1);
        }
    }
}

/// Scanning components from `k + i` in `s` is scanning from `i` in `s[k..]`.
proof fn lemma_comps_shift(s: Seq<char>, k: int, i: int, f: bool)
    requires
        0 <= k,
        0 <= i,
        k + i <= s.len(),
    ensures
        comps_from(s, k + i, f) == comps_from(s.subrange(k, s.len() as int), i, f),
    decreases s.len() - (k + i),
{
    let t = s.subrange(k, s.len() as int);
    lemma_seg_end_shift(s, k, i);
    lemma_seg_end(s, k + i);
    let e = seg_end(s, k + i);
    assert(s.subrange(k + i, e) =~= t.subrange(i, e - k));
    if e < s.len() {
        lemma_comps_shift(s, k, e + 1 - k, false);
    }
}

/// `join_names` split at its first name.
proof fn lemma_join_front(ns: Seq<Seq<char>>)
    requires
        ns.len() >= 2,
    ensures
        join_names(ns) == ns[0] + seq!['/'] + join_names(ns.skip(1)),
    decreases ns.len(),
{
    if ns.len() == 2 {
        assert(ns.drop_last() =~= seq![ns[0]]);
        assert(ns.skip(1) =~= seq![ns[1]]);
        assert(join_names(ns.drop_last()) == ns[0]);
        assert(join_names(ns.skip(1)) == ns[1]);
        assert(ns.last() == ns[1]);
        assert(join_names(ns) == join_names(ns.drop_last()) + seq!['/'] + ns.last());
    } else {
        let d = ns.drop_last();
        let t = ns.skip(1);
        lemma_join_front(d);
        assert(d.skip(1) =~= t.drop_last());
        assert(d[0] == ns[0]);
        assert(t.last() == ns.last());
        assert(join_names(ns) == join_names(d) + seq!['/'] + ns.last());
        assert(join_names(t) == join_names(t.drop_last()) + seq!['/'] + t.last());
        assert(join_names(ns) =~= ns[0] + seq!['/'] + (join_names(t.drop_last()) + seq!['/'] + t.last()));
    }
}

/// The components of joined good names are those names.
proof fn lemma_join_components(ns: Seq<Seq<char>>, f: bool)
    requires
        forall|i: int| 0 <= i < ns.len() ==> good_name(#[trigger] ns[i]),
    ensures
        comps_from(join_names(ns), 0, f) == ns.map_values(|x: Seq<char>| ComponentModel::Normal(x)),
    decreases ns.len(),
{
    let s = join_names(ns);
    if ns.len() == 0 {
        assert(ns.map_values(|x: Seq<char>| ComponentModel::Normal(x)) =~= Seq::<ComponentModel>::empty());
    } else {
        let x = ns[0];
        assert(good_name(x));
        if ns.len() == 1 {
            assert(s == x);
            lemma_seg_end_no_slash(s, 0);
            lemma_seg_end(s, 0);
            if seg_end(s, 0) < s.len() {
                assert(s[seg_end(s, 0)] != '/');
            }
            assert(s.subrange(0, s.len() as int) =~= x);
            assert(ns.map_values(|x: Seq<char>| ComponentModel::Normal(x)) =~= seq![ComponentModel::Normal(x)]);
        } else {
            lemma_join_front(ns);
            let rest_text = join_names(ns.skip(1));
            assert(s == x + seq!['/'] + rest_text);
            assert(seg_end(s, 0) == x.len()) by {
                lemma_seg_end_no_slash(s, 0);
                lemma_seg_end(s, 0);
                assert forall|j: int| 0 <= j < x.len() implies s[j] != '/' by {
                    assert(s[j] == x[j]);
                }
                assert(s[x.len() as int] == '/');
                lemma_seg_end_prefix(s, 0, x.len() as int);
            }
            assert(s.subrange(0, x.len() as int) =~= x);
            lemma_comps_shift(s, x.len() + 1int, 0, false);
            assert(s.subrange(x.len() + 1int, s.len() as int) =~= rest_text);
            assert forall|i: int| 0 <= i < ns.skip(1).len() implies good_name(#[trigger] ns.skip(1)[i]) by {
                assert(ns.skip(1)[i] == ns[i + 1]);
            }
            lemma_join_components(ns.skip(1), false);
            assert(ns.map_values(|x: Seq<char>| ComponentModel::Normal(x)) =~= seq![ComponentModel::Normal(x)]
                + ns.skip(1).map_values(|x: Seq<char>| ComponentModel::Normal(x)));
        }
    }
}

proof fn lemma_seg_end_prefix(s: Seq<char>, i: int, m: int)
    requires
        0 <= i <= m < s.len(),
        forall|j: int| i <= j < m ==> s[j] != '/',
        s[m] == '/',
    ensures
        seg_end(s, i) == m,
    decreases m - i,
{
    if i < m {
        lemma_seg_end_prefix(s, i + 1, m);
    }
}

/// The components of a rendered normalization of good names are those names (after the
/// root, if absolute).
pub proof fn lemma_render_components(n: (bool, Seq<Seq<char>>))
    requires
        forall|i: int| 0 <= i < n.1.len() ==> good_name(#[trigger] n.1[i]),
    ensures
        components(render(n)) == normal_components(n),
{
    let j = join_names(n.1);
    lemma_join_components(n.1, !n.0);
    if n.0 {
        let s = seq!['/'] + j;
        assert(render(n) == s);
        assert(s[0] == '/');
        lemma_comps_shift(s, 1, 0, false);
        assert(s.subrange(1, s.len() as int) =~= j);
    } else {
        assert(render(n) =~= j);
        if j.len() > 0 {
            assert(n.1.len() > 0);
            if n.1.len() == 1 {
                assert(j == n.1[0]);
                assert(good_name(n.1[0]));
            } else {
                lemma_join_front(n.1);
                assert(good_name(n.1[0]));
                assert(j[0] == n.1[0][0]);
            }
        }
        assert(Seq::<ComponentModel>::empty() + n.1.map_values(|x: Seq<char>| ComponentModel::Normal(x)) =~= n.1.map_values(|x: Seq<char>| ComponentModel::Normal(x)));
    }
}

/// Normalizing the components of a normalized path gives it back.
proof fn lemma_normalize_normal(n: (bool, Seq<Seq<char>>))
    ensures
        normalize(normal_components(n)) == n,
    decreases n.1.len(),
{
    let cs = normal_components(n);
    if n.1.len() == 0 {
        if n.0 {
            assert(cs =~= seq![ComponentModel::Root]);
            assert(cs.drop_last() =~= Seq::<ComponentModel>::empty());
        } else {
            assert(cs =~= Seq::<ComponentModel>::empty());
        }
    } else {
        let m = (n.0, n.1.drop_last());
        lemma_normalize_normal(m);
        assert(cs.drop_last() =~= normal_components(m));
        assert(cs.last() == ComponentModel::Normal(n.1.last()));
        assert(m.1.push(n.1.last()) =~= n.1);
    }
}

/// A cleaned path's components are its normalized names after an optional root: no `.` and
/// no `..` remain, so a component-wise prefix test on it cannot be fooled by `..`.
pub proof fn law_clean_components(p: Seq<char>)
    ensures
        components(clean_spec(p)) == normal_components(normalize(components(p))),
        forall|i: int| 0 <= i < components(clean_spec(p)).len() ==> !(#[trigger] components(clean_spec(p))[i] is Parent)
            && !(components(clean_spec(p))[i] is Cur),
{
    lemma_components_good(p);
    lemma_normalize_good(components(p));
    lemma_render_components(normalize(components(p)));
    let n = normalize(components(p));
    let cs = normal_components(n);
    assert forall|i: int| 0 <= i < cs.len() implies !(#[trigger] cs[i] is Parent) && !(cs[i] is Cur) by {
        if n.0 {
            if i > 0 {
                assert(cs[i] == ComponentModel::Normal(n.1[i - 1]));
            }
        } else {
            assert(cs[i] == ComponentModel::Normal(n.1[i]));
        }
    }
}

/// Cleaning a path twice is cleaning it once.
pub proof fn law_clean_idempotent(p: Seq<char>)
    ensures
        clean_spec(clean_spec(p)) == clean_spec(p),
{
    law_clean_components(p);
    lemma_normalize_normal(normalize(components(p)));
}

} // verus!
