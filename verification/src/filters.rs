//! `| filter` chains on `.var` values: splitting the spec and applying filters.
use vstd::prelude::*;
use crate::args::strings_view;
use crate::error::{Error, ErrorKind, SourceText, Span};
use crate::text::{
    chars_of, find_ws, find_ws_exec, lemma_find_ws, lemma_skip_ws, skip_ws, skip_ws_exec,
    string_of_range, trim, trim_range,
};

verus! {

/// Index of the first `|` in `s[i..hi]`, or `hi`.
pub open spec fn find_pipe(s: Seq<char>, i: int, hi: int) -> int
    decreases hi - i,
{
    if i < hi && s[i] != '|' {
        find_pipe(s, i + 1, hi)
    } else {
        i
    }
}

pub proof fn lemma_find_pipe(s: Seq<char>, i: int, hi: int)
    requires
        i <= hi,
    ensures
        i <= find_pipe(s, i, hi) <= hi,
    decreases hi - i,
{
    if i < hi && s[i] != '|' {
        lemma_find_pipe(s, i + 1, hi);
    }
}

/// The `|`-separated pieces of `s[i..hi]`, each trimmed (`str::split('|')` then `str::trim`).
pub open spec fn pipe_segments(s: Seq<char>, i: int, hi: int) -> Seq<Seq<char>>
    decreases hi - i,
{
    if i > hi {
        Seq::empty()
    } else {
        let p = find_pipe(s, i, hi);
        proof {
            lemma_find_pipe(s, i, hi);
        }
        if p >= hi {
            seq![trim(s.subrange(i, hi))]
        } else {
            seq![trim(s.subrange(i, p))] + pipe_segments(s, p + 1, hi)
        }
    }
}

fn find_pipe_exec(s: &Vec<char>, i: usize, hi: usize) -> (k: usize)
    requires
        i <= hi <= s@.len(),
    ensures
        k == find_pipe(s@, i as int, hi as int),
        i <= k <= hi,
{
    proof {
        lemma_find_pipe(s@, i as int, hi as int);
    }
    let mut k: usize = i;
    while k < hi && s[k] != '|'
        invariant
            i <= k <= hi <= s@.len(),
            find_pipe(s@, i as int, hi as int) == find_pipe(s@, k as int, hi as int),
        decreases hi - k,
    {
        k = k + 1;
    }
    k
}

proof fn lemma_find_pipe_shift(x: Seq<char>, y: Seq<char>, i: int, hi: int)
    requires
        0 <= i <= hi <= y.len(),
    ensures
        find_pipe(x + y, x.len() + i, x.len() + hi) == x.len() + find_pipe(y, i, hi),
    decreases hi - i,
{
    if i < hi {
        assert((x + y)[x.len() + i] == y[i]);
        lemma_find_pipe_shift(x, y, i + 1, hi);
    }
}

proof fn lemma_pipe_segments_shift(x: Seq<char>, y: Seq<char>, i: int, hi: int)
    requires
        0 <= i <= hi <= y.len(),
    ensures
        pipe_segments(x + y, x.len() + i, x.len() + hi) == pipe_segments(y, i, hi),
    decreases hi - i,
{
    lemma_find_pipe_shift(x, y, i, hi);
    lemma_find_pipe(y, i, hi);
    let p = find_pipe(y, i, hi);
    if p >= hi {
        assert((x + y).subrange(x.len() + i, x.len() + hi) =~= y.subrange(i, hi));
    } else {
        assert((x + y).subrange(x.len() + i, x.len() + p) =~= y.subrange(i, p));
        lemma_pipe_segments_shift(x, y, p + 1, hi);
    }
}

/// The shape of a filter chain: a spec splits at its first `|` into its trimmed first piece
/// and the pieces of the rest; a spec without `|` is one trimmed piece.
pub proof fn law_filter_chain_shape(a: Seq<char>, b: Seq<char>)
    requires
        forall|k: int| 0 <= k < a.len() ==> #[trigger] a[k] != '|',
    ensures
        pipe_segments(a, 0, a.len() as int) == seq![trim(a)],
        pipe_segments(a + seq!['|'] + b, 0, a.len() + b.len() + 1int) == seq![trim(a)] + pipe_segments(b, 0, b.len() as int),
{
    let n = a.len() as int;
    lemma_find_pipe_none(a, 0, n, n);
    assert(a.subrange(0, n) =~= a);
    let s = a + seq!['|'] + b;
    assert forall|k: int| 0 <= k < n implies #[trigger] s[k] != '|' by {
        assert(s[k] == a[k]);
    }
    assert(s[n] == '|');
    lemma_find_pipe_none(s, 0, n, s.len() as int);
    assert(s.subrange(0, n) =~= a);
    let x = a + seq!['|'];
    assert(s =~= x + b);
    lemma_pipe_segments_shift(x, b, 0, b.len() as int);
}

proof fn lemma_find_pipe_none(s: Seq<char>, i: int, e: int, hi: int)
    requires
        0 <= i <= e <= hi <= s.len(),
        forall|k: int| i <= k < e ==> #[trigger] s[k] != '|',
        e == hi || s[e] == '|',
    ensures
        find_pipe(s, i, hi) == e,
    decreases e - i,
{
    if i < e {
        lemma_find_pipe_none(s, i + 1, e, hi);
    }
}


/// Splits a `.var` directive's text (e.g. `"name | upper | trim"`) into the variable name
/// and the filter names to apply, in order. `"name"` yields `("name", [])`.
pub fn parse_var_spec(spec: &str) -> (r: (String, Vec<String>))
    ensures
        r.0@ == pipe_segments(spec@, 0, spec@.len() as int)[0],
        strings_view(r.1@) == pipe_segments(spec@, 0, spec@.len() as int).skip(1),
{
    let s = chars_of(spec);
    let n = s.len();
    let mut segs: Vec<String> = Vec::new();
    let mut i: usize = 0;
    loop
        invariant_except_break
            i <= n == s@.len(),
            pipe_segments(s@, 0, n as int) == strings_view(segs@) + pipe_segments(s@, i as int, n as int),
        ensures
            pipe_segments(s@, 0, n as int) == strings_view(segs@),
            segs@.len() > 0,
        decreases n - i,
    {
        let p = find_pipe_exec(&s, i, n);
        let (a, b) = trim_range(&s, i, p);
        let ghost before = strings_view(segs@);
        segs.push(string_of_range(&s, a, b));
        assert(strings_view(segs@) =~= before.push(trim(s@.subrange(i as int, p as int))));
        if p >= n {
            assert(pipe_segments(s@, 0, n as int) =~= strings_view(segs@));
            break;
        }
        assert(before + pipe_segments(s@, i as int, n as int) =~= strings_view(segs@) + pipe_segments(s@, p + 1, n as int));
        i = p + 1;
    }
    let name = segs.remove(0);
    assert(strings_view(segs@) =~= pipe_segments(s@, 0, n as int).skip(1));
    (name, segs)
}

/// What `str::to_uppercase` returns for a string.
pub uninterp spec fn upper_case(s: Seq<char>) -> Seq<char>;

/// What `str::to_lowercase` returns for a string.
pub uninterp spec fn lower_case(s: Seq<char>) -> Seq<char>;

/// What `char::to_uppercase` yields for a character, collected into a string.
pub uninterp spec fn char_upper_case(c: char) -> Seq<char>;

/// Calls `str::to_uppercase`; its result is named by [`upper_case`] of the argument.
#[verifier::external_body]
fn str_to_uppercase(s: &str) -> (r: String)
    ensures
        r@ == upper_case(s@),
{
    s.to_uppercase()
}

/// Calls `str::to_lowercase`; its result is named by [`lower_case`] of the argument.
#[verifier::external_body]
fn str_to_lowercase(s: &str) -> (r: String)
    ensures
        r@ == lower_case(s@),
{
    s.to_lowercase()
}

/// Calls `char::to_uppercase` and collects the characters it yields; the result is named by
/// [`char_upper_case`] of the argument.
#[verifier::external_body]
fn char_to_uppercase(c: char) -> (r: String)
    ensures
        r@ == char_upper_case(c),
{
    c.to_uppercase().collect()
}

/// The whitespace-separated words of `s[i..hi]` (`str::split_whitespace`).
pub open spec fn words(s: Seq<char>, i: int, hi: int) -> Seq<Seq<char>>
    decreases hi - i,
{
    if i < 0 || i >= hi {
        Seq::empty()
    } else {
        let a = skip_ws(s, i, hi);
        proof {
            lemma_skip_ws(s, i, hi);
        }
        if a >= hi {
            Seq::empty()
        } else {
            let e = find_ws(s, a, hi);
            proof {
                lemma_find_ws(s, a, hi);
            }
            seq![s.subrange(a, e)] + words(s, e, hi)
        }
    }
}

/// A word with its first letter upper-cased and the rest lower-cased.
pub open spec fn title_word(w: Seq<char>) -> Seq<char> {
    if w.len() == 0 {
        Seq::empty()
    } else {
        char_upper_case(w[0]) + lower_case(w.skip(1))
    }
}

/// The words of `ws` in title case, joined by single spaces.
pub open spec fn join_title(ws: Seq<Seq<char>>) -> Seq<char>
    decreases ws.len(),
{
    if ws.len() == 0 {
        Seq::empty()
    } else if ws.len() == 1 {
        title_word(ws[0])
    } else {
        join_title(ws.drop_last()) + seq![' '] + title_word(ws.last())
    }
}

/// `s` in title case: each whitespace-separated word gets its first letter upper-cased and
/// the rest lower-cased; words are joined by single spaces.
pub open spec fn title_spec(s: Seq<char>) -> Seq<char> {
    join_title(words(s, 0, s.len() as int))
}

/// Capitalizes the first letter of each whitespace-separated word and lowercases the rest,
/// collapsing whitespace runs to single spaces.
pub fn title_case(s: &str) -> (r: String)
    ensures
        r@ == title_spec(s@),
{
    let v = chars_of(s);
    let n = v.len();
    let mut out = String::new();
    let mut i: usize = 0;
    let ghost done: Seq<Seq<char>> = Seq::empty();
    let mut first = true;
    loop
        invariant
            i <= n == v@.len(),
            v@ == s@,
            first == (done.len() == 0),
            words(v@, 0, n as int) == done + words(v@, i as int, n as int),
            out@ == join_title(done),
        decreases n - i,
    {
        let a = skip_ws_exec(&v, i, n);
        proof {
            lemma_skip_ws(v@, i as int, n as int);
        }
        if a >= n {
            assert(words(v@, i as int, n as int) =~= Seq::<Seq<char>>::empty());
            assert(done =~= done + words(v@, i as int, n as int));
            assert(words(v@, 0, n as int) == done);
            assert(v@ == s@);
            return out;
        }
        let e = find_ws_exec(&v, a, n);
        proof {
            lemma_find_ws(v@, a as int, n as int);
        }
        let ghost w = v@.subrange(a as int, e as int);
        if !first {
            out.push(' ');
        }
        first = false;
        let first = char_to_uppercase(v[a]);
        out.append(first.as_str());
        let rest = string_of_range(&v, a + 1, e);
        let lower = str_to_lowercase(rest.as_str());
        out.append(lower.as_str());
        proof {
            assert(w.skip(1) =~= v@.subrange(a + 1, e as int));
            let nd = done.push(w);
            assert(nd.drop_last() =~= done);
            assert(words(v@, 0, n as int) =~= nd + words(v@, e as int, n as int));
            if done.len() > 0 {
                assert(out@ =~= join_title(nd));
            } else {
                assert(out@ =~= join_title(nd));
            }
            done = nd;
        }
        i = e;
    }
}

/// The outcome of applying a named filter to a value, as its mathematical value.
pub open spec fn filter_spec(value: Seq<char>, name: Seq<char>) -> Option<Seq<char>> {
    if name == seq!['u', 'p', 'p', 'e', 'r'] {
        Some(upper_case(value))
    } else if name == seq!['l', 'o', 'w', 'e', 'r'] {
        Some(lower_case(value))
    } else if name == seq!['t', 'r', 'i', 'm'] {
        Some(trim(value))
    } else if name == seq!['t', 'i', 't', 'l', 'e'] {
        Some(title_spec(value))
    } else {
        None
    }
}

fn is_name(s: &Vec<char>, name: &[char]) -> (b: bool)
    ensures
        b == (s@ == name@),
{
    if s.len() != name.len() {
        return false;
    }
    let r = crate::text::matches_at_exec(s, 0, s.len(), name);
    assert(s@.subrange(0, s@.len() as int) =~= s@);
    r
}

/// Applies one named filter (`upper`, `lower`, `trim` or `title`) to `value`; any other
/// name is an `UnknownFilter` error at `span`.
pub fn apply_filter(value: String, filter_name: &str, span: Span, named_src: &SourceText) -> (r: Result<String, Error>)
    ensures
        match filter_spec(value@, filter_name@) {
            Some(v) => r matches Ok(x) && x@ == v,
            None => r matches Err(e) && e.0 matches ErrorKind::UnknownFilter { filter_name: f, src, span: sp }
                && f@ == filter_name@ && src@ == named_src@ && sp == span,
        },
{
    let n = chars_of(filter_name);
    if is_name(&n, &['u', 'p', 'p', 'e', 'r']) {
        Ok(str_to_uppercase(value.as_str()))
    } else if is_name(&n, &['l', 'o', 'w', 'e', 'r']) {
        Ok(str_to_lowercase(value.as_str()))
    } else if is_name(&n, &['t', 'r', 'i', 'm']) {
        let v = chars_of(value.as_str());
        let (a, b) = trim_range(&v, 0, v.len());
        assert(v@.subrange(0, v@.len() as int) =~= v@);
        Ok(string_of_range(&v, a, b))
    } else if is_name(&n, &['t', 'i', 't', 'l', 'e']) {
        Ok(title_case(value.as_str()))
    } else {
        Err(Error(ErrorKind::UnknownFilter {
            filter_name: String::from_str(filter_name),
            src: named_src.duplicate(),
            span,
        }))
    }
}

/// The outcome of applying the named filters in order: the first unknown name, if any, or the
/// filtered value.
pub open spec fn filters_spec(value: Seq<char>, names: Seq<Seq<char>>) -> Result<Seq<char>, Seq<char>>
    decreases names.len(),
{
    if names.len() == 0 {
        Ok(value)
    } else {
        match filter_spec(value, names[0]) {
            Some(v) => filters_spec(v, names.skip(1)),
            None => Err(names[0]),
        }
    }
}

/// Applies each named filter in order; the first unknown name is an `UnknownFilter` error
/// at `span`.
pub fn apply_filters(value: String, names: &Vec<String>, span: Span, named_src: &SourceText) -> (r: Result<String, Error>)
    ensures
        match filters_spec(value@, strings_view(names@)) {
            Ok(v) => r matches Ok(x) && x@ == v,
            Err(bad) => r matches Err(e) && e.0 matches ErrorKind::UnknownFilter { filter_name: f, src, span: sp }
                && f@ == bad && src@ == named_src@ && sp == span,
        },
{
    let mut v = value;
    let mut i: usize = 0;
    assert(strings_view(names@).skip(0) =~= strings_view(names@));
    while i < names.len()
        invariant
            i <= names@.len(),
            filters_spec(value@, strings_view(names@)) == filters_spec(v@, strings_view(names@).skip(i as int)),
        decreases names.len() - i,
    {
        let ghost rest = strings_view(names@).skip(i as int);
        assert(rest[0] == names@[i as int]@);
        assert(rest.skip(1) =~= strings_view(names@).skip(i + 1));
        v = match apply_filter(v, names[i].as_str(), span, named_src) {
            Ok(x) => x,
            Err(e) => return Err(e),
        };
        i = i + 1;
    }
    assert(strings_view(names@).skip(i as int).len() == 0);
    Ok(v)
}

} // verus!
