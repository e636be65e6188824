//! Parsing of `.include` argument lists, quoted literals and `| filter` chains.
use vstd::prelude::*;
use crate::strmap::{lemma_map_of_push, map_of, StrMap};
use crate::text::{
    chars_of, find_ws, find_ws_exec, is_whitespace, is_ws, lemma_find_ws, lemma_skip_ws, skip_ws,
    skip_ws_exec, string_of_range, trim, trim_range,
};

verus! {

/// The views of a list of strings.
pub open spec fn strings_view(v: Seq<String>) -> Seq<Seq<char>> {
    v.map_values(|x: String| x@)
}

/// Scans a quoted literal's body from `i` (just after the opening quote): the unescaped value,
/// the position just past the closing quote (or `hi` if none), and whether the quote closed.
pub open spec fn quoted_scan(s: Seq<char>, i: int, hi: int, escaped: bool) -> (Seq<char>, int, bool)
    decreases hi - i,
{
    if i < 0 || i >= hi {
        (Seq::empty(), hi, false)
    } else if escaped {
        let r = quoted_scan(s, i + 1, hi, false);
        (seq![s[i]] + r.0, r.1, r.2)
    } else if s[i] == '\\' {
        quoted_scan(s, i + 1, hi, true)
    } else if s[i] == '"' {
        (Seq::empty(), i + 1, true)
    } else {
        let r = quoted_scan(s, i + 1, hi, false);
        (seq![s[i]] + r.0, r.1, r.2)
    }
}

pub proof fn lemma_quoted_scan(s: Seq<char>, i: int, hi: int, escaped: bool)
    requires
        0 <= i <= hi,
    ensures
        i <= quoted_scan(s, i, hi, escaped).1 <= hi,
        quoted_scan(s, i, hi, escaped).0.len() <= hi - i,
        quoted_scan(s, i, hi, escaped).2 ==> i < quoted_scan(s, i, hi, escaped).1,
    decreases hi - i,
{
    if i < hi {
        lemma_quoted_scan(s, i + 1, hi, false);
        lemma_quoted_scan(s, i + 1, hi, true);
    }
}

/// A quoted literal at `s[lo]` (which is `"`): its unescaped value, where the rest starts
/// (after the closing quote and any whitespace; `hi` if the quote never closes), and
/// whether it closed.
pub open spec fn quoted_literal_spec(s: Seq<char>, lo: int, hi: int) -> (Seq<char>, int, bool) {
    let r = quoted_scan(s, lo + 1, hi, false);
    if r.2 {
        (r.0, skip_ws(s, r.1, hi), true)
    } else {
        (r.0, hi, false)
    }
}

pub proof fn lemma_quoted_scan_plain(s: Seq<char>, i: int, m: int, hi: int)
    requires
        0 <= i,
        0 <= m,
        i + m < hi <= s.len(),
        s[i + m] == '"',
        forall|j: int| i <= j < i + m ==> s[j] != '"' && s[j] != '\\',
    ensures
        quoted_scan(s, i, hi, false) == (s.subrange(i, i + m), i + m + 1, true),
    decreases m,
{
    if m > 0 {
        lemma_quoted_scan_plain(s, i + 1, m - 1, hi);
        assert(seq![s[i]] + s.subrange(i + 1, i + m) =~= s.subrange(i, i + m));
    } else {
        assert(s.subrange(i, i) =~= Seq::<char>::empty());
    }
}

/// A quoted literal with no quote or backslash inside reads back as its text, closed, with
/// the rest starting after any whitespace that follows the closing quote.
pub proof fn law_quoted_literal_round_trip(v: Seq<char>, rest: Seq<char>)
    requires
        forall|j: int| 0 <= j < v.len() ==> v[j] != '"' && v[j] != '\\',
    ensures
        ({
            let s = seq!['"'] + v + seq!['"'] + rest;
            quoted_literal_spec(s, 0, s.len() as int) == (v, skip_ws(s, v.len() + 2int, s.len() as int), true)
        }),
{
    let s = seq!['"'] + v + seq!['"'] + rest;
    assert forall|j: int| 1 <= j < 1 + v.len() as int implies s[j] != '"' && s[j] != '\\' by {
        assert(s[j] == v[j - 1]);
    }
    assert(s[1 + v.len() as int] == '"');
    lemma_quoted_scan_plain(s, 1, v.len() as int, s.len() as int);
    assert(s.subrange(1, 1 + v.len() as int) =~= v);
}

/// `v` written inside a quoted literal: a backslash put before each `"` and each `\\`.
pub open spec fn escape_quoted(v: Seq<char>) -> Seq<char>
    decreases v.len(),
{
    if v.len() == 0 {
        Seq::empty()
    } else {
        let c = v[0];
        (if c == '"' || c == '\\' { seq!['\\', c] } else { seq![c] }) + escape_quoted(v.skip(1))
    }
}

proof fn lemma_quoted_scan_escaped(s: Seq<char>, i: int, v: Seq<char>, hi: int)
    requires
        0 <= i,
        i + escape_quoted(v).len() < hi <= s.len(),
        s.subrange(i, i + escape_quoted(v).len()) == escape_quoted(v),
        s[i + escape_quoted(v).len()] == '"',
    ensures
        quoted_scan(s, i, hi, false) == (v, i + escape_quoted(v).len() + 1, true),
    decreases v.len(),
{
    let e = escape_quoted(v);
    if v.len() == 0 {
        assert(v =~= Seq::<char>::empty());
    } else {
        let c = v[0];
        let rest = escape_quoted(v.skip(1));
        let w = if c == '"' || c == '\\' { 2int } else { 1int };
        assert(e.len() == w + rest.len());
        assert(s[i] == e[0]);
        assert(s.subrange(i + w, i + w + rest.len()) =~= rest) by {
            assert forall|j: int| 0 <= j < rest.len() implies s.subrange(i + w, i + w + rest.len())[j] == rest[j] by {
                assert(s[i + w + j] == s.subrange(i, i + e.len())[w + j]);
                assert(e[w + j] == rest[j]);
            }
        }
        lemma_quoted_scan_escaped(s, i + w, v.skip(1), hi);
        let r = quoted_scan(s, i + w, hi, false);
        assert(seq![c] + v.skip(1) =~= v);
        if w == 2 {
            assert(e[0] == '\\' && e[1] == c);
            assert(s[i + 1] == s.subrange(i, i + e.len())[1]);
            assert(s[i] == '\\');
            assert(quoted_scan(s, i + 1, hi, true) == (seq![s[i + 1]] + r.0, r.1, r.2));
            assert(quoted_scan(s, i, hi, false) == quoted_scan(s, i + 1, hi, true));
        } else {
            assert(e[0] == c);
            assert(quoted_scan(s, i, hi, false) == (seq![s[i]] + r.0, r.1, r.2));
        }
    }
}

/// A quoted literal round-trips: `v` written with its quotes and backslashes escaped, between
/// quotes, reads back as `v`, closed, the rest starting after the whitespace that follows; a
/// literal that never closes leaves no rest.
pub proof fn law_quoted_literal_escapes_round_trip(v: Seq<char>, rest: Seq<char>, s2: Seq<char>, lo: int, hi: int)
    ensures
        ({
            let s = seq!['"'] + escape_quoted(v) + seq!['"'] + rest;
            let n = escape_quoted(v).len() as int;
            quoted_literal_spec(s, 0, s.len() as int) == (v, skip_ws(s, n + 2, s.len() as int), true)
        }),
        !quoted_literal_spec(s2, lo, hi).2 ==> quoted_literal_spec(s2, lo, hi).1 == hi,
{
    let e = escape_quoted(v);
    let s = seq!['"'] + e + seq!['"'] + rest;
    let n = e.len() as int;
    assert(s.subrange(1, 1 + n) =~= e);
    assert(s[1 + n] == '"');
    lemma_quoted_scan_escaped(s, 1, v, s.len() as int);
}

/// Parses the quoted literal at `s[lo]` within `s[lo..hi]`.
pub fn quoted_literal_in(s: &Vec<char>, lo: usize, hi: usize) -> (r: (String, usize, bool))
    requires
        lo < hi <= s@.len(),
        s@[lo as int] == '"',
    ensures
        (r.0@, r.1 as int, r.2) == quoted_literal_spec(s@, lo as int, hi as int),
        lo < r.1 <= hi,
        r.0@.len() < hi - lo,
{
    let mut value = String::new();
    let mut i: usize = lo + 1;
    let mut escaped = false;
    let mut closed = false;
    proof {
        lemma_quoted_scan(s@, lo + 1, hi as int, false);
    }
    while i < hi && !closed
        invariant
            lo < i <= hi <= s@.len(),
            !closed ==> ({
                let total = quoted_scan(s@, lo + 1, hi as int, false);
                let part = quoted_scan(s@, i as int, hi as int, escaped);
                total.0 == value@ + part.0 && total.1 == part.1 && total.2 == part.2
            }),
            closed ==> ({
                let total = quoted_scan(s@, lo + 1, hi as int, false);
                total.0 == value@ && total.1 == i && total.2
            }),
            value@.len() <= i - lo - 1,
        decreases hi - i,
    {
        let c = s[i];
        let ghost before = value@;
        if escaped {
            value.push(c);
            escaped = false;
            assert(value@ + quoted_scan(s@, i + 1, hi as int, false).0 =~= before + (seq![c]
                + quoted_scan(s@, i + 1, hi as int, false).0));
        } else if c == '\\' {
            escaped = true;
        } else if c == '"' {
            closed = true;
            assert(value@ =~= value@ + Seq::<char>::empty());
        } else {
            value.push(c);
            assert(value@ + quoted_scan(s@, i + 1, hi as int, false).0 =~= before + (seq![c]
                + quoted_scan(s@, i + 1, hi as int, false).0));
        }
        i = i + 1;
    }
    if closed {
        let rest = skip_ws_exec(s, i, hi);
        proof {
            lemma_skip_ws(s@, i as int, hi as int);
        }
        (value, rest, true)
    } else {
        assert(value@ =~= value@ + Seq::<char>::empty());
        (value, hi, false)
    }
}

/// Parses a quoted literal starting at `s[0] == '"'`, unescaping `\"` and `\\`.
/// Returns the unescaped value, the remainder after the closing quote (whitespace-trimmed at
/// its start; empty if the quote never closed), and whether the quote closed.
pub fn parse_quoted_literal(s: &str) -> (r: (String, String, bool))
    requires
        s@.len() > 0,
        s@[0] == '"',
    ensures
        ({
            let q = quoted_literal_spec(s@, 0, s@.len() as int);
            r.0@ == q.0 && r.1@ == s@.subrange(q.1, s@.len() as int) && r.2 == q.2
        }),
{
    let v = chars_of(s);
    let (value, rest, closed) = quoted_literal_in(&v, 0, v.len());
    (value, string_of_range(&v, rest, v.len()), closed)
}

/// Index of the first whitespace or `|` at or after `i` (or `hi`).
pub open spec fn find_stop(s: Seq<char>, i: int, hi: int) -> int
    decreases hi - i,
{
    if i < hi && !is_ws(s[i]) && s[i] != '|' {
        find_stop(s, i + 1, hi)
    } else {
        i
    }
}

pub proof fn lemma_find_stop(s: Seq<char>, i: int, hi: int)
    requires
        i <= hi,
    ensures
        i <= find_stop(s, i, hi) <= hi,
        forall|k: int| i <= k < find_stop(s, i, hi) ==> !is_ws(#[trigger] s[k]) && s[k] != '|',
        find_stop(s, i, hi) < hi ==> (is_ws(s[find_stop(s, i, hi)]) || s[find_stop(s, i, hi)] == '|'),
    decreases hi - i,
{
    if i < hi && !is_ws(s[i]) && s[i] != '|' {
        lemma_find_stop(s, i + 1, hi);
    }
}

/// First whitespace or `|` in `s[i..hi]`, or `hi`.
pub fn find_stop_exec(s: &Vec<char>, i: usize, hi: usize) -> (k: usize)
    requires
        i <= hi <= s@.len(),
    ensures
        k == find_stop(s@, i as int, hi as int),
{
    let mut k: usize = i;
    while k < hi && !is_whitespace(s[k]) && s[k] != '|'
        invariant
            i <= k <= hi <= s@.len(),
            find_stop(s@, i as int, hi as int) == find_stop(s@, k as int, hi as int),
        decreases hi - k,
    {
        k = k + 1;
    }
    k
}

/// A `| name | name ...` chain read from `i`: the filter names in order (empty names
/// skipped) and where the rest starts (after whitespace).
pub open spec fn filter_chain(s: Seq<char>, i: int, hi: int) -> (Seq<Seq<char>>, int)
    decreases hi - i,
{
    if i < 0 || i > hi {
        (Seq::empty(), i)
    } else {
        let t = skip_ws(s, i, hi);
        if t >= hi || s[t] != '|' {
            (Seq::empty(), t)
        } else {
            let a = skip_ws(s, t + 1, hi);
            let e = find_stop(s, a, hi);
            proof {
                lemma_skip_ws(s, i, hi);
                lemma_skip_ws(s, t + 1, hi);
                lemma_find_stop(s, a, hi);
            }
            let r = filter_chain(s, e, hi);
            if e > a {
                (seq![s.subrange(a, e)] + r.0, r.1)
            } else {
                r
            }
        }
    }
}

pub proof fn lemma_filter_chain(s: Seq<char>, i: int, hi: int)
    requires
        0 <= i <= hi <= s.len(),
    ensures
        i <= filter_chain(s, i, hi).1 <= hi,
        (skip_ws(s, i, hi) < hi && s[skip_ws(s, i, hi)] == '|') ==> i < filter_chain(s, i, hi).1,
        forall|k: int| 0 <= k < filter_chain(s, i, hi).0.len() ==> #[trigger] filter_chain(s, i, hi).0[k].len() <= hi - i,
    decreases hi - i,
{
    lemma_skip_ws(s, i, hi);
    let t = skip_ws(s, i, hi);
    if t < hi && s[t] == '|' {
        lemma_skip_ws(s, t + 1, hi);
        let a = skip_ws(s, t + 1, hi);
        lemma_find_stop(s, a, hi);
        let e = find_stop(s, a, hi);
        lemma_filter_chain(s, e, hi);
        let r = filter_chain(s, e, hi);
        if e > a {
            assert(filter_chain(s, i, hi).0 == seq![s.subrange(a, e)] + r.0);
            assert forall|k: int| 0 <= k < filter_chain(s, i, hi).0.len() implies #[trigger] filter_chain(s, i, hi).0[k].len() <= hi - i by {
                if k > 0 {
                    assert(filter_chain(s, i, hi).0[k] == r.0[k - 1]);
                    assert(0 <= k - 1 < r.0.len());
                    assert(r.0[k - 1].len() <= hi - e);
                    assert(e <= hi);
                    assert(i <= e);
                } else {
                    assert(filter_chain(s, i, hi).0[k] == s.subrange(a, e));
                }
            }
        }
    }
}

/// Reads a `| filter` chain from `s[i..hi]`.
pub fn filter_chain_in(s: &Vec<char>, i: usize, hi: usize) -> (r: (Vec<String>, usize))
    requires
        i <= hi <= s@.len(),
    ensures
        strings_view(r.0@) == filter_chain(s@, i as int, hi as int).0,
        r.1 as int == filter_chain(s@, i as int, hi as int).1,
        i <= r.1 <= hi,
{
    let mut filters: Vec<String> = Vec::new();
    let mut k: usize = i;
    proof {
        lemma_filter_chain(s@, i as int, hi as int);
    }
    loop
        invariant
            i <= k <= hi <= s@.len(),
            filter_chain(s@, i as int, hi as int).0 == strings_view(filters@) + filter_chain(s@, k as int, hi as int).0,
            filter_chain(s@, i as int, hi as int).1 == filter_chain(s@, k as int, hi as int).1,
        decreases hi - k,
    {
        let t = skip_ws_exec(s, k, hi);
        proof {
            lemma_skip_ws(s@, k as int, hi as int);
        }
        if t >= hi || s[t] != '|' {
            assert(strings_view(filters@) =~= strings_view(filters@) + Seq::<Seq<char>>::empty());
            return (filters, t);
        }
        let a = skip_ws_exec(s, t + 1, hi);
        proof {
            lemma_skip_ws(s@, t + 1, hi as int);
        }
        let e = find_stop_exec(s, a, hi);
        proof {
            lemma_find_stop(s@, a as int, hi as int);
        }
        let ghost before = strings_view(filters@);
        if e > a {
            filters.push(string_of_range(s, a, e));
            assert(strings_view(filters@) =~= before.push(s@.subrange(a as int, e as int)));
            assert(before + filter_chain(s@, k as int, hi as int).0 =~= strings_view(filters@) + filter_chain(s@, e as int, hi as int).0);
        }
        k = e;
    }
}

/// The name `f` is a filter name as a chain holds it: not empty, with no whitespace or `|`.
pub open spec fn filter_name_shape(f: Seq<char>) -> bool {
    f.len() > 0 && forall|k: int| 0 <= k < f.len() ==> !is_ws(#[trigger] f[k]) && f[k] != '|'
}

/// The structure of a filter chain read from `s[i..hi]`: every name is a non-empty run with no
/// whitespace or `|`; what remains starts with neither whitespace nor `|`; and text that does
/// not start (after whitespace) with `|` holds no chain, the rest starting after the whitespace.
pub proof fn law_filter_chain_structure(s: Seq<char>, i: int, hi: int)
    requires
        0 <= i <= hi <= s.len(),
    ensures
        i <= filter_chain(s, i, hi).1 <= hi,
        filter_chain(s, i, hi).1 < hi ==> !is_ws(s[filter_chain(s, i, hi).1]) && s[filter_chain(s, i, hi).1] != '|',
        forall|j: int| 0 <= j < filter_chain(s, i, hi).0.len() ==> filter_name_shape(#[trigger] filter_chain(s, i, hi).0[j]),
        (skip_ws(s, i, hi) >= hi || s[skip_ws(s, i, hi)] != '|') ==> filter_chain(s, i, hi).0.len() == 0
            && filter_chain(s, i, hi).1 == skip_ws(s, i, hi),
    decreases hi - i,
{
    lemma_skip_ws(s, i, hi);
    lemma_filter_chain(s, i, hi);
    let t = skip_ws(s, i, hi);
    if t < hi && s[t] == '|' {
        lemma_skip_ws(s, t + 1, hi);
        let a = skip_ws(s, t + 1, hi);
        lemma_find_stop(s, a, hi);
        let e = find_stop(s, a, hi);
        law_filter_chain_structure(s, e, hi);
        let r = filter_chain(s, e, hi);
        if e > a {
            let f = s.subrange(a, e);
            assert(filter_name_shape(f)) by {
                assert forall|k: int| 0 <= k < f.len() implies !is_ws(#[trigger] f[k]) && f[k] != '|' by {
                    assert(f[k] == s[a + k]);
                }
            }
            assert(filter_chain(s, i, hi).0 == seq![f] + r.0);
            assert forall|j: int| 0 <= j < filter_chain(s, i, hi).0.len() implies filter_name_shape(#[trigger] filter_chain(s, i, hi).0[j]) by {
                if j > 0 {
                    assert(filter_chain(s, i, hi).0[j] == r.0[j - 1]);
                }
            }
        }
    }
}

/// Reads a `| filter_name` chain (e.g. `| upper | trim`) from the start of `s`, tolerating
/// whitespace around each `|`. Returns the filter names in order and the remainder of `s`
/// after the last filter, with leading whitespace removed.
pub fn parse_filter_chain(s: &str) -> (r: (Vec<String>, String))
    ensures
        strings_view(r.0@) == filter_chain(s@, 0, s@.len() as int).0,
        r.1@ == s@.subrange(filter_chain(s@, 0, s@.len() as int).1, s@.len() as int),
{
    let v = chars_of(s);
    let (filters, rest) = filter_chain_in(&v, 0, v.len());
    (filters, string_of_range(&v, rest, v.len()))
}

/// An include argument, as its mathematical value.
pub enum ArgumentModel {
    Literal(Seq<char>, Seq<Seq<char>>),
    Variable(Seq<char>, Seq<Seq<char>>),
}

/// One include argument.
#[derive(Debug, PartialEq, Eq, Clone)]
pub enum Argument {
    /// A quoted literal value, plus any `| filter` chain applied to it.
    Literal(String, Vec<String>),
    /// A variable reference resolved from the caller's scope, plus any `| filter` chain.
    Variable(String, Vec<String>),
}

impl View for Argument {
    type V = ArgumentModel;

    open spec fn view(&self) -> ArgumentModel {
        match self {
            Argument::Literal(v, f) => ArgumentModel::Literal(v@, strings_view(f@)),
            Argument::Variable(v, f) => ArgumentModel::Variable(v@, strings_view(f@)),
        }
    }
}

/// Index of the first `=` in `s[i..hi]`, or `hi`.
pub open spec fn find_eq(s: Seq<char>, i: int, hi: int) -> int
    decreases hi - i,
{
    if i < hi && s[i] != '=' {
        find_eq(s, i + 1, hi)
    } else {
        i
    }
}

pub proof fn lemma_find_eq(s: Seq<char>, i: int, hi: int)
    requires
        i <= hi,
    ensures
        i <= find_eq(s, i, hi) <= hi,
        find_eq(s, i, hi) < hi ==> s[find_eq(s, i, hi)] == '=',
    decreases hi - i,
{
    if i < hi && s[i] != '=' {
        lemma_find_eq(s, i + 1, hi);
    }
}

fn find_eq_exec(s: &Vec<char>, i: usize, hi: usize) -> (k: usize)
    requires
        i <= hi <= s@.len(),
    ensures
        k == find_eq(s@, i as int, hi as int),
{
    let mut k: usize = i;
    while k < hi && s[k] != '='
        invariant
            i <= k <= hi <= s@.len(),
            find_eq(s@, i as int, hi as int) == find_eq(s@, k as int, hi as int),
        decreases hi - k,
    {
        k = k + 1;
    }
    k
}

/// The next argument starting in `s[t..hi]` (where `t` is not whitespace): its key, its
/// value, and where the rest starts.
pub open spec fn next_arg(s: Seq<char>, t: int, hi: int) -> (Seq<char>, ArgumentModel, int) {
    let w = find_ws(s, t, hi);
    let e = find_eq(s, t, hi);
    if e >= hi || (w < hi && w < e) {
        // A bareword `name` is shorthand for `name=name`.
        let end = find_stop(s, t, hi);
        let fc = filter_chain(s, end, hi);
        (s.subrange(t, end), ArgumentModel::Variable(s.subrange(t, end), fc.0), fc.1)
    } else {
        let key = trim(s.subrange(t, e));
        let v = skip_ws(s, e + 1, hi);
        if v < hi && s[v] == '"' {
            let q = quoted_literal_spec(s, v, hi);
            let fc = filter_chain(s, q.1, hi);
            (key, ArgumentModel::Literal(q.0, fc.0), fc.1)
        } else {
            let end = find_stop(s, v, hi);
            let fc = filter_chain(s, end, hi);
            (key, ArgumentModel::Variable(s.subrange(v, end), fc.0), fc.1)
        }
    }
}

pub proof fn lemma_next_arg(s: Seq<char>, t: int, hi: int)
    requires
        0 <= t < hi <= s.len(),
        !is_ws(s[t]),
    ensures
        t < next_arg(s, t, hi).2 <= hi,
{
    lemma_find_ws(s, t, hi);
    lemma_find_eq(s, t, hi);
    let w = find_ws(s, t, hi);
    let e = find_eq(s, t, hi);
    if e >= hi || (w < hi && w < e) {
        lemma_find_stop(s, t, hi);
        let end = find_stop(s, t, hi);
        lemma_filter_chain(s, end, hi);
        if end == t {
            lemma_skip_ws(s, end, hi);
        }
    } else {
        lemma_skip_ws(s, e + 1, hi);
        let v = skip_ws(s, e + 1, hi);
        if v < hi && s[v] == '"' {
            lemma_quoted_scan(s, v + 1, hi, false);
            lemma_skip_ws(s, quoted_scan(s, v + 1, hi, false).1, hi);
            lemma_filter_chain(s, quoted_literal_spec(s, v, hi).1, hi);
        } else {
            lemma_find_stop(s, v, hi);
            lemma_filter_chain(s, find_stop(s, v, hi), hi);
        }
    }
}

/// The arguments read from `s[i..hi]`, in order, as (key, value) insertions.
pub open spec fn args_spec(s: Seq<char>, i: int, hi: int) -> Seq<(Seq<char>, ArgumentModel)>
    decreases hi - i,
{
    if i < 0 || hi > s.len() {
        Seq::empty()
    } else {
        let t = skip_ws(s, i, hi);
        if t >= hi || t < i {
            Seq::empty()
        } else {
            proof {
                lemma_skip_ws(s, i, hi);
                lemma_next_arg(s, t, hi);
            }
            let a = next_arg(s, t, hi);
            seq![(a.0, a.1)] + args_spec(s, a.2, hi)
        }
    }
}

fn next_arg_in(s: &Vec<char>, t: usize, hi: usize) -> (r: (String, Argument, usize))
    requires
        t < hi <= s@.len(),
        !is_ws(s@[t as int]),
    ensures
        (r.0@, r.1@, r.2 as int) == next_arg(s@, t as int, hi as int),
        t < r.2 <= hi,
{
    proof {
        lemma_next_arg(s@, t as int, hi as int);
        lemma_find_ws(s@, t as int, hi as int);
        lemma_find_eq(s@, t as int, hi as int);
    }
    let w = find_ws_exec(s, t, hi);
    let e = find_eq_exec(s, t, hi);
    if e >= hi || (w < hi && w < e) {
        let end = find_stop_exec(s, t, hi);
        proof {
            lemma_find_stop(s@, t as int, hi as int);
        }
        let (filters, rest) = filter_chain_in(s, end, hi);
        let name = string_of_range(s, t, end);
        let key = string_of_range(s, t, end);
        (key, Argument::Variable(name, filters), rest)
    } else {
        let (ki, kj) = trim_range(s, t, e);
        let key = string_of_range(s, ki, kj);
        let v = skip_ws_exec(s, e + 1, hi);
        proof {
            lemma_skip_ws(s@, e + 1, hi as int);
        }
        if v < hi && s[v] == '"' {
            let (value, r1, _closed) = quoted_literal_in(s, v, hi);
            let (filters, rest) = filter_chain_in(s, r1, hi);
            (key, Argument::Literal(value, filters), rest)
        } else {
            let end = find_stop_exec(s, v, hi);
            proof {
                lemma_find_stop(s@, v as int, hi as int);
            }
            let (filters, rest) = filter_chain_in(s, end, hi);
            (key, Argument::Variable(string_of_range(s, v, end), filters), rest)
        }
    }
}

/// Parses the arguments in `s[lo..hi]` into a map from keys to arguments.
pub fn args_in(s: &Vec<char>, lo: usize, hi: usize) -> (r: StrMap<Argument>)
    requires
        lo <= hi <= s@.len(),
    ensures
        r@ == map_of(args_spec(s@, lo as int, hi as int)),
{
    let mut args: StrMap<Argument> = StrMap::new();
    let mut i: usize = lo;
    let ghost done: Seq<(Seq<char>, ArgumentModel)> = Seq::empty();
    proof {
        args.lemma_view();
    }
    loop
        invariant
            lo <= i <= hi <= s@.len(),
            args@ == map_of(done),
            args_spec(s@, lo as int, hi as int) == done + args_spec(s@, i as int, hi as int),
        decreases hi - i,
    {
        let t = skip_ws_exec(s, i, hi);
        proof {
            lemma_skip_ws(s@, i as int, hi as int);
        }
        if t >= hi {
            assert(done =~= done + args_spec(s@, i as int, hi as int));
            return args;
        }
        let (key, arg, rest) = next_arg_in(s, t, hi);
        let ghost p = (key@, arg@);
        args.insert(key, arg);
        proof {
            lemma_map_of_push(done, p.0, p.1);
            assert(done + args_spec(s@, i as int, hi as int) =~= done.push(p) + args_spec(s@, rest as int, hi as int));
            done = done.push(p);
        }
        i = rest;
    }
}

/// The views of a list of parsed arguments.
pub open spec fn arg_list_view(v: Seq<(String, Argument)>) -> Seq<(Seq<char>, ArgumentModel)> {
    v.map_values(|p: (String, Argument)| (p.0@, p.1@))
}

/// The arguments in `s`, in the order they are written, repeated keys included.
pub fn parse_args_list(s: &str) -> (r: Vec<(String, Argument)>)
    ensures
        arg_list_view(r@) == args_spec(s@, 0, s@.len() as int),
{
    let v = chars_of(s);
    let hi = v.len();
    let mut out: Vec<(String, Argument)> = Vec::new();
    let mut i: usize = 0;
    loop
        invariant
            i <= hi == v@.len(),
            v@ == s@,
            args_spec(v@, 0, hi as int) == arg_list_view(out@) + args_spec(v@, i as int, hi as int),
        decreases hi - i,
    {
        let t = skip_ws_exec(&v, i, hi);
        proof {
            lemma_skip_ws(v@, i as int, hi as int);
        }
        if t >= hi {
            assert(arg_list_view(out@) =~= arg_list_view(out@) + args_spec(v@, i as int, hi as int));
            return out;
        }
        let (key, arg, rest) = next_arg_in(&v, t, hi);
        let ghost p = (key@, arg@);
        let ghost before = out@;
        out.push((key, arg));
        proof {
            assert(arg_list_view(out@) =~= arg_list_view(before).push(p));
            assert(arg_list_view(before) + args_spec(v@, i as int, hi as int) =~= arg_list_view(out@) + args_spec(v@, rest as int, hi as int));
        }
        i = rest;
    }
}

/// Parses an argument string such as `title="Hi" count=my_count flag | upper` into a map
/// from keys to arguments. A later argument with the same key replaces an earlier one.
///
/// A bareword token with no `=` before the next whitespace (e.g. `my_var`) is shorthand for
/// `my_var=my_var`. Any value may be followed by a `| filter` chain.
pub fn parse_args(s: &str) -> (r: StrMap<Argument>)
    ensures
        r@ == map_of(args_spec(s@, 0, s@.len() as int)),
{
    let v = chars_of(s);
    args_in(&v, 0, v.len())
}

/// A word that a bareword argument can be: non-empty, with no whitespace, `=`, `|` or `"`.
pub open spec fn plain_word(w: Seq<char>) -> bool {
    &&& w.len() > 0
    &&& forall|k: int| 0 <= k < w.len() ==> !is_ws(#[trigger] w[k]) && w[k] != '=' && w[k] != '|' && w[k] != '"'
}

pub proof fn lemma_find_ws_none(s: Seq<char>, i: int, hi: int)
    requires
        0 <= i <= hi <= s.len(),
        forall|k: int| i <= k < hi ==> !is_ws(#[trigger] s[k]),
    ensures
        find_ws(s, i, hi) == hi,
    decreases hi - i,
{
    if i < hi {
        lemma_find_ws_none(s, i + 1, hi);
    }
}

proof fn lemma_find_stop_none(s: Seq<char>, i: int, hi: int)
    requires
        0 <= i <= hi <= s.len(),
        forall|k: int| i <= k < hi ==> !is_ws(#[trigger] s[k]) && s[k] != '|',
    ensures
        find_stop(s, i, hi) == hi,
    decreases hi - i,
{
    if i < hi {
        lemma_find_stop_none(s, i + 1, hi);
    }
}

proof fn lemma_find_eq_at(s: Seq<char>, i: int, m: int, hi: int)
    requires
        0 <= i <= m <= hi <= s.len(),
        forall|k: int| i <= k < m ==> #[trigger] s[k] != '=',
        m < hi ==> s[m] == '=',
    ensures
        find_eq(s, i, hi) == m,
    decreases m - i,
{
    if i < m {
        lemma_find_eq_at(s, i + 1, m, hi);
    }
}

/// A bareword argument `name` is shorthand for `name=name`: both read as the variable
/// `name` passed under the key `name`.
pub proof fn law_bareword_is_shorthand(w: Seq<char>)
    requires
        plain_word(w),
    ensures
        args_spec(w, 0, w.len() as int) == args_spec(w + seq!['='] + w, 0, 2 * w.len() + 1int),
        args_spec(w, 0, w.len() as int) == seq![(w, ArgumentModel::Variable(w, Seq::empty()))],
{
    let n = w.len() as int;
    // The bareword alone.
    lemma_find_ws_none(w, 0, n);
    lemma_find_eq_at(w, 0, n, n);
    lemma_find_stop_none(w, 0, n);
    assert(skip_ws(w, 0, n) == 0);
    assert(filter_chain(w, n, n) == (Seq::<Seq<char>>::empty(), n));
    assert(w.subrange(0, n) =~= w);
    assert(args_spec(w, n, n) == Seq::<(Seq<char>, ArgumentModel)>::empty());
    assert(next_arg(w, 0, n) == (w, ArgumentModel::Variable(w, Seq::empty()), n));
    assert(args_spec(w, 0, n) =~= seq![(w, ArgumentModel::Variable(w, Seq::empty()))]);
    // The explicit `name=name`.
    let s = w + seq!['='] + w;
    let hi = 2 * n + 1;
    assert forall|k: int| 0 <= k < hi implies !is_ws(#[trigger] s[k]) by {
        if k < n {
            assert(s[k] == w[k]);
        } else if k > n {
            assert(s[k] == w[k - n - 1]);
        }
    }
    assert forall|k: int| n + 1 <= k < hi implies !is_ws(#[trigger] s[k]) && s[k] != '|' by {
        assert(s[k] == w[k - n - 1]);
    }
    assert forall|k: int| 0 <= k < n implies #[trigger] s[k] != '=' by {
        assert(s[k] == w[k]);
    }
    lemma_find_ws_none(s, 0, hi);
    lemma_find_eq_at(s, 0, n, hi);
    lemma_find_stop_none(s, n + 1, hi);
    assert(skip_ws(s, 0, hi) == 0);
    assert(s[n + 1] == w[0]);
    assert(skip_ws(s, n + 1, hi) == n + 1);
    let key = s.subrange(0, n);
    assert(key =~= w);
    assert(key[0] == w[0] && key[n - 1] == w[n - 1]);
    assert(skip_ws(key, 0, n) == 0);
    assert(crate::text::back_ws(key, 0, n) == n);
    assert(trim(key) =~= w);
    assert(s.subrange(n + 1, hi) =~= w);
    assert(filter_chain(s, hi, hi) == (Seq::<Seq<char>>::empty(), hi));
    assert(args_spec(s, hi, hi) == Seq::<(Seq<char>, ArgumentModel)>::empty());
    assert(next_arg(s, 0, hi) == (w, ArgumentModel::Variable(w, Seq::empty()), hi));
    assert(args_spec(s, 0, hi) =~= seq![(w, ArgumentModel::Variable(w, Seq::empty()))]);
}

proof fn lemma_find_stop_at(s: Seq<char>, i: int, e: int, hi: int)
    requires
        0 <= i <= e < hi <= s.len(),
        forall|k: int| i <= k < e ==> !is_ws(#[trigger] s[k]) && s[k] != '|',
        is_ws(s[e]),
    ensures
        find_stop(s, i, hi) == e,
        find_ws(s, i, hi) == e,
    decreases e - i,
{
    if i < e {
        lemma_find_stop_at(s, i + 1, e, hi);
    }
}

/// Two plain words separated by a space pass two arguments, each the variable of that name
/// under its own name, in order.
pub proof fn law_two_bareword_arguments(w1: Seq<char>, w2: Seq<char>)
    requires
        plain_word(w1),
        plain_word(w2),
    ensures
        ({
            let s = w1 + seq![' '] + w2;
            args_spec(s, 0, s.len() as int) == seq![
                (w1, ArgumentModel::Variable(w1, Seq::empty())),
                (w2, ArgumentModel::Variable(w2, Seq::empty())),
            ]
        }),
{
    let n = w1.len() as int;
    let m = w2.len() as int;
    let s = w1 + seq![' '] + w2;
    let hi = n + m + 1;
    assert(s[n] == ' ');
    assert forall|k: int| 0 <= k < hi && k != n implies !is_ws(#[trigger] s[k]) && s[k] != '|' && s[k] != '=' by {
        if k < n {
            assert(s[k] == w1[k]);
        } else {
            assert(s[k] == w2[k - n - 1]);
        }
    }
    lemma_find_stop_at(s, 0, n, hi);
    lemma_find_eq_at(s, 0, hi, hi);
    assert(skip_ws(s, 0, hi) == 0);
    assert(skip_ws(s, n + 1, hi) == n + 1);
    assert(skip_ws(s, n, hi) == n + 1);
    assert(filter_chain(s, n, hi) == (Seq::<Seq<char>>::empty(), n + 1));
    assert(s.subrange(0, n) =~= w1);
    assert(next_arg(s, 0, hi) == (w1, ArgumentModel::Variable(w1, Seq::empty()), n + 1));
    lemma_find_ws_none(s, n + 1, hi);
    lemma_find_eq_at(s, n + 1, hi, hi);
    lemma_find_stop_none(s, n + 1, hi);
    assert(filter_chain(s, hi, hi) == (Seq::<Seq<char>>::empty(), hi));
    assert(s.subrange(n + 1, hi) =~= w2);
    assert(next_arg(s, n + 1, hi) == (w2, ArgumentModel::Variable(w2, Seq::empty()), hi));
    assert(args_spec(s, hi, hi) == Seq::<(Seq<char>, ArgumentModel)>::empty());
    assert(args_spec(s, n + 1, hi) =~= seq![(w2, ArgumentModel::Variable(w2, Seq::empty()))]);
    assert(args_spec(s, 0, hi) =~= seq![
        (w1, ArgumentModel::Variable(w1, Seq::empty())),
        (w2, ArgumentModel::Variable(w2, Seq::empty())),
    ]);
}

proof fn lemma_find_stop_before(s: Seq<char>, i: int, e: int, hi: int)
    requires
        0 <= i <= e < hi <= s.len(),
        forall|k: int| i <= k < e ==> !is_ws(#[trigger] s[k]) && s[k] != '|',
        is_ws(s[e]) || s[e] == '|',
    ensures
        find_stop(s, i, hi) == e,
    decreases e - i,
{
    if i < e {
        lemma_find_stop_before(s, i + 1, e, hi);
    }
}

proof fn lemma_plain_word_trimmed(w: Seq<char>)
    requires
        plain_word(w),
    ensures
        trim(w) == w,
{
    let n = w.len() as int;
    assert(skip_ws(w, 0, n) == 0);
    assert(crate::text::back_ws(w, 0, n) == n);
    assert(w.subrange(0, n) =~= w);
}

/// The forms of an include argument: `n|f` passes the variable `n` through the filter `f`
/// under the name `n`; `k=n` passes the variable `n` under `k`; `k="v"` passes the literal
/// `v` under `k`.
pub proof fn law_argument_forms(k: Seq<char>, n: Seq<char>, f: Seq<char>, v: Seq<char>)
    requires
        plain_word(k),
        plain_word(n),
        plain_word(f),
        forall|j: int| 0 <= j < v.len() ==> #[trigger] v[j] != '"' && v[j] != '\\',
    ensures
        ({
            let s = n + seq!['|'] + f;
            args_spec(s, 0, s.len() as int) == seq![(n, ArgumentModel::Variable(n, seq![f]))]
        }),
        ({
            let s = k + seq!['='] + n;
            args_spec(s, 0, s.len() as int) == seq![(k, ArgumentModel::Variable(n, Seq::empty()))]
        }),
        ({
            let s = k + seq!['=', '"'] + v + seq!['"'];
            args_spec(s, 0, s.len() as int) == seq![(k, ArgumentModel::Literal(v, Seq::empty()))]
        }),
{
    lemma_plain_word_trimmed(k);
    let ln = n.len() as int;
    let lk = k.len() as int;
    let lf = f.len() as int;
    // n|f
    let s1 = n + seq!['|'] + f;
    let h1 = ln + lf + 1;
    assert forall|j: int| 0 <= j < h1 && j != ln implies !is_ws(#[trigger] s1[j]) && s1[j] != '|' && s1[j] != '=' by {
        if j < ln {
            assert(s1[j] == n[j]);
        } else {
            assert(s1[j] == f[j - ln - 1]);
        }
    }
    assert(s1[ln] == '|');
    lemma_find_ws_none(s1, 0, h1);
    lemma_find_eq_at(s1, 0, h1, h1);
    lemma_find_stop_before(s1, 0, ln, h1);
    lemma_find_stop_none(s1, ln + 1, h1);
    assert(skip_ws(s1, 0, h1) == 0);
    assert(skip_ws(s1, ln, h1) == ln);
    assert(s1[ln + 1] == f[0]);
    assert(skip_ws(s1, ln + 1, h1) == ln + 1);
    assert(filter_chain(s1, h1, h1) == (Seq::<Seq<char>>::empty(), h1));
    assert(s1.subrange(ln + 1, h1) =~= f);
    assert(filter_chain(s1, ln, h1) == (seq![f], h1)) by {
        assert(seq![f] + Seq::<Seq<char>>::empty() =~= seq![f]);
    }
    assert(s1.subrange(0, ln) =~= n);
    assert(next_arg(s1, 0, h1) == (n, ArgumentModel::Variable(n, seq![f]), h1));
    assert(args_spec(s1, h1, h1) == Seq::<(Seq<char>, ArgumentModel)>::empty());
    assert(args_spec(s1, 0, h1) =~= seq![(n, ArgumentModel::Variable(n, seq![f]))]);
    // k=n
    let s2 = k + seq!['='] + n;
    let h2 = lk + ln + 1;
    assert forall|j: int| 0 <= j < h2 && j != lk implies !is_ws(#[trigger] s2[j]) && s2[j] != '|' && s2[j] != '=' by {
        if j < lk {
            assert(s2[j] == k[j]);
        } else {
            assert(s2[j] == n[j - lk - 1]);
        }
    }
    assert(s2[lk] == '=');
    lemma_find_ws_none(s2, 0, h2);
    lemma_find_eq_at(s2, 0, lk, h2);
    lemma_find_stop_none(s2, lk + 1, h2);
    assert(s2.subrange(0, lk) =~= k);
    assert(s2[lk + 1] == n[0]);
    assert(skip_ws(s2, 0, h2) == 0);
    assert(skip_ws(s2, lk + 1, h2) == lk + 1);
    assert(filter_chain(s2, h2, h2) == (Seq::<Seq<char>>::empty(), h2));
    assert(s2.subrange(lk + 1, h2) =~= n);
    assert(next_arg(s2, 0, h2) == (k, ArgumentModel::Variable(n, Seq::empty()), h2));
    assert(args_spec(s2, h2, h2) == Seq::<(Seq<char>, ArgumentModel)>::empty());
    assert(args_spec(s2, 0, h2) =~= seq![(k, ArgumentModel::Variable(n, Seq::empty()))]);
    // k="v"
    let s3 = k + seq!['=', '"'] + v + seq!['"'];
    let lv = v.len() as int;
    let h3 = lk + lv + 3;
    assert forall|j: int| 0 <= j < lk implies !is_ws(#[trigger] s3[j]) && s3[j] != '=' by {
        assert(s3[j] == k[j]);
    }
    assert(s3[lk] == '=' && s3[lk + 1] == '"' && s3[h3 - 1] == '"');
    assert forall|j: int| lk + 2 <= j < lk + 2 + lv implies s3[j] != '"' && s3[j] != '\\' by {
        assert(s3[j] == v[j - lk - 2]);
    }
    crate::text::lemma_find_ws(s3, 0, h3);
    let w3 = find_ws(s3, 0, h3);
    if w3 <= lk {
        assert(!is_ws(s3[w3]));
    }
    lemma_find_eq_at(s3, 0, lk, h3);
    assert(s3.subrange(0, lk) =~= k);
    assert(skip_ws(s3, 0, h3) == 0);
    assert(skip_ws(s3, lk + 1, h3) == lk + 1);
    lemma_quoted_scan_plain(s3, lk + 2, lv, h3);
    assert(s3.subrange(lk + 2, lk + 2 + lv) =~= v);
    assert(skip_ws(s3, h3, h3) == h3);
    assert(quoted_literal_spec(s3, lk + 1, h3) == (v, h3, true));
    assert(filter_chain(s3, h3, h3) == (Seq::<Seq<char>>::empty(), h3));
    assert(next_arg(s3, 0, h3) == (k, ArgumentModel::Literal(v, Seq::empty()), h3));
    assert(args_spec(s3, h3, h3) == Seq::<(Seq<char>, ArgumentModel)>::empty());
    assert(args_spec(s3, 0, h3) =~= seq![(k, ArgumentModel::Literal(v, Seq::empty()))]);
}

/// One include argument without filters, as written: a bareword `n`, a pair `k=n`, or a
/// quoted pair `k="v"`.
pub enum ArgForm {
    Word(Seq<char>),
    Pair(Seq<char>, Seq<char>),
    Quoted(Seq<char>, Seq<char>),
}

/// The words of the form are plain words, and a quoted value holds no quote or backslash.
pub open spec fn arg_form_ok(f: ArgForm) -> bool {
    match f {
        ArgForm::Word(n) => plain_word(n),
        ArgForm::Pair(k, n) => plain_word(k) && plain_word(n),
        ArgForm::Quoted(k, v) => plain_word(k) && forall|j: int| 0 <= j < v.len() ==> #[trigger] v[j] != '"' && v[j] != '\\',
    }
}

/// The text of an argument form.
pub open spec fn arg_text(f: ArgForm) -> Seq<char> {
    match f {
        ArgForm::Word(n) => n,
        ArgForm::Pair(k, n) => k + seq!['='] + n,
        ArgForm::Quoted(k, v) => k + seq!['=', '"'] + v + seq!['"'],
    }
}

/// The name and argument an argument form passes.
pub open spec fn arg_entry(f: ArgForm) -> (Seq<char>, ArgumentModel) {
    match f {
        ArgForm::Word(n) => (n, ArgumentModel::Variable(n, Seq::empty())),
        ArgForm::Pair(k, n) => (k, ArgumentModel::Variable(n, Seq::empty())),
        ArgForm::Quoted(k, v) => (k, ArgumentModel::Literal(v, Seq::empty())),
    }
}

proof fn lemma_find_eq_past(s: Seq<char>, i: int, m: int, hi: int)
    requires
        0 <= i <= m <= hi <= s.len(),
        forall|j: int| i <= j < m ==> #[trigger] s[j] != '=',
    ensures
        m <= find_eq(s, i, hi) <= hi,
    decreases m - i,
{
    lemma_find_eq(s, i, hi);
    if i < m {
        lemma_find_eq_past(s, i + 1, m, hi);
    }
}

/// An argument form written at `s[i..]`, followed by whitespace or the end and then by no
/// `|`, reads as its entry, the next argument starting after the whitespace.
proof fn lemma_one_argument(s: Seq<char>, i: int, hi: int, f: ArgForm)
    requires
        arg_form_ok(f),
        0 <= i,
        i + arg_text(f).len() <= hi <= s.len(),
        s.subrange(i, i + arg_text(f).len()) == arg_text(f),
        i + arg_text(f).len() == hi || is_ws(s[i + arg_text(f).len()]),
        skip_ws(s, i + arg_text(f).len(), hi) >= hi || s[skip_ws(s, i + arg_text(f).len(), hi)] != '|',
    ensures
        args_spec(s, i, hi) == seq![arg_entry(f)] + args_spec(s, skip_ws(s, i + arg_text(f).len(), hi), hi),
        i < skip_ws(s, i + arg_text(f).len(), hi),
{
    let x = arg_text(f);
    let e = i + x.len();
    assert forall|j: int| 0 <= j < x.len() implies s[i + j] == x[j] by {
        assert(s.subrange(i, e)[j] == s[i + j]);
    }
    lemma_skip_ws(s, e, hi);
    let p = skip_ws(s, e, hi);
    assert(skip_ws(s, p, hi) == p);
    assert(filter_chain(s, e, hi) == (Seq::<Seq<char>>::empty(), p));
    assert(filter_chain(s, p, hi) == (Seq::<Seq<char>>::empty(), p));
    match f {
        ArgForm::Word(n) => {
            assert(s[i] == n[0]);
            assert forall|j: int| i <= j < e implies !is_ws(#[trigger] s[j]) && s[j] != '|' && s[j] != '=' by {
                assert(s[j] == n[j - i]);
            }
            if e < hi {
                lemma_find_stop_at(s, i, e, hi);
            } else {
                lemma_find_ws_none(s, i, hi);
                lemma_find_stop_none(s, i, hi);
            }
            lemma_find_eq_past(s, i, e, hi);
            if e < hi {
                lemma_find_eq_past(s, i, e + 1, hi);
            }
            assert(s.subrange(i, e) =~= n);
        },
        ArgForm::Pair(k, n) => {
            let lk = k.len() as int;
            assert(s[i + 0] == x[0]);
            assert(x[0] == k[0]);
            assert(s[i + lk] == x[lk]);
            assert(x[lk] == '=');
            assert forall|j: int| i <= j < i + lk implies !is_ws(#[trigger] s[j]) && s[j] != '=' by {
                assert(s[i + (j - i)] == x[j - i]);
                assert(x[j - i] == k[j - i]);
            }
            assert forall|j: int| i + lk + 1 <= j < e implies !is_ws(#[trigger] s[j]) && s[j] != '|' by {
                assert(s[i + (j - i)] == x[j - i]);
                assert(x[j - i] == n[j - i - lk - 1]);
            }
            lemma_find_eq_at(s, i, i + lk, hi);
            crate::text::lemma_find_ws(s, i, hi);
            let w = find_ws(s, i, hi);
            if w < e {
                assert(!is_ws(s[w]));
            }
            assert(s[i + (lk + 1)] == x[lk + 1]);
            assert(x[lk + 1] == n[0]);
            if e < hi {
                lemma_find_stop_at(s, i + lk + 1, e, hi);
            } else {
                lemma_find_stop_none(s, i + lk + 1, hi);
            }
            assert forall|m: int| 0 <= m < lk implies s.subrange(i, i + lk)[m] == k[m] by {
                assert(s[i + m] == x[m]);
            }
            assert(s.subrange(i, i + lk) =~= k);
            lemma_plain_word_trimmed(k);
            assert forall|m: int| 0 <= m < n.len() implies s.subrange(i + lk + 1, e)[m] == n[m] by {
                assert(s[i + (lk + 1 + m)] == x[lk + 1 + m]);
            }
            assert(s.subrange(i + lk + 1, e) =~= n);
        },
        ArgForm::Quoted(k, v) => {
            let lk = k.len() as int;
            let lv = v.len() as int;
            assert(s[i + 0] == x[0]);
            assert(x[0] == k[0]);
            assert(s[i + lk] == x[lk] && s[i + (lk + 1)] == x[lk + 1] && s[i + (x.len() - 1)] == x[x.len() - 1]);
            assert(x[lk] == '=' && x[lk + 1] == '"' && x[x.len() - 1] == '"');
            assert forall|j: int| i <= j < i + lk implies !is_ws(#[trigger] s[j]) && s[j] != '=' by {
                assert(s[i + (j - i)] == x[j - i]);
                assert(x[j - i] == k[j - i]);
            }
            assert forall|j: int| i + lk + 2 <= j < i + lk + 2 + lv implies s[j] != '"' && s[j] != '\\' by {
                assert(s[i + (j - i)] == x[j - i]);
                assert(x[j - i] == v[j - i - lk - 2]);
            }
            lemma_find_eq_at(s, i, i + lk, hi);
            crate::text::lemma_find_ws(s, i, hi);
            let w = find_ws(s, i, hi);
            if w <= i + lk {
                assert(!is_ws(s[w]));
            }
            assert forall|m: int| 0 <= m < lk implies s.subrange(i, i + lk)[m] == k[m] by {
                assert(s[i + m] == x[m]);
            }
            assert(s.subrange(i, i + lk) =~= k);
            lemma_plain_word_trimmed(k);
            lemma_quoted_scan_plain(s, i + lk + 2, lv, hi);
            assert forall|m: int| 0 <= m < lv implies s.subrange(i + lk + 2, i + lk + 2 + lv)[m] == v[m] by {
                assert(s[i + (lk + 2 + m)] == x[lk + 2 + m]);
            }
            assert(s.subrange(i + lk + 2, i + lk + 2 + lv) =~= v);
            assert(quoted_literal_spec(s, i + lk + 1, hi) == (v, p, true));
        },
    }
}

/// Two arguments separated by a space pass what each passes alone, in order; read as a
/// map, the second wins on a shared name.
pub proof fn law_arguments_union(a: ArgForm, b: ArgForm)
    requires
        arg_form_ok(a),
        arg_form_ok(b),
    ensures
        ({
            let s = arg_text(a) + seq![' '] + arg_text(b);
            let ta = arg_text(a);
            let tb = arg_text(b);
            &&& args_spec(s, 0, s.len() as int) == args_spec(ta, 0, ta.len() as int) + args_spec(tb, 0, tb.len() as int)
            &&& args_spec(ta, 0, ta.len() as int) == seq![arg_entry(a)]
            &&& map_of(args_spec(s, 0, s.len() as int)) == map_of(args_spec(ta, 0, ta.len() as int)).union_prefer_right(
                map_of(args_spec(tb, 0, tb.len() as int)),
            )
        }),
{
    let ta = arg_text(a);
    let tb = arg_text(b);
    let la = ta.len() as int;
    let lb = tb.len() as int;
    let s = ta + seq![' '] + tb;
    let hi = la + lb + 1;
    // Each alone.
    assert(ta.subrange(0, la) =~= ta);
    assert(skip_ws(ta, la, la) == la);
    lemma_one_argument(ta, 0, la, a);
    assert(args_spec(ta, la, la) == Seq::<(Seq<char>, ArgumentModel)>::empty());
    assert(tb.subrange(0, lb) =~= tb);
    assert(skip_ws(tb, lb, lb) == lb);
    lemma_one_argument(tb, 0, lb, b);
    assert(args_spec(tb, lb, lb) == Seq::<(Seq<char>, ArgumentModel)>::empty());
    // Together.
    assert(s.subrange(0, la) =~= ta);
    assert(s.subrange(la + 1, hi) =~= tb);
    assert(s[la] == ' ');
    let b0 = match b {
        ArgForm::Word(n) => n[0],
        ArgForm::Pair(k, _) => k[0],
        ArgForm::Quoted(k, _) => k[0],
    };
    assert(tb[0] == b0);
    assert(s[la + 1] == tb[0]);
    assert(!is_ws(b0) && b0 != '|');
    assert(skip_ws(s, la + 1, hi) == la + 1);
    assert(skip_ws(s, la, hi) == la + 1);
    lemma_one_argument(s, 0, hi, a);
    assert(skip_ws(s, hi, hi) == hi);
    lemma_one_argument(s, la + 1, hi, b);
    assert(args_spec(s, hi, hi) == Seq::<(Seq<char>, ArgumentModel)>::empty());
    assert(args_spec(s, 0, hi) =~= seq![arg_entry(a), arg_entry(b)]);
    assert(seq![arg_entry(a)] + Seq::<(Seq<char>, ArgumentModel)>::empty() =~= seq![arg_entry(a)]);
    assert(seq![arg_entry(b)] + Seq::<(Seq<char>, ArgumentModel)>::empty() =~= seq![arg_entry(b)]);
    assert(seq![arg_entry(a)] + seq![arg_entry(b)] =~= seq![arg_entry(a), arg_entry(b)]);
    let pa = seq![arg_entry(a)];
    let pb = seq![arg_entry(b)];
    crate::strmap::lemma_map_of_push(Seq::empty(), arg_entry(a).0, arg_entry(a).1);
    crate::strmap::lemma_map_of_push(Seq::empty(), arg_entry(b).0, arg_entry(b).1);
    crate::strmap::lemma_map_of_push(pa, arg_entry(b).0, arg_entry(b).1);
    assert(Seq::<(Seq<char>, ArgumentModel)>::empty().push(arg_entry(a)) =~= pa);
    assert(Seq::<(Seq<char>, ArgumentModel)>::empty().push(arg_entry(b)) =~= pb);
    assert(pa.push(arg_entry(b)) =~= seq![arg_entry(a), arg_entry(b)]);
    assert(map_of(Seq::<(Seq<char>, ArgumentModel)>::empty()) == Map::<Seq<char>, ArgumentModel>::empty());
    assert(map_of(seq![arg_entry(a), arg_entry(b)]) =~= map_of(pa).union_prefer_right(map_of(pb)));
}

} // verus!
