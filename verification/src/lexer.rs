//! Scanning template text for `{{. ... }}` directive tags.
use vstd::prelude::*;
use crate::error::{Error, ErrorKind, SourceText, Span};
use crate::text::{
    chars_of, find_ws, find_ws_exec, lemma_find_ws, lemma_find_ws_sub, matches_at, matches_at_exec,
    string_of_range, trim, trim_range,
};

verus! {

/// The marker that opens a directive tag.
pub open spec fn open_marker() -> Seq<char> {
    seq!['{', '{', '.']
}

/// `t` starts with `p`.
pub open spec fn has_prefix(t: Seq<char>, p: Seq<char>) -> bool {
    p.len() <= t.len() && t.take(p.len() as int) == p
}

/// A tag opens at `k`: `{{.` stands there and is not escaped by a backslash right before it.
pub open spec fn is_tag_open(s: Seq<char>, k: int) -> bool {
    &&& matches_at(s, k, open_marker())
    &&& (k == 0 || s[k - 1] != '\\')
}

/// The first position at or after `i` where a tag opens.
pub open spec fn next_open(s: Seq<char>, i: int) -> Option<int>
    decreases s.len() - i,
{
    if i < 0 || i >= s.len() {
        None
    } else if is_tag_open(s, i) {
        Some(i)
    } else {
        next_open(s, i + 1)
    }
}

/// The position of the `}}` that closes a tag body scanned from `i`, skipping any `}}`
/// inside a double-quoted literal (where `\` escapes the next character).
pub open spec fn tag_end(s: Seq<char>, i: int, in_quotes: bool, escaped: bool) -> Option<int>
    decreases s.len() - i,
{
    if i < 0 || i >= s.len() {
        None
    } else if in_quotes {
        if escaped {
            tag_end(s, i + 1, true, false)
        } else if s[i] == '\\' {
            tag_end(s, i + 1, true, true)
        } else if s[i] == '"' {
            tag_end(s, i + 1, false, false)
        } else {
            tag_end(s, i + 1, true, false)
        }
    } else if s[i] == '"' {
        tag_end(s, i + 1, true, false)
    } else if s[i] == '}' && i + 1 < s.len() && s[i + 1] == '}' {
        Some(i)
    } else {
        tag_end(s, i + 1, false, false)
    }
}

/// A directive, as the mathematical value its tag denotes.
pub enum DirectiveModel {
    Var(Seq<char>),
    Include { file: Seq<char>, args: Seq<char> },
    If(Seq<char>),
    Else,
    Block(Seq<char>),
    End,
}

/// Why a tag body is not a directive.
#[derive(Debug, Clone, Copy, PartialEq, Eq)]
pub enum DirectiveFault {
    UnknownDirective,
    MissingIncludeName,
    MissingBlockName,
    MissingIfCondition,
}

pub open spec fn kw_var() -> Seq<char> {
    seq!['v', 'a', 'r', ' ']
}

pub open spec fn kw_include() -> Seq<char> {
    seq!['i', 'n', 'c', 'l', 'u', 'd', 'e', ' ']
}

pub open spec fn kw_block() -> Seq<char> {
    seq!['b', 'l', 'o', 'c', 'k', ' ']
}

pub open spec fn kw_if() -> Seq<char> {
    seq!['i', 'f', ' ']
}

/// The directive that a (trimmed) tag body `t` denotes.
pub open spec fn parse_directive_spec(t: Seq<char>) -> Result<DirectiveModel, DirectiveFault> {
    if has_prefix(t, kw_var()) {
        Ok(DirectiveModel::Var(trim(t.skip(4))))
    } else if has_prefix(t, kw_include()) {
        let r = trim(t.skip(8));
        let w = find_ws(r, 0, r.len() as int);
        let file = trim(r.take(w));
        let args = if w < r.len() {
            trim(r.skip(w + 1))
        } else {
            Seq::<char>::empty()
        };
        if file.len() == 0 {
            Err(DirectiveFault::MissingIncludeName)
        } else {
            Ok(DirectiveModel::Include { file, args })
        }
    } else if t == seq!['b', 'l', 'o', 'c', 'k'] {
        Err(DirectiveFault::MissingBlockName)
    } else if has_prefix(t, kw_block()) {
        let name = trim(t.skip(6));
        if name.len() == 0 {
            Err(DirectiveFault::MissingBlockName)
        } else {
            Ok(DirectiveModel::Block(name))
        }
    } else if t == seq!['e', 'n', 'd'] {
        Ok(DirectiveModel::End)
    } else if t == seq!['i', 'f'] {
        Err(DirectiveFault::MissingIfCondition)
    } else if has_prefix(t, kw_if()) {
        let cond = trim(t.skip(3));
        if cond.len() == 0 {
            Err(DirectiveFault::MissingIfCondition)
        } else {
            Ok(DirectiveModel::If(cond))
        }
    } else if t == seq!['e', 'l', 's', 'e'] {
        Ok(DirectiveModel::Else)
    } else {
        Err(DirectiveFault::UnknownDirective)
    }
}

/// A parsed directive from a template tag.
#[derive(Debug, PartialEq, Eq)]
pub enum Directive {
    /// A variable interpolation, e.g. `{{.var my_var}}` (the text after `var`, filters included).
    Var(String),
    /// A file inclusion, e.g. `{{.include my_file.md arg="value"}}`.
    Include { file: String, args: String },
    /// A conditional with its raw, unparsed condition, e.g. `{{.if my_var}}`.
    If(String),
    /// Switches to the else branch of an `.if`.
    Else,
    /// A block container, e.g. `{{.block hero}}`.
    Block(String),
    /// Closes a block container or an `.if`.
    End,
}

impl View for Directive {
    type V = DirectiveModel;

    open spec fn view(&self) -> DirectiveModel {
        match self {
            Directive::Var(v) => DirectiveModel::Var(v@),
            Directive::Include { file, args } => DirectiveModel::Include { file: file@, args: args@ },
            Directive::If(c) => DirectiveModel::If(c@),
            Directive::Else => DirectiveModel::Else,
            Directive::Block(b) => DirectiveModel::Block(b@),
            Directive::End => DirectiveModel::End,
        }
    }
}

proof fn lemma_skip_sub(s: Seq<char>, a: int, b: int, n: int)
    requires
        0 <= a <= b <= s.len(),
        0 <= n <= b - a,
    ensures
        s.subrange(a, b).skip(n) == s.subrange(a + n, b),
        s.subrange(a, b).take(n) == s.subrange(a, a + n),
{
    assert(s.subrange(a, b).skip(n) =~= s.subrange(a + n, b));
    assert(s.subrange(a, b).take(n) =~= s.subrange(a, a + n));
}

proof fn lemma_prefix_at(s: Seq<char>, a: int, b: int, p: Seq<char>)
    requires
        0 <= a <= b <= s.len(),
    ensures
        has_prefix(s.subrange(a, b), p) == (a + p.len() <= b && matches_at(s, a, p)),
{
    if a + p.len() <= b {
        assert(s.subrange(a, b).take(p.len() as int) =~= s.subrange(a, a + p.len()));
    }
}

proof fn lemma_equal_at(s: Seq<char>, a: int, b: int, p: Seq<char>)
    requires
        0 <= a <= b <= s.len(),
    ensures
        (s.subrange(a, b) == p) == (b - a == p.len() && matches_at(s, a, p)),
{
    if b - a == p.len() {
        assert(s.subrange(a, a + p.len()) =~= s.subrange(a, b));
    }
}

/// Parses the directive in `s[a..b]`.
pub fn directive_in(s: &Vec<char>, a: usize, b: usize) -> (r: Result<Directive, DirectiveFault>)
    requires
        a <= b <= s@.len(),
    ensures
        match parse_directive_spec(s@.subrange(a as int, b as int)) {
            Ok(d) => r matches Ok(x) && x@ == d,
            Err(f) => r == Err::<Directive, DirectiveFault>(f),
        },
{
    let ghost t = s@.subrange(a as int, b as int);
    proof {
        lemma_prefix_at(s@, a as int, b as int, kw_var());
        lemma_prefix_at(s@, a as int, b as int, kw_include());
        lemma_prefix_at(s@, a as int, b as int, kw_block());
        lemma_prefix_at(s@, a as int, b as int, kw_if());
        lemma_equal_at(s@, a as int, b as int, seq!['b', 'l', 'o', 'c', 'k']);
        lemma_equal_at(s@, a as int, b as int, seq!['e', 'n', 'd']);
        lemma_equal_at(s@, a as int, b as int, seq!['i', 'f']);
        lemma_equal_at(s@, a as int, b as int, seq!['e', 'l', 's', 'e']);
    }
    if matches_at_exec(s, a, b, &['v', 'a', 'r', ' ']) {
        proof {
            lemma_skip_sub(s@, a as int, b as int, 4);
        }
        let (i, j) = trim_range(s, a + 4, b);
        return Ok(Directive::Var(string_of_range(s, i, j)));
    }
    if matches_at_exec(s, a, b, &['i', 'n', 'c', 'l', 'u', 'd', 'e', ' ']) {
        proof {
            lemma_skip_sub(s@, a as int, b as int, 8);
        }
        let (i, j) = trim_range(s, a + 8, b);
        let ghost r = s@.subrange(i as int, j as int);
        let w = find_ws_exec(s, i, j);
        proof {
            lemma_find_ws(s@, i as int, j as int);
            lemma_find_ws_sub(s@, i as int, j as int, i as int, j as int);
            lemma_skip_sub(s@, i as int, j as int, w - i);
        }
        let (fi, fj) = trim_range(s, i, w);
        if fi == fj {
            return Err(DirectiveFault::MissingIncludeName);
        }
        let file = string_of_range(s, fi, fj);
        if w < j {
            proof {
                lemma_skip_sub(s@, i as int, j as int, w - i + 1);
            }
            let (ai, aj) = trim_range(s, w + 1, j);
            return Ok(Directive::Include { file, args: string_of_range(s, ai, aj) });
        } else {
            return Ok(Directive::Include { file, args: String::new() });
        }
    }
    if b - a == 5 && matches_at_exec(s, a, b, &['b', 'l', 'o', 'c', 'k']) {
        return Err(DirectiveFault::MissingBlockName);
    }
    if matches_at_exec(s, a, b, &['b', 'l', 'o', 'c', 'k', ' ']) {
        proof {
            lemma_skip_sub(s@, a as int, b as int, 6);
        }
        let (i, j) = trim_range(s, a + 6, b);
        if i == j {
            return Err(DirectiveFault::MissingBlockName);
        }
        return Ok(Directive::Block(string_of_range(s, i, j)));
    }
    if b - a == 3 && matches_at_exec(s, a, b, &['e', 'n', 'd']) {
        return Ok(Directive::End);
    }
    if b - a == 2 && matches_at_exec(s, a, b, &['i', 'f']) {
        return Err(DirectiveFault::MissingIfCondition);
    }
    if matches_at_exec(s, a, b, &['i', 'f', ' ']) {
        proof {
            lemma_skip_sub(s@, a as int, b as int, 3);
        }
        let (i, j) = trim_range(s, a + 3, b);
        if i == j {
            return Err(DirectiveFault::MissingIfCondition);
        }
        return Ok(Directive::If(string_of_range(s, i, j)));
    }
    if b - a == 4 && matches_at_exec(s, a, b, &['e', 'l', 's', 'e']) {
        return Ok(Directive::Else);
    }
    Err(DirectiveFault::UnknownDirective)
}

/// What scanning from `offset` finds: no more tags, a tag, or a fault.
pub enum ScanModel {
    Done,
    Tag { directive: DirectiveModel, start: int, end: int },
    Unclosed { start: int },
    Malformed { fault: DirectiveFault, start: int, end: int, body: Seq<char> },
}

/// The outcome of scanning `s` for the next tag at or after `offset`.
pub open spec fn scan_spec(s: Seq<char>, offset: int) -> ScanModel {
    match next_open(s, offset) {
        None => ScanModel::Done,
        Some(k) => match tag_end(s, k + 3, false, false) {
            None => ScanModel::Unclosed { start: k },
            Some(j) => {
                let body = trim(s.subrange(k + 3, j));
                match parse_directive_spec(body) {
                    Ok(d) => ScanModel::Tag { directive: d, start: k, end: j + 2 },
                    Err(f) => ScanModel::Malformed { fault: f, start: k, end: j + 2, body },
                }
            },
        },
    }
}

/// An `.if` condition is shorter than the text it was scanned from.
pub proof fn lemma_condition_shorter(s: Seq<char>, cursor: int)
    requires
        0 <= cursor <= s.len(),
    ensures
        scan_spec(s, cursor) matches ScanModel::Tag { directive: DirectiveModel::If(c), .. } ==> c.len() < s.len(),
{
    lemma_next_open(s, cursor);
    if let Some(k) = next_open(s, cursor) {
        lemma_tag_end(s, k + 3, false, false);
        if let Some(j) = tag_end(s, k + 3, false, false) {
            let body = trim(s.subrange(k + 3, j));
            crate::text::lemma_trim_len(s.subrange(k + 3, j));
            if has_prefix(body, kw_if()) {
                crate::text::lemma_trim_len(body.skip(3));
            }
        }
    }
}

pub proof fn lemma_next_open(s: Seq<char>, i: int)
    requires
        0 <= i,
    ensures
        next_open(s, i) matches Some(k) ==> i <= k && k + 3 <= s.len() && is_tag_open(s, k),
        next_open(s, i) matches Some(k) ==> forall|m: int| i <= m < k ==> !is_tag_open(s, m),
        next_open(s, i) is None ==> forall|m: int| i <= m < s.len() ==> !is_tag_open(s, m),
    decreases s.len() - i,
{
    if i < s.len() && !is_tag_open(s, i) {
        lemma_next_open(s, i + 1);
    }
}

pub proof fn lemma_tag_end(s: Seq<char>, i: int, q: bool, e: bool)
    requires
        0 <= i,
    ensures
        tag_end(s, i, q, e) matches Some(j) ==> i <= j && j + 2 <= s.len() && s[j] == '}' && s[j
            + 1] == '}',
    decreases s.len() - i,
{
    if 0 <= i < s.len() {
        lemma_tag_end(s, i + 1, true, false);
        lemma_tag_end(s, i + 1, true, true);
        lemma_tag_end(s, i + 1, false, false);
    }
}

/// The offset of the `}}` that closes the tag body `s[i..]` (quote-aware).
pub fn find_tag_end_from(s: &Vec<char>, i: usize) -> (r: Option<usize>)
    requires
        i <= s@.len(),
    ensures
        r matches Some(j) ==> tag_end(s@, i as int, false, false) == Some(j as int),
        r is None ==> tag_end(s@, i as int, false, false) is None,
{
    let n = s.len();
    let mut k: usize = i;
    let mut in_quotes = false;
    let mut escaped = false;
    while k < n
        invariant
            i <= k <= n == s@.len(),
            tag_end(s@, i as int, false, false) == tag_end(s@, k as int, in_quotes, escaped),
            !in_quotes ==> !escaped,
        decreases n - k,
    {
        let c = s[k];
        if in_quotes {
            if escaped {
                escaped = false;
            } else if c == '\\' {
                escaped = true;
            } else if c == '"' {
                in_quotes = false;
            }
            k = k + 1;
        } else if c == '"' {
            in_quotes = true;
            k = k + 1;
        } else if c == '}' && k + 1 < n && s[k + 1] == '}' {
            return Some(k);
        } else {
            k = k + 1;
        }
    }
    None
}

/// Finds the byte offset of the `}}` that closes a tag body, ignoring any `}}` inside a
/// double-quoted literal, where `\\` escapes the next character.
pub fn find_tag_end(tag_body: &str) -> (r: Option<usize>)
    ensures
        match tag_end(tag_body@, 0, false, false) {
            Some(j) => r == Some(clamp_usize(byte_len(tag_body@.subrange(0, j)))),
            None => r is None,
        },
{
    let s = chars_of(tag_body);
    proof {
        lemma_tag_end(s@, 0, false, false);
    }
    match find_tag_end_from(&s, 0) {
        Some(j) => Some(bytes_of_range(&s, 0, j)),
        None => None,
    }
}

/// A matched template tag with its span and its byte offsets in the text.
#[derive(Debug)]
pub struct TagMatch {
    pub directive: Directive,
    pub span: Span,
    pub match_start: usize,
    pub match_end: usize,
}

/// A matched template tag located by character positions in the scanned characters: where
/// its `{{.` starts and where its `}}` ends.
#[derive(Debug)]
pub struct TagAt {
    pub directive: Directive,
    pub span: Span,
    pub start: usize,
    pub end: usize,
}

/// Scanner that finds and lexes template tags.
#[derive(Debug)]
pub struct TagScanner {
    /// The template text, as characters.
    pub src: Vec<char>,
    /// The template's file name and text, for diagnostics.
    pub named_src: SourceText,
}

/// The error that a malformed tag body raises.
pub open spec fn fault_error_spec(
    e: ErrorKind,
    fault: DirectiveFault,
    body: Seq<char>,
    src: (Seq<char>, Seq<char>),
    span: Span,
) -> bool {
    match fault {
        DirectiveFault::UnknownDirective => e matches ErrorKind::UnknownDirective {
            directive,
            src: es,
            span: sp,
        } && directive@ == body && es@ == src && sp == span,
        DirectiveFault::MissingIncludeName => e matches ErrorKind::MissingIncludeName {
            src: es,
            span: sp,
        } && es@ == src && sp == span,
        DirectiveFault::MissingBlockName => e matches ErrorKind::MissingBlockName {
            src: es,
            span: sp,
        } && es@ == src && sp == span,
        DirectiveFault::MissingIfCondition => e matches ErrorKind::MissingIfCondition {
            src: es,
            span: sp,
        } && es@ == src && sp == span,
    }
}

/// Directive parsing by keyword: `var x` names the variable spec `x` trimmed; `block n`
/// with a name names that block; `if c` with a condition holds that condition text.
pub proof fn law_directive_keywords(x: Seq<char>)
    ensures
        parse_directive_spec(kw_var() + x) == Ok::<DirectiveModel, DirectiveFault>(DirectiveModel::Var(trim(x))),
        trim(x).len() > 0 ==> parse_directive_spec(kw_block() + x) == Ok::<DirectiveModel, DirectiveFault>(
            DirectiveModel::Block(trim(x)),
        ),
        trim(x).len() > 0 ==> parse_directive_spec(kw_if() + x) == Ok::<DirectiveModel, DirectiveFault>(
            DirectiveModel::If(trim(x)),
        ),
{
    let v = kw_var() + x;
    assert(v.take(4) =~= kw_var());
    assert(v.skip(4) =~= x);
    let b = kw_block() + x;
    assert(b.take(6) =~= kw_block());
    assert(b.skip(6) =~= x);
    assert(b.take(4) != kw_var()) by {
        assert(b.take(4)[0] != kw_var()[0]);
    }
    if b.len() >= 8 {
        assert(b.take(8) != kw_include()) by {
            assert(b.take(8)[0] != kw_include()[0]);
        }
    }
    assert(b != seq!['b', 'l', 'o', 'c', 'k']) by {
        assert(b.len() != 5 || b[5] == ' ');
    }
    let f = kw_if() + x;
    assert(f.take(3) =~= kw_if());
    assert(f.skip(3) =~= x);
    if f.len() >= 4 {
        assert(f.take(4) != kw_var()) by {
            assert(f.take(4)[0] != kw_var()[0]);
        }
    }
    if f.len() >= 8 {
        assert(f.take(8) != kw_include()) by {
            assert(f.take(8)[1] != kw_include()[1]);
        }
    }
    if f.len() >= 6 {
        assert(f.take(6) != kw_block()) by {
            assert(f.take(6)[0] != kw_block()[0]);
        }
    }
    assert(f != seq!['b', 'l', 'o', 'c', 'k']) by {
        assert(f[0] != 'b');
    }
    assert(f != seq!['e', 'n', 'd']) by {
        assert(f[0] != 'e');
    }
    assert(f != seq!['i', 'f']) by {
        assert(f.len() != 2);
    }
}

/// The names a directive carries are trimmed and not empty: a block's name, an `.if`'s
/// condition and an include's file. `end` and `else` stand alone, a bare `block` lacks its
/// name, and a text that starts with no keyword is an unknown directive.
pub proof fn law_directive_names_trimmed(t: Seq<char>)
    ensures
        parse_directive_spec(t) matches Ok(DirectiveModel::Block(n)) ==> n.len() > 0 && trim(n) == n,
        parse_directive_spec(t) matches Ok(DirectiveModel::If(n)) ==> n.len() > 0 && trim(n) == n,
        parse_directive_spec(t) matches Ok(DirectiveModel::Include { file, .. }) ==> file.len() > 0 && trim(file) == file,
        t == seq!['e', 'n', 'd'] ==> parse_directive_spec(t) == Ok::<DirectiveModel, DirectiveFault>(DirectiveModel::End),
        t == seq!['e', 'l', 's', 'e'] ==> parse_directive_spec(t) == Ok::<DirectiveModel, DirectiveFault>(DirectiveModel::Else),
        t == seq!['b', 'l', 'o', 'c', 'k'] ==> parse_directive_spec(t) == Err::<DirectiveModel, DirectiveFault>(DirectiveFault::MissingBlockName),
        !has_prefix(t, kw_var()) && !has_prefix(t, kw_include()) && !has_prefix(t, kw_block()) && !has_prefix(t, kw_if())
            && t != seq!['b', 'l', 'o', 'c', 'k'] && t != seq!['e', 'n', 'd'] && t != seq!['i', 'f'] && t != seq!['e', 'l', 's', 'e']
            ==> parse_directive_spec(t) == Err::<DirectiveModel, DirectiveFault>(DirectiveFault::UnknownDirective),
{
    crate::text::lemma_trim_idempotent(t.skip(6));
    crate::text::lemma_trim_idempotent(t.skip(3));
    let r = trim(t.skip(8));
    let w = find_ws(r, 0, r.len() as int);
    crate::text::lemma_trim_idempotent(r.take(w));
    if t == seq!['e', 'n', 'd'] || t == seq!['e', 'l', 's', 'e'] || t == seq!['b', 'l', 'o', 'c', 'k'] {
        if t.len() >= 4 {
            assert(t.take(4) != kw_var()) by {
                assert(t.take(4)[0] != kw_var()[0]);
            }
        }
        assert(!has_prefix(t, kw_include()));
        if t.len() >= 3 {
            assert(t.take(3) != kw_if()) by {
                assert(t.take(3)[0] != kw_if()[0]);
            }
        }
        if t == seq!['e', 'l', 's', 'e'] || t == seq!['e', 'n', 'd'] {
            if t.len() >= 6 {
                assert(t.take(6) != kw_block());
            }
        }
    }
}

/// A `}}` inside a double-quoted literal does not close a tag: scanning from the opening
/// quote of a literal without quotes or backslashes inside goes on after its closing quote.
pub proof fn law_tag_end_skips_quoted(s: Seq<char>, i: int, m: int)
    requires
        0 <= i,
        0 <= m,
        i + m + 1 < s.len(),
        s[i] == '"',
        s[i + m + 1] == '"',
        forall|j: int| i + 1 <= j <= i + m ==> s[j] != '"' && s[j] != '\\',
    ensures
        tag_end(s, i, false, false) == tag_end(s, i + m + 2, false, false),
{
    lemma_tag_end_in_quotes(s, i + 1, i + m + 1);
}

proof fn lemma_tag_end_in_quotes(s: Seq<char>, j: int, q: int)
    requires
        0 <= j <= q < s.len(),
        s[q] == '"',
        forall|k: int| j <= k < q ==> s[k] != '"' && s[k] != '\\',
    ensures
        tag_end(s, j, true, false) == tag_end(s, q + 1, false, false),
    decreases q - j,
{
    if j < q {
        lemma_tag_end_in_quotes(s, j + 1, q);
    }
}

/// The number of bytes that `c` takes in UTF-8.
pub open spec fn utf8_len(c: char) -> nat {
    if (c as u32) < 0x80 {
        1
    } else if (c as u32) < 0x800 {
        2
    } else if (c as u32) < 0x10000 {
        3
    } else {
        4
    }
}

/// The number of bytes that `s` takes in UTF-8.
pub open spec fn byte_len(s: Seq<char>) -> nat
    decreases s.len(),
{
    if s.len() == 0 {
        0
    } else {
        byte_len(s.drop_last()) + utf8_len(s.last())
    }
}

/// `n`, or `usize::MAX` where `n` is larger.
pub open spec fn clamp_usize(n: nat) -> usize {
    if n <= usize::MAX {
        n as usize
    } else {
        usize::MAX
    }
}

/// The span of the characters `s[a..b]`, in bytes of the UTF-8 text: where it starts and how
/// long it is (each figure capped at `usize::MAX`).
pub open spec fn span_of(s: Seq<char>, a: int, b: int) -> Span {
    Span { offset: clamp_usize(byte_len(s.subrange(0, a))), len: clamp_usize(byte_len(s.subrange(a, b))) }
}

/// The number of bytes that `c` takes in UTF-8.
fn utf8_len_exec(c: char) -> (n: usize)
    ensures
        n == utf8_len(c),
        1 <= n <= 4,
{
    let u = c as u32;
    if u < 0x80 {
        1
    } else if u < 0x800 {
        2
    } else if u < 0x10000 {
        3
    } else {
        4
    }
}

/// The number of bytes of `s[a..b]` in UTF-8, capped at `usize::MAX`.
fn bytes_of_range(s: &Vec<char>, a: usize, b: usize) -> (n: usize)
    requires
        a <= b <= s@.len(),
    ensures
        n == clamp_usize(byte_len(s@.subrange(a as int, b as int))),
{
    let mut total: usize = 0;
    let mut i: usize = a;
    assert(s@.subrange(a as int, a as int) =~= Seq::<char>::empty());
    while i < b
        invariant
            a <= i <= b <= s@.len(),
            total == clamp_usize(byte_len(s@.subrange(a as int, i as int))),
        decreases b - i,
    {
        let u = utf8_len_exec(s[i]);
        assert(s@.subrange(a as int, i + 1).drop_last() =~= s@.subrange(a as int, i as int));
        assert(s@.subrange(a as int, i + 1).last() == s@[i as int]);
        if total > usize::MAX - u {
            total = usize::MAX;
        } else {
            total = total + u;
        }
        i = i + 1;
    }
    total
}

/// The span of the characters `s[a..b]`, in bytes (see [`span_of`]).
pub fn byte_span(s: &Vec<char>, a: usize, b: usize) -> (sp: Span)
    requires
        a <= b <= s@.len(),
    ensures
        sp == span_of(s@, a as int, b as int),
{
    Span::new(bytes_of_range(s, 0, a), bytes_of_range(s, a, b))
}

/// `b` is a byte offset at a character boundary of the UTF-8 text `s`.
pub open spec fn is_char_boundary(s: Seq<char>, b: int) -> bool {
    exists|i: int| 0 <= i <= s.len() && #[trigger] byte_len(s.subrange(0, i)) == b
}

/// Each character takes at least one byte, so a longer prefix takes at least as many more
/// bytes as it has more characters.
pub proof fn lemma_byte_len_grows(s: Seq<char>, i: int, j: int)
    requires
        0 <= i <= j <= s.len(),
    ensures
        byte_len(s.subrange(0, i)) + (j - i) <= byte_len(s.subrange(0, j)),
    decreases j - i,
{
    if i < j {
        lemma_byte_len_grows(s, i, j - 1);
        assert(s.subrange(0, j).drop_last() =~= s.subrange(0, j - 1));
    }
}

/// The character position of the byte offset `b`, a character boundary of `s`.
fn char_index(s: &Vec<char>, b: usize) -> (k: usize)
    requires
        is_char_boundary(s@, b as int),
    ensures
        k <= s@.len(),
        byte_len(s@.subrange(0, k as int)) == b,
{
    let ghost j = choose|j: int| 0 <= j <= s@.len() && #[trigger] byte_len(s@.subrange(0, j)) == b;
    let n = s.len();
    let mut i: usize = 0;
    let mut acc: usize = 0;
    assert(s@.subrange(0, 0) =~= Seq::<char>::empty());
    while acc < b
        invariant
            n == s@.len(),
            0 <= j <= s@.len(),
            byte_len(s@.subrange(0, j)) == b,
            i <= s@.len(),
            acc == byte_len(s@.subrange(0, i as int)),
            acc <= b,
        decreases b - acc,
    {
        proof {
            if j <= i {
                lemma_byte_len_grows(s@, j, i as int);
            }
            lemma_byte_len_grows(s@, i + 1, j);
            assert(s@.subrange(0, i + 1).drop_last() =~= s@.subrange(0, i as int));
        }
        let u = utf8_len_exec(s[i]);
        acc = acc + u;
        i = i + 1;
    }
    i
}

/// What `next_tag` returns, given the scan outcome on the text `text`: the tag with its
/// start and end as byte offsets, or the error.
pub open spec fn match_result_spec(
    r: Result<Option<TagMatch>, Error>,
    m: ScanModel,
    src: (Seq<char>, Seq<char>),
    text: Seq<char>,
) -> bool {
    match m {
        ScanModel::Tag { directive, start, end } => r matches Ok(Some(t)) && t.directive@ == directive
            && t.match_start == clamp_usize(byte_len(text.subrange(0, start)))
            && t.match_end == clamp_usize(byte_len(text.subrange(0, end))) && t.span == span_of(text, start, end),
        ScanModel::Done => r matches Ok(None),
        ScanModel::Unclosed { start } => r matches Err(e) && e.0 matches ErrorKind::UnclosedTag {
            src: es,
            span,
        } && es@ == src && span == span_of(text, start, text.len() as int),
        ScanModel::Malformed { fault, start, end, body } => r matches Err(e) && fault_error_spec(
            e.0,
            fault,
            body,
            src,
            span_of(text, start, end),
        ),
    }
}

/// What `next_tag` returns, given the scan outcome on the text `text`.
pub open spec fn scan_result_spec(
    r: Result<Option<TagAt>, Error>,
    m: ScanModel,
    src: (Seq<char>, Seq<char>),
    text: Seq<char>,
) -> bool {
    match m {
        ScanModel::Done => r matches Ok(None),
        ScanModel::Tag { directive, start, end } => r matches Ok(Some(t)) && t.directive@
            == directive && t.start == start && t.end == end && t.span == span_of(text, start, end),
        ScanModel::Unclosed { start } => r matches Err(e) && e.0 matches ErrorKind::UnclosedTag {
            src: es,
            span,
        } && es@ == src && span == span_of(text, start, text.len() as int),
        ScanModel::Malformed { fault, start, end, body } => r matches Err(e) && fault_error_spec(
            e.0,
            fault,
            body,
            src,
            span_of(text, start, end),
        ),
    }
}

impl TagScanner {
    /// Well-formed: the diagnostic text is the scanned text.
    pub open spec fn wf(&self) -> bool {
        self.named_src.text@ == self.src@
    }

    /// Creates a scanner over `src`, naming it by `file_path` in diagnostics.
    pub fn new(src: &str, file_path: &str) -> (r: TagScanner)
        ensures
            r.wf(),
            r.src@ == src@,
            r.named_src.name@ == file_path@,
            r.named_src.text@ == src@,
    {
        TagScanner {
            src: chars_of(src),
            named_src: SourceText { name: String::from_str(file_path), text: String::from_str(src) },
        }
    }

    /// Finds the next directive tag at or after the byte offset `offset` (a character
    /// boundary of the text): its directive, span and byte offsets.
    pub fn next_tag(&self, offset: usize) -> (r: Result<Option<TagMatch>, Error>)
        requires
            byte_len(self.src@) <= usize::MAX,
            is_char_boundary(self.src@, offset as int),
        ensures
            forall|i: int| 0 <= i <= self.src@.len() && byte_len(#[trigger] self.src@.subrange(0, i)) == offset
                ==> match_result_spec(r, scan_spec(self.src@, i), self.named_src@, self.src@),
    {
        let k = char_index(&self.src, offset);
        proof {
            assert forall|i: int| 0 <= i <= self.src@.len() && byte_len(#[trigger] self.src@.subrange(0, i)) == offset
                implies i == k by {
                if i < k {
                    lemma_byte_len_grows(self.src@, i, k as int);
                } else if i > k {
                    lemma_byte_len_grows(self.src@, k as int, i);
                }
            }
        }
        match self.tag_at(k) {
            Ok(Some(t)) => {
                let ms = bytes_of_range(&self.src, 0, t.start);
                let me = bytes_of_range(&self.src, 0, t.end);
                Ok(Some(TagMatch { directive: t.directive, span: t.span, match_start: ms, match_end: me }))
            },
            Ok(None) => Ok(None),
            Err(e) => Err(e),
        }
    }

    /// Finds the next directive tag at or after the character position `offset`.
    pub fn tag_at(&self, offset: usize) -> (r: Result<Option<TagAt>, Error>)
        requires
            offset <= self.src@.len(),
        ensures
            scan_result_spec(r, scan_spec(self.src@, offset as int), self.named_src@, self.src@),
            r matches Ok(Some(t)) ==> t.start < t.end <= self.src@.len(),
    {
        let s = &self.src;
        let n = s.len();
        let mut k: usize = offset;
        while k < n && !(matches_at_exec(s, k, n, &['{', '{', '.']) && (k == 0 || s[k - 1] != '\\'))
            invariant
                offset <= k <= n == s@.len(),
                next_open(s@, offset as int) == next_open(s@, k as int),
            decreases n - k,
        {
            k = k + 1;
        }
        if k >= n {
            return Ok(None);
        }
        assert(open_marker() =~= seq!['{', '{', '.']);
        let end = find_tag_end_from(s, k + 3);
        proof {
            lemma_tag_end(s@, k + 3, false, false);
        }
        match end {
            None => Err(Error(ErrorKind::UnclosedTag { src: self.named_src.duplicate(), span: byte_span(s, k, n) })),
            Some(j) => {
                let span = byte_span(s, k, j + 2);
                let (a, b) = trim_range(s, k + 3, j);
                match directive_in(s, a, b) {
                    Ok(directive) => Ok(Some(TagAt { directive, span, start: k, end: j + 2 })),
                    Err(f) => Err(Error(self.fault_error(f, a, b, span))),
                }
            },
        }
    }

    fn fault_error(&self, f: DirectiveFault, a: usize, b: usize, span: Span) -> (e: ErrorKind)
        requires
            a <= b <= self.src@.len(),
        ensures
            fault_error_spec(e, f, self.src@.subrange(a as int, b as int), self.named_src@, span),
    {
        match f {
            DirectiveFault::UnknownDirective => ErrorKind::UnknownDirective {
                directive: string_of_range(&self.src, a, b),
                src: self.named_src.duplicate(),
                span,
            },
            DirectiveFault::MissingIncludeName => ErrorKind::MissingIncludeName {
                src: self.named_src.duplicate(),
                span,
            },
            DirectiveFault::MissingBlockName => ErrorKind::MissingBlockName {
                src: self.named_src.duplicate(),
                span,
            },
            DirectiveFault::MissingIfCondition => ErrorKind::MissingIfCondition {
                src: self.named_src.duplicate(),
                span,
            },
        }
    }

    /// Parses a directive's text (already cut out of its tag), reporting faults at `span`.
    pub fn parse_directive(&self, text: &str, span: Span) -> (r: Result<Directive, Error>)
        ensures
            match parse_directive_spec(text@) {
                Ok(d) => r matches Ok(x) && x@ == d,
                Err(f) => r matches Err(e) && fault_error_spec(e.0, f, text@, self.named_src@, span),
            },
    {
        let t = chars_of(text);
        let n = t.len();
        proof {
            assert(t@.subrange(0, n as int) =~= t@);
        }
        match directive_in(&t, 0, n) {
            Ok(d) => Ok(d),
            Err(f) => {
                let e = match f {
                    DirectiveFault::UnknownDirective => ErrorKind::UnknownDirective {
                        directive: String::from_str(text),
                        src: self.named_src.duplicate(),
                        span,
                    },
                    DirectiveFault::MissingIncludeName => ErrorKind::MissingIncludeName {
                        src: self.named_src.duplicate(),
                        span,
                    },
                    DirectiveFault::MissingBlockName => ErrorKind::MissingBlockName {
                        src: self.named_src.duplicate(),
                        span,
                    },
                    DirectiveFault::MissingIfCondition => ErrorKind::MissingIfCondition {
                        src: self.named_src.duplicate(),
                        span,
                    },
                };
                Err(Error(e))
            },
        }
    }
}

/// `s[i..hi]` with every escaped marker `\{{.` replaced by a literal `{{.`.
pub open spec fn unescape_spec(s: Seq<char>, i: int, hi: int) -> Seq<char>
    decreases hi - i,
{
    if i < 0 || i >= hi {
        Seq::empty()
    } else if s[i] == '\\' && i + 4 <= hi && matches_at(s, i + 1, open_marker()) {
        open_marker() + unescape_spec(s, i + 4, hi)
    } else {
        seq![s[i]] + unescape_spec(s, i + 1, hi)
    }
}

/// Appends `s[lo..hi]` to `out`, turning each escaped `\{{.` into a literal `{{.`.
pub fn push_unescaped(out: &mut String, s: &Vec<char>, lo: usize, hi: usize)
    requires
        lo <= hi <= s@.len(),
    ensures
        final(out)@ == old(out)@ + unescape_spec(s@, lo as int, hi as int),
{
    let ghost start = out@;
    let mut i: usize = lo;
    while i < hi
        invariant
            lo <= i <= hi <= s@.len(),
            start + unescape_spec(s@, lo as int, hi as int) == out@ + unescape_spec(s@, i as int, hi as int),
        decreases hi - i,
    {
        let ghost before = out@;
        if s[i] == '\\' && hi - i >= 4 && matches_at_exec(s, i + 1, hi, &['{', '{', '.']) {
            out.push('{');
            out.push('{');
            out.push('.');
            assert(open_marker() =~= seq!['{', '{', '.']);
            assert(out@ + unescape_spec(s@, i + 4, hi as int) =~= before + (open_marker() + unescape_spec(s@, i + 4, hi as int)));
            i = i + 4;
        } else {
            out.push(s[i]);
            assert(out@ + unescape_spec(s@, i + 1, hi as int) =~= before + (seq![s@[i as int]] + unescape_spec(s@, i + 1, hi as int)));
            i = i + 1;
        }
    }
    assert(out@ =~= out@ + unescape_spec(s@, i as int, hi as int));
}

/// The text with every escaped tag marker `\{{.` turned into a literal `{{.`.
pub fn unescape_tag_markers(text: &str) -> (r: String)
    ensures
        r@ == unescape_spec(text@, 0, text@.len() as int),
{
    let s = chars_of(text);
    let mut out = String::new();
    push_unescaped(&mut out, &s, 0, s.len());
    assert(out@ =~= Seq::<char>::empty() + unescape_spec(s@, 0, s@.len() as int));
    out
}

} // verus!
