//! Parsing and evaluating `.if` conditions.
use vstd::prelude::*;
use crate::environment::Environment;
use crate::error::Error;
use crate::args::{lemma_quoted_scan, quoted_literal_in, quoted_literal_spec, quoted_scan};
use crate::text::{
    chars_of, find_ws, find_ws_exec, lemma_find_ws, lemma_skip_ws, matches_at, matches_at_exec,
    skip_ws, skip_ws_exec, string_of_range, trim_range, trim_start_range, back_ws, lemma_back_ws, is_ws,
};

verus! {

/// One side of a condition, as its mathematical value.
pub enum OperandModel {
    Var(Seq<char>),
    Literal(Seq<char>),
}

/// One side of a condition: a variable reference or a quoted literal.
#[derive(Debug, PartialEq, Eq, Clone)]
pub enum Operand {
    Var(String),
    Literal(String),
}

impl View for Operand {
    type V = OperandModel;

    open spec fn view(&self) -> OperandModel {
        match self {
            Operand::Var(v) => OperandModel::Var(v@),
            Operand::Literal(l) => OperandModel::Literal(l@),
        }
    }
}

/// A comparison operator.
#[derive(Debug, PartialEq, Eq, Clone, Copy)]
pub enum CompareOp {
    Eq,
    Ne,
}

/// A parsed `.if` condition, as its mathematical value.
pub enum ConditionModel {
    Truthy { operand: OperandModel, negate: bool },
    Compare { lhs: OperandModel, op: CompareOp, rhs: OperandModel },
}

/// A parsed `.if` condition. Grammar (whitespace-tolerant, `==`/`!=` require surrounding
/// whitespace):
///   condition := ['!'] operand | operand ('==' | '!=') operand
///   operand   := '"' ... '"' | bareword
#[derive(Debug, PartialEq, Eq, Clone)]
pub enum Condition {
    Truthy { operand: Operand, negate: bool },
    Compare { lhs: Operand, op: CompareOp, rhs: Operand },
}

impl View for Condition {
    type V = ConditionModel;

    open spec fn view(&self) -> ConditionModel {
        match self {
            Condition::Truthy { operand, negate } => ConditionModel::Truthy {
                operand: operand@,
                negate: *negate,
            },
            Condition::Compare { lhs, op, rhs } => ConditionModel::Compare {
                lhs: lhs@,
                op: *op,
                rhs: rhs@,
            },
        }
    }
}

/// Why a condition does not parse, as a mathematical value.
pub enum ConditionFault {
    UnterminatedQuote,
    EmptyOperand,
    MissingOperator,
    MissingOperand,
    TrailingGarbage(Seq<char>),
}

/// Why a condition does not parse.
#[derive(Debug, PartialEq, Eq)]
pub enum ConditionParseError {
    UnterminatedQuote,
    EmptyOperand,
    MissingOperator,
    MissingOperand,
    TrailingGarbage(String),
}

impl View for ConditionParseError {
    type V = ConditionFault;

    open spec fn view(&self) -> ConditionFault {
        match self {
            ConditionParseError::UnterminatedQuote => ConditionFault::UnterminatedQuote,
            ConditionParseError::EmptyOperand => ConditionFault::EmptyOperand,
            ConditionParseError::MissingOperator => ConditionFault::MissingOperator,
            ConditionParseError::MissingOperand => ConditionFault::MissingOperand,
            ConditionParseError::TrailingGarbage(r) => ConditionFault::TrailingGarbage(r@),
        }
    }
}

/// A literal operand is shorter than `n`.
pub open spec fn operand_below(o: OperandModel, n: int) -> bool {
    o matches OperandModel::Literal(l) ==> l.len() < n
}

/// Every operand of the condition is a variable, so resolving it cannot fail: a missing
/// variable is only falsy.
pub open spec fn operands_are_variables(c: ConditionModel) -> bool {
    match c {
        ConditionModel::Truthy { operand, .. } => operand is Var,
        ConditionModel::Compare { lhs, rhs, .. } => lhs is Var && rhs is Var,
    }
}

/// Every literal operand of the condition is shorter than `n`.
pub open spec fn literals_below(c: ConditionModel, n: int) -> bool {
    match c {
        ConditionModel::Truthy { operand, .. } => operand_below(operand, n),
        ConditionModel::Compare { lhs, rhs, .. } => operand_below(lhs, n) && operand_below(rhs, n),
    }
}

/// The operand at `s[i..hi]` (where `i` is not whitespace unless the operand is empty) and
/// where the rest starts (after whitespace).
pub open spec fn operand_spec(s: Seq<char>, i: int, hi: int) -> Result<(OperandModel, int), ConditionFault> {
    if i < hi && s[i] == '"' {
        let q = quoted_literal_spec(s, i, hi);
        if !q.2 {
            Err(ConditionFault::UnterminatedQuote)
        } else {
            Ok((OperandModel::Literal(q.0), q.1))
        }
    } else {
        let end = find_ws(s, i, hi);
        if end == i {
            Err(ConditionFault::EmptyOperand)
        } else {
            Ok((OperandModel::Var(s.subrange(i, end)), skip_ws(s, end, hi)))
        }
    }
}

/// The two-character operator at `s[r..r + 2]` stands apart: whitespace right before it, and
/// right after it unless the text ends there.
pub open spec fn op_spaced(s: Seq<char>, r: int, b: int) -> bool {
    r > 0 && is_ws(s[r - 1]) && (r + 2 == b || is_ws(s[r + 2]))
}

/// The condition that `s[lo..hi]` denotes. `==` and `!=` are operators only with whitespace
/// on both sides.
pub open spec fn condition_spec(s: Seq<char>, lo: int, hi: int) -> Result<ConditionModel, ConditionFault> {
    let a = skip_ws(s, lo, hi);
    let b = back_ws(s, a, hi);
    if a < b && s[a] == '!' {
        match operand_spec(s, skip_ws(s, a + 1, b), b) {
            Err(f) => Err(f),
            Ok((operand, r)) => {
                if skip_ws(s, r, b) < b {
                    Err(ConditionFault::TrailingGarbage(s.subrange(skip_ws(s, r, b), b)))
                } else {
                    Ok(ConditionModel::Truthy { operand, negate: true })
                }
            },
        }
    } else {
        match operand_spec(s, a, b) {
            Err(f) => Err(f),
            Ok((lhs, r0)) => {
                let r = skip_ws(s, r0, b);
                if r >= b {
                    Ok(ConditionModel::Truthy { operand: lhs, negate: false })
                } else if matches_at(s, r, seq!['=', '=']) && r + 2 <= b && op_spaced(s, r, b) {
                    rhs_spec(s, lhs, CompareOp::Eq, r + 2, b)
                } else if matches_at(s, r, seq!['!', '=']) && r + 2 <= b && op_spaced(s, r, b) {
                    rhs_spec(s, lhs, CompareOp::Ne, r + 2, b)
                } else {
                    Err(ConditionFault::MissingOperator)
                }
            },
        }
    }
}

/// The comparison `lhs op <rhs>` with the right side read from `s[i..b]`.
pub open spec fn rhs_spec(s: Seq<char>, lhs: OperandModel, op: CompareOp, i: int, b: int) -> Result<ConditionModel, ConditionFault> {
    let r = skip_ws(s, i, b);
    if r >= b {
        Err(ConditionFault::MissingOperand)
    } else {
        match operand_spec(s, r, b) {
            Err(f) => Err(f),
            Ok((rhs, r2)) => {
                if skip_ws(s, r2, b) < b {
                    Err(ConditionFault::TrailingGarbage(s.subrange(skip_ws(s, r2, b), b)))
                } else {
                    Ok(ConditionModel::Compare { lhs, op, rhs })
                }
            },
        }
    }
}

fn operand_in(s: &Vec<char>, i: usize, hi: usize) -> (r: Result<(Operand, usize), ConditionParseError>)
    requires
        i <= hi <= s@.len(),
    ensures
        match operand_spec(s@, i as int, hi as int) {
            Ok((o, rest)) => r matches Ok((x, k)) && x@ == o && k == rest && i <= k <= hi,
            Err(f) => r matches Err(e) && e@ == f,
        },
        r matches Ok((Operand::Literal(l), _)) ==> l@.len() < hi - i,
        r matches Ok((Operand::Var(v), _)) ==> v@.len() <= hi - i,
{
    if i < hi && s[i] == '"' {
        let (value, rest, closed) = quoted_literal_in(s, i, hi);
        if !closed {
            return Err(ConditionParseError::UnterminatedQuote);
        }
        Ok((Operand::Literal(value), rest))
    } else {
        let end = find_ws_exec(s, i, hi);
        proof {
            lemma_find_ws(s@, i as int, hi as int);
        }
        if end == i {
            return Err(ConditionParseError::EmptyOperand);
        }
        let rest = skip_ws_exec(s, end, hi);
        proof {
            lemma_skip_ws(s@, end as int, hi as int);
        }
        Ok((Operand::Var(string_of_range(s, i, end)), rest))
    }
}

fn rhs_in(s: &Vec<char>, lhs: Operand, op: CompareOp, i: usize, b: usize) -> (r: Result<Condition, ConditionParseError>)
    requires
        i <= b <= s@.len(),
    ensures
        match rhs_spec(s@, lhs@, op, i as int, b as int) {
            Ok(c) => r matches Ok(x) && x@ == c,
            Err(f) => r matches Err(e) && e@ == f,
        },
        r matches Ok(Condition::Compare { rhs, .. }) ==> operand_below(rhs@, b - i),
{
    let r = skip_ws_exec(s, i, b);
    proof {
        lemma_skip_ws(s@, i as int, b as int);
    }
    if r >= b {
        return Err(ConditionParseError::MissingOperand);
    }
    match operand_in(s, r, b) {
        Err(e) => Err(e),
        Ok((rhs, r2)) => {
            let t = skip_ws_exec(s, r2, b);
            proof {
                lemma_skip_ws(s@, r2 as int, b as int);
            }
            if t < b {
                Err(ConditionParseError::TrailingGarbage(string_of_range(s, t, b)))
            } else {
                Ok(Condition::Compare { lhs, op, rhs })
            }
        },
    }
}

/// Parses the condition in `s[lo..hi]`.
pub fn condition_in(s: &Vec<char>, lo: usize, hi: usize) -> (r: Result<Condition, ConditionParseError>)
    requires
        lo <= hi <= s@.len(),
    ensures
        match condition_spec(s@, lo as int, hi as int) {
            Ok(c) => r matches Ok(x) && x@ == c,
            Err(f) => r matches Err(e) && e@ == f,
        },
        r matches Ok(c) ==> literals_below(c@, hi - lo),
{
    let a = skip_ws_exec(s, lo, hi);
    proof {
        lemma_skip_ws(s@, lo as int, hi as int);
    }
    let b = back_ws_exec_local(s, a, hi);
    if a < b && s[a] == '!' {
        let o = skip_ws_exec(s, a + 1, b);
        proof {
            lemma_skip_ws(s@, a + 1, b as int);
        }
        match operand_in(s, o, b) {
            Err(e) => Err(e),
            Ok((operand, r)) => {
                let t = skip_ws_exec(s, r, b);
                proof {
                    lemma_skip_ws(s@, r as int, b as int);
                }
                if t < b {
                    Err(ConditionParseError::TrailingGarbage(string_of_range(s, t, b)))
                } else {
                    Ok(Condition::Truthy { operand, negate: true })
                }
            },
        }
    } else {
        match operand_in(s, a, b) {
            Err(e) => Err(e),
            Ok((lhs, r0)) => {
                let r = skip_ws_exec(s, r0, b);
                proof {
                    lemma_skip_ws(s@, r0 as int, b as int);
                }
                if r >= b {
                    Ok(Condition::Truthy { operand: lhs, negate: false })
                } else if matches_at_exec(s, r, b, &['=', '=']) && op_spaced_exec(s, r, b) {
                    rhs_in(s, lhs, CompareOp::Eq, r + 2, b)
                } else if matches_at_exec(s, r, b, &['!', '=']) && op_spaced_exec(s, r, b) {
                    rhs_in(s, lhs, CompareOp::Ne, r + 2, b)
                } else {
                    Err(ConditionParseError::MissingOperator)
                }
            },
        }
    }
}

/// Whether whitespace stands right before `s[r]` and right after `s[r + 1]` (unless the text
/// ends at `b` there).
fn op_spaced_exec(s: &Vec<char>, r: usize, b: usize) -> (ok: bool)
    requires
        r + 2 <= b <= s@.len(),
    ensures
        ok == op_spaced(s@, r as int, b as int),
{
    if r == 0 {
        return false;
    }
    let before = skip_ws_exec(s, r - 1, r) == r;
    proof {
        lemma_skip_ws(s@, r - 1, r as int);
    }
    if !before {
        return false;
    }
    if r + 2 == b {
        return true;
    }
    let after = skip_ws_exec(s, r + 2, r + 3) == r + 3;
    proof {
        lemma_skip_ws(s@, r + 2, r + 3);
    }
    after
}

fn back_ws_exec_local(s: &Vec<char>, lo: usize, j: usize) -> (k: usize)
    requires
        lo <= j <= s@.len(),
    ensures
        k == back_ws(s@, lo as int, j as int),
        lo <= k <= j,
{
    proof {
        lemma_back_ws(s@, lo as int, j as int);
    }
    crate::text::back_ws_exec(s, lo, j)
}

/// Parses an `.if` directive's raw condition text (see [`Condition`] for the grammar).
pub fn parse_condition(s: &str) -> (r: Result<Condition, ConditionParseError>)
    ensures
        match condition_spec(s@, 0, s@.len() as int) {
            Ok(c) => r matches Ok(x) && x@ == c,
            Err(f) => r matches Err(e) && e@ == f,
        },
        r matches Ok(c) ==> literals_below(c@, s@.len() as int),
{
    let v = chars_of(s);
    condition_in(&v, 0, v.len())
}

/// Parses one operand from the start of `s`: a quoted literal or a bareword up to whitespace.
/// Returns the operand and the rest of `s` after it (leading whitespace removed).
pub fn parse_operand(s: &str) -> (r: Result<(Operand, String), ConditionParseError>)
    ensures
        match operand_spec(s@, 0, s@.len() as int) {
            Ok((o, rest)) => r matches Ok((x, t)) && x@ == o && t@ == s@.subrange(rest, s@.len() as int),
            Err(f) => r matches Err(e) && e@ == f,
        },
{
    let v = chars_of(s);
    match operand_in(&v, 0, v.len()) {
        Ok((o, k)) => Ok((o, string_of_range(&v, k, v.len()))),
        Err(e) => Err(e),
    }
}

/// The value an operand resolves to: `None` for a variable that is not in scope.
pub open spec fn truthy_spec(v: Option<Seq<char>>) -> bool {
    v matches Some(x) && x.len() > 0
}

/// The truth of a condition, given what its operands resolved to (`lhs` is the only operand
/// of a truthiness test). A missing value is falsy, and compares as the empty string.
pub open spec fn truth_spec(c: ConditionModel, lhs: Option<Seq<char>>, rhs: Option<Seq<char>>) -> bool {
    match c {
        ConditionModel::Truthy { negate, .. } => truthy_spec(lhs) != negate,
        ConditionModel::Compare { op, .. } => {
            let l = match lhs {
                Some(x) => x,
                None => Seq::empty(),
            };
            let r = match rhs {
                Some(x) => x,
                None => Seq::empty(),
            };
            match op {
                CompareOp::Eq => l == r,
                CompareOp::Ne => l != r,
            }
        },
    }
}

/// The value of an operand in `env`: a variable's value (`None` when it is not in scope), or
/// a literal interpolated; `None` (outside) when interpolating fails.
pub open spec fn env_operand<E: Environment>(env: &E, o: OperandModel) -> Option<Option<Seq<char>>> {
    match o {
        OperandModel::Var(name) => Some(env.var_spec(name)),
        OperandModel::Literal(raw) => match env.literal_spec(raw) {
            Some(v) => Some(Some(v)),
            None => None,
        },
    }
}

/// The truth of condition `c` in `env`, its operands resolved there; `None` when resolving
/// an operand fails.
pub open spec fn env_truth<E: Environment>(env: &E, c: ConditionModel) -> Option<bool> {
    match c {
        ConditionModel::Truthy { operand, .. } => match env_operand(env, operand) {
            Some(v) => Some(truth_spec(c, v, None)),
            None => None,
        },
        ConditionModel::Compare { lhs, rhs, .. } => match env_operand(env, lhs) {
            Some(l) => match env_operand(env, rhs) {
                Some(r) => Some(truth_spec(c, l, r)),
                None => None,
            },
            None => None,
        },
    }
}

/// An operand as a condition writes it: a plain word not starting with `!`, or a quoted
/// literal whose text holds no quote or backslash.
pub open spec fn operand_form(o: OperandModel) -> bool {
    match o {
        OperandModel::Var(w) => crate::args::plain_word(w) && w[0] != '!',
        OperandModel::Literal(v) => forall|k: int| 0 <= k < v.len() ==> #[trigger] v[k] != '"' && v[k] != '\\',
    }
}

/// The text of an operand in a condition: the word, or the literal between quotes.
pub open spec fn operand_text(o: OperandModel) -> Seq<char> {
    match o {
        OperandModel::Var(w) => w,
        OperandModel::Literal(v) => seq!['"'] + v + seq!['"'],
    }
}

/// An operand written at `s[i..]`, followed by whitespace or the end, reads back as itself.
proof fn lemma_operand_at(s: Seq<char>, i: int, hi: int, o: OperandModel)
    requires
        operand_form(o),
        0 <= i,
        i + operand_text(o).len() <= hi <= s.len(),
        s.subrange(i, i + operand_text(o).len()) == operand_text(o),
        i + operand_text(o).len() == hi || is_ws(s[i + operand_text(o).len()]),
    ensures
        operand_spec(s, i, hi) == Ok::<(OperandModel, int), ConditionFault>((o, skip_ws(s, i + operand_text(o).len(), hi))),
        !is_ws(s[i]),
        !is_ws(s[i + operand_text(o).len() - 1]),
        s[i] != '!',
{
    let x = operand_text(o);
    let l = x.len() as int;
    assert forall|k: int| 0 <= k < l implies s[i + k] == x[k] by {
        assert(s.subrange(i, i + l)[k] == s[i + k]);
    }
    match o {
        OperandModel::Var(w) => {
            assert(s[i] == w[0]);
            assert forall|k: int| i <= k < i + l implies !is_ws(#[trigger] s[k]) by {
                assert(s[k] == w[k - i]);
            }
            if i + l < hi {
                lemma_find_ws_prefix(s, i, i + l, hi);
            } else {
                crate::args::lemma_find_ws_none(s, i, hi);
            }
            assert(s.subrange(i, i + l) =~= w);
        },
        OperandModel::Literal(v) => {
            assert(x[0] == '"');
            assert(x[l - 1] == '"');
            assert(s[i + 0] == x[0]);
            assert(s[i + (l - 1)] == x[l - 1]);
            assert forall|k: int| i + 1 <= k < i + 1 + v.len() implies s[k] != '"' && s[k] != '\\' by {
                assert(s[k] == x[k - i]);
                assert(x[k - i] == v[k - i - 1]);
            }
            crate::args::lemma_quoted_scan_plain(s, i + 1, v.len() as int, hi);
            assert(s.subrange(i + 1, i + 1 + v.len()) =~= v) by {
                assert forall|k: int| 0 <= k < v.len() implies s.subrange(i + 1, i + 1 + v.len())[k] == v[k] by {
                    assert(x[k + 1] == v[k]);
                }
            }
        },
    }
}

/// The forms of a condition: an operand alone tests its truth, `!` before it negates the
/// test, and `o1 == o2` / `o1 != o2` compare the two. An operand is a plain word (a variable)
/// or a quoted literal.
pub proof fn law_condition_forms(o1: OperandModel, o2: OperandModel, ne: bool)
    requires
        operand_form(o1),
        operand_form(o2),
    ensures
        condition_spec(operand_text(o1), 0, operand_text(o1).len() as int) == Ok::<ConditionModel, ConditionFault>(
            ConditionModel::Truthy { operand: o1, negate: false },
        ),
        condition_spec(seq!['!'] + operand_text(o1), 0, operand_text(o1).len() + 1int) == Ok::<ConditionModel, ConditionFault>(
            ConditionModel::Truthy { operand: o1, negate: true },
        ),
        ({
            let s = operand_text(o1) + seq![' ', if ne { '!' } else { '=' }, '=', ' '] + operand_text(o2);
            condition_spec(s, 0, s.len() as int) == Ok::<ConditionModel, ConditionFault>(
                ConditionModel::Compare { lhs: o1, op: if ne { CompareOp::Ne } else { CompareOp::Eq }, rhs: o2 },
            )
        }),
{
    let t1 = operand_text(o1);
    let n = t1.len() as int;
    // The operand alone.
    assert(t1.subrange(0, n) =~= t1);
    lemma_operand_at(t1, 0, n, o1);
    assert(skip_ws(t1, 0, n) == 0);
    assert(back_ws(t1, 0, n) == n);
    // The negated operand.
    let g = seq!['!'] + t1;
    assert(g.subrange(1, 1 + n) =~= t1);
    lemma_operand_at(g, 1, n + 1, o1);
    assert(g[n] == t1[n - 1]);
    assert(back_ws(g, 0, n + 1) == n + 1);
    assert(skip_ws(g, 1, n + 1) == 1);
    // The comparison.
    let t2 = operand_text(o2);
    let m = t2.len() as int;
    let c0 = if ne { '!' } else { '=' };
    let s = t1 + seq![' ', c0, '=', ' '] + t2;
    let b = n + m + 4;
    assert(s[n] == ' ' && s[n + 1] == c0 && s[n + 2] == '=' && s[n + 3] == ' ');
    assert(s.subrange(0, n) =~= t1);
    assert(s.subrange(n + 4, b) =~= t2);
    lemma_operand_at(s, 0, b, o1);
    lemma_operand_at(s, n + 4, b, o2);
    assert(s[0] == t1[0]);
    assert(s[b - 1] == t2[m - 1]);
    assert(skip_ws(s, 0, b) == 0);
    assert(back_ws(s, 0, b) == b);
    assert(skip_ws(s, n + 1, b) == n + 1);
    assert(skip_ws(s, n, b) == n + 1);
    assert(s.subrange(n + 1, n + 3) =~= seq![c0, '=']);
    assert(skip_ws(s, n + 4, b) == n + 4);
    assert(skip_ws(s, n + 3, b) == n + 4);
    assert(skip_ws(s, b, b) == b);
    if ne {
        assert(s.subrange(n + 1, n + 3) != seq!['=', '=']) by {
            assert(s.subrange(n + 1, n + 3)[0] == '!');
        }
    }
}

/// Where a run of non-whitespace `s[i..e]` is followed by whitespace, the scan for whitespace
/// from `i` stops at `e`.
proof fn lemma_find_ws_prefix(s: Seq<char>, i: int, e: int, hi: int)
    requires
        0 <= i <= e < hi <= s.len(),
        forall|k: int| i <= k < e ==> !is_ws(#[trigger] s[k]),
        is_ws(s[e]),
    ensures
        find_ws(s, i, hi) == e,
    decreases e - i,
{
    if i < e {
        lemma_find_ws_prefix(s, i + 1, e, hi);
    }
}

/// What a condition decides from its resolved values: `==` holds exactly when the two values
/// are the same text and `!=` exactly when they differ (a missing value compares as the empty
/// text); a lone operand holds exactly when its value is present and not empty, and `!`
/// flips that.
pub proof fn law_truth_compares_values(
    lhs: OperandModel,
    rhs: OperandModel,
    operand: OperandModel,
    negate: bool,
    x: Seq<char>,
    y: Seq<char>,
    v: Option<Seq<char>>,
    w: Option<Seq<char>>,
)
    ensures
        truth_spec(ConditionModel::Compare { lhs, op: CompareOp::Eq, rhs }, Some(x), Some(y)) <==> x == y,
        truth_spec(ConditionModel::Compare { lhs, op: CompareOp::Ne, rhs }, Some(x), Some(y)) <==> x != y,
        truth_spec(ConditionModel::Compare { lhs, op: CompareOp::Eq, rhs }, None, Some(y)) <==> y.len() == 0,
        truth_spec(ConditionModel::Compare { lhs, op: CompareOp::Eq, rhs }, None, None),
        truth_spec(ConditionModel::Truthy { operand, negate }, v, w) <==> ((v matches Some(s) && s.len() > 0) != negate),
{
    if truth_spec(ConditionModel::Compare { lhs, op: CompareOp::Eq, rhs }, None, Some(y)) {
        assert(Seq::<char>::empty() == y);
    }
    if y.len() == 0 {
        assert(y =~= Seq::<char>::empty());
    }
}

/// The views of an optional string.
pub open spec fn opt_view(v: Option<String>) -> Option<Seq<char>> {
    match v {
        Some(x) => Some(x@),
        None => None,
    }
}

fn str_eq(a: &String, b: &String) -> (r: bool)
    ensures
        r == (a@ == b@),
{
    *a == *b
}

impl Condition {
    /// The truth of this condition, given the resolved values of its operands.
    pub fn truth(&self, lhs: Option<String>, rhs: Option<String>) -> (r: bool)
        ensures
            r == truth_spec(self@, opt_view(lhs), opt_view(rhs)),
    {
        match self {
            Condition::Truthy { negate, .. } => {
                let t = match &lhs {
                    Some(v) => !v.as_str().is_empty(),
                    None => false,
                };
                t != *negate
            },
            Condition::Compare { op, .. } => {
                let l = match lhs {
                    Some(x) => x,
                    None => String::new(),
                };
                let r = match rhs {
                    Some(x) => x,
                    None => String::new(),
                };
                match op {
                    CompareOp::Eq => str_eq(&l, &r),
                    CompareOp::Ne => !str_eq(&l, &r),
                }
            },
        }
    }

    /// Resolves one operand: a variable looks itself up (missing is `None`), a literal is
    /// interpolated through the environment.
    fn resolve_operand<E: Environment>(o: &Operand, env: &E) -> (r: Result<Option<String>, Error>)
        ensures
            match env_operand(env, o@) {
                Some(v) => r matches Ok(x) && opt_view(x) == v,
                None => r is Err,
            },
            o is Var ==> r is Ok,
    {
        match o {
            Operand::Var(name) => Ok(env.lookup_var(name.as_str())),
            Operand::Literal(raw) => match env.resolve_literal(raw.as_str()) {
                Ok(v) => Ok(Some(v)),
                Err(e) => Err(e),
            },
        }
    }

    /// Evaluates this condition against `env`: each operand is resolved (left first), then
    /// [`Condition::truth`] decides.
    pub fn evaluate<E: Environment>(&self, env: &E) -> (r: Result<bool, Error>)
        ensures
            match env_truth(env, self@) {
                Some(b) => r matches Ok(x) && x == b,
                None => r is Err,
            },
            operands_are_variables(self@) ==> r is Ok,
    {
        match self {
            Condition::Truthy { operand, .. } => {
                let v = Self::resolve_operand(operand, env)?;
                let ghost gv = opt_view(v);
                let b = self.truth(v, None);
                assert(b == truth_spec(self@, gv, None));
                Ok(b)
            },
            Condition::Compare { lhs, rhs, .. } => {
                let l = Self::resolve_operand(lhs, env)?;
                let r = Self::resolve_operand(rhs, env)?;
                let ghost gl = opt_view(l);
                let ghost gr = opt_view(r);
                let b = self.truth(l, r);
                assert(b == truth_spec(self@, gl, gr));
                Ok(b)
            },
        }
    }
}

/// The text that describes a condition fault.
pub open spec fn condition_fault_message(f: ConditionFault) -> Seq<char> {
    match f {
        ConditionFault::UnterminatedQuote => "unterminated quoted string"@,
        ConditionFault::EmptyOperand => "expected a variable name or a quoted string"@,
        ConditionFault::MissingOperator => "expected '==' or '!=' after the first operand"@,
        ConditionFault::MissingOperand => "expected an operand after the comparison operator"@,
        ConditionFault::TrailingGarbage(rest) => "unexpected trailing text: '"@ + rest + "'"@,
    }
}

impl ConditionParseError {
    /// A human-readable description of this fault.
    pub fn message(&self) -> (r: String)
        ensures
            r@ == condition_fault_message(self@),
    {
        match self {
            ConditionParseError::UnterminatedQuote => String::from_str("unterminated quoted string"),
            ConditionParseError::EmptyOperand => String::from_str(
                "expected a variable name or a quoted string",
            ),
            ConditionParseError::MissingOperator => String::from_str(
                "expected '==' or '!=' after the first operand",
            ),
            ConditionParseError::MissingOperand => String::from_str(
                "expected an operand after the comparison operator",
            ),
            ConditionParseError::TrailingGarbage(rest) => {
                let mut m = String::from_str("unexpected trailing text: '");
                m.append(rest.as_str());
                m.append("'");
                m
            },
        }
    }
}

} // verus!
