//! Evaluating a template: scanning its tags in order, tracking `.block`/`.if` frames, and
//! splicing in what the environment resolves.
use vstd::prelude::*;
use crate::condition::{condition_spec, env_truth, operands_are_variables, parse_condition};
use crate::environment::Environment;
use crate::error::{Error, ErrorKind, SourceText, Span};
use crate::filters::{apply_filters, parse_var_spec};
use crate::lexer::{
    lemma_next_open, lemma_tag_end, next_open, parse_directive_spec, push_unescaped,
    byte_span, scan_result_spec, scan_spec, span_of, tag_end, unescape_spec, Directive, DirectiveModel, ScanModel,
    TagScanner,
};

verus! {

/// A currently open `.block` or `.if`, so a shared `{{.end}}` closes the right kind.
#[derive(Debug, Clone, Copy, PartialEq, Eq)]
pub enum Frame {
    Block(Span),
    If {
        span: Span,
        /// This `.if`'s own condition (always false when it opened in a suppressed region).
        cond_true: bool,
        in_else: bool,
        /// Whether text was being emitted right before this `.if` opened.
        was_emitting: bool,
    },
}

/// What a directive asks of the environment in the current state.
#[derive(Debug, Clone, Copy, PartialEq, Eq)]
pub enum Need {
    /// Nothing: the directive contributes no text.
    Nothing,
    /// Its text: the variable, include, block opening or block closing.
    Value,
    /// The truth of its `.if` condition.
    Condition,
}

/// What directive `d` needs, with open frames `frames` and emission state `emitting`.
pub open spec fn need_spec(frames: Seq<Frame>, emitting: bool, d: DirectiveModel) -> Need {
    match d {
        DirectiveModel::Var(_) | DirectiveModel::Include { .. } | DirectiveModel::Block(_) => {
            if emitting {
                Need::Value
            } else {
                Need::Nothing
            }
        },
        DirectiveModel::If(_) => if emitting {
            Need::Condition
        } else {
            Need::Nothing
        },
        DirectiveModel::Else => Need::Nothing,
        DirectiveModel::End => if frames.len() > 0 && frames.last() is If {
            Need::Nothing
        } else if emitting {
            Need::Value
        } else {
            Need::Nothing
        },
    }
}

/// The frames and emission state after directive `d` at `span`, where `cond` is the truth of
/// an `.if` condition (consulted only when emitting).
pub open spec fn next_state(frames: Seq<Frame>, emitting: bool, d: DirectiveModel, span: Span, cond: bool) -> (Seq<Frame>, bool) {
    match d {
        DirectiveModel::Block(_) => (frames.push(Frame::Block(span)), emitting),
        DirectiveModel::If(_) => {
            let c = emitting && cond;
            (frames.push(Frame::If { span, cond_true: c, in_else: false, was_emitting: emitting }), c)
        },
        DirectiveModel::Else => {
            if frames.len() == 0 {
                (frames, emitting)
            } else {
                match frames.last() {
                    Frame::If { span: sp, cond_true, in_else, was_emitting } => if !in_else {
                        (frames.update(frames.len() - 1, Frame::If { span: sp, cond_true, in_else: true, was_emitting }), was_emitting && !cond_true)
                    } else {
                        (frames, emitting)
                    },
                    Frame::Block(_) => (frames, emitting),
                }
            }
        },
        DirectiveModel::End => {
            if frames.len() == 0 {
                (frames, emitting)
            } else {
                match frames.last() {
                    Frame::If { was_emitting, .. } => (frames.drop_last(), was_emitting),
                    Frame::Block(_) => (frames.drop_last(), emitting),
                }
            }
        },
        _ => (frames, emitting),
    }
}

/// The environment's answer for the `k`-th tag, or a default past the end of `ans`.
pub open spec fn answer_at(ans: Seq<(Seq<char>, bool)>, k: int) -> (Seq<char>, bool) {
    if 0 <= k < ans.len() {
        ans[k]
    } else {
        (Seq::empty(), false)
    }
}

/// What evaluating `s` from `cursor` produces, with the given open frames and emission state,
/// when the environment answers the `k`-th tag (counting from the start) with `ans[k]`: a text
/// for a tag that needs one, a truth for an `.if`. `None` when scanning fails or a `.block`/`.if`
/// is left open.
pub open spec fn eval_from(s: Seq<char>, cursor: int, frames: Seq<Frame>, emitting: bool, ans: Seq<(Seq<char>, bool)>, k: int) -> Option<Seq<char>>
    decreases s.len() - cursor,
{
    if cursor < 0 || cursor > s.len() {
        None
    } else {
        match scan_spec(s, cursor) {
            ScanModel::Done => if frames.len() == 0 {
                Some(
                    if emitting {
                        unescape_spec(s, cursor, s.len() as int)
                    } else {
                        Seq::empty()
                    },
                )
            } else {
                None
            },
            ScanModel::Tag { directive, start, end } => {
                if !(cursor <= start && start < end && end <= s.len()) {
                    None
                } else {
                    let text = if emitting {
                        unescape_spec(s, cursor, start)
                    } else {
                        Seq::empty()
                    };
                    let a = answer_at(ans, k);
                    let val = if need_spec(frames, emitting, directive) is Value {
                        a.0
                    } else {
                        Seq::empty()
                    };
                    let st = next_state(frames, emitting, directive, span_of(s, start, end), a.1);
                    match eval_from(s, end, st.0, st.1, ans, k + 1) {
                        Some(rest) => Some(text + val + rest),
                        None => None,
                    }
                }
            },
            _ => None,
        }
    }
}

/// `p` put in front of the text in `o`, if any.
pub open spec fn prepend(p: Seq<char>, o: Option<Seq<char>>) -> Option<Seq<char>> {
    match o {
        Some(x) => Some(p + x),
        None => None,
    }
}

/// What a template `s` evaluates to when the environment answers its tags with `ans`.
pub open spec fn eval_spec(s: Seq<char>, ans: Seq<(Seq<char>, bool)>) -> Option<Seq<char>> {
    eval_from(s, 0, Seq::empty(), true, ans, 0)
}

/// The evaluation so far is a prefix of every run that continues with the same answers.
pub open spec fn progress(s: Seq<char>, out: Seq<char>, cursor: int, frames: Seq<Frame>, emitting: bool, ans: Seq<(Seq<char>, bool)>) -> bool {
    forall|ext: Seq<(Seq<char>, bool)>| #[trigger] eval_spec(s, ans + ext) == prepend(out, eval_from(s, cursor, frames, emitting, ans + ext, ans.len() as int))
}

/// What directive `d` needs right now.
pub fn need_of(frames: &Vec<Frame>, emitting: bool, d: &Directive) -> (n: Need)
    ensures
        n == need_spec(frames@, emitting, d@),
{
    match d {
        Directive::Var(_) | Directive::Include { .. } | Directive::Block(_) => if emitting {
            Need::Value
        } else {
            Need::Nothing
        },
        Directive::If(_) => if emitting {
            Need::Condition
        } else {
            Need::Nothing
        },
        Directive::Else => Need::Nothing,
        Directive::End => {
            let top_is_if = frames.len() > 0 && match frames[frames.len() - 1] {
                Frame::If { .. } => true,
                Frame::Block(_) => false,
            };
            if top_is_if {
                Need::Nothing
            } else if emitting {
                Need::Value
            } else {
                Need::Nothing
            }
        },
    }
}

/// Updates the open frames and emission state for directive `d` at `span`.
pub fn advance(frames: &mut Vec<Frame>, emitting: &mut bool, d: &Directive, span: Span, cond: bool)
    ensures
        (final(frames)@, *final(emitting)) == next_state(old(frames)@, *old(emitting), d@, span, cond),
{
    match d {
        Directive::Block(_) => {
            frames.push(Frame::Block(span));
        },
        Directive::If(_) => {
            let c = *emitting && cond;
            frames.push(Frame::If { span, cond_true: c, in_else: false, was_emitting: *emitting });
            *emitting = c;
        },
        Directive::Else => {
            let n = frames.len();
            if n > 0 {
                match frames[n - 1] {
                    Frame::If { span: sp, cond_true, in_else, was_emitting } => {
                        if !in_else {
                            frames.set(n - 1, Frame::If { span: sp, cond_true, in_else: true, was_emitting });
                            *emitting = was_emitting && !cond_true;
                        }
                    },
                    Frame::Block(_) => {},
                }
            }
        },
        Directive::End => {
            match frames.pop() {
                Some(Frame::If { was_emitting, .. }) => {
                    *emitting = was_emitting;
                },
                _ => {},
            }
        },
        _ => {},
    }
}

/// The error that a frame left open at the end of a template raises.
pub fn unclosed_error(f: Frame, named_src: &SourceText) -> (e: Error)
    ensures
        match f {
            Frame::Block(span) => e.0 matches ErrorKind::UnclosedBlock { src, span: sp } && src@ == named_src@ && sp == span,
            Frame::If { span, .. } => e.0 matches ErrorKind::UnclosedIf { src, span: sp } && src@ == named_src@ && sp == span,
        },
{
    match f {
        Frame::Block(span) => Error(ErrorKind::UnclosedBlock { src: named_src.duplicate(), span }),
        Frame::If { span, .. } => Error(ErrorKind::UnclosedIf { src: named_src.duplicate(), span }),
    }
}

/// One step of evaluation proof: the progress invariant carries over a tag whose text and
/// answer have been appended.
pub proof fn lemma_progress_step(
    s: Seq<char>,
    out: Seq<char>,
    cursor: int,
    frames: Seq<Frame>,
    emitting: bool,
    ans: Seq<(Seq<char>, bool)>,
    d: DirectiveModel,
    start: int,
    end: int,
    a: (Seq<char>, bool),
)
    requires
        progress(s, out, cursor, frames, emitting, ans),
        0 <= cursor <= start < end <= s.len(),
        scan_spec(s, cursor) == (ScanModel::Tag { directive: d, start, end }),
    ensures
        ({
            let text = if emitting { unescape_spec(s, cursor, start) } else { Seq::empty() };
            let val = if need_spec(frames, emitting, d) is Value { a.0 } else { Seq::empty() };
            let st = next_state(frames, emitting, d, span_of(s, start, end), a.1);
            progress(s, out + text + val, end, st.0, st.1, ans.push(a))
        }),
{
    let text = if emitting { unescape_spec(s, cursor, start) } else { Seq::empty() };
    let val = if need_spec(frames, emitting, d) is Value { a.0 } else { Seq::empty() };
    let st = next_state(frames, emitting, d, span_of(s, start, end), a.1);
    assert forall|ext: Seq<(Seq<char>, bool)>| #[trigger] eval_spec(s, ans.push(a) + ext) == prepend(out + text + val, eval_from(s, end, st.0, st.1, ans.push(a) + ext, ans.push(a).len() as int)) by {
        let e2 = seq![a] + ext;
        assert(ans + e2 =~= ans.push(a) + ext);
        assert(eval_spec(s, ans + e2) == prepend(out, eval_from(s, cursor, frames, emitting, ans + e2, ans.len() as int)));
        assert(answer_at(ans + e2, ans.len() as int) == a);
        let rest = eval_from(s, end, st.0, st.1, ans + e2, ans.len() + 1int);
        assert(eval_from(s, cursor, frames, emitting, ans + e2, ans.len() as int) == prepend(text + val, rest));
        match rest {
            Some(x) => {
                assert(out + (text + val + x) =~= out + text + val + x);
            },
            None => {},
        }
    }
}

pub proof fn lemma_progress_init(s: Seq<char>)
    ensures
        progress(s, Seq::empty(), 0, Seq::empty(), true, Seq::empty()),
{
    assert forall|ext: Seq<(Seq<char>, bool)>| #[trigger] eval_spec(s, Seq::<(Seq<char>, bool)>::empty() + ext) == prepend(Seq::empty(), eval_from(s, 0, Seq::empty(), true, Seq::<(Seq<char>, bool)>::empty() + ext, 0)) by {
        match eval_from(s, 0, Seq::empty(), true, Seq::<(Seq<char>, bool)>::empty() + ext, 0) {
            Some(x) => {
                assert(Seq::<char>::empty() + x =~= x);
            },
            None => {},
        }
    }
}

pub proof fn lemma_progress_done(s: Seq<char>, out: Seq<char>, cursor: int, emitting: bool, ans: Seq<(Seq<char>, bool)>)
    requires
        progress(s, out, cursor, Seq::empty(), emitting, ans),
        0 <= cursor <= s.len(),
        scan_spec(s, cursor) is Done,
    ensures
        eval_spec(s, ans) == Some(out + if emitting { unescape_spec(s, cursor, s.len() as int) } else { Seq::empty() }),
{
    assert(ans + Seq::<(Seq<char>, bool)>::empty() =~= ans);
    assert(eval_spec(s, ans + Seq::<(Seq<char>, bool)>::empty()) == prepend(out, eval_from(s, cursor, Seq::empty(), emitting, ans + Seq::<(Seq<char>, bool)>::empty(), ans.len() as int)));
}

/// Facts about a scanned tag that keep the evaluation loop moving forward.
pub proof fn lemma_tag_bounds(s: Seq<char>, cursor: int)
    requires
        0 <= cursor <= s.len(),
    ensures
        scan_spec(s, cursor) matches ScanModel::Tag { start, end, .. } ==> cursor <= start < end <= s.len(),
{
    lemma_next_open(s, cursor);
    if let Some(k) = next_open(s, cursor) {
        lemma_tag_end(s, k + 3, false, false);
    }
}

/// Scanning moves forward: a tag found from `cursor` starts at or after it and ends after its
/// start, within the text, so each step of an evaluation resumes further on.
pub proof fn law_tags_found_in_order(s: Seq<char>, cursor: int)
    requires
        0 <= cursor <= s.len(),
    ensures
        scan_spec(s, cursor) matches ScanModel::Tag { start, end, .. } ==> cursor <= start < end <= s.len(),
{
    lemma_tag_bounds(s, cursor);
}

/// Evaluation reads the answers only from the `k`-th on: two answer lists that agree from
/// there give the same result.
pub proof fn lemma_eval_agree(
    s: Seq<char>,
    cursor: int,
    frames: Seq<Frame>,
    emitting: bool,
    a1: Seq<(Seq<char>, bool)>,
    a2: Seq<(Seq<char>, bool)>,
    k: int,
)
    requires
        forall|j: int| j >= k ==> #[trigger] answer_at(a1, j) == answer_at(a2, j),
    ensures
        eval_from(s, cursor, frames, emitting, a1, k) == eval_from(s, cursor, frames, emitting, a2, k),
    decreases s.len() - cursor,
{
    if 0 <= cursor <= s.len() {
        if let ScanModel::Tag { directive, start, end } = scan_spec(s, cursor) {
            if cursor <= start && start < end && end <= s.len() {
                let a = answer_at(a1, k);
                assert(answer_at(a2, k) == a);
                let st = next_state(frames, emitting, directive, span_of(s, start, end), a.1);
                lemma_eval_agree(s, end, st.0, st.1, a1, a2, k + 1);
            }
        }
    }
}

/// The views of a list of answers.
pub open spec fn answers_view(a: Seq<(String, bool)>) -> Seq<(Seq<char>, bool)> {
    a.map_values(|p: (String, bool)| (p.0@, p.1))
}

/// The answers `answer_at(a, 0..k)`.
pub open spec fn answers_upto(a: Seq<(Seq<char>, bool)>, k: int) -> Seq<(Seq<char>, bool)> {
    Seq::new(k as nat, |j: int| answer_at(a, j))
}

/// Evaluates a template with the environment's answers given up front: the `k`-th tag
/// (counting every tag) that asks for text gets `answers[k].0`, and an `.if` that asks for its
/// truth gets `answers[k].1`; tags past the end of `answers` get an empty text and `false`.
/// `None` when a tag is malformed or unclosed, or a `.block`/`.if` is left open.
pub fn evaluate_with_answers(content: &str, answers: &Vec<(String, bool)>) -> (r: Option<String>)
    ensures
        match eval_spec(content@, answers_view(answers@)) {
            Some(out) => r matches Some(x) && x@ == out,
            None => r is None,
        },
{
    let ghost full = answers_view(answers@);
    let s = crate::text::chars_of(content);
    let n = s.len();
    let mut result = String::new();
    let mut cursor: usize = 0;
    let mut frames: Vec<Frame> = Vec::new();
    let mut emitting = true;
    let mut k: usize = 0;
    let ghost ans: Seq<(Seq<char>, bool)> = Seq::empty();
    proof {
        lemma_progress_init(s@);
        assert(ans =~= answers_upto(full, 0));
    }
    loop
        invariant
            cursor <= n == s@.len(),
            s@ == content@,
            full == answers_view(answers@),
            ans == answers_upto(full, k as int),
            ans.len() == k,
            k <= cursor,
            progress(s@, result@, cursor as int, frames@, emitting, ans),
        decreases n - cursor,
    {
        proof {
            lemma_tag_bounds(s@, cursor as int);
            let ext = if k <= full.len() { full.skip(k as int) } else { Seq::<(Seq<char>, bool)>::empty() };
            assert forall|j: int| j >= 0 implies #[trigger] answer_at(ans + ext, j) == answer_at(full, j) by {
                if j < k {
                    assert((ans + ext)[j] == ans[j]);
                } else if k <= full.len() && j < full.len() {
                    assert((ans + ext)[j] == ext[j - k]);
                }
            }
            lemma_eval_agree(s@, 0, Seq::empty(), true, ans + ext, full, 0);
            assert(eval_spec(s@, ans + ext) == prepend(result@, eval_from(s@, cursor as int, frames@, emitting, ans + ext, k as int)));
            assert(eval_spec(s@, full) == eval_spec(s@, ans + ext));
        }
        let scanned = find_next_tag(&s, cursor);
        let (directive, start, end) = match scanned {
            None => {
                if frames.len() > 0 {
                    return None;
                }
                let ghost before = result@;
                if emitting {
                    push_unescaped(&mut result, &s, cursor, n);
                } else {
                    assert(before + Seq::<char>::empty() =~= before);
                }
                return Some(result);
            },
            Some(Err(())) => return None,
            Some(Ok(t)) => t,
        };
        let ghost before = result@;
        if emitting {
            push_unescaped(&mut result, &s, cursor, start);
        }
        let ghost after_text = result@;
        let need = need_of(&frames, emitting, &directive);
        let (text, cond) = if k < answers.len() {
            (answers[k].0.clone(), answers[k].1)
        } else {
            (String::new(), false)
        };
        let ghost a = (text@, cond);
        proof {
            assert(a == answer_at(full, k as int));
        }
        let ghost old_frames = frames@;
        let ghost old_emitting = emitting;
        let span = byte_span(&s, start, end);
        advance(&mut frames, &mut emitting, &directive, span, cond);
        let is_value = match need {
            Need::Value => true,
            _ => false,
        };
        if is_value {
            result.append(text.as_str());
        }
        proof {
            lemma_progress_step(s@, before, cursor as int, old_frames, old_emitting, ans, directive@, start as int, end as int, a);
            let t = if old_emitting { unescape_spec(s@, cursor as int, start as int) } else { Seq::empty() };
            assert(after_text == before + t) by {
                if !old_emitting {
                    assert(before + Seq::<char>::empty() =~= before);
                }
            }
            if need is Value {
                assert(result@ == before + t + text@);
            } else {
                assert(result@ =~= before + t + Seq::<char>::empty());
            }
            ans = ans.push(a);
            assert(ans =~= answers_upto(full, k + 1));
        }
        k = k + 1;
        cursor = end;
    }
}

/// The next tag at or after `offset`: `None` when there is none, `Err` when it is malformed
/// or unclosed, else its directive and where it starts and ends.
fn find_next_tag(s: &Vec<char>, offset: usize) -> (r: Option<Result<(Directive, usize, usize), ()>>)
    requires
        offset <= s@.len(),
    ensures
        match scan_spec(s@, offset as int) {
            ScanModel::Done => r is None,
            ScanModel::Tag { directive, start, end } => r matches Some(Ok((d, st, e))) && d@ == directive && st == start && e == end,
            _ => r matches Some(Err(())),
        },
{
    let scanner = TagScanner { src: s.clone(), named_src: SourceText { name: String::new(), text: String::new() } };
    match scanner.tag_at(offset) {
        Ok(None) => None,
        Ok(Some(t)) => Some(Ok((t.directive, t.start, t.end))),
        Err(_) => Some(Err(())),
    }
}

/// A template without tags evaluates to its text (escaped markers unescaped), whatever the
/// environment would answer.
pub proof fn law_plain_text(s: Seq<char>, ans: Seq<(Seq<char>, bool)>)
    requires
        next_open(s, 0) is None,
    ensures
        eval_spec(s, ans) == Some(unescape_spec(s, 0, s.len() as int)),
{
}

/// Emission never escapes an enclosing `.if`: opening an `.if` never turns emission on; its
/// `.else` turns emission on only where it was on when the `.if` opened (a second `.else`
/// changes nothing); its `.end` restores
/// the emission from before it; a `.block` leaves emission as it is.
pub proof fn law_emission_stays_inside_if(frames: Seq<Frame>, emitting: bool, d: DirectiveModel, span: Span, cond: bool)
    ensures
        d is If ==> (next_state(frames, emitting, d, span, cond).1 ==> emitting),
        d is If ==> (next_state(frames, emitting, d, span, cond).1 == (emitting && cond)),
        d is Else && frames.len() > 0 ==> (frames.last() matches Frame::If { was_emitting, in_else, .. } ==> (
            next_state(frames, emitting, d, span, cond).1 ==> was_emitting || (in_else && emitting))),
        d is End && frames.len() > 0 ==> (frames.last() matches Frame::If { was_emitting, .. } ==> next_state(
            frames,
            emitting,
            d,
            span,
            cond,
        ).1 == was_emitting),
        d is Block ==> next_state(frames, emitting, d, span, cond).1 == emitting,
{
}

/// Inside an `.if` that opened with emission off, emission stays off: every `.if` frame
/// opened while emission was off has emission off and every `.if` opened after it too.
pub open spec fn off_branches_stay_off(frames: Seq<Frame>, emitting: bool) -> bool {
    forall|i: int| 0 <= i < frames.len() && (#[trigger] frames[i] matches Frame::If { was_emitting, .. } && !was_emitting) ==> {
        &&& !emitting
        &&& forall|j: int| i < j < frames.len() ==> (#[trigger] frames[j] matches Frame::If { was_emitting: w, .. } ==> !w)
    }
}

/// Nothing inside a false `.if` is emitted, whatever nests inside it: the evaluation starts
/// in a state where this holds, every directive keeps it, and while an `.if` that opened with
/// emission off is still open (until its matching `.end` removes its frame), emission is off.
pub proof fn law_false_if_suppresses_its_body(frames: Seq<Frame>, emitting: bool, d: DirectiveModel, span: Span, cond: bool, i: int)
    ensures
        off_branches_stay_off(Seq::empty(), true),
        off_branches_stay_off(frames, emitting) ==> off_branches_stay_off(
            next_state(frames, emitting, d, span, cond).0,
            next_state(frames, emitting, d, span, cond).1,
        ),
        off_branches_stay_off(frames, emitting) && 0 <= i < frames.len() && (frames[i] matches Frame::If { was_emitting, .. }
            && !was_emitting) ==> !emitting,
{
    if off_branches_stay_off(frames, emitting) {
        let st = next_state(frames, emitting, d, span, cond);
        let n = frames.len() as int;
        match d {
            DirectiveModel::If(_) => {
                assert forall|a: int| 0 <= a < st.0.len() && (#[trigger] st.0[a] matches Frame::If { was_emitting, .. } && !was_emitting) implies {
                    &&& !st.1
                    &&& forall|b: int| a < b < st.0.len() ==> (#[trigger] st.0[b] matches Frame::If { was_emitting: w, .. } ==> !w)
                } by {
                    if a < n {
                        assert(st.0[a] == frames[a]);
                        assert forall|b: int| a < b < st.0.len() implies (#[trigger] st.0[b] matches Frame::If { was_emitting: w, .. } ==> !w) by {
                            if b < n {
                                assert(st.0[b] == frames[b]);
                            }
                        }
                    }
                }
            },
            DirectiveModel::Block(_) => {
                assert forall|a: int| 0 <= a < st.0.len() && (#[trigger] st.0[a] matches Frame::If { was_emitting, .. } && !was_emitting) implies {
                    &&& !st.1
                    &&& forall|b: int| a < b < st.0.len() ==> (#[trigger] st.0[b] matches Frame::If { was_emitting: w, .. } ==> !w)
                } by {
                    assert(st.0[a] == frames[a]);
                    assert forall|b: int| a < b < st.0.len() implies (#[trigger] st.0[b] matches Frame::If { was_emitting: w, .. } ==> !w) by {
                        if b < n {
                            assert(st.0[b] == frames[b]);
                        }
                    }
                }
            },
            DirectiveModel::Else => {
                if n > 0 && frames.last() is If {
                    assert forall|a: int| 0 <= a < st.0.len() && (#[trigger] st.0[a] matches Frame::If { was_emitting, .. } && !was_emitting) implies {
                        &&& !st.1
                        &&& forall|b: int| a < b < st.0.len() ==> (#[trigger] st.0[b] matches Frame::If { was_emitting: w, .. } ==> !w)
                    } by {
                        assert(frames[a] is If);
                        assert(frames[n - 1] is If);
                        assert forall|b: int| a < b < st.0.len() implies (#[trigger] st.0[b] matches Frame::If { was_emitting: w, .. } ==> !w) by {
                            assert(frames[b] is If ==> st.0[b] is If);
                        }
                    }
                }
            },
            DirectiveModel::End => {
                if n > 0 {
                    assert forall|a: int| 0 <= a < st.0.len() && (#[trigger] st.0[a] matches Frame::If { was_emitting, .. } && !was_emitting) implies {
                        &&& !st.1
                        &&& forall|b: int| a < b < st.0.len() ==> (#[trigger] st.0[b] matches Frame::If { was_emitting: w, .. } ==> !w)
                    } by {
                        assert(st.0[a] == frames[a]);
                        assert(frames[n - 1] == frames[n - 1]);
                        assert forall|b: int| a < b < st.0.len() implies (#[trigger] st.0[b] matches Frame::If { was_emitting: w, .. } ==> !w) by {
                            assert(st.0[b] == frames[b]);
                        }
                    }
                }
            },
            _ => {},
        }
    }
}

/// While a false `.if` branch is skipped, no directive asks anything of the environment.
pub proof fn law_suppressed_tags_need_nothing(frames: Seq<Frame>, d: DirectiveModel)
    ensures
        need_spec(frames, false, d) is Nothing,
{
}

/// The text that directive `d` contributes in `env` when it needs a value: a variable passed
/// through its filters, an include, a block's opening or closing markup; `None` when the
/// environment fails or a filter is unknown.
pub open spec fn env_value<E: Environment>(env: &E, d: DirectiveModel) -> Option<Seq<char>> {
    match d {
        DirectiveModel::Var(spec_text) => {
            let segs = crate::filters::pipe_segments(spec_text, 0, spec_text.len() as int);
            match env.var_spec(segs[0]) {
                None => None,
                Some(v) => match crate::filters::filters_spec(v, segs.skip(1)) {
                    Ok(x) => Some(x),
                    Err(_) => None,
                },
            }
        },
        DirectiveModel::Include { file, args } => env.file_spec(file, args),
        DirectiveModel::Block(name) => Some(env.block_spec(name)),
        DirectiveModel::End => Some(env.end_spec()),
        _ => Some(Seq::empty()),
    }
}

/// The truth of directive `d` in `env` when it needs a condition: an `.if`'s condition parsed
/// and judged there; `None` when it does not parse or an operand fails.
pub open spec fn env_condition<E: Environment>(env: &E, d: DirectiveModel) -> Option<bool> {
    match d {
        DirectiveModel::If(cs) => match condition_spec(cs, 0, cs.len() as int) {
            Ok(cm) => env_truth(env, cm),
            Err(_) => None,
        },
        _ => Some(false),
    }
}

/// What evaluating `s` from `cursor` in `env` gives, with open frames `frames` and emission
/// state `emitting`: each tag answered by `env` as it needs; `None` on any failure.
pub open spec fn env_run<E: Environment>(env: &E, s: Seq<char>, cursor: int, frames: Seq<Frame>, emitting: bool) -> Option<Seq<char>>
    decreases s.len() - cursor,
{
    if cursor < 0 || cursor > s.len() {
        None
    } else {
        match scan_spec(s, cursor) {
            ScanModel::Done => if frames.len() == 0 {
                Some(if emitting { unescape_spec(s, cursor, s.len() as int) } else { Seq::empty() })
            } else {
                None
            },
            ScanModel::Tag { directive, start, end } => {
                if !(cursor <= start && start < end && end <= s.len()) {
                    None
                } else {
                    let text = if emitting { unescape_spec(s, cursor, start) } else { Seq::empty() };
                    let span = span_of(s, start, end);
                    match need_spec(frames, emitting, directive) {
                        Need::Nothing => {
                            let st = next_state(frames, emitting, directive, span, false);
                            prepend(text, env_run(env, s, end, st.0, st.1))
                        },
                        Need::Value => match env_value(env, directive) {
                            None => None,
                            Some(val) => {
                                let st = next_state(frames, emitting, directive, span, false);
                                prepend(text + val, env_run(env, s, end, st.0, st.1))
                            },
                        },
                        Need::Condition => match env_condition(env, directive) {
                            None => None,
                            Some(cond) => {
                                let st = next_state(frames, emitting, directive, span, cond);
                                prepend(text, env_run(env, s, end, st.0, st.1))
                            },
                        },
                    }
                }
            },
            _ => None,
        }
    }
}

/// What evaluating the template `s` in `env` gives; `None` when it fails.
pub open spec fn env_eval<E: Environment>(env: &E, s: Seq<char>) -> Option<Seq<char>> {
    env_run(env, s, 0, Seq::empty(), true)
}

/// Why an evaluation stops, where the error it raises is fixed by the template alone.
pub enum Stop {
    /// Scanning meets an unclosed or malformed tag.
    Scan(ScanModel),
    /// The template ends with this `.block` or `.if` left open.
    Unclosed(Frame),
    /// A `.var` names a variable that is not in scope.
    MissingVar(Seq<char>),
    /// A `.var` names a filter that is not known.
    UnknownFilter(Seq<char>),
}

/// `e` is the error that reports `st` for the template `s` named `src`.
pub open spec fn stop_reported(e: Error, st: Stop, src: (Seq<char>, Seq<char>), s: Seq<char>) -> bool {
    match st {
        Stop::Scan(ScanModel::Unclosed { start }) => e.0 matches ErrorKind::UnclosedTag { src: es, span }
            && es@ == src && span == span_of(s, start, s.len() as int),
        Stop::Scan(ScanModel::Malformed { fault, start, end, body }) => crate::lexer::fault_error_spec(
            e.0,
            fault,
            body,
            src,
            span_of(s, start, end),
        ),
        Stop::Scan(_) => true,
        Stop::Unclosed(Frame::Block(span)) => e.0 matches ErrorKind::UnclosedBlock { src: es, span: sp } && es@ == src && sp == span,
        Stop::Unclosed(Frame::If { span, .. }) => e.0 matches ErrorKind::UnclosedIf { src: es, span: sp } && es@ == src && sp == span,
        Stop::MissingVar(n) => e.0 matches ErrorKind::VariableNotFound { var_name, .. } && var_name@ == n,
        Stop::UnknownFilter(f) => e.0 matches ErrorKind::UnknownFilter { filter_name, .. } && filter_name@ == f,
    }
}

/// Why evaluating `s` from `cursor` in `env` stops, if it does and the first failure on the
/// way is one of those of [`Stop`]; `None` when it succeeds or another failure comes first
/// (one the environment reports, or an `.if` condition that does not parse).
pub open spec fn env_stop<E: Environment>(env: &E, s: Seq<char>, cursor: int, frames: Seq<Frame>, emitting: bool) -> Option<Stop>
    decreases s.len() - cursor,
{
    if cursor < 0 || cursor > s.len() {
        None
    } else {
        match scan_spec(s, cursor) {
            ScanModel::Done => if frames.len() > 0 {
                Some(Stop::Unclosed(frames.last()))
            } else {
                None
            },
            ScanModel::Tag { directive, start, end } => {
                if !(cursor <= start && start < end && end <= s.len()) {
                    None
                } else {
                    let span = span_of(s, start, end);
                    match need_spec(frames, emitting, directive) {
                        Need::Nothing => {
                            let st = next_state(frames, emitting, directive, span, false);
                            env_stop(env, s, end, st.0, st.1)
                        },
                        Need::Value => {
                            let st = next_state(frames, emitting, directive, span, false);
                            match directive {
                                DirectiveModel::Var(spec_text) => {
                                    let segs = crate::filters::pipe_segments(spec_text, 0, spec_text.len() as int);
                                    match env.var_spec(segs[0]) {
                                        None => Some(Stop::MissingVar(segs[0])),
                                        Some(v) => match crate::filters::filters_spec(v, segs.skip(1)) {
                                            Err(bad) => Some(Stop::UnknownFilter(bad)),
                                            Ok(_) => env_stop(env, s, end, st.0, st.1),
                                        },
                                    }
                                },
                                _ => if env_value(env, directive) is None {
                                    None
                                } else {
                                    env_stop(env, s, end, st.0, st.1)
                                },
                            }
                        },
                        Need::Condition => match env_condition(env, directive) {
                            None => None,
                            Some(cond) => {
                                let st = next_state(frames, emitting, directive, span, cond);
                                env_stop(env, s, end, st.0, st.1)
                            },
                        },
                    }
                }
            },
            m => Some(Stop::Scan(m)),
        }
    }
}

/// Putting `a` and then `b` before an outcome is putting `a + b` before it.
pub proof fn lemma_prepend_assoc(a: Seq<char>, b: Seq<char>, o: Option<Seq<char>>)
    ensures
        prepend(a, prepend(b, o)) == prepend(a + b, o),
{
    if let Some(x) = o {
        assert(a + (b + x) =~= (a + b) + x);
    }
}

/// Putting nothing before an outcome leaves it as it is.
pub proof fn lemma_prepend_empty(o: Option<Seq<char>>)
    ensures
        prepend(Seq::empty(), o) == o,
{
    if let Some(x) = o {
        assert(Seq::<char>::empty() + x =~= x);
    }
}

/// Whether directive `d`, in this state, is answered by environment calls that cannot fail:
/// it needs nothing, or a block's opening or closing markup, or the truth of a well-formed
/// `.if` condition whose operands are all variables.
pub open spec fn step_cannot_fail(frames: Seq<Frame>, emitting: bool, d: DirectiveModel) -> bool {
    match need_spec(frames, emitting, d) {
        Need::Nothing => true,
        Need::Value => !(d is Var || d is Include),
        Need::Condition => match d {
            DirectiveModel::If(cs) => match condition_spec(cs, 0, cs.len() as int) {
                Ok(cm) => operands_are_variables(cm),
                Err(_) => false,
            },
            _ => true,
        },
    }
}

/// Evaluating `s` from `cursor`, with the `k`-th tag answered by `ans[k]`, scans to the end
/// with every frame closed and meets only tags whose environment calls cannot fail.
pub open spec fn succeeds_from(s: Seq<char>, cursor: int, frames: Seq<Frame>, emitting: bool, ans: Seq<(Seq<char>, bool)>, k: int) -> bool
    decreases s.len() - cursor,
{
    if cursor < 0 || cursor > s.len() {
        false
    } else {
        match scan_spec(s, cursor) {
            ScanModel::Done => frames.len() == 0,
            ScanModel::Tag { directive, start, end } => {
                if !(cursor <= start && start < end && end <= s.len()) {
                    false
                } else {
                    let st = next_state(frames, emitting, directive, span_of(s, start, end), answer_at(ans, k).1);
                    step_cannot_fail(frames, emitting, directive) && succeeds_from(s, end, st.0, st.1, ans, k + 1)
                }
            },
            _ => false,
        }
    }
}

/// Whatever the environment answers, evaluating `s` cannot fail: its tags are well formed
/// and closed, and no tag it reaches asks for a variable's value, an include or a literal.
pub open spec fn cannot_fail(s: Seq<char>) -> bool {
    forall|ans: Seq<(Seq<char>, bool)>| #[trigger] succeeds_from(s, 0, Seq::empty(), true, ans, 0)
}

/// Where evaluation stands with `cursor`, `frames` and `emitting`, after answers `ans`: if
/// the template cannot fail, the rest of the evaluation cannot fail either, whatever comes next.
pub open spec fn still_cannot_fail(s: Seq<char>, cursor: int, frames: Seq<Frame>, emitting: bool, ans: Seq<(Seq<char>, bool)>) -> bool {
    cannot_fail(s) ==> forall|ext: Seq<(Seq<char>, bool)>| #[trigger] succeeds_from(s, cursor, frames, emitting, ans + ext, ans.len() as int)
}

proof fn lemma_still_init(s: Seq<char>)
    ensures
        still_cannot_fail(s, 0, Seq::empty(), true, Seq::empty()),
{
    if cannot_fail(s) {
        assert forall|ext: Seq<(Seq<char>, bool)>| #[trigger] succeeds_from(s, 0, Seq::empty(), true, Seq::<(Seq<char>, bool)>::empty() + ext, 0) by {
            assert(Seq::<(Seq<char>, bool)>::empty() + ext =~= ext);
            assert(succeeds_from(s, 0, Seq::empty(), true, ext, 0));
        }
    }
}

/// Where evaluation stands, if the template cannot fail, this position succeeds with the
/// answers so far and no more.
proof fn lemma_still_here(s: Seq<char>, cursor: int, frames: Seq<Frame>, emitting: bool, ans: Seq<(Seq<char>, bool)>)
    requires
        still_cannot_fail(s, cursor, frames, emitting, ans),
        cannot_fail(s),
    ensures
        succeeds_from(s, cursor, frames, emitting, ans, ans.len() as int),
{
    let none: Seq<(Seq<char>, bool)> = Seq::empty();
    assert(ans + none =~= ans);
    assert(succeeds_from(s, cursor, frames, emitting, ans + none, ans.len() as int));
}

proof fn lemma_still_step(
    s: Seq<char>,
    cursor: int,
    frames: Seq<Frame>,
    emitting: bool,
    ans: Seq<(Seq<char>, bool)>,
    d: DirectiveModel,
    start: int,
    end: int,
    a: (Seq<char>, bool),
)
    requires
        still_cannot_fail(s, cursor, frames, emitting, ans),
        0 <= cursor <= start < end <= s.len(),
        scan_spec(s, cursor) == (ScanModel::Tag { directive: d, start, end }),
    ensures
        cannot_fail(s) ==> step_cannot_fail(frames, emitting, d),
        ({
            let st = next_state(frames, emitting, d, span_of(s, start, end), a.1);
            still_cannot_fail(s, end, st.0, st.1, ans.push(a))
        }),
{
    let st = next_state(frames, emitting, d, span_of(s, start, end), a.1);
    if cannot_fail(s) {
        lemma_still_here(s, cursor, frames, emitting, ans);
        assert forall|ext: Seq<(Seq<char>, bool)>| #[trigger] succeeds_from(s, end, st.0, st.1, ans.push(a) + ext, ans.push(a).len() as int) by {
            let e2 = seq![a] + ext;
            assert(ans + e2 =~= ans.push(a) + ext);
            assert(succeeds_from(s, cursor, frames, emitting, ans + e2, ans.len() as int));
            assert(answer_at(ans + e2, ans.len() as int) == a);
        }
    }
}

pub struct Evaluator;

impl Evaluator {
    /// Evaluates a template against an environment: text outside tags is copied (with escaped
    /// `\{{.` markers unescaped) while emitting; `.var`, `.include` and `.block`/`.end` splice in
    /// what the environment resolves; `.if`/`.else`/`.end` switch emission on and off.
    /// Scanning errors, environment errors and unclosed `.block`/`.if` frames are errors.
    pub fn evaluate<E: Environment>(content: &str, file_path: &str, env: &E) -> (r: Result<String, Error>)
        ensures
            match env_eval(env, content@) {
                Some(v) => r matches Ok(x) && x@ == v,
                None => r is Err,
            },
            env_stop(env, content@, 0, Seq::empty(), true) matches Some(st) ==> (r matches Err(e)
                && stop_reported(e, st, (file_path@, content@), content@)),
            r matches Ok(out) ==> exists|ans: Seq<(Seq<char>, bool)>| eval_spec(content@, ans) == Some(out@),
            cannot_fail(content@) ==> r is Ok,
    {
        let scanner = TagScanner::new(content, file_path);
        let n = scanner.src.len();
        let mut result = String::new();
        let mut cursor: usize = 0;
        let mut frames: Vec<Frame> = Vec::new();
        let mut emitting = true;
        let ghost ans: Seq<(Seq<char>, bool)> = Seq::empty();
        proof {
            lemma_progress_init(scanner.src@);
            lemma_still_init(scanner.src@);
            lemma_prepend_empty(env_run(env, content@, 0, Seq::empty(), true));
        }
        loop
            invariant
                cursor <= n == scanner.src@.len(),
                scanner.src@ == content@,
                env_eval(env, content@) == prepend(result@, env_run(env, content@, cursor as int, frames@, emitting)),
                env_stop(env, content@, 0, Seq::empty(), true) == env_stop(env, content@, cursor as int, frames@, emitting),
                scanner.named_src@ == (file_path@, content@),
                progress(scanner.src@, result@, cursor as int, frames@, emitting, ans),
                still_cannot_fail(scanner.src@, cursor as int, frames@, emitting, ans),
            decreases n - cursor,
        {
            proof {
                lemma_tag_bounds(scanner.src@, cursor as int);
                if cannot_fail(scanner.src@) {
                    lemma_still_here(scanner.src@, cursor as int, frames@, emitting, ans);
                }
            }
            let tm = match scanner.tag_at(cursor) {
                Err(e) => return Err(e),
                Ok(None) => {
                    if frames.len() > 0 {
                        let f = frames[frames.len() - 1];
                        return Err(unclosed_error(f, &scanner.named_src));
                    }
                    let ghost before = result@;
                    if emitting {
                        push_unescaped(&mut result, &scanner.src, cursor, n);
                    }
                    proof {
                        lemma_progress_done(scanner.src@, before, cursor as int, emitting, ans);
                        if !emitting {
                            assert(before + Seq::<char>::empty() =~= before);
                        }
                    }
                    return Ok(result);
                },
                Ok(Some(t)) => t,
            };
            let ghost before = result@;
            let ghost text = if emitting { unescape_spec(scanner.src@, cursor as int, tm.start as int) } else { Seq::<char>::empty() };
            if emitting {
                push_unescaped(&mut result, &scanner.src, cursor, tm.start);
            }
            let ghost after_text = result@;
            proof {
                lemma_still_step(scanner.src@, cursor as int, frames@, emitting, ans, tm.directive@, tm.start as int, tm.end as int, (Seq::empty(), false));
            }
            let need = need_of(&frames, emitting, &tm.directive);
            let mut cond = false;
            let mut value = String::new();
            match need {
                Need::Nothing => {},
                Need::Condition => {
                    if let Directive::If(cond_str) = &tm.directive {
                        let parsed = match parse_condition(cond_str.as_str()) {
                            Ok(c) => c,
                            Err(e) => return Err(Error(ErrorKind::InvalidCondition {
                                reason: e.message(),
                                src: scanner.named_src.duplicate(),
                                span: tm.span,
                            })),
                        };
                        cond = parsed.evaluate(env)?;
                    }
                },
                Need::Value => {
                    value = match &tm.directive {
                        Directive::Var(spec) => {
                            let (var_name, filter_names) = parse_var_spec(spec.as_str());
                            let v = env.resolve_var(var_name.as_str(), tm.span, &scanner.named_src)?;
                            apply_filters(v, &filter_names, tm.span, &scanner.named_src)?
                        },
                        Directive::Include { file, args } => env.resolve_file(file.as_str(), args.as_str(), tm.span, &scanner.named_src)?,
                        Directive::Block(name) => env.resolve_block(name.as_str()),
                        Directive::End => env.resolve_end(),
                        _ => String::new(),
                    };
                },
            }
            let ghost a = (value@, cond);
            let ghost old_frames = frames@;
            let ghost old_emitting = emitting;
            advance(&mut frames, &mut emitting, &tm.directive, tm.span, cond);
            result.append(value.as_str());
            proof {
                lemma_progress_step(scanner.src@, before, cursor as int, old_frames, old_emitting, ans, tm.directive@, tm.start as int, tm.end as int, a);
                lemma_still_step(scanner.src@, cursor as int, old_frames, old_emitting, ans, tm.directive@, tm.start as int, tm.end as int, a);
                let text = if old_emitting { unescape_spec(scanner.src@, cursor as int, tm.start as int) } else { Seq::empty() };
                assert(after_text == before + text) by {
                    if !old_emitting {
                        assert(before + Seq::<char>::empty() =~= before);
                    }
                }
                if need is Value {
                    assert(result@ == before + text + value@);
                } else {
                    assert(value@ == Seq::<char>::empty());
                    assert(result@ =~= before + text + Seq::<char>::empty());
                }
                let val = if need is Value { value@ } else { Seq::<char>::empty() };
                assert(before + text + val =~= before + (text + val));
                if !(need is Value) {
                    assert(text + val =~= text);
                }
                lemma_prepend_assoc(before, text + val, env_run(env, content@, tm.end as int, frames@, emitting));
                ans = ans.push(a);
            }
            cursor = tm.end;
        }
    }
}

} // verus!
