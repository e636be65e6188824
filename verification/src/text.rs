//! Character-level helpers over `Seq<char>`: Unicode whitespace, trimming,
//! prefix matching and conversion between `str`/`String` and `Vec<char>`.
use vstd::prelude::*;

verus! {

/// Unicode `White_Space` property, the set that `char::is_whitespace` tests.
pub open spec fn is_ws(c: char) -> bool {
    let u = c as u32;
    ||| 0x9 <= u <= 0xd
    ||| u == 0x20
    ||| u == 0x85
    ||| u == 0xa0
    ||| u == 0x1680
    ||| 0x2000 <= u <= 0x200a
    ||| u == 0x2028
    ||| u == 0x2029
    ||| u == 0x202f
    ||| u == 0x205f
    ||| u == 0x3000
}

/// Executable Unicode whitespace test.
pub fn is_whitespace(c: char) -> (b: bool)
    ensures
        b == is_ws(c),
{
    let u: u32 = c as u32;
    (0x9 <= u && u <= 0xd) || u == 0x20 || u == 0x85 || u == 0xa0 || u == 0x1680 || (0x2000 <= u
        && u <= 0x200a) || u == 0x2028 || u == 0x2029 || u == 0x202f || u == 0x205f || u == 0x3000
}

/// First index `k` in `[i, hi]` such that `k == hi` or `s[k]` is not whitespace.
pub open spec fn skip_ws(s: Seq<char>, i: int, hi: int) -> int
    decreases hi - i,
{
    if i < hi && is_ws(s[i]) {
        skip_ws(s, i + 1, hi)
    } else {
        i
    }
}

/// Largest index `k` in `[lo, j]` such that `k == lo` or `s[k - 1]` is not whitespace.
pub open spec fn back_ws(s: Seq<char>, lo: int, j: int) -> int
    decreases j - lo,
{
    if lo < j && is_ws(s[j - 1]) {
        back_ws(s, lo, j - 1)
    } else {
        j
    }
}

pub proof fn lemma_skip_ws(s: Seq<char>, i: int, hi: int)
    requires
        i <= hi,
    ensures
        i <= skip_ws(s, i, hi) <= hi,
        forall|k: int| i <= k < skip_ws(s, i, hi) ==> is_ws(#[trigger] s[k]),
        skip_ws(s, i, hi) < hi ==> !is_ws(s[skip_ws(s, i, hi)]),
    decreases hi - i,
{
    if i < hi && is_ws(s[i]) {
        lemma_skip_ws(s, i + 1, hi);
    }
}

pub proof fn lemma_back_ws(s: Seq<char>, lo: int, j: int)
    requires
        lo <= j,
    ensures
        lo <= back_ws(s, lo, j) <= j,
        forall|k: int| back_ws(s, lo, j) <= k < j ==> is_ws(#[trigger] s[k]),
        back_ws(s, lo, j) > lo ==> !is_ws(s[back_ws(s, lo, j) - 1]),
    decreases j - lo,
{
    if lo < j && is_ws(s[j - 1]) {
        lemma_back_ws(s, lo, j - 1);
    }
}

/// Skips whitespace forward from `i`, not beyond `hi`.
pub fn skip_ws_exec(s: &Vec<char>, i: usize, hi: usize) -> (k: usize)
    requires
        i <= hi <= s@.len(),
    ensures
        k == skip_ws(s@, i as int, hi as int),
{
    let mut k: usize = i;
    while k < hi && is_whitespace(s[k])
        invariant
            i <= k <= hi <= s@.len(),
            skip_ws(s@, i as int, hi as int) == skip_ws(s@, k as int, hi as int),
        decreases hi - k,
    {
        k = k + 1;
    }
    k
}

/// Skips whitespace backward from `j`, not below `lo`.
pub fn back_ws_exec(s: &Vec<char>, lo: usize, j: usize) -> (k: usize)
    requires
        lo <= j <= s@.len(),
    ensures
        k == back_ws(s@, lo as int, j as int),
{
    let mut k: usize = j;
    while lo < k && is_whitespace(s[k - 1])
        invariant
            lo <= k <= j <= s@.len(),
            back_ws(s@, lo as int, j as int) == back_ws(s@, lo as int, k as int),
        decreases k - lo,
    {
        k = k - 1;
    }
    k
}

/// The sequence with leading and trailing whitespace removed (`str::trim`).
pub open spec fn trim(t: Seq<char>) -> Seq<char> {
    let a = skip_ws(t, 0, t.len() as int);
    t.subrange(a, back_ws(t, a, t.len() as int))
}

/// Trimming never lengthens a sequence.
pub proof fn lemma_trim_len(t: Seq<char>)
    ensures
        trim(t).len() <= t.len(),
        trim_start(t).len() <= t.len(),
{
    lemma_skip_ws(t, 0, t.len() as int);
    lemma_back_ws(t, skip_ws(t, 0, t.len() as int), t.len() as int);
}

/// Trimming twice is trimming once.
pub proof fn lemma_trim_idempotent(t: Seq<char>)
    ensures
        trim(trim(t)) == trim(t),
{
    let n = t.len() as int;
    let a = skip_ws(t, 0, n);
    lemma_skip_ws(t, 0, n);
    let b = back_ws(t, a, n);
    lemma_back_ws(t, a, n);
    let u = trim(t);
    if u.len() == 0 {
        assert(trim(u) =~= u);
    } else {
        assert(u[0] == t[a]);
        assert(u[u.len() - 1] == t[b - 1]);
        assert(skip_ws(u, 0, u.len() as int) == 0);
        assert(back_ws(u, 0, u.len() as int) == u.len());
        assert(u.subrange(0, u.len() as int) =~= u);
    }
}

/// The sequence with leading whitespace removed (`str::trim_start`).
pub open spec fn trim_start(t: Seq<char>) -> Seq<char> {
    t.subrange(skip_ws(t, 0, t.len() as int), t.len() as int)
}

/// The sequence with trailing whitespace removed (`str::trim_end`).
pub open spec fn trim_end(t: Seq<char>) -> Seq<char> {
    t.subrange(0, back_ws(t, 0, t.len() as int))
}

/// Index of the first whitespace character at or after `i` (or `hi`).
pub open spec fn find_ws(s: Seq<char>, i: int, hi: int) -> int
    decreases hi - i,
{
    if i < hi && !is_ws(s[i]) {
        find_ws(s, i + 1, hi)
    } else {
        i
    }
}

pub proof fn lemma_find_ws(s: Seq<char>, i: int, hi: int)
    requires
        i <= hi,
    ensures
        i <= find_ws(s, i, hi) <= hi,
        forall|k: int| i <= k < find_ws(s, i, hi) ==> !is_ws(#[trigger] s[k]),
        find_ws(s, i, hi) < hi ==> is_ws(s[find_ws(s, i, hi)]),
    decreases hi - i,
{
    if i < hi && !is_ws(s[i]) {
        lemma_find_ws(s, i + 1, hi);
    }
}

/// Shifting a whitespace scan into a subrange.
pub proof fn lemma_skip_ws_sub(s: Seq<char>, a: int, b: int, i: int, hi: int)
    requires
        0 <= a <= i <= hi <= b <= s.len(),
    ensures
        skip_ws(s.subrange(a, b), i - a, hi - a) == skip_ws(s, i, hi) - a,
    decreases hi - i,
{
    if i < hi {
        assert(s.subrange(a, b)[i - a] == s[i]);
        lemma_skip_ws_sub(s, a, b, i + 1, hi);
    }
}

pub proof fn lemma_back_ws_sub(s: Seq<char>, a: int, b: int, lo: int, j: int)
    requires
        0 <= a <= lo <= j <= b <= s.len(),
    ensures
        back_ws(s.subrange(a, b), lo - a, j - a) == back_ws(s, lo, j) - a,
    decreases j - lo,
{
    if lo < j {
        assert(s.subrange(a, b)[j - 1 - a] == s[j - 1]);
        lemma_back_ws_sub(s, a, b, lo, j - 1);
    }
}

pub proof fn lemma_find_ws_sub(s: Seq<char>, a: int, b: int, i: int, hi: int)
    requires
        0 <= a <= i <= hi <= b <= s.len(),
    ensures
        find_ws(s.subrange(a, b), i - a, hi - a) == find_ws(s, i, hi) - a,
    decreases hi - i,
{
    if i < hi {
        assert(s.subrange(a, b)[i - a] == s[i]);
        lemma_find_ws_sub(s, a, b, i + 1, hi);
    }
}

/// Index of the first whitespace character in `s[i..hi]`, or `hi`.
pub fn find_ws_exec(s: &Vec<char>, i: usize, hi: usize) -> (k: usize)
    requires
        i <= hi <= s@.len(),
    ensures
        k == find_ws(s@, i as int, hi as int),
{
    let mut k: usize = i;
    while k < hi && !is_whitespace(s[k])
        invariant
            i <= k <= hi <= s@.len(),
            find_ws(s@, i as int, hi as int) == find_ws(s@, k as int, hi as int),
        decreases hi - k,
    {
        k = k + 1;
    }
    k
}

/// Bounds of the trimmed part of `s[a..b]`.
pub fn trim_range(s: &Vec<char>, a: usize, b: usize) -> (r: (usize, usize))
    requires
        a <= b <= s@.len(),
    ensures
        a <= r.0 <= r.1 <= b,
        s@.subrange(r.0 as int, r.1 as int) == trim(s@.subrange(a as int, b as int)),
        r.0 == skip_ws(s@, a as int, b as int),
        r.1 == back_ws(s@, r.0 as int, b as int),
{
    let i = skip_ws_exec(s, a, b);
    proof {
        lemma_skip_ws(s@, a as int, b as int);
    }
    let j = back_ws_exec(s, i, b);
    proof {
        lemma_back_ws(s@, i as int, b as int);
        let t = s@.subrange(a as int, b as int);
        lemma_skip_ws_sub(s@, a as int, b as int, a as int, b as int);
        lemma_back_ws_sub(s@, a as int, b as int, i as int, b as int);
        assert(t.subrange(i - a, j - a) =~= s@.subrange(i as int, j as int));
    }
    (i, j)
}

/// Start of the part of `s[a..b]` left after removing leading whitespace.
pub fn trim_start_range(s: &Vec<char>, a: usize, b: usize) -> (i: usize)
    requires
        a <= b <= s@.len(),
    ensures
        a <= i <= b,
        s@.subrange(i as int, b as int) == trim_start(s@.subrange(a as int, b as int)),
        i == skip_ws(s@, a as int, b as int),
{
    let i = skip_ws_exec(s, a, b);
    proof {
        lemma_skip_ws(s@, a as int, b as int);
        lemma_skip_ws_sub(s@, a as int, b as int, a as int, b as int);
        let t = s@.subrange(a as int, b as int);
        assert(t.subrange(i - a, b - a) =~= s@.subrange(i as int, b as int));
    }
    i
}

/// `s[k..k + pat.len()] == pat`, within `s`.
pub open spec fn matches_at(s: Seq<char>, k: int, pat: Seq<char>) -> bool {
    &&& 0 <= k
    &&& k + pat.len() <= s.len()
    &&& s.subrange(k, k + pat.len()) == pat
}

/// Whether `pat` occurs in `s` at `k` and ends no later than `hi`.
pub fn matches_at_exec(s: &Vec<char>, k: usize, hi: usize, pat: &[char]) -> (b: bool)
    requires
        hi <= s@.len(),
    ensures
        b == (k + pat@.len() <= hi && matches_at(s@, k as int, pat@)),
{
    if k > hi || hi - k < pat.len() {
        return false;
    }
    let mut i: usize = 0;
    while i < pat.len()
        invariant
            k + pat@.len() <= hi <= s@.len(),
            0 <= i <= pat@.len(),
            forall|j: int| 0 <= j < i ==> s@[k + j] == pat@[j],
        decreases pat.len() - i,
    {
        if s[k + i] != pat[i] {
            assert(s@.subrange(k as int, k + pat@.len())[i as int] != pat@[i as int]);
            return false;
        }
        i = i + 1;
    }
    assert(s@.subrange(k as int, k + pat@.len()) =~= pat@);
    true
}

/// The characters of a string slice.
pub fn chars_of(s: &str) -> (v: Vec<char>)
    ensures
        v@ == s@,
{
    let mut v: Vec<char> = Vec::new();
    for c in it: s.chars()
        invariant
            v@ == it.seq().take(it.index() as int),
    {
        v.push(c);
    }
    v
}

/// std's `String::push`: appends `ch` to the end of `s` (its documentation: "Appends the
/// given `char` to the end of this `String`"). Claimed: the new text is the old one with
/// `ch` added at the end.
pub assume_specification[ String::push ](s: &mut String, ch: char)
    ensures
        final(s)@ == old(s)@.push(ch),
;

/// A `String` holding the characters `v[lo..hi]`.
pub fn string_of_range(v: &Vec<char>, lo: usize, hi: usize) -> (s: String)
    requires
        lo <= hi <= v@.len(),
    ensures
        s@ == v@.subrange(lo as int, hi as int),
{
    let mut s = String::new();
    let mut i: usize = lo;
    while i < hi
        invariant
            lo <= i <= hi <= v@.len(),
            s@ == v@.subrange(lo as int, i as int),
        decreases hi - i,
    {
        s.push(v[i]);
        assert(v@.subrange(lo as int, i + 1) =~= v@.subrange(lo as int, i as int).push(v@[i as int]));
        i = i + 1;
    }
    s
}

/// The decimal digit for `d` (`0 <= d < 10`).
pub open spec fn digit_char(d: int) -> char {
    seq!['0', '1', '2', '3', '4', '5', '6', '7', '8', '9'][d]
}

/// The decimal representation of `n`, as `Display` writes an unsigned integer.
pub open spec fn decimal(n: nat) -> Seq<char>
    decreases n,
{
    if n < 10 {
        seq![digit_char(n as int)]
    } else {
        decimal(n / 10) + seq![digit_char((n % 10) as int)]
    }
}

/// The decimal representation of `n`.
pub fn decimal_string(n: u64) -> (r: String)
    ensures
        r@ == decimal(n as nat),
    decreases n,
{
    let digits = ['0', '1', '2', '3', '4', '5', '6', '7', '8', '9'];
    assert(digits@ == seq!['0', '1', '2', '3', '4', '5', '6', '7', '8', '9']);
    if n < 10 {
        let mut s = String::new();
        s.push(digits[n as usize]);
        s
    } else {
        let mut s = decimal_string(n / 10);
        s.push(digits[(n % 10) as usize]);
        s
    }
}

/// Index of the first character at or after `i` that is not `c` (or `hi`).
pub open spec fn skip_char(s: Seq<char>, c: char, i: int, hi: int) -> int
    decreases hi - i,
{
    if 0 <= i < hi && i < s.len() && s[i] == c {
        skip_char(s, c, i + 1, hi)
    } else {
        i
    }
}

/// Largest `k` in `[lo, j]` with `k == lo` or `s[k - 1] != c`.
pub open spec fn back_char(s: Seq<char>, c: char, lo: int, j: int) -> int
    decreases j - lo,
{
    if lo < j && 0 < j <= s.len() && s[j - 1] == c {
        back_char(s, c, lo, j - 1)
    } else {
        j
    }
}

/// `s` with every leading and trailing `c` removed (`str::trim_matches` with a character).
pub open spec fn trim_char(s: Seq<char>, c: char) -> Seq<char> {
    let a = skip_char(s, c, 0, s.len() as int);
    s.subrange(a, back_char(s, c, a, s.len() as int))
}

/// `s` with `p` removed from its end as often as it ends with it (`str::trim_end_matches`).
pub open spec fn strip_suffix_all(s: Seq<char>, p: Seq<char>) -> Seq<char>
    decreases s.len(),
{
    if 0 < p.len() <= s.len() && s.skip(s.len() - p.len()) == p {
        strip_suffix_all(s.take(s.len() - p.len()), p)
    } else {
        s
    }
}

/// `s` with every leading and trailing `c` removed.
pub fn trim_char_exec(s: &str, c: char) -> (r: String)
    ensures
        r@ == trim_char(s@, c),
{
    let v = chars_of(s);
    let n = v.len();
    let mut a: usize = 0;
    while a < n && v[a] == c
        invariant
            a <= n == v@.len(),
            skip_char(v@, c, 0, n as int) == skip_char(v@, c, a as int, n as int),
        decreases n - a,
    {
        a = a + 1;
    }
    let mut b: usize = n;
    while a < b && v[b - 1] == c
        invariant
            a <= b <= n == v@.len(),
            back_char(v@, c, a as int, n as int) == back_char(v@, c, a as int, b as int),
        decreases b - a,
    {
        b = b - 1;
    }
    string_of_range(&v, a, b)
}

/// `s` with `p` removed from its end as often as it ends with it.
pub fn strip_suffix_all_exec(s: &str, p: &str) -> (r: String)
    ensures
        r@ == strip_suffix_all(s@, p@),
{
    let v = chars_of(s);
    let pv = chars_of(p);
    let mut e: usize = v.len();
    assert(v@.take(e as int) =~= s@);
    while pv.len() > 0 && pv.len() <= e && matches_at_exec(&v, e - pv.len(), e, pv.as_slice())
        invariant
            e <= v@.len(),
            pv@ == p@,
            strip_suffix_all(s@, p@) == strip_suffix_all(v@.take(e as int), p@),
            v@ == s@,
        decreases e,
    {
        let ghost t = v@.take(e as int);
        assert(t.skip(t.len() - pv@.len()) =~= v@.subrange(e - pv@.len(), e as int));
        assert(t.take(t.len() - pv@.len()) =~= v@.take(e - pv@.len()));
        e = e - pv.len();
    }
    proof {
        let t = v@.take(e as int);
        if 0 < pv@.len() <= e {
            assert(t.skip(t.len() - pv@.len()) =~= v@.subrange(e - pv@.len(), e as int));
        }
    }
    string_of_range(&v, 0, e)
}

/// `s` from `i` on with every occurrence of `pat`, scanning left to right without overlap,
/// replaced by `to` (`str::replace`).
pub open spec fn replace_spec(s: Seq<char>, i: int, pat: Seq<char>, to: Seq<char>) -> Seq<char>
    decreases s.len() - i,
{
    if i < 0 || i >= s.len() || pat.len() == 0 {
        if 0 <= i < s.len() { s.skip(i) } else { Seq::empty() }
    } else if matches_at(s, i, pat) {
        to + replace_spec(s, i + pat.len(), pat, to)
    } else {
        seq![s[i]] + replace_spec(s, i + 1, pat, to)
    }
}

/// `s` with every occurrence of the non-empty `pat` replaced by `to`, left to right.
pub fn replace_all(s: &str, pat: &str, to: &str) -> (r: String)
    requires
        pat@.len() > 0,
    ensures
        r@ == replace_spec(s@, 0, pat@, to@),
{
    let v = chars_of(s);
    let pv = chars_of(pat);
    let n = v.len();
    let mut out = String::new();
    let mut i: usize = 0;
    while i < n
        invariant
            i <= n == v@.len(),
            v@ == s@,
            pv@ == pat@,
            pat@.len() > 0,
            replace_spec(s@, 0, pat@, to@) == out@ + replace_spec(s@, i as int, pat@, to@),
        decreases n - i,
    {
        let ghost before = out@;
        if matches_at_exec(&v, i, n, pv.as_slice()) {
            out.append(to);
            assert(before + (to@ + replace_spec(s@, i + pat@.len(), pat@, to@)) =~= out@ + replace_spec(s@, i + pat@.len(), pat@, to@));
            i = i + pv.len();
        } else {
            out.push(v[i]);
            assert(before + (seq![s@[i as int]] + replace_spec(s@, i + 1, pat@, to@)) =~= out@ + replace_spec(s@, i + 1, pat@, to@));
            i = i + 1;
        }
    }
    assert(out@ =~= out@ + replace_spec(s@, i as int, pat@, to@));
    out
}

/// A decimal digit.
pub open spec fn is_digit(c: char) -> bool {
    '0' <= c <= '9'
}

/// The text after an optional leading `+`.
pub open spec fn unsigned_digits(s: Seq<char>) -> Seq<char> {
    if s.len() > 0 && s[0] == '+' {
        s.skip(1)
    } else {
        s
    }
}

/// Every character is a decimal digit.
pub open spec fn all_digits(t: Seq<char>) -> bool {
    forall|i: int| 0 <= i < t.len() ==> is_digit(#[trigger] t[i])
}

/// The value of a run of decimal digits.
pub open spec fn digits_value(s: Seq<char>) -> nat
    decreases s.len(),
{
    if s.len() == 0 {
        0
    } else {
        digits_value(s.drop_last()) * 10 + ((s.last() as int) - ('0' as int)) as nat
    }
}

/// The unsigned integer that `s` denotes (`usize::from_str`): an optional `+`, then at least
/// one decimal digit and nothing else, with a value that fits in `usize`.
pub open spec fn usize_text(s: Seq<char>) -> Option<nat> {
    let t = unsigned_digits(s);
    if t.len() > 0 && all_digits(t) && digits_value(t) <= usize::MAX {
        Some(digits_value(t))
    } else {
        None
    }
}

proof fn lemma_digits_grow(t: Seq<char>, i: int, j: int)
    requires
        0 <= i <= j <= t.len(),
        forall|k: int| 0 <= k < t.len() ==> is_digit(#[trigger] t[k]),
    ensures
        digits_value(t.take(i)) <= digits_value(t.take(j)),
    decreases j - i,
{
    if i < j {
        lemma_digits_grow(t, i, j - 1);
        assert(t.take(j).drop_last() =~= t.take(j - 1));
        assert(t.take(j).last() == t[j - 1]);
    }
}

/// Parses an unsigned integer as `usize::from_str` does (see [`usize_text`]).
pub fn parse_usize(s: &str) -> (r: Option<usize>)
    ensures
        match usize_text(s@) {
            Some(n) => r == Some(n as usize),
            None => r is None,
        },
{
    let v = chars_of(s);
    let start: usize = if v.len() > 0 && v[0] == '+' { 1 } else { 0 };
    let ghost t = unsigned_digits(s@);
    assert(t =~= v@.skip(start as int));
    if start >= v.len() {
        return None;
    }
    let mut value: usize = 0;
    let mut i: usize = start;
    assert(t.take(0) =~= Seq::<char>::empty());
    while i < v.len()
        invariant
            start <= i <= v@.len(),
            v@ == s@,
            t == unsigned_digits(s@),
            t == v@.skip(start as int),
            forall|k: int| 0 <= k < i - start ==> is_digit(#[trigger] t[k]),
            value == digits_value(t.take(i - start)),
        decreases v.len() - i,
    {
        let c = v[i];
        assert(t[i - start] == c);
        if !('0' <= c && c <= '9') {
            assert(!is_digit(t[i - start]));
            return None;
        }
        let d = (c as u32 - '0' as u32) as usize;
        assert(d == (c as int) - ('0' as int));
        assert(t.take(i + 1 - start).drop_last() =~= t.take(i - start));
        assert(t.take(i + 1 - start).last() == c);
        assert(digits_value(t.take(i + 1 - start)) == value * 10 + d);
        if value > (usize::MAX - d) / 10 {
            proof {
                assert(value * 10 + d > usize::MAX) by (nonlinear_arith)
                    requires
                        value > (usize::MAX - d) / 10,
                        d <= 9,
                ;
                if all_digits(t) {
                    lemma_digits_grow(t, i + 1 - start, t.len() as int);
                    assert(t.take(t.len() as int) =~= t);
                }
            }
            return None;
        }
        assert(value * 10 + d <= usize::MAX) by (nonlinear_arith)
            requires
                value <= (usize::MAX - d) / 10,
                d <= 9,
        ;
        value = value * 10 + d;
        i = i + 1;
    }
    assert(t.take(v@.len() - start) =~= t);
    Some(value)
}

} // verus!
