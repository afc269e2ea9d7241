//! The matcher set: the fixed textual shapes the classifier relies on —
//! level keywords with word boundaries, the timestamp-prefixed structured
//! level shape, per-ecosystem exception signatures (an exception-type
//! token followed by a colon and a message), chained-cause lines,
//! code-context lines, and the timestamp shape itself.
use vstd::prelude::*;
use crate::records::ErrorType;
use crate::text::{
    is_ws, is_word, is_digit, match_at, match_at_ci, ws_end, digit_end, find_char, run_end,
    to_chars, c_is_ws, c_is_word, c_is_digit, is_match_at, is_match_at_ci, ws_run_end,
    digit_run_end, find_char_from, sub_chars, lemma_run_end, lemma_find_char_props,
};

verus! {

/// A word boundary lies just before position `p`.
pub open spec fn boundary_before(s: Seq<char>, p: int) -> bool {
    p == 0 || !is_word(s[p - 1])
}

/// A word boundary lies just after position `e - 1`.
pub open spec fn boundary_after(s: Seq<char>, e: int) -> bool {
    e == s.len() || !is_word(s[e])
}

/// `kw` occurs at `p` as a whole word, case-insensitively.
pub open spec fn word_at_ci(s: Seq<char>, p: int, kw: Seq<char>) -> bool {
    match_at_ci(s, p, kw) && boundary_before(s, p) && boundary_after(s, p + kw.len())
}

/// `kw` occurs somewhere in `s` as a whole word, case-insensitively.
pub open spec fn has_word_ci(s: Seq<char>, kw: Seq<char>) -> bool {
    exists|p: int| word_at_ci(s, p, kw)
}

pub fn find_word_ci(s: &Vec<char>, kw: &Vec<char>) -> (r: bool)
    requires
        kw@.len() > 0,
    ensures
        r == has_word_ci(s@, kw@),
{
    if kw.len() > s.len() {
        proof {
            assert(forall|q: int| !word_at_ci(s@, q, kw@));
        }
        return false;
    }
    let last = s.len() - kw.len();
    let mut p: usize = 0;
    loop
        invariant
            kw@.len() > 0,
            p <= last + 1,
            s@.len() <= usize::MAX,
            last == s@.len() - kw@.len(),
            forall|q: int| 0 <= q < p ==> !word_at_ci(s@, q, kw@),
        decreases last + 1 - p,
    {
        if p > last {
            proof {
                assert(forall|q: int| word_at_ci(s@, q, kw@) ==> 0 <= q < p);
            }
            return false;
        }
        let b_before = p == 0 || !c_is_word(s[p - 1]);
        let b_after = p + kw.len() == s.len() || !c_is_word(s[p + kw.len()]);
        if b_before && b_after && is_match_at_ci(s, p, kw) {
            proof {
                assert(word_at_ci(s@, p as int, kw@));
            }
            return true;
        }
        p = p + 1;
    }
}

/// The generic error keywords: ERROR, FATAL or CRITICAL as a word.
pub open spec fn generic_error_kw(s: Seq<char>) -> bool {
    has_word_ci(s, "ERROR"@) || has_word_ci(s, "FATAL"@) || has_word_ci(s, "CRITICAL"@)
}

/// The generic warning keywords: WARN or WARNING as a word.
pub open spec fn generic_warn_kw(s: Seq<char>) -> bool {
    has_word_ci(s, "WARN"@) || has_word_ci(s, "WARNING"@)
}

/// The generic info keywords: INFO, DEBUG or TRACE as a word.
pub open spec fn generic_info_kw(s: Seq<char>) -> bool {
    has_word_ci(s, "INFO"@) || has_word_ci(s, "DEBUG"@) || has_word_ci(s, "TRACE"@)
}

pub fn is_generic_error(s: &Vec<char>) -> (r: bool)
    ensures
        r == generic_error_kw(s@),
{
    proof {
        reveal_strlit("ERROR");
        reveal_strlit("FATAL");
        reveal_strlit("CRITICAL");
    }
    find_word_ci(s, &to_chars("ERROR")) || find_word_ci(s, &to_chars("FATAL")) || find_word_ci(
        s,
        &to_chars("CRITICAL"),
    )
}

pub fn is_generic_warn(s: &Vec<char>) -> (r: bool)
    ensures
        r == generic_warn_kw(s@),
{
    proof {
        reveal_strlit("WARN");
        reveal_strlit("WARNING");
    }
    find_word_ci(s, &to_chars("WARN")) || find_word_ci(s, &to_chars("WARNING"))
}

pub fn is_generic_info(s: &Vec<char>) -> (r: bool)
    ensures
        r == generic_info_kw(s@),
{
    proof {
        reveal_strlit("INFO");
        reveal_strlit("DEBUG");
        reveal_strlit("TRACE");
    }
    find_word_ci(s, &to_chars("INFO")) || find_word_ci(s, &to_chars("DEBUG")) || find_word_ci(
        s,
        &to_chars("TRACE"),
    )
}

/// All characters in `[a, b)` are decimal digits.
pub open spec fn digits_in(s: Seq<char>, a: int, b: int) -> bool {
    forall|k: int| a <= k < b ==> is_digit(#[trigger] s[k])
}

/// The line opens with an ISO-8601-like stamp: `dddd-dd-dd` then `T`, `t`
/// or whitespace, then `dd:dd:dd` (case folding allows the lower-case `t`).
pub open spec fn ts_prefix(s: Seq<char>) -> bool {
    &&& s.len() >= 19
    &&& digits_in(s, 0, 4)
    &&& s[4] == '-'
    &&& digits_in(s, 5, 7)
    &&& s[7] == '-'
    &&& digits_in(s, 8, 10)
    &&& (s[10] == 'T' || s[10] == 't' || is_ws(s[10]))
    &&& digits_in(s, 11, 13)
    &&& s[13] == ':'
    &&& digits_in(s, 14, 16)
    &&& s[16] == ':'
    &&& digits_in(s, 17, 19)
}

fn digits_range(s: &Vec<char>, a: usize, b: usize) -> (r: bool)
    requires
        a <= b <= s.len(),
    ensures
        r == digits_in(s@, a as int, b as int),
{
    let mut k: usize = a;
    while k < b
        invariant
            a <= k <= b <= s.len(),
            forall|j: int| a <= j < k ==> is_digit(#[trigger] s@[j]),
        decreases b - k,
    {
        if !c_is_digit(s[k]) {
            return false;
        }
        k = k + 1;
    }
    true
}

pub fn has_ts_prefix(s: &Vec<char>) -> (r: bool)
    ensures
        r == ts_prefix(s@),
{
    if s.len() < 19 {
        return false;
    }
    digits_range(s, 0, 4) && s[4] == '-' && digits_range(s, 5, 7) && s[7] == '-' && digits_range(
        s,
        8,
        10,
    ) && (s[10] == 'T' || s[10] == 't' || c_is_ws(s[10])) && digits_range(s, 11, 13) && s[13]
        == ':' && digits_range(s, 14, 16) && s[16] == ':' && digits_range(s, 17, 19)
}

/// No bracket characters in `[a, b)` (bracketed tags end the region in
/// which a structured level keyword may follow the stamp).
pub open spec fn bracket_free(s: Seq<char>, a: int, b: int) -> bool {
    forall|k: int| a <= k < b ==> #[trigger] s[k] != '[' && s[k] != ']'
}

/// `kw` stands at `p` as the structured level of a stamp-prefixed line:
/// preceded by whitespace, with no bracket between the stamp and it, and
/// with a word boundary after it.
pub open spec fn level_kw_at(s: Seq<char>, p: int, kw: Seq<char>) -> bool {
    &&& p >= 20
    &&& match_at_ci(s, p, kw)
    &&& is_ws(s[p - 1])
    &&& bracket_free(s, 19, p - 1)
    &&& boundary_after(s, p + kw.len())
}

/// The level a keyword standing at `p` announces, if any. At most one
/// of the eight keywords can stand at a position with its word
/// boundary, so the order here only settles the spec's shape.
pub open spec fn level_at(s: Seq<char>, p: int) -> Option<ErrorType> {
    if level_kw_at(s, p, "ERROR"@) || level_kw_at(s, p, "FATAL"@) || level_kw_at(
        s,
        p,
        "CRITICAL"@,
    ) {
        Some(ErrorType::Error)
    } else if level_kw_at(s, p, "WARN"@) || level_kw_at(s, p, "WARNING"@) {
        Some(ErrorType::Warning)
    } else if level_kw_at(s, p, "INFO"@) || level_kw_at(s, p, "DEBUG"@) || level_kw_at(
        s,
        p,
        "TRACE"@,
    ) {
        Some(ErrorType::Info)
    } else {
        None
    }
}

/// The level announced by the leftmost level keyword at or after `p`.
pub open spec fn first_level_from(s: Seq<char>, p: int) -> Option<ErrorType>
    decreases s.len() - p + 1,
{
    if p > s.len() {
        None
    } else if level_at(s, p) is Some {
        level_at(s, p)
    } else if p == s.len() {
        None
    } else {
        first_level_from(s, p + 1)
    }
}

/// The structured level of a stamp-prefixed line: the first level
/// keyword after the stamp decides, whichever of the eight it is, so a
/// free-text level word later in the line cannot override an earlier
/// explicit level.
pub open spec fn structured_level(s: Seq<char>) -> Option<ErrorType> {
    if ts_prefix(s) {
        first_level_from(s, 20)
    } else {
        None
    }
}

/// Whether one keyword stands at `p` as a structured level; `limit` is
/// the position of the first bracket after the stamp (or the length).
fn level_kw_here(s: &Vec<char>, p: usize, kw: &Vec<char>, limit: usize) -> (r: bool)
    requires
        20 <= p <= s@.len(),
        kw@.len() > 0,
        19 <= limit <= s@.len(),
        forall|k: int| 19 <= k < limit ==> #[trigger] s@[k] != '[' && s@[k] != ']',
        (limit as int) < s@.len() ==> s@[limit as int] == '[' || s@[limit as int] == ']',
    ensures
        r == level_kw_at(s@, p as int, kw@),
{
    if kw.len() > s.len() - p {
        return false;
    }
    if p - 1 > limit {
        proof {
            assert(s@[limit as int] == '[' || s@[limit as int] == ']');
        }
        return false;
    }
    let ok_ws = c_is_ws(s[p - 1]);
    let b_after = p + kw.len() == s.len() || !c_is_word(s[p + kw.len()]);
    if ok_ws && b_after && is_match_at_ci(s, p, kw) {
        proof {
            assert(bracket_free(s@, 19, p - 1)) by {
                assert(forall|k: int| 19 <= k < p - 1 ==> #[trigger] s@[k] != '[' && s@[k] != ']');
            }
            assert(level_kw_at(s@, p as int, kw@));
        }
        true
    } else {
        false
    }
}

/// The level announced at one position, if any.
fn level_at_exec(s: &Vec<char>, p: usize, limit: usize) -> (r: Option<ErrorType>)
    requires
        20 <= p <= s@.len(),
        19 <= limit <= s@.len(),
        forall|k: int| 19 <= k < limit ==> #[trigger] s@[k] != '[' && s@[k] != ']',
        (limit as int) < s@.len() ==> s@[limit as int] == '[' || s@[limit as int] == ']',
    ensures
        r == level_at(s@, p as int),
{
    proof {
        reveal_strlit("ERROR");
        reveal_strlit("FATAL");
        reveal_strlit("CRITICAL");
        reveal_strlit("WARN");
        reveal_strlit("WARNING");
        reveal_strlit("INFO");
        reveal_strlit("DEBUG");
        reveal_strlit("TRACE");
    }
    if level_kw_here(s, p, &to_chars("ERROR"), limit) || level_kw_here(
        s,
        p,
        &to_chars("FATAL"),
        limit,
    ) || level_kw_here(s, p, &to_chars("CRITICAL"), limit) {
        Some(ErrorType::Error)
    } else if level_kw_here(s, p, &to_chars("WARN"), limit) || level_kw_here(
        s,
        p,
        &to_chars("WARNING"),
        limit,
    ) {
        Some(ErrorType::Warning)
    } else if level_kw_here(s, p, &to_chars("INFO"), limit) || level_kw_here(
        s,
        p,
        &to_chars("DEBUG"),
        limit,
    ) || level_kw_here(s, p, &to_chars("TRACE"), limit) {
        Some(ErrorType::Info)
    } else {
        None
    }
}

/// The structured level of a line: the stamp must open the line, and
/// the first level keyword after it decides.
pub fn structured_level_exec(s: &Vec<char>) -> (r: Option<ErrorType>)
    ensures
        r == structured_level(s@),
{
    if !has_ts_prefix(s) {
        return None;
    }
    // the region free of bracketed tags ends at the first bracket
    let b1 = find_char_from(s, 19, '[');
    let b2 = find_char_from(s, 19, ']');
    let limit = if b1 < b2 {
        b1
    } else {
        b2
    };
    proof {
        lemma_find_char_props(s@, 19, '[');
        lemma_find_char_props(s@, 19, ']');
        assert forall|k: int| 19 <= k < limit implies #[trigger] s@[k] != '[' && s@[k]
            != ']' by {}
    }
    let mut p: usize = 20;
    loop
        invariant
            20 <= p <= s@.len() + 1,
            ts_prefix(s@),
            19 <= limit <= s@.len(),
            forall|k: int| 19 <= k < limit ==> #[trigger] s@[k] != '[' && s@[k] != ']',
            (limit as int) < s@.len() ==> s@[limit as int] == '[' || s@[limit as int] == ']',
            first_level_from(s@, 20) == first_level_from(s@, p as int),
        decreases s.len() + 2 - p,
    {
        if p > s.len() {
            return None;
        }
        let lv = level_at_exec(s, p, limit);
        if lv.is_some() {
            return lv;
        }
        if p == s.len() {
            return None;
        }
        p = p + 1;
    }
}

/// An exception-type token stands at `i`, a colon follows it, and at
/// least one character follows the colon.
pub open spec fn tok_colon_at(s: Seq<char>, i: int, tok: Seq<char>) -> bool {
    &&& match_at(s, i, tok)
    &&& i + tok.len() + 1 < s.len()
    &&& s[i + tok.len()] == ':'
}

/// Index of the first token of `toks` that matches at `i` with its colon.
pub open spec fn which_tok(s: Seq<char>, i: int, toks: Seq<Seq<char>>, t: int) -> Option<int>
    decreases toks.len() - t,
{
    if t < 0 || t >= toks.len() {
        None
    } else if tok_colon_at(s, i, toks[t]) {
        Some(t)
    } else {
        which_tok(s, i, toks, t + 1)
    }
}

/// Some exception signature starts at `i`.
pub open spec fn sig_at(s: Seq<char>, i: int, toks: Seq<Seq<char>>) -> bool {
    which_tok(s, i, toks, 0) is Some
}

/// Position of the leftmost exception signature, if any.
pub open spec fn first_sig_from(s: Seq<char>, toks: Seq<Seq<char>>, i: int) -> Option<int>
    decreases s.len() - i + 1,
{
    if i >= s.len() {
        None
    } else if sig_at(s, i, toks) {
        Some(i)
    } else {
        first_sig_from(s, toks, i + 1)
    }
}

/// The line carries an exception signature of the given token set.
pub open spec fn sig_match(s: Seq<char>, toks: Seq<Seq<char>>) -> bool {
    first_sig_from(s, toks, 0) is Some
}

/// The exception-type tokens of the JS-style shape, in priority order.
pub open spec fn node_toks() -> Seq<Seq<char>> {
    seq![
        "Error"@,
        "Exception"@,
        "TypeError"@,
        "ReferenceError"@,
        "SyntaxError"@,
        "RangeError"@,
        "URIError"@,
        "EvalError"@,
    ]
}

/// The exception-type tokens of the Python-style shape.
pub open spec fn python_toks() -> Seq<Seq<char>> {
    seq!["Error"@, "Exception"@, "Warning"@]
}

/// The exception-type tokens of the JVM-style shape.
pub open spec fn java_toks() -> Seq<Seq<char>> {
    seq!["Exception"@, "Error"@]
}

fn push_tok(v: &mut Vec<Vec<char>>, s: &str)
    ensures
        final(v).deep_view() == old(v).deep_view().push(s@),
{
    v.push(to_chars(s));
    proof {
        assert(v.deep_view() =~~= old(v).deep_view().push(s@));
    }
}

pub fn node_toks_exec() -> (r: Vec<Vec<char>>)
    ensures
        r.deep_view() == node_toks(),
{
    let mut r: Vec<Vec<char>> = Vec::new();
    push_tok(&mut r, "Error");
    push_tok(&mut r, "Exception");
    push_tok(&mut r, "TypeError");
    push_tok(&mut r, "ReferenceError");
    push_tok(&mut r, "SyntaxError");
    push_tok(&mut r, "RangeError");
    push_tok(&mut r, "URIError");
    push_tok(&mut r, "EvalError");
    proof {
        assert(r.deep_view() =~= node_toks());
    }
    r
}

pub fn python_toks_exec() -> (r: Vec<Vec<char>>)
    ensures
        r.deep_view() == python_toks(),
{
    let mut r: Vec<Vec<char>> = Vec::new();
    push_tok(&mut r, "Error");
    push_tok(&mut r, "Exception");
    push_tok(&mut r, "Warning");
    proof {
        assert(r.deep_view() =~= python_toks());
    }
    r
}

pub fn java_toks_exec() -> (r: Vec<Vec<char>>)
    ensures
        r.deep_view() == java_toks(),
{
    let mut r: Vec<Vec<char>> = Vec::new();
    push_tok(&mut r, "Exception");
    push_tok(&mut r, "Error");
    proof {
        assert(r.deep_view() =~= java_toks());
    }
    r
}

/// Whether a token with its colon matches at `i`, and which.
fn which_tok_exec(s: &Vec<char>, i: usize, toks: &Vec<Vec<char>>) -> (r: Option<usize>)
    requires
        i <= s.len(),
    ensures
        which_tok(s@, i as int, toks.deep_view(), 0) == match r {
            Some(t) => Some(t as int),
            None => None::<int>,
        },
        r is Some ==> r.unwrap() < toks.len(),
{
    let ghost dv = toks.deep_view();
    let n = s.len();
    let mut t: usize = 0;
    while t < toks.len()
        invariant
            t <= toks.len(),
            i <= s@.len(),
            n == s@.len(),
            dv == toks.deep_view(),
            dv.len() == toks.len(),
            which_tok(s@, i as int, dv, 0) == which_tok(s@, i as int, dv, t as int),
        decreases toks.len() - t,
    {
        proof {
            assert(dv[t as int] == toks@[t as int].deep_view());
            assert(dv[t as int] == toks@[t as int]@);
        }
        let tok = &toks[t];
        if is_match_at(s, i, tok) {
            // the token fits; check the colon and the following character
            let e = i + tok.len();
            if e < n && s[e] == ':' && e + 1 < n {
                proof {
                    assert(tok_colon_at(s@, i as int, dv[t as int]));
                }
                return Some(t);
            }
        }
        proof {
            assert(!tok_colon_at(s@, i as int, dv[t as int]));
        }
        t = t + 1;
    }
    None
}

/// Leftmost exception signature of the token set: its position and token.
pub fn find_sig(s: &Vec<char>, toks: &Vec<Vec<char>>) -> (r: Option<(usize, usize)>)
    ensures
        match r {
            Some((i, t)) => {
                &&& first_sig_from(s@, toks.deep_view(), 0) == Some(i as int)
                &&& which_tok(s@, i as int, toks.deep_view(), 0) == Some(t as int)
                &&& t < toks.len()
                &&& i <= s.len()
            },
            None => first_sig_from(s@, toks.deep_view(), 0) is None,
        },
{
    let ghost dv = toks.deep_view();
    let mut i: usize = 0;
    while i < s.len()
        invariant
            i <= s.len(),
            dv == toks.deep_view(),
            first_sig_from(s@, dv, 0) == first_sig_from(s@, dv, i as int),
        decreases s.len() - i,
    {
        let w = which_tok_exec(s, i, toks);
        if let Some(t) = w {
            return Some((i, t));
        }
        i = i + 1;
    }
    None
}

pub fn has_sig(s: &Vec<char>, toks: &Vec<Vec<char>>) -> (r: bool)
    ensures
        r == sig_match(s@, toks.deep_view()),
{
    find_sig(s, toks).is_some()
}

/// The message that follows a signature's colon: the rest of the line
/// with its leading whitespace run dropped — or, when only whitespace
/// follows, the line's final character.
pub open spec fn after_colon_msg(rest: Seq<char>) -> Seq<char> {
    let a = ws_end(rest, 0);
    if a == rest.len() {
        rest.skip(rest.len() - 1)
    } else {
        rest.skip(a)
    }
}

/// The message the exception signature of `toks` yields, if one matches.
pub open spec fn sig_msg(s: Seq<char>, toks: Seq<Seq<char>>) -> Option<Seq<char>> {
    match first_sig_from(s, toks, 0) {
        None => None,
        Some(i) => match which_tok(s, i, toks, 0) {
            None => None,
            Some(t) => Some(after_colon_msg(s.skip(i + toks[t].len() + 1))),
        },
    }
}

/// Shifting a whitespace run to a suffix.
pub proof fn lemma_ws_end_shift(s: Seq<char>, i: int)
    requires
        0 <= i <= s.len(),
    ensures
        ws_end(s.skip(i), 0) == ws_end(s, i) - i,
{
    lemma_run_end(s, i, |c: char| is_ws(c));
    assert(forall|k: int| 0 <= k < s.len() - i ==> s.skip(i)[k] == s[i + k]);
    lemma_run_end_unique(s.skip(i), 0, |c: char| is_ws(c), ws_end(s, i) - i);
}

/// `run_end` is the unique index with its characteristic properties.
pub proof fn lemma_run_end_unique(s: Seq<char>, i: int, f: spec_fn(char) -> bool, j: int)
    requires
        0 <= i <= j <= s.len(),
        forall|k: int| i <= k < j ==> f(#[trigger] s[k]),
        j < s.len() ==> !f(s[j]),
    ensures
        run_end(s, i, f) == j,
    decreases j - i,
{
    if i < j {
        lemma_run_end_unique(s, i + 1, f, j);
    }
}

/// Copy of the suffix `s[from..]` with `after_colon_msg` applied.
pub fn after_colon_exec(s: &Vec<char>, from: usize) -> (r: Vec<char>)
    requires
        from < s.len(),
    ensures
        r@ == after_colon_msg(s@.skip(from as int)),
{
    let ghost rest = s@.skip(from as int);
    let a = ws_run_end(s, from);
    proof {
        lemma_ws_end_shift(s@, from as int);
        assert(ws_end(rest, 0) == a - from);
    }
    if a == s.len() {
        let r = sub_chars(s, s.len() - 1, s.len());
        proof {
            assert(r@ =~= rest.skip(rest.len() - 1));
        }
        r
    } else {
        let r = sub_chars(s, a, s.len());
        proof {
            assert(r@ =~= rest.skip(a - from));
        }
        r
    }
}

/// The message of the leftmost signature of `toks`, if any matches.
pub fn sig_message(s: &Vec<char>, toks: &Vec<Vec<char>>) -> (r: Option<Vec<char>>)
    ensures
        match r {
            Some(m) => sig_msg(s@, toks.deep_view()) == Some(m@),
            None => sig_msg(s@, toks.deep_view()) is None,
        },
{
    let found = find_sig(s, toks);
    match found {
        None => None,
        Some((i, t)) => {
            proof {
                assert(toks.deep_view()[t as int] == toks@[t as int]@);
                lemma_which_tok_found(s@, i as int, toks.deep_view(), 0, t as int);
                assert(tok_colon_at(s@, i as int, toks.deep_view()[t as int]));
            }
            let start = i + toks[t].len() + 1;
            Some(after_colon_exec(s, start))
        },
    }
}

/// What `which_tok` returns did match.
proof fn lemma_which_tok_found(s: Seq<char>, i: int, toks: Seq<Seq<char>>, t0: int, t: int)
    requires
        which_tok(s, i, toks, t0) == Some(t),
        0 <= t0,
    ensures
        0 <= t < toks.len(),
        tok_colon_at(s, i, toks[t]),
    decreases toks.len() - t0,
{
    if t0 < toks.len() && !tok_colon_at(s, i, toks[t0]) {
        lemma_which_tok_found(s, i, toks, t0 + 1, t);
    }
}

/// The chained-cause shape: optional indentation, `Caused by:` or
/// `Suppressed:` (case-insensitively), and at least one more character.
pub open spec fn caused_by_match(s: Seq<char>) -> bool {
    let w = ws_end(s, 0);
    ||| (match_at_ci(s, w, "Caused by:"@) && s.len() > w + "Caused by:"@.len())
    ||| (match_at_ci(s, w, "Suppressed:"@) && s.len() > w + "Suppressed:"@.len())
}

/// The message a chained-cause line yields.
pub open spec fn caused_by_msg(s: Seq<char>) -> Option<Seq<char>> {
    let w = ws_end(s, 0);
    if match_at_ci(s, w, "Caused by:"@) && s.len() > w + "Caused by:"@.len() {
        Some(after_colon_msg(s.skip(w + "Caused by:"@.len())))
    } else if match_at_ci(s, w, "Suppressed:"@) && s.len() > w + "Suppressed:"@.len() {
        Some(after_colon_msg(s.skip(w + "Suppressed:"@.len())))
    } else {
        None
    }
}

pub fn is_caused_by(s: &Vec<char>) -> (r: bool)
    ensures
        r == caused_by_match(s@),
{
    let w = ws_run_end(s, 0);
    let tok1 = to_chars("Caused by:");
    let tok2 = to_chars("Suppressed:");
    (is_match_at_ci(s, w, &tok1) && s.len() > w + tok1.len()) || (is_match_at_ci(s, w, &tok2)
        && s.len() > w + tok2.len())
}

pub fn caused_by_message(s: &Vec<char>) -> (r: Option<Vec<char>>)
    ensures
        match r {
            Some(m) => caused_by_msg(s@) == Some(m@),
            None => caused_by_msg(s@) is None,
        },
{
    let w = ws_run_end(s, 0);
    let tok1 = to_chars("Caused by:");
    let tok2 = to_chars("Suppressed:");
    if is_match_at_ci(s, w, &tok1) && s.len() > w + tok1.len() {
        Some(after_colon_exec(s, w + tok1.len()))
    } else if is_match_at_ci(s, w, &tok2) && s.len() > w + tok2.len() {
        Some(after_colon_exec(s, w + tok2.len()))
    } else {
        None
    }
}

/// The code-context shape: optional indentation, then either `>` or a
/// line number followed by `|` or `>`, and at least one more character.
pub open spec fn code_context_match(s: Seq<char>) -> bool {
    let w = ws_end(s, 0);
    ||| (w < s.len() && s[w] == '>' && s.len() > w + 1)
    ||| {
        let d = digit_end(s, w);
        let v = ws_end(s, d);
        d > w && v < s.len() && (s[v] == '|' || s[v] == '>') && s.len() > v + 1
    }
}

pub fn is_code_context(s: &Vec<char>) -> (r: bool)
    ensures
        r == code_context_match(s@),
{
    let w = ws_run_end(s, 0);
    if w < s.len() && s[w] == '>' && s.len() > w + 1 {
        return true;
    }
    let d = digit_run_end(s, w);
    if d == w {
        return false;
    }
    let v = ws_run_end(s, d);
    v < s.len() && (s[v] == '|' || s[v] == '>') && s.len() > v + 1
}

/// A full timestamp shape starts at `i`: the 19-character core.
pub open spec fn ts_core_at(s: Seq<char>, i: int) -> bool {
    &&& i >= 0
    &&& i + 19 <= s.len()
    &&& digits_in(s, i, i + 4)
    &&& s[i + 4] == '-'
    &&& digits_in(s, i + 5, i + 7)
    &&& s[i + 7] == '-'
    &&& digits_in(s, i + 8, i + 10)
    &&& (s[i + 10] == 'T' || is_ws(s[i + 10]))
    &&& digits_in(s, i + 11, i + 13)
    &&& s[i + 13] == ':'
    &&& digits_in(s, i + 14, i + 16)
    &&& s[i + 16] == ':'
    &&& digits_in(s, i + 17, i + 19)
}

/// Position of the leftmost timestamp core.
pub open spec fn first_ts_from(s: Seq<char>, i: int) -> Option<int>
    decreases s.len() - i + 1,
{
    if i > s.len() {
        None
    } else if ts_core_at(s, i) {
        Some(i)
    } else if i == s.len() {
        None
    } else {
        first_ts_from(s, i + 1)
    }
}

/// Length of the timestamp at `i`: the core plus an optional fraction
/// (`.` and three digits) plus an optional zone (`Z`, or a sign and two
/// digit pairs with an optional colon), each taken greedily.
pub open spec fn ts_len_at(s: Seq<char>, i: int) -> int {
    let f: int = if i + 23 <= s.len() && s[i + 19] == '.' && digits_in(s, i + 20, i + 23) {
        4
    } else {
        0
    };
    let q = i + 19 + f;
    let tz: int = if q < s.len() && s[q] == 'Z' {
        1
    } else if q + 3 <= s.len() && (s[q] == '+' || s[q] == '-') && digits_in(s, q + 1, q + 3) {
        if q + 6 <= s.len() && s[q + 3] == ':' && digits_in(s, q + 4, q + 6) {
            6
        } else if q + 5 <= s.len() && digits_in(s, q + 3, q + 5) {
            5
        } else {
            0
        }
    } else {
        0
    };
    19 + f + tz
}

/// The leftmost timestamp of the line, if any.
pub open spec fn extract_ts_spec(s: Seq<char>) -> Option<Seq<char>> {
    match first_ts_from(s, 0) {
        None => None,
        Some(i) => Some(s.subrange(i, i + ts_len_at(s, i))),
    }
}

fn ts_core_check(s: &Vec<char>, i: usize) -> (r: bool)
    requires
        i <= s.len(),
    ensures
        r == ts_core_at(s@, i as int),
{
    if s.len() - i < 19 {
        return false;
    }
    digits_range(s, i, i + 4) && s[i + 4] == '-' && digits_range(s, i + 5, i + 7) && s[i + 7]
        == '-' && digits_range(s, i + 8, i + 10) && (s[i + 10] == 'T' || c_is_ws(s[i + 10]))
        && digits_range(s, i + 11, i + 13) && s[i + 13] == ':' && digits_range(s, i + 14, i + 16)
        && s[i + 16] == ':' && digits_range(s, i + 17, i + 19)
}

pub fn extract_timestamp_chars(s: &Vec<char>) -> (r: Option<Vec<char>>)
    ensures
        match r {
            Some(v) => extract_ts_spec(s@) == Some(v@),
            None => extract_ts_spec(s@) is None,
        },
{
    let mut i: usize = 0;
    loop
        invariant
            i <= s.len(),
            first_ts_from(s@, 0) == first_ts_from(s@, i as int),
        decreases s.len() + 1 - i,
    {
        if ts_core_check(s, i) {
            // greedy fraction
            let f: usize = if s.len() - (i + 19) >= 4 && s[i + 19] == '.' && digits_range(
                s,
                i + 20,
                i + 23,
            ) {
                4
            } else {
                0
            };
            let q = i + 19 + f;
            let tz: usize = if q < s.len() && s[q] == 'Z' {
                1
            } else if s.len() - q >= 3 && (s[q] == '+' || s[q] == '-') && digits_range(
                s,
                q + 1,
                q + 3,
            ) {
                if s.len() - q >= 6 && s[q + 3] == ':' && digits_range(s, q + 4, q + 6) {
                    6
                } else if s.len() - q >= 5 && digits_range(s, q + 3, q + 5) {
                    5
                } else {
                    0
                }
            } else {
                0
            };
            return Some(sub_chars(s, i, i + 19 + f + tz));
        }
        if i == s.len() {
            return None;
        }
        i = i + 1;
    }
}

/// The leftmost timestamp of a line, if any.
pub fn extract_timestamp(line: &str) -> (r: Option<String>)
    ensures
        match r {
            Some(t) => extract_ts_spec(line@) == Some(t@),
            None => extract_ts_spec(line@) is None,
        },
{
    let v = to_chars(line);
    match extract_timestamp_chars(&v) {
        Some(t) => Some(crate::text::from_chars(&t)),
        None => None,
    }
}

} // verus!
