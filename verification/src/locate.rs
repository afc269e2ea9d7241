//! Per-ecosystem stack-frame shapes and location extraction: the JS-style
//! `at name (file:line:col)` frame, the Python `File "path", line N`
//! frame, the JVM `at method(File:line)` frame, the Go call-site and
//! `file:line +0x...` frames, and the panic-style `at fn (file:line:col)`
//! frame. `locate_any` tries them in this fixed priority order and
//! returns the first shape that yields a file.
use vstd::prelude::*;
use crate::text::{
    is_ws, is_digit, match_at, ws_end, digit_end, find_char, run_end, to_chars, from_chars,
    c_is_ws, c_is_digit, is_match_at, ws_run_end, digit_run_end, find_char_from, sub_chars,
    lemma_find_char_props, parse_u32_spec, parse_u32_chars,
};

verus! {

/// Three captured pieces of a frame: file text, line text, column text.
pub type RawLoc = (Seq<char>, Seq<char>, Seq<char>);

/// Tail of a JS-style frame after the opening position: a non-empty
/// colon-free file, a colon, a digit run, a colon and a digit run
/// (an optional closing parenthesis follows freely).
pub open spec fn node_tail_at(s: Seq<char>, t: int) -> Option<RawLoc> {
    let fe = find_char(s, t, ':');
    if 0 <= t < fe < s.len() {
        let d1e = digit_end(s, fe + 1);
        if d1e > fe + 1 && d1e < s.len() && s[d1e] == ':' {
            let d2e = digit_end(s, d1e + 1);
            if d2e > d1e + 1 {
                Some(
                    (
                        s.subrange(t, fe),
                        s.subrange(fe + 1, d1e),
                        s.subrange(d1e + 1, d2e),
                    ),
                )
            } else {
                None
            }
        } else {
            None
        }
    } else {
        None
    }
}

/// The optional name group of a JS-style frame, tried with its end at
/// `e` and growing: a whitespace run and an opening parenthesis must
/// follow, and the tail must parse after the parenthesis.
pub open spec fn node_present_from(s: Seq<char>, e: int) -> Option<RawLoc>
    decreases s.len() - e + 1,
{
    if e > s.len() || e < 0 {
        None
    } else {
        let v = ws_end(s, e) - e;
        let next = if e == s.len() {
            None
        } else {
            node_present_from(s, e + 1)
        };
        if v >= 1 && e + v < s.len() && s[e + v] == '(' {
            match node_tail_at(s, e + v + 1) {
                Some(r) => Some(r),
                None => next,
            }
        } else {
            next
        }
    }
}

/// One `at` occurrence of the JS-style frame, with the whitespace run
/// after `at` given back one character at a time: the name group is
/// preferred, the bare tail tried after it.
pub open spec fn node_at_ws(s: Seq<char>, o: int, w: int) -> Option<RawLoc>
    decreases w,
{
    if w <= 0 {
        None
    } else {
        let j = o + 2 + w;
        match node_present_from(s, j + 1) {
            Some(r) => Some(r),
            None => match node_tail_at(s, j) {
                Some(r) => Some(r),
                None => node_at_ws(s, o, w - 1),
            },
        }
    }
}

/// The JS-style frame anchored at an `at` occurrence at `o`.
pub open spec fn node_at_occ(s: Seq<char>, o: int) -> Option<RawLoc> {
    let wmax = ws_end(s, o + 2) - (o + 2);
    if wmax >= 1 {
        node_at_ws(s, o, wmax)
    } else {
        None
    }
}

/// Leftmost `at` occurrence whose JS-style frame parses.
pub open spec fn node_loc_from(s: Seq<char>, i: int) -> Option<RawLoc>
    decreases s.len() - i + 1,
{
    if i > s.len() || i < 0 {
        None
    } else if match_at(s, i, "at"@) && node_at_occ(s, i) is Some {
        node_at_occ(s, i)
    } else if i == s.len() {
        None
    } else {
        node_loc_from(s, i + 1)
    }
}

fn node_tail_exec(s: &Vec<char>, t: usize) -> (r: Option<(Vec<char>, Vec<char>, Vec<char>)>)
    requires
        t <= s.len(),
    ensures
        match r {
            Some((f, l, c)) => node_tail_at(s@, t as int) == Some((f@, l@, c@)),
            None => node_tail_at(s@, t as int) is None,
        },
{
    let fe = find_char_from(s, t, ':');
    if t < fe && fe < s.len() {
        let d1e = digit_run_end(s, fe + 1);
        if d1e > fe + 1 && d1e < s.len() && s[d1e] == ':' {
            let d2e = digit_run_end(s, d1e + 1);
            if d2e > d1e + 1 {
                return Some(
                    (sub_chars(s, t, fe), sub_chars(s, fe + 1, d1e), sub_chars(s, d1e + 1, d2e)),
                );
            }
        }
    }
    None
}

fn node_present_exec(s: &Vec<char>, from: usize) -> (r: Option<(Vec<char>, Vec<char>, Vec<char>)>)
    requires
        from <= s.len() + 1,
    ensures
        match r {
            Some((f, l, c)) => node_present_from(s@, from as int) == Some((f@, l@, c@)),
            None => node_present_from(s@, from as int) is None,
        },
{
    let mut e: usize = from;
    if e > s.len() {
        return None;
    }
    loop
        invariant
            from <= e <= s@.len(),
            node_present_from(s@, from as int) == node_present_from(s@, e as int),
        decreases s.len() - e,
    {
        let v_end = ws_run_end(s, e);
        if v_end > e && v_end < s.len() && s[v_end] == '(' {
            let t = node_tail_exec(s, v_end + 1);
            if t.is_some() {
                return t;
            }
        }
        if e == s.len() {
            return None;
        }
        e = e + 1;
    }
}

fn node_at_occ_exec(s: &Vec<char>, o: usize) -> (r: Option<(Vec<char>, Vec<char>, Vec<char>)>)
    requires
        o + 2 <= s.len(),
    ensures
        match r {
            Some((f, l, c)) => node_at_occ(s@, o as int) == Some((f@, l@, c@)),
            None => node_at_occ(s@, o as int) is None,
        },
{
    let n = s.len();
    let wend = ws_run_end(s, o + 2);
    let wmax = wend - (o + 2);
    if wmax < 1 {
        return None;
    }
    let mut w: usize = wmax;
    loop
        invariant
            1 <= w <= wmax,
            n == s@.len(),
            wmax == ws_end(s@, o as int + 2) - (o + 2),
            o + 2 + wmax <= n,
            node_at_ws(s@, o as int, wmax as int) == node_at_ws(s@, o as int, w as int),
        decreases w,
    {
        let j = o + 2 + w;
        let p = if j < n {
            node_present_exec(s, j + 1)
        } else {
            proof {
                assert(node_present_from(s@, j + 1) is None);
            }
            None
        };
        if p.is_some() {
            return p;
        }
        let t = node_tail_exec(s, j);
        if t.is_some() {
            return t;
        }
        if w == 1 {
            proof {
                assert(node_at_ws(s@, o as int, 0) is None);
                assert(node_at_ws(s@, o as int, 1) is None);
                assert(node_at_occ(s@, o as int) is None);
            }
            return None;
        }
        w = w - 1;
    }
}

/// The captured pieces of the leftmost JS-style frame, if one matches.
pub fn node_loc_exec(s: &Vec<char>) -> (r: Option<(Vec<char>, Vec<char>, Vec<char>)>)
    ensures
        match r {
            Some((f, l, c)) => node_loc_from(s@, 0) == Some((f@, l@, c@)),
            None => node_loc_from(s@, 0) is None,
        },
{
    let at = to_chars("at");
    proof {
        reveal_strlit("at");
    }
    let mut i: usize = 0;
    loop
        invariant
            i <= s@.len(),
            at@ == "at"@,
            at@.len() == 2,
            node_loc_from(s@, 0) == node_loc_from(s@, i as int),
        decreases s.len() + 1 - i,
    {
        if is_match_at(s, i, &at) {
            let occ = node_at_occ_exec(s, i);
            if occ.is_some() {
                return occ;
            }
        }
        if i == s.len() {
            return None;
        }
        i = i + 1;
    }
}

/// Tail of a JVM-style frame: a non-empty colon-free file, a colon, a
/// digit run, and a closing parenthesis.
pub open spec fn java_tail_at(s: Seq<char>, t: int) -> Option<(Seq<char>, Seq<char>)> {
    let fe = find_char(s, t, ':');
    if 0 <= t < fe < s.len() {
        let d1e = digit_end(s, fe + 1);
        if d1e > fe + 1 && d1e < s.len() && s[d1e] == ')' {
            Some((s.subrange(t, fe), s.subrange(fe + 1, d1e)))
        } else {
            None
        }
    } else {
        None
    }
}

/// The JVM-style frame anchored at an `at` occurrence at `o`: after the
/// whitespace, a non-empty parenthesis-free method name runs to the
/// first opening parenthesis, and the tail follows it.
pub open spec fn java_at_occ(s: Seq<char>, o: int) -> Option<(Seq<char>, Seq<char>)> {
    let wmax = ws_end(s, o + 2) - (o + 2);
    if wmax >= 1 {
        let p = find_char(s, o + 2 + wmax, '(');
        if p < s.len() && p >= o + 4 {
            java_tail_at(s, p + 1)
        } else {
            None
        }
    } else {
        None
    }
}

/// Leftmost `at` occurrence whose JVM-style frame parses.
pub open spec fn java_loc_from(s: Seq<char>, i: int) -> Option<(Seq<char>, Seq<char>)>
    decreases s.len() - i + 1,
{
    if i > s.len() || i < 0 {
        None
    } else if match_at(s, i, "at"@) && java_at_occ(s, i) is Some {
        java_at_occ(s, i)
    } else if i == s.len() {
        None
    } else {
        java_loc_from(s, i + 1)
    }
}

fn java_tail_exec(s: &Vec<char>, t: usize) -> (r: Option<(Vec<char>, Vec<char>)>)
    requires
        t <= s.len(),
    ensures
        match r {
            Some((f, l)) => java_tail_at(s@, t as int) == Some((f@, l@)),
            None => java_tail_at(s@, t as int) is None,
        },
{
    let fe = find_char_from(s, t, ':');
    if t < fe && fe < s.len() {
        let d1e = digit_run_end(s, fe + 1);
        if d1e > fe + 1 && d1e < s.len() && s[d1e] == ')' {
            return Some((sub_chars(s, t, fe), sub_chars(s, fe + 1, d1e)));
        }
    }
    None
}

fn java_at_occ_exec(s: &Vec<char>, o: usize) -> (r: Option<(Vec<char>, Vec<char>)>)
    requires
        o + 2 <= s.len(),
    ensures
        match r {
            Some((f, l)) => java_at_occ(s@, o as int) == Some((f@, l@)),
            None => java_at_occ(s@, o as int) is None,
        },
{
    let wend = ws_run_end(s, o + 2);
    if wend == o + 2 {
        return None;
    }
    let p = find_char_from(s, wend, '(');
    if p < s.len() && p - o >= 4 {
        java_tail_exec(s, p + 1)
    } else {
        None
    }
}

/// The captured pieces of the leftmost JVM-style frame, if one matches.
pub fn java_loc_exec(s: &Vec<char>) -> (r: Option<(Vec<char>, Vec<char>)>)
    ensures
        match r {
            Some((f, l)) => java_loc_from(s@, 0) == Some((f@, l@)),
            None => java_loc_from(s@, 0) is None,
        },
{
    let at = to_chars("at");
    proof {
        reveal_strlit("at");
    }
    let mut i: usize = 0;
    loop
        invariant
            i <= s@.len(),
            at@ == "at"@,
            at@.len() == 2,
            java_loc_from(s@, 0) == java_loc_from(s@, i as int),
        decreases s.len() + 1 - i,
    {
        if is_match_at(s, i, &at) {
            let occ = java_at_occ_exec(s, i);
            if occ.is_some() {
                return occ;
            }
        }
        if i == s.len() {
            return None;
        }
        i = i + 1;
    }
}

/// A character the tail of a Go frame line may carry after the offset
/// sign: a hexadecimal digit, `+` or `x`.
pub open spec fn go_off_char(c: char) -> bool {
    c == '+' || is_digit(c) || ('a' as u32 <= c as u32 && c as u32 <= 'f' as u32) || c == 'x'
}

/// The closing part of a Go call-site line from an opening parenthesis
/// at `k`: a closing parenthesis follows somewhere, and only whitespace
/// follows it.
pub open spec fn go_a_close(s: Seq<char>, k: int) -> bool {
    let q = find_char(s, k + 1, ')');
    q < s.len() && ws_end(s, q + 1) == s.len()
}

/// The Go call-site shape: the whole line is optional indentation, a
/// non-whitespace run holding an opening parenthesis (not first), the
/// closing parenthesis, and trailing whitespace.
pub open spec fn go_a_match(s: Seq<char>) -> bool {
    let w = ws_end(s, 0);
    let re = run_end(s, w, |c: char| !is_ws(c));
    exists|k: int| w < k < re && #[trigger] s[k] == '(' && go_a_close(s, k)
}

/// The Go frame shape: mandatory indentation, a non-empty colon-free
/// file, a colon, a digit run, whitespace, and an offset character.
pub open spec fn go_b_parse(s: Seq<char>) -> Option<(Seq<char>, Seq<char>)> {
    let w = ws_end(s, 0);
    if w >= 1 {
        let fe = find_char(s, w, ':');
        if w < fe < s.len() {
            let de = digit_end(s, fe + 1);
            if de > fe + 1 {
                let ve = ws_end(s, de);
                if ve > de && ve < s.len() && go_off_char(s[ve]) {
                    Some((s.subrange(w, fe), s.subrange(fe + 1, de)))
                } else {
                    None
                }
            } else {
                None
            }
        } else {
            None
        }
    } else {
        None
    }
}

/// Either Go shape matches the line.
pub open spec fn go_stack_match(s: Seq<char>) -> bool {
    go_a_match(s) || go_b_parse(s) is Some
}

pub fn go_a_match_exec(s: &Vec<char>) -> (r: bool)
    ensures
        r == go_a_match(s@),
{
    let w = ws_run_end(s, 0);
    let re = nonws_run_end(s, w);
    if re - w < 2 {
        proof {
            assert(forall|kk: int| w < kk < re ==> !(#[trigger] s@[kk] == '(' && go_a_close(
                s@,
                kk,
            )));
        }
        return false;
    }
    let mut k: usize = w + 1;
    loop
        invariant
            w + 1 <= k <= re,
            re <= s@.len(),
            w == ws_end(s@, 0),
            re == run_end(s@, w as int, |c: char| !is_ws(c)),
            forall|kk: int| w < kk < k ==> !(#[trigger] s@[kk] == '(' && go_a_close(s@, kk)),
        decreases re - k,
    {
        if k >= re {
            proof {
                assert(forall|kk: int|
                    (w < kk < re && #[trigger] s@[kk] == '(' && go_a_close(s@, kk)) ==> false);
            }
            return false;
        }
        if s[k] == '(' {
            let q = find_char_from(s, k + 1, ')');
            if q < s.len() {
                let we = ws_run_end(s, q + 1);
                if we == s.len() {
                    proof {
                        assert(s@[k as int] == '(' && go_a_close(s@, k as int));
                    }
                    return true;
                }
            }
            proof {
                assert(!go_a_close(s@, k as int));
            }
        }
        k = k + 1;
    }
}

/// End of the non-whitespace run starting at `i`.
pub fn nonws_run_end(s: &Vec<char>, i: usize) -> (r: usize)
    requires
        i <= s.len(),
    ensures
        r == run_end(s@, i as int, |c: char| !is_ws(c)),
        i <= r <= s.len(),
{
    let mut j: usize = i;
    while j < s.len() && !c_is_ws(s[j])
        invariant
            i <= j <= s.len(),
            run_end(s@, i as int, |c: char| !is_ws(c)) == run_end(
                s@,
                j as int,
                |c: char| !is_ws(c),
            ),
        decreases s.len() - j,
    {
        j = j + 1;
    }
    j
}

pub fn go_b_parse_exec(s: &Vec<char>) -> (r: Option<(Vec<char>, Vec<char>)>)
    ensures
        match r {
            Some((f, l)) => go_b_parse(s@) == Some((f@, l@)),
            None => go_b_parse(s@) is None,
        },
{
    let w = ws_run_end(s, 0);
    if w < 1 {
        return None;
    }
    let fe = find_char_from(s, w, ':');
    if w < fe && fe < s.len() {
        let de = digit_run_end(s, fe + 1);
        if de > fe + 1 {
            let ve = ws_run_end(s, de);
            if ve > de && ve < s.len() {
                let c = s[ve];
                let u = c as u32;
                if c == '+' || c_is_digit(c) || ('a' as u32 <= u && u <= 'f' as u32) || c == 'x' {
                    return Some((sub_chars(s, w, fe), sub_chars(s, fe + 1, de)));
                }
            }
        }
    }
    None
}

/// Tail of a panic-style frame: a non-empty colon-free file, a colon, a
/// digit run, a colon, a digit run, and a mandatory closing parenthesis.
pub open spec fn rust_tail_at(s: Seq<char>, t: int) -> Option<RawLoc> {
    let fe = find_char(s, t, ':');
    if 0 <= t < fe < s.len() {
        let d1e = digit_end(s, fe + 1);
        if d1e > fe + 1 && d1e < s.len() && s[d1e] == ':' {
            let d2e = digit_end(s, d1e + 1);
            if d2e > d1e + 1 && d2e < s.len() && s[d2e] == ')' {
                Some(
                    (
                        s.subrange(t, fe),
                        s.subrange(fe + 1, d1e),
                        s.subrange(d1e + 1, d2e),
                    ),
                )
            } else {
                None
            }
        } else {
            None
        }
    } else {
        None
    }
}

/// The panic-style frame anchored at an `at` occurrence at `o`: a
/// parenthesis-free name, whitespace just before the opening
/// parenthesis, and the tail after it.
pub open spec fn rust_at_occ(s: Seq<char>, o: int) -> Option<RawLoc> {
    let wmax = ws_end(s, o + 2) - (o + 2);
    if wmax >= 1 {
        let p = find_char(s, o + 2 + wmax, '(');
        if p < s.len() && p >= o + 5 && is_ws(s[p - 1]) {
            rust_tail_at(s, p + 1)
        } else {
            None
        }
    } else {
        None
    }
}

/// Leftmost `at` occurrence whose panic-style frame parses.
pub open spec fn rust_loc_from(s: Seq<char>, i: int) -> Option<RawLoc>
    decreases s.len() - i + 1,
{
    if i > s.len() || i < 0 {
        None
    } else if match_at(s, i, "at"@) && rust_at_occ(s, i) is Some {
        rust_at_occ(s, i)
    } else if i == s.len() {
        None
    } else {
        rust_loc_from(s, i + 1)
    }
}

fn rust_tail_exec(s: &Vec<char>, t: usize) -> (r: Option<(Vec<char>, Vec<char>, Vec<char>)>)
    requires
        t <= s.len(),
    ensures
        match r {
            Some((f, l, c)) => rust_tail_at(s@, t as int) == Some((f@, l@, c@)),
            None => rust_tail_at(s@, t as int) is None,
        },
{
    let fe = find_char_from(s, t, ':');
    if t < fe && fe < s.len() {
        let d1e = digit_run_end(s, fe + 1);
        if d1e > fe + 1 && d1e < s.len() && s[d1e] == ':' {
            let d2e = digit_run_end(s, d1e + 1);
            if d2e > d1e + 1 && d2e < s.len() && s[d2e] == ')' {
                return Some(
                    (sub_chars(s, t, fe), sub_chars(s, fe + 1, d1e), sub_chars(s, d1e + 1, d2e)),
                );
            }
        }
    }
    None
}

fn rust_at_occ_exec(s: &Vec<char>, o: usize) -> (r: Option<(Vec<char>, Vec<char>, Vec<char>)>)
    requires
        o + 2 <= s.len(),
    ensures
        match r {
            Some((f, l, c)) => rust_at_occ(s@, o as int) == Some((f@, l@, c@)),
            None => rust_at_occ(s@, o as int) is None,
        },
{
    let wend = ws_run_end(s, o + 2);
    if wend == o + 2 {
        return None;
    }
    let p = find_char_from(s, wend, '(');
    if p < s.len() && p - o >= 5 && c_is_ws(s[p - 1]) {
        rust_tail_exec(s, p + 1)
    } else {
        None
    }
}

/// The captured pieces of the leftmost panic-style frame, if one matches.
pub fn rust_loc_exec(s: &Vec<char>) -> (r: Option<(Vec<char>, Vec<char>, Vec<char>)>)
    ensures
        match r {
            Some((f, l, c)) => rust_loc_from(s@, 0) == Some((f@, l@, c@)),
            None => rust_loc_from(s@, 0) is None,
        },
{
    let at = to_chars("at");
    proof {
        reveal_strlit("at");
    }
    let mut i: usize = 0;
    loop
        invariant
            i <= s@.len(),
            at@ == "at"@,
            at@.len() == 2,
            rust_loc_from(s@, 0) == rust_loc_from(s@, i as int),
        decreases s.len() + 1 - i,
    {
        if is_match_at(s, i, &at) {
            let occ = rust_at_occ_exec(s, i);
            if occ.is_some() {
                return occ;
            }
        }
        if i == s.len() {
            return None;
        }
        i = i + 1;
    }
}

/// The Python frame anchored at a `File` occurrence at `o`: whitespace,
/// a quoted non-empty path, a comma, whitespace, the word `line`,
/// whitespace and a digit run.
pub open spec fn py_at_occ(s: Seq<char>, o: int) -> Option<(Seq<char>, Seq<char>)> {
    let o4 = o + "File"@.len();
    let q0 = ws_end(s, o4);
    if q0 > o4 && q0 < s.len() && s[q0] == '"' {
        let fe = find_char(s, q0 + 1, '"');
        if q0 + 1 < fe < s.len() && fe + 1 < s.len() && s[fe + 1] == ',' {
            let v = ws_end(s, fe + 2);
            if v > fe + 2 && match_at(s, v, "line"@) {
                let m = v + "line"@.len();
                let u = ws_end(s, m);
                if u > m {
                    let de = digit_end(s, u);
                    if de > u {
                        Some((s.subrange(q0 + 1, fe), s.subrange(u, de)))
                    } else {
                        None
                    }
                } else {
                    None
                }
            } else {
                None
            }
        } else {
            None
        }
    } else {
        None
    }
}

/// Leftmost `File` occurrence whose Python frame parses.
pub open spec fn py_loc_from(s: Seq<char>, i: int) -> Option<(Seq<char>, Seq<char>)>
    decreases s.len() - i + 1,
{
    if i > s.len() || i < 0 {
        None
    } else if match_at(s, i, "File"@) && py_at_occ(s, i) is Some {
        py_at_occ(s, i)
    } else if i == s.len() {
        None
    } else {
        py_loc_from(s, i + 1)
    }
}

fn py_at_occ_exec(s: &Vec<char>, o: usize) -> (r: Option<(Vec<char>, Vec<char>)>)
    requires
        o + 4 <= s.len(),
    ensures
        match r {
            Some((f, l)) => py_at_occ(s@, o as int) == Some((f@, l@)),
            None => py_at_occ(s@, o as int) is None,
        },
{
    proof {
        reveal_strlit("File");
        reveal_strlit("line");
    }
    let q0 = ws_run_end(s, o + 4);
    if q0 > o + 4 && q0 < s.len() && s[q0] == '"' {
        let fe = find_char_from(s, q0 + 1, '"');
        if q0 + 1 < fe && fe < s.len() && fe + 1 < s.len() && s[fe + 1] == ',' {
            let v = ws_run_end(s, fe + 2);
            let line_tok = to_chars("line");
            if v > fe + 2 && is_match_at(s, v, &line_tok) {
                let m = v + 4;
                let u = ws_run_end(s, m);
                if u > m {
                    let de = digit_run_end(s, u);
                    if de > u {
                        return Some((sub_chars(s, q0 + 1, fe), sub_chars(s, u, de)));
                    }
                }
            }
        }
    }
    None
}

/// The captured pieces of the leftmost Python frame, if one matches.
pub fn py_loc_exec(s: &Vec<char>) -> (r: Option<(Vec<char>, Vec<char>)>)
    ensures
        match r {
            Some((f, l)) => py_loc_from(s@, 0) == Some((f@, l@)),
            None => py_loc_from(s@, 0) is None,
        },
{
    let file_tok = to_chars("File");
    proof {
        reveal_strlit("File");
    }
    let mut i: usize = 0;
    loop
        invariant
            i <= s@.len(),
            file_tok@ == "File"@,
            file_tok@.len() == 4,
            py_loc_from(s@, 0) == py_loc_from(s@, i as int),
        decreases s.len() + 1 - i,
    {
        if is_match_at(s, i, &file_tok) {
            let occ = py_at_occ_exec(s, i);
            if occ.is_some() {
                return occ;
            }
        }
        if i == s.len() {
            return None;
        }
        i = i + 1;
    }
}

/// A location as the record carries it: an optional file, an optional
/// line number and an optional column number.
pub type LocParts = (Option<Seq<char>>, Option<u32>, Option<u32>);

/// File, line and column from three captured pieces: number pieces that
/// do not fit a `u32` leave their field absent.
pub open spec fn loc3(o: Option<RawLoc>) -> LocParts {
    match o {
        None => (None, None, None),
        Some((f, l, c)) => (Some(f), parse_u32_spec(l), parse_u32_spec(c)),
    }
}

/// File and line from two captured pieces.
pub open spec fn loc2(o: Option<(Seq<char>, Seq<char>)>) -> LocParts {
    match o {
        None => (None, None, None),
        Some((f, l)) => (Some(f), parse_u32_spec(l), None),
    }
}

/// Location the JS-style shape yields.
pub open spec fn node_loc_spec(s: Seq<char>) -> LocParts {
    loc3(node_loc_from(s, 0))
}

/// Location the Python shape yields.
pub open spec fn python_loc_spec(s: Seq<char>) -> LocParts {
    loc2(py_loc_from(s, 0))
}

/// Location the JVM shape yields.
pub open spec fn java_loc_spec(s: Seq<char>) -> LocParts {
    loc2(java_loc_from(s, 0))
}

/// Location the Go shapes yield: the call-site shape matches first and
/// yields no file; otherwise the frame shape is read.
pub open spec fn go_loc_spec(s: Seq<char>) -> LocParts {
    if go_a_match(s) {
        (None, None, None)
    } else {
        loc2(go_b_parse(s))
    }
}

/// Location the panic-style shape yields.
pub open spec fn rust_loc_spec(s: Seq<char>) -> LocParts {
    loc3(rust_loc_from(s, 0))
}

/// The first shape, in fixed priority order, that yields a file.
pub open spec fn locate_any_spec(s: Seq<char>) -> LocParts {
    if node_loc_spec(s).0 is Some {
        node_loc_spec(s)
    } else if python_loc_spec(s).0 is Some {
        python_loc_spec(s)
    } else if java_loc_spec(s).0 is Some {
        java_loc_spec(s)
    } else if go_loc_spec(s).0 is Some {
        go_loc_spec(s)
    } else if rust_loc_spec(s).0 is Some {
        rust_loc_spec(s)
    } else {
        (None, None, None)
    }
}

/// The executable location triple mirrors a spec triple.
pub open spec fn loc_matches(r: (Option<Vec<char>>, Option<u32>, Option<u32>), v: LocParts) -> bool {
    &&& match r.0 {
        Some(f) => v.0 == Some(f@),
        None => v.0 is None,
    }
    &&& r.1 == v.1
    &&& r.2 == v.2
}

fn finish3(o: Option<(Vec<char>, Vec<char>, Vec<char>)>, Ghost(g): Ghost<Option<RawLoc>>) -> (r: (
    Option<Vec<char>>,
    Option<u32>,
    Option<u32>,
))
    requires
        match o {
            Some((f, l, c)) => g == Some((f@, l@, c@)),
            None => g is None,
        },
    ensures
        loc_matches(r, loc3(g)),
{
    match o {
        None => (None, None, None),
        Some((f, l, c)) => {
            let ln = parse_u32_chars(&l);
            let cn = parse_u32_chars(&c);
            (Some(f), ln, cn)
        },
    }
}

fn finish2(o: Option<(Vec<char>, Vec<char>)>, Ghost(g): Ghost<
    Option<(Seq<char>, Seq<char>)>,
>) -> (r: (Option<Vec<char>>, Option<u32>, Option<u32>))
    requires
        match o {
            Some((f, l)) => g == Some((f@, l@)),
            None => g is None,
        },
    ensures
        loc_matches(r, loc2(g)),
{
    match o {
        None => (None, None, None),
        Some((f, l)) => {
            let ln = parse_u32_chars(&l);
            (Some(f), ln, None)
        },
    }
}

/// File, line and column from a JS-style frame line.
pub fn extract_node_location_chars(s: &Vec<char>) -> (r: (
    Option<Vec<char>>,
    Option<u32>,
    Option<u32>,
))
    ensures
        loc_matches(r, node_loc_spec(s@)),
{
    let o = node_loc_exec(s);
    finish3(o, Ghost(node_loc_from(s@, 0)))
}

/// File and line from a Python frame line.
pub fn extract_python_location_chars(s: &Vec<char>) -> (r: (
    Option<Vec<char>>,
    Option<u32>,
    Option<u32>,
))
    ensures
        loc_matches(r, python_loc_spec(s@)),
{
    let o = py_loc_exec(s);
    finish2(o, Ghost(py_loc_from(s@, 0)))
}

/// File and line from a JVM frame line.
pub fn extract_java_location_chars(s: &Vec<char>) -> (r: (
    Option<Vec<char>>,
    Option<u32>,
    Option<u32>,
))
    ensures
        loc_matches(r, java_loc_spec(s@)),
{
    let o = java_loc_exec(s);
    finish2(o, Ghost(java_loc_from(s@, 0)))
}

/// File and line from a Go frame line.
pub fn extract_go_location_chars(s: &Vec<char>) -> (r: (
    Option<Vec<char>>,
    Option<u32>,
    Option<u32>,
))
    ensures
        loc_matches(r, go_loc_spec(s@)),
{
    if go_a_match_exec(s) {
        (None, None, None)
    } else {
        let o = go_b_parse_exec(s);
        finish2(o, Ghost(go_b_parse(s@)))
    }
}

/// File, line and column from a panic-style frame line.
pub fn extract_rust_location_chars(s: &Vec<char>) -> (r: (
    Option<Vec<char>>,
    Option<u32>,
    Option<u32>,
))
    ensures
        loc_matches(r, rust_loc_spec(s@)),
{
    let o = rust_loc_exec(s);
    finish3(o, Ghost(rust_loc_from(s@, 0)))
}

/// Location from any supported shape, in fixed priority order.
pub fn locate_any_chars(s: &Vec<char>) -> (r: (Option<Vec<char>>, Option<u32>, Option<u32>))
    ensures
        loc_matches(r, locate_any_spec(s@)),
{
    let n = extract_node_location_chars(s);
    if n.0.is_some() {
        return n;
    }
    let p = extract_python_location_chars(s);
    if p.0.is_some() {
        return p;
    }
    let j = extract_java_location_chars(s);
    if j.0.is_some() {
        return j;
    }
    let g = extract_go_location_chars(s);
    if g.0.is_some() {
        return g;
    }
    let rl = extract_rust_location_chars(s);
    if rl.0.is_some() {
        return rl;
    }
    (None, None, None)
}

/// The executable string-level location triple mirrors a spec triple.
pub open spec fn loc_str_matches(
    r: (Option<String>, Option<u32>, Option<u32>),
    v: LocParts,
) -> bool {
    &&& match r.0 {
        Some(f) => v.0 == Some(f@),
        None => v.0 is None,
    }
    &&& r.1 == v.1
    &&& r.2 == v.2
}

fn to_loc_strings(r: (Option<Vec<char>>, Option<u32>, Option<u32>), Ghost(v): Ghost<LocParts>) -> (o: (
    Option<String>,
    Option<u32>,
    Option<u32>,
))
    requires
        loc_matches(r, v),
    ensures
        loc_str_matches(o, v),
{
    let f = match r.0 {
        Some(fv) => Some(from_chars(&fv)),
        None => None,
    };
    (f, r.1, r.2)
}

/// File, line and column of a JS-style frame line.
pub fn extract_node_location(line: &str) -> (r: (Option<String>, Option<u32>, Option<u32>))
    ensures
        loc_str_matches(r, node_loc_spec(line@)),
{
    let v = to_chars(line);
    to_loc_strings(extract_node_location_chars(&v), Ghost(node_loc_spec(line@)))
}

/// File and line of a Python frame line.
pub fn extract_python_location(line: &str) -> (r: (Option<String>, Option<u32>, Option<u32>))
    ensures
        loc_str_matches(r, python_loc_spec(line@)),
{
    let v = to_chars(line);
    to_loc_strings(extract_python_location_chars(&v), Ghost(python_loc_spec(line@)))
}

/// File and line of a JVM frame line.
pub fn extract_java_location(line: &str) -> (r: (Option<String>, Option<u32>, Option<u32>))
    ensures
        loc_str_matches(r, java_loc_spec(line@)),
{
    let v = to_chars(line);
    to_loc_strings(extract_java_location_chars(&v), Ghost(java_loc_spec(line@)))
}

/// File and line of a Go frame line.
pub fn extract_go_location(line: &str) -> (r: (Option<String>, Option<u32>, Option<u32>))
    ensures
        loc_str_matches(r, go_loc_spec(line@)),
{
    let v = to_chars(line);
    to_loc_strings(extract_go_location_chars(&v), Ghost(go_loc_spec(line@)))
}

/// File, line and column of a panic-style frame line.
pub fn extract_rust_location(line: &str) -> (r: (Option<String>, Option<u32>, Option<u32>))
    ensures
        loc_str_matches(r, rust_loc_spec(line@)),
{
    let v = to_chars(line);
    to_loc_strings(extract_rust_location_chars(&v), Ghost(rust_loc_spec(line@)))
}

/// Location from any supported frame shape, in fixed priority order.
pub fn extract_location_any_format(line: &str) -> (r: (Option<String>, Option<u32>, Option<u32>))
    ensures
        loc_str_matches(r, locate_any_spec(line@)),
{
    let v = to_chars(line);
    to_loc_strings(locate_any_chars(&v), Ghost(locate_any_spec(line@)))
}

} // verus!
