//! Character-level text utilities shared by the matchers and extractors:
//! character classes, substring search, replacement, trimming, runs,
//! decimal parsing and line splitting, each with an exact specification.
use vstd::prelude::*;

verus! {

/// ASCII whitespace, the white space characters a log line can carry.
pub open spec fn is_ws(c: char) -> bool {
    c == ' ' || c == '\t' || c == '\n' || c == '\r' || c == '\x0b' || c == '\x0c'
}

/// Decimal digit.
pub open spec fn is_digit(c: char) -> bool {
    '0' as u32 <= c as u32 && c as u32 <= '9' as u32
}

/// Word character: letter, digit or underscore (the class that decides
/// word boundaries around keywords and identifiers).
pub open spec fn is_word(c: char) -> bool {
    ('a' as u32 <= c as u32 && c as u32 <= 'z' as u32)
    || ('A' as u32 <= c as u32 && c as u32 <= 'Z' as u32)
    || is_digit(c)
    || c == '_'
}

/// Lower-case hexadecimal digit (as they appear in a UUID).
pub open spec fn is_lhex(c: char) -> bool {
    is_digit(c) || ('a' as u32 <= c as u32 && c as u32 <= 'f' as u32)
}

/// The code point of `c` with an ASCII upper-case letter folded to lower case.
pub open spec fn low(c: char) -> int {
    if 'A' as u32 <= c as u32 && c as u32 <= 'Z' as u32 {
        c as u32 + 32
    } else {
        c as u32 as int
    }
}

/// Case-insensitive character equality (ASCII folding).
pub open spec fn ci_eq(a: char, b: char) -> bool {
    low(a) == low(b)
}

pub fn c_is_ws(c: char) -> (r: bool)
    ensures
        r == is_ws(c),
{
    c == ' ' || c == '\t' || c == '\n' || c == '\r' || c == '\x0b' || c == '\x0c'
}

pub fn c_is_digit(c: char) -> (r: bool)
    ensures
        r == is_digit(c),
{
    let u = c as u32;
    '0' as u32 <= u && u <= '9' as u32
}

pub fn c_is_word(c: char) -> (r: bool)
    ensures
        r == is_word(c),
{
    let u = c as u32;
    ('a' as u32 <= u && u <= 'z' as u32) || ('A' as u32 <= u && u <= 'Z' as u32)
        || ('0' as u32 <= u && u <= '9' as u32) || c == '_'
}

pub fn c_is_lhex(c: char) -> (r: bool)
    ensures
        r == is_lhex(c),
{
    let u = c as u32;
    ('0' as u32 <= u && u <= '9' as u32) || ('a' as u32 <= u && u <= 'f' as u32)
}

pub fn c_ci_eq(a: char, b: char) -> (r: bool)
    ensures
        r == ci_eq(a, b),
{
    let mut ua = a as u32;
    let mut ub = b as u32;
    if 'A' as u32 <= ua && ua <= 'Z' as u32 {
        ua = ua + 32;
    }
    if 'A' as u32 <= ub && ub <= 'Z' as u32 {
        ub = ub + 32;
    }
    ua == ub
}

/// The characters of `s`, in order.
pub fn to_chars(s: &str) -> (r: Vec<char>)
    ensures
        r@ == s@,
{
    let n = s.unicode_len();
    let mut r: Vec<char> = Vec::new();
    let mut i: usize = 0;
    while i < n
        invariant
            n == s@.len(),
            i <= n,
            r@ == s@.take(i as int),
        decreases n - i,
    {
        let c = s.get_char(i);
        r.push(c);
        i = i + 1;
        proof {
            assert(r@ =~= s@.take(i as int));
        }
    }
    proof {
        assert(r@ =~= s@);
    }
    r
}

/// Relies on `String: FromIterator<char>` (via `Iterator::collect`):
/// collecting the characters of a vector yields the string with exactly
/// those characters.
#[verifier::external_body]
pub(crate) fn from_chars(v: &Vec<char>) -> (r: String)
    ensures
        r@ == v@,
{
    v.iter().collect()
}

/// `pat` occurs in `s` starting at index `i`.
pub open spec fn match_at(s: Seq<char>, i: int, pat: Seq<char>) -> bool {
    &&& 0 <= i
    &&& i + pat.len() <= s.len()
    &&& forall|k: int| 0 <= k < pat.len() ==> s[i + k] == #[trigger] pat[k]
}

/// `pat` occurs in `s` at index `i` up to ASCII case folding.
pub open spec fn match_at_ci(s: Seq<char>, i: int, pat: Seq<char>) -> bool {
    &&& 0 <= i
    &&& i + pat.len() <= s.len()
    &&& forall|k: int| 0 <= k < pat.len() ==> ci_eq(s[i + k], #[trigger] pat[k])
}

pub fn is_match_at(s: &Vec<char>, i: usize, pat: &Vec<char>) -> (r: bool)
    ensures
        r == match_at(s@, i as int, pat@),
{
    if i > s.len() || pat.len() > s.len() - i {
        return false;
    }
    let mut k: usize = 0;
    while k < pat.len()
        invariant
            i + pat.len() <= s.len(),
            k <= pat.len(),
            forall|kk: int| 0 <= kk < k ==> s@[i + kk] == #[trigger] pat@[kk],
        decreases pat.len() - k,
    {
        if s[i + k] != pat[k] {
            return false;
        }
        k = k + 1;
    }
    true
}

pub fn is_match_at_ci(s: &Vec<char>, i: usize, pat: &Vec<char>) -> (r: bool)
    ensures
        r == match_at_ci(s@, i as int, pat@),
{
    if i > s.len() || pat.len() > s.len() - i {
        return false;
    }
    let mut k: usize = 0;
    while k < pat.len()
        invariant
            i + pat.len() <= s.len(),
            k <= pat.len(),
            forall|kk: int| 0 <= kk < k ==> ci_eq(s@[i + kk], #[trigger] pat@[kk]),
        decreases pat.len() - k,
    {
        if !c_ci_eq(s[i + k], pat[k]) {
            return false;
        }
        k = k + 1;
    }
    true
}

/// Index of the first occurrence of `pat` in `s` at or after `i`, if any.
pub open spec fn first_at_from(s: Seq<char>, pat: Seq<char>, i: int) -> Option<int>
    decreases s.len() - i + 1,
{
    if i + pat.len() > s.len() {
        None
    } else if match_at(s, i, pat) {
        Some(i)
    } else {
        first_at_from(s, pat, i + 1)
    }
}

pub fn find_from(s: &Vec<char>, pat: &Vec<char>, from: usize) -> (r: Option<usize>)
    ensures
        first_at_from(s@, pat@, from as int) == match r {
            Some(p) => Some(p as int),
            None => None::<int>,
        },
        r is Some ==> from <= r.unwrap() && r.unwrap() + pat.len() <= s.len(),
{
    let mut i: usize = from;
    loop
        invariant
            from <= i,
            first_at_from(s@, pat@, from as int) == first_at_from(s@, pat@, i as int),
        decreases s.len() + 1 - i,
    {
        if i > s.len() || pat.len() > s.len() - i {
            return None;
        }
        if is_match_at(s, i, pat) {
            return Some(i);
        }
        i = i + 1;
    }
}

/// `pat` occurs somewhere in `s`.
pub open spec fn contains_sub(s: Seq<char>, pat: Seq<char>) -> bool {
    first_at_from(s, pat, 0) is Some
}

pub fn has_sub(s: &Vec<char>, pat: &Vec<char>) -> (r: bool)
    ensures
        r == contains_sub(s@, pat@),
{
    find_from(s, pat, 0).is_some()
}

/// `pat` occurs somewhere in `s`, up to ASCII case folding.
pub open spec fn contains_ci(s: Seq<char>, pat: Seq<char>) -> bool {
    exists|p: int| match_at_ci(s, p, pat)
}

pub fn has_sub_ci(s: &Vec<char>, pat: &Vec<char>) -> (r: bool)
    ensures
        r == contains_ci(s@, pat@),
{
    let mut i: usize = 0;
    loop
        invariant
            forall|p: int| 0 <= p < i ==> !match_at_ci(s@, p, pat@),
        decreases s.len() + 1 - i,
    {
        if i > s.len() || pat.len() > s.len() - i {
            proof {
                assert(forall|p: int| match_at_ci(s@, p, pat@) ==> 0 <= p < i);
            }
            return false;
        }
        if is_match_at_ci(s, i, pat) {
            return true;
        }
        i = i + 1;
    }
}

/// `s` from position `i` on, with every occurrence of `pat` replaced by
/// `rep`, scanning left to right over non-overlapping occurrences.
pub open spec fn replace_from(s: Seq<char>, pat: Seq<char>, rep: Seq<char>, i: int) -> Seq<char>
    decreases s.len() - i,
{
    if i >= s.len() || pat.len() == 0 {
        Seq::empty()
    } else if match_at(s, i, pat) {
        rep + replace_from(s, pat, rep, i + pat.len())
    } else {
        seq![s[i]] + replace_from(s, pat, rep, i + 1)
    }
}

/// Every occurrence of `pat` in `s` replaced by `rep`.
pub open spec fn replace_all(s: Seq<char>, pat: Seq<char>, rep: Seq<char>) -> Seq<char> {
    replace_from(s, pat, rep, 0)
}

pub fn do_replace_all(s: &Vec<char>, pat: &Vec<char>, rep: &Vec<char>) -> (r: Vec<char>)
    requires
        pat.len() > 0,
    ensures
        r@ == replace_all(s@, pat@, rep@),
{
    let mut r: Vec<char> = Vec::new();
    let mut i: usize = 0;
    while i < s.len()
        invariant
            pat@.len() > 0,
            i <= s.len(),
            replace_all(s@, pat@, rep@) == r@ + replace_from(s@, pat@, rep@, i as int),
        decreases s.len() - i,
    {
        if is_match_at(s, i, pat) {
            let ghost r_before: Seq<char> = r@;
            let mut k: usize = 0;
            while k < rep.len()
                invariant
                    k <= rep.len(),
                    r@ == r_before + rep@.take(k as int),
                decreases rep.len() - k,
            {
                r.push(rep[k]);
                k = k + 1;
                proof {
                    assert(r@ =~= r_before + rep@.take(k as int));
                }
            }
            proof {
                assert(r@ =~= r_before + rep@);
            }
            i = i + pat.len();
        } else {
            r.push(s[i]);
            i = i + 1;
        }
        proof {
            assert(replace_all(s@, pat@, rep@) == r@ + replace_from(s@, pat@, rep@, i as int));
        }
    }
    proof {
        assert(replace_from(s@, pat@, rep@, i as int) =~= Seq::<char>::empty());
        assert(r@ =~= r@ + Seq::<char>::empty());
    }
    r
}

/// The character lists of a list of strings.
pub fn to_char_lists(strings: &Vec<String>) -> (r: Vec<Vec<char>>)
    ensures
        r.deep_view() == strings.deep_view(),
{
    let mut r: Vec<Vec<char>> = Vec::new();
    let mut i: usize = 0;
    while i < strings.len()
        invariant
            i <= strings@.len(),
            r.deep_view() == strings.deep_view().take(i as int),
            r@.len() == i,
        decreases strings.len() - i,
    {
        let v = to_chars(strings[i].as_str());
        let ghost rdv0 = r.deep_view();
        let ghost vm = v@;
        proof {
            assert(vm == strings.deep_view()[i as int]);
        }
        r.push(v);
        i = i + 1;
        proof {
            assert(r.deep_view() =~~= rdv0.push(vm));
            assert(rdv0.push(vm) =~= strings.deep_view().take(i as int));
        }
    }
    proof {
        assert(strings.deep_view().take(strings@.len() as int) =~= strings.deep_view());
    }
    r
}

/// The strings of a list of character lists.
pub fn from_char_lists(v: &Vec<Vec<char>>) -> (r: Vec<String>)
    ensures
        r.deep_view() == v.deep_view(),
{
    let mut r: Vec<String> = Vec::new();
    let mut i: usize = 0;
    while i < v.len()
        invariant
            i <= v@.len(),
            r.deep_view() == v.deep_view().take(i as int),
            r@.len() == i,
        decreases v.len() - i,
    {
        let s = from_chars(&v[i]);
        let ghost rdv0 = r.deep_view();
        let ghost sm = s@;
        proof {
            assert(sm == v.deep_view()[i as int]);
        }
        r.push(s);
        i = i + 1;
        proof {
            assert(r.deep_view() =~~= rdv0.push(sm));
            assert(rdv0.push(sm) =~= v.deep_view().take(i as int));
        }
    }
    proof {
        assert(v.deep_view().take(v@.len() as int) =~= v.deep_view());
    }
    r
}

/// Append a copy of `src` to `dst`.
pub fn push_all(dst: &mut Vec<char>, src: &Vec<char>)
    ensures
        final(dst)@ == old(dst)@ + src@,
{
    let ghost base = dst@;
    let mut k: usize = 0;
    while k < src.len()
        invariant
            k <= src@.len(),
            dst@ == base + src@.take(k as int),
        decreases src.len() - k,
    {
        dst.push(src[k]);
        k = k + 1;
        proof {
            assert(dst@ =~= base + src@.take(k as int));
        }
    }
    proof {
        assert(dst@ =~= base + src@);
    }
}

/// End of the run of characters satisfying `f` that starts at `i`: the
/// first index at or after `i` holding a character that fails `f`, or the
/// length of `s`.
pub open spec fn run_end(s: Seq<char>, i: int, f: spec_fn(char) -> bool) -> int
    decreases s.len() - i,
{
    if i < 0 || i >= s.len() {
        s.len() as int
    } else if !f(s[i]) {
        i
    } else {
        run_end(s, i + 1, f)
    }
}

pub proof fn lemma_run_end(s: Seq<char>, i: int, f: spec_fn(char) -> bool)
    requires
        0 <= i <= s.len(),
    ensures
        i <= run_end(s, i, f) <= s.len(),
        forall|k: int| i <= k < run_end(s, i, f) ==> f(#[trigger] s[k]),
        run_end(s, i, f) < s.len() ==> !f(s[run_end(s, i, f)]),
    decreases s.len() - i,
{
    if i < s.len() && f(s[i]) {
        lemma_run_end(s, i + 1, f);
    }
}

/// End of the whitespace run starting at `i`.
pub open spec fn ws_end(s: Seq<char>, i: int) -> int {
    run_end(s, i, |c: char| is_ws(c))
}

/// End of the digit run starting at `i`.
pub open spec fn digit_end(s: Seq<char>, i: int) -> int {
    run_end(s, i, |c: char| is_digit(c))
}

/// First index at or after `i` holding the character `t`, or the length.
pub open spec fn find_char(s: Seq<char>, i: int, t: char) -> int {
    run_end(s, i, |c: char| c != t)
}

pub fn ws_run_end(s: &Vec<char>, i: usize) -> (r: usize)
    requires
        i <= s.len(),
    ensures
        r == ws_end(s@, i as int),
        i <= r <= s.len(),
{
    let mut j: usize = i;
    while j < s.len() && c_is_ws(s[j])
        invariant
            i <= j <= s.len(),
            ws_end(s@, i as int) == ws_end(s@, j as int),
        decreases s.len() - j,
    {
        j = j + 1;
    }
    j
}

pub fn digit_run_end(s: &Vec<char>, i: usize) -> (r: usize)
    requires
        i <= s.len(),
    ensures
        r == digit_end(s@, i as int),
        i <= r <= s.len(),
{
    let mut j: usize = i;
    while j < s.len() && c_is_digit(s[j])
        invariant
            i <= j <= s.len(),
            digit_end(s@, i as int) == digit_end(s@, j as int),
        decreases s.len() - j,
    {
        j = j + 1;
    }
    j
}

pub fn find_char_from(s: &Vec<char>, i: usize, t: char) -> (r: usize)
    requires
        i <= s.len(),
    ensures
        r == find_char(s@, i as int, t),
        i <= r <= s.len(),
{
    let mut j: usize = i;
    while j < s.len() && s[j] != t
        invariant
            i <= j <= s.len(),
            find_char(s@, i as int, t) == find_char(s@, j as int, t),
        decreases s.len() - j,
    {
        j = j + 1;
    }
    j
}

pub proof fn lemma_find_char_props(s: Seq<char>, i: int, t: char)
    requires
        0 <= i <= s.len(),
    ensures
        i <= find_char(s, i, t) <= s.len(),
        forall|k: int| i <= k < find_char(s, i, t) ==> #[trigger] s[k] != t,
        find_char(s, i, t) < s.len() ==> s[find_char(s, i, t)] == t,
    decreases s.len() - i,
{
    if i < s.len() && s[i] != t {
        lemma_find_char_props(s, i + 1, t);
    }
}

pub proof fn lemma_find_char_unique(s: Seq<char>, i: int, t: char, j: int)
    requires
        0 <= i <= j <= s.len(),
        forall|k: int| i <= k < j ==> #[trigger] s[k] != t,
        j < s.len() ==> s[j] == t,
    ensures
        find_char(s, i, t) == j,
    decreases j - i,
{
    if i < j {
        lemma_find_char_unique(s, i + 1, t, j);
    }
}

/// Least index `b <= j` such that every character in `[b, j)` satisfies `f`.
pub open spec fn back_while(s: Seq<char>, j: int, f: spec_fn(char) -> bool) -> int
    decreases j,
{
    if j <= 0 || j > s.len() {
        0
    } else if f(s[j - 1]) {
        back_while(s, j - 1, f)
    } else {
        j
    }
}

proof fn lemma_back_while(s: Seq<char>, j: int, f: spec_fn(char) -> bool)
    requires
        0 <= j <= s.len(),
    ensures
        0 <= back_while(s, j, f) <= j,
        forall|k: int| back_while(s, j, f) <= k < j ==> f(#[trigger] s[k]),
    decreases j,
{
    if j > 0 && f(s[j - 1]) {
        lemma_back_while(s, j - 1, f);
    }
}

/// `s` with leading and trailing whitespace removed.
pub open spec fn trim_spec(s: Seq<char>) -> Seq<char> {
    let a = ws_end(s, 0);
    if a == s.len() {
        Seq::empty()
    } else {
        s.subrange(a, back_while(s, s.len() as int, |c: char| is_ws(c)))
    }
}

pub fn trim_chars(s: &Vec<char>) -> (r: Vec<char>)
    ensures
        r@ == trim_spec(s@),
{
    let a = ws_run_end(s, 0);
    if a == s.len() {
        let r: Vec<char> = Vec::new();
        proof {
            assert(r@ =~= trim_spec(s@));
        }
        return r;
    }
    let mut b: usize = s.len();
    while b > 0 && c_is_ws(s[b - 1])
        invariant
            0 <= b <= s.len(),
            back_while(s@, s@.len() as int, |c: char| is_ws(c)) == back_while(
                s@,
                b as int,
                |c: char| is_ws(c),
            ),
        decreases b,
    {
        b = b - 1;
    }
    proof {
        lemma_run_end(s@, 0, |c: char| is_ws(c));
        assert(!is_ws(s@[a as int]));
        assert(back_while(s@, b as int, |c: char| is_ws(c)) == b);
        lemma_back_while(s@, s@.len() as int, |c: char| is_ws(c));
        if b <= a {
            assert(is_ws(s@[a as int]));  // contradiction: a lies in the trailing ws run
        }
    }
    let mut r: Vec<char> = Vec::new();
    let mut k: usize = a;
    while k < b
        invariant
            a <= k <= b <= s.len(),
            r@ == s@.subrange(a as int, k as int),
        decreases b - k,
    {
        r.push(s[k]);
        k = k + 1;
        proof {
            assert(r@ =~= s@.subrange(a as int, k as int));
        }
    }
    r
}

/// Copy of `s[from..to]`.
pub fn sub_chars(s: &Vec<char>, from: usize, to: usize) -> (r: Vec<char>)
    requires
        from <= to <= s.len(),
    ensures
        r@ == s@.subrange(from as int, to as int),
{
    let mut r: Vec<char> = Vec::new();
    let mut k: usize = from;
    while k < to
        invariant
            from <= k <= to <= s.len(),
            r@ == s@.subrange(from as int, k as int),
        decreases to - k,
    {
        r.push(s[k]);
        k = k + 1;
        proof {
            assert(r@ =~= s@.subrange(from as int, k as int));
        }
    }
    r
}

/// Value of a digit string read as a decimal number.
pub open spec fn dec_val(s: Seq<char>) -> int
    decreases s.len(),
{
    if s.len() == 0 {
        0
    } else {
        dec_val(s.drop_last()) * 10 + (s.last() as u32 - '0' as u32)
    }
}

/// All characters are decimal digits.
pub open spec fn all_digits(s: Seq<char>) -> bool {
    forall|k: int| 0 <= k < s.len() ==> is_digit(#[trigger] s[k])
}

/// The number a run of digits denotes, if it is a non-empty digit run
/// whose value fits in a `u32`.
pub open spec fn parse_u32_spec(s: Seq<char>) -> Option<u32> {
    if s.len() > 0 && all_digits(s) && dec_val(s) <= u32::MAX {
        Some(dec_val(s) as u32)
    } else {
        None
    }
}

proof fn lemma_dec_val_nonneg(s: Seq<char>)
    requires
        all_digits(s),
    ensures
        dec_val(s) >= 0,
    decreases s.len(),
{
    if s.len() > 0 {
        assert(all_digits(s.drop_last())) by {
            assert(forall|k: int|
                0 <= k < s.len() - 1 ==> s.drop_last()[k] == #[trigger] s[k]);
        }
        lemma_dec_val_nonneg(s.drop_last());
    }
}

pub fn parse_u32_chars(s: &Vec<char>) -> (r: Option<u32>)
    ensures
        r == parse_u32_spec(s@),
{
    if s.len() == 0 {
        return None;
    }
    let mut acc: u64 = 0;
    let mut k: usize = 0;
    while k < s.len()
        invariant
            0 <= k <= s.len(),
            all_digits(s@.take(k as int)),
            acc == dec_val(s@.take(k as int)),
            acc <= u32::MAX,
        decreases s.len() - k,
    {
        let c = s[k];
        if !c_is_digit(c) {
            proof {
                assert(s@[k as int] == c && !is_digit(c));
            }
            return None;
        }
        let d: u64 = (c as u32 - '0' as u32) as u64;
        acc = acc * 10 + d;
        k = k + 1;
        proof {
            assert(s@.take(k as int).drop_last() =~= s@.take(k as int - 1));
            assert(s@.take(k as int).last() == s@[k as int - 1]);
            assert(all_digits(s@.take(k as int)));
        }
        if acc > u32::MAX as u64 {
            proof {
                if all_digits(s@) {
                    lemma_dec_val_monotone(s@, k as int);
                }
            }
            return None;
        }
    }
    proof {
        assert(s@.take(s@.len() as int) =~= s@);
    }
    Some(acc as u32)
}

/// Once a decimal prefix exceeds `u32::MAX`, the whole digit string does.
proof fn lemma_dec_val_monotone(s: Seq<char>, k: int)
    requires
        0 <= k <= s.len(),
        all_digits(s),
        dec_val(s.take(k)) > u32::MAX,
    ensures
        dec_val(s) > u32::MAX,
    decreases s.len() - k,
{
    if k < s.len() {
        assert(all_digits(s.take(k + 1))) by {
            assert(forall|j: int| 0 <= j < k + 1 ==> s.take(k + 1)[j] == #[trigger] s[j]);
        }
        assert(s.take(k + 1).drop_last() =~= s.take(k));
        assert(dec_val(s.take(k + 1)) == dec_val(s.take(k)) * 10 + (s[k] as u32 - '0' as u32));
        lemma_dec_val_monotone(s, k + 1);
    } else {
        assert(s.take(k) =~= s);
    }
}

/// Lexicographic order on character sequences by code point, the order in
/// which example strings are canonically sorted.
pub open spec fn lex_le(a: Seq<char>, b: Seq<char>) -> bool
    decreases a.len(),
{
    if a.len() == 0 {
        true
    } else if b.len() == 0 {
        false
    } else if (a[0] as u32) < (b[0] as u32) {
        true
    } else if (a[0] as u32) > (b[0] as u32) {
        false
    } else {
        lex_le(a.drop_first(), b.drop_first())
    }
}

pub fn chars_lex_le(a: &Vec<char>, b: &Vec<char>) -> (r: bool)
    ensures
        r == lex_le(a@, b@),
{
    let n = if a.len() < b.len() {
        a.len()
    } else {
        b.len()
    };
    proof {
        assert(a@.skip(0) =~= a@);
        assert(b@.skip(0) =~= b@);
    }
    let mut k: usize = 0;
    while k < n
        invariant
            0 <= k <= n,
            n == if a@.len() < b@.len() {
                a@.len()
            } else {
                b@.len()
            },
            lex_le(a@, b@) == lex_le(a@.skip(k as int), b@.skip(k as int)),
        decreases n - k,
    {
        proof {
            assert(a@.skip(k as int).len() > 0 && b@.skip(k as int).len() > 0);
            assert(a@.skip(k as int)[0] == a@[k as int]);
            assert(b@.skip(k as int)[0] == b@[k as int]);
            assert(a@.skip(k as int).drop_first() =~= a@.skip(k as int + 1));
            assert(b@.skip(k as int).drop_first() =~= b@.skip(k as int + 1));
        }
        let ca = a[k];
        let cb = b[k];
        if (ca as u32) < (cb as u32) {
            return true;
        }
        if (ca as u32) > (cb as u32) {
            return false;
        }
        k = k + 1;
    }
    proof {
        if a@.len() <= b@.len() {
            assert(a@.skip(k as int).len() == 0);
        } else {
            assert(a@.skip(k as int).len() > 0 && b@.skip(k as int).len() == 0);
        }
    }
    a.len() <= b.len()
}

/// The lines of a text: pieces split on `'\n'`, a `'\r'` just before
/// the `'\n'` removed with it, and no empty final piece when the text
/// ends with a terminator. A bare trailing `'\r'` with no `'\n'` after
/// it belongs to the final line.
pub open spec fn lines_of(s: Seq<char>) -> Seq<Seq<char>>
    decreases s.len(),
{
    if s.len() == 0 {
        Seq::empty()
    } else {
        let p = find_char(s, 0, '\n');
        if 0 <= p && p < s.len() {
            seq![strip_cr(s.subrange(0, p))] + lines_of(s.subrange(p + 1, s.len() as int))
        } else {
            seq![s]
        }
    }
}

/// A text never splits into more lines than characters, plus one.
pub proof fn lemma_lines_count(s: Seq<char>)
    ensures
        lines_of(s).len() <= s.len() + 1,
    decreases s.len(),
{
    if s.len() > 0 {
        let p = find_char(s, 0, '\n');
        if 0 <= p && p < s.len() {
            lemma_lines_count(s.subrange(p + 1, s.len() as int));
        }
    }
}

/// A piece with a trailing carriage return removed.
pub open spec fn strip_cr(s: Seq<char>) -> Seq<char> {
    if s.len() > 0 && s.last() == '\r' {
        s.drop_last()
    } else {
        s
    }
}

fn strip_cr_exec(piece: Vec<char>) -> (r: Vec<char>)
    ensures
        r@ == strip_cr(piece@),
{
    let ghost orig = piece@;
    let mut piece = piece;
    if piece.len() > 0 && piece[piece.len() - 1] == '\r' {
        piece.pop();
        proof {
            assert(piece@ =~= strip_cr(orig));
        }
    }
    piece
}

/// `run_end` is the unique index with its three characteristic properties.
proof fn lemma_run_end_unique(s: Seq<char>, i: int, f: spec_fn(char) -> bool, j: int)
    requires
        0 <= i <= j <= s.len(),
        forall|k: int| i <= k < j ==> f(#[trigger] s[k]),
        j < s.len() ==> !f(s[j]),
    ensures
        run_end(s, i, f) == j,
    decreases j - i,
{
    if i < j {
        lemma_run_end_unique(s, i + 1, f, j);
    }
}

pub fn split_lines(s: &Vec<char>) -> (r: Vec<Vec<char>>)
    ensures
        r.deep_view() == lines_of(s@),
{
    let mut r: Vec<Vec<char>> = Vec::new();
    let mut i: usize = 0;
    proof {
        assert(s@.subrange(0, s@.len() as int) =~= s@);
        assert(r.deep_view() =~= Seq::<Seq<char>>::empty());
        assert(Seq::<Seq<char>>::empty() + lines_of(s@) =~= lines_of(s@));
    }
    while i < s.len()
        invariant
            0 <= i <= s.len(),
            lines_of(s@) == r.deep_view() + lines_of(s@.subrange(i as int, s@.len() as int)),
        decreases s.len() - i,
    {
        let ghost rest = s@.subrange(i as int, s@.len() as int);
        let ghost old_dv = r.deep_view();
        let p = find_char_from(s, i, '\n');
        proof {
            lemma_find_char_props(s@, i as int, '\n');
            assert(forall|k: int| 0 <= k < p - i ==> rest[k] == s@[i + k]);
            lemma_find_char_unique(rest, 0, '\n', p - i);
            assert(find_char(rest, 0, '\n') == p - i);
        }
        let piece = sub_chars(s, i, p);
        proof {
            assert(piece@ =~= rest.subrange(0, p - i));
        }
        if p == s.len() {
            // the final piece carries no terminator: it keeps a bare '\r'
            r.push(piece);
            proof {
                assert(rest.subrange(0, p - i) =~= rest);
                assert(find_char(rest, 0, '\n') == rest.len());
                assert(lines_of(rest) == seq![rest]);
                assert(piece.deep_view() =~= rest);
                assert(r.deep_view() =~= old_dv.push(rest));
                assert(old_dv.push(rest) =~= old_dv + seq![rest]);
            }
            i = s.len();
            proof {
                assert(lines_of(s@.subrange(i as int, s@.len() as int)) == Seq::<
                    Seq<char>,
                >::empty());
                assert(r.deep_view() + Seq::<Seq<char>>::empty() =~= r.deep_view());
            }
        } else {
            let piece = strip_cr_exec(piece);
            r.push(piece);
            proof {
                assert(piece.deep_view() =~= strip_cr(rest.subrange(0, p - i)));
                assert(r.deep_view() =~= old_dv.push(piece.deep_view()));
            }
            proof {
                assert(rest[p - i] == '\n');
                assert(rest.subrange(p - i + 1, rest.len() as int) =~= s@.subrange(
                    p + 1,
                    s@.len() as int,
                ));
                assert(lines_of(rest) == seq![strip_cr(rest.subrange(0, p - i))] + lines_of(
                    s@.subrange(p + 1, s@.len() as int),
                ));
                assert(old_dv.push(strip_cr(rest.subrange(0, p - i))) + lines_of(
                    s@.subrange(p + 1, s@.len() as int),
                ) =~= old_dv + lines_of(rest));
            }
            i = p + 1;
        }
    }
    proof {
        assert(lines_of(s@.subrange(i as int, s@.len() as int)) == Seq::<Seq<char>>::empty());
        assert(r.deep_view() + Seq::<Seq<char>>::empty() =~= r.deep_view());
    }
    r
}

} // verus!
