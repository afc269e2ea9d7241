//! Longest common subsequence: the two-string dynamic program with its
//! traceback, and the sequential fold that approximates a multi-string
//! backbone, stopping early when the running backbone gets short.
use vstd::prelude::*;
use crate::text::to_chars;
use crate::text::from_chars;

verus! {

/// Length of the longest common subsequence of two sequences.
pub open spec fn lcs_len(a: Seq<char>, b: Seq<char>) -> int
    decreases a.len() + b.len(),
{
    if a.len() == 0 || b.len() == 0 {
        0
    } else if a.last() == b.last() {
        lcs_len(a.drop_last(), b.drop_last()) + 1
    } else {
        let x = lcs_len(a.drop_last(), b);
        let y = lcs_len(a, b.drop_last());
        if x >= y {
            x
        } else {
            y
        }
    }
}

/// The specific longest common subsequence the traceback yields: on a
/// tie it walks the first string's side.
pub open spec fn lcs_str(a: Seq<char>, b: Seq<char>) -> Seq<char>
    decreases a.len() + b.len(),
{
    if a.len() == 0 || b.len() == 0 {
        Seq::empty()
    } else if a.last() == b.last() {
        lcs_str(a.drop_last(), b.drop_last()).push(a.last())
    } else if lcs_len(a.drop_last(), b) > lcs_len(a, b.drop_last()) {
        lcs_str(a.drop_last(), b)
    } else {
        lcs_str(a, b.drop_last())
    }
}

pub proof fn lemma_lcs_len_bounds(a: Seq<char>, b: Seq<char>)
    ensures
        0 <= lcs_len(a, b),
        lcs_len(a, b) <= a.len(),
        lcs_len(a, b) <= b.len(),
    decreases a.len() + b.len(),
{
    if a.len() == 0 || b.len() == 0 {
    } else if a.last() == b.last() {
        lemma_lcs_len_bounds(a.drop_last(), b.drop_last());
    } else {
        lemma_lcs_len_bounds(a.drop_last(), b);
        lemma_lcs_len_bounds(a, b.drop_last());
    }
}

/// The traceback's length is the LCS length.
pub proof fn lemma_lcs_str_len(a: Seq<char>, b: Seq<char>)
    ensures
        lcs_str(a, b).len() == lcs_len(a, b),
    decreases a.len() + b.len(),
{
    if a.len() == 0 || b.len() == 0 {
    } else if a.last() == b.last() {
        lemma_lcs_str_len(a.drop_last(), b.drop_last());
    } else {
        lemma_lcs_str_len(a.drop_last(), b);
        lemma_lcs_str_len(a, b.drop_last());
    }
}

/// `x` is a subsequence of `y`: `x` can be read off `y` in order,
/// matching greedily from the end.
pub open spec fn is_subseq(x: Seq<char>, y: Seq<char>) -> bool
    decreases y.len(),
{
    if y.len() == 0 {
        x.len() == 0
    } else if x.len() > 0 && x.last() == y.last() {
        is_subseq(x.drop_last(), y.drop_last())
    } else {
        is_subseq(x, y.drop_last())
    }
}

proof fn lemma_empty_subseq(y: Seq<char>)
    ensures
        is_subseq(Seq::empty(), y),
    decreases y.len(),
{
    if y.len() > 0 {
        lemma_empty_subseq(y.drop_last());
    }
}

proof fn lemma_subseq_drop(x: Seq<char>, y: Seq<char>)
    requires
        is_subseq(x, y),
        x.len() > 0,
    ensures
        is_subseq(x.drop_last(), y),
    decreases y.len(),
{
    if x.last() == y.last() {
        if x.drop_last().len() > 0 && x.drop_last().last() == y.last() {
            lemma_subseq_drop(x.drop_last(), y.drop_last());
        }
    } else {
        lemma_subseq_drop(x, y.drop_last());
        if x.drop_last().len() > 0 && x.drop_last().last() == y.last() {
            lemma_subseq_drop(x.drop_last(), y.drop_last());
        }
    }
}

proof fn lemma_subseq_extend(x: Seq<char>, y: Seq<char>, c: char)
    requires
        is_subseq(x, y),
    ensures
        is_subseq(x, y.push(c)),
{
    assert(y.push(c).drop_last() =~= y);
    assert(y.push(c).last() == c);
    if x.len() > 0 && x.last() == c {
        lemma_subseq_drop(x, y);
    }
}

/// The traceback's result is a common subsequence of both strings, of
/// exactly the LCS length: it is a longest common subsequence.
pub proof fn lemma_lcs_str_common(a: Seq<char>, b: Seq<char>)
    ensures
        is_subseq(lcs_str(a, b), a),
        is_subseq(lcs_str(a, b), b),
    decreases a.len() + b.len(),
{
    if a.len() == 0 || b.len() == 0 {
        lemma_empty_subseq(a);
        lemma_empty_subseq(b);
    } else if a.last() == b.last() {
        lemma_lcs_str_common(a.drop_last(), b.drop_last());
        let r = lcs_str(a.drop_last(), b.drop_last());
        assert(r.push(a.last()).drop_last() =~= r);
        assert(r.push(a.last()).last() == a.last());
    } else if lcs_len(a.drop_last(), b) > lcs_len(a, b.drop_last()) {
        lemma_lcs_str_common(a.drop_last(), b);
        lemma_subseq_extend(lcs_str(a.drop_last(), b), a.drop_last(), a.last());
        assert(a.drop_last().push(a.last()) =~= a);
    } else {
        lemma_lcs_str_common(a, b.drop_last());
        lemma_subseq_extend(lcs_str(a, b.drop_last()), b.drop_last(), b.last());
        assert(b.drop_last().push(b.last()) =~= b);
    }
}

/// The LCS of two character vectors, by the classic dynamic program
/// and traceback.
pub fn lcs_chars(a: &Vec<char>, b: &Vec<char>) -> (r: Vec<char>)
    requires
        a@.len() < usize::MAX,
        b@.len() < usize::MAX,
    ensures
        r@ == lcs_str(a@, b@),
{
    let m = a.len();
    let n = b.len();
    let mut dp: Vec<Vec<usize>> = Vec::new();
    // row 0: the LCS against an empty prefix is empty
    let mut row0: Vec<usize> = Vec::new();
    let mut j: usize = 0;
    while j <= n
        invariant
            j <= n + 1,
            n == b@.len(),
            n < usize::MAX,
            row0@.len() == j,
            forall|jj: int| 0 <= jj < j ==> row0@[jj] == 0,
        decreases n + 1 - j,
    {
        row0.push(0);
        j = j + 1;
    }
    dp.push(row0);
    proof {
        assert forall|jj: int| 0 <= jj <= n implies lcs_len(a@.take(0), b@.take(jj)) == 0 by {
            assert(a@.take(0).len() == 0);
        }
    }
    let mut i: usize = 1;
    while i <= m
        invariant
            1 <= i <= m + 1,
            m == a@.len(),
            n == b@.len(),
            m < usize::MAX,
            n < usize::MAX,
            dp@.len() == i,
            forall|ii: int| 0 <= ii < i ==> (#[trigger] dp@[ii])@.len() == n + 1,
            forall|ii: int, jj: int|
                0 <= ii < i && 0 <= jj <= n ==> (#[trigger] dp@[ii]@[jj]) == lcs_len(
                    a@.take(ii),
                    b@.take(jj),
                ),
        decreases m + 1 - i,
    {
        let mut row: Vec<usize> = Vec::new();
        row.push(0);
        proof {
            assert(lcs_len(a@.take(i as int), b@.take(0)) == 0);
        }
        let mut j: usize = 1;
        while j <= n
            invariant
                1 <= j <= n + 1,
                1 <= i <= m,
                m == a@.len(),
                n == b@.len(),
                m < usize::MAX,
                n < usize::MAX,
                row@.len() == j,
                dp@.len() == i,
                forall|ii: int| 0 <= ii < i ==> (#[trigger] dp@[ii])@.len() == n + 1,
                forall|ii: int, jj: int|
                    0 <= ii < i && 0 <= jj <= n ==> (#[trigger] dp@[ii]@[jj]) == lcs_len(
                        a@.take(ii),
                        b@.take(jj),
                    ),
                forall|jj: int|
                    0 <= jj < j ==> (#[trigger] row@[jj]) == lcs_len(
                        a@.take(i as int),
                        b@.take(jj),
                    ),
            decreases n + 1 - j,
        {
            let ghost ta = a@.take(i as int);
            let ghost tb = b@.take(j as int);
            proof {
                assert(ta.drop_last() =~= a@.take(i as int - 1));
                assert(tb.drop_last() =~= b@.take(j as int - 1));
                assert(ta.last() == a@[i as int - 1]);
                assert(tb.last() == b@[j as int - 1]);
                lemma_lcs_len_bounds(ta.drop_last(), tb.drop_last());
                lemma_lcs_len_bounds(ta.drop_last(), tb);
                lemma_lcs_len_bounds(ta, tb.drop_last());
            }
            let v: usize = if a[i - 1] == b[j - 1] {
                dp[i - 1][j - 1] + 1
            } else {
                let x = dp[i - 1][j];
                let y = row[j - 1];
                if x >= y {
                    x
                } else {
                    y
                }
            };
            row.push(v);
            j = j + 1;
        }
        dp.push(row);
        i = i + 1;
    }
    // traceback
    let mut out: Vec<char> = Vec::new();
    let mut ti: usize = m;
    let mut tj: usize = n;
    proof {
        assert(a@.take(m as int) =~= a@);
        assert(b@.take(n as int) =~= b@);
    }
    while ti > 0 && tj > 0
        invariant
            ti <= m,
            tj <= n,
            m == a@.len(),
            n == b@.len(),
            dp@.len() == m + 1,
            forall|ii: int| 0 <= ii <= m ==> (#[trigger] dp@[ii])@.len() == n + 1,
            forall|ii: int, jj: int|
                0 <= ii <= m && 0 <= jj <= n ==> (#[trigger] dp@[ii]@[jj]) == lcs_len(
                    a@.take(ii),
                    b@.take(jj),
                ),
            lcs_str(a@, b@) == lcs_str(a@.take(ti as int), b@.take(tj as int)) + out@,
        decreases ti + tj,
    {
        let ghost ta = a@.take(ti as int);
        let ghost tb = b@.take(tj as int);
        proof {
            assert(ta.drop_last() =~= a@.take(ti as int - 1));
            assert(tb.drop_last() =~= b@.take(tj as int - 1));
            assert(ta.last() == a@[ti as int - 1]);
            assert(tb.last() == b@[tj as int - 1]);
        }
        if a[ti - 1] == b[tj - 1] {
            out.insert(0, a[ti - 1]);
            proof {
                assert(lcs_str(ta, tb) == lcs_str(ta.drop_last(), tb.drop_last()).push(ta.last()));
                assert(lcs_str(ta.drop_last(), tb.drop_last()).push(ta.last()) + out@.drop_first()
                    =~= lcs_str(ta.drop_last(), tb.drop_last()) + out@);
            }
            ti = ti - 1;
            tj = tj - 1;
        } else if dp[ti - 1][tj] > dp[ti][tj - 1] {
            ti = ti - 1;
        } else {
            tj = tj - 1;
        }
    }
    proof {
        assert(lcs_str(a@.take(ti as int), b@.take(tj as int)) =~= Seq::<char>::empty());
        assert(Seq::<char>::empty() + out@ =~= out@);
    }
    out
}

/// The LCS of two strings.
pub fn lcs_two_strings(a: &str, b: &str) -> (r: String)
    requires
        a@.len() < usize::MAX,
        b@.len() < usize::MAX,
    ensures
        r@ == lcs_str(a@, b@),
{
    let av = to_chars(a);
    let bv = to_chars(b);
    let out = lcs_chars(&av, &bv);
    from_chars(&out)
}

/// The backbone of a list of strings: the first string folded through
/// pairwise LCS with each later one, stopping early once the running
/// backbone falls under five characters.
pub open spec fn fold_lcs(acc: Seq<char>, strs: Seq<Seq<char>>, k: int) -> Seq<char>
    decreases strs.len() - k + 1,
{
    if k < 0 || k >= strs.len() {
        acc
    } else {
        let nxt = lcs_str(acc, strs[k]);
        if nxt.len() < 5 {
            nxt
        } else {
            fold_lcs(nxt, strs, k + 1)
        }
    }
}

/// The multi-string backbone.
pub open spec fn multi_lcs(strs: Seq<Seq<char>>) -> Seq<char> {
    if strs.len() == 0 {
        Seq::empty()
    } else if strs.len() == 1 {
        strs[0]
    } else {
        fold_lcs(strs[0], strs, 1)
    }
}

/// The backbone of a list of character vectors.
pub fn multi_lcs_chars(strs: &Vec<Vec<char>>) -> (r: Vec<char>)
    requires
        forall|k: int| 0 <= k < strs@.len() ==> (#[trigger] strs@[k])@.len() < usize::MAX,
    ensures
        r@ == multi_lcs(strs.deep_view()),
{
    let ghost dv = strs.deep_view();
    if strs.len() == 0 {
        let r: Vec<char> = Vec::new();
        proof {
            assert(r@ =~= multi_lcs(dv));
        }
        return r;
    }
    let first = &strs[0];
    let mut acc: Vec<char> = crate::text::sub_chars(first, 0, first.len());
    proof {
        assert(acc@ =~= dv[0]);
    }
    if strs.len() == 1 {
        return acc;
    }
    let mut k: usize = 1;
    while k < strs.len()
        invariant
            1 <= k <= strs@.len(),
            dv == strs.deep_view(),
            dv.len() == strs@.len(),
            forall|kk: int| 0 <= kk < strs@.len() ==> (#[trigger] strs@[kk])@.len() < usize::MAX,
            acc@.len() < usize::MAX,
            multi_lcs(dv) == fold_lcs(acc@, dv, k as int),
            dv.len() >= 2,
        decreases strs.len() - k,
    {
        proof {
            assert(dv[k as int] == strs@[k as int]@);
        }
        let nxt = lcs_chars(&acc, &strs[k]);
        proof {
            lemma_lcs_str_len(acc@, dv[k as int]);
            lemma_lcs_len_bounds(acc@, dv[k as int]);
        }
        acc = nxt;
        if acc.len() < 5 {
            return acc;
        }
        k = k + 1;
    }
    acc
}

/// The backbone of a list of strings.
pub fn compute_multi_lcs(strings: &Vec<String>) -> (r: String)
    requires
        forall|k: int| 0 <= k < strings@.len() ==> (#[trigger] strings@[k])@.len() < usize::MAX,
    ensures
        r@ == multi_lcs(strings.deep_view()),
{
    let mut chars: Vec<Vec<char>> = Vec::new();
    let mut i: usize = 0;
    while i < strings.len()
        invariant
            i <= strings@.len(),
            chars.deep_view() =~= strings.deep_view().take(i as int),
            chars@.len() == i,
            forall|kk: int| 0 <= kk < i ==> (#[trigger] chars@[kk])@.len() < usize::MAX,
            forall|k: int|
                0 <= k < strings@.len() ==> (#[trigger] strings@[k])@.len() < usize::MAX,
        decreases strings.len() - i,
    {
        let v = to_chars(strings[i].as_str());
        let ghost cdv0 = chars.deep_view();
        let ghost vm = v@;
        proof {
            assert(vm == strings.deep_view()[i as int]);
        }
        chars.push(v);
        i = i + 1;
        proof {
            assert(chars.deep_view() =~~= cdv0.push(vm));
            assert(cdv0.push(vm) =~= strings.deep_view().take(i as int));
        }
    }
    proof {
        assert(strings.deep_view().take(strings@.len() as int) =~= strings.deep_view());
    }
    let out = multi_lcs_chars(&chars);
    from_chars(&out)
}

} // verus!
