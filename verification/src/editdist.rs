//! Levenshtein edit distance and the normalized similarity score it
//! induces, the measure both the pattern learner's confidence and the
//! clusterer use. Scores are integers in thousandths: 1000 is identity.
use vstd::prelude::*;
use crate::text::to_chars;

verus! {

/// Edit distance: the least number of single-character insertions,
/// deletions and substitutions turning one sequence into the other,
/// by the classic recurrence.
pub open spec fn lev(a: Seq<char>, b: Seq<char>) -> int
    decreases a.len() + b.len(),
{
    if a.len() == 0 {
        b.len() as int
    } else if b.len() == 0 {
        a.len() as int
    } else {
        let cost: int = if a.last() == b.last() {
            0
        } else {
            1
        };
        let del = lev(a.drop_last(), b) + 1;
        let ins = lev(a, b.drop_last()) + 1;
        let sub = lev(a.drop_last(), b.drop_last()) + cost;
        if del <= ins && del <= sub {
            del
        } else if ins <= sub {
            ins
        } else {
            sub
        }
    }
}

pub proof fn lemma_lev_bounds(a: Seq<char>, b: Seq<char>)
    ensures
        0 <= lev(a, b),
        lev(a, b) <= if a.len() >= b.len() {
            a.len() as int
        } else {
            b.len() as int
        },
    decreases a.len() + b.len(),
{
    if a.len() == 0 || b.len() == 0 {
    } else {
        lemma_lev_bounds(a.drop_last(), b);
        lemma_lev_bounds(a, b.drop_last());
        lemma_lev_bounds(a.drop_last(), b.drop_last());
    }
}

/// The distance from a sequence to itself is zero.
pub proof fn lemma_lev_self(a: Seq<char>)
    ensures
        lev(a, a) == 0,
    decreases a.len(),
{
    if a.len() > 0 {
        lemma_lev_self(a.drop_last());
        lemma_lev_bounds(a.drop_last(), a);
        lemma_lev_bounds(a, a.drop_last());
    }
}

/// Zero distance means equality.
pub proof fn lemma_lev_zero_iff(a: Seq<char>, b: Seq<char>)
    ensures
        lev(a, b) == 0 <==> a == b,
    decreases a.len() + b.len(),
{
    if a == b {
        lemma_lev_self(a);
    }
    if lev(a, b) == 0 {
        if a.len() == 0 {
            assert(b.len() == 0);
            assert(a =~= b);
        } else if b.len() == 0 {
            assert(false);
        } else {
            lemma_lev_bounds(a.drop_last(), b);
            lemma_lev_bounds(a, b.drop_last());
            lemma_lev_bounds(a.drop_last(), b.drop_last());
            assert(a.last() == b.last());
            assert(lev(a.drop_last(), b.drop_last()) == 0);
            lemma_lev_zero_iff(a.drop_last(), b.drop_last());
            assert(a =~= a.drop_last().push(a.last()));
            assert(b =~= b.drop_last().push(b.last()));
        }
    }
}

/// Edit distance of two character vectors, by the dynamic program with
/// two rolling rows.
pub fn lev_chars(a: &Vec<char>, b: &Vec<char>) -> (r: usize)
    requires
        a@.len() < usize::MAX,
        b@.len() < usize::MAX,
    ensures
        r == lev(a@, b@),
{
    let m = a.len();
    let n = b.len();
    if m == 0 {
        proof {
            assert(a@.take(0) =~= a@);
        }
        return n;
    }
    if n == 0 {
        return m;
    }
    let mut prev: Vec<usize> = Vec::new();
    let mut j: usize = 0;
    while j <= n
        invariant
            j <= n + 1,
            n == b@.len(),
            n < usize::MAX,
            prev@.len() == j,
            forall|jj: int| 0 <= jj < j ==> (#[trigger] prev@[jj]) == lev(a@.take(0), b@.take(jj)),
        decreases n + 1 - j,
    {
        proof {
            assert(a@.take(0).len() == 0);
            assert(b@.take(j as int).len() == j);
        }
        prev.push(j);
        j = j + 1;
    }
    let mut i: usize = 1;
    while i <= m
        invariant
            1 <= i <= m + 1,
            m == a@.len(),
            n == b@.len(),
            m < usize::MAX,
            n < usize::MAX,
            prev@.len() == n + 1,
            forall|jj: int|
                0 <= jj <= n ==> (#[trigger] prev@[jj]) == lev(a@.take(i as int - 1), b@.take(jj)),
        decreases m + 1 - i,
    {
        let mut cur: Vec<usize> = Vec::new();
        cur.push(i);
        proof {
            assert(b@.take(0).len() == 0);
            assert(a@.take(i as int).len() == i);
        }
        let mut j: usize = 1;
        while j <= n
            invariant
                1 <= j <= n + 1,
                1 <= i <= m,
                m == a@.len(),
                n == b@.len(),
                m < usize::MAX,
                n < usize::MAX,
                prev@.len() == n + 1,
                cur@.len() == j,
                forall|jj: int|
                    0 <= jj <= n ==> (#[trigger] prev@[jj]) == lev(
                        a@.take(i as int - 1),
                        b@.take(jj),
                    ),
                forall|jj: int|
                    0 <= jj < j ==> (#[trigger] cur@[jj]) == lev(a@.take(i as int), b@.take(jj)),
            decreases n + 1 - j,
        {
            let ghost ta = a@.take(i as int);
            let ghost tb = b@.take(j as int);
            proof {
                assert(ta.drop_last() =~= a@.take(i as int - 1));
                assert(tb.drop_last() =~= b@.take(j as int - 1));
                assert(ta.last() == a@[i as int - 1]);
                assert(tb.last() == b@[j as int - 1]);
                lemma_lev_bounds(ta.drop_last(), tb);
                lemma_lev_bounds(ta, tb.drop_last());
                lemma_lev_bounds(ta.drop_last(), tb.drop_last());
            }
            let cost: usize = if a[i - 1] == b[j - 1] {
                0
            } else {
                1
            };
            let del = prev[j] + 1;
            let ins = cur[j - 1] + 1;
            let sub = prev[j - 1] + cost;
            let v = if del <= ins && del <= sub {
                del
            } else if ins <= sub {
                ins
            } else {
                sub
            };
            cur.push(v);
            j = j + 1;
        }
        prev = cur;
        i = i + 1;
    }
    proof {
        assert(a@.take(m as int) =~= a@);
        assert(b@.take(n as int) =~= b@);
    }
    prev[n]
}

/// Edit distance between two strings.
pub fn levenshtein_distance(a: &str, b: &str) -> (r: usize)
    requires
        a@.len() < usize::MAX,
        b@.len() < usize::MAX,
    ensures
        r == lev(a@, b@),
{
    let av = to_chars(a);
    let bv = to_chars(b);
    lev_chars(&av, &bv)
}

/// Similarity in thousandths: 1000 less the distance's share of the
/// longer length, rounded down; two empty strings count as identical.
pub open spec fn sim_pm(a: Seq<char>, b: Seq<char>) -> int {
    let m: int = if a.len() >= b.len() {
        a.len() as int
    } else {
        b.len() as int
    };
    if m == 0 {
        1000
    } else {
        ((m - lev(a, b)) * 1000) / m
    }
}

pub proof fn lemma_sim_pm_range(a: Seq<char>, b: Seq<char>)
    ensures
        0 <= sim_pm(a, b) <= 1000,
{
    let m: int = if a.len() >= b.len() {
        a.len() as int
    } else {
        b.len() as int
    };
    lemma_lev_bounds(a, b);
    if m > 0 {
        let d = lev(a, b);
        assert(0 <= (m - d) * 1000 <= 1000 * m) by (nonlinear_arith)
            requires
                0 <= d <= m,
        ;
        assert(0 <= ((m - d) * 1000) / m <= 1000) by (nonlinear_arith)
            requires
                m > 0,
                0 <= (m - d) * 1000 <= 1000 * m,
        ;
    }
}

/// Full similarity means equality, and equality means full similarity.
pub proof fn lemma_sim_pm_full_iff(a: Seq<char>, b: Seq<char>)
    ensures
        sim_pm(a, b) >= 1000 <==> a == b,
{
    let m: int = if a.len() >= b.len() {
        a.len() as int
    } else {
        b.len() as int
    };
    lemma_lev_bounds(a, b);
    lemma_lev_zero_iff(a, b);
    if a == b {
        lemma_lev_self(a);
        if m > 0 {
            assert((m * 1000) / m == 1000) by (nonlinear_arith)
                requires
                    m > 0,
            ;
        }
    }
    if sim_pm(a, b) >= 1000 {
        if m > 0 {
            let d = lev(a, b);
            assert(((m - d) * 1000) / m >= 1000 && 0 <= d ==> (m - d) * 1000 >= 1000 * m) by (
            nonlinear_arith)
                requires
                    m > 0,
            ;
            assert((m - d) * 1000 >= 1000 * m ==> d <= 0) by (nonlinear_arith)
                requires
                    m > 0,
            ;
        } else {
            assert(a.len() == 0 && b.len() == 0);
            assert(a =~= b);
        }
    }
}

/// Similarity of two character vectors, in thousandths.
pub fn sim_chars(a: &Vec<char>, b: &Vec<char>) -> (r: u32)
    requires
        a@.len() < usize::MAX,
        b@.len() < usize::MAX,
    ensures
        r == sim_pm(a@, b@),
        r <= 1000,
{
    let d = lev_chars(a, b);
    let m = if a.len() >= b.len() {
        a.len()
    } else {
        b.len()
    };
    if m == 0 {
        return 1000;
    }
    proof {
        lemma_lev_bounds(a@, b@);
        lemma_sim_pm_range(a@, b@);
    }
    let num: u128 = ((m - d) as u128) * 1000;
    let q: u128 = num / (m as u128);
    proof {
        assert(q == sim_pm(a@, b@));
    }
    q as u32
}

/// Similarity score of two strings, in thousandths.
pub fn similarity_score(a: &str, b: &str) -> (r: u32)
    requires
        a@.len() < usize::MAX,
        b@.len() < usize::MAX,
    ensures
        r == sim_pm(a@, b@),
        r <= 1000,
{
    let av = to_chars(a);
    let bv = to_chars(b);
    sim_chars(&av, &bv)
}

} // verus!
