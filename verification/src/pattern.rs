//! Pattern learning: from a handful of example strings, a common
//! backbone (multi-string LCS), a template with `{VAR}` markers, a
//! generated anchored matcher, the pooled variable segments, and an
//! integer confidence score in thousandths.
use vstd::prelude::*;
use vstd::string::StringExecFns;
use crate::text::{
    is_ws, lex_le, match_at, contains_sub, replace_all, to_chars, from_chars, chars_lex_le,
    c_is_ws, has_sub, do_replace_all, sub_chars, first_at_from, replace_from, push_all,
    to_char_lists, from_char_lists,
};
use crate::lcs::{
    multi_lcs, multi_lcs_chars, lemma_lcs_str_len, lemma_lcs_len_bounds, fold_lcs, lcs_str,
};
use crate::editdist::{sim_pm, sim_chars, lemma_sim_pm_range};

verus! {

/// A learned pattern: the template with `{VAR}` markers, the generated
/// anchored matcher text, the confidence in thousandths, the pooled
/// distinct variable segments, and the backbone's whitespace-separated
/// parts.
#[derive(Debug, Clone)]
pub struct DetectedPattern {
    pub template: String,
    pub regex: String,
    pub confidence: u32,
    pub variable_segments: Vec<String>,
    pub common_parts: Vec<String>,
}

/// Mathematical view of a `DetectedPattern`.
#[verifier::ext_equal]
pub ghost struct PatternModel {
    pub template: Seq<char>,
    pub regex: Seq<char>,
    pub confidence: int,
    pub variable_segments: Seq<Seq<char>>,
    pub common_parts: Seq<Seq<char>>,
}

impl View for DetectedPattern {
    type V = PatternModel;

    open spec fn view(&self) -> PatternModel {
        PatternModel {
            template: self.template@,
            regex: self.regex@,
            confidence: self.confidence as int,
            variable_segments: self.variable_segments.deep_view(),
            common_parts: self.common_parts.deep_view(),
        }
    }
}

/// A string inserted into a lexicographically ascending list, after
/// every entry at or below it.
pub open spec fn insert_lex(sorted: Seq<Seq<char>>, x: Seq<char>) -> Seq<Seq<char>>
    decreases sorted.len(),
{
    if sorted.len() == 0 {
        seq![x]
    } else if lex_le(sorted[0], x) {
        seq![sorted[0]] + insert_lex(sorted.drop_first(), x)
    } else {
        seq![x] + sorted
    }
}

/// The list sorted ascending.
pub open spec fn sort_lex(s: Seq<Seq<char>>) -> Seq<Seq<char>>
    decreases s.len(),
{
    if s.len() == 0 {
        Seq::empty()
    } else {
        insert_lex(sort_lex(s.drop_last()), s.last())
    }
}

/// Adjacent duplicates removed, keeping the first of each run.
pub open spec fn dedup_adj(s: Seq<Seq<char>>) -> Seq<Seq<char>>
    decreases s.len(),
{
    if s.len() <= 1 {
        s
    } else if s[s.len() - 1] == s[s.len() - 2] {
        dedup_adj(s.drop_last())
    } else {
        dedup_adj(s.drop_last()).push(s.last())
    }
}

proof fn lemma_insert_lex_len(s: Seq<Seq<char>>, x: Seq<char>)
    ensures
        insert_lex(s, x).len() == s.len() + 1,
    decreases s.len(),
{
    if s.len() > 0 && lex_le(s[0], x) {
        lemma_insert_lex_len(s.drop_first(), x);
    }
}

proof fn lemma_sort_lex_len(s: Seq<Seq<char>>)
    ensures
        sort_lex(s).len() == s.len(),
    decreases s.len(),
{
    if s.len() > 0 {
        lemma_sort_lex_len(s.drop_last());
        lemma_insert_lex_len(sort_lex(s.drop_last()), s.last());
    }
}

proof fn lemma_dedup_len(s: Seq<Seq<char>>)
    ensures
        dedup_adj(s).len() <= s.len(),
    decreases s.len(),
{
    if s.len() > 1 {
        lemma_dedup_len(s.drop_last());
    }
}

/// Sum of the lengths of a list of strings.
pub open spec fn sum_lens(s: Seq<Seq<char>>) -> int
    decreases s.len(),
{
    if s.len() == 0 {
        0
    } else {
        sum_lens(s.drop_last()) + s.last().len()
    }
}

proof fn lemma_sum_lens_nonneg(s: Seq<Seq<char>>)
    ensures
        sum_lens(s) >= 0,
    decreases s.len(),
{
    if s.len() > 0 {
        lemma_sum_lens_nonneg(s.drop_last());
    }
}

proof fn lemma_sum_lens_elem(s: Seq<Seq<char>>, k: int)
    requires
        0 <= k < s.len(),
    ensures
        s[k].len() <= sum_lens(s),
    decreases s.len(),
{
    lemma_sum_lens_nonneg(s.drop_last());
    if k < s.len() - 1 {
        lemma_sum_lens_elem(s.drop_last(), k);
    }
}

proof fn lemma_sum_insert_lex(s: Seq<Seq<char>>, x: Seq<char>)
    ensures
        sum_lens(insert_lex(s, x)) == sum_lens(s) + x.len(),
    decreases s.len(),
{
    if s.len() == 0 {
        assert(insert_lex(s, x) == seq![x]);
        assert((seq![x]).drop_last() =~= Seq::<Seq<char>>::empty());
        assert(sum_lens(Seq::<Seq<char>>::empty()) == 0);
        assert((seq![x]).last() == x);
        assert(sum_lens((seq![x]).drop_last()) == 0);
    } else if lex_le(s[0], x) {
        lemma_sum_insert_lex(s.drop_first(), x);
        lemma_sum_push_front(insert_lex(s.drop_first(), x), s[0]);
        lemma_sum_push_front(s.drop_first(), s[0]);
        assert(seq![s[0]] + s.drop_first() =~= s);
    } else {
        lemma_sum_push_front(s, x);
    }
}

/// Summing over a front extension.
proof fn lemma_sum_push_front(s: Seq<Seq<char>>, x: Seq<char>)
    ensures
        sum_lens(seq![x] + s) == x.len() + sum_lens(s),
    decreases s.len(),
{
    if s.len() == 0 {
        assert((seq![x] + s).drop_last() =~= Seq::<Seq<char>>::empty());
        assert(sum_lens(Seq::<Seq<char>>::empty()) == 0);
        assert((seq![x] + s).last() == x);
    } else {
        assert((seq![x] + s).drop_last() =~= seq![x] + s.drop_last());
        assert((seq![x] + s).last() == s.last());
        lemma_sum_push_front(s.drop_last(), x);
    }
}

proof fn lemma_sum_sort_lex(s: Seq<Seq<char>>)
    ensures
        sum_lens(sort_lex(s)) == sum_lens(s),
    decreases s.len(),
{
    if s.len() > 0 {
        lemma_sum_sort_lex(s.drop_last());
        lemma_sum_insert_lex(sort_lex(s.drop_last()), s.last());
    }
}

proof fn lemma_sum_dedup_le(s: Seq<Seq<char>>)
    ensures
        sum_lens(dedup_adj(s)) <= sum_lens(s),
    decreases s.len(),
{
    lemma_sum_lens_nonneg(s);
    if s.len() > 1 {
        lemma_sum_dedup_le(s.drop_last());
        lemma_sum_lens_nonneg(s.drop_last());
        if !(s[s.len() - 1] == s[s.len() - 2]) {
            lemma_sum_push_back(dedup_adj(s.drop_last()), s.last());
        }
    }
}

/// Summing over a back extension.
proof fn lemma_sum_push_back(s: Seq<Seq<char>>, x: Seq<char>)
    ensures
        sum_lens(s.push(x)) == sum_lens(s) + x.len(),
{
    assert(s.push(x).drop_last() =~= s);
    assert(s.push(x).last() == x);
}

/// Every element of the deduplicated sort came from the sort, so its
/// length is bounded by the total.
proof fn lemma_dedup_elem_bound(s: Seq<Seq<char>>, k: int)
    requires
        0 <= k < dedup_adj(s).len(),
    ensures
        dedup_adj(s)[k].len() <= sum_lens(s),
    decreases s.len(),
{
    lemma_dedup_len(s);
    if s.len() <= 1 {
        lemma_sum_lens_elem(s, k);
    } else if s[s.len() - 1] == s[s.len() - 2] {
        lemma_dedup_elem_bound(s.drop_last(), k);
        lemma_sum_lens_nonneg(s);
        assert(sum_lens(s) == sum_lens(s.drop_last()) + s.last().len());
    } else {
        if k < dedup_adj(s.drop_last()).len() {
            lemma_dedup_elem_bound(s.drop_last(), k);
        } else {
            assert(dedup_adj(s)[k] == s.last());
        }
        assert(sum_lens(s) == sum_lens(s.drop_last()) + s.last().len());
        lemma_sum_lens_nonneg(s.drop_last());
    }
}

fn chars_eq(a: &Vec<char>, b: &Vec<char>) -> (r: bool)
    ensures
        r == (a@ == b@),
{
    if a.len() != b.len() {
        return false;
    }
    let mut k: usize = 0;
    while k < a.len()
        invariant
            k <= a@.len(),
            a@.len() == b@.len(),
            forall|j: int| 0 <= j < k ==> a@[j] == b@[j],
        decreases a.len() - k,
    {
        if a[k] != b[k] {
            return false;
        }
        k = k + 1;
    }
    proof {
        assert(a@ =~= b@);
    }
    true
}

/// Insertion position for insert_lex: the least index whose entry is
/// above the new string.
proof fn lemma_insert_lex_at(s: Seq<Seq<char>>, x: Seq<char>, k: int)
    requires
        0 <= k <= s.len(),
        forall|i: int| 0 <= i < k ==> lex_le(#[trigger] s[i], x),
        k < s.len() ==> !lex_le(s[k], x),
    ensures
        insert_lex(s, x) == s.take(k) + seq![x] + s.skip(k),
    decreases k,
{
    if k == 0 {
        assert(insert_lex(s, x) =~= s.take(0) + seq![x] + s.skip(0));
    } else {
        assert(lex_le(s[0], x));
        lemma_insert_lex_at(s.drop_first(), x, k - 1);
        assert(s.drop_first().take(k - 1) =~= s.take(k).drop_first());
        assert(s.drop_first().skip(k - 1) =~= s.skip(k));
        assert(seq![s[0]] + (s.drop_first().take(k - 1) + seq![x] + s.drop_first().skip(k - 1))
            =~= s.take(k) + seq![x] + s.skip(k));
    }
}

/// The examples sorted ascending and with duplicates removed: the
/// canonical order-insensitive set of distinct examples.
fn sort_dedup(examples: &Vec<Vec<char>>) -> (r: Vec<Vec<char>>)
    ensures
        r.deep_view() == dedup_adj(sort_lex(examples.deep_view())),
{
    let ghost dv = examples.deep_view();
    let mut sorted: Vec<Vec<char>> = Vec::new();
    let mut idx: usize = 0;
    proof {
        assert(dv.take(0) =~= Seq::<Seq<char>>::empty());
        assert(sorted.deep_view() =~= sort_lex(dv.take(0)));
    }
    while idx < examples.len()
        invariant
            idx <= examples@.len(),
            dv == examples.deep_view(),
            dv.len() == examples@.len(),
            sorted.deep_view() == sort_lex(dv.take(idx as int)),
            sorted@.len() == sort_lex(dv.take(idx as int)).len(),
        decreases examples.len() - idx,
    {
        let x = sub_chars(&examples[idx], 0, examples[idx].len());
        proof {
            assert(x@ =~= dv[idx as int]);
        }
        let ghost sdv = sorted.deep_view();
        let mut k: usize = 0;
        while k < sorted.len() && chars_lex_le(&sorted[k], &x)
            invariant
                k <= sorted@.len(),
                sdv == sorted.deep_view(),
                sdv.len() == sorted@.len(),
                x@ == dv[idx as int],
                forall|i: int| 0 <= i < k ==> lex_le(#[trigger] sdv[i], x@),
            decreases sorted.len() - k,
        {
            proof {
                assert(sdv[k as int] == sorted@[k as int]@);
            }
            k = k + 1;
        }
        proof {
            assert(k < sorted@.len() ==> sdv[k as int] == sorted@[k as int]@);
            assert(k < sorted@.len() ==> !lex_le(sdv[k as int], x@));
            lemma_insert_lex_at(sdv, x@, k as int);
            lemma_insert_lex_len(sdv, x@);
        }
        sorted.insert(k, x);
        idx = idx + 1;
        proof {
            assert(sorted.deep_view() =~~= sdv.take(k as int) + seq![dv[idx as int - 1]]
                + sdv.skip(k as int));
            assert(dv.take(idx as int).drop_last() =~= dv.take(idx as int - 1));
            assert(dv.take(idx as int).last() == dv[idx as int - 1]);
            assert(sorted.deep_view() =~~= sort_lex(dv.take(idx as int)));
            lemma_sort_lex_len(dv.take(idx as int));
        }
    }
    proof {
        assert(dv.take(examples@.len() as int) =~= dv);
    }
    // drop adjacent duplicates, keeping the first of each run
    let ghost fdv = sorted.deep_view();
    let mut out: Vec<Vec<char>> = Vec::new();
    let mut i: usize = 0;
    proof {
        assert(fdv.take(0) =~= Seq::<Seq<char>>::empty());
        assert(out.deep_view() =~= dedup_adj(fdv.take(0)));
    }
    while i < sorted.len()
        invariant
            i <= sorted@.len(),
            fdv == sorted.deep_view(),
            fdv.len() == sorted@.len(),
            out.deep_view() == dedup_adj(fdv.take(i as int)),
            out@.len() > 0 ==> i > 0 && out.deep_view().last() == fdv[i as int - 1],
            out@.len() == 0 ==> i == 0,
            i > 0 ==> out@.len() > 0,
        decreases sorted.len() - i,
    {
        let keep: bool = if out.len() == 0 {
            true
        } else {
            !chars_eq(&out[out.len() - 1], &sorted[i])
        };
        proof {
            assert(fdv.take(i as int + 1).drop_last() =~= fdv.take(i as int));
            assert(fdv.take(i as int + 1).last() == fdv[i as int]);
        }
        if keep {
            let x = sub_chars(&sorted[i], 0, sorted[i].len());
            proof {
                assert(x@ =~= fdv[i as int]);
            }
            let ghost odv = out.deep_view();
            proof {
                if i > 0 {
                    assert(odv.last() == out@[out@.len() - 1]@);
                    assert(odv.last() == fdv[i as int - 1]);
                    assert(fdv[i as int] == sorted@[i as int]@);
                    assert(fdv[i as int] != fdv[i as int - 1]);
                }
            }
            out.push(x);
            proof {
                assert(out.deep_view() =~~= odv.push(fdv[i as int]));
                assert(out.deep_view() =~= dedup_adj(fdv.take(i as int + 1)));
            }
        }
        i = i + 1;
    }
    proof {
        assert(fdv.take(sorted@.len() as int) =~= fdv);
    }
    out
}

/// Once a replacement pass shortened nothing more can be claimed; a
/// pass that found the pattern strictly shortens the text when the
/// replacement is shorter than the pattern.
proof fn lemma_replace_shrink(s: Seq<char>, pat: Seq<char>, rep: Seq<char>, i: int)
    requires
        pat.len() > rep.len(),
        0 <= i <= s.len(),
    ensures
        replace_from(s, pat, rep, i).len() <= s.len() - i,
        first_at_from(s, pat, i) is Some ==> replace_from(s, pat, rep, i).len() < s.len() - i,
    decreases s.len() - i,
{
    if i >= s.len() {
    } else if match_at(s, i, pat) {
        lemma_replace_shrink(s, pat, rep, i + pat.len());
    } else {
        lemma_replace_shrink(s, pat, rep, i + 1);
    }
}

/// Adjacent `{VAR}` markers collapsed into one, repeatedly, until none
/// remain adjacent.
pub open spec fn collapse(s: Seq<char>) -> Seq<char>
    decreases s.len(),
    via collapse_dec
{
    if contains_sub(s, "{VAR}{VAR}"@) {
        collapse(replace_all(s, "{VAR}{VAR}"@, "{VAR}"@))
    } else {
        s
    }
}

#[via_fn]
proof fn collapse_dec(s: Seq<char>) {
    reveal_strlit("{VAR}{VAR}");
    reveal_strlit("{VAR}");
    if contains_sub(s, "{VAR}{VAR}"@) {
        lemma_replace_shrink(s, "{VAR}{VAR}"@, "{VAR}"@, 0);
    }
}

/// The template walk: characters consumed by the backbone stay literal,
/// every maximal run of unconsumed characters becomes one pending
/// `{VAR}` marker.
pub open spec fn walk(ex: Seq<char>, lcs: Seq<char>, i: int, li: int, in_var: bool) -> Seq<char>
    decreases ex.len() - i,
{
    if i < 0 || i >= ex.len() {
        if in_var {
            "{VAR}"@
        } else {
            Seq::empty()
        }
    } else if 0 <= li < lcs.len() && ex[i] == lcs[li] {
        (if in_var {
            "{VAR}"@
        } else {
            Seq::empty()
        }) + seq![ex[i]] + walk(ex, lcs, i + 1, li + 1, false)
    } else {
        walk(ex, lcs, i + 1, li, true)
    }
}

/// The template built from a backbone and the first example: the walk,
/// with adjacent markers collapsed; an empty backbone yields a bare
/// marker.
pub open spec fn build_tmpl(lcs: Seq<char>, ex: Seq<char>) -> Seq<char> {
    if lcs.len() == 0 {
        "{VAR}"@
    } else {
        collapse(walk(ex, lcs, 0, 0, false))
    }
}

fn walk_chars(ex: &Vec<char>, lcs: &Vec<char>) -> (r: Vec<char>)
    ensures
        r@ == walk(ex@, lcs@, 0, 0, false),
{
    let vm = to_chars("{VAR}");
    let mut out: Vec<char> = Vec::new();
    let mut i: usize = 0;
    let mut li: usize = 0;
    let mut in_var: bool = false;
    proof {
        assert(out@ + walk(ex@, lcs@, 0, 0, false) =~= walk(ex@, lcs@, 0, 0, false));
    }
    while i < ex.len()
        invariant
            i <= ex@.len(),
            li <= lcs@.len(),
            vm@ == "{VAR}"@,
            walk(ex@, lcs@, 0, 0, false) == out@ + walk(ex@, lcs@, i as int, li as int, in_var),
        decreases ex.len() - i,
    {
        if li < lcs.len() && ex[i] == lcs[li] {
            let ghost out0 = out@;
            if in_var {
                push_all(&mut out, &vm);
            }
            out.push(ex[i]);
            proof {
                assert(out@ =~= out0 + (if in_var {
                    "{VAR}"@
                } else {
                    Seq::<char>::empty()
                }) + seq![ex@[i as int]]);
                assert(out0 + ((if in_var {
                    "{VAR}"@
                } else {
                    Seq::<char>::empty()
                }) + seq![ex@[i as int]] + walk(ex@, lcs@, i as int + 1, li as int + 1, false))
                    =~= out@ + walk(ex@, lcs@, i as int + 1, li as int + 1, false));
            }
            i = i + 1;
            li = li + 1;
            in_var = false;
        } else {
            i = i + 1;
            in_var = true;
        }
    }
    if in_var {
        push_all(&mut out, &vm);
        proof {
            assert(walk(ex@, lcs@, ex@.len() as int, li as int, true) == "{VAR}"@);
        }
    } else {
        proof {
            assert(walk(ex@, lcs@, ex@.len() as int, li as int, false) == Seq::<char>::empty());
            assert(out@ + Seq::<char>::empty() =~= out@);
        }
    }
    out
}

fn collapse_chars(t: Vec<char>) -> (r: Vec<char>)
    ensures
        r@ == collapse(t@),
{
    let pat = to_chars("{VAR}{VAR}");
    let rep = to_chars("{VAR}");
    proof {
        reveal_strlit("{VAR}{VAR}");
        reveal_strlit("{VAR}");
    }
    let ghost orig = t@;
    let mut t = t;
    while has_sub(&t, &pat)
        invariant
            pat@ == "{VAR}{VAR}"@,
            rep@ == "{VAR}"@,
            pat@.len() == 10,
            rep@.len() == 5,
            collapse(orig) == collapse(t@),
        decreases t@.len(),
    {
        proof {
            lemma_replace_shrink(t@, pat@, rep@, 0);
        }
        let t2 = do_replace_all(&t, &pat, &rep);
        proof {
            assert(collapse(t@) == collapse(t2@));
        }
        t = t2;
    }
    t
}

/// The template of a backbone and an example.
pub fn build_template_from_lcs(lcs: &str, example: &str) -> (r: String)
    ensures
        r@ == build_tmpl(lcs@, example@),
{
    let lv = to_chars(lcs);
    let ev = to_chars(example);
    if lv.len() == 0 {
        return String::from_str("{VAR}");
    }
    let raw = walk_chars(&ev, &lv);
    let out = collapse_chars(raw);
    from_chars(&out)
}

/// The variable-segment walk: every maximal run of characters the
/// backbone does not consume is collected.
pub open spec fn segs(ex: Seq<char>, lcs: Seq<char>, i: int, li: int, cur: Seq<char>) -> Seq<
    Seq<char>,
>
    decreases ex.len() - i,
{
    if i < 0 || i >= ex.len() {
        if cur.len() > 0 {
            seq![cur]
        } else {
            Seq::empty()
        }
    } else if 0 <= li < lcs.len() && ex[i] == lcs[li] {
        (if cur.len() > 0 {
            seq![cur]
        } else {
            Seq::empty()
        }) + segs(ex, lcs, i + 1, li + 1, Seq::empty())
    } else {
        segs(ex, lcs, i + 1, li, cur.push(ex[i]))
    }
}

/// The segments of every example, pooled in order.
pub open spec fn all_segs(exs: Seq<Seq<char>>, lcs: Seq<char>, k: int) -> Seq<Seq<char>>
    decreases exs.len() - k,
{
    if k < 0 || k >= exs.len() {
        Seq::empty()
    } else {
        segs(exs[k], lcs, 0, 0, Seq::empty()) + all_segs(exs, lcs, k + 1)
    }
}

/// The pooled segments, sorted and with duplicates removed.
pub open spec fn segments_spec(exs: Seq<Seq<char>>, lcs: Seq<char>) -> Seq<Seq<char>> {
    dedup_adj(sort_lex(all_segs(exs, lcs, 0)))
}

fn segs_chars(ex: &Vec<char>, lcs: &Vec<char>, pool: &mut Vec<Vec<char>>)
    ensures
        final(pool).deep_view() == old(pool).deep_view() + segs(ex@, lcs@, 0, 0, Seq::empty()),
{
    let ghost base = pool.deep_view();
    let mut cur: Vec<char> = Vec::new();
    let mut i: usize = 0;
    let mut li: usize = 0;
    proof {
        assert(cur@ =~= Seq::<char>::empty());
        assert(base + segs(ex@, lcs@, 0, 0, cur@) =~= base + segs(ex@, lcs@, 0, 0, Seq::empty()));
    }
    while i < ex.len()
        invariant
            i <= ex@.len(),
            li <= lcs@.len(),
            base + segs(ex@, lcs@, 0, 0, Seq::empty()) == pool.deep_view() + segs(
                ex@,
                lcs@,
                i as int,
                li as int,
                cur@,
            ),
        decreases ex.len() - i,
    {
        if li < lcs.len() && ex[i] == lcs[li] {
            if cur.len() > 0 {
                let ghost pdv = pool.deep_view();
                let ghost cm = cur@;
                pool.push(cur);
                proof {
                    assert(pool.deep_view() =~~= pdv.push(cm));
                    assert(pdv.push(cm) + segs(ex@, lcs@, i as int + 1, li as int + 1,
                    Seq::empty()) =~= pdv + (seq![cm] + segs(
                        ex@,
                        lcs@,
                        i as int + 1,
                        li as int + 1,
                        Seq::empty(),
                    )));
                }
                cur = Vec::new();
            } else {
                proof {
                    assert(cur@ =~= Seq::<char>::empty());
                    assert(pool.deep_view() + (Seq::<Seq<char>>::empty() + segs(
                        ex@,
                        lcs@,
                        i as int + 1,
                        li as int + 1,
                        Seq::empty(),
                    )) =~= pool.deep_view() + segs(
                        ex@,
                        lcs@,
                        i as int + 1,
                        li as int + 1,
                        Seq::empty(),
                    ));
                }
            }
            i = i + 1;
            li = li + 1;
        } else {
            cur.push(ex[i]);
            i = i + 1;
        }
    }
    if cur.len() > 0 {
        let ghost pdv = pool.deep_view();
        let ghost cm = cur@;
        pool.push(cur);
        proof {
            assert(pool.deep_view() =~~= pdv.push(cm));
            assert(pdv.push(cm) =~= pdv + seq![cm]);
        }
    } else {
        proof {
            assert(pool.deep_view() + Seq::<Seq<char>>::empty() =~= pool.deep_view());
        }
    }
}

/// The distinct variable segments of the examples against a backbone,
/// sorted.
pub fn extract_variable_segments(examples: &Vec<String>, lcs: &str) -> (r: Vec<String>)
    ensures
        r.deep_view() == segments_spec(examples.deep_view(), lcs@),
{
    let exs = to_char_lists(examples);
    let lv = to_chars(lcs);
    let ghost dv = examples.deep_view();
    let mut pool: Vec<Vec<char>> = Vec::new();
    let mut k: usize = 0;
    proof {
        assert(pool.deep_view() + all_segs(dv, lcs@, 0) =~= all_segs(dv, lcs@, 0));
    }
    while k < exs.len()
        invariant
            k <= exs@.len(),
            exs.deep_view() == dv,
            exs@.len() == dv.len(),
            lv@ == lcs@,
            all_segs(dv, lcs@, 0) == pool.deep_view() + all_segs(dv, lcs@, k as int),
        decreases exs.len() - k,
    {
        proof {
            assert(exs@[k as int]@ == dv[k as int]);
        }
        let ghost pdv = pool.deep_view();
        segs_chars(&exs[k], &lv, &mut pool);
        k = k + 1;
        proof {
            assert(pdv + (segs(dv[k as int - 1], lcs@, 0, 0, Seq::empty()) + all_segs(
                dv,
                lcs@,
                k as int,
            )) =~= pool.deep_view() + all_segs(dv, lcs@, k as int));
        }
    }
    proof {
        assert(pool.deep_view() + Seq::<Seq<char>>::empty() =~= pool.deep_view());
    }
    let sorted = sort_dedup(&pool);
    from_char_lists(&sorted)
}

/// A character the matcher generator escapes: the meta characters of
/// the pattern syntax relied on.
pub open spec fn is_meta(c: char) -> bool {
    ||| c == '\\'
    ||| c == '.'
    ||| c == '+'
    ||| c == '*'
    ||| c == '?'
    ||| c == '('
    ||| c == ')'
    ||| c == '|'
    ||| c == '['
    ||| c == ']'
    ||| c == '{'
    ||| c == '}'
    ||| c == '^'
    ||| c == '$'
    ||| c == '#'
    ||| c == '&'
    ||| c == '-'
    ||| c == '~'
}

/// Every meta character preceded by a backslash.
pub open spec fn regex_escape(s: Seq<char>) -> Seq<char>
    decreases s.len(),
{
    if s.len() == 0 {
        Seq::empty()
    } else if is_meta(s.last()) {
        regex_escape(s.drop_last()) + seq!['\\', s.last()]
    } else {
        regex_escape(s.drop_last()) + seq![s.last()]
    }
}

/// Relies on `regex::escape` (via `regex_syntax::escape_into`): each
/// character is copied in order, with a backslash inserted before each
/// of the meta characters `\ . + * ? ( ) | [ ] { } ^ $ # & - ~`.
#[verifier::external_body]
fn regex_escape_exec(s: &str) -> (r: String)
    ensures
        r@ == regex_escape(s@),
{
    regex::escape(s)
}

/// The escaped form of the `{VAR}` marker.
pub open spec fn escaped_var() -> Seq<char> {
    seq!['\\', '{', 'V', 'A', 'R', '\\', '}']
}

/// The generated matcher: the template escaped as literals, each
/// `{VAR}` marker replaced by a lazy wildcard, anchored to the full
/// line.
pub open spec fn build_rx(tmpl: Seq<char>) -> Seq<char> {
    seq!['^'] + replace_all(regex_escape(tmpl), escaped_var(), ".*?"@) + seq!['$']
}

/// The matcher text generated from a template.
pub fn build_regex_from_template(template: &str) -> (r: String)
    ensures
        r@ == build_rx(template@),
{
    let esc = regex_escape_exec(template);
    let ev = to_chars(&esc);
    let mut pat: Vec<char> = Vec::new();
    pat.push('\\');
    pat.push('{');
    pat.push('V');
    pat.push('A');
    pat.push('R');
    pat.push('\\');
    pat.push('}');
    proof {
        assert(pat@ =~= escaped_var());
    }
    let rep = to_chars(".*?");
    let mid = do_replace_all(&ev, &pat, &rep);
    let mut out: Vec<char> = Vec::new();
    out.push('^');
    push_all(&mut out, &mid);
    out.push('$');
    proof {
        assert(out@ =~= build_rx(template@));
    }
    from_chars(&out)
}

/// Sum of pairwise similarities of `exs[i]` against every later entry
/// from `j` on, in thousandths.
pub open spec fn sim_row(exs: Seq<Seq<char>>, i: int, j: int) -> int
    decreases exs.len() - j,
{
    if j < 0 || j >= exs.len() {
        0
    } else {
        sim_pm(exs[i], exs[j]) + sim_row(exs, i, j + 1)
    }
}

/// Sum of similarities over all unordered pairs from row `i` on.
pub open spec fn sim_all(exs: Seq<Seq<char>>, i: int) -> int
    decreases exs.len() - i,
{
    if i < 0 || i >= exs.len() {
        0
    } else {
        sim_row(exs, i, i + 1) + sim_all(exs, i + 1)
    }
}

/// Count of entries from `j` on.
pub open spec fn pair_row(n: int, j: int) -> int
    decreases n - j,
{
    if j < 0 || j >= n {
        0
    } else {
        1 + pair_row(n, j + 1)
    }
}

/// Count of unordered pairs from row `i` on.
pub open spec fn pairs_from(n: int, i: int) -> int
    decreases n - i,
{
    if i < 0 || i >= n {
        0
    } else {
        pair_row(n, i + 1) + pairs_from(n, i + 1)
    }
}

proof fn lemma_sim_row_bounds(exs: Seq<Seq<char>>, i: int, j: int)
    requires
        0 <= j,
    ensures
        0 <= sim_row(exs, i, j) <= 1000 * pair_row(exs.len() as int, j),
    decreases exs.len() - j,
{
    if j < exs.len() {
        lemma_sim_pm_range(exs[i], exs[j]);
        lemma_sim_row_bounds(exs, i, j + 1);
    }
}

proof fn lemma_sim_all_bounds(exs: Seq<Seq<char>>, i: int)
    requires
        0 <= i,
    ensures
        0 <= sim_all(exs, i) <= 1000 * pairs_from(exs.len() as int, i),
    decreases exs.len() - i,
{
    if i < exs.len() {
        lemma_sim_row_bounds(exs, i, i + 1);
        lemma_sim_all_bounds(exs, i + 1);
    }
}

proof fn lemma_pair_row_val(n: int, j: int)
    requires
        0 <= j <= n,
    ensures
        pair_row(n, j) == n - j,
    decreases n - j,
{
    if j < n {
        lemma_pair_row_val(n, j + 1);
    }
}

proof fn lemma_pairs_from_bound(n: int, i: int)
    requires
        0 <= i <= n,
    ensures
        0 <= pairs_from(n, i) <= (n - i) * n,
    decreases n - i,
{
    if i < n {
        lemma_pair_row_val(n, i + 1);
        lemma_pairs_from_bound(n, i + 1);
        assert((n - i - 1) + (n - i - 1) * n <= (n - i) * n) by (nonlinear_arith)
            requires
                0 <= i < n,
        ;
    }
}

/// Sum of a prefix is bounded by the whole sum.
proof fn lemma_sum_take_le(s: Seq<Seq<char>>, i: int)
    requires
        0 <= i <= s.len(),
    ensures
        sum_lens(s.take(i)) <= sum_lens(s),
    decreases s.len(),
{
    if i == s.len() {
        assert(s.take(i) =~= s);
    } else {
        assert(s.drop_last().take(i) =~= s.take(i));
        lemma_sum_take_le(s.drop_last(), i);
    }
}

/// The confidence of a backbone against the distinct examples, in
/// thousandths: half the backbone's share of the average example
/// length plus half the average pairwise similarity, halved again for
/// a backbone under five characters, clamped into the unit range.
pub open spec fn conf_pm(exs: Seq<Seq<char>>, lcs: Seq<char>) -> int {
    if exs.len() == 0 || lcs.len() == 0 {
        0
    } else {
        let s = sum_lens(exs);
        if s <= 0 {
            0
        } else {
            let cov = (lcs.len() as int * 1000 * exs.len() as int) / s;
            let p = pairs_from(exs.len() as int, 0);
            let avg = if p > 0 {
                sim_all(exs, 0) / p
            } else {
                0
            };
            let base = (cov + avg) / 2;
            let pen = if lcs.len() < 5 {
                base / 2
            } else {
                base
            };
            if pen > 1000 {
                1000
            } else if pen < 0 {
                0
            } else {
                pen
            }
        }
    }
}

fn conf_chars(u: &Vec<Vec<char>>, lcs: &Vec<char>) -> (r: u32)
    requires
        u@.len() <= u32::MAX,
        sum_lens(u.deep_view()) < u32::MAX,
        lcs@.len() <= u32::MAX,
    ensures
        r == conf_pm(u.deep_view(), lcs@),
        r <= 1000,
{
    let ghost dv = u.deep_view();
    let n = u.len();
    if n == 0 || lcs.len() == 0 {
        return 0;
    }
    // total length of the examples
    let mut s_acc: u64 = 0;
    let mut i: usize = 0;
    proof {
        assert(dv.take(0) =~= Seq::<Seq<char>>::empty());
    }
    while i < n
        invariant
            i <= n,
            n == u@.len(),
            dv == u.deep_view(),
            dv.len() == n,
            sum_lens(dv) < u32::MAX,
            s_acc == sum_lens(dv.take(i as int)),
            s_acc < u32::MAX,
        decreases n - i,
    {
        proof {
            assert(dv.take(i as int + 1).drop_last() =~= dv.take(i as int));
            assert(dv.take(i as int + 1).last() == dv[i as int]);
            lemma_sum_take_le(dv, i as int + 1);
            assert(dv[i as int] == u@[i as int]@);
        }
        s_acc = s_acc + (u[i].len() as u64);
        i = i + 1;
    }
    proof {
        assert(dv.take(n as int) =~= dv);
    }
    if s_acc == 0 {
        return 0;
    }
    proof {
        let a: int = lcs@.len() as int;
        let b: int = n as int;
        assert(a * 1000 * b <= 0x1_0000_0000 * 1000 * 0x1_0000_0000) by (nonlinear_arith)
            requires
                0 <= a <= 0x1_0000_0000,
                0 <= b <= 0x1_0000_0000,
        ;
    }
    let cov: u128 = (lcs.len() as u128) * 1000 * (n as u128) / (s_acc as u128);
    // pairwise similarities
    let ghost nn = n as int;
    let mut total: u128 = 0;
    let mut cnt: u128 = 0;
    let mut ii: usize = 0;
    proof {
        lemma_pairs_from_bound(nn, 0);
        lemma_sim_all_bounds(dv, 0);
    }
    while ii < n
        invariant
            ii <= n,
            n == u@.len(),
            dv == u.deep_view(),
            dv.len() == n,
            nn == n as int,
            sum_lens(dv) < u32::MAX,
            n <= u32::MAX,
            sim_all(dv, 0) == total + sim_all(dv, ii as int),
            pairs_from(nn, 0) == cnt + pairs_from(nn, ii as int),
            total <= 1000 * cnt,
            cnt <= pairs_from(nn, 0),
        decreases n - ii,
    {
        let mut jj: usize = ii + 1;
        while jj < n
            invariant
                ii < n,
                ii < jj <= n,
                n == u@.len(),
                dv == u.deep_view(),
                dv.len() == n,
                nn == n as int,
                sum_lens(dv) < u32::MAX,
                n <= u32::MAX,
                sim_all(dv, 0) == total + sim_row(dv, ii as int, jj as int) + sim_all(
                    dv,
                    ii as int + 1,
                ),
                pairs_from(nn, 0) == cnt + pair_row(nn, jj as int) + pairs_from(nn, ii as int + 1),
                total <= 1000 * cnt,
                cnt + pair_row(nn, jj as int) + pairs_from(nn, ii as int + 1) <= pairs_from(nn, 0),
            decreases n - jj,
        {
            proof {
                lemma_sum_lens_elem(dv, ii as int);
                lemma_sum_lens_elem(dv, jj as int);
                lemma_sum_lens_nonneg(dv);
                assert(dv[ii as int] == u@[ii as int]@);
                assert(dv[jj as int] == u@[jj as int]@);
                lemma_pairs_from_bound(nn, 0);
                assert(pair_row(nn, jj as int) >= 0 && pairs_from(nn, ii as int + 1) >= 0) by {
                    lemma_pair_row_val(nn, jj as int);
                    lemma_pairs_from_bound(nn, ii as int + 1);
                }
                assert(nn * nn <= 0x1_0000_0000_0000_0000) by (nonlinear_arith)
                    requires
                        0 <= nn <= 0x1_0000_0000,
                ;
            }
            let s = sim_chars(&u[ii], &u[jj]);
            proof {
                lemma_sim_pm_range(dv[ii as int], dv[jj as int]);
            }
            total = total + (s as u128);
            cnt = cnt + 1;
            jj = jj + 1;
        }
        proof {
            lemma_pairs_from_bound(nn, ii as int + 1);
        }
        ii = ii + 1;
    }
    let avg: u128 = if cnt > 0 {
        total / cnt
    } else {
        0
    };
    proof {
        if cnt > 0 {
            let t: int = total as int;
            let c: int = cnt as int;
            assert(t / c <= 1000 * c / c) by (nonlinear_arith)
                requires
                    c > 0,
                    0 <= t <= 1000 * c,
            ;
            assert(1000 * c / c == 1000) by (nonlinear_arith)
                requires
                    c > 0,
            ;
        }
    }
    let base: u128 = (cov + avg) / 2;
    let pen: u128 = if lcs.len() < 5 {
        base / 2
    } else {
        base
    };
    let clamped: u128 = if pen > 1000 {
        1000
    } else {
        pen
    };
    clamped as u32
}

/// Confidence of a backbone against examples, in thousandths.
pub fn calculate_confidence(examples: &Vec<String>, lcs: &str) -> (r: u32)
    requires
        examples@.len() <= u32::MAX,
        sum_lens(examples.deep_view()) < u32::MAX,
        lcs@.len() <= u32::MAX,
    ensures
        r == conf_pm(examples.deep_view(), lcs@),
        r <= 1000,
{
    let exs = to_char_lists(examples);
    let lv = to_chars(lcs);
    conf_chars(&exs, &lv)
}

/// The maximal whitespace-free runs of a text, collected in order.
pub open spec fn split_acc(s: Seq<char>, i: int, cur: Seq<char>) -> Seq<Seq<char>>
    decreases s.len() - i,
{
    if i < 0 || i >= s.len() {
        if cur.len() > 0 {
            seq![cur]
        } else {
            Seq::empty()
        }
    } else if is_ws(s[i]) {
        (if cur.len() > 0 {
            seq![cur]
        } else {
            Seq::empty()
        }) + split_acc(s, i + 1, Seq::empty())
    } else {
        split_acc(s, i + 1, cur.push(s[i]))
    }
}

/// The whitespace-separated parts of a text.
pub open spec fn split_ws(s: Seq<char>) -> Seq<Seq<char>> {
    split_acc(s, 0, Seq::empty())
}

/// The backbone split into its whitespace-separated common parts.
pub fn split_by_lcs(lcs: &str) -> (r: Vec<String>)
    ensures
        r.deep_view() == split_ws(lcs@),
{
    let s = to_chars(lcs);
    let mut pool: Vec<Vec<char>> = Vec::new();
    let mut cur: Vec<char> = Vec::new();
    let mut i: usize = 0;
    proof {
        assert(cur@ =~= Seq::<char>::empty());
        assert(pool.deep_view() + split_acc(s@, 0, cur@) =~= split_acc(s@, 0, Seq::empty()));
    }
    while i < s.len()
        invariant
            i <= s@.len(),
            split_ws(lcs@) == pool.deep_view() + split_acc(s@, i as int, cur@),
            s@ == lcs@,
        decreases s.len() - i,
    {
        if c_is_ws(s[i]) {
            if cur.len() > 0 {
                let ghost pdv = pool.deep_view();
                let ghost cm = cur@;
                pool.push(cur);
                proof {
                    assert(pool.deep_view() =~~= pdv.push(cm));
                    assert(pdv.push(cm) + split_acc(s@, i as int + 1, Seq::empty()) =~= pdv + (
                    seq![cm] + split_acc(s@, i as int + 1, Seq::empty())));
                }
                cur = Vec::new();
            } else {
                proof {
                    assert(cur@ =~= Seq::<char>::empty());
                    assert(pool.deep_view() + (Seq::<Seq<char>>::empty() + split_acc(
                        s@,
                        i as int + 1,
                        Seq::empty(),
                    )) =~= pool.deep_view() + split_acc(s@, i as int + 1, Seq::empty()));
                }
            }
        } else {
            cur.push(s[i]);
        }
        i = i + 1;
    }
    if cur.len() > 0 {
        let ghost pdv = pool.deep_view();
        let ghost cm = cur@;
        pool.push(cur);
        proof {
            assert(pool.deep_view() =~~= pdv.push(cm));
            assert(pdv.push(cm) =~= pdv + seq![cm]);
        }
    } else {
        proof {
            assert(pool.deep_view() + Seq::<Seq<char>>::empty() =~= pool.deep_view());
        }
    }
    from_char_lists(&pool)
}

/// The backbone is never longer than the first string it folds from.
proof fn lemma_fold_lcs_le(acc: Seq<char>, strs: Seq<Seq<char>>, k: int)
    ensures
        fold_lcs(acc, strs, k).len() <= acc.len(),
    decreases strs.len() - k + 1,
{
    if !(k < 0 || k >= strs.len()) {
        lemma_lcs_str_len(acc, strs[k]);
        lemma_lcs_len_bounds(acc, strs[k]);
        if lcs_str(acc, strs[k]).len() >= 5 {
            lemma_fold_lcs_le(lcs_str(acc, strs[k]), strs, k + 1);
        }
    }
}

/// The learned pattern of a set of examples, if two or more distinct
/// examples share a long enough backbone with high enough confidence.
pub open spec fn spec_detect(exs: Seq<Seq<char>>) -> Option<PatternModel> {
    if exs.len() < 2 {
        None
    } else {
        let u = dedup_adj(sort_lex(exs));
        if u.len() < 2 {
            None
        } else {
            let lcs = multi_lcs(u);
            let s = sum_lens(u);
            let avg = s / u.len() as int;
            let th: int = if avg / 10 > 3 {
                avg / 10
            } else {
                3
            };
            if lcs.len() < th {
                None
            } else {
                let tmpl = build_tmpl(lcs, u[0]);
                let conf = conf_pm(u, lcs);
                if conf < 500 {
                    None
                } else {
                    Some(
                        PatternModel {
                            template: tmpl,
                            regex: build_rx(tmpl),
                            confidence: conf,
                            variable_segments: segments_spec(u, lcs),
                            common_parts: split_ws(lcs),
                        },
                    )
                }
            }
        }
    }
}

/// Detect a reusable pattern across example strings: deduplicate,
/// compute the backbone, derive template, matcher, segments and
/// confidence, and suppress short or low-confidence results.
pub fn detect_pattern_lcs(examples: &Vec<String>) -> (r: Option<DetectedPattern>)
    requires
        examples@.len() <= u32::MAX,
        sum_lens(examples.deep_view()) < u32::MAX,
    ensures
        match r {
            Some(p) => spec_detect(examples.deep_view()) == Some(p@),
            None => spec_detect(examples.deep_view()) is None,
        },
{
    let ghost dv = examples.deep_view();
    if examples.len() < 2 {
        return None;
    }
    let exs = to_char_lists(examples);
    let u = sort_dedup(&exs);
    let ghost udv = u.deep_view();
    proof {
        lemma_sum_sort_lex(dv);
        lemma_sum_dedup_le(sort_lex(dv));
        lemma_sum_lens_nonneg(udv);
        lemma_sort_lex_len(dv);
        lemma_dedup_len(sort_lex(dv));
    }
    if u.len() < 2 {
        return None;
    }
    proof {
        assert forall|k: int| 0 <= k < u@.len() implies (#[trigger] u@[k])@.len() < usize::MAX by {
            assert(u@[k]@ == udv[k]);
            lemma_sum_lens_elem(udv, k);
        }
    }
    let lcs = multi_lcs_chars(&u);
    proof {
        lemma_fold_lcs_le(udv[0], udv, 1);
        lemma_sum_lens_elem(udv, 0);
    }
    // backbone length threshold: a tenth of the average length, at least three
    let mut s_acc: u64 = 0;
    let mut i: usize = 0;
    proof {
        assert(udv.take(0) =~= Seq::<Seq<char>>::empty());
    }
    while i < u.len()
        invariant
            i <= u@.len(),
            udv == u.deep_view(),
            udv.len() == u@.len(),
            sum_lens(udv) < u32::MAX,
            s_acc == sum_lens(udv.take(i as int)),
            s_acc < u32::MAX,
        decreases u.len() - i,
    {
        proof {
            assert(udv.take(i as int + 1).drop_last() =~= udv.take(i as int));
            assert(udv.take(i as int + 1).last() == udv[i as int]);
            lemma_sum_take_le(udv, i as int + 1);
            assert(udv[i as int] == u@[i as int]@);
        }
        s_acc = s_acc + (u[i].len() as u64);
        i = i + 1;
    }
    proof {
        assert(udv.take(u@.len() as int) =~= udv);
    }
    let avg: u64 = s_acc / (u.len() as u64);
    let th: u64 = if avg / 10 > 3 {
        avg / 10
    } else {
        3
    };
    if (lcs.len() as u64) < th {
        return None;
    }
    // template from the backbone and the first distinct example
    let raw = walk_chars(&u[0], &lcs);
    let tmpl = collapse_chars(raw);
    proof {
        assert(u@[0]@ == udv[0]);
        assert(lcs@.len() > 0);
        assert(tmpl@ == build_tmpl(lcs@, udv[0]));
    }
    // pooled distinct variable segments
    let mut pool: Vec<Vec<char>> = Vec::new();
    let mut k: usize = 0;
    proof {
        assert(pool.deep_view() + all_segs(udv, lcs@, 0) =~= all_segs(udv, lcs@, 0));
    }
    while k < u.len()
        invariant
            k <= u@.len(),
            udv == u.deep_view(),
            udv.len() == u@.len(),
            all_segs(udv, lcs@, 0) == pool.deep_view() + all_segs(udv, lcs@, k as int),
        decreases u.len() - k,
    {
        proof {
            assert(u@[k as int]@ == udv[k as int]);
        }
        let ghost pdv = pool.deep_view();
        segs_chars(&u[k], &lcs, &mut pool);
        k = k + 1;
        proof {
            assert(pdv + (segs(udv[k as int - 1], lcs@, 0, 0, Seq::empty()) + all_segs(
                udv,
                lcs@,
                k as int,
            )) =~= pool.deep_view() + all_segs(udv, lcs@, k as int));
        }
    }
    proof {
        assert(pool.deep_view() + Seq::<Seq<char>>::empty() =~= pool.deep_view());
    }
    let seg_sorted = sort_dedup(&pool);
    let variable_segments = from_char_lists(&seg_sorted);
    // generated matcher
    let tmpl_str = from_chars(&tmpl);
    let regex = build_regex_from_template(tmpl_str.as_str());
    // confidence
    let confidence = conf_chars(&u, &lcs);
    if confidence < 500 {
        return None;
    }
    let lcs_str_ = from_chars(&lcs);
    let common_parts = split_by_lcs(lcs_str_.as_str());
    let p = DetectedPattern {
        template: tmpl_str,
        regex: regex,
        confidence: confidence,
        variable_segments: variable_segments,
        common_parts: common_parts,
    };
    proof {
        assert(p@ =~~= spec_detect(dv).unwrap());
    }
    Some(p)
}

/// Detect a pattern from example strings.
pub fn detect_pattern(examples: &Vec<String>) -> (r: Option<DetectedPattern>)
    requires
        examples@.len() <= u32::MAX,
        sum_lens(examples.deep_view()) < u32::MAX,
    ensures
        match r {
            Some(p) => spec_detect(examples.deep_view()) == Some(p@),
            None => spec_detect(examples.deep_view()) is None,
        },
{
    detect_pattern_lcs(examples)
}

} // verus!
