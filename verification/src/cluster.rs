//! Similarity clustering: a single greedy online pass that joins each
//! string to the first existing group whose representative — the
//! group's first member — is similar enough, or starts a new group.
use vstd::prelude::*;
use crate::text::{to_chars, from_chars, to_char_lists};
use crate::editdist::{sim_pm, sim_chars, lemma_sim_pm_range, lemma_sim_pm_full_iff};

verus! {

/// One string placed into the groups: it joins the first group, in
/// creation order from `i`, whose representative is at least
/// `thr`-similar; failing all, it founds a new group.
pub open spec fn add_to(
    clusters: Seq<Seq<Seq<char>>>,
    e: Seq<char>,
    thr: int,
    i: int,
) -> Seq<Seq<Seq<char>>>
    decreases clusters.len() - i,
{
    if i < 0 || i >= clusters.len() {
        clusters.push(seq![e])
    } else if clusters[i].len() > 0 && sim_pm(e, clusters[i][0]) >= thr {
        clusters.update(i, clusters[i].push(e))
    } else {
        add_to(clusters, e, thr, i + 1)
    }
}

/// The groups after the whole pass from input position `k`.
pub open spec fn cluster_from(
    errors: Seq<Seq<char>>,
    thr: int,
    k: int,
    acc: Seq<Seq<Seq<char>>>,
) -> Seq<Seq<Seq<char>>>
    decreases errors.len() - k,
{
    if k < 0 || k >= errors.len() {
        acc
    } else {
        cluster_from(errors, thr, k + 1, add_to(acc, errors[k], thr, 0))
    }
}

/// The groups the greedy pass yields for the whole input.
pub open spec fn cluster_spec(errors: Seq<Seq<char>>, thr: int) -> Seq<Seq<Seq<char>>> {
    cluster_from(errors, thr, 0, Seq::empty())
}

fn add_to_exec(clusters: &mut Vec<Vec<String>>, e: &String, thr: u32)
    requires
        e@.len() < usize::MAX,
        forall|i: int|
            0 <= i < old(clusters)@.len() ==> (#[trigger] old(clusters)@[i])@.len() > 0 && old(
                clusters,
            )@[i]@[0]@.len() < usize::MAX,
    ensures
        final(clusters).deep_view() == add_to(old(clusters).deep_view(), e@, thr as int, 0),
        forall|i: int|
            0 <= i < final(clusters)@.len() ==> (#[trigger] final(clusters)@[i])@.len() > 0
                && final(clusters)@[i]@[0]@.len() < usize::MAX,
{
    let ghost dv = clusters.deep_view();
    let ev = to_chars(e.as_str());
    let mut i: usize = 0;
    while i < clusters.len()
        invariant
            i <= clusters@.len(),
            ev@ == e@,
            e@.len() < usize::MAX,
            dv == old(clusters).deep_view(),
            dv == clusters.deep_view(),
            dv.len() == clusters@.len(),
            forall|ii: int|
                0 <= ii < clusters@.len() ==> (#[trigger] clusters@[ii])@.len() > 0
                    && clusters@[ii]@[0]@.len() < usize::MAX,
            add_to(dv, e@, thr as int, 0) == add_to(dv, e@, thr as int, i as int),
        decreases clusters.len() - i,
    {
        proof {
            assert(dv[i as int] == clusters@[i as int].deep_view());
            assert(dv[i as int][0] == clusters@[i as int]@[0]@);
        }
        let rep = to_chars(clusters[i][0].as_str());
        let s = sim_chars(&ev, &rep);
        if s >= thr {
            let ghost gdv = dv[i as int];
            let ghost old_vec = clusters@;
            let mut grp = clusters.remove(i);
            grp.push(e.clone());
            proof {
                assert(grp.deep_view() =~~= gdv.push(e@));
            }
            clusters.insert(i, grp);
            proof {
                assert(clusters@ =~= old_vec.update(i as int, clusters@[i as int]));
                assert(clusters.deep_view() =~~= dv.update(i as int, gdv.push(e@)));
                assert(add_to(dv, e@, thr as int, i as int) == dv.update(
                    i as int,
                    dv[i as int].push(e@),
                ));
                assert(clusters.deep_view() == add_to(dv, e@, thr as int, 0));
                assert forall|ii: int| 0 <= ii < clusters@.len() implies (
                #[trigger] clusters@[ii])@.len() > 0 && clusters@[ii]@[0]@.len() < usize::MAX by {
                    if ii != i {
                        assert(clusters@[ii] == old_vec[ii]);
                    } else {
                        assert(clusters@[ii]@[0] == old_vec[ii]@[0]);
                    }
                }
            }
            return ;
        }
        i = i + 1;
    }
    let mut fresh: Vec<String> = Vec::new();
    fresh.push(e.clone());
    let ghost old_vec = clusters@;
    clusters.push(fresh);
    proof {
        assert(clusters.deep_view() =~~= dv.push(seq![e@]));
        assert forall|ii: int| 0 <= ii < clusters@.len() implies (#[trigger] clusters@[ii])@.len()
            > 0 && clusters@[ii]@[0]@.len() < usize::MAX by {
            if ii < old_vec.len() {
                assert(clusters@[ii] == old_vec[ii]);
            }
        }
    }
}

/// Greedy single-pass clustering by representative similarity, with the
/// threshold in thousandths. Order-dependent by design: each string is
/// compared against the first member of each existing group in
/// creation order.
pub fn cluster_by_similarity(errors: &Vec<String>, threshold: u32) -> (r: Vec<Vec<String>>)
    requires
        forall|k: int| 0 <= k < errors@.len() ==> (#[trigger] errors@[k])@.len() < usize::MAX,
    ensures
        r.deep_view() == cluster_spec(errors.deep_view(), threshold as int),
{
    let ghost dv = errors.deep_view();
    let mut clusters: Vec<Vec<String>> = Vec::new();
    let mut k: usize = 0;
    proof {
        assert(clusters.deep_view() =~= Seq::<Seq<Seq<char>>>::empty());
    }
    while k < errors.len()
        invariant
            k <= errors@.len(),
            dv == errors.deep_view(),
            dv.len() == errors@.len(),
            forall|kk: int| 0 <= kk < errors@.len() ==> (#[trigger] errors@[kk])@.len()
                < usize::MAX,
            forall|i: int|
                0 <= i < clusters@.len() ==> (#[trigger] clusters@[i])@.len() > 0
                    && clusters@[i]@[0]@.len() < usize::MAX,
            cluster_spec(dv, threshold as int) == cluster_from(
                dv,
                threshold as int,
                k as int,
                clusters.deep_view(),
            ),
        decreases errors.len() - k,
    {
        proof {
            assert(dv[k as int] == errors@[k as int]@);
        }
        add_to_exec(&mut clusters, &errors[k], threshold);
        k = k + 1;
    }
    clusters
}

/// Cluster error strings by similarity.
pub fn cluster_errors(errors: &Vec<String>, threshold: u32) -> (r: Vec<Vec<String>>)
    requires
        forall|k: int| 0 <= k < errors@.len() ==> (#[trigger] errors@[k])@.len() < usize::MAX,
    ensures
        r.deep_view() == cluster_spec(errors.deep_view(), threshold as int),
{
    cluster_by_similarity(errors, threshold)
}

/// At threshold zero every string joins the first group: a non-empty
/// input yields a single group holding every input string in order.
pub proof fn lemma_cluster_zero_threshold(errors: Seq<Seq<char>>)
    requires
        errors.len() > 0,
    ensures
        cluster_spec(errors, 0) == seq![errors],
{
    assert(add_to(Seq::empty(), errors[0], 0, 0) =~= seq![errors.take(1)]) by {
        assert(errors.take(1) =~= seq![errors[0]]);
    }
    lemma_cluster_zero_rest(errors, 1);
    assert(errors.take(errors.len() as int) =~= errors);
}

proof fn lemma_cluster_zero_rest(errors: Seq<Seq<char>>, k: int)
    requires
        1 <= k <= errors.len(),
    ensures
        cluster_from(errors, 0, k, seq![errors.take(k)]) == seq![
            errors.take(errors.len() as int),
        ],
    decreases errors.len() - k,
{
    if k == errors.len() {
    } else {
        let acc = seq![errors.take(k)];
        lemma_sim_pm_range(errors[k], acc[0][0]);
        assert(acc[0].len() > 0) by {
            assert(errors.take(k).len() == k >= 1);
        }
        assert(add_to(acc, errors[k], 0, 0) =~= seq![errors.take(k + 1)]) by {
            assert(errors.take(k).push(errors[k]) =~= errors.take(k + 1));
            assert(acc.update(0, acc[0].push(errors[k])) =~= seq![errors.take(k).push(errors[k])]);
        }
        lemma_cluster_zero_rest(errors, k + 1);
    }
}

/// Whether every member of every group equals its representative.
pub open spec fn groups_uniform(clusters: Seq<Seq<Seq<char>>>) -> bool {
    forall|i: int, j: int|
        0 <= i < clusters.len() && 0 <= j < clusters[i].len() ==> #[trigger] clusters[i][j]
            == clusters[i][0]
}

/// At the full threshold a string only ever joins a group whose
/// representative it equals: every member of every resulting group is
/// the group's representative.
pub proof fn lemma_cluster_full_threshold(errors: Seq<Seq<char>>)
    ensures
        groups_uniform(cluster_spec(errors, 1000)),
{
    lemma_cluster_full_from(errors, 0, Seq::empty());
}

proof fn lemma_cluster_full_from(errors: Seq<Seq<char>>, k: int, acc: Seq<Seq<Seq<char>>>)
    requires
        groups_uniform(acc),
    ensures
        groups_uniform(cluster_from(errors, 1000, k, acc)),
    decreases errors.len() - k,
{
    if !(k < 0 || k >= errors.len()) {
        lemma_add_full_uniform(acc, errors[k], 0);
        lemma_cluster_full_from(errors, k + 1, add_to(acc, errors[k], 1000, 0));
    }
}

proof fn lemma_add_full_uniform(acc: Seq<Seq<Seq<char>>>, e: Seq<char>, i: int)
    requires
        groups_uniform(acc),
    ensures
        groups_uniform(add_to(acc, e, 1000, i)),
    decreases acc.len() - i,
{
    if i < 0 || i >= acc.len() {
        let r = acc.push(seq![e]);
        assert forall|a: int, b: int|
            0 <= a < r.len() && 0 <= b < r[a].len() implies #[trigger] r[a][b] == r[a][0] by {
            if a < acc.len() {
                assert(acc[a][b] == acc[a][0]);
            }
        }
    } else if acc[i].len() > 0 && sim_pm(e, acc[i][0]) >= 1000 {
        lemma_sim_pm_full_iff(e, acc[i][0]);
        let r = acc.update(i, acc[i].push(e));
        assert forall|a: int, b: int|
            0 <= a < r.len() && 0 <= b < r[a].len() implies #[trigger] r[a][b] == r[a][0] by {
            if a != i {
                assert(r[a] == acc[a]);
                assert(acc[a][b] == acc[a][0]);
            } else {
                if b < acc[i].len() {
                    assert(acc[i][b] == acc[i][0]);
                } else {
                    assert(r[a][b] == e);
                    assert(acc[i][0] == acc[i][0]);
                }
            }
        }
    } else {
        lemma_add_full_uniform(acc, e, i + 1);
    }
}

} // verus!
