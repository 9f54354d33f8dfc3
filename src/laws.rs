//! Properties of the candidate set, proved over the filter's model.
use vstd::prelude::*;
use crate::filter::{Constraints, admits, candidates, fixed_ok, exclusions_ok, absent_ok};

verus! {

/// `a` is `b` with some elements left out: the rest in the same order, none repeated.
pub open spec fn is_subsequence(a: Seq<Seq<char>>, b: Seq<Seq<char>>) -> bool {
    exists|idx: Seq<int>|
        {
            &&& idx.len() == a.len()
            &&& forall|k: int| 0 <= k < idx.len() ==> 0 <= #[trigger] idx[k] < b.len() && a[k] == b[idx[k]]
            &&& forall|k: int, l: int| 0 <= k < l < idx.len() ==> #[trigger] idx[k] < #[trigger] idx[l]
        }
}

/// `tighter` holds every constraint of `looser` over the same positions,
/// and possibly more.
pub open spec fn strengthens(tighter: Constraints, looser: Constraints) -> bool {
    &&& forall|x: char| looser.absent.contains(x) ==> #[trigger] tighter.absent.contains(x)
    &&& tighter.excluded.len() == looser.excluded.len()
    &&& forall|i: int, x: char|
        0 <= i < looser.excluded.len() && looser.excluded[i].contains(x)
            ==> #[trigger] tighter.excluded[i].contains(x)
    &&& tighter.fixed.len() == looser.fixed.len()
    &&& forall|i: int|
        0 <= i < looser.fixed.len() && looser.fixed[i] is Some ==> #[trigger] tighter.fixed[i]
            == looser.fixed[i]
}

proof fn lemma_candidates_step(dict: Seq<Seq<char>>, c: Constraints)
    requires
        dict.len() > 0,
    ensures
        candidates(dict, c) == if admits(c, dict.last()) {
            candidates(dict.drop_last(), c).push(dict.last())
        } else {
            candidates(dict.drop_last(), c)
        },
{
    reveal(Seq::filter);
}

proof fn subsequence_witness(dict: Seq<Seq<char>>, c: Constraints) -> (idx: Seq<int>)
    ensures
        idx.len() == candidates(dict, c).len(),
        forall|k: int|
            0 <= k < idx.len() ==> 0 <= #[trigger] idx[k] < dict.len() && candidates(dict, c)[k]
                == dict[idx[k]],
        forall|k: int, l: int| 0 <= k < l < idx.len() ==> #[trigger] idx[k] < #[trigger] idx[l],
    decreases dict.len(),
{
    if dict.len() == 0 {
        reveal(Seq::filter);
        Seq::empty()
    } else {
        let prev = subsequence_witness(dict.drop_last(), c);
        lemma_candidates_step(dict, c);
        if admits(c, dict.last()) {
            let idx = prev.push(dict.len() - 1);
            assert forall|k: int, l: int| 0 <= k < l < idx.len() implies #[trigger] idx[k]
                < #[trigger] idx[l] by {
                if l < prev.len() {
                    assert(idx[k] == prev[k] && idx[l] == prev[l]);
                } else {
                    assert(idx[k] == prev[k]);
                }
            }
            idx
        } else {
            prev
        }
    }
}

/// The candidate set is a subsequence of the dictionary: words keep their
/// dictionary order and none is repeated.
pub proof fn lemma_candidates_subsequence(dict: Seq<Seq<char>>, c: Constraints)
    ensures
        is_subsequence(candidates(dict, c), dict),
{
    let idx = subsequence_witness(dict, c);
    assert(idx.len() == candidates(dict, c).len());
}

/// Filtering the candidate set again under the same constraints gives it back unchanged.
pub proof fn lemma_filter_idempotent(dict: Seq<Seq<char>>, c: Constraints)
    ensures
        candidates(candidates(dict, c), c) == candidates(dict, c),
    decreases dict.len(),
{
    if dict.len() == 0 {
        reveal(Seq::filter);
    } else {
        let prev = candidates(dict.drop_last(), c);
        lemma_filter_idempotent(dict.drop_last(), c);
        lemma_candidates_step(dict, c);
        if admits(c, dict.last()) {
            let cur = prev.push(dict.last());
            assert(cur.drop_last() =~= prev);
            lemma_candidates_step(cur, c);
        }
    }
}

/// A word that meets stronger constraints meets the weaker ones.
pub proof fn lemma_admits_weaker(tighter: Constraints, looser: Constraints, w: Seq<char>)
    requires
        strengthens(tighter, looser),
        admits(tighter, w),
    ensures
        admits(looser, w),
{
    assert forall|k: int| 0 <= k < looser.absent.len() implies !w.contains(
        #[trigger] looser.absent[k],
    ) by {
        assert(looser.absent.contains(looser.absent[k]));
        assert(tighter.absent.contains(looser.absent[k]));
        let m = choose|m: int| 0 <= m < tighter.absent.len() && tighter.absent[m] == looser.absent[k];
        assert(!w.contains(tighter.absent[m]));
    }
    assert forall|i: int, j: int|
        0 <= i < looser.excluded.len() && 0 <= j < looser.excluded[i].len() implies !(i < w.len()
            && w[i] == #[trigger] looser.excluded[i][j]) && w.contains(looser.excluded[i][j]) by {
        let x = looser.excluded[i][j];
        assert(looser.excluded[i].contains(x));
        assert(tighter.excluded[i].contains(x));
        let m = choose|m: int| 0 <= m < tighter.excluded[i].len() && tighter.excluded[i][m] == x;
        assert(!(i < w.len() && w[i] == tighter.excluded[i][m]) && w.contains(tighter.excluded[i][m]));
    }
    assert forall|i: int| 0 <= i < looser.fixed.len() && #[trigger] looser.fixed[i] is Some implies i
        < w.len() && w[i] == looser.fixed[i]->0 by {
        assert(tighter.fixed[i] == looser.fixed[i]);
    }
}

/// Adding constraints never enlarges the candidate set.
pub proof fn lemma_filter_monotone(dict: Seq<Seq<char>>, tighter: Constraints, looser: Constraints)
    requires
        strengthens(tighter, looser),
    ensures
        candidates(dict, tighter).len() <= candidates(dict, looser).len(),
    decreases dict.len(),
{
    if dict.len() == 0 {
        reveal(Seq::filter);
    } else {
        lemma_filter_monotone(dict.drop_last(), tighter, looser);
        lemma_candidates_step(dict, tighter);
        lemma_candidates_step(dict, looser);
        if admits(tighter, dict.last()) {
            lemma_admits_weaker(tighter, looser, dict.last());
        }
    }
}

/// A dictionary word that spells out fully fixed letters, holds no absent
/// letter and breaks no exclusion is a candidate.
pub proof fn lemma_full_pattern_found(dict: Seq<Seq<char>>, c: Constraints, w: Seq<char>)
    requires
        dict.contains(w),
        w.len() == c.fixed.len(),
        forall|i: int| 0 <= i < c.fixed.len() ==> #[trigger] c.fixed[i] == Some(w[i]),
        absent_ok(w, c.absent),
        exclusions_ok(w, c.excluded),
    ensures
        candidates(dict, c).contains(w),
{
    assert(fixed_ok(w, c.fixed));
    let k = choose|k: int| 0 <= k < dict.len() && dict[k] == w;
    dict.lemma_filter_contains(|v: Seq<char>| admits(c, v), k);
}

} // verus!
