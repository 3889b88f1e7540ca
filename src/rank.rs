//! Ranking a corpus by similarity to one article.

use vstd::prelude::*;
use crate::article::{Article, Basis};
use crate::order::{lemma_ranks_above_asymmetric, lemma_ranks_above_split, lemma_ranks_above_transitive};
use crate::similarity::Similarity;

verus! {

/// Entry `e` (a position in the corpus and its score) comes before entry
/// `f`: it scores higher, or they tie and `e` stands earlier in the corpus.
pub open spec fn precedes(e: (usize, Similarity), f: (usize, Similarity)) -> bool {
    e.1.spec_ranks_above(f.1) || (!f.1.spec_ranks_above(e.1) && e.0 < f.0)
}

/// Position `i` appears in `r`.
pub open spec fn lists(r: Seq<(usize, Similarity)>, i: int) -> bool {
    exists|k: int| 0 <= k < r.len() && (#[trigger] r[k]).0 == i
}

/// `r` lists every position of `scores` once, each with its score, from the
/// highest score down, ties in corpus order.
pub open spec fn is_ranking(scores: Seq<Similarity>, r: Seq<(usize, Similarity)>) -> bool {
    &&& r.len() == scores.len()
    &&& forall|k: int| 0 <= k < r.len() ==> (#[trigger] r[k]).0 < scores.len() && r[k].1 == scores[r[k].0 as int]
    &&& forall|i: int| 0 <= i < scores.len() ==> #[trigger] lists(r, i)
    &&& forall|p: int, q: int| 0 <= p < q < r.len() ==> precedes(#[trigger] r[p], #[trigger] r[q])
}

/// The scores of the corpus `xs` against `x`, in corpus order.
pub open spec fn scores_of(x: Article, xs: Seq<Article>, basis: Basis) -> Seq<Similarity> {
    Seq::new(xs.len(), |k: int| x.spec_simil(xs[k], basis))
}

proof fn lemma_precedes_transitive(e: (usize, Similarity), f: (usize, Similarity), g: (usize, Similarity))
    requires
        e.1.wf(),
        f.1.wf(),
        g.1.wf(),
        precedes(e, f),
        precedes(f, g),
    ensures
        precedes(e, g),
{
    if e.1.spec_ranks_above(f.1) {
        lemma_ranks_above_split(e.1, g.1, f.1);
        if f.1.spec_ranks_above(g.1) {
            lemma_ranks_above_transitive(e.1, f.1, g.1);
        }
    } else if f.1.spec_ranks_above(g.1) {
        lemma_ranks_above_split(f.1, e.1, g.1);
    } else if g.1.spec_ranks_above(e.1) {
        lemma_ranks_above_split(g.1, f.1, e.1);
    }
}

/// Two rankings of the same scores are the same sequence: ranking leaves
/// nothing open, ties included.
pub proof fn lemma_ranking_unique(scores: Seq<Similarity>, r1: Seq<(usize, Similarity)>, r2: Seq<(usize, Similarity)>)
    requires
        is_ranking(scores, r1),
        is_ranking(scores, r2),
    ensures
        r1 == r2,
{
    assert forall|p: int| 0 <= p < r1.len() implies r1[p] == r2[p] by {
        lemma_ranking_prefix(scores, r1, r2, p);
    }
    assert(r1 =~= r2);
}

proof fn lemma_ranking_prefix(scores: Seq<Similarity>, r1: Seq<(usize, Similarity)>, r2: Seq<(usize, Similarity)>, p: int)
    requires
        is_ranking(scores, r1),
        is_ranking(scores, r2),
        0 <= p < r1.len(),
    ensures
        r1[p] == r2[p],
    decreases p,
{
    if p > 0 {
        lemma_ranking_prefix(scores, r1, r2, p - 1);
    }
    assert forall|j: int| 0 <= j < p implies r1[j] == r2[j] by {
        lemma_ranking_prefix(scores, r1, r2, j);
    }
    let e1 = r1[p];
    let e2 = r2[p];
    if e1.0 != e2.0 {
        let i1 = e1.0 as int;
        let i2 = e2.0 as int;
        assert(lists(r2, i1));
        assert(lists(r1, i2));
        let k = choose|k: int| 0 <= k < r2.len() && (#[trigger] r2[k]).0 == i1;
        let j = choose|j: int| 0 <= j < r1.len() && (#[trigger] r1[j]).0 == i2;
        if k < p {
            assert(r1[k] == r2[k]);
            assert(precedes(r1[k], r1[p]));
            lemma_ranks_above_asymmetric(e1.1, e1.1);
        } else if j < p {
            assert(r1[j] == r2[j]);
            assert(precedes(r2[j], r2[p]));
            lemma_ranks_above_asymmetric(e2.1, e2.1);
        } else {
            assert(precedes(r2[p], r2[k]));
            assert(precedes(r1[p], r1[j]));
            assert(r2[k] == e1);
            assert(r1[j] == e2);
            lemma_ranks_above_asymmetric(e1.1, e2.1);
        }
    }
}

/// In a ranking, an incomparable score never comes before a numeric one:
/// an article with nothing to compare never outranks a genuine match.
pub proof fn lemma_incomparable_last(scores: Seq<Similarity>, r: Seq<(usize, Similarity)>, p: int, q: int)
    requires
        is_ranking(scores, r),
        0 <= p < q < r.len(),
        r[p].1 is Incomparable,
    ensures
        r[q].1 is Incomparable,
{
    assert(precedes(r[p], r[q]));
}

/// Ranks the positions of `scores`: every position once, with its score,
/// from the highest score down, ties in the order of `scores`.
pub fn rank(scores: &Vec<Similarity>) -> (r: Vec<(usize, Similarity)>)
    requires
        forall|k: int| 0 <= k < scores.len() ==> (#[trigger] scores[k]).wf(),
    ensures
        is_ranking(scores@, r@),
{
    let mut r: Vec<(usize, Similarity)> = Vec::new();
    for i in 0..scores.len()
        invariant
            forall|k: int| 0 <= k < scores.len() ==> (#[trigger] scores[k]).wf(),
            r.len() == i,
            forall|k: int| 0 <= k < r.len() ==> (#[trigger] r[k]).0 < i && r[k].1 == scores[r[k].0 as int],
            forall|j: int| 0 <= j < i ==> #[trigger] lists(r@, j),
            forall|p: int, q: int| 0 <= p < q < r.len() ==> precedes(#[trigger] r[p], #[trigger] r[q]),
    {
        let s = scores[i];
        let mut p: usize = 0;
        while p < r.len() && !s.ranks_above(&r[p].1)
            invariant
                p <= r.len(),
                s.wf(),
                forall|k: int| 0 <= k < r.len() ==> (#[trigger] r[k]).1.wf(),
                forall|q: int| 0 <= q < p ==> !s.spec_ranks_above((#[trigger] r[q]).1),
            decreases r.len() - p,
        {
            p = p + 1;
        }
        let ghost old_r = r@;
        let e = (i, s);
        r.insert(p, e);
        proof {
            assert forall|k: int| 0 <= k < r.len() implies (#[trigger] r[k]).0 < i + 1 && r[k].1
                == scores[r[k].0 as int] by {
                if k > p {
                    assert(r[k] == old_r[k - 1]);
                }
            }
            assert forall|j: int| 0 <= j < i + 1 implies #[trigger] lists(r@, j) by {
                if j == i {
                    assert(r[p as int].0 == j);
                } else {
                    assert(lists(old_r, j));
                    let k = choose|k: int| 0 <= k < old_r.len() && (#[trigger] old_r[k]).0 == j;
                    if k < p {
                        assert(r[k].0 == j);
                    } else {
                        assert(r[k + 1].0 == j);
                    }
                }
            }
            assert forall|a: int, b: int| 0 <= a < b < r.len() implies precedes(#[trigger] r[a], #[trigger] r[b]) by {
                if a == p {
                    assert(s.spec_ranks_above(old_r[p as int].1));
                    if b > p + 1 {
                        assert(precedes(old_r[p as int], old_r[b - 1]));
                        lemma_precedes_transitive(e, old_r[p as int], old_r[b - 1]);
                    }
                } else if b == p {
                    assert(!s.spec_ranks_above(old_r[a].1));
                } else if a > p {
                    assert(precedes(old_r[a - 1], old_r[b - 1]));
                } else if b > p {
                    assert(precedes(old_r[a], old_r[b - 1]));
                } else {
                    assert(precedes(old_r[a], old_r[b]));
                }
            }
        }
    }
    r
}

impl Article {
    /// Every article of `xs`, by its position, with its similarity to `self`
    /// on `basis`, from the most similar down, ties in corpus order.
    pub fn suggestions_by(&self, xs: &[Article], basis: Basis) -> (r: Vec<(usize, Similarity)>)
        ensures
            is_ranking(scores_of(*self, xs@, basis), r@),
    {
        let mut scores: Vec<Similarity> = Vec::new();
        for k in 0..xs.len()
            invariant
                scores.len() == k,
                forall|j: int| 0 <= j < k ==> #[trigger] scores[j] == self.spec_simil(xs@[j], basis),
                forall|j: int| 0 <= j < k ==> (#[trigger] scores[j]).wf(),
        {
            scores.push(self.simil_by(&xs[k], basis));
        }
        assert(scores@ =~= scores_of(*self, xs@, basis));
        rank(&scores)
    }

    /// Every article of `xs`, by its position, with its similarity to `self`
    /// by votes, from the most similar down, ties in corpus order.
    pub fn suggestions(&self, xs: &[Article]) -> (r: Vec<(usize, Similarity)>)
        ensures
            is_ranking(scores_of(*self, xs@, Basis::Votes), r@),
    {
        self.suggestions_by(xs, Basis::Votes)
    }
}

} // verus!
