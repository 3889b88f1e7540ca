//! Suggestion lists: for each article, the most similar other articles.

use vstd::prelude::*;
use crate::article::{Article, Basis};
use crate::rank::{is_ranking, lemma_ranking_unique, scores_of};
use crate::similarity::Similarity;

verus! {

/// The longest suggestion list.
pub const SUGGESTION_CAP: usize = 20;

/// The suggestion list of one article: its number `i`, its title `s`, and
/// the numbers of related articles with their scores, most similar first.
#[derive(Debug)]
pub struct Suggestions {
    pub i: u16,
    pub s: String,
    pub xs: Vec<(u16, Similarity)>,
}

/// The entries of ranking `rk` over corpus `xs`, as (article number, score),
/// without those whose number is `num`.
pub open spec fn others(xs: Seq<Article>, rk: Seq<(usize, Similarity)>, num: u16) -> Seq<(u16, Similarity)>
    decreases rk.len(),
{
    if rk.len() == 0 {
        Seq::empty()
    } else {
        let init = others(xs, rk.drop_last(), num);
        let t = xs[rk.last().0 as int].number;
        if t == num {
            init
        } else {
            init.push((t, rk.last().1))
        }
    }
}

/// The first `SUGGESTION_CAP` entries of `s`, or all of them if fewer.
pub open spec fn capped(s: Seq<(u16, Similarity)>) -> Seq<(u16, Similarity)> {
    if s.len() <= SUGGESTION_CAP {
        s
    } else {
        s.take(SUGGESTION_CAP as int)
    }
}

/// `r` is the suggestion list of `x` within corpus `xs` on `basis`: the
/// ranking of `xs` by similarity to `x`, without `x`'s own number, cut to
/// `SUGGESTION_CAP` entries.
pub open spec fn suggestion_for(xs: Seq<Article>, x: Article, basis: Basis, r: Suggestions) -> bool {
    &&& r.i == x.number
    &&& r.s@ == x.title@
    &&& exists|rk: Seq<(usize, Similarity)>| #[trigger] is_ranking(scores_of(x, xs, basis), rk) && r.xs@
        == capped(others(xs, rk, x.number))
}

/// No entry of `others(xs, rk, num)` has the number `num`.
pub proof fn lemma_others_exclude(xs: Seq<Article>, rk: Seq<(usize, Similarity)>, num: u16)
    ensures
        forall|k: int| 0 <= k < others(xs, rk, num).len() ==> (#[trigger] others(xs, rk, num)[k]).0 != num,
    decreases rk.len(),
{
    if rk.len() > 0 {
        let init = others(xs, rk.drop_last(), num);
        lemma_others_exclude(xs, rk.drop_last(), num);
        assert forall|k: int| 0 <= k < others(xs, rk, num).len() implies (#[trigger] others(
            xs,
            rk,
            num,
        )[k]).0 != num by {
            if k < init.len() {
                assert(others(xs, rk, num)[k] == init[k]);
            }
        }
    }
}

/// The suggestion list of `x` within `xs` on `basis`.
pub fn suggest_by(xs: &[Article], x: &Article, basis: Basis) -> (r: Suggestions)
    ensures
        suggestion_for(xs@, *x, basis, r),
        r.xs.len() <= SUGGESTION_CAP,
        forall|k: int| 0 <= k < r.xs.len() ==> (#[trigger] r.xs[k]).0 != x.number,
{
    let ranked = x.suggestions_by(xs, basis);
    let ghost rk = ranked@;
    let mut out: Vec<(u16, Similarity)> = Vec::new();
    for k in 0..ranked.len()
        invariant
            rk == ranked@,
            is_ranking(scores_of(*x, xs@, basis), rk),
            out@ == capped(others(xs@, rk.take(k as int), x.number)),
    {
        let (at, score) = ranked[k];
        let t = xs[at].number;
        let ghost before = others(xs@, rk.take(k as int), x.number);
        assert(rk.take(k + 1).drop_last() =~= rk.take(k as int));
        if t != x.number && out.len() < SUGGESTION_CAP {
            out.push((t, score));
        }
        proof {
            let after = others(xs@, rk.take(k + 1), x.number);
            if t == x.number {
                assert(after == before);
            } else {
                assert(after == before.push((t, score)));
                if before.len() >= SUGGESTION_CAP {
                    assert(capped(after) =~= capped(before));
                }
            }
        }
    }
    assert(rk.take(rk.len() as int) =~= rk);
    proof {
        lemma_others_exclude(xs@, rk, x.number);
    }
    Suggestions { i: x.number, s: x.title.clone(), xs: out }
}

/// The suggestion list of `x` within `xs`, by votes.
pub fn suggest(xs: &[Article], x: &Article) -> (r: Suggestions)
    ensures
        suggestion_for(xs@, *x, Basis::Votes, r),
        r.xs.len() <= SUGGESTION_CAP,
        forall|k: int| 0 <= k < r.xs.len() ==> (#[trigger] r.xs[k]).0 != x.number,
{
    suggest_by(xs, x, Basis::Votes)
}

/// `r` holds the suggestion list of each article of `xs` on `basis`, in
/// corpus order.
pub open spec fn suggests_for(xs: Seq<Article>, basis: Basis, r: Seq<Suggestions>) -> bool {
    &&& r.len() == xs.len()
    &&& forall|k: int| 0 <= k < xs.len() ==> suggestion_for(xs, xs[k], basis, #[trigger] r[k])
}

/// The suggestion list of every article of `articles` on `basis`, in corpus
/// order.
pub fn suggests_by(articles: &[Article], basis: Basis) -> (r: Vec<Suggestions>)
    ensures
        suggests_for(articles@, basis, r@),
        forall|k: int| 0 <= k < r.len() ==> (#[trigger] r[k]).xs.len() <= SUGGESTION_CAP,
        forall|k: int, j: int|
            0 <= k < r.len() && 0 <= j < r[k].xs.len() ==> (#[trigger] r[k].xs[j]).0 != articles[k].number,
{
    let mut r: Vec<Suggestions> = Vec::new();
    for k in 0..articles.len()
        invariant
            r.len() == k,
            forall|j: int| 0 <= j < k ==> suggestion_for(articles@, articles@[j], basis, #[trigger] r@[j]),
            forall|j: int| 0 <= j < k ==> (#[trigger] r[j]).xs.len() <= SUGGESTION_CAP,
            forall|j: int, m: int|
                0 <= j < k && 0 <= m < r[j].xs.len() ==> (#[trigger] r[j].xs[m]).0 != articles[j].number,
    {
        r.push(suggest_by(articles, &articles[k], basis));
    }
    r
}

/// The suggestion list of every article of `articles`, by votes, in corpus
/// order.
pub fn suggests(articles: &[Article]) -> (r: Vec<Suggestions>)
    ensures
        suggests_for(articles@, Basis::Votes, r@),
        forall|k: int| 0 <= k < r.len() ==> (#[trigger] r[k]).xs.len() <= SUGGESTION_CAP,
        forall|k: int, j: int|
            0 <= k < r.len() && 0 <= j < r[k].xs.len() ==> (#[trigger] r[k].xs[j]).0 != articles[k].number,
{
    suggests_by(articles, Basis::Votes)
}

/// Building the suggestion lists of one corpus twice gives the same lists:
/// the same numbers, the same titles, the same entries in the same order.
pub proof fn lemma_suggests_deterministic(xs: Seq<Article>, basis: Basis, r1: Seq<Suggestions>, r2: Seq<Suggestions>)
    requires
        suggests_for(xs, basis, r1),
        suggests_for(xs, basis, r2),
    ensures
        r1.len() == r2.len(),
        forall|k: int|
            0 <= k < r1.len() ==> (#[trigger] r1[k]).i == r2[k].i && r1[k].s@ == r2[k].s@ && r1[k].xs@
                == r2[k].xs@,
{
    assert forall|k: int| 0 <= k < r1.len() implies (#[trigger] r1[k]).i == r2[k].i && r1[k].s@
        == r2[k].s@ && r1[k].xs@ == r2[k].xs@ by {
        assert(suggestion_for(xs, xs[k], basis, r1[k]));
        assert(suggestion_for(xs, xs[k], basis, r2[k]));
        let sc = scores_of(xs[k], xs, basis);
        let rk1 = choose|rk: Seq<(usize, Similarity)>| #[trigger] is_ranking(sc, rk) && r1[k].xs@
            == capped(others(xs, rk, xs[k].number));
        let rk2 = choose|rk: Seq<(usize, Similarity)>| #[trigger] is_ranking(sc, rk) && r2[k].xs@
            == capped(others(xs, rk, xs[k].number));
        lemma_ranking_unique(sc, rk1, rk2);
    }
}

} // verus!
