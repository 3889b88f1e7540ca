//! Articles, and the similarity between two of them.

use std::collections::HashSet;
use vstd::prelude::*;
use crate::similarity::{Similarity, agreeing, lemma_similarity_bounded, opposing, signed_score, signed_similarity, voters};

verus! {

broadcast use vstd::std_specs::hash::group_hash_axioms;

/// A wiki article: its catalogue number, its title, and the identifiers of
/// its tags, its upvoters and its downvoters.
#[derive(Debug)]
pub struct Article {
    pub number: u16,
    pub title: String,
    pub tags: HashSet<u16>,
    pub up: HashSet<u16>,
    pub down: HashSet<u16>,
}

/// Which identifier sets two articles are compared by: their votes
/// (upvoters positive, downvoters negative) or their tags (all positive).
#[derive(Clone, Copy, Debug, PartialEq, Eq, Structural)]
pub enum Basis {
    Votes,
    Tags,
}

impl Article {
    /// The sets of an article are finite.
    pub open spec fn wf(self) -> bool {
        &&& self.tags@.finite()
        &&& self.up@.finite()
        &&& self.down@.finite()
    }

    /// The identifiers that count for the article on `basis`.
    pub open spec fn positive(self, basis: Basis) -> Set<u16> {
        match basis {
            Basis::Votes => self.up@,
            Basis::Tags => self.tags@,
        }
    }

    /// The identifiers that count against the article on `basis`.
    pub open spec fn negative(self, basis: Basis) -> Set<u16> {
        match basis {
            Basis::Votes => self.down@,
            Basis::Tags => Set::empty(),
        }
    }

    /// The similarity of `self` to `other` on `basis`.
    pub open spec fn spec_simil(self, other: Article, basis: Basis) -> Similarity {
        signed_similarity(
            self.positive(basis),
            self.negative(basis),
            other.positive(basis),
            other.negative(basis),
        )
    }

    /// The similarity of `self` to `other` on `basis`.
    pub fn simil_by(&self, other: &Article, basis: Basis) -> (r: Similarity)
        ensures
            r == self.spec_simil(*other, basis),
            r.wf(),
    {
        match basis {
            Basis::Votes => signed_score(&self.up, &self.down, &other.up, &other.down),
            Basis::Tags => {
                let none: HashSet<u16> = HashSet::new();
                signed_score(&self.tags, &none, &other.tags, &none)
            },
        }
    }

    /// The similarity of `self` to `other` by their votes.
    pub fn simil(&self, other: &Article) -> (r: Similarity)
        ensures
            r == self.spec_simil(*other, Basis::Votes),
            r.wf(),
    {
        self.simil_by(other, Basis::Votes)
    }
}

/// An article with identifiers on `basis`, none of them negative, is
/// exactly as similar to itself as can be: its score stands for 1.
pub proof fn lemma_self_similarity(a: Article, basis: Basis)
    requires
        a.wf(),
        a.positive(basis).len() > 0,
        a.negative(basis) == Set::<u16>::empty(),
    ensures
        a.spec_simil(a, basis) matches Similarity::Numeric { net, norm } && net > 0 && net * net
            == norm,
{
    let p = a.positive(basis);
    let n = a.negative(basis);
    assert(voters(p, n) =~= p);
    assert(agreeing(p, p) =~= p);
    assert(opposing(p, n, p, n) =~= Set::empty());
    lemma_similarity_bounded(p, n, p, n);
}

/// The similarity of `a` to `b` is the similarity of `b` to `a`.
pub proof fn lemma_similarity_symmetric(a: Article, b: Article, basis: Basis)
    ensures
        a.spec_simil(b, basis) == b.spec_simil(a, basis),
{
    let (ap, an, bp, bn) = (a.positive(basis), a.negative(basis), b.positive(basis), b.negative(basis));
    assert(agreeing(ap, bp) =~= agreeing(bp, ap));
    assert(opposing(ap, an, bp, bn) =~= opposing(bp, bn, ap, an));
    let (x, y) = (voters(ap, an).len(), voters(bp, bn).len());
    assert(x * y == y * x) by (nonlinear_arith);
}

/// Every score between two articles is well formed: numeric scores satisfy
/// `net^2 <= norm`, so the value they stand for lies in `[-1, 1]`.
pub proof fn lemma_similarity_in_range(a: Article, b: Article, basis: Basis)
    requires
        a.wf(),
        b.wf(),
    ensures
        a.spec_simil(b, basis).wf(),
        a.spec_simil(b, basis) matches Similarity::Numeric { net, norm } ==> norm > 0 && net * net
            <= norm,
{
    lemma_similarity_bounded(a.positive(basis), a.negative(basis), b.positive(basis), b.negative(basis));
}

} // verus!
