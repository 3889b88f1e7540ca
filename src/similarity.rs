//! The signed overlap score between two articles.
//!
//! Each side is a pair of identifier sets: a positive one and a negative one
//! (upvoters and downvoters, or tags and nothing). With `U(x)` the union of
//! the two sets of `x`,
//!
//! ```text
//! agree  = |pos(a) ∩ pos(b)|
//! oppose = |(pos(a) ∩ neg(b)) ∪ (neg(a) ∩ pos(b))|
//! score  = (agree - oppose) / sqrt(|U(a)| * |U(b)|)
//! ```
//!
//! The score is kept exactly, as the pair `(agree - oppose, |U(a)| * |U(b)|)`;
//! where either union is empty it is `Incomparable`.

use std::collections::HashSet;
use vstd::prelude::*;
use crate::members::{lemma_prefix_step, lemma_u16_set_len, union_members};

verus! {

broadcast use vstd::std_specs::hash::group_hash_axioms;

/// A similarity score: `Numeric { net, norm }` stands for the real number
/// `net / sqrt(norm)`; `Incomparable` is the score of a pair in which one
/// side has no identifiers at all.
#[derive(Clone, Copy, Debug, PartialEq, Eq, Structural)]
pub enum Similarity {
    Numeric { net: i64, norm: u64 },
    Incomparable,
}

/// The identifiers of a side: its positive and negative ones together.
pub open spec fn voters(pos: Set<u16>, neg: Set<u16>) -> Set<u16> {
    pos.union(neg)
}

/// Identifiers positive on both sides.
pub open spec fn agreeing(ap: Set<u16>, bp: Set<u16>) -> Set<u16> {
    ap.intersect(bp)
}

/// Identifiers positive on one side and negative on the other, each once.
pub open spec fn opposing(ap: Set<u16>, an: Set<u16>, bp: Set<u16>, bn: Set<u16>) -> Set<u16> {
    ap.intersect(bn).union(an.intersect(bp))
}

/// The score of side `(ap, an)` against side `(bp, bn)`.
pub open spec fn signed_similarity(ap: Set<u16>, an: Set<u16>, bp: Set<u16>, bn: Set<u16>) -> Similarity {
    let na = voters(ap, an).len();
    let nb = voters(bp, bn).len();
    if na == 0 || nb == 0 {
        Similarity::Incomparable
    } else {
        Similarity::Numeric {
            net: (agreeing(ap, bp).len() - opposing(ap, an, bp, bn).len()) as i64,
            norm: (na * nb) as u64,
        }
    }
}

impl Similarity {
    /// A numeric score has a positive norm of at most `2^32`, and
    /// `net^2 <= norm`, so that the value it stands for lies in `[-1, 1]`.
    pub open spec fn wf(self) -> bool {
        match self {
            Similarity::Numeric { net, norm } => 0 < norm <= 0x1_0000_0000 && net * net <= norm,
            Similarity::Incomparable => true,
        }
    }
}

/// Every part of the score is a finite set with at most 65536 members, and
/// `|net| <= min(|U(a)|, |U(b)|)`.
pub proof fn lemma_similarity_parts(ap: Set<u16>, an: Set<u16>, bp: Set<u16>, bn: Set<u16>)
    requires
        ap.finite(),
        an.finite(),
        bp.finite(),
        bn.finite(),
    ensures
        voters(ap, an).finite(),
        voters(bp, bn).finite(),
        agreeing(ap, bp).finite(),
        opposing(ap, an, bp, bn).finite(),
        voters(ap, an).len() <= 65536,
        voters(bp, bn).len() <= 65536,
        agreeing(ap, bp).len() <= voters(ap, an).len(),
        agreeing(ap, bp).len() <= voters(bp, bn).len(),
        opposing(ap, an, bp, bn).len() <= voters(ap, an).len(),
        opposing(ap, an, bp, bn).len() <= voters(bp, bn).len(),
{
    let ua = voters(ap, an);
    let ub = voters(bp, bn);
    lemma_u16_set_len(ua);
    lemma_u16_set_len(ub);
    assert(agreeing(ap, bp).subset_of(ua));
    assert(agreeing(ap, bp).subset_of(ub));
    assert(opposing(ap, an, bp, bn).subset_of(ua));
    assert(opposing(ap, an, bp, bn).subset_of(ub));
    vstd::set_lib::lemma_len_subset(agreeing(ap, bp), ua);
    vstd::set_lib::lemma_len_subset(agreeing(ap, bp), ub);
    vstd::set_lib::lemma_len_subset(opposing(ap, an, bp, bn), ua);
    vstd::set_lib::lemma_len_subset(opposing(ap, an, bp, bn), ub);
}

/// Any score of two finite sides is well formed: its norm is positive and
/// fits, and `net^2 <= norm`, so the value it stands for lies in `[-1, 1]`.
pub proof fn lemma_similarity_bounded(ap: Set<u16>, an: Set<u16>, bp: Set<u16>, bn: Set<u16>)
    requires
        ap.finite(),
        an.finite(),
        bp.finite(),
        bn.finite(),
    ensures
        signed_similarity(ap, an, bp, bn).wf(),
        signed_similarity(ap, an, bp, bn) matches Similarity::Numeric { net, norm } ==> {
            &&& net == agreeing(ap, bp).len() - opposing(ap, an, bp, bn).len()
            &&& norm == voters(ap, an).len() * voters(bp, bn).len()
        },
{
    lemma_similarity_parts(ap, an, bp, bn);
    let na = voters(ap, an).len() as int;
    let nb = voters(bp, bn).len() as int;
    let g = agreeing(ap, bp).len() as int;
    let o = opposing(ap, an, bp, bn).len() as int;
    if na > 0 && nb > 0 {
        let d = g - o;
        assert(-na <= d <= na && -nb <= d <= nb);
        assert(d * d <= na * nb) by (nonlinear_arith)
            requires
                -na <= d <= na,
                -nb <= d <= nb,
                na > 0,
                nb > 0,
        {
            if d >= 0 {
                assert(d * d <= na * d);
                assert(na * d <= na * nb);
            } else {
                assert(d * d <= na * (-d));
                assert(na * (-d) <= na * nb);
            }
        }
        assert(na * nb <= 65536 * 65536) by (nonlinear_arith)
            requires
                0 < na <= 65536,
                0 < nb <= 65536,
        ;
        assert(0 < na * nb) by (nonlinear_arith)
            requires
                0 < na,
                0 < nb,
        ;
        let s = signed_similarity(ap, an, bp, bn);
        assert((d as i64) as int == d);
        assert(((na * nb) as u64) as int == na * nb);
        assert(s == Similarity::Numeric { net: d as i64, norm: (na * nb) as u64 });
    }
}

/// The score of side `(ap, an)` against side `(bp, bn)`.
pub fn signed_score(ap: &HashSet<u16>, an: &HashSet<u16>, bp: &HashSet<u16>, bn: &HashSet<u16>) -> (r:
    Similarity)
    ensures
        r == signed_similarity(ap@, an@, bp@, bn@),
        r.wf(),
{
    let ua = union_members(ap, an);
    let nb = union_members(bp, bn).len();
    proof {
        lemma_similarity_parts(ap@, an@, bp@, bn@);
        lemma_similarity_bounded(ap@, an@, bp@, bn@);
    }
    if ua.len() == 0 || nb == 0 {
        return Similarity::Incomparable;
    }
    let ghost g = agreeing(ap@, bp@);
    let ghost o = opposing(ap@, an@, bp@, bn@);
    let mut agree: u32 = 0;
    let mut oppose: u32 = 0;
    assert(ua@.take(0).to_set().intersect(g) =~= Set::empty());
    assert(ua@.take(0).to_set().intersect(o) =~= Set::empty());
    for i in 0..ua.len()
        invariant
            ua@.no_duplicates(),
            ua.len() <= 65536,
            agree <= i,
            oppose <= i,
            agree == ua@.take(i as int).to_set().intersect(g).len(),
            oppose == ua@.take(i as int).to_set().intersect(o).len(),
            g == agreeing(ap@, bp@),
            o == opposing(ap@, an@, bp@, bn@),
    {
        let x = ua[i];
        proof {
            lemma_prefix_step(ua@, i as int, g);
            lemma_prefix_step(ua@, i as int, o);
        }
        let xp = ap.contains(&x);
        let xn = an.contains(&x);
        let yp = bp.contains(&x);
        let yn = bn.contains(&x);
        assert(g.contains(x) == (xp && yp));
        assert(o.contains(x) == ((xp && yn) || (xn && yp)));
        if xp && yp {
            agree = agree + 1;
        }
        if (xp && yn) || (xn && yp) {
            oppose = oppose + 1;
        }
    }
    proof {
        assert(ua@.take(ua@.len() as int) =~= ua@);
        assert(ua@.to_set().intersect(g) =~= g);
        assert(ua@.to_set().intersect(o) =~= o);
    }
    let net = agree as i64 - oppose as i64;
    let na = ua.len() as u64;
    let nb = nb as u64;
    assert(na * nb <= 0x1_0000_0000) by (nonlinear_arith)
        requires
            na <= 65536,
            nb <= 65536,
    ;
    Similarity::Numeric { net, norm: na * nb }
}

} // verus!
