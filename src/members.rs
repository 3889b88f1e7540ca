//! Sets of small identifiers: enumerating them and bounding their size.

use std::collections::HashSet;
use vstd::prelude::*;
use vstd::std_specs::hash::spec_hash_keys_iter;
use vstd::std_specs::iter::IteratorSpec;
use vstd::set_lib::{lemma_int_range, lemma_len_subset, lemma_map_size, set_int_range};

verus! {

broadcast use {vstd::std_specs::hash::group_hash_axioms, vstd::seq::Seq::lemma_push_to_set_commute};

/// A finite set of `u16` identifiers has at most 65536 members.
pub proof fn lemma_u16_set_len(s: Set<u16>)
    requires
        s.finite(),
    ensures
        s.len() <= 65536,
{
    let f = |x: u16| x as int;
    let t = s.map(f);
    assert(vstd::relations::injective_on(f, s));
    lemma_map_size(s, t, f);
    lemma_int_range(0, 65536);
    assert(t.subset_of(set_int_range(0, 65536)));
    lemma_len_subset(t, set_int_range(0, 65536));
}

/// Extending a duplicate-free prefix by one element adds that element to
/// the prefix's members, and to their part inside `a` exactly when it is in `a`.
pub proof fn lemma_prefix_step(s: Seq<u16>, i: int, a: Set<u16>)
    requires
        s.no_duplicates(),
        0 <= i < s.len(),
    ensures
        s.take(i + 1).to_set().intersect(a).finite(),
        s.take(i).to_set().intersect(a).finite(),
        s.take(i + 1).to_set().intersect(a).len() == s.take(i).to_set().intersect(a).len() + (
        if a.contains(s[i]) {
            1int
        } else {
            0int
        }),
{
    let t = s.take(i).to_set();
    assert(s.take(i + 1) =~= s.take(i).push(s[i]));
    assert(s.take(i + 1).to_set() =~= t.insert(s[i]));
    assert(!t.contains(s[i])) by {
        if t.contains(s[i]) {
            let j = choose|j: int| 0 <= j < i && s.take(i)[j] == s[i];
            assert(s[j] == s[i]);
        }
    }
    assert(t.finite()) by {
        s.take(i).lemma_cardinality_of_set();
    }
    if a.contains(s[i]) {
        assert(t.insert(s[i]).intersect(a) =~= t.intersect(a).insert(s[i]));
    } else {
        assert(t.insert(s[i]).intersect(a) =~= t.intersect(a));
    }
}

/// The members of `s`, each once, in the set's iteration order.
pub fn members(s: &HashSet<u16>) -> (r: Vec<u16>)
    ensures
        r@.no_duplicates(),
        r@.to_set() == s@,
        s@.finite(),
        r@.len() == s@.len(),
        r@.len() <= 65536,
{
    let mut r: Vec<u16> = Vec::new();
    for x in it: s.iter()
        invariant
            r@ == it.seq().take(it.index() as int).unref(),
            it.seq() == spec_hash_keys_iter(s).remaining(),
    {
        r.push(*x);
        assert(it.seq().take(it.index() + 1).unref() =~= r@);
    }
    assert(r@ =~= spec_hash_keys_iter(s).remaining().unref());
    proof {
        r@.unique_seq_to_set();
        lemma_u16_set_len(s@);
    }
    r
}

/// The members of `a` or `b`, each once.
pub fn union_members(a: &HashSet<u16>, b: &HashSet<u16>) -> (r: Vec<u16>)
    ensures
        r@.no_duplicates(),
        r@.to_set() == a@.union(b@),
        a@.finite(),
        b@.finite(),
        a@.union(b@).finite(),
        r@.len() == a@.union(b@).len(),
        r@.len() <= 65536,
{
    let mut r = members(a);
    let rest = members(b);
    let ghost first = r@;
    for i in 0..rest.len()
        invariant
            first.no_duplicates(),
            first.to_set() == a@,
            rest@.no_duplicates(),
            rest@.to_set() == b@,
            r@.no_duplicates(),
            r@.to_set() == a@.union(rest@.take(i as int).to_set()),
    {
        let x = rest[i];
        let ghost before = r@;
        proof {
            assert(rest@.take(i + 1) =~= rest@.take(i as int).push(x));
            assert(rest@.take(i as int).push(x).to_set() =~= rest@.take(i as int).to_set().insert(x));
        }
        if !a.contains(&x) {
            r.push(x);
            proof {
                assert(!before.to_set().contains(x)) by {
                    assert(rest@.take(i as int).to_set().contains(x) ==> exists|j: int|
                        0 <= j < i && rest@[j] == x && rest@[i as int] == x);
                }
                assert(r@.to_set() =~= before.to_set().insert(x));
                assert forall|p: int, q: int| 0 <= p < q < r@.len() implies r@[p] != r@[q] by {
                    if q == r@.len() - 1 {
                        assert(before.to_set().contains(before[p]));
                    }
                }
            }
        }
        assert(r@.to_set() =~= a@.union(rest@.take(i + 1).to_set()));
    }
    assert(rest@.take(rest@.len() as int) =~= rest@);
    proof {
        r@.unique_seq_to_set();
        lemma_u16_set_len(r@.to_set());
    }
    r
}

} // verus!
