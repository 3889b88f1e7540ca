//! Interning names as small dense identifiers.

use vstd::prelude::*;
use crate::text::chars_of;

verus! {

/// Gives each distinct name an identifier: `0` to the first name it sees,
/// `1` to the next new one, and so on.
pub struct Indexer {
    names: Vec<String>,
}

impl View for Indexer {
    type V = Seq<Seq<char>>;

    /// The names seen so far; a name's identifier is its position.
    closed spec fn view(&self) -> Seq<Seq<char>> {
        self.names@.map_values(|s: String| s@)
    }
}

impl Indexer {
    /// No name is listed twice, and every position fits a `u16`.
    pub open spec fn wf(&self) -> bool {
        &&& self@.no_duplicates()
        &&& self@.len() <= 65536
    }

    /// An indexer that has seen no name yet.
    pub fn new() -> (r: Indexer)
        ensures
            r.wf(),
            r@ == Seq::<Seq<char>>::empty(),
    {
        let r = Indexer { names: Vec::new() };
        assert(r@ =~= Seq::<Seq<char>>::empty());
        r
    }

    /// The identifier of `k`: the one it was given before, or else the
    /// next free one, which `k` now holds.
    pub fn get(&mut self, k: String) -> (r: u16)
        requires
            old(self).wf(),
            old(self)@.contains(k@) || old(self)@.len() < 65536,
        ensures
            final(self).wf(),
            old(self)@.contains(k@) ==> final(self)@ == old(self)@,
            !old(self)@.contains(k@) ==> final(self)@ == old(self)@.push(k@),
            r < final(self)@.len(),
            final(self)@[r as int] == k@,
    {
        let ghost names = self@;
        let mut j: usize = 0;
        while j < self.names.len()
            invariant
                j <= self.names.len(),
                self@ == names,
                self@.len() <= 65536,
                names.no_duplicates(),
                forall|q: int| 0 <= q < j ==> names[q] != k@,
            decreases self.names.len() - j,
        {
            assert(self@[j as int] == self.names@[j as int]@);
            if self.names[j] == k {
                return j as u16;
            }
            j = j + 1;
        }
        let i = self.names.len() as u16;
        self.names.push(k);
        assert(self@ =~= names.push(k@));
        assert(!names.contains(k@));
        i
    }

    /// How many names have identifiers.
    pub fn len(&self) -> (r: usize)
        ensures
            r == self@.len(),
    {
        self.names.len()
    }
}

/// What an indexer that has seen `seen` has seen after being asked for
/// each of `names` in turn.
pub open spec fn interned(seen: Seq<Seq<char>>, names: Seq<Seq<char>>) -> Seq<Seq<char>>
    decreases names.len(),
{
    if names.len() == 0 {
        seen
    } else {
        let s = interned(seen, names.drop_last());
        if s.contains(names.last()) {
            s
        } else {
            s.push(names.last())
        }
    }
}

/// The identifiers that indexer contents `ix` gives to the names in `names`.
pub open spec fn ids(ix: Seq<Seq<char>>, names: Seq<Seq<char>>) -> Set<u16> {
    Set::new(|id: u16| (id as int) < ix.len() && names.contains(ix[id as int]))
}

/// Every name of `names` has been seen by an indexer with contents `ix`.
pub open spec fn all_seen(ix: Seq<Seq<char>>, names: Seq<Seq<char>>) -> bool {
    forall|q: int| 0 <= q < names.len() ==> ix.contains(#[trigger] names[q])
}

/// Asking for `names` adds at most one name per request.
pub proof fn lemma_interned_len(seen: Seq<Seq<char>>, names: Seq<Seq<char>>)
    ensures
        interned(seen, names).len() <= seen.len() + names.len(),
    decreases names.len(),
{
    if names.len() > 0 {
        lemma_interned_len(seen, names.drop_last());
    }
}

/// Asking for more names never leaves fewer names seen.
pub proof fn lemma_interned_grows(seen: Seq<Seq<char>>, names: Seq<Seq<char>>, k: int)
    requires
        0 <= k <= names.len(),
    ensures
        interned(seen, names.take(k)).len() <= interned(seen, names).len(),
    decreases names.len(),
{
    if k < names.len() {
        assert(names.drop_last().take(k) =~= names.take(k));
        lemma_interned_grows(seen, names.drop_last(), k);
    } else {
        assert(names.take(k) =~= names);
    }
}

/// One more name, `t`, given identifier `r`: the identifiers of names that
/// were seen before stay as they were, and `t` adds `r`.
pub proof fn lemma_ids_step(ix: Seq<Seq<char>>, ix2: Seq<Seq<char>>, names: Seq<Seq<char>>, t: Seq<char>, r: u16)
    requires
        ix.no_duplicates(),
        ix2 == ix || (ix2 == ix.push(t) && !ix.contains(t)),
        (r as int) < ix2.len(),
        ix2[r as int] == t,
        all_seen(ix, names),
    ensures
        all_seen(ix2, names.push(t)),
        ids(ix2, names) == ids(ix, names),
        ids(ix2, names.push(t)) == ids(ix, names).insert(r),
{
    assert forall|id: u16| (id as int) < ix.len() implies ix2[id as int] == ix[id as int] by {}
    assert forall|q: int| 0 <= q < names.push(t).len() implies ix2.contains(#[trigger] names.push(t)[q]) by {
        if q < names.len() {
            assert(ix.contains(names[q]));
            let w = choose|w: int| 0 <= w < ix.len() && ix[w] == names[q];
            assert(ix2[w] == names[q]);
        } else {
            assert(ix2[r as int] == t);
        }
    }
    assert forall|id: u16| #[trigger] ids(ix2, names).contains(id) == ids(ix, names).contains(id) by {
        if (id as int) == ix.len() && ix2.len() > ix.len() {
            if names.contains(t) {
                let q = choose|q: int| 0 <= q < names.len() && names[q] == t;
                assert(ix.contains(names[q]));
            }
        }
    }
    assert(ids(ix2, names) =~= ids(ix, names));
    assert forall|id: u16| #[trigger] ids(ix2, names.push(t)).contains(id) == ids(ix, names).insert(r).contains(id) by {
        if (id as int) < ix2.len() {
            assert(names.push(t).contains(ix2[id as int]) == (names.contains(ix2[id as int]) || ix2[id as int] == t)) by {
                if names.push(t).contains(ix2[id as int]) {
                    let q = choose|q: int| 0 <= q < names.push(t).len() && names.push(t)[q] == ix2[id as int];
                    if q < names.len() {
                        assert(names[q] == ix2[id as int]);
                    }
                }
                if names.contains(ix2[id as int]) {
                    let q = choose|q: int| 0 <= q < names.len() && names[q] == ix2[id as int];
                    assert(names.push(t)[q] == ix2[id as int]);
                }
                if ix2[id as int] == t {
                    assert(names.push(t)[names.len() as int] == t);
                }
            }
            if ix2[id as int] == t && id != r {
                if ix2 == ix {
                    assert(ix[id as int] == ix[r as int]);
                } else {
                    if (id as int) < ix.len() {
                        assert(ix.contains(t));
                    } else {
                        assert((r as int) < ix.len());
                        assert(ix.contains(t));
                    }
                }
            }
        }
        if id == r {
            assert(names.push(t)[names.len() as int] == t);
        }
    }
    assert(ids(ix2, names.push(t)) =~= ids(ix, names).insert(r));
}

/// Whether `a` and `b` are the same text.
pub fn same_text(a: &str, b: &str) -> (r: bool)
    ensures
        r == (a@ == b@),
{
    let x = chars_of(a);
    let y = chars_of(b);
    if x.len() != y.len() {
        return false;
    }
    let mut i: usize = 0;
    while i < x.len()
        invariant
            x.len() == y.len(),
            x@ == a@,
            y@ == b@,
            i <= x.len(),
            forall|q: int| 0 <= q < i ==> x@[q] == y@[q],
        decreases x.len() - i,
    {
        if x[i] != y[i] {
            assert(a@ != b@) by {
                if a@ == b@ {
                    assert(x@[i as int] == y@[i as int]);
                }
            }
            return false;
        }
        i = i + 1;
    }
    assert(x@ =~= y@);
    true
}

} // verus!
