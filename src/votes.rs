//! Reading who voted which way from a page's rating list.

use std::collections::HashSet;
use vstd::prelude::*;
use crate::indexer::{Indexer, all_seen, ids, interned, lemma_ids_step, lemma_interned_grows};
use crate::tags::texts_of;
use crate::text::{chars_of, find_chars, find_from};

verus! {

broadcast use vstd::std_specs::hash::group_hash_axioms;

/// The vote that one link text of a rating list records: the voter's name
/// (what precedes the first `<\/a>`, if anything does) and whether the rest
/// marks an upvote (`+`) or else a downvote (`-`). `None` where the text
/// records no vote.
pub open spec fn vote_of(text: Seq<char>) -> Option<(Seq<char>, bool)> {
    match find_from(text, "<\\/a>"@, 0) {
        None => None,
        Some(i) => {
            let after = text.subrange(i, text.len() as int);
            if i == 0 {
                None
            } else if after.contains('+') {
                Some((text.take(i), true))
            } else if after.contains('-') {
                Some((text.take(i), false))
            } else {
                None
            }
        },
    }
}

/// The names of the voters that `texts` record, in order, with repeats.
pub open spec fn voter_names(texts: Seq<Seq<char>>) -> Seq<Seq<char>>
    decreases texts.len(),
{
    if texts.len() == 0 {
        Seq::empty()
    } else {
        let init = voter_names(texts.drop_last());
        match vote_of(texts.last()) {
            Some((n, _)) => init.push(n),
            None => init,
        }
    }
}

/// The names of the voters that `texts` record as voting `up` (or, with
/// `up` false, as voting down), in order, with repeats.
pub open spec fn voted(texts: Seq<Seq<char>>, up: bool) -> Seq<Seq<char>>
    decreases texts.len(),
{
    if texts.len() == 0 {
        Seq::empty()
    } else {
        let init = voted(texts.drop_last(), up);
        match vote_of(texts.last()) {
            Some((n, u)) => if u == up {
                init.push(n)
            } else {
                init
            },
            None => init,
        }
    }
}

/// No more votes are recorded than there are texts.
pub proof fn lemma_voter_names_len(texts: Seq<Seq<char>>)
    ensures
        voter_names(texts).len() <= texts.len(),
    decreases texts.len(),
{
    if texts.len() > 0 {
        lemma_voter_names_len(texts.drop_last());
    }
}

/// The vote that one link text records.
pub fn read_vote(text: &str) -> (r: Option<(String, bool)>)
    ensures
        match vote_of(text@) {
            Some((n, u)) => r matches Some((m, v)) && m@ == n && v == u,
            None => r is None,
        },
{
    let s = chars_of(text);
    let close = chars_of("<\\/a>");
    match find_chars(&s, &close, 0) {
        None => None,
        Some(i) => {
            if i == 0 {
                return None;
            }
            let ghost after = s@.subrange(i as int, s@.len() as int);
            let mut plus = false;
            let mut minus = false;
            let mut k = i;
            while k < s.len()
                invariant
                    i <= k <= s.len(),
                    after == s@.subrange(i as int, s@.len() as int),
                    plus == exists|q: int| i <= q < k && s@[q] == '+',
                    minus == exists|q: int| i <= q < k && s@[q] == '-',
                decreases s.len() - k,
            {
                if s[k] == '+' {
                    plus = true;
                }
                if s[k] == '-' {
                    minus = true;
                }
                k = k + 1;
            }
            proof {
                assert(plus == after.contains('+')) by {
                    if plus {
                        let q = choose|q: int| i <= q < k && s@[q] == '+';
                        assert(after[q - i] == '+');
                    }
                    if after.contains('+') {
                        let q = choose|q: int| 0 <= q < after.len() && after[q] == '+';
                        assert(s@[q + i] == '+');
                    }
                }
                assert(minus == after.contains('-')) by {
                    if minus {
                        let q = choose|q: int| i <= q < k && s@[q] == '-';
                        assert(after[q - i] == '-');
                    }
                    if after.contains('-') {
                        let q = choose|q: int| 0 <= q < after.len() && after[q] == '-';
                        assert(s@[q + i] == '-');
                    }
                }
            }
            if plus || minus {
                Some((text.substring_char(0, i).to_owned(), plus))
            } else {
                None
            }
        },
    }
}

/// The voter names of a prefix of texts are a prefix of the voter names.
proof fn lemma_voter_names_prefix(texts: Seq<Seq<char>>, k: int)
    requires
        0 <= k <= texts.len(),
    ensures
        voter_names(texts.take(k)).len() <= voter_names(texts).len(),
        voter_names(texts).take(voter_names(texts.take(k)).len() as int) == voter_names(texts.take(k)),
    decreases texts.len(),
{
    if k < texts.len() {
        assert(texts.drop_last().take(k) =~= texts.take(k));
        lemma_voter_names_prefix(texts.drop_last(), k);
        let a = voter_names(texts.drop_last());
        let b = voter_names(texts.take(k));
        if let Some((n, _)) = vote_of(texts.last()) {
            assert(a.push(n).take(b.len() as int) =~= a.take(b.len() as int));
        }
    } else {
        assert(texts.take(k) =~= texts);
        assert(voter_names(texts).take(voter_names(texts).len() as int) =~= voter_names(texts));
    }
}

/// Every name voted either way is a voter name.
proof fn lemma_voted_are_voters(texts: Seq<Seq<char>>, up: bool, ix: Seq<Seq<char>>)
    requires
        all_seen(ix, voter_names(texts)),
    ensures
        all_seen(ix, voted(texts, up)),
    decreases texts.len(),
{
    if texts.len() > 0 {
        let v = voter_names(texts);
        let init = voter_names(texts.drop_last());
        assert(all_seen(ix, init)) by {
            assert forall|q: int| 0 <= q < init.len() implies ix.contains(#[trigger] init[q]) by {
                assert(v[q] == init[q]);
            }
        }
        lemma_voted_are_voters(texts.drop_last(), up, ix);
        let w = voted(texts, up);
        let winit = voted(texts.drop_last(), up);
        assert forall|q: int| 0 <= q < w.len() implies ix.contains(#[trigger] w[q]) by {
            if q < winit.len() {
                assert(w[q] == winit[q]);
            } else {
                assert(v[v.len() - 1] == w[q]);
            }
        }
    }
}

/// The identifiers of those who voted up and of those who voted down, from
/// the link texts `texts` of a page's rating list; new voters get new
/// identifiers from `users`.
pub fn parse_votes(users: &mut Indexer, texts: &Vec<String>) -> (r: (HashSet<u16>, HashSet<u16>))
    requires
        old(users).wf(),
        interned(old(users)@, voter_names(texts_of(texts@))).len() <= 65536,
    ensures
        final(users).wf(),
        final(users)@ == interned(old(users)@, voter_names(texts_of(texts@))),
        r.0@ == ids(final(users)@, voted(texts_of(texts@), true)),
        r.1@ == ids(final(users)@, voted(texts_of(texts@), false)),
{
    let ghost all = voter_names(texts_of(texts@));
    let mut up: HashSet<u16> = HashSet::new();
    let mut down: HashSet<u16> = HashSet::new();
    assert(texts_of(texts@.take(0)) =~= Seq::empty());
    assert(ids(users@, Seq::empty()) =~= Set::empty());
    for k in 0..texts.len()
        invariant
            users.wf(),
            all == voter_names(texts_of(texts@)),
            interned(old(users)@, all).len() <= 65536,
            users@ == interned(old(users)@, voter_names(texts_of(texts@.take(k as int)))),
            up@ == ids(users@, voted(texts_of(texts@.take(k as int)), true)),
            down@ == ids(users@, voted(texts_of(texts@.take(k as int)), false)),
            all_seen(users@, voter_names(texts_of(texts@.take(k as int)))),
    {
        let ghost t = texts_of(texts@.take(k as int));
        let ghost t2 = texts_of(texts@.take(k + 1));
        let ghost ix = users@;
        assert(t2 =~= t.push(texts@[k as int]@));
        assert(t2.drop_last() =~= t);
        proof {
            lemma_voted_are_voters(t, true, ix);
            lemma_voted_are_voters(t, false, ix);
        }
        match read_vote(texts[k].as_str()) {
            Some((name, is_up)) => {
                proof {
                    assert(texts_of(texts@).take(k + 1) =~= t2);
                    lemma_voter_names_prefix(texts_of(texts@), k + 1);
                    lemma_interned_grows(old(users)@, all, voter_names(t2).len() as int);
                    assert(voter_names(t2).drop_last() =~= voter_names(t));
                }
                let ghost n = name@;
                let id = users.get(name);
                proof {
                    lemma_ids_step(ix, users@, voter_names(t), n, id);
                    lemma_ids_step(ix, users@, voted(t, true), n, id);
                    lemma_ids_step(ix, users@, voted(t, false), n, id);
                }
                if is_up {
                    up.insert(id);
                } else {
                    down.insert(id);
                }
            },
            None => {},
        }
    }
    assert(texts@.take(texts@.len() as int) =~= texts@);
    (up, down)
}

} // verus!
