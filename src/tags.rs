//! Tags: which ones carry no signal, and turning the rest into identifiers.

use std::collections::HashSet;
use vstd::prelude::*;
use crate::indexer::{Indexer, all_seen, ids, interned, lemma_ids_step, lemma_interned_grows, same_text};

verus! {

broadcast use vstd::std_specs::hash::group_hash_axioms;

/// Tags that every article of a kind carries, or that say nothing of what
/// an article is about: classes, formats, and the like.
pub open spec fn is_ignored_tag(t: Seq<char>) -> bool {
    ||| t == "safe"@
    ||| t == "euclid"@
    ||| t == "keter"@
    ||| t == "thaumiel"@
    ||| t == "neutralized"@
    ||| t == "esoteric-class"@
    ||| t == "joke"@
    ||| t == "archived"@
    ||| t == "decommissioned"@
    ||| t == "supplement"@
    ||| t == "experiment"@
    ||| t == "exploration"@
    ||| t == "incident"@
    ||| t == "interview"@
    ||| t == "tale"@
    ||| t == "collaboration"@
    ||| t == "alive"@
    ||| t == "sentient"@
}

/// Whether tag `x` is one that carries no signal.
pub fn ignore_tag(x: &str) -> (r: bool)
    ensures
        r == is_ignored_tag(x@),
{
    same_text(x, "safe") || same_text(x, "euclid") || same_text(x, "keter") || same_text(
        x,
        "thaumiel",
    ) || same_text(x, "neutralized") || same_text(x, "esoteric-class") || same_text(x, "joke")
        || same_text(x, "archived") || same_text(x, "decommissioned") || same_text(x, "supplement")
        || same_text(x, "experiment") || same_text(x, "exploration") || same_text(x, "incident")
        || same_text(x, "interview") || same_text(x, "tale") || same_text(x, "collaboration")
        || same_text(x, "alive") || same_text(x, "sentient")
}

/// The texts of `texts`.
pub open spec fn texts_of(texts: Seq<String>) -> Seq<Seq<char>> {
    texts.map_values(|s: String| s@)
}

/// The tags of `names` that are not ignored, in order.
pub open spec fn kept_tags(names: Seq<Seq<char>>) -> Seq<Seq<char>>
    decreases names.len(),
{
    if names.len() == 0 {
        Seq::empty()
    } else {
        let init = kept_tags(names.drop_last());
        if is_ignored_tag(names.last()) {
            init
        } else {
            init.push(names.last())
        }
    }
}

/// No more tags are kept than there are.
pub proof fn lemma_kept_tags_len(names: Seq<Seq<char>>)
    ensures
        kept_tags(names).len() <= names.len(),
    decreases names.len(),
{
    if names.len() > 0 {
        lemma_kept_tags_len(names.drop_last());
    }
}

/// The identifiers of the tags `texts` of a page, ignored tags left out;
/// new tags get new identifiers from `tags`.
pub fn parse_tags(tags: &mut Indexer, texts: &Vec<String>) -> (r: HashSet<u16>)
    requires
        old(tags).wf(),
        interned(old(tags)@, kept_tags(texts_of(texts@))).len() <= 65536,
    ensures
        final(tags).wf(),
        final(tags)@ == interned(old(tags)@, kept_tags(texts_of(texts@))),
        r@ == ids(final(tags)@, kept_tags(texts_of(texts@))),
{
    let ghost all = kept_tags(texts_of(texts@));
    let mut r: HashSet<u16> = HashSet::new();
    assert(texts_of(texts@.take(0)) =~= Seq::empty());
    assert(kept_tags(texts_of(texts@.take(0))) =~= Seq::empty());
    assert(ids(tags@, Seq::empty()) =~= Set::empty());
    for k in 0..texts.len()
        invariant
            tags.wf(),
            all == kept_tags(texts_of(texts@)),
            interned(old(tags)@, all).len() <= 65536,
            tags@ == interned(old(tags)@, kept_tags(texts_of(texts@.take(k as int)))),
            r@ == ids(tags@, kept_tags(texts_of(texts@.take(k as int)))),
            all_seen(tags@, kept_tags(texts_of(texts@.take(k as int)))),
    {
        let ghost before = kept_tags(texts_of(texts@.take(k as int)));
        let ghost ix = tags@;
        assert(texts_of(texts@.take(k + 1)) =~= texts_of(texts@.take(k as int)).push(texts@[k as int]@));
        assert(texts_of(texts@.take(k + 1)).drop_last() =~= texts_of(texts@.take(k as int)));
        if !ignore_tag(texts[k].as_str()) {
            proof {
                assert(kept_tags(texts_of(texts@.take(k + 1))) == before.push(texts@[k as int]@));
                assert(texts_of(texts@).take(k + 1) =~= texts_of(texts@.take(k + 1)));
                lemma_kept_prefix(texts_of(texts@), k + 1);
                lemma_interned_grows(old(tags)@, all, kept_tags(texts_of(texts@.take(k + 1))).len() as int);
                assert(kept_tags(texts_of(texts@.take(k + 1))).drop_last() =~= before);
            }
            let id = tags.get(texts[k].clone());
            r.insert(id);
            proof {
                lemma_ids_step(ix, tags@, before, texts@[k as int]@, id);
            }
        } else {
            assert(kept_tags(texts_of(texts@.take(k + 1))) == before);
        }
    }
    assert(texts@.take(texts@.len() as int) =~= texts@);
    r
}

/// The kept tags of a prefix are a prefix of the kept tags.
proof fn lemma_kept_prefix(names: Seq<Seq<char>>, k: int)
    requires
        0 <= k <= names.len(),
    ensures
        kept_tags(names.take(k)).len() <= kept_tags(names).len(),
        kept_tags(names).take(kept_tags(names.take(k)).len() as int) == kept_tags(names.take(k)),
    decreases names.len(),
{
    if k < names.len() {
        assert(names.drop_last().take(k) =~= names.take(k));
        lemma_kept_prefix(names.drop_last(), k);
        let a = kept_tags(names.drop_last());
        let b = kept_tags(names.take(k));
        if !is_ignored_tag(names.last()) {
            assert(a.push(names.last()).take(b.len() as int) =~= a.take(b.len() as int));
        }
    } else {
        assert(names.take(k) =~= names);
        assert(kept_tags(names).take(kept_tags(names).len() as int) =~= kept_tags(names));
    }
}

} // verus!
