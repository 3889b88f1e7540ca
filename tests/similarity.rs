use std::collections::HashSet;
use voteshare::article::{Article, Basis};
use voteshare::similarity::Similarity;

fn article(number: u16, up: &[u16], down: &[u16]) -> Article {
    Article {
        number,
        title: format!("Article {}", number),
        tags: HashSet::new(),
        up: up.iter().copied().collect(),
        down: down.iter().copied().collect(),
    }
}

fn tagged(number: u16, tags: &[u16]) -> Article {
    Article {
        number,
        title: format!("Article {}", number),
        tags: tags.iter().copied().collect(),
        up: HashSet::new(),
        down: HashSet::new(),
    }
}

#[test]
fn shared_upvoters_beat_opposed_votes() {
    let a = article(1, &[1, 2, 3], &[]);
    let b = article(2, &[1, 2], &[4]);
    let c = article(3, &[9], &[1, 2, 3]);
    let ab = a.simil(&b);
    let ac = a.simil(&c);
    assert_eq!(ab, Similarity::Numeric { net: 2, norm: 9 });
    assert_eq!(ac, Similarity::Numeric { net: -3, norm: 12 });
    assert!(ab.ranks_above(&ac));
    assert!(!ac.ranks_above(&ab));
    assert_eq!(ab.scaled(), Some(6666));
    assert_eq!(ac.scaled(), Some(-8660));
}

#[test]
fn self_similarity_is_one_without_downvotes() {
    let a = article(1, &[4, 5, 6, 7], &[]);
    let s = a.simil(&a);
    assert_eq!(s, Similarity::Numeric { net: 4, norm: 16 });
    assert_eq!(s.scaled(), Some(10000));
}

#[test]
fn self_similarity_with_downvotes_is_below_one() {
    let a = article(1, &[1], &[2]);
    let s = a.simil(&a);
    assert_eq!(s, Similarity::Numeric { net: 1, norm: 4 });
    assert_eq!(s.scaled(), Some(5000));
}

#[test]
fn similarity_is_symmetric() {
    let a = article(1, &[1, 2, 3, 8], &[5]);
    let b = article(2, &[2, 5], &[3, 7]);
    assert_eq!(a.simil(&b), b.simil(&a));
    assert_eq!(a.simil(&b), Similarity::Numeric { net: -1, norm: 20 });
}

#[test]
fn voter_in_both_cross_terms_counts_once() {
    let a = article(1, &[1], &[1]);
    let b = article(2, &[1], &[1]);
    assert_eq!(a.simil(&b), Similarity::Numeric { net: 0, norm: 1 });
}

#[test]
fn scores_stay_within_unit_range() {
    let a = article(1, &[1, 2], &[3, 4]);
    let b = article(2, &[3, 4], &[1, 2]);
    let s = a.simil(&b);
    assert_eq!(s, Similarity::Numeric { net: -4, norm: 16 });
    assert_eq!(s.scaled(), Some(-10000));
    let c = article(3, &[1, 9], &[]);
    let t = a.simil(&c).scaled().unwrap();
    assert!((-10000..=10000).contains(&t));
}

#[test]
fn empty_article_is_incomparable() {
    let a = article(1, &[], &[]);
    let b = article(2, &[1], &[]);
    assert_eq!(a.simil(&b), Similarity::Incomparable);
    assert_eq!(b.simil(&a), Similarity::Incomparable);
    assert_eq!(a.simil(&b).scaled(), None);
    let worst = article(3, &[], &[1]);
    assert!(b.simil(&worst).ranks_above(&a.simil(&b)));
    assert!(!Similarity::Incomparable.ranks_above(&Similarity::Incomparable));
}

#[test]
fn tags_basis_ignores_votes() {
    let a = tagged(1, &[1, 2]);
    let b = tagged(2, &[2, 3]);
    assert_eq!(a.simil_by(&b, Basis::Tags), Similarity::Numeric { net: 1, norm: 4 });
    assert_eq!(a.simil_by(&b, Basis::Votes), Similarity::Incomparable);
    assert_eq!(a.simil_by(&a, Basis::Tags).scaled(), Some(10000));
}

#[test]
fn comparison_uses_exact_values() {
    let x = Similarity::Numeric { net: 1, norm: 2 };
    let y = Similarity::Numeric { net: 2, norm: 8 };
    assert!(!x.ranks_above(&y));
    assert!(!y.ranks_above(&x));
    let z = Similarity::Numeric { net: 0, norm: 5 };
    let n = Similarity::Numeric { net: -1, norm: 9 };
    assert!(z.ranks_above(&n));
    assert!(n.ranks_above(&Similarity::Incomparable));
    assert_eq!(n.scaled(), Some(-3333));
}
