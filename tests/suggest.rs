use std::collections::HashSet;
use voteshare::article::{Article, Basis};
use voteshare::suggest::{suggest, suggests, suggests_by, SUGGESTION_CAP};
use voteshare::similarity::Similarity;

fn article(number: u16, up: &[u16], down: &[u16]) -> Article {
    Article {
        number,
        title: format!("Article {}", number),
        tags: HashSet::new(),
        up: up.iter().copied().collect(),
        down: down.iter().copied().collect(),
    }
}

#[test]
fn ranking_orders_by_score_then_corpus_order() {
    let a = article(10, &[1, 2, 3], &[]);
    let b = article(20, &[1, 2], &[4]);
    let c = article(30, &[9], &[1, 2, 3]);
    let d = article(40, &[1, 2], &[4]);
    let corpus = vec![c, b, a, d];
    let ranked = corpus[2].suggestions(&corpus);
    let order: Vec<usize> = ranked.iter().map(|e| e.0).collect();
    assert_eq!(order, vec![2, 1, 3, 0]);
    assert_eq!(ranked[0].1, Similarity::Numeric { net: 3, norm: 9 });
}

#[test]
fn suggestion_list_excludes_self() {
    let a = article(1, &[1, 2, 3], &[]);
    let b = article(2, &[1, 2], &[4]);
    let c = article(3, &[9], &[1, 2, 3]);
    let corpus = vec![a, b, c];
    let s = suggest(&corpus, &corpus[0]);
    assert_eq!(s.i, 1);
    assert_eq!(s.s, "Article 1");
    assert_eq!(
        s.xs,
        vec![(2, Similarity::Numeric { net: 2, norm: 9 }), (3, Similarity::Numeric { net: -3, norm: 12 })]
    );
}

#[test]
fn suggestion_lists_are_capped() {
    let corpus: Vec<Article> = (0..30u16).map(|n| article(n, &[1, 2, n + 100], &[])).collect();
    let all = suggests(&corpus);
    assert_eq!(all.len(), 30);
    for (k, s) in all.iter().enumerate() {
        assert_eq!(s.i, corpus[k].number);
        assert_eq!(s.xs.len(), SUGGESTION_CAP);
        assert!(s.xs.iter().all(|e| e.0 != s.i));
    }
    assert_eq!(all[0].xs[0].0, 1);
    assert_eq!(all[5].xs[0].0, 0);
}

#[test]
fn suggestions_are_deterministic() {
    let corpus: Vec<Article> = (0..12u16)
        .map(|n| article(n, &[n % 3, n % 5, 7], &[n % 4 + 10]))
        .collect();
    let first = suggests(&corpus);
    let second = suggests(&corpus);
    assert_eq!(first.len(), second.len());
    for (x, y) in first.iter().zip(second.iter()) {
        assert_eq!(x.i, y.i);
        assert_eq!(x.s, y.s);
        assert_eq!(x.xs, y.xs);
    }
}

#[test]
fn empty_article_never_outranks_a_match() {
    let a = article(1, &[1, 2], &[]);
    let empty = article(2, &[], &[]);
    let b = article(3, &[2], &[1]);
    let corpus = vec![empty, b, a];
    let s = suggest(&corpus, &corpus[2]);
    assert_eq!(s.xs[0], (3, Similarity::Numeric { net: 0, norm: 4 }));
    assert_eq!(s.xs[1], (2, Similarity::Incomparable));
    let own = suggest(&corpus, &corpus[0]);
    assert_eq!(own.xs, vec![(3, Similarity::Incomparable), (1, Similarity::Incomparable)]);
}

#[test]
fn empty_corpus_gives_no_lists() {
    let corpus: Vec<Article> = Vec::new();
    assert!(suggests(&corpus).is_empty());
}

#[test]
fn suggestions_by_tags() {
    let mk = |n: u16, t: &[u16]| Article {
        number: n,
        title: String::new(),
        tags: t.iter().copied().collect(),
        up: HashSet::new(),
        down: HashSet::new(),
    };
    let corpus = vec![mk(1, &[1, 2]), mk(2, &[5]), mk(3, &[2])];
    let all = suggests_by(&corpus, Basis::Tags);
    assert_eq!(
        all[0].xs,
        vec![(3, Similarity::Numeric { net: 1, norm: 2 }), (2, Similarity::Numeric { net: 0, norm: 2 })]
    );
}
