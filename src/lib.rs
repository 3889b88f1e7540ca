//! Voter-overlap similarity between wiki articles, and ranked lists of
//! related articles built from it.
//!
//! - `similarity`, `order`: the exact signed score of two identifier-set
//!   pairs, and how scores compare.
//! - `article`, `rank`, `suggest`: articles, ranking a corpus against one of
//!   them, and capped suggestion lists without the article itself.
//! - `indexer`, `tags`, `votes`, `page`, `cube`: turning the texts of wiki
//!   pages into numbers, identifiers and sets.
//! - `members`, `text`: helpers over identifier sets and characters.

pub mod members;
pub mod similarity;
pub mod order;
pub mod article;
pub mod rank;
pub mod suggest;
pub mod text;
pub mod page;
pub mod indexer;
pub mod tags;
pub mod votes;
pub mod cube;
