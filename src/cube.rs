//! Finding a cube's dimensions ("1 x 1 x 1") in the containment procedures
//! of an article.

use regex::Regex;
use vstd::prelude::*;
use crate::tags::texts_of;
use crate::text::{chars_of, find_chars, find_from, occurs_at};

verus! {

/// Relies on `regex::Regex` only as an opaque compiled pattern, handed on
/// to `first_match`.
#[verifier::external_type_specification]
#[verifier::external_body]
pub struct ExRegex(Regex);

/// `m` is a stretch of `t`.
pub open spec fn is_part_of(m: Seq<char>, t: Seq<char>) -> bool {
    exists|i: int| occurs_at(t, m, i)
}

/// Relies on `regex::Regex::find`: the leftmost-first match in `text`,
/// whose `as_str` is a slice of `text` on character boundaries.
#[verifier::external_body]
fn first_match(q: &Regex, text: &str) -> (r: Option<String>)
    ensures
        r matches Some(m) ==> is_part_of(m@, text@),
{
    match q.find(text) {
        Some(m) => Some(m.as_str().to_string()),
        None => None,
    }
}

/// `t` holds `p`.
pub open spec fn mentions(t: Seq<char>, p: Seq<char>) -> bool {
    find_from(t, p, 0) is Some
}

/// After the paragraphs `ps`, the procedures section is open: some
/// paragraph opened it ("Special Containment Procedures:") and no later one
/// closed it ("Description:").
pub open spec fn section_open(ps: Seq<Seq<char>>) -> bool
    decreases ps.len(),
{
    if ps.len() == 0 {
        false
    } else if mentions(ps.last(), "Special Containment Procedures:"@) {
        true
    } else if mentions(ps.last(), "Description:"@) {
        false
    } else {
        section_open(ps.drop_last())
    }
}

/// Paragraph `k` of `ps` lies in the procedures section.
pub open spec fn searched(ps: Seq<Seq<char>>, k: int) -> bool {
    section_open(ps.take(k + 1))
}

/// A cube's dimensions, as the first of `queries` matches them in the first
/// paragraph of the procedures section that any of them matches. What comes
/// back is always a stretch of a paragraph in that section; nothing comes
/// back if no paragraph lies in it.
pub fn find_cube(queries: &Vec<Regex>, paragraphs: &Vec<String>) -> (r: Option<String>)
    ensures
        r matches Some(m) ==> exists|k: int|
            0 <= k < paragraphs.len() && #[trigger] searched(texts_of(paragraphs@), k) && is_part_of(
                m@,
                paragraphs@[k]@,
            ),
        (forall|k: int| 0 <= k < paragraphs.len() ==> !#[trigger] searched(texts_of(paragraphs@), k))
            ==> r is None,
{
    let ghost ps = texts_of(paragraphs@);
    let opens = chars_of("Special Containment Procedures:");
    let closes = chars_of("Description:");
    let mut active = false;
    assert(ps.take(0) =~= Seq::<Seq<char>>::empty());
    for k in 0..paragraphs.len()
        invariant
            ps == texts_of(paragraphs@),
            opens@ == "Special Containment Procedures:"@,
            closes@ == "Description:"@,
            active == section_open(ps.take(k as int)),
    {
        let text = paragraphs[k].as_str();
        let t = chars_of(text);
        assert(ps.take(k + 1).drop_last() =~= ps.take(k as int));
        assert(ps.take(k + 1).last() == t@);
        if find_chars(&t, &opens, 0).is_some() {
            active = true;
        } else if find_chars(&t, &closes, 0).is_some() {
            active = false;
        }
        if active {
            for j in 0..queries.len()
                invariant
                    ps == texts_of(paragraphs@),
                    0 <= k < paragraphs.len(),
                    text@ == paragraphs@[k as int]@,
                    section_open(ps.take(k + 1)),
            {
                match first_match(&queries[j], text) {
                    Some(m) => {
                        assert(searched(ps, k as int));
                        return Some(m);
                    },
                    None => {},
                }
            }
        }
    }
    None
}

} // verus!
