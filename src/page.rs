//! Reading the fields that article pages and the series lists carry.

use vstd::prelude::*;
use crate::text::{chars_of, decimal_u32, find_chars, find_from, parse_decimal};

verus! {

/// What precedes a page's numeric id in its source.
pub open spec fn page_id_marker() -> Seq<char> {
    "WIKIREQUEST.info.pageId = "@
}

/// The text between the first page id marker and the next `;` after it;
/// empty if either is missing.
pub open spec fn page_id_text(doc: Seq<char>) -> Seq<char> {
    match find_from(doc, page_id_marker(), 0) {
        None => Seq::empty(),
        Some(start) => {
            let from = start + page_id_marker().len();
            match find_from(doc, ";"@, from) {
                None => Seq::empty(),
                Some(end) => doc.subrange(from, end),
            }
        },
    }
}

/// The numeric id that a page's source declares, if it declares one that
/// is a `u32` written in decimal.
pub fn parse_id(doc: &str) -> (r: Option<u32>)
    ensures
        r == decimal_u32(page_id_text(doc@)),
{
    let s = chars_of(doc);
    let marker = chars_of("WIKIREQUEST.info.pageId = ");
    let semi = chars_of(";");
    match find_chars(&s, &marker, 0) {
        None => {
            assert(Seq::<char>::empty() =~= s@.subrange(0, 0));
            parse_decimal(&s, 0, 0)
        },
        Some(start) => {
            let from = start + marker.len();
            match find_chars(&s, &semi, from) {
                None => {
                    assert(Seq::<char>::empty() =~= s@.subrange(0, 0));
                    parse_decimal(&s, 0, 0)
                },
                Some(end) => parse_decimal(&s, from, end),
            }
        },
    }
}

/// The link is to an article: it starts with `/scp-`, in any case.
pub open spec fn is_article_link(h: Seq<char>) -> bool {
    &&& h.len() >= 5
    &&& h[0] == '/'
    &&& (h[1] == 's' || h[1] == 'S')
    &&& (h[2] == 'c' || h[2] == 'C')
    &&& (h[3] == 'p' || h[3] == 'P')
    &&& h[4] == '-'
}

/// The `u16` that `s` writes in decimal.
pub open spec fn decimal_u16(s: Seq<char>) -> Option<u16> {
    match decimal_u32(s) {
        Some(v) => if v <= u16::MAX {
            Some(v as u16)
        } else {
            None
        },
        None => None,
    }
}

/// The title in a series list entry: what follows the first `- `, or the
/// whole text if there is none.
pub open spec fn title_text(name: Seq<char>) -> Seq<char> {
    match find_from(name, "- "@, 0) {
        Some(i) => name.subrange(i + 2, name.len() as int),
        None => name,
    }
}

/// The article number and title of a series list entry, from its link
/// target and its text; `None` where the link is not to an article or has
/// no number after `/scp-`.
pub open spec fn title_entry(href: Seq<char>, name: Seq<char>) -> Option<(u16, Seq<char>)> {
    if is_article_link(href) {
        match decimal_u16(href.subrange(5, href.len() as int)) {
            Some(n) => Some((n, title_text(name))),
            None => None,
        }
    } else {
        None
    }
}

/// The article number and title of a series list entry, from its link
/// target `href` and its text `name`.
pub fn parse_title(href: &str, name: &str) -> (r: Option<(u16, String)>)
    ensures
        match title_entry(href@, name@) {
            Some((n, t)) => r matches Some((m, u)) && m == n && u@ == t,
            None => r is None,
        },
{
    let h = chars_of(href);
    if h.len() < 5 || h[0] != '/' || (h[1] != 's' && h[1] != 'S') || (h[2] != 'c' && h[2] != 'C')
        || (h[3] != 'p' && h[3] != 'P') || h[4] != '-' {
        return None;
    }
    let num = match parse_decimal(&h, 5, h.len()) {
        Some(v) => if v <= 65535 {
            v as u16
        } else {
            return None;
        },
        None => {
            return None;
        },
    };
    let n = chars_of(name);
    let dash = chars_of("- ");
    proof {
        reveal_strlit("- ");
    }
    let title = match find_chars(&n, &dash, 0) {
        Some(i) => name.substring_char(i + 2, n.len()).to_owned(),
        None => name.to_owned(),
    };
    Some((num, title))
}

} // verus!
