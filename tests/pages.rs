use regex::Regex;
use voteshare::cube::find_cube;
use voteshare::indexer::Indexer;
use voteshare::page::{parse_id, parse_title};
use voteshare::tags::{ignore_tag, parse_tags};
use voteshare::votes::{parse_votes, read_vote};

#[test]
fn page_id_is_read_after_its_marker() {
    let doc = "<script>var x = 1; WIKIREQUEST.info.pageId = 1956234; other = 2;</script>";
    assert_eq!(parse_id(doc), Some(1956234));
    assert_eq!(parse_id("WIKIREQUEST.info.pageId = +17;"), Some(17));
}

#[test]
fn page_id_missing_or_malformed() {
    assert_eq!(parse_id("nothing here"), None);
    assert_eq!(parse_id("WIKIREQUEST.info.pageId = 12"), None);
    assert_eq!(parse_id("WIKIREQUEST.info.pageId = ;"), None);
    assert_eq!(parse_id("WIKIREQUEST.info.pageId = 12a;"), None);
    assert_eq!(parse_id("WIKIREQUEST.info.pageId = 4294967296;"), None);
    assert_eq!(parse_id("WIKIREQUEST.info.pageId = 4294967295;"), Some(4294967295));
}

#[test]
fn series_entries_give_number_and_title() {
    assert_eq!(parse_title("/scp-173", "SCP-173 - The Sculpture"), Some((173, "The Sculpture".to_string())));
    assert_eq!(parse_title("/SCP-002", "SCP-002 - The \"Living\" Room"), Some((2, "The \"Living\" Room".to_string())));
    assert_eq!(parse_title("/scp-049", "Plague Doctor"), Some((49, "Plague Doctor".to_string())));
    assert_eq!(parse_title("/scp-abc", "x - y"), None);
    assert_eq!(parse_title("/tale-1", "x - y"), None);
    assert_eq!(parse_title("/scp-70000", "x - y"), None);
}

#[test]
fn ignored_tags() {
    assert!(ignore_tag("safe"));
    assert!(ignore_tag("esoteric-class"));
    assert!(ignore_tag("sentient"));
    assert!(!ignore_tag("Safe"));
    assert!(!ignore_tag("humanoid"));
    assert!(!ignore_tag(""));
}

#[test]
fn indexer_assigns_dense_ids() {
    let mut ix = Indexer::new();
    assert_eq!(ix.get("alice".to_string()), 0);
    assert_eq!(ix.get("bob".to_string()), 1);
    assert_eq!(ix.get("alice".to_string()), 0);
    assert_eq!(ix.get("carol".to_string()), 2);
    assert_eq!(ix.len(), 3);
}

#[test]
fn tags_skip_ignored_ones() {
    let mut ix = Indexer::new();
    let texts = vec!["keter".to_string(), "humanoid".to_string(), "alive".to_string(), "statue".to_string(), "humanoid".to_string()];
    let ids = parse_tags(&mut ix, &texts);
    assert_eq!(ids, [0u16, 1].into_iter().collect::<std::collections::HashSet<u16>>());
    assert_eq!(ix.len(), 2);
}

#[test]
fn votes_are_split_by_sign() {
    assert_eq!(read_vote("alice<\\/a> +"), Some(("alice".to_string(), true)));
    assert_eq!(read_vote("bob<\\/a>  -"), Some(("bob".to_string(), false)));
    assert_eq!(read_vote("<\\/a> +"), None);
    assert_eq!(read_vote("carol +"), None);
    assert_eq!(read_vote("dave<\\/a>"), None);
    let mut ix = Indexer::new();
    let texts = vec![
        "alice<\\/a> +".to_string(),
        "bob<\\/a> -".to_string(),
        "junk".to_string(),
        "carol<\\/a> +".to_string(),
    ];
    let (up, down) = parse_votes(&mut ix, &texts);
    assert_eq!(up, [0u16, 2].into_iter().collect::<std::collections::HashSet<u16>>());
    assert_eq!(down, [1u16].into_iter().collect::<std::collections::HashSet<u16>>());
}

#[test]
fn cube_found_only_in_procedures() {
    let queries = vec![Regex::new("(5['\"]*\\s*[xX]\\s*5['\"]*\\s*[xX]\\s*5)").unwrap()];
    let ps = vec![
        "Item #: a 5 x 5 x 5 box".to_string(),
        "Special Containment Procedures: keep in a 5x5x5 cell.".to_string(),
        "Description: a 5 x 5 x 5 cube".to_string(),
    ];
    assert_eq!(find_cube(&queries, &ps), Some("5x5x5".to_string()));
    let outside = vec!["Description: 5x5x5".to_string(), "5 x 5 x 5".to_string()];
    assert_eq!(find_cube(&queries, &outside), None);
}
