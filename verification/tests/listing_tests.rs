use glue_jobs::listing::{append_matching_roles, collect_pages, extract_names, keep_role, Page};
use glue_jobs::text::{contains_char, contains_substring};

fn page(items: &[&str], next_token: Option<&str>) -> Page {
    Page {
        items: items.iter().map(|s| s.to_string()).collect(),
        next_token: next_token.map(|s| s.to_string()),
    }
}

#[test]
fn lister_walks_all_chained_pages() {
    let script = vec![
        page(&["a", "b"], Some("t1")),
        page(&["c", "d"], Some("t2")),
        page(&["e"], None),
    ];
    let r = collect_pages(&script);
    assert_eq!(r.items, vec!["a", "b", "c", "d", "e"]);
    assert_eq!(r.fetches, 3);
    assert!(r.complete);
}

#[test]
fn lister_accepts_empty_first_page() {
    let script = vec![page(&[], None)];
    let r = collect_pages(&script);
    assert!(r.items.is_empty());
    assert_eq!(r.fetches, 1);
    assert!(r.complete);
}

#[test]
fn lister_stops_at_first_page_without_token() {
    let script = vec![page(&["a"], None), page(&["b"], None)];
    let r = collect_pages(&script);
    assert_eq!(r.items, vec!["a"]);
    assert_eq!(r.fetches, 1);
    assert!(r.complete);
}

#[test]
fn lister_reports_an_unfinished_walk() {
    let r = collect_pages(&vec![]);
    assert!(r.items.is_empty());
    assert_eq!(r.fetches, 0);
    assert!(!r.complete);
    let r = collect_pages(&vec![page(&["a"], Some("t1"))]);
    assert_eq!(r.items, vec!["a"]);
    assert_eq!(r.fetches, 1);
    assert!(!r.complete);
}

#[test]
fn role_filter_keeps_only_marked_identifiers() {
    let mut kept: Vec<String> = Vec::new();
    let page_items = vec![
        "arn:aws:iam::123456789012:role/glue-etl".to_string(),
        "arn:aws:iam::123456789012:role/other".to_string(),
    ];
    append_matching_roles(&mut kept, &page_items);
    assert_eq!(kept, vec!["arn:aws:iam::123456789012:role/glue-etl"]);
}

#[test]
fn role_filter_runs_per_page() {
    let mut kept: Vec<String> = Vec::new();
    append_matching_roles(&mut kept, &vec!["role/glue-a".to_string(), "role/b".to_string()]);
    append_matching_roles(&mut kept, &vec!["role/glue-c".to_string()]);
    assert_eq!(kept, vec!["role/glue-a", "role/glue-c"]);
}

#[test]
fn role_marker_matches_anywhere() {
    assert!(keep_role(&"glue-at-start".to_string()));
    assert!(keep_role(&"ends-with-glue".to_string()));
    assert!(keep_role(&"a-glue-b".to_string()));
    assert!(!keep_role(&"no-marker".to_string()));
    assert!(!keep_role(&"glu-e".to_string()));
}

#[test]
fn names_of_listed_jobs_keep_their_order() {
    let names = vec![Some("a".to_string()), None, Some("b".to_string())];
    assert_eq!(extract_names(&names), vec!["a", "b"]);
    assert!(extract_names(&vec![]).is_empty());
}

#[test]
fn substring_search_finds_each_position() {
    assert!(contains_substring("hay with a needle", "needle"));
    assert!(contains_substring("needle first", "needle"));
    assert!(contains_substring("abc", "abc"));
    assert!(contains_substring("abc", ""));
    assert!(!contains_substring("abc", "abcd"));
    assert!(!contains_substring("nee-dle", "needle"));
}

#[test]
fn character_search() {
    assert!(contains_char("a b", ' '));
    assert!(!contains_char("ab", ' '));
    assert!(!contains_char("", ' '));
}
