use urls2html::extract_links;
use urls2html::str_lt;
use urls2html::Link;
use urls2html::Links;

fn link(id: &str, url: &str, title: &str) -> Link {
    Link { id: id.to_string(), url: url.to_string(), title: title.to_string() }
}

#[test]
fn duplicate_id_keeps_last_line() {
    let lines = vec![
        "x\thttp://first.example\tFirst".to_string(),
        "x\thttp://second.example\tSecond".to_string(),
    ];
    let links = extract_links(&lines, "\t");
    assert_eq!(links.len(), 1);
    let l = links.get(0);
    assert_eq!(l.id, "x");
    assert_eq!(l.url, "http://second.example");
    assert_eq!(l.title, "Second");
}

#[test]
fn iteration_is_in_ascending_id_order() {
    let lines = vec![
        "b\tu\tt".to_string(),
        "c\tu\tt".to_string(),
        "a\tu\tt".to_string(),
    ];
    let links = extract_links(&lines, "\t");
    assert_eq!(links.len(), 3);
    assert_eq!(links.get(0).id, "a");
    assert_eq!(links.get(1).id, "b");
    assert_eq!(links.get(2).id, "c");
}

#[test]
fn order_is_lexicographic_not_numeric() {
    let lines = vec![
        "10\tu\tt".to_string(),
        "9\tu\tt".to_string(),
        "100\tu\tt".to_string(),
    ];
    let links = extract_links(&lines, "\t");
    assert_eq!(links.get(0).id, "10");
    assert_eq!(links.get(1).id, "100");
    assert_eq!(links.get(2).id, "9");
}

#[test]
fn malformed_lines_contribute_nothing() {
    let lines = vec![
        "a\thttp://a.example\tAlpha".to_string(),
        "no delimiters at all".to_string(),
        "only\tone".to_string(),
    ];
    let links = extract_links(&lines, "\t");
    assert_eq!(links.len(), 1);
    assert_eq!(links.get(0).id, "a");
}

#[test]
fn insert_replaces_record_with_same_id() {
    let mut links = Links::new();
    links.insert(link("k", "http://old.example", "Old"));
    links.insert(link("k", "http://new.example", "New"));
    assert_eq!(links.len(), 1);
    assert_eq!(links.get(0).url, "http://new.example");
    assert_eq!(links.get(0).title, "New");
}

#[test]
fn insert_keeps_ascending_order() {
    let mut links = Links::new();
    links.insert(link("m", "u", "t"));
    links.insert(link("a", "u", "t"));
    links.insert(link("z", "u", "t"));
    links.insert(link("b", "u", "t"));
    assert_eq!(links.len(), 4);
    assert_eq!(links.get(0).id, "a");
    assert_eq!(links.get(1).id, "b");
    assert_eq!(links.get(2).id, "m");
    assert_eq!(links.get(3).id, "z");
}

#[test]
fn line_order_does_not_change_distinct_ids() {
    let forward = vec![
        "a\thttp://a.example\tAlpha".to_string(),
        "b\thttp://b.example\tBeta".to_string(),
        "c\thttp://c.example\tGamma".to_string(),
    ];
    let backward = vec![
        "c\thttp://c.example\tGamma".to_string(),
        "b\thttp://b.example\tBeta".to_string(),
        "a\thttp://a.example\tAlpha".to_string(),
    ];
    let l1 = extract_links(&forward, "\t");
    let l2 = extract_links(&backward, "\t");
    assert_eq!(l1.len(), l2.len());
    for i in 0..l1.len() {
        assert_eq!(l1.get(i).id, l2.get(i).id);
        assert_eq!(l1.get(i).url, l2.get(i).url);
        assert_eq!(l1.get(i).title, l2.get(i).title);
    }
}

#[test]
fn empty_input_gives_empty_collection() {
    let lines: Vec<String> = Vec::new();
    let links = extract_links(&lines, "\t");
    assert_eq!(links.len(), 0);
}

#[test]
fn str_lt_orders_text() {
    assert!(str_lt("a", "b"));
    assert!(!str_lt("b", "a"));
    assert!(!str_lt("a", "a"));
    assert!(str_lt("a", "ab"));
    assert!(!str_lt("ab", "a"));
    assert!(str_lt("10", "9"));
    assert!(str_lt("", "a"));
}
