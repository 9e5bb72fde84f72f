use urls2html::Link;
use urls2html::split_all;

#[test]
fn well_formed_line_parses() {
    let link = Link::from_str("001\thttp://a.example\tAlpha", "\t").unwrap();
    assert_eq!(link.id, "001");
    assert_eq!(link.url, "http://a.example");
    assert_eq!(link.title, "Alpha");
}

#[test]
fn alternate_delimiter_parses() {
    let text = "001::http://www.perdu.com::Perdu ? Vous êtes ici.";
    let link = Link::from_str(text, "::").unwrap();
    assert_eq!(link.id, "001");
    assert_eq!(link.url, "http://www.perdu.com");
    assert_eq!(link.title, "Perdu ? Vous êtes ici.");
}

#[test]
fn extra_fragments_are_dropped() {
    let link = Link::from_str("a\tb\tc\td\te", "\t").unwrap();
    assert_eq!(link.id, "a");
    assert_eq!(link.url, "b");
    assert_eq!(link.title, "c");
}

#[test]
fn fields_are_verbatim() {
    let link = Link::from_str(" a \t b \t c ", "\t").unwrap();
    assert_eq!(link.id, " a ");
    assert_eq!(link.url, " b ");
    assert_eq!(link.title, " c ");
}

#[test]
fn empty_fields_are_kept() {
    let link = Link::from_str("\t\t", "\t").unwrap();
    assert_eq!(link.id, "");
    assert_eq!(link.url, "");
    assert_eq!(link.title, "");
}

#[test]
fn two_fragments_are_rejected() {
    assert!(Link::from_str("a\tb", "\t").is_err());
}

#[test]
fn no_delimiter_is_rejected() {
    assert!(Link::from_str("just one field", "\t").is_err());
}

#[test]
fn empty_line_is_rejected() {
    assert!(Link::from_str("", "\t").is_err());
}

#[test]
fn split_all_returns_every_fragment() {
    let fragments = split_all("a::b::c", "::");
    assert_eq!(fragments, vec!["a".to_string(), "b".to_string(), "c".to_string()]);
}

#[test]
fn split_all_matches_do_not_overlap() {
    let fragments = split_all("aaa", "aa");
    assert_eq!(fragments, vec!["".to_string(), "a".to_string()]);
}

#[test]
fn split_all_of_empty_text_is_one_empty_fragment() {
    let fragments = split_all("", "\t");
    assert_eq!(fragments, vec!["".to_string()]);
}
