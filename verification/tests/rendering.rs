use urls2html::extract_links;
use urls2html::render;
use urls2html::run_lines;
use urls2html::Config;

fn config(title: &str, full: bool) -> Config {
    let mut c = Config::new();
    c.title = title.to_string();
    c.full_html_document = full;
    c
}

#[test]
fn config_new_defaults() {
    let c = Config::new();
    assert_eq!(c.filename, "");
    assert_eq!(c.title, "");
    assert!(c.full_html_document);
}

#[test]
fn full_document_end_to_end() {
    let lines = vec![
        "001\thttp://a.example\tAlpha".to_string(),
        "002\thttp://b.example\tBeta".to_string(),
    ];
    let out = run_lines(&lines, "\t", &config("Links", true));
    let expected = vec![
        "<html>".to_string(),
        "<head>".to_string(),
        "  <meta charset=\"utf-8\"/>".to_string(),
        "  <title>Links</title>".to_string(),
        "</head>".to_string(),
        "<body>".to_string(),
        "  <h1>Links</h1>".to_string(),
        "  <ul>".to_string(),
        "      <li><a href=\"http://a.example\">001 — Alpha</a></li>".to_string(),
        "      <li><a href=\"http://b.example\">002 — Beta</a></li>".to_string(),
        "  </ul>".to_string(),
        "</body>".to_string(),
        "</html>".to_string(),
    ];
    assert_eq!(out, expected);
}

#[test]
fn fragment_mode_emits_only_the_list() {
    let lines = vec!["001\thttp://a.example\tAlpha".to_string()];
    let out = run_lines(&lines, "\t", &config("Links", false));
    let expected = vec![
        "  <ul>".to_string(),
        "      <li><a href=\"http://a.example\">001 — Alpha</a></li>".to_string(),
        "  </ul>".to_string(),
    ];
    assert_eq!(out, expected);
    for line in &out {
        assert!(!line.contains("<html>"));
        assert!(!line.contains("<head>"));
        assert!(!line.contains("<body>"));
    }
}

#[test]
fn title_appears_exactly_once_in_title_and_heading() {
    let lines = vec!["001\thttp://a.example\tAlpha".to_string()];
    let out = run_lines(&lines, "\t", &config("My Links", true));
    let title_count = out.iter().filter(|l| *l == "  <title>My Links</title>").count();
    let h1_count = out.iter().filter(|l| *l == "  <h1>My Links</h1>").count();
    assert_eq!(title_count, 1);
    assert_eq!(h1_count, 1);
}

#[test]
fn rendering_twice_gives_identical_output() {
    let lines = vec![
        "b\thttp://b.example\tBeta".to_string(),
        "a\thttp://a.example\tAlpha".to_string(),
    ];
    let links = extract_links(&lines, "\t");
    let cfg = config("Links", true);
    let first = render(&links, &cfg);
    let second = render(&links, &cfg);
    assert_eq!(first, second);
}

#[test]
fn malformed_line_does_not_disturb_rendering() {
    let lines = vec![
        "001\thttp://a.example\tAlpha".to_string(),
        "nodelimitershere".to_string(),
    ];
    let links = extract_links(&lines, "\t");
    assert_eq!(links.len(), 1);
    let out = render(&links, &config("Links", true));
    assert_eq!(out.len(), 12);
    assert!(out.contains(&"      <li><a href=\"http://a.example\">001 — Alpha</a></li>".to_string()));
}

#[test]
fn empty_collection_renders_empty_list() {
    let lines: Vec<String> = Vec::new();
    let out = run_lines(&lines, "\t", &config("Links", false));
    assert_eq!(out, vec!["  <ul>".to_string(), "  </ul>".to_string()]);
}

#[test]
fn empty_title_is_rendered_verbatim() {
    let lines: Vec<String> = Vec::new();
    let out = run_lines(&lines, "\t", &config("", true));
    assert_eq!(out[3], "  <title></title>");
    assert_eq!(out[6], "  <h1></h1>");
}
