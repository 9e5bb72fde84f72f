//! HTML emission: the link list as an unordered list, one element per line,
//! optionally wrapped in a full HTML document.
//!
//! No escaping is applied: id, url and title pass into the output verbatim;
//! callers answer for the safety of their input data.

use vstd::prelude::*;
use vstd::string::StringExecFns;

use crate::config::Config;
use crate::links::Links;

verus! {

/// The list item emitted for one record: an anchor whose target is the url
/// and whose text is the id, an em-dash and the title.
pub open spec fn li_line(r: (Seq<char>, Seq<char>, Seq<char>)) -> Seq<char> {
    "      <li><a href=\""@ + r.1 + "\">"@ + r.0 + " — "@ + r.2 + "</a></li>"@
}

/// The head's title element with the configured title text.
pub open spec fn title_line(title: Seq<char>) -> Seq<char> {
    "  <title>"@ + title + "</title>"@
}

/// The body's heading with the configured title text.
pub open spec fn h1_line(title: Seq<char>) -> Seq<char> {
    "  <h1>"@ + title + "</h1>"@
}

/// The lines that open a full document: document and head open tags, the
/// charset declaration, the title, head close, body open, and the heading.
pub open spec fn header_lines(title: Seq<char>) -> Seq<Seq<char>> {
    seq![
        "<html>"@,
        "<head>"@,
        "  <meta charset=\"utf-8\"/>"@,
        title_line(title),
        "</head>"@,
        "<body>"@,
        h1_line(title),
    ]
}

/// The lines that close a full document.
pub open spec fn footer_lines() -> Seq<Seq<char>> {
    seq!["</body>"@, "</html>"@]
}

/// The unordered list: its open tag, one list item per record in collection
/// order, and its close tag.
pub open spec fn list_lines(s: Seq<(Seq<char>, Seq<char>, Seq<char>)>) -> Seq<Seq<char>> {
    seq!["  <ul>"@] + s.map_values(|r: (Seq<char>, Seq<char>, Seq<char>)| li_line(r)) + seq![
        "  </ul>"@,
    ]
}

/// Every output line of one rendering: the list, wrapped in the document
/// header and footer when `full` is set.
pub open spec fn render_lines(
    s: Seq<(Seq<char>, Seq<char>, Seq<char>)>,
    title: Seq<char>,
    full: bool,
) -> Seq<Seq<char>> {
    if full {
        header_lines(title) + list_lines(s) + footer_lines()
    } else {
        list_lines(s)
    }
}

/// Appends one output line, extending the rendered text by its view.
fn push_line(out: &mut Vec<String>, line: String)
    ensures
        crate::views_of(final(out)@) == crate::views_of(old(out)@).push(line@),
{
    let ghost lv = line@;
    out.push(line);
    proof {
        assert(out@.drop_last() =~= old(out)@);
        assert(crate::views_of(out@) =~= crate::views_of(old(out)@).push(lv));
    }
}

/// Renders the collection under the given configuration: the list of links
/// in collection order, wrapped in a full HTML document when the
/// configuration asks for one. The output is exactly the line sequence
/// `render_lines` describes, so it depends on nothing but the records and
/// the configuration.
pub fn render(links: &Links, config: &Config) -> (out: Vec<String>)
    ensures
        crate::views_of(out@) == render_lines(
            links.recs(),
            config.title@,
            config.full_html_document,
        ),
{
    let mut out: Vec<String> = Vec::new();
    proof {
        assert(crate::views_of(out@) =~= Seq::<Seq<char>>::empty());
    }
    if config.full_html_document {
        push_line(&mut out, String::from_str("<html>"));
        push_line(&mut out, String::from_str("<head>"));
        push_line(&mut out, String::from_str("  <meta charset=\"utf-8\"/>"));
        push_line(
            &mut out,
            String::from_str("  <title>").concat(config.title.as_str()).concat("</title>"),
        );
        push_line(&mut out, String::from_str("</head>"));
        push_line(&mut out, String::from_str("<body>"));
        push_line(
            &mut out,
            String::from_str("  <h1>").concat(config.title.as_str()).concat("</h1>"),
        );
        proof {
            assert(crate::views_of(out@) =~= header_lines(config.title@));
        }
    }
    let ghost head = crate::views_of(out@);
    push_line(&mut out, String::from_str("  <ul>"));
    let ghost lis = links.recs().map_values(
        |r: (Seq<char>, Seq<char>, Seq<char>)| li_line(r),
    );
    let n: usize = links.len();
    let mut k: usize = 0;
    proof {
        assert(lis.take(0) =~= Seq::<Seq<char>>::empty());
        assert(crate::views_of(out@) =~= head + seq!["  <ul>"@] + lis.take(0));
    }
    while k < n
        invariant
            n == links.recs().len(),
            0 <= k <= n,
            lis == links.recs().map_values(
                |r: (Seq<char>, Seq<char>, Seq<char>)| li_line(r),
            ),
            crate::views_of(out@) == head + seq!["  <ul>"@] + lis.take(k as int),
        decreases n - k,
    {
        let link = links.get(k);
        let item = String::from_str("      <li><a href=\"").concat(link.url.as_str()).concat(
            "\">",
        ).concat(link.id.as_str()).concat(" — ").concat(link.title.as_str()).concat("</a></li>");
        proof {
            assert(item@ =~= li_line(links.recs()[k as int]));
            assert(lis[k as int] == li_line(links.recs()[k as int]));
            assert(item@ == lis[k as int]);
            assert(lis.take(k + 1) =~= lis.take(k as int).push(lis[k as int]));
        }
        push_line(&mut out, item);
        proof {
            assert(crate::views_of(out@) =~= head + seq!["  <ul>"@] + lis.take(k + 1));
        }
        k = k + 1;
    }
    proof {
        assert(lis.take(n as int) =~= lis);
    }
    push_line(&mut out, String::from_str("  </ul>"));
    proof {
        assert(head + seq!["  <ul>"@] + lis + seq!["  </ul>"@] =~= head + list_lines(
            links.recs(),
        ));
    }
    if config.full_html_document {
        push_line(&mut out, String::from_str("</body>"));
        push_line(&mut out, String::from_str("</html>"));
        proof {
            assert(crate::views_of(out@) =~= header_lines(config.title@) + list_lines(links.recs())
                + footer_lines());
        }
    } else {
        proof {
            assert(head =~= Seq::<Seq<char>>::empty());
            assert(crate::views_of(out@) =~= list_lines(links.recs()));
        }
    }
    out
}

/// The whole run on already-read input: parse every line into the ordered,
/// deduplicated collection, then render it under the configuration. The
/// output lines are a function of the input lines, the delimiter and the
/// configuration alone.
pub fn run_lines(lines: &Vec<String>, delimiter: &str, config: &Config) -> (out: Vec<String>)
    requires
        delimiter@.len() >= 1,
    ensures
        crate::views_of(out@) == render_lines(
            crate::links::model_recs(crate::views_of(lines@), delimiter@),
            config.title@,
            config.full_html_document,
        ),
{
    let links = crate::links::extract_links(lines, delimiter);
    render(&links, config)
}

} // verus!
