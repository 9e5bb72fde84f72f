//! The library's laws: properties of parsing, the collection and rendering
//! that hold for every input, each stated and proved here.

use vstd::prelude::*;

use crate::links::insert_sorted;
use crate::links::lemma_insert_result_sorted;
use crate::links::lemma_map_of_insert_sorted;
use crate::links::map_of;
use crate::links::model_recs;
use crate::links::sorted_strict;
use crate::order::lex_lt;
use crate::record::parse_line;
use crate::record::split_fragments;
use crate::render::footer_lines;
use crate::render::h1_line;
use crate::render::header_lines;
use crate::render::li_line;
use crate::render::list_lines;
use crate::render::render_lines;
use crate::render::title_line;

verus! {

/// A malformed line — fewer than three fragments — contributes no record:
/// the collection of the whole input is the collection of the input without
/// that line.
pub proof fn lemma_malformed_line_skipped(lines: Seq<Seq<char>>, d: Seq<char>)
    requires
        lines.len() > 0,
        split_fragments(lines.last(), d).len() < 3,
    ensures
        model_recs(lines, d) == model_recs(lines.drop_last(), d),
{
}

/// Last write wins: when the line at position `k` parses to the record `r`
/// and no later line parses to a record with the same id, the collection of
/// the whole input holds `r`'s url and title under `r`'s id.
pub proof fn lemma_last_write_wins(
    lines: Seq<Seq<char>>,
    d: Seq<char>,
    k: int,
    r: (Seq<char>, Seq<char>, Seq<char>),
)
    requires
        0 <= k < lines.len(),
        parse_line(lines[k], d) == Some(r),
        forall|j: int|
            k < j < lines.len() && (#[trigger] parse_line(lines[j], d)) is Some
                ==> (parse_line(lines[j], d)->Some_0).0 != r.0,
    ensures
        map_of(model_recs(lines, d)).contains_key(r.0),
        map_of(model_recs(lines, d))[r.0] == (r.1, r.2),
    decreases lines.len(),
{
    let dl = lines.drop_last();
    let rest = model_recs(dl, d);
    if k == lines.len() - 1 {
        assert(lines.last() == lines[k]);
        assert(model_recs(lines, d) == insert_sorted(rest, r));
        lemma_map_of_insert_sorted(rest, r);
    } else {
        assert(dl[k] == lines[k]);
        assert(forall|j: int|
            k < j < dl.len() && (#[trigger] parse_line(dl[j], d)) is Some
                ==> (parse_line(dl[j], d)->Some_0).0 != r.0) by {
            assert(forall|j: int| 0 <= j < dl.len() ==> dl[j] == lines[j]);
        }
        lemma_last_write_wins(dl, d, k, r);
        match parse_line(lines.last(), d) {
            Some(q) => {
                assert(parse_line(lines[lines.len() - 1], d) is Some);
                assert(q.0 != r.0);
                assert(model_recs(lines, d) == insert_sorted(rest, q));
                lemma_map_of_insert_sorted(rest, q);
            },
            None => {
                assert(model_recs(lines, d) == rest);
            },
        }
    }
}

/// For a collection in strictly ascending id order, placing one record keeps
/// the order strictly ascending.
pub proof fn lemma_insert_sorted_keeps_sorted(
    s: Seq<(Seq<char>, Seq<char>, Seq<char>)>,
    r: (Seq<char>, Seq<char>, Seq<char>),
)
    requires
        sorted_strict(s),
    ensures
        sorted_strict(insert_sorted(s, r)),
{
    lemma_insertion_point_exists(s, r);
    let i = choose|i: int| #[trigger] insertion_point(s, r, i);
    lemma_insert_result_sorted(s, r, i, insert_sorted(s, r));
}

/// `i` is a fit position for a record with id `r.0` in `s`: every record at
/// or above `i` has an id above `r.0`, while the one just below `i`, if any,
/// does not.
spec fn insertion_point(
    s: Seq<(Seq<char>, Seq<char>, Seq<char>)>,
    r: (Seq<char>, Seq<char>, Seq<char>),
    i: int,
) -> bool {
    &&& 0 <= i <= s.len()
    &&& forall|j: int| i <= j < s.len() ==> lex_lt(r.0, #[trigger] s[j].0)
    &&& i > 0 ==> !lex_lt(r.0, s[i - 1].0)
}

/// In any collection there is a position at which every later record's id
/// is above the new record's id, while the one just before it, if any, is
/// not above it.
proof fn lemma_insertion_point_exists(
    s: Seq<(Seq<char>, Seq<char>, Seq<char>)>,
    r: (Seq<char>, Seq<char>, Seq<char>),
)
    ensures
        exists|i: int| #[trigger] insertion_point(s, r, i),
    decreases s.len(),
{
    if s.len() == 0 {
        assert(insertion_point(s, r, 0));
    } else if !lex_lt(r.0, s.last().0) {
        assert(insertion_point(s, r, s.len() as int));
    } else {
        let dl = s.drop_last();
        lemma_insertion_point_exists(dl, r);
        let i = choose|i: int| #[trigger] insertion_point(dl, r, i);
        assert(forall|j: int| 0 <= j < dl.len() ==> dl[j] == s[j]);
        assert(forall|j: int| i <= j < s.len() ==> lex_lt(r.0, #[trigger] s[j].0)) by {
            assert(lex_lt(r.0, s.last().0));
        }
        assert(insertion_point(s, r, i));
    }
}

/// A collection in strictly ascending id order holds at most one record per
/// id: together with `lemma_last_write_wins`, a duplicated id ends up as
/// exactly one record, carrying the values of the last line that used it.
pub proof fn lemma_sorted_ids_unique(s: Seq<(Seq<char>, Seq<char>, Seq<char>)>)
    requires
        sorted_strict(s),
    ensures
        forall|i: int, j: int| 0 <= i < j < s.len() ==> s[i].0 != s[j].0,
{
    assert forall|i: int, j: int| 0 <= i < j < s.len() implies s[i].0 != s[j].0 by {
        crate::order::lemma_lex_trichotomy(s[i].0, s[j].0);
    }
}

/// The mapping a collection holds has exactly the ids of its records as keys.
pub proof fn lemma_map_of_domain(s: Seq<(Seq<char>, Seq<char>, Seq<char>)>, id: Seq<char>)
    ensures
        map_of(s).contains_key(id) <==> exists|k: int|
            0 <= k < s.len() && (#[trigger] s[k]).0 == id,
    decreases s.len(),
{
    if s.len() == 0 {
    } else {
        let dl = s.drop_last();
        lemma_map_of_domain(dl, id);
        if id == s.last().0 {
            assert((s[s.len() - 1]).0 == id);
        } else {
            if exists|k: int| 0 <= k < s.len() && (#[trigger] s[k]).0 == id {
                let k = choose|k: int| 0 <= k < s.len() && (#[trigger] s[k]).0 == id;
                assert(k < s.len() - 1);
                assert((dl[k]).0 == id);
            }
            if exists|k: int| 0 <= k < dl.len() && (#[trigger] dl[k]).0 == id {
                let k = choose|k: int| 0 <= k < dl.len() && (#[trigger] dl[k]).0 == id;
                assert((s[k]).0 == id);
            }
        }
    }
}

/// A collection in strictly ascending id order is determined by the mapping
/// it holds: two such collections holding the same mapping are the same
/// collection, record for record. With `lemma_last_write_wins` this pins the
/// whole collection — and so the whole rendering — to the per-id outcome of
/// the input, independent of everything else about line order.
pub proof fn lemma_sorted_collection_canonical(
    s1: Seq<(Seq<char>, Seq<char>, Seq<char>)>,
    s2: Seq<(Seq<char>, Seq<char>, Seq<char>)>,
)
    requires
        sorted_strict(s1),
        sorted_strict(s2),
        map_of(s1) == map_of(s2),
    ensures
        s1 == s2,
    decreases s1.len(),
{
    if s1.len() == 0 {
        if s2.len() > 0 {
            assert(map_of(s2).contains_key(s2.last().0));
            assert(false);
        }
        assert(s1 =~= s2);
    } else if s2.len() == 0 {
        assert(map_of(s1).contains_key(s1.last().0));
        assert(false);
    } else {
        let a = s1.last();
        let b = s2.last();
        assert(map_of(s1).contains_key(a.0));
        assert(map_of(s2).contains_key(b.0));
        lemma_map_of_domain(s2, a.0);
        lemma_map_of_domain(s1, b.0);
        let ka = choose|k: int| 0 <= k < s2.len() && (#[trigger] s2[k]).0 == a.0;
        let kb = choose|k: int| 0 <= k < s1.len() && (#[trigger] s1[k]).0 == b.0;
        assert(a.0 == b.0) by {
            if ka < s2.len() - 1 {
                assert(lex_lt(s2[ka].0, b.0));
            }
            if kb < s1.len() - 1 {
                assert(lex_lt(s1[kb].0, a.0));
            }
            crate::order::lemma_lex_trichotomy(a.0, b.0);
        }
        assert(map_of(s1)[a.0] == (a.1, a.2));
        assert(map_of(s2)[b.0] == (b.1, b.2));
        assert(a == b);
        let dl1 = s1.drop_last();
        let dl2 = s2.drop_last();
        assert(!map_of(dl1).contains_key(a.0)) by {
            lemma_map_of_domain(dl1, a.0);
            if exists|k: int| 0 <= k < dl1.len() && (#[trigger] dl1[k]).0 == a.0 {
                let k = choose|k: int| 0 <= k < dl1.len() && (#[trigger] dl1[k]).0 == a.0;
                lemma_sorted_ids_unique(s1);
                assert((s1[k]).0 == (s1[s1.len() - 1]).0);
                assert(false);
            }
        }
        assert(!map_of(dl2).contains_key(b.0)) by {
            lemma_map_of_domain(dl2, b.0);
            if exists|k: int| 0 <= k < dl2.len() && (#[trigger] dl2[k]).0 == b.0 {
                let k = choose|k: int| 0 <= k < dl2.len() && (#[trigger] dl2[k]).0 == b.0;
                lemma_sorted_ids_unique(s2);
                assert((s2[k]).0 == (s2[s2.len() - 1]).0);
                assert(false);
            }
        }
        assert(map_of(dl1) =~= map_of(s1).remove(a.0));
        assert(map_of(dl2) =~= map_of(s2).remove(b.0));
        lemma_sorted_collection_canonical(dl1, dl2);
        assert(s1 =~= dl1.push(a));
        assert(s2 =~= dl2.push(b));
        assert(s1 =~= s2);
    }
}

/// The collection built from any input stands in strictly ascending
/// lexicographic order of id, whatever order the lines came in.
pub proof fn lemma_model_sorted(lines: Seq<Seq<char>>, d: Seq<char>)
    ensures
        sorted_strict(model_recs(lines, d)),
    decreases lines.len(),
{
    if lines.len() == 0 {
    } else {
        lemma_model_sorted(lines.drop_last(), d);
        match parse_line(lines.last(), d) {
            Some(r) => {
                lemma_insert_sorted_keeps_sorted(model_recs(lines.drop_last(), d), r);
            },
            None => {},
        }
    }
}

/// Rendering is deterministic: any two outputs rendered from the same
/// records, title and mode are identical, line for line.
pub proof fn lemma_render_deterministic(
    out1: Seq<Seq<char>>,
    out2: Seq<Seq<char>>,
    s: Seq<(Seq<char>, Seq<char>, Seq<char>)>,
    title: Seq<char>,
    full: bool,
)
    requires
        out1 == render_lines(s, title, full),
        out2 == render_lines(s, title, full),
    ensures
        out1 == out2,
{
}

/// Without the full-document flag the output is the list block alone — the
/// list open tag, one item per record, the list close tag — and none of its
/// lines is a document, head or body tag. (Record text passes through
/// verbatim, so this speaks of whole lines, not of substrings.)
pub proof fn lemma_fragment_only(s: Seq<(Seq<char>, Seq<char>, Seq<char>)>, title: Seq<char>)
    ensures
        render_lines(s, title, false) == list_lines(s),
        forall|i: int|
            0 <= i < list_lines(s).len() ==> {
                let line = #[trigger] list_lines(s)[i];
                line != "<html>"@ && line != "<head>"@ && line != "<body>"@ && line != "</html>"@
                    && line != "</head>"@ && line != "</body>"@
            },
{
    reveal_strlit("<html>");
    reveal_strlit("<head>");
    reveal_strlit("<body>");
    reveal_strlit("</html>");
    reveal_strlit("</head>");
    reveal_strlit("</body>");
    reveal_strlit("  <ul>");
    reveal_strlit("  </ul>");
    reveal_strlit("      <li><a href=\"");
    let out = list_lines(s);
    assert forall|i: int| 0 <= i < out.len() implies {
        let line = #[trigger] out[i];
        line != "<html>"@ && line != "<head>"@ && line != "<body>"@ && line != "</html>"@
            && line != "</head>"@ && line != "</body>"@
    } by {
        let line = out[i];
        if i == 0 {
            assert(line == "  <ul>"@);
            assert(line[0] == ' ');
        } else if i == out.len() - 1 {
            assert(line == "  </ul>"@);
            assert(line[0] == ' ');
        } else {
            assert(line == li_line(s[i - 1]));
            assert(line[0] == "      <li><a href=\""@[0]);
            assert(line[0] == ' ');
        }
        assert("<html>"@[0] == '<');
        assert("<head>"@[0] == '<');
        assert("<body>"@[0] == '<');
        assert("</html>"@[0] == '<');
        assert("</head>"@[0] == '<');
        assert("</body>"@[0] == '<');
    }
}

/// In full-document mode the title appears exactly once as the head's title
/// element and exactly once as the body's heading: those lines stand at
/// their fixed positions and no other output line equals either of them.
/// (Record text passes through verbatim, so this speaks of whole lines.)
pub proof fn lemma_title_once(s: Seq<(Seq<char>, Seq<char>, Seq<char>)>, title: Seq<char>)
    ensures
        render_lines(s, title, true).len() == 11 + s.len(),
        render_lines(s, title, true)[3] == title_line(title),
        render_lines(s, title, true)[6] == h1_line(title),
        forall|i: int|
            0 <= i < render_lines(s, title, true).len() && i != 3
                ==> #[trigger] render_lines(s, title, true)[i] != title_line(title),
        forall|i: int|
            0 <= i < render_lines(s, title, true).len() && i != 6
                ==> #[trigger] render_lines(s, title, true)[i] != h1_line(title),
{
    reveal_strlit("<html>");
    reveal_strlit("<head>");
    reveal_strlit("  <meta charset=\"utf-8\"/>");
    reveal_strlit("</head>");
    reveal_strlit("<body>");
    reveal_strlit("</body>");
    reveal_strlit("</html>");
    reveal_strlit("  <ul>");
    reveal_strlit("  </ul>");
    reveal_strlit("      <li><a href=\"");
    reveal_strlit("  <title>");
    reveal_strlit("</title>");
    reveal_strlit("  <h1>");
    reveal_strlit("</h1>");
    let out = render_lines(s, title, true);
    let tl = title_line(title);
    let hl = h1_line(title);
    assert(tl.len() == 17 + title.len());
    assert(hl.len() == 11 + title.len());
    assert(tl[3] == "  <title>"@[3]);
    assert(tl[3] == 't');
    assert(hl[3] == "  <h1>"@[3]);
    assert(hl[3] == 'h');
    assert(out.len() == 11 + s.len());
    assert forall|i: int| 0 <= i < out.len() && i != 3 implies #[trigger] out[i] != tl by {
        lemma_line_shape(s, title, i);
        let line = out[i];
        if line == tl {
            assert(line.len() == 17 + title.len());
            assert(line[3] == 't');
            if i == 6 {
                assert(line == hl);
                assert(hl.len() == 11 + title.len());
            }
            assert(false);
        }
    }
    assert forall|i: int| 0 <= i < out.len() && i != 6 implies #[trigger] out[i] != hl by {
        lemma_line_shape(s, title, i);
        let line = out[i];
        if line == hl {
            assert(line.len() == 11 + title.len());
            assert(line[3] == 'h');
            if i == 3 {
                assert(line == tl);
                assert(tl.len() == 17 + title.len());
            }
            assert(false);
        }
    }
}

/// Which line stands at position `i` of a full-document rendering, and, for
/// every line other than the title and heading, a reason it can equal
/// neither: a length below eleven characters, or another character at
/// position three.
proof fn lemma_line_shape(s: Seq<(Seq<char>, Seq<char>, Seq<char>)>, title: Seq<char>, i: int)
    requires
        0 <= i < render_lines(s, title, true).len(),
    ensures
        i == 3 ==> render_lines(s, title, true)[i] == title_line(title),
        i == 6 ==> render_lines(s, title, true)[i] == h1_line(title),
        i != 3 && i != 6 ==> {
            let line = render_lines(s, title, true)[i];
            line.len() < 11 || (line.len() > 3 && line[3] != 't' && line[3] != 'h')
        },
{
    reveal_strlit("<html>");
    reveal_strlit("<head>");
    reveal_strlit("  <meta charset=\"utf-8\"/>");
    reveal_strlit("</head>");
    reveal_strlit("<body>");
    reveal_strlit("</body>");
    reveal_strlit("</html>");
    reveal_strlit("  <ul>");
    reveal_strlit("  </ul>");
    reveal_strlit("      <li><a href=\"");
    let out = render_lines(s, title, true);
    let n = s.len() as int;
    assert(out.len() == 11 + n);
    if i < 7 {
        assert(out[i] == header_lines(title)[i]);
        if i == 2 {
            assert(out[i] == "  <meta charset=\"utf-8\"/>"@);
            assert(out[i][3] == 'm');
        } else if i != 3 && i != 6 {
            assert(out[i].len() < 11);
        }
    } else if i == 7 {
        assert(out[i] == "  <ul>"@);
        assert(out[i].len() < 11);
    } else if i < 8 + n {
        assert(out[i] == list_lines(s)[i - 7]);
        assert(list_lines(s)[i - 7] == li_line(s[i - 8]));
        let line = li_line(s[i - 8]);
        assert(line[3] == "      <li><a href=\""@[3]);
        assert(line[3] == ' ');
    } else if i == 8 + n {
        assert(out[i] == list_lines(s)[i - 7]);
        assert(out[i] == "  </ul>"@);
        assert(out[i].len() < 11);
    } else {
        assert(out[i] == footer_lines()[i - 9 - n]);
        assert(out[i].len() < 11);
    }
}

} // verus!
