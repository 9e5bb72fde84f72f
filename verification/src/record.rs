//! One link record and the parsing of a delimited input line into it.
//!
//! A line is split into fragments on a fixed delimiter; the first three
//! fragments become the record's id, url and title, verbatim. A line with
//! fewer than three fragments yields no record.

use vstd::prelude::*;
use vstd::string::StrSliceExecFns;
use vstd::string::StringExecFns;

verus! {

/// A parsed link: an identifier, a target URL and a human-readable title.
/// The fields are opaque text; no structural validation is performed.
pub struct Link {
    pub id: String,
    pub url: String,
    pub title: String,
}

/// True when the delimiter `d` occurs in `s` starting at index `i`.
pub open spec fn match_at(s: Seq<char>, d: Seq<char>, i: int) -> bool {
    &&& 0 <= i
    &&& i + d.len() <= s.len()
    &&& s.subrange(i, i + d.len() as int) == d
}

/// The fragments of `s` under delimiter `d`, scanned left to right from
/// position `cur`, the fragment in progress having begun at `start`: each
/// occurrence of `d` ends the fragment in progress, and the scan resumes
/// after it, so occurrences never overlap.
pub open spec fn split_scan(s: Seq<char>, d: Seq<char>, start: int, cur: int) -> Seq<Seq<char>>
    decreases s.len() - cur,
        when 1 <= d.len() && 0 <= start && start <= cur && cur <= s.len()
{
    if cur + d.len() > s.len() {
        seq![s.subrange(start, s.len() as int)]
    } else if match_at(s, d, cur) {
        seq![s.subrange(start, cur)] + split_scan(s, d, cur + d.len(), cur + d.len())
    } else {
        split_scan(s, d, start, cur + 1)
    }
}

/// All fragments of `s` split on the delimiter `d`.
pub open spec fn split_fragments(s: Seq<char>, d: Seq<char>) -> Seq<Seq<char>> {
    split_scan(s, d, 0, 0)
}

/// The record a line yields, if any: the first three fragments of the line,
/// as (id, url, title); `None` when the line is malformed (fewer than three
/// fragments). Fragments past the third are dropped.
pub open spec fn parse_line(line: Seq<char>, d: Seq<char>) -> Option<(Seq<char>, Seq<char>, Seq<char>)> {
    let frags = split_fragments(line, d);
    if frags.len() >= 3 {
        Some((frags[0], frags[1], frags[2]))
    } else {
        None
    }
}

/// Compares `s` at position `cur` with the whole of `d`, deciding whether
/// the delimiter occurs there.
fn is_match_at(s: &str, d: &str, cur: usize, s_len: usize, d_len: usize) -> (r: bool)
    requires
        s_len == s@.len(),
        d_len == d@.len(),
        cur + d_len <= s_len,
    ensures
        r == match_at(s@, d@, cur as int),
{
    let mut k: usize = 0;
    while k < d_len
        invariant
            s_len == s@.len(),
            d_len == d@.len(),
            cur + d_len <= s_len,
            0 <= k <= d_len,
            forall|m: int| 0 <= m < k ==> s@[cur + m] == d@[m],
        decreases d_len - k,
    {
        if s.get_char(cur + k) != d.get_char(k) {
            assert(s@.subrange(cur as int, cur + d_len as int)[k as int] != d@[k as int]);
            return false;
        }
        k = k + 1;
    }
    assert(s@.subrange(cur as int, cur + d_len as int) =~= d@);
    true
}

/// Splits `text` into all its fragments under `delimiter`, left to right.
pub fn split_all(text: &str, delimiter: &str) -> (r: Vec<String>)
    requires
        delimiter@.len() >= 1,
    ensures
        crate::views_of(r@) == split_fragments(text@, delimiter@),
{
    let s_len: usize = text.unicode_len();
    let d_len: usize = delimiter.unicode_len();
    let mut done: Vec<String> = Vec::new();
    let mut start: usize = 0;
    let mut cur: usize = 0;
    proof {
        assert(crate::views_of(done@) =~= Seq::<Seq<char>>::empty());
    }
    loop
        invariant
            s_len == text@.len(),
            d_len == delimiter@.len(),
            1 <= d_len,
            0 <= start <= cur <= s_len,
            split_fragments(text@, delimiter@) == crate::views_of(done@)
                + split_scan(text@, delimiter@, start as int, cur as int),
        decreases s_len - cur,
    {
        if d_len > s_len - cur {
            let frag = text.substring_char(start, s_len);
            done.push(String::from_str(frag));
            assert(crate::views_of(done@) =~= crate::views_of(done@.drop_last()).push(frag@));
            assert(crate::views_of(done@) =~= split_fragments(text@, delimiter@));
            return done;
        }
        if is_match_at(text, delimiter, cur, s_len, d_len) {
            let frag = text.substring_char(start, cur);
            done.push(String::from_str(frag));
            assert(crate::views_of(done@) =~= crate::views_of(done@.drop_last()).push(frag@));
            start = cur + d_len;
            cur = cur + d_len;
            assert(crate::views_of(done@)
                + split_scan(text@, delimiter@, start as int, cur as int)
                =~= split_fragments(text@, delimiter@));
        } else {
            cur = cur + 1;
        }
    }
}

impl Link {
    /// Parses one line into a link, the fields separated by `delimiter`:
    /// the first fragment becomes the id, the second the url, the third the
    /// title, verbatim; anything after a third delimiter is dropped. A line
    /// with fewer than three fragments yields an error.
    pub fn from_str<'a>(text: &'a str, delimiter: &str) -> (r: Result<Link, &'a str>)
        requires
            delimiter@.len() >= 1,
        ensures
            match r {
                Ok(link) => parse_line(text@, delimiter@)
                    == Some((link.id@, link.url@, link.title@)),
                Err(e) => parse_line(text@, delimiter@) is None && e@ == "Can't parse link"@,
            },
    {
        let fragments = split_all(text, delimiter);
        if fragments.len() < 3 {
            return Err("Can't parse link");
        }
        assert(crate::views_of(fragments@)[0] == fragments@[0]@);
        assert(crate::views_of(fragments@)[1] == fragments@[1]@);
        assert(crate::views_of(fragments@)[2] == fragments@[2]@);
        Ok(Link {
            id: fragments[0].clone(),
            url: fragments[1].clone(),
            title: fragments[2].clone(),
        })
    }
}

} // verus!
