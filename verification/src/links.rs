//! The link collection: records deduplicated by id and kept in ascending
//! lexicographic order of id, with last-write-wins on a duplicate id.

use vstd::prelude::*;

use crate::order::lemma_lex_transitive;
use crate::order::lemma_lex_trichotomy;
use crate::order::lex_lt;
use crate::order::str_lt;
use crate::record::parse_line;
use crate::record::Link;

verus! {

/// The abstract value of one record: its id, url and title text.
pub open spec fn rec_of(l: Link) -> (Seq<char>, Seq<char>, Seq<char>) {
    (l.id@, l.url@, l.title@)
}

/// Records in strictly ascending lexicographic order of id; strictness makes
/// ids pairwise distinct.
pub open spec fn sorted_strict(s: Seq<(Seq<char>, Seq<char>, Seq<char>)>) -> bool {
    forall|i: int, j: int| 0 <= i < j < s.len() ==> lex_lt(s[i].0, s[j].0)
}

/// Where a record lands in a collection ordered by id: records with a
/// greater id move one place up, a record with the same id is replaced, and
/// the new record takes the freed position.
pub open spec fn insert_sorted(
    s: Seq<(Seq<char>, Seq<char>, Seq<char>)>,
    r: (Seq<char>, Seq<char>, Seq<char>),
) -> Seq<(Seq<char>, Seq<char>, Seq<char>)>
    decreases s.len(),
{
    if s.len() == 0 {
        seq![r]
    } else if lex_lt(r.0, s.last().0) {
        insert_sorted(s.drop_last(), r).push(s.last())
    } else if r.0 == s.last().0 {
        s.drop_last().push(r)
    } else {
        s.push(r)
    }
}

/// The collection every run builds from the input lines, line by line: each
/// line that parses is placed into the collection in id order, replacing any
/// earlier record with the same id; malformed lines contribute nothing.
pub open spec fn model_recs(lines: Seq<Seq<char>>, d: Seq<char>) -> Seq<
    (Seq<char>, Seq<char>, Seq<char>),
>
    decreases lines.len(),
{
    if lines.len() == 0 {
        Seq::empty()
    } else {
        let rest = model_recs(lines.drop_last(), d);
        match parse_line(lines.last(), d) {
            Some(r) => insert_sorted(rest, r),
            None => rest,
        }
    }
}

/// The collection read as a mapping: each id to the url and title stored
/// under it. Later entries of the sequence win, as later lines of the file do.
pub open spec fn map_of(s: Seq<(Seq<char>, Seq<char>, Seq<char>)>) -> Map<
    Seq<char>,
    (Seq<char>, Seq<char>),
>
    decreases s.len(),
{
    if s.len() == 0 {
        Map::empty()
    } else {
        map_of(s.drop_last()).insert(s.last().0, (s.last().1, s.last().2))
    }
}

/// Placing a record into the collection means exactly one thing for the
/// mapping it holds: the record's id now maps to its url and title, and
/// every other id maps to what it mapped to before.
pub proof fn lemma_map_of_insert_sorted(
    s: Seq<(Seq<char>, Seq<char>, Seq<char>)>,
    r: (Seq<char>, Seq<char>, Seq<char>),
)
    ensures
        map_of(insert_sorted(s, r)) == map_of(s).insert(r.0, (r.1, r.2)),
    decreases s.len(),
{
    if s.len() == 0 {
        let t = seq![r];
        assert(t.drop_last() =~= Seq::<(Seq<char>, Seq<char>, Seq<char>)>::empty());
        assert(map_of(t) == map_of(t.drop_last()).insert(r.0, (r.1, r.2)));
        assert(map_of(s).insert(r.0, (r.1, r.2)) =~= map_of(t));
    } else if lex_lt(r.0, s.last().0) {
        lemma_map_of_insert_sorted(s.drop_last(), r);
        lemma_lex_trichotomy(r.0, s.last().0);
        let t = insert_sorted(s.drop_last(), r).push(s.last());
        assert(t.drop_last() =~= insert_sorted(s.drop_last(), r));
        assert(t.last() == s.last());
        assert(map_of(t) == map_of(s.drop_last()).insert(r.0, (r.1, r.2)).insert(
            s.last().0,
            (s.last().1, s.last().2),
        ));
        assert(map_of(t) =~= map_of(s).insert(r.0, (r.1, r.2)));
    } else if r.0 == s.last().0 {
        let t = s.drop_last().push(r);
        assert(t.drop_last() =~= s.drop_last());
        assert(t.last() == r);
        assert(map_of(t) == map_of(s.drop_last()).insert(r.0, (r.1, r.2)));
        assert(map_of(s).insert(r.0, (r.1, r.2)) =~= map_of(t));
    } else {
        let t = s.push(r);
        assert(t.drop_last() =~= s);
        assert(t.last() == r);
    }
}

/// The deduplicated collection of parsed links, iterated in ascending id order.
pub struct Links {
    records: Vec<Link>,
}

impl Links {
    /// The records the collection holds, in iteration order, as plain text
    /// triples (id, url, title).
    pub closed spec fn recs(&self) -> Seq<(Seq<char>, Seq<char>, Seq<char>)> {
        self.records@.map_values(|l: Link| rec_of(l))
    }

    /// The collection invariant: records stand in strictly ascending id order.
    pub open spec fn wf(&self) -> bool {
        sorted_strict(self.recs())
    }

    /// An empty collection.
    pub fn new() -> (r: Links)
        ensures
            r.recs() == Seq::<(Seq<char>, Seq<char>, Seq<char>)>::empty(),
            r.wf(),
    {
        let r = Links { records: Vec::new() };
        proof {
            assert(r.recs() =~= Seq::<(Seq<char>, Seq<char>, Seq<char>)>::empty());
        }
        r
    }

    /// How many records the collection holds.
    pub fn len(&self) -> (n: usize)
        ensures
            n == self.recs().len(),
    {
        self.records.len()
    }

    /// The record at position `i` in iteration order.
    pub fn get(&self, i: usize) -> (l: &Link)
        requires
            i < self.recs().len(),
        ensures
            rec_of(*l) == self.recs()[i as int],
    {
        &self.records[i]
    }

    /// Places `link` into the collection, keeping ascending id order; a
    /// record already present under the same id is replaced by `link`.
    pub fn insert(&mut self, link: Link)
        requires
            old(self).wf(),
        ensures
            final(self).recs() == insert_sorted(old(self).recs(), rec_of(link)),
            final(self).wf(),
    {
        let ghost s = self.recs();
        let ghost r = rec_of(link);
        let mut i: usize = self.records.len();
        proof {
            assert(s.take(i as int) =~= s);
            assert(s.skip(i as int) =~= Seq::<(Seq<char>, Seq<char>, Seq<char>)>::empty());
            assert(insert_sorted(s, r) + s.skip(i as int) =~= insert_sorted(s, r));
        }
        while i > 0 && str_lt(link.id.as_str(), self.records[i - 1].id.as_str())
            invariant
                0 <= i <= self.records.len(),
                s == self.recs(),
                r == rec_of(link),
                sorted_strict(s),
                forall|j: int| i <= j < s.len() ==> lex_lt(r.0, s[j].0),
                insert_sorted(s, r) == insert_sorted(s.take(i as int), r) + s.skip(i as int),
            decreases i,
        {
            proof {
                assert(s[i - 1].0 == self.records@[i - 1].id@);
                assert(s.take(i as int).last() == s[i - 1]);
                assert(s.take(i as int).drop_last() =~= s.take(i - 1));
                assert(insert_sorted(s.take(i as int), r) == insert_sorted(s.take(i - 1), r).push(
                    s[i - 1],
                ));
                assert(insert_sorted(s.take(i - 1), r).push(s[i - 1]) + s.skip(i as int)
                    =~= insert_sorted(s.take(i - 1), r) + s.skip(i - 1));
            }
            i = i - 1;
        }
        let ghost t = insert_sorted(s, r);
        if i > 0 && self.records[i - 1].id == link.id {
            proof {
                assert(s.take(i as int).last() == s[i - 1]);
                assert(s[i - 1].0 == r.0);
                assert(insert_sorted(s.take(i as int), r) == s.take(i as int).drop_last().push(r));
                assert(s.take(i as int).drop_last() =~= s.take(i - 1));
            }
            self.records.remove(i - 1);
            self.records.insert(i - 1, link);
            proof {
                assert(self.recs() =~= s.take(i - 1).push(r) + s.skip(i as int));
                assert(self.recs() =~= t);
            }
        } else {
            proof {
                if i > 0 {
                    assert(s.take(i as int).last() == s[i - 1]);
                    assert(s[i - 1].0 != r.0);
                    assert(!lex_lt(r.0, s[i - 1].0));
                    lemma_lex_trichotomy(r.0, s[i - 1].0);
                    assert(lex_lt(s[i - 1].0, r.0));
                    assert(insert_sorted(s.take(i as int), r) == s.take(i as int).push(r));
                } else {
                    assert(s.take(0).len() == 0);
                    assert(insert_sorted(s.take(0), r) == seq![r]);
                }
            }
            self.records.insert(i, link);
            proof {
                assert(self.recs() =~= s.take(i as int).push(r) + s.skip(i as int));
                assert(self.recs() =~= t);
            }
        }
        proof {
            lemma_insert_result_sorted(s, r, i as int, t);
        }
    }
}

/// The shape `insert` gives the collection keeps it strictly sorted: the
/// records below the insertion point are unchanged and below the new id,
/// those above are unchanged and above it.
pub(crate) proof fn lemma_insert_result_sorted(
    s: Seq<(Seq<char>, Seq<char>, Seq<char>)>,
    r: (Seq<char>, Seq<char>, Seq<char>),
    i: int,
    t: Seq<(Seq<char>, Seq<char>, Seq<char>)>,
)
    requires
        sorted_strict(s),
        0 <= i <= s.len(),
        forall|j: int| i <= j < s.len() ==> lex_lt(r.0, s[j].0),
        i > 0 ==> !lex_lt(r.0, s[i - 1].0),
        t == insert_sorted(s, r),
    ensures
        sorted_strict(t),
{
    if i > 0 && s[i - 1].0 == r.0 {
        assert(t =~= s.take(i - 1).push(r) + s.skip(i)) by {
            lemma_insert_shape(s, r, i);
        }
        assert forall|a: int, b: int| 0 <= a < b < t.len() implies lex_lt(t[a].0, t[b].0) by {
            if a < i - 1 && b == i - 1 {
                assert(t[a] == s[a]);
                assert(lex_lt(s[a].0, s[i - 1].0));
            } else if a == i - 1 && b >= i {
                assert(t[b] == s[b]);
                assert(lex_lt(r.0, s[b].0));
            } else if a < i - 1 && b >= i {
                assert(lex_lt(s[a].0, s[b].0));
            }
        }
    } else {
        assert(i > 0 ==> lex_lt(s[i - 1].0, r.0)) by {
            if i > 0 {
                lemma_lex_trichotomy(r.0, s[i - 1].0);
            }
        }
        assert(t =~= s.take(i) + seq![r] + s.skip(i)) by {
            lemma_insert_shape(s, r, i);
        }
        assert forall|a: int, b: int| 0 <= a < b < t.len() implies lex_lt(t[a].0, t[b].0) by {
            if b < i {
                assert(t[a] == s[a] && t[b] == s[b]);
            } else if a < i && b == i {
                assert(t[a] == s[a] && t[b] == r);
                assert(lex_lt(s[a].0, s[i - 1].0) || a == i - 1);
                if a < i - 1 {
                    lemma_lex_transitive(s[a].0, s[i - 1].0, r.0);
                }
            } else if a < i && b > i {
                assert(t[a] == s[a] && t[b] == s[b - 1]);
                assert(lex_lt(s[a].0, s[b - 1].0));
            } else if a == i && b > i {
                assert(t[a] == r && t[b] == s[b - 1]);
                assert(lex_lt(r.0, s[b - 1].0));
            } else {
                assert(t[a] == s[a - 1] && t[b] == s[b - 1]);
                assert(lex_lt(s[a - 1].0, s[b - 1].0));
            }
        }
    }
}

/// Unfolds `insert_sorted` at a known insertion point `i`: every record at
/// or above `i` has an id above the new one, so the recursion carries those
/// records past the new record unchanged.
proof fn lemma_insert_shape(s: Seq<(Seq<char>, Seq<char>, Seq<char>)>, r: (Seq<char>, Seq<char>, Seq<char>), i: int)
    requires
        0 <= i <= s.len(),
        forall|j: int| i <= j < s.len() ==> lex_lt(r.0, s[j].0),
    ensures
        i > 0 && s[i - 1].0 == r.0 ==> insert_sorted(s, r) == s.take(i - 1).push(r) + s.skip(i),
        (i == 0 || (!lex_lt(r.0, s[i - 1].0) && s[i - 1].0 != r.0)) ==> insert_sorted(s, r)
            == s.take(i) + seq![r] + s.skip(i),
    decreases s.len(),
{
    if i < s.len() {
        let dl = s.drop_last();
        assert(lex_lt(r.0, s.last().0));
        lemma_insert_shape(dl, r, i);
        assert(forall|j: int| i <= j < dl.len() ==> dl[j] == s[j]);
        assert(insert_sorted(s, r) == insert_sorted(dl, r).push(s.last()));
        if i > 0 && s[i - 1].0 == r.0 {
            assert(dl[i - 1] == s[i - 1]);
            assert(dl.take(i - 1) =~= s.take(i - 1));
            assert(insert_sorted(dl, r) == dl.take(i - 1).push(r) + dl.skip(i));
            assert(insert_sorted(dl, r).push(s.last()) =~= s.take(i - 1).push(r) + s.skip(i));
        } else if i == 0 || (!lex_lt(r.0, s[i - 1].0) && s[i - 1].0 != r.0) {
            if i > 0 {
                assert(dl[i - 1] == s[i - 1]);
            }
            assert(dl.take(i) =~= s.take(i));
            assert(insert_sorted(dl, r) == dl.take(i) + seq![r] + dl.skip(i));
            assert(insert_sorted(dl, r).push(s.last()) =~= s.take(i) + seq![r] + s.skip(i));
        }
    } else {
        if s.len() == 0 {
            assert(insert_sorted(s, r) == seq![r]);
            assert(seq![r] =~= s.take(0) + seq![r] + s.skip(0));
        } else if s.last().0 == r.0 {
            lemma_lex_trichotomy(r.0, s.last().0);
            assert(!lex_lt(r.0, s.last().0));
            assert(insert_sorted(s, r) == s.drop_last().push(r));
            assert(s.drop_last().push(r) =~= s.take(i - 1).push(r) + s.skip(i));
        } else if !lex_lt(r.0, s.last().0) {
            assert(insert_sorted(s, r) == s.push(r));
            assert(s.push(r) =~= s.take(i) + seq![r] + s.skip(i));
        }
    }
}

/// Reads every line in file order, inserting the record of each line that
/// parses; the collection that comes back is the model collection of the
/// whole input, in ascending id order.
pub fn extract_links(lines: &Vec<String>, delimiter: &str) -> (r: Links)
    requires
        delimiter@.len() >= 1,
    ensures
        r.wf(),
        r.recs() == model_recs(crate::views_of(lines@), delimiter@),
{
    let ghost lv = crate::views_of(lines@);
    let mut links = Links::new();
    let mut k: usize = 0;
    proof {
        assert(lv.take(0).len() == 0);
    }
    while k < lines.len()
        invariant
            lv == crate::views_of(lines@),
            0 <= k <= lines.len(),
            delimiter@.len() >= 1,
            links.wf(),
            links.recs() == model_recs(lv.take(k as int), delimiter@),
        decreases lines.len() - k,
    {
        let line: &String = &lines[k];
        proof {
            assert(lv[k as int] == line@);
        }
        match Link::from_str(line.as_str(), delimiter) {
            Ok(link) => {
                links.insert(link);
            },
            Err(_) => {},
        }
        proof {
            assert(lv.take(k + 1).drop_last() =~= lv.take(k as int));
            assert(lv.take(k + 1).last() == lv[k as int]);
        }
        k = k + 1;
    }
    proof {
        assert(lv.take(lines@.len() as int) =~= lv);
    }
    links
}

} // verus!
