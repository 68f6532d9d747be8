use vstd::prelude::*;
use vstd::multiset::Multiset;
use vstd::seq_lib::{to_multiset_insert, to_multiset_remove};

verus! {

/// `needle` occurs in `haystack` starting at offset `start`.
pub open spec fn matches_at(haystack: Seq<char>, start: int, needle: Seq<char>) -> bool {
    0 <= start && start + needle.len() <= haystack.len() && haystack.subrange(start, start + needle.len())
        == needle
}

/// Looks for `needle` in `haystack` at offset `start`. On a match, returns the offset of the
/// last matched character; an empty needle never matches.
pub fn string_match(haystack: &[char], start: usize, needle: &str, _regex: bool) -> (r: Option<usize>)
    ensures
        r is Some <==> (needle@.len() > 0 && matches_at(haystack@, start as int, needle@)),
        r is Some ==> r->0 == start + needle@.len() - 1,
{
    let n = needle.unicode_len();
    if n == 0 {
        return None;
    }
    if start > haystack.len() || haystack.len() - start < n {
        return None;
    }
    let mut i: usize = 0;
    while i < n
        invariant
            i <= n,
            n == needle@.len(),
            start + n <= haystack@.len(),
            haystack@.len() <= usize::MAX,
            forall|j: int| 0 <= j < i ==> haystack@[start + j] == needle@[j],
        decreases n - i,
    {
        if haystack[start + i] != needle.get_char(i) {
            assert(haystack@.subrange(start as int, start + n)[i as int] != needle@[i as int]);
            return None;
        }
        i += 1;
    }
    assert(haystack@.subrange(start as int, start + n) =~= needle@);
    Some(start + n - 1)
}

/// Bindings from trigger strings to the events they emit.
pub enum ParseTable<E> {
    /// Triggers tried in order; each one emits all of its events where it matches.
    Triggers(Vec<(String, Vec<E>)>),
    /// One event emitted at every position of the pattern.
    Single(E),
}

/// A parser that is of no use until a table has been given to it.
pub struct Parser<E>(pub Option<ParseTable<E>>);

/// Why a pattern could not be parsed.
#[derive(Debug, Clone, Copy, PartialEq, Eq)]
pub enum ParseError {
    /// The parser has not been given a table yet.
    NoParseTable,
}

/// Length of the trigger of a binding.
pub open spec fn key_len<E>(entry: (String, Vec<E>)) -> nat {
    entry.0@.len()
}

/// The bindings are in ascending order of trigger length.
pub open spec fn sorted_by_key_len<E>(m: Seq<(String, Vec<E>)>) -> bool {
    forall|a: int, b: int| 0 <= a < b < m.len() ==> key_len(m[a]) <= key_len(m[b])
}

/// Triggers and events of a table of bindings.
pub open spec fn table_view<E>(m: Seq<(String, Vec<E>)>) -> Seq<(Seq<char>, Seq<E>)> {
    m.map_values(|entry: (String, Vec<E>)| (entry.0@, entry.1@))
}

/// Index of the first binding, at `k` or later, whose non-empty trigger occurs at `read`.
pub open spec fn first_match_from<E>(
    m: Seq<(Seq<char>, Seq<E>)>,
    pattern: Seq<char>,
    read: int,
    k: int,
) -> Option<int>
    decreases m.len() - k,
{
    if k < 0 || k >= m.len() {
        None
    } else if m[k].0.len() > 0 && matches_at(pattern, read, m[k].0) {
        Some(k)
    } else {
        first_match_from(m, pattern, read, k + 1)
    }
}

/// Every event of `events`, recorded at offset `pos`.
pub open spec fn events_at<E>(pos: int, events: Seq<E>) -> Seq<(usize, E)> {
    events.map_values(|e: E| (pos as usize, e))
}

/// What a scan of `pattern` from offset `read` records: at each offset the first matching
/// binding's events are recorded and the scan jumps past the match; an offset where no
/// trigger matches is skipped.
pub open spec fn parse_from<E>(m: Seq<(Seq<char>, Seq<E>)>, pattern: Seq<char>, read: int) -> Seq<(usize, E)>
    decreases pattern.len() - read,
{
    if read < 0 || read >= pattern.len() {
        seq![]
    } else {
        match first_match_from(m, pattern, read, 0) {
            Some(k) => if 0 <= k < m.len() && m[k].0.len() > 0 && matches_at(pattern, read, m[k].0) {
                events_at(read, m[k].1) + parse_from(m, pattern, read + m[k].0.len())
            } else {
                seq![]
            },
            None => parse_from(m, pattern, read + 1),
        }
    }
}

/// The `(offset, event)` pairs that `table` records for `pattern`.
pub open spec fn parse_spec<E>(table: ParseTable<E>, pattern: Seq<char>) -> Seq<(usize, E)> {
    match table {
        ParseTable::Triggers(m) => parse_from(table_view(m@), pattern, 0),
        ParseTable::Single(e) => Seq::new(pattern.len(), |i: int| (i as usize, e)),
    }
}

/// `x` inserted into `m` in front of the first binding whose trigger is longer.
pub open spec fn insert_by_len<E>(m: Seq<(String, Vec<E>)>, x: (String, Vec<E>)) -> Seq<(String, Vec<E>)>
    decreases m.len(),
{
    if m.len() == 0 {
        seq![x]
    } else if key_len(m[0]) <= key_len(x) {
        seq![m[0]] + insert_by_len(m.drop_first(), x)
    } else {
        seq![x] + m
    }
}

/// The bindings sorted by trigger length by insertion, one after the other: bindings whose
/// triggers have the same length keep their order.
pub open spec fn sort_by_len<E>(m: Seq<(String, Vec<E>)>) -> Seq<(String, Vec<E>)>
    decreases m.len(),
{
    if m.len() == 0 {
        seq![]
    } else {
        insert_by_len(sort_by_len(m.drop_last()), m.last())
    }
}

/// Inserting in front of the first longer trigger is `insert_by_len`.
proof fn lemma_insert_by_len<E>(m: Seq<(String, Vec<E>)>, x: (String, Vec<E>), pos: int)
    requires
        0 <= pos <= m.len(),
        forall|j: int| 0 <= j < pos ==> key_len(#[trigger] m[j]) <= key_len(x),
        pos < m.len() ==> key_len(m[pos]) > key_len(x),
    ensures
        m.insert(pos, x) == insert_by_len(m, x),
    decreases pos,
{
    if m.len() == 0 {
        assert(m.insert(pos, x) =~= seq![x]);
    } else if pos == 0 {
        assert(m.insert(pos, x) =~= seq![x] + m);
    } else {
        let t = m.drop_first();
        assert forall|j: int| 0 <= j < pos - 1 implies key_len(#[trigger] t[j]) <= key_len(x) by {
            assert(t[j] == m[j + 1]);
        }
        lemma_insert_by_len(t, x, pos - 1);
        assert(m.insert(pos, x) =~= seq![m[0]] + t.insert(pos - 1, x));
    }
}

impl<E: Copy> ParseTable<E> {
    /// A table of the given bindings, put in ascending order of trigger length by
    /// insertion; bindings whose triggers have the same length keep their order.
    pub fn insert_sort(inputs: Vec<(String, Vec<E>)>) -> (r: Self)
        ensures
            r is Triggers,
            r->Triggers_0@ == sort_by_len(inputs@),
            sorted_by_key_len(r->Triggers_0@),
            r->Triggers_0@.to_multiset() == inputs@.to_multiset(),
    {
        broadcast use vstd::multiset::group_multiset_axioms, vstd::multiset::lemma_multiset_empty_len, vstd::seq_lib::group_to_multiset_ensures;

        let ghost orig = inputs@;
        assert(Seq::<(String, Vec<E>)>::empty().to_multiset() =~= Multiset::empty());
        assert(orig.to_multiset().add(Multiset::empty()) =~= orig.to_multiset());
        let mut rest = inputs;
        let mut out: Vec<(String, Vec<E>)> = Vec::new();
        assert(orig.subrange(0, 0) =~= Seq::<(String, Vec<E>)>::empty());
        assert(orig.subrange(0, orig.len() as int) =~= orig);
        while rest.len() > 0
            invariant
                rest@.len() <= orig.len(),
                rest@ == orig.subrange(orig.len() - rest@.len(), orig.len() as int),
                out@ == sort_by_len(orig.subrange(0, orig.len() - rest@.len())),
                sorted_by_key_len(out@),
                out@.to_multiset().add(rest@.to_multiset()) == orig.to_multiset(),
            decreases rest@.len(),
        {
            let ghost before_rest = rest@;
            let entry = rest.remove(0);
            proof {
                to_multiset_remove(before_rest, 0);
                assert(before_rest[0] == entry);
                assert(before_rest.contains(entry));
                vstd::seq_lib::to_multiset_contains(before_rest, entry);
                assert(before_rest.to_multiset().count(entry) > 0);
                assert(before_rest.to_multiset() =~= rest@.to_multiset().insert(entry));
            }
            let n = entry.0.as_str().unicode_len();
            let mut pos: usize = 0;
            while pos < out.len() && out[pos].0.as_str().unicode_len() <= n
                invariant
                    pos <= out@.len(),
                    n == key_len(entry),
                    forall|j: int| 0 <= j < pos ==> key_len(#[trigger] out@[j]) <= n,
                decreases out@.len() - pos,
            {
                pos += 1;
            }
            let ghost before_out = out@;
            out.insert(pos, entry);
            proof {
                let done = orig.len() - before_rest.len();
                assert(before_rest[0] == orig[done]);
                assert(orig.subrange(0, done + 1).drop_last() =~= orig.subrange(0, done));
                assert(orig.subrange(0, done + 1).last() == entry);
                lemma_insert_by_len(before_out, entry, pos as int);
                assert(rest@ =~= orig.subrange(orig.len() - rest@.len(), orig.len() as int));
                to_multiset_insert(before_out, pos as int, entry);
                assert(out@.to_multiset().add(rest@.to_multiset()) =~= before_out.to_multiset().add(
                    before_rest.to_multiset(),
                ));
            }
            assert forall|a: int, b: int| 0 <= a < b < out@.len() implies key_len(out@[a]) <= key_len(
                out@[b],
            ) by {
                if pos < before_out.len() {
                    assert(key_len(before_out[pos as int]) > n);
                }
            }
        }
        assert(rest@.to_multiset() =~= Multiset::empty());
        assert(out@.to_multiset().add(Multiset::empty()) =~= out@.to_multiset());
        assert(orig.subrange(0, orig.len() as int) =~= orig);
        ParseTable::Triggers(out)
    }

    /// The `(offset, event)` pairs recorded for `pattern`.
    pub fn parse(&self, pattern: &[char]) -> (r: Vec<(usize, E)>)
        ensures
            r@ == parse_spec(*self, pattern@),
    {
        match self {
            ParseTable::Single(e) => {
                let mut out: Vec<(usize, E)> = Vec::new();
                let mut i: usize = 0;
                while i < pattern.len()
                    invariant
                        i <= pattern@.len(),
                        out@ =~= Seq::new(i as nat, |j: int| (j as usize, *e)),
                    decreases pattern@.len() - i,
                {
                    out.push((i, *e));
                    i += 1;
                }
                out
            },
            ParseTable::Triggers(m) => {
                let ghost tv = table_view(m@);
                let mut out: Vec<(usize, E)> = Vec::new();
                let mut read: usize = 0;
                while read < pattern.len()
                    invariant
                        tv == table_view(m@),
                        out@ + parse_from(tv, pattern@, read as int) == parse_from(tv, pattern@, 0),
                    decreases pattern@.len() - read,
                {
                    let mut k: usize = 0;
                    let mut found = false;
                    while !found && k < m.len()
                        invariant
                            k <= m@.len(),
                            tv == table_view(m@),
                            read < pattern@.len(),
                            first_match_from(tv, pattern@, read as int, 0) == (if found {
                                Some(k as int)
                            } else {
                                first_match_from(tv, pattern@, read as int, k as int)
                            }),
                            found ==> k < m@.len(),
                            found ==> tv[k as int].0.len() > 0 && matches_at(
                                pattern@,
                                read as int,
                                tv[k as int].0,
                            ),
                        decreases m@.len() - k + (if found { 0int } else { 1 }),
                    {
                        assert(tv[k as int] == (m@[k as int].0@, m@[k as int].1@));
                        if string_match(pattern, read, m[k].0.as_str(), false).is_some() {
                            found = true;
                        } else {
                            k += 1;
                        }
                    }
                    if found {
                        assert(tv[k as int] == (m@[k as int].0@, m@[k as int].1@));
                        let events = &m[k].1;
                        let ghost prev = out@;
                        let mut j: usize = 0;
                        while j < events.len()
                            invariant
                                j <= events@.len(),
                                out@ =~= prev + events_at(read as int, events@.subrange(0, j as int)),
                            decreases events@.len() - j,
                        {
                            out.push((read, events[j]));
                            j += 1;
                        }
                        assert(events@.subrange(0, events@.len() as int) =~= events@);
                        let n = m[k].0.as_str().unicode_len();
                        assert(out@ + parse_from(tv, pattern@, read + n) =~= prev + parse_from(
                            tv,
                            pattern@,
                            read as int,
                        ));
                        read = read + n;
                    } else {
                        assert(tv.len() == m@.len());
                        assert(first_match_from(tv, pattern@, read as int, k as int) is None);
                        assert(parse_from(tv, pattern@, read as int) == parse_from(
                            tv,
                            pattern@,
                            read + 1,
                        ));
                        read = read + 1;
                    }
                }
                assert(out@ + parse_from(tv, pattern@, read as int) =~= out@);
                out
            },
        }
    }
}

impl<E: Copy> Parser<E> {
    /// A parser without a table.
    pub fn new() -> (r: Self)
        ensures
            r.0 is None,
    {
        Parser(None)
    }

    /// Gives the parser the table it parses with, in place of any earlier one.
    pub fn extend(&mut self, table: ParseTable<E>)
        ensures
            final(self).0 == Some(table),
    {
        self.0 = Some(table);
    }

    /// Parses `pattern` with the parser's table.
    pub fn parse(&self, pattern: &[char]) -> (r: Result<Vec<(usize, E)>, ParseError>)
        ensures
            self.0 is None ==> r == Err::<Vec<(usize, E)>, ParseError>(ParseError::NoParseTable),
            self.0 is Some ==> r is Ok && r->Ok_0@ == parse_spec(self.0->0, pattern@),
    {
        match &self.0 {
            None => Err(ParseError::NoParseTable),
            Some(table) => Ok(table.parse(pattern)),
        }
    }
}

} // verus!

verus! {

/// Parsing is a function of the table and the pattern alone: parsing the same pattern with
/// the same table twice records the same `(offset, event)` pairs.
pub proof fn lemma_parse_idempotent<E>(
    table: ParseTable<E>,
    again: ParseTable<E>,
    pattern: Seq<char>,
    pattern_again: Seq<char>,
)
    requires
        table == again,
        pattern == pattern_again,
    ensures
        parse_spec(table, pattern) == parse_spec(again, pattern_again),
{
}

} // verus!
