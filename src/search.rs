//! Line splitting and substring matching.
use vstd::prelude::*;

verus! {

/// `needle` occurs as a contiguous run of characters somewhere in `hay`.
pub open spec fn contains_seq(hay: Seq<char>, needle: Seq<char>) -> bool {
    exists|k: int|
        0 <= k && k + needle.len() <= hay.len() && #[trigger] hay.subrange(k, k + needle.len())
            == needle
}

/// The lines of a document: the pieces between newlines, each without its
/// terminator. A newline at the very end opens no further, empty line.
pub open spec fn lines(s: Seq<char>) -> Seq<Seq<char>>
    decreases s.len(),
    via lines_decreases
{
    if s.len() == 0 {
        seq![]
    } else {
        match s.index_of_first('\n') {
            Some(i) => seq![s.take(i)] + lines(s.skip(i + 1)),
            None => seq![s],
        }
    }
}

#[via_fn]
proof fn lines_decreases(s: Seq<char>) {
    s.index_of_first_ensures('\n');
}

/// The lines of `doc` that contain `query`, in document order.
pub open spec fn matching_lines(query: Seq<char>, doc: Seq<char>) -> Seq<Seq<char>> {
    lines(doc).filter(|l: Seq<char>| contains_seq(l, query))
}

/// Splitting off a first line that ends in a newline.
proof fn lemma_lines_split(s: Seq<char>, head: Seq<char>, tail: Seq<char>)
    requires
        s == head + seq!['\n'] + tail,
        !head.contains('\n'),
    ensures
        lines(s) == seq![head] + lines(tail),
{
    s.index_of_first_ensures('\n');
    assert(s[head.len() as int] == '\n');
    let i = s.index_of_first('\n')->0;
    if i < head.len() {
        assert(head[i] == s[i]);
    }
    assert(s.take(i) =~= head);
    assert(s.skip(i + 1) =~= tail);
}

/// A last line that has no newline after it.
proof fn lemma_lines_last(s: Seq<char>)
    requires
        !s.contains('\n'),
    ensures
        lines(s) == (if s.len() == 0 { Seq::<Seq<char>>::empty() } else { seq![s] }),
{
    s.index_of_first_ensures('\n');
}

/// Filtering a single line keeps it exactly when it matches.
proof fn lemma_filter_one(l: Seq<char>, query: Seq<char>)
    ensures
        seq![l].filter(|x: Seq<char>| contains_seq(x, query)) == (if contains_seq(l, query) {
            seq![l]
        } else {
            Seq::<Seq<char>>::empty()
        }),
{
    reveal_with_fuel(Seq::filter, 2);
    assert(seq![l].drop_last() =~= Seq::<Seq<char>>::empty());
}

/// Where the elements that `filter` keeps stood in `s`: one strictly increasing
/// position for each kept element, and every position whose element passes.
proof fn filter_positions<A>(s: Seq<A>, p: spec_fn(A) -> bool) -> (idx: Seq<int>)
    ensures
        idx.len() == s.filter(p).len(),
        forall|j: int| 0 <= j < idx.len() ==> 0 <= #[trigger] idx[j] < s.len(),
        forall|j: int| 0 <= j < idx.len() ==> s[idx[j]] == #[trigger] s.filter(p)[j],
        forall|j1: int, j2: int| 0 <= j1 < j2 < idx.len() ==> idx[j1] < idx[j2],
        forall|i: int| 0 <= i < s.len() && p(#[trigger] s[i]) ==> idx.contains(i),
    decreases s.len(),
{
    reveal(Seq::filter);
    if s.len() == 0 {
        Seq::empty()
    } else {
        let front = s.drop_last();
        let idx0 = filter_positions(front, p);
        let last = s.len() - 1;
        let idx = if p(s.last()) { idx0.push(last) } else { idx0 };
        assert forall|i: int| 0 <= i < s.len() && p(#[trigger] s[i]) implies idx.contains(i) by {
            if i < last {
                assert(front[i] == s[i]);
                let j = choose|j: int| 0 <= j < idx0.len() && idx0[j] == i;
                assert(idx[j] == i);
            } else {
                assert(idx[idx.len() - 1] == i);
            }
        }
        idx
    }
}

/// Relies on `str::split_once` with a `char` pattern: the text before the first
/// occurrence of `delim` and the text after it, both borrowed from `s`, or `None`
/// where `delim` does not occur.
#[verifier::external_body]
fn split_once_char<'a>(s: &'a str, delim: char) -> (r: Option<(&'a str, &'a str)>)
    ensures
        match r {
            Some(parts) => s@ == parts.0@ + seq![delim] + parts.1@ && !parts.0@.contains(delim),
            None => !s@.contains(delim),
        },
{
    s.split_once(delim)
}

/// The characters of `s`, in order.
fn chars_of(s: &str) -> (r: Vec<char>)
    ensures
        r@ == s@,
{
    broadcast use vstd::string::axiom_spec_iter;

    let mut r: Vec<char> = Vec::new();
    for c in it: s.chars()
        invariant
            it.seq() == s@,
            r@ == it.seq().take(it.index()),
    {
        r.push(c);
    }
    r
}

/// Whether `needle` occurs in `hay` at position `k`.
fn occurs_at(hay: &Vec<char>, needle: &Vec<char>, k: usize) -> (r: bool)
    requires
        k + needle@.len() <= hay@.len(),
    ensures
        r == (hay@.subrange(k as int, k + needle@.len()) == needle@),
{
    let n: usize = hay.len();
    let mut j: usize = 0;
    while j < needle.len()
        invariant
            j <= needle@.len(),
            n == hay@.len(),
            k + needle@.len() <= hay@.len(),
            forall|t: int| 0 <= t < j ==> hay@[k + t] == needle@[t],
        decreases needle@.len() - j,
    {
        if hay[k + j] != needle[j] {
            assert(hay@.subrange(k as int, k + needle@.len())[j as int] != needle@[j as int]);
            return false;
        }
        j = j + 1;
    }
    assert(hay@.subrange(k as int, k + needle@.len()) =~= needle@);
    true
}

/// Whether `needle` occurs anywhere in `hay`.
fn contains_chars(hay: &Vec<char>, needle: &Vec<char>) -> (r: bool)
    ensures
        r == contains_seq(hay@, needle@),
{
    if needle.len() > hay.len() {
        return false;
    }
    let last: usize = hay.len() - needle.len();
    let mut k: usize = 0;
    loop
        invariant
            k <= last,
            last + needle@.len() == hay@.len(),
            forall|t: int|
                0 <= t < k ==> #[trigger] hay@.subrange(t, t + needle@.len()) != needle@,
        decreases last - k,
    {
        if occurs_at(hay, needle, k) {
            return true;
        }
        if k == last {
            return false;
        }
        k = k + 1;
    }
}

/// The lines of `contents` that contain `query` as a literal, case-sensitive
/// substring, in the order in which they appear, each borrowed from `contents`.
pub fn search<'a>(query: &str, contents: &'a str) -> (r: Vec<&'a str>)
    ensures
        r@.map_values(|l: &'a str| l@) == matching_lines(query@, contents@),
{
    let q = chars_of(query);
    let mut found: Vec<&'a str> = Vec::new();
    let mut rest: &'a str = contents;
    loop
        invariant
            q@ == query@,
            found@.map_values(|l: &'a str| l@) + matching_lines(query@, rest@) == matching_lines(
                query@,
                contents@,
            ),
        decreases rest@.len(),
    {
        let ghost pred = |x: Seq<char>| contains_seq(x, query@);
        match split_once_char(rest, '\n') {
            Some((line, tail)) => {
                let ghost before = found@.map_values(|l: &'a str| l@);
                proof {
                    lemma_lines_split(rest@, line@, tail@);
                    Seq::filter_distributes_over_add(seq![line@], lines(tail@), pred);
                    lemma_filter_one(line@, query@);
                }
                let lc = chars_of(line);
                if contains_chars(&lc, &q) {
                    found.push(line);
                    assert(found@.map_values(|l: &'a str| l@) =~= before.push(line@));
                } else {
                    assert(found@.map_values(|l: &'a str| l@) =~= before);
                }
                rest = tail;
            },
            None => {
                let ghost before = found@.map_values(|l: &'a str| l@);
                proof {
                    lemma_lines_last(rest@);
                    lemma_filter_one(rest@, query@);
                }
                if !rest.is_empty() {
                    let lc = chars_of(rest);
                    if contains_chars(&lc, &q) {
                        found.push(rest);
                        assert(found@.map_values(|l: &'a str| l@) =~= before.push(rest@));
                    }
                }
                return found;
            },
        }
    }
}

/// Every line that `search` returns contains the query, and every line of the
/// document that contains the query is among those returned; nothing else is.
pub proof fn lemma_search_exact(query: Seq<char>, doc: Seq<char>)
    ensures
        forall|j: int|
            0 <= j < matching_lines(query, doc).len() ==> {
                &&& contains_seq(#[trigger] matching_lines(query, doc)[j], query)
                &&& lines(doc).contains(matching_lines(query, doc)[j])
            },
        forall|l: Seq<char>|
            lines(doc).contains(l) ==> (contains_seq(l, query) <==> #[trigger] matching_lines(
                query,
                doc,
            ).contains(l)),
{
    let pred = |x: Seq<char>| contains_seq(x, query);
    let ls = lines(doc);
    let m = matching_lines(query, doc);
    let idx = filter_positions(ls, pred);
    assert forall|j: int| 0 <= j < m.len() implies contains_seq(#[trigger] m[j], query)
        && ls.contains(m[j]) by {
        ls.lemma_filter_pred(pred, j);
        assert(ls[idx[j]] == m[j]);
    }
    assert forall|l: Seq<char>| ls.contains(l) implies (contains_seq(l, query)
        <==> #[trigger] m.contains(l)) by {
        if m.contains(l) {
            let j = choose|j: int| 0 <= j < m.len() && m[j] == l;
            ls.lemma_filter_pred(pred, j);
        }
        if contains_seq(l, query) {
            let i = choose|i: int| 0 <= i < ls.len() && ls[i] == l;
            ls.lemma_filter_contains(pred, i);
        }
    }
}

/// `idx` gives, in strictly increasing order, the positions in `lines(doc)` of
/// exactly the lines that contain `query`, and these lines are the matching lines.
pub open spec fn positions_in_order(idx: Seq<int>, query: Seq<char>, doc: Seq<char>) -> bool {
    &&& idx.len() == matching_lines(query, doc).len()
    &&& forall|j: int|
        0 <= j < idx.len() ==> 0 <= #[trigger] idx[j] < lines(doc).len() && lines(doc)[idx[j]]
            == matching_lines(query, doc)[j]
    &&& forall|j1: int, j2: int| 0 <= j1 < j2 < idx.len() ==> idx[j1] < idx[j2]
    &&& forall|i: int|
        0 <= i < lines(doc).len() ==> (contains_seq(#[trigger] lines(doc)[i], query)
            <==> idx.contains(i))
}

/// The lines that `search` returns keep the order in which they stand in the
/// document: each is the line at a position of the document, these positions
/// increase strictly, and they are exactly the positions of matching lines.
pub proof fn lemma_search_in_document_order(query: Seq<char>, doc: Seq<char>)
    ensures
        exists|idx: Seq<int>| positions_in_order(idx, query, doc),
{
    let pred = |x: Seq<char>| contains_seq(x, query);
    let ls = lines(doc);
    let m = matching_lines(query, doc);
    let idx = filter_positions(ls, pred);
    assert forall|i: int| 0 <= i < ls.len() implies (contains_seq(#[trigger] ls[i], query)
        <==> idx.contains(i)) by {
        if idx.contains(i) {
            let j = choose|j: int| 0 <= j < idx.len() && idx[j] == i;
            ls.lemma_filter_pred(pred, j);
            assert(ls[idx[j]] == m[j]);
        }
    }
    assert(positions_in_order(idx, query, doc));
}

/// Every line contains the empty query.
proof fn lemma_contains_empty(l: Seq<char>)
    ensures
        contains_seq(l, Seq::empty()),
{
    let e = Seq::<char>::empty();
    assert(l.subrange(0, 0 + e.len() as int) =~= e);
}

/// Filtering by a test that every element passes keeps the sequence whole.
proof fn lemma_filter_all_pass(s: Seq<Seq<char>>, query: Seq<char>)
    requires
        query.len() == 0,
    ensures
        s.filter(|x: Seq<char>| contains_seq(x, query)) == s,
    decreases s.len(),
{
    reveal(Seq::filter);
    if s.len() > 0 {
        lemma_filter_all_pass(s.drop_last(), query);
        lemma_contains_empty(s.last());
        assert(query =~= Seq::<char>::empty());
        assert(s.drop_last().push(s.last()) =~= s);
    }
}

/// With an empty query every line of the document is returned, in order.
pub proof fn lemma_search_empty_query(doc: Seq<char>)
    ensures
        matching_lines(Seq::empty(), doc) == lines(doc),
{
    lemma_filter_all_pass(lines(doc), Seq::empty());
}

/// An empty document yields no lines, whatever the query.
pub proof fn lemma_search_empty_document(query: Seq<char>)
    ensures
        matching_lines(query, Seq::empty()).len() == 0,
{
    reveal(Seq::filter);
}

} // verus!
