//! The line matcher: the lines of a text that contain a query, in the order
//! of the text.

use vstd::prelude::*;
use crate::text::{
    contains_str, is_substring, lemma_empty_is_substring, lines_of, lowercase_of, split_lines,
};

verus! {

/// The test that a line contains `needle`.
pub open spec fn contains_needle(needle: Seq<char>) -> spec_fn(Seq<char>) -> bool {
    |line: Seq<char>| is_substring(needle, line)
}

/// The test that the lowercase form of a line contains the lowercase form of
/// `query`.
pub open spec fn contains_ignoring_case(query: Seq<char>) -> spec_fn(Seq<char>) -> bool {
    |line: Seq<char>| is_substring(lowercase_of(query), lowercase_of(line))
}

/// The lines among `lines` that contain `needle`, in order.
pub open spec fn matching_lines(needle: Seq<char>, lines: Seq<Seq<char>>) -> Seq<Seq<char>> {
    lines.filter(contains_needle(needle))
}

/// The lines among `lines` that contain `query` when case is ignored, in
/// order and as they stand in `lines`.
pub open spec fn matching_lines_ignoring_case(query: Seq<char>, lines: Seq<Seq<char>>) -> Seq<
    Seq<char>,
> {
    lines.filter(contains_ignoring_case(query))
}

/// The test that the key of a pair contains `needle`.
pub open spec fn key_contains(needle: Seq<char>) -> spec_fn((Seq<char>, Seq<char>)) -> bool {
    |pair: (Seq<char>, Seq<char>)| is_substring(needle, pair.1)
}

/// Of the pairs of a line and its key, the lines whose key contains
/// `needle`, in order.
pub open spec fn lines_with_matching_key(
    needle: Seq<char>,
    keyed: Seq<(Seq<char>, Seq<char>)>,
) -> Seq<Seq<char>> {
    keyed.filter(key_contains(needle)).map_values(|pair: (Seq<char>, Seq<char>)| pair.0)
}

/// Each line of `lines` paired with its lowercase form.
pub open spec fn with_lowercase_keys(lines: Seq<Seq<char>>) -> Seq<(Seq<char>, Seq<char>)> {
    lines.map_values(|line: Seq<char>| (line, lowercase_of(line)))
}

/// `picks` are positions in `full`, strictly rising, and `sub` holds what
/// stands in `full` at those positions.
pub open spec fn picks_from<A>(picks: Seq<int>, sub: Seq<A>, full: Seq<A>) -> bool {
    &&& picks.len() == sub.len()
    &&& forall|k: int| 0 <= k < picks.len() ==> 0 <= #[trigger] picks[k] < full.len()
    &&& forall|j: int, k: int| 0 <= j < k < picks.len() ==> picks[j] < picks[k]
    &&& forall|k: int| 0 <= k < picks.len() ==> #[trigger] sub[k] == full[picks[k]]
}

/// `sub` is `full` with some items left out: what stays keeps its order, and
/// no item of `full` is taken twice.
pub open spec fn is_subsequence_of<A>(sub: Seq<A>, full: Seq<A>) -> bool {
    exists|picks: Seq<int>| #[trigger] picks_from(picks, sub, full)
}

/// Filtering leaves a subsequence.
pub proof fn lemma_filter_is_subsequence<A>(full: Seq<A>, keep: spec_fn(A) -> bool)
    ensures
        is_subsequence_of(full.filter(keep), full),
    decreases full.len(),
{
    reveal(Seq::filter);
    if full.len() == 0 {
        assert(picks_from(Seq::<int>::empty(), full.filter(keep), full));
    } else {
        let shorter = full.drop_last();
        lemma_filter_is_subsequence(shorter, keep);
        let picks = choose|picks: Seq<int>| picks_from(picks, shorter.filter(keep), shorter);
        if keep(full.last()) {
            assert(picks_from(picks.push(full.len() - 1), full.filter(keep), full));
        } else {
            assert(picks_from(picks, full.filter(keep), full));
        }
    }
}

/// Every item of a subsequence is an item of the full sequence.
pub proof fn lemma_subsequence_items<A>(sub: Seq<A>, full: Seq<A>, k: int)
    requires
        is_subsequence_of(sub, full),
        0 <= k < sub.len(),
    ensures
        full.contains(sub[k]),
{
    let picks = choose|picks: Seq<int>| picks_from(picks, sub, full);
    assert(full[picks[k]] == sub[k]);
}

/// A filter that every item passes leaves the sequence as it is.
pub proof fn lemma_filter_keeps_all<A>(full: Seq<A>, keep: spec_fn(A) -> bool)
    requires
        forall|k: int| 0 <= k < full.len() ==> keep(#[trigger] full[k]),
    ensures
        full.filter(keep) == full,
    decreases full.len(),
{
    reveal(Seq::filter);
    if full.len() > 0 {
        lemma_filter_keeps_all(full.drop_last(), keep);
    }
}

/// Every line of a case-sensitive result contains the query.
pub proof fn lemma_matches_contain_needle(needle: Seq<char>, lines: Seq<Seq<char>>, k: int)
    requires
        0 <= k < matching_lines(needle, lines).len(),
    ensures
        is_substring(needle, matching_lines(needle, lines)[k]),
{
    lines.lemma_filter_pred(contains_needle(needle), k);
}

/// Every line of a case-insensitive result contains the lowercase query in
/// its lowercase form.
pub proof fn lemma_matches_contain_ignoring_case(
    query: Seq<char>,
    lines: Seq<Seq<char>>,
    k: int,
)
    requires
        0 <= k < matching_lines_ignoring_case(query, lines).len(),
    ensures
        is_substring(
            lowercase_of(query),
            lowercase_of(matching_lines_ignoring_case(query, lines)[k]),
        ),
{
    lines.lemma_filter_pred(contains_ignoring_case(query), k);
}

/// A result is a subsequence of the lines searched: nothing is reordered and
/// no line is given more often than it stands there. This holds with and
/// without regard to case.
pub proof fn lemma_matches_are_subsequence(query: Seq<char>, lines: Seq<Seq<char>>)
    ensures
        is_subsequence_of(matching_lines(query, lines), lines),
        is_subsequence_of(matching_lines_ignoring_case(query, lines), lines),
{
    lemma_filter_is_subsequence(lines, contains_needle(query));
    lemma_filter_is_subsequence(lines, contains_ignoring_case(query));
}

/// Every line of a case-insensitive result is one of the lines searched, as
/// it stands there: matching by lowercase forms changes no line.
pub proof fn lemma_ignoring_case_keeps_lines(query: Seq<char>, lines: Seq<Seq<char>>, k: int)
    requires
        0 <= k < matching_lines_ignoring_case(query, lines).len(),
    ensures
        lines.contains(matching_lines_ignoring_case(query, lines)[k]),
{
    lemma_matches_are_subsequence(query, lines);
    lemma_subsequence_items(matching_lines_ignoring_case(query, lines), lines, k);
}

/// The empty query finds every line.
pub proof fn lemma_empty_query_matches_all(query: Seq<char>, lines: Seq<Seq<char>>)
    requires
        query.len() == 0,
    ensures
        matching_lines(query, lines) == lines,
{
    assert forall|k: int| 0 <= k < lines.len() implies contains_needle(query)(
        #[trigger] lines[k],
    ) by {
        lemma_empty_is_substring(query, lines[k]);
    }
    lemma_filter_keeps_all(lines, contains_needle(query));
}

/// A query whose lowercase form is empty finds every line when case is
/// ignored.
pub proof fn lemma_empty_lowercase_query_matches_all(query: Seq<char>, lines: Seq<Seq<char>>)
    requires
        lowercase_of(query).len() == 0,
    ensures
        matching_lines_ignoring_case(query, lines) == lines,
{
    assert forall|k: int| 0 <= k < lines.len() implies contains_ignoring_case(query)(
        #[trigger] lines[k],
    ) by {
        lemma_empty_is_substring(lowercase_of(query), lowercase_of(lines[k]));
    }
    lemma_filter_keeps_all(lines, contains_ignoring_case(query));
}

/// Searching lines by their lowercase forms for the lowercase form of a
/// query is searching them for the query with case ignored.
pub proof fn lemma_lowercase_keys(query: Seq<char>, lines: Seq<Seq<char>>)
    ensures
        lines_with_matching_key(lowercase_of(query), with_lowercase_keys(lines))
            == matching_lines_ignoring_case(query, lines),
    decreases lines.len(),
{
    reveal(Seq::filter);
    if lines.len() > 0 {
        lemma_lowercase_keys(query, lines.drop_last());
        assert(with_lowercase_keys(lines).drop_last() =~= with_lowercase_keys(lines.drop_last()));
    }
}

/// The lines of `contents` that contain `query`, in the order of `contents`,
/// each as a slice of `contents`.
pub fn search<'a>(query: &str, contents: &'a str) -> (found: Vec<&'a str>)
    ensures
        found.deep_view() == matching_lines(query@, lines_of(contents@)),
        is_subsequence_of(found.deep_view(), lines_of(contents@)),
        forall|k: int| 0 <= k < found.len() ==> is_substring(query@, (#[trigger] found[k])@),
        query@.len() == 0 ==> found.deep_view() == lines_of(contents@),
{
    let lines = split_lines(contents);
    let mut found: Vec<&'a str> = Vec::new();
    let ghost keep = contains_needle(query@);
    for i in 0..lines.len()
        invariant
            keep == contains_needle(query@),
            found.deep_view() == lines.deep_view().take(i as int).filter(keep),
    {
        let line: &'a str = lines[i];
        if contains_str(line, query) {
            found.push(line);
        }
        proof {
            let seen = lines.deep_view().take(i as int);
            assert(lines.deep_view().take(i + 1) =~= seen.push(line@));
            seen.lemma_filter_push(line@, keep);
        }
    }
    proof {
        let all = lines_of(contents@);
        assert(all.take(lines.len() as int) =~= all);
        lemma_matches_are_subsequence(query@, all);
        assert forall|k: int| 0 <= k < found.len() implies is_substring(
            query@,
            (#[trigger] found[k])@,
        ) by {
            lemma_matches_contain_needle(query@, all, k);
        }
        if query@.len() == 0 {
            lemma_empty_query_matches_all(query@, all);
        }
    }
    found
}

/// Of the lines in `keyed`, each paired with the key under which it is
/// searched, those whose key contains `needle`, in order.
pub fn select_by_key<'a>(needle: &str, keyed: &Vec<(&'a str, String)>) -> (found: Vec<&'a str>)
    ensures
        found.deep_view() == lines_with_matching_key(needle@, keyed.deep_view()),
{
    let mut found: Vec<&'a str> = Vec::new();
    let ghost keep = key_contains(needle@);
    let ghost line_of = |pair: (Seq<char>, Seq<char>)| pair.0;
    for i in 0..keyed.len()
        invariant
            keep == key_contains(needle@),
            line_of == |pair: (Seq<char>, Seq<char>)| pair.0,
            found.deep_view() == keyed.deep_view().take(i as int).filter(keep).map_values(
                line_of,
            ),
    {
        let line: &'a str = keyed[i].0;
        let ghost before = found.deep_view();
        let hit = contains_str(keyed[i].1.as_str(), needle);
        if hit {
            found.push(line);
        }
        proof {
            let seen = keyed.deep_view().take(i as int);
            let pair = keyed.deep_view()[i as int];
            assert(keyed.deep_view().take(i + 1) =~= seen.push(pair));
            seen.lemma_filter_push(pair, keep);
            if hit {
                assert(seen.filter(keep).push(pair).map_values(line_of) =~= before.push(line@));
            }
        }
    }
    proof {
        let all = keyed.deep_view();
        assert(all.take(keyed.len() as int) =~= all);
    }
    found
}

/// The lines of `contents` whose lowercase form contains the lowercase form
/// of `query`, in the order of `contents`. Each is a slice of `contents`, in
/// its own case.
pub fn search_case_insensitive<'a>(query: &str, contents: &'a str) -> (found: Vec<&'a str>)
    ensures
        found.deep_view() == matching_lines_ignoring_case(query@, lines_of(contents@)),
        is_subsequence_of(found.deep_view(), lines_of(contents@)),
        forall|k: int|
            0 <= k < found.len() ==> lines_of(contents@).contains((#[trigger] found[k])@),
        forall|k: int|
            0 <= k < found.len() ==> is_substring(
                lowercase_of(query@),
                lowercase_of((#[trigger] found[k])@),
            ),
        query@.len() == 0 ==> found.deep_view() == lines_of(contents@),
{
    let needle = query.to_lowercase();
    let lines = split_lines(contents);
    let mut keyed: Vec<(&'a str, String)> = Vec::new();
    for i in 0..lines.len()
        invariant
            keyed.deep_view() == with_lowercase_keys(lines.deep_view().take(i as int)),
    {
        let line: &'a str = lines[i];
        let ghost before = keyed.deep_view();
        keyed.push((line, line.to_lowercase()));
        assert(keyed.deep_view() =~= before.push((line@, lowercase_of(line@))));
    }
    let found = select_by_key(needle.as_str(), &keyed);
    proof {
        let all = lines_of(contents@);
        assert(all.take(lines.len() as int) =~= all);
        lemma_lowercase_keys(query@, all);
        lemma_matches_are_subsequence(query@, all);
        assert forall|k: int| 0 <= k < found.len() implies lines_of(contents@).contains(
            (#[trigger] found[k])@,
        ) && is_substring(lowercase_of(query@), lowercase_of(found[k]@)) by {
            lemma_ignoring_case_keeps_lines(query@, all, k);
            lemma_matches_contain_ignoring_case(query@, all, k);
        }
        if query@.len() == 0 {
            lemma_empty_lowercase_query_matches_all(query@, all);
        }
    }
    found
}

} // verus!
