//! Selecting the lines of a text that contain a query.

use vstd::prelude::*;
use crate::contains::contains;
use crate::fold::lowercase_of;
use crate::lines::{split_first_line, texts};
use crate::text::{lines_of, occurs_at, occurs_in};

verus! {

/// Whether `query` selects `line`.
///
/// With `ignore_case` unset the query must occur in the line as it stands.
/// With it set, the lowercase form of the query must occur in the lowercase
/// form of the line.
pub open spec fn selects(query: Seq<char>, ignore_case: bool, line: Seq<char>) -> bool {
    if ignore_case {
        occurs_in(lowercase_of(query), lowercase_of(line))
    } else {
        occurs_in(query, line)
    }
}

/// `selects` as a predicate on lines.
pub open spec fn selector(query: Seq<char>, ignore_case: bool) -> spec_fn(Seq<char>) -> bool {
    |line: Seq<char>| selects(query, ignore_case, line)
}

/// The lines of `contents` that `query` selects, in their order in
/// `contents`, each as often as it is a selected line there.
pub open spec fn selected_lines(query: Seq<char>, ignore_case: bool, contents: Seq<char>) -> Seq<
    Seq<char>,
> {
    lines_of(contents).filter(selector(query, ignore_case))
}

/// Filtering the empty sequence leaves it empty.
proof fn lemma_filter_nothing<A>(items: Seq<A>, pred: spec_fn(A) -> bool)
    requires
        items.len() == 0,
    ensures
        items.filter(pred) == Seq::<A>::empty(),
{
    reveal(Seq::filter);
    assert(items =~= Seq::<A>::empty());
}

/// Filtering a sequence that starts with `first` decides on `first` and
/// then filters the rest.
proof fn lemma_filter_first<A>(first: A, rest: Seq<A>, pred: spec_fn(A) -> bool)
    ensures
        (seq![first] + rest).filter(pred) == if pred(first) {
            seq![first] + rest.filter(pred)
        } else {
            rest.filter(pred)
        },
{
    Seq::filter_distributes_over_add(seq![first], rest, pred);
    reveal_with_fuel(Seq::filter, 2);
    assert(seq![first].drop_last() =~= Seq::<A>::empty());
    assert(seq![first].filter(pred) =~= if pred(first) {
        seq![first]
    } else {
        Seq::<A>::empty()
    });
    assert(Seq::<A>::empty() + rest.filter(pred) =~= rest.filter(pred));
}

/// The lines of `contents` in which `query` occurs, letter for letter, in
/// their order in `contents`. Each returned slice is a line of `contents`
/// without its terminator. An empty query occurs in every line.
pub fn search<'a>(query: &str, contents: &'a str) -> (results: Vec<&'a str>)
    ensures
        texts(results@) == selected_lines(query@, false, contents@),
{
    let mut results: Vec<&'a str> = Vec::new();
    let mut cursor: &'a str = contents;
    let ghost pred = selector(query@, false);
    proof {
        assert(texts(results@) + lines_of(cursor@).filter(pred) =~= lines_of(cursor@).filter(pred));
    }
    loop
        invariant
            pred == selector(query@, false),
            lines_of(contents@).filter(pred) == texts(results@) + lines_of(cursor@).filter(pred),
        ensures
            texts(results@) == lines_of(contents@).filter(pred),
        decreases cursor@.len(),
    {
        match split_first_line(cursor) {
            None => {
                proof {
                    lemma_filter_nothing(lines_of(cursor@), pred);
                }
                break;
            },
            Some((line, rest)) => {
                proof {
                    lemma_filter_first(line@, lines_of(rest@), pred);
                    assert(texts(results@.push(line)) =~= texts(results@) + seq![line@]);
                }
                if contains(line, query) {
                    results.push(line);
                }
                cursor = rest;
            },
        }
    }
    results
}

/// The lines of `contents` whose lowercase form holds the lowercase form of
/// `query`, in their order in `contents`. The returned slices are lines of
/// `contents` as they stand there, not their lowercase forms.
pub fn search_case_insensitive<'a>(query: &str, contents: &'a str) -> (results: Vec<&'a str>)
    ensures
        texts(results@) == selected_lines(query@, true, contents@),
{
    let folded_query = query.to_lowercase();
    let mut results: Vec<&'a str> = Vec::new();
    let mut cursor: &'a str = contents;
    let ghost pred = selector(query@, true);
    proof {
        assert(texts(results@) + lines_of(cursor@).filter(pred) =~= lines_of(cursor@).filter(pred));
    }
    loop
        invariant
            pred == selector(query@, true),
            folded_query@ == lowercase_of(query@),
            lines_of(contents@).filter(pred) == texts(results@) + lines_of(cursor@).filter(pred),
        ensures
            texts(results@) == lines_of(contents@).filter(pred),
        decreases cursor@.len(),
    {
        match split_first_line(cursor) {
            None => {
                proof {
                    lemma_filter_nothing(lines_of(cursor@), pred);
                }
                break;
            },
            Some((line, rest)) => {
                proof {
                    lemma_filter_first(line@, lines_of(rest@), pred);
                    assert(texts(results@.push(line)) =~= texts(results@) + seq![line@]);
                }
                let folded_line = line.to_lowercase();
                if contains(folded_line.as_str(), folded_query.as_str()) {
                    results.push(line);
                }
                cursor = rest;
            },
        }
    }
    results
}

/// The positions in `items` of the items that satisfy `pred`, in rising
/// order.
pub open spec fn positions_where<A>(items: Seq<A>, pred: spec_fn(A) -> bool) -> Seq<int>
    decreases items.len(),
{
    if items.len() == 0 {
        Seq::empty()
    } else {
        let before = positions_where(items.drop_last(), pred);
        if pred(items.last()) {
            before.push(items.len() - 1)
        } else {
            before
        }
    }
}

/// Filtering keeps, in their order, exactly the items at the positions
/// that `positions_where` lists: the list rises strictly, holds each
/// position of a satisfying item and no other position, and the filtered
/// sequence holds the items found there.
pub proof fn lemma_filter_positions<A>(items: Seq<A>, pred: spec_fn(A) -> bool)
    ensures
        ({
            let at = positions_where(items, pred);
            let kept = items.filter(pred);
            &&& kept.len() == at.len()
            &&& forall|k: int|
                0 <= k < at.len() ==> 0 <= #[trigger] at[k] < items.len() && pred(items[at[k]])
                    && kept[k] == items[at[k]]
            &&& forall|j: int, k: int| 0 <= j < k < at.len() ==> at[j] < at[k]
            &&& forall|i: int| 0 <= i < items.len() && pred(items[i]) ==> #[trigger] at.contains(i)
        }),
    decreases items.len(),
{
    reveal(Seq::filter);
    if items.len() > 0 {
        let front = items.drop_last();
        lemma_filter_positions(front, pred);
        let at = positions_where(items, pred);
        let before = positions_where(front, pred);
        assert forall|i: int| 0 <= i < items.len() && pred(items[i]) implies #[trigger] at.contains(
            i,
        ) by {
            if i < front.len() {
                assert(front[i] == items[i]);
                assert(before.contains(i));
                let k = choose|k: int| 0 <= k < before.len() && before[k] == i;
                assert(at[k] == i);
            } else {
                assert(at[at.len() - 1] == i);
            }
        }
    }
}

/// What a search returns, position by position: the returned lines are the
/// lines of `contents` that `query` selects, each position of such a line
/// is represented exactly once, and the order is that of `contents`.
pub proof fn lemma_search_by_position(query: Seq<char>, ignore_case: bool, contents: Seq<char>)
    ensures
        ({
            let all = lines_of(contents);
            let found = selected_lines(query, ignore_case, contents);
            let at = positions_where(all, selector(query, ignore_case));
            &&& found.len() == at.len()
            &&& forall|k: int|
                0 <= k < found.len() ==> 0 <= #[trigger] at[k] < all.len() && found[k] == all[at[k]]
                    && selects(query, ignore_case, found[k])
            &&& forall|j: int, k: int| 0 <= j < k < at.len() ==> at[j] < at[k]
            &&& forall|i: int|
                0 <= i < all.len() && selects(query, ignore_case, all[i]) ==> #[trigger] at.contains(
                    i,
                )
        }),
{
    lemma_filter_positions(lines_of(contents), selector(query, ignore_case));
}

/// A search for the empty query, letter for letter, returns every line of
/// `contents`, unchanged and in order.
pub proof fn lemma_empty_query_selects_every_line(contents: Seq<char>)
    ensures
        selected_lines(Seq::empty(), false, contents) == lines_of(contents),
{
    let all = lines_of(contents);
    let pred = selector(Seq::empty(), false);
    assert forall|i: int| 0 <= i < all.len() implies pred(#[trigger] all[i]) by {
        assert(all[i].subrange(0, 0) =~= Seq::<char>::empty());
        assert(occurs_at(Seq::<char>::empty(), all[i], 0));
    }
    lemma_filter_all(all, pred);
}

/// Filtering by a predicate that every item satisfies changes nothing.
proof fn lemma_filter_all<A>(items: Seq<A>, pred: spec_fn(A) -> bool)
    requires
        forall|i: int| 0 <= i < items.len() ==> pred(#[trigger] items[i]),
    ensures
        items.filter(pred) == items,
    decreases items.len(),
{
    reveal(Seq::filter);
    if items.len() > 0 {
        let front = items.drop_last();
        assert forall|i: int| 0 <= i < front.len() implies pred(#[trigger] front[i]) by {
            assert(front[i] == items[i]);
        }
        lemma_filter_all(front, pred);
        assert(front.push(items.last()) =~= items);
    }
}

/// A search in the empty text returns nothing, whatever the query.
pub proof fn lemma_empty_contents_selects_nothing(query: Seq<char>, ignore_case: bool)
    ensures
        selected_lines(query, ignore_case, Seq::empty()) == Seq::<Seq<char>>::empty(),
{
    reveal(Seq::filter);
    assert(lines_of(Seq::<char>::empty()) =~= Seq::<Seq<char>>::empty());
}

/// Whether the lowercase form of `contents` splits into the lowercase forms
/// of the lines of `contents`: whether the case mapping leaves the line
/// structure alone.
pub open spec fn fold_keeps_lines(contents: Seq<char>) -> bool {
    lines_of(lowercase_of(contents)) == lines_of(contents).map_values(
        |line: Seq<char>| lowercase_of(line),
    )
}

/// For a text whose line structure the case mapping leaves alone: the
/// search that ignores case returns the lines of `contents`, as they are
/// written there, at the positions where the lowercase form of `contents`
/// has a line that holds the lowercase form of `query` letter for letter.
/// Whether the case mapping leaves the line structure of a given text alone
/// is not decided here.
pub proof fn lemma_case_insensitive_by_position(query: Seq<char>, contents: Seq<char>)
    ensures
        fold_keeps_lines(contents) ==> ({
            let at = positions_where(
                lines_of(lowercase_of(contents)),
                selector(lowercase_of(query), false),
            );
            let found = selected_lines(query, true, contents);
            &&& found.len() == at.len()
            &&& forall|k: int|
                0 <= k < found.len() ==> 0 <= #[trigger] at[k] < lines_of(contents).len()
                    && found[k] == lines_of(contents)[at[k]]
        }),
{
    if fold_keeps_lines(contents) {
        lemma_positions_of_folded(lines_of(contents), query);
        lemma_filter_positions(lines_of(contents), selector(query, true));
    }
}

/// The positions that an exact search for the lowercase form of `query`
/// picks among the lowercase forms of `lines` are those that the search
/// ignoring case picks among `lines`.
proof fn lemma_positions_of_folded(lines: Seq<Seq<char>>, query: Seq<char>)
    ensures
        positions_where(
            lines.map_values(|line: Seq<char>| lowercase_of(line)),
            selector(lowercase_of(query), false),
        ) == positions_where(lines, selector(query, true)),
    decreases lines.len(),
{
    let fold = |line: Seq<char>| lowercase_of(line);
    if lines.len() > 0 {
        lemma_positions_of_folded(lines.drop_last(), query);
        assert(lines.map_values(fold).drop_last() =~= lines.drop_last().map_values(fold));
    }
}

} // verus!
