//! Laws of the search with a query.
use crate::grammar::{
    hits, query_captures, query_hits, QueryFailure, QueryFailureSpec, QueryHit,
};
use crate::query::{
    capturing, is_target, match_of_hit, named_targets, query_error, query_may_give, query_outcome,
    target, targets,
};
use crate::search::MatchSpec;
use crate::text::decimal;
use tree_sitter::{Language, Query, Tree};
use vstd::prelude::*;
use vstd::utf8::is_ascii_chars;

verus! {

/// A match is reported by one of its captures.
pub proof fn law_target_is_captured(names: Seq<Seq<char>>, captures: Seq<QueryHit>)
    requires
        captures.len() > 0,
    ensures
        captures.contains(target(names, captures)),
{
    let named = named_targets(names, captures);
    if named.len() > 0 {
        captures.lemma_filter_contains_rev(|hit: QueryHit| is_target(names, hit), named[0]);
    }
}

/// Where a capture is named `matched` or `target`, the match is reported by the first such
/// capture.
pub proof fn law_target_first_named(names: Seq<Seq<char>>, captures: Seq<QueryHit>, i: int)
    requires
        0 <= i < captures.len(),
        is_target(names, captures[i]),
        forall|j: int| 0 <= j < i ==> !is_target(names, #[trigger] captures[j]),
    ensures
        target(names, captures) == captures[i],
{
    let wanted = |hit: QueryHit| is_target(names, hit);
    let front = captures.take(i);
    let rest = captures.skip(i);
    assert(captures =~= front + rest);
    Seq::filter_distributes_over_add(front, rest, wanted);
    let none = front.filter(wanted);
    if none.len() > 0 {
        front.lemma_filter_contains_rev(wanted, none[0]);
        let j = choose|j: int| 0 <= j < front.len() && front[j] == none[0];
        front.lemma_filter_pred(wanted, 0);
        assert(!is_target(names, captures[j]));
    }
    let tail = captures.skip(i + 1);
    assert(rest =~= seq![captures[i]] + tail);
    Seq::filter_distributes_over_add(seq![captures[i]], tail, wanted);
    reveal(Seq::filter);
    assert(seq![captures[i]].drop_last() =~= Seq::<QueryHit>::empty());
    assert(seq![captures[i]].filter(wanted) =~= seq![captures[i]]);
    assert(captures.filter(wanted) == none + (seq![captures[i]] + tail.filter(wanted)));
}

/// Where no capture has such a name, the match is reported by its first capture.
pub proof fn law_target_first_of_all(names: Seq<Seq<char>>, captures: Seq<QueryHit>)
    requires
        captures.len() > 0,
        forall|j: int| 0 <= j < captures.len() ==> !is_target(names, #[trigger] captures[j]),
    ensures
        target(names, captures) == captures[0],
{
    let wanted = |hit: QueryHit| is_target(names, hit);
    let named = captures.filter(wanted);
    if named.len() > 0 {
        captures.lemma_filter_contains_rev(wanted, named[0]);
        captures.lemma_filter_pred(wanted, 0);
    }
}

/// The matches of two searches one after the other are reported one after the other.
pub proof fn law_reports_in_order(
    names: Seq<Seq<char>>,
    first: Seq<Seq<QueryHit>>,
    second: Seq<Seq<QueryHit>>,
)
    ensures
        targets(names, first + second) == targets(names, first) + targets(names, second),
{
    Seq::filter_distributes_over_add(
        first,
        second,
        |captures: Seq<QueryHit>| captures.len() > 0,
    );
    assert(targets(names, first + second) =~= targets(names, first) + targets(names, second));
}

/// A match without captures is not reported; one with captures is reported once.
pub proof fn law_one_report_each(names: Seq<Seq<char>>, captures: Seq<QueryHit>)
    ensures
        targets(names, seq![captures]) == if captures.len() == 0 {
            seq![]
        } else {
            seq![match_of_hit(target(names, captures))]
        },
{
    reveal_with_fuel(Seq::filter, 2);
    let one = seq![captures];
    assert(one.drop_last() =~= seq![]);
    if captures.len() == 0 {
        assert(targets(names, one) =~= seq![]);
    } else {
        assert(capturing(one) =~= one);
        assert(targets(names, one) =~= seq![match_of_hit(target(names, captures))]);
    }
}

/// Of ASCII texts a search always gives the same.
pub proof fn law_ascii_query_determined(
    source: Seq<char>,
    query: Seq<char>,
    lang: Language,
    a: Result<Seq<MatchSpec>, Seq<char>>,
    b: Result<Seq<MatchSpec>, Seq<char>>,
)
    requires
        is_ascii_chars(source),
        is_ascii_chars(query),
        query_may_give(source, query, lang, a),
        query_may_give(source, query, lang, b),
    ensures
        a == b,
{
}

/// A capture counts as the target where its index leads to the name `matched` or `target`.
pub proof fn law_is_target(names: Seq<Seq<char>>, hit: QueryHit)
    ensures
        hit.index as int >= names.len() ==> !is_target(names, hit),
        (hit.index as int) < names.len() ==> (is_target(names, hit) <==> names[hit.index as int]
            == "matched"@ || names[hit.index as int] == "target"@),
{
}

/// Each report has the start byte, the end byte, the start point and the end point of the
/// capture that the match is reported by, and captures nothing.
pub proof fn law_report_fields(names: Seq<Seq<char>>, all: Seq<Seq<QueryHit>>, i: int)
    requires
        0 <= i < targets(names, all).len(),
    ensures
        targets(names, all).len() == capturing(all).len(),
        ({
            let m = targets(names, all)[i];
            let hit = target(names, capturing(all)[i]);
            &&& m.start_byte == hit.start_byte
            &&& m.end_byte == hit.end_byte
            &&& m.start_point == hit.start_point
            &&& m.end_point == hit.end_point
            &&& m.captures == Map::<Seq<char>, Seq<char>>::empty()
        }),
{
}

/// One more match of a query is one more report, of one of its captures, if it has any.
pub proof fn law_report_added(
    names: Seq<Seq<char>>,
    all: Seq<Seq<QueryHit>>,
    captures: Seq<QueryHit>,
)
    ensures
        captures.len() == 0 ==> targets(names, all.push(captures)) == targets(names, all),
        captures.len() > 0 ==> {
            let r = targets(names, all.push(captures));
            &&& r.len() == targets(names, all).len() + 1
            &&& r.drop_last() == targets(names, all)
            &&& exists|k: int|
                0 <= k < captures.len() && r.last().start_byte == (
                #[trigger] captures[k]).start_byte && r.last().end_byte == captures[k].end_byte
                    && r.last().start_point == captures[k].start_point && r.last().end_point
                    == captures[k].end_point
        },
{
    assert(all.push(captures) =~= all + seq![captures]);
    law_reports_in_order(names, all, seq![captures]);
    law_one_report_each(names, captures);
    if captures.len() > 0 {
        let r = targets(names, all.push(captures));
        law_target_is_captured(names, captures);
        let k = choose|k: int| 0 <= k < captures.len() && captures[k] == target(names, captures);
        assert(r.last() == match_of_hit(captures[k]));
        assert(r.drop_last() =~= targets(names, all));
    } else {
        assert(targets(names, all) + seq![] =~= targets(names, all));
    }
}

/// No matches, no reports.
pub proof fn law_no_reports(names: Seq<Seq<char>>)
    ensures
        targets(names, seq![]).len() == 0,
{
    reveal_with_fuel(Seq::filter, 2);
}

/// A refused query is reported with the row, the column and the message of the failure.
pub proof fn law_query_error(failure: QueryFailureSpec)
    ensures
        query_error(failure) == "Query error at "@ + decimal(failure.row as nat) + ":"@ + decimal(
            failure.column as nat,
        ) + ": "@ + failure.message,
{
}

/// A search fails where the query is refused, where the grammar is, and where the source has no
/// tree, in this order, each with its message.
pub proof fn law_query_outcome(
    source: Seq<char>,
    query: Result<Query, QueryFailureSpec>,
    refusal: Option<Seq<char>>,
    source_tree: Option<Tree>,
)
    ensures
        ({
            let r = query_outcome(source, query, refusal, source_tree);
            &&& query matches Err(failure) ==> r == Err::<Seq<MatchSpec>, Seq<char>>(
                query_error(failure),
            )
            &&& query is Ok && refusal is Some ==> r == Err::<Seq<MatchSpec>, Seq<char>>(
                "Failed to set language"@,
            )
            &&& query is Ok && refusal is None && source_tree is None ==> r == Err::<
                Seq<MatchSpec>,
                Seq<char>,
            >("Failed to parse source"@)
            &&& query is Ok && refusal is None && source_tree is Some ==> r == Ok::<
                Seq<MatchSpec>,
                Seq<char>,
            >(
                targets(
                    query_captures(query->Ok_0),
                    query_hits(query->Ok_0, source_tree->0, source),
                ),
            )
        }),
{
}

/// The model of a failure holds what the failure holds.
pub proof fn law_failure_view(failure: QueryFailure)
    ensures
        failure@.row == failure.row,
        failure@.column == failure.column,
        failure@.message == failure.message@,
{
}

/// The captures of some matches are those of each.
pub proof fn law_hits(matches: Seq<Vec<QueryHit>>)
    ensures
        hits(matches).len() == matches.len(),
        forall|i: int| 0 <= i < matches.len() ==> #[trigger] hits(matches)[i] == matches[i]@,
{
}

} // verus!
