//! The search for the matches of a query in a source text.
use crate::grammar::{
    capture_names, compile_query, compiled, compiled_model, hits, language_refusal, may_compile,
    may_parse, parse_text, parsed, query_captures, query_hits, refusal_of, run_query, QueryFailure,
    QueryFailureSpec, QueryHit,
};
use crate::query_shape::{check_query, query_bounded};
use crate::search::{found, match_models, Match, MatchSpec};
use crate::strmap::StrMap;
use crate::text::{append_decimal, decimal, same_text, texts};
use tree_sitter::{Language, Query, Tree};
use vstd::prelude::*;
use vstd::string::*;
use vstd::utf8::is_ascii_chars;

verus! {

/// A capture name by which a query says which node it is after.
pub open spec fn target_name(name: Seq<char>) -> bool {
    name == "matched"@ || name == "target"@
}

/// The capture has such a name.
pub open spec fn is_target(names: Seq<Seq<char>>, hit: QueryHit) -> bool {
    hit.index < names.len() && target_name(names[hit.index as int])
}

/// The captures that have such a name.
pub open spec fn named_targets(names: Seq<Seq<char>>, captures: Seq<QueryHit>) -> Seq<QueryHit> {
    captures.filter(|hit: QueryHit| is_target(names, hit))
}

/// The capture that a match of a query is reported by: the first that has such a name, or
/// else the first of all.
pub open spec fn target(names: Seq<Seq<char>>, captures: Seq<QueryHit>) -> QueryHit {
    let named = named_targets(names, captures);
    if named.len() > 0 {
        named.first()
    } else {
        captures.first()
    }
}

/// The match that reports a capture.
pub open spec fn match_of_hit(hit: QueryHit) -> MatchSpec {
    MatchSpec {
        start_byte: hit.start_byte,
        end_byte: hit.end_byte,
        start_point: hit.start_point,
        end_point: hit.end_point,
        captures: Map::empty(),
    }
}

/// The query matches that capture anything.
pub open spec fn capturing(all: Seq<Seq<QueryHit>>) -> Seq<Seq<QueryHit>> {
    all.filter(|captures: Seq<QueryHit>| captures.len() > 0)
}

/// The reports of some query matches, in order. A match without captures is not reported.
pub open spec fn targets(names: Seq<Seq<char>>, all: Seq<Seq<QueryHit>>) -> Seq<MatchSpec> {
    capturing(all).map_values(|captures: Seq<QueryHit>| match_of_hit(target(names, captures)))
}

/// How a refused query is reported.
pub open spec fn query_error(failure: QueryFailureSpec) -> Seq<char> {
    "Query error at "@ + decimal(failure.row as nat) + ":"@ + decimal(failure.column as nat) + ": "@
        + failure.message
}

/// What the search with a query in a source text comes to, given what the compiler makes of the
/// query, why the parser refuses the grammar, if it does, and the tree of the source.
pub open spec fn query_outcome(
    source: Seq<char>,
    query: Result<Query, QueryFailureSpec>,
    refusal: Option<Seq<char>>,
    source_tree: Option<Tree>,
) -> Result<Seq<MatchSpec>, Seq<char>> {
    match (query, refusal, source_tree) {
        (Err(failure), _, _) => Err(query_error(failure)),
        (Ok(_), Some(_), _) => Err("Failed to set language"@),
        (Ok(_), None, None) => Err("Failed to parse source"@),
        (Ok(q), None, Some(tree)) => Ok(targets(query_captures(q), query_hits(q, tree, source))),
    }
}

/// The search with a query in a source text may come to `r`: it does for what the compiler and
/// the parser may make of them.
pub open spec fn query_may_give(
    source: Seq<char>,
    query: Seq<char>,
    lang: Language,
    r: Result<Seq<MatchSpec>, Seq<char>>,
) -> bool {
    exists|q: Result<Query, QueryFailureSpec>, source_tree: Option<Tree>| #[trigger]
        may_compile(lang, query, q) && #[trigger] may_parse(lang, source, source_tree) && r
            == query_outcome(source, q, language_refusal(lang), source_tree)
}

/// The capture that a match of a query is reported by.
pub fn select_target(names: &Vec<String>, captures: &Vec<QueryHit>) -> (r: QueryHit)
    requires
        captures@.len() > 0,
    ensures
        r == target(texts(names@), captures@),
{
    let ghost wanted = |hit: QueryHit| is_target(texts(names@), hit);
    let mut i: usize = 0;
    proof {
        reveal(Seq::filter);
        assert(captures@.take(0).filter(wanted).len() == 0);
    }
    while i < captures.len()
        invariant
            i <= captures@.len(),
            wanted == (|hit: QueryHit| is_target(texts(names@), hit)),
            captures@.take(i as int).filter(wanted).len() == 0,
        decreases captures.len() - i,
    {
        let hit = captures[i];
        let index = hit.index as usize;
        proof {
            assert(captures@.take(i + 1).drop_last() =~= captures@.take(i as int));
            assert(captures@.take(i + 1).last() == hit);
            reveal(Seq::filter);
        }
        if index < names.len() {
            let name = names[index].as_str();
            assert(texts(names@)[index as int] == name@);
            if same_text(name, "matched") || same_text(name, "target") {
                proof {
                    let rest = captures@.skip(i + 1);
                    assert(captures@ =~= captures@.take(i + 1) + rest);
                    Seq::filter_distributes_over_add(captures@.take(i + 1), rest, wanted);
                    let first = captures@.take(i + 1).filter(wanted);
                    assert(first.len() == 1 && first[0] == hit);
                    assert(captures@.filter(wanted) == first + rest.filter(wanted));
                }
                return hit;
            }
        }
        i = i + 1;
    }
    assert(captures@.take(i as int) =~= captures@);
    captures[0]
}

/// The reports of some query matches, given the names of the captures by index.
pub fn select_targets(names: &Vec<String>, all: &Vec<Vec<QueryHit>>) -> (r: Vec<Match>)
    ensures
        match_models(r@) == targets(texts(names@), hits(all@)),
{
    let ghost whole = hits(all@);
    let mut r: Vec<Match> = Vec::new();
    let mut i: usize = 0;
    proof {
        reveal(Seq::filter);
        assert(match_models(r@) =~= targets(texts(names@), whole.take(0)));
    }
    while i < all.len()
        invariant
            i <= all@.len(),
            whole == hits(all@),
            match_models(r@) == targets(texts(names@), whole.take(i as int)),
        decreases all.len() - i,
    {
        let captures = &all[i];
        let ghost before = match_models(r@);
        proof {
            assert(whole.take(i + 1).drop_last() =~= whole.take(i as int));
            assert(whole.take(i + 1).last() == captures@);
            reveal(Seq::filter);
        }
        if captures.len() > 0 {
            let hit = select_target(names, captures);
            r.push(
                Match {
                    start_byte: hit.start_byte,
                    end_byte: hit.end_byte,
                    start_point: hit.start_point,
                    end_point: hit.end_point,
                    captures: StrMap::new(),
                },
            );
            proof {
                assert(match_models(r@) =~= before.push(match_of_hit(hit)));
                assert(capturing(whole.take(i + 1)) == capturing(whole.take(i as int)).push(
                    captures@,
                ));
                assert(targets(texts(names@), whole.take(i + 1)) =~= before.push(
                    match_of_hit(hit),
                ));
            }
        }
        i = i + 1;
    }
    assert(whole.take(i as int) =~= whole);
    r
}

/// The report of a refused query.
pub fn query_error_message(failure: &QueryFailure) -> (r: String)
    ensures
        r@ == query_error(failure@),
{
    let mut r = "Query error at ".to_owned();
    append_decimal(&mut r, failure.row as u128);
    r.append(":");
    append_decimal(&mut r, failure.column as u128);
    r.append(": ");
    r.append(failure.message.as_str());
    r
}

/// Finds the matches of a query in a source text.
///
/// Each match is reported by its first capture that is named `matched` or `target`, or else by
/// its first capture.
pub fn find_query_matches(source: &str, query_str: &str, lang: &Language) -> (r: Result<
    Vec<Match>,
    String,
>)
    requires
        query_bounded(query_str@),
    ensures
        query_may_give(source@, query_str@, *lang, found(r)),
        is_ascii_chars(source@) && is_ascii_chars(query_str@) ==> found(r) == query_outcome(
            source@,
            compiled(*lang, query_str@),
            language_refusal(*lang),
            parsed(*lang, source@),
        ),
{
    let outcome = compile_query(lang, query_str);
    let refusal = refusal_of(lang);
    let source_tree = parse_text(lang, source);
    let ghost q = compiled_model(outcome);
    assert(may_compile(*lang, query_str@, q));
    assert(may_parse(*lang, source@, source_tree));
    let query = match outcome {
        Ok(query) => query,
        Err(failure) => {
            return Err(query_error_message(&failure));
        },
    };
    if refusal.is_some() {
        return Err("Failed to set language".to_owned());
    }
    match source_tree {
        Some(tree) => {
            let names = capture_names(&query);
            let all = run_query(&query, &tree, source);
            Ok(select_targets(&names, &all))
        },
        None => Err("Failed to parse source".to_owned()),
    }
}

/// Finds the matches of a query in a source text, or `None` where the query cannot be handed to
/// the compiler.
pub fn try_find_query_matches(source: &str, query_str: &str, lang: &Language) -> (r: Option<
    Result<Vec<Match>, String>,
>)
    ensures
        r is Some <==> query_bounded(query_str@),
        r matches Some(result) ==> query_may_give(source@, query_str@, *lang, found(result)),
        r matches Some(result) ==> is_ascii_chars(source@) && is_ascii_chars(query_str@) ==> found(
            result,
        ) == query_outcome(
            source@,
            compiled(*lang, query_str@),
            language_refusal(*lang),
            parsed(*lang, source@),
        ),
{
    if check_query(query_str) {
        Some(find_query_matches(source, query_str, lang))
    } else {
        None
    }
}

} // verus!
