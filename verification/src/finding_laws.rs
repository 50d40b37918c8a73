//! Laws of the search in a tree, in terms of the nodes that it reports.
use crate::pattern::{Captures, ContextSpec};
use crate::search::{
    contains_error, inside_match, match_at, match_models, pattern_of, search_outcome,
    snippet_context, snippet_outcome, Match, MatchSpec,
};
use crate::search_laws::{
    law_search_complete, law_search_sound, law_unwrapped_covered, occurs_in, reports,
};
use crate::grammar::language_refusal;
use crate::snippet::processed;
use crate::tree::NodeSpec;
use tree_sitter::Language;
use vstd::prelude::*;

verus! {

/// The match stands where the node stands.
pub open spec fn stands_at(m: MatchSpec, node: NodeSpec) -> bool {
    &&& m.start_byte == node.start_byte
    &&& m.end_byte == node.end_byte
    &&& m.start_point == node.start_point
    &&& m.end_point == node.end_point
}

/// A match of a node stands where the node stands and holds what was captured.
pub proof fn law_match_at(node: NodeSpec, captures: Captures)
    ensures
        stands_at(match_at(node, captures), node),
        match_at(node, captures).captures == captures,
{
}

/// The pattern in the tree of a snippet is the only named child of a whole file, or else all of
/// it.
pub proof fn law_pattern_of(root: NodeSpec)
    ensures
        (root.kind == "program"@ || root.kind == "module"@) && root.named_children().len() == 1
            ==> pattern_of(root) == root.named_children()[0],
        root.kind != "program"@ && root.kind != "module"@ ==> pattern_of(root) == root,
        root.named_children().len() != 1 ==> pattern_of(root) == root,
{
}

/// A tree has an error where one of its nodes is an error.
pub proof fn law_contains_error(root: NodeSpec)
    ensures
        contains_error(root) <==> exists|node: NodeSpec| #[trigger]
            occurs_in(node, root) && node.kind == "ERROR"@,
    decreases root,
{
    if root.kind == "ERROR"@ {
        assert(occurs_in(root, root));
    } else {
        if contains_error(root) {
            let i = choose|i: int|
                0 <= i < root.children.len() && contains_error(#[trigger] root.children[i]);
            law_contains_error(root.children[i]);
            let node = choose|node: NodeSpec| #[trigger]
                occurs_in(node, root.children[i]) && node.kind == "ERROR"@;
            assert(occurs_in(node, root));
        }
        if exists|node: NodeSpec| #[trigger] occurs_in(node, root) && node.kind == "ERROR"@ {
            let node = choose|node: NodeSpec| #[trigger]
                occurs_in(node, root) && node.kind == "ERROR"@;
            let i = choose|i: int|
                0 <= i < root.children.len() && occurs_in(node, #[trigger] root.children[i]);
            law_contains_error(root.children[i]);
            assert(contains_error(root.children[i]));
        }
    }
}

/// A pattern can be unwrapped where its only named child has named children itself: then the
/// child is looked for.
pub proof fn law_unwrapped(context: ContextSpec, pattern: NodeSpec)
    ensures
        pattern.named_children().len() == 1 && pattern.named_children()[0].named_children().len()
            >= 1 ==> context.unwrapped(pattern) == Some(pattern.named_children()[0]),
        pattern.named_children().len() != 1 ==> context.unwrapped(pattern) is None,
        pattern.named_children().len() == 1 && pattern.named_children()[0].named_children().len()
            == 0 ==> context.unwrapped(pattern) is None,
{
}

/// Every node of the tree that the only named child of the pattern matches, where that child has
/// named children, is reported or lies inside a reported match.
pub proof fn law_inner_found(
    context: ContextSpec,
    root: NodeSpec,
    pattern: NodeSpec,
    found: Seq<MatchSpec>,
    node: NodeSpec,
)
    requires
        occurs_in(node, root),
        pattern.named_children().len() == 1,
        pattern.named_children()[0].named_children().len() >= 1,
        context.node_matches(node, pattern.named_children()[0], Map::empty()) is Some,
    ensures
        exists|i: int|
            0 <= i < context.collect(root, pattern, found).len() && {
                let m = #[trigger] context.collect(root, pattern, found)[i];
                ||| stands_at(m, node)
                ||| m.start_byte <= node.start_byte && node.end_byte <= m.end_byte
            },
{
    let all = context.collect(root, pattern, found);
    let inner = pattern.named_children()[0];
    law_unwrapped(context, pattern);
    if context.node_matches(node, pattern, Map::empty()) is Some {
        law_search_complete(context, root, pattern, found, node);
        let m = match_at(node, context.node_matches(node, pattern, Map::empty())->0);
        let i = choose|i: int| 0 <= i < all.len() && all[i] == m;
        assert(stands_at(all[i], node));
    } else {
        law_unwrapped_covered(context, root, pattern, found, node);
        let m = match_at(node, context.node_matches(node, inner, Map::empty())->0);
        if all.contains(m) {
            let i = choose|i: int| 0 <= i < all.len() && all[i] == m;
            assert(stands_at(all[i], node));
        } else {
            law_inside_match(node, all);
        }
    }
}

/// Every match that is added stands at a node of the tree which the pattern, or its only named
/// child, matches, and holds what that match captures.
pub proof fn law_matches_are_nodes(
    context: ContextSpec,
    root: NodeSpec,
    pattern: NodeSpec,
    found: Seq<MatchSpec>,
    i: int,
)
    requires
        found.len() <= i < context.collect(root, pattern, found).len(),
    ensures
        ({
            let m = context.collect(root, pattern, found)[i];
            exists|node: NodeSpec| #[trigger]
                occurs_in(node, root) && stands_at(m, node) && (context.node_matches(
                    node,
                    pattern,
                    Map::empty(),
                ) == Some(m.captures) || (pattern.named_children().len() == 1
                    && context.node_matches(
                    node,
                    pattern.named_children()[0],
                    Map::empty(),
                ) == Some(m.captures)))
        }),
{
    law_search_sound(context, root, pattern, found, i);
    let m = context.collect(root, pattern, found)[i];
    let node = choose|node: NodeSpec|
        occurs_in(node, root) && #[trigger] reports(context, m, node, pattern);
    law_unwrapped(context, pattern);
    assert(occurs_in(node, root) && stands_at(m, node));
}

/// Every node of the tree that the pattern matches is reported, with what the match captures.
pub proof fn law_nodes_are_matched(
    context: ContextSpec,
    root: NodeSpec,
    pattern: NodeSpec,
    found: Seq<MatchSpec>,
    node: NodeSpec,
    captures: Captures,
)
    requires
        occurs_in(node, root),
        context.node_matches(node, pattern, Map::empty()) == Some(captures),
    ensures
        exists|i: int|
            0 <= i < context.collect(root, pattern, found).len() && stands_at(
                #[trigger] context.collect(root, pattern, found)[i],
                node,
            ) && context.collect(root, pattern, found)[i].captures == captures,
{
    law_search_complete(context, root, pattern, found, node);
    let all = context.collect(root, pattern, found);
    let i = choose|i: int| 0 <= i < all.len() && all[i] == match_at(node, captures);
    assert(stands_at(all[i], node));
}

/// A node lies inside a match that begins no later and ends no earlier, unless both are empty
/// and in the same place.
pub proof fn law_inside_match(node: NodeSpec, matches: Seq<MatchSpec>)
    ensures
        inside_match(node, matches) <==> exists|i: int|
            0 <= i < matches.len() && {
                let m = #[trigger] matches[i];
                &&& m.start_byte <= node.start_byte
                &&& node.end_byte <= m.end_byte
                &&& !(node.end_byte <= m.start_byte && m.end_byte <= node.start_byte)
            },
{
}

/// A node is reported at most once: visiting it adds one match, which stands at it, or none.
pub proof fn law_visit_adds_one(
    context: ContextSpec,
    node: NodeSpec,
    pattern: NodeSpec,
    found: Seq<MatchSpec>,
)
    ensures
        ({
            let r = context.visit(node, pattern, found);
            ||| r == found
            ||| r.len() == found.len() + 1 && r.drop_last() == found && stands_at(r.last(), node)
        }),
{
    assert(forall|m: MatchSpec| #[trigger] found.push(m).drop_last() =~= found);
}

/// A node that the pattern matches is reported; one that only the pattern's only named child
/// matches is reported unless it lies inside a match; one that neither matches is not.
pub proof fn law_visit(
    context: ContextSpec,
    node: NodeSpec,
    pattern: NodeSpec,
    found: Seq<MatchSpec>,
)
    ensures
        ({
            let r = context.visit(node, pattern, found);
            let whole = context.node_matches(node, pattern, Map::empty());
            let unwraps = pattern.named_children().len() == 1
                && pattern.named_children()[0].named_children().len() >= 1;
            let inner = context.node_matches(node, pattern.named_children()[0], Map::empty());
            &&& whole matches Some(c) ==> r.len() == found.len() + 1 && r.last().captures == c
            &&& whole is None && unwraps && inner is Some && !inside_match(node, found) ==> r.len()
                == found.len() + 1 && r.last().captures == inner->0
            &&& whole is None && unwraps && inner is Some && inside_match(node, found) ==> r == found
            &&& whole is None && !(unwraps && inner is Some) ==> r == found
        }),
{
    law_unwrapped(context, pattern);
}

/// A node is visited first, and then the nodes below each child, from the first child to the
/// last.
pub proof fn law_walk(
    context: ContextSpec,
    root: NodeSpec,
    pattern: NodeSpec,
    found: Seq<MatchSpec>,
    nodes: Seq<NodeSpec>,
    node: NodeSpec,
)
    ensures
        context.collect(root, pattern, found) == context.collect_all(
            root.children,
            pattern,
            context.visit(root, pattern, found),
        ),
        context.collect_all(seq![], pattern, found) == found,
        context.collect_all(nodes.push(node), pattern, found) == context.collect(
            node,
            pattern,
            context.collect_all(nodes, pattern, found),
        ),
{
    assert(nodes.push(node).drop_last() =~= nodes);
    assert(nodes.push(node).last() == node);
}

/// No more matches are added than there are nodes.
pub proof fn law_no_more_than_nodes(
    context: ContextSpec,
    root: NodeSpec,
    pattern: NodeSpec,
    found: Seq<MatchSpec>,
)
    ensures
        context.collect(root, pattern, found).len() <= found.len() + root.size(),
    decreases root, 0nat,
{
    law_visit_adds_one(context, root, pattern, found);
    lemma_no_more(context, root.children, pattern, context.visit(root, pattern, found));
}

proof fn lemma_no_more(
    context: ContextSpec,
    nodes: Seq<NodeSpec>,
    pattern: NodeSpec,
    found: Seq<MatchSpec>,
)
    ensures
        context.collect_all(nodes, pattern, found).len() <= found.len() + crate::tree::total_size(
            nodes,
        ),
    decreases nodes, 1nat,
{
    if nodes.len() > 0 {
        lemma_no_more(context, nodes.drop_last(), pattern, found);
        law_no_more_than_nodes(
            context,
            nodes.last(),
            pattern,
            context.collect_all(nodes.drop_last(), pattern, found),
        );
    }
}

/// A search fails where the grammar is refused, where the snippet has no tree, where its pattern
/// has an error, and where the source has no tree, in this order, each with its message.
pub proof fn law_search_errors(
    context: ContextSpec,
    refusal: Option<Seq<char>>,
    snippet_tree: Option<NodeSpec>,
    source_tree: Option<NodeSpec>,
)
    ensures
        ({
            let r = search_outcome(context, refusal, snippet_tree, source_tree);
            let broken = exists|node: NodeSpec| #[trigger]
                occurs_in(node, pattern_of(snippet_tree->0)) && node.kind == "ERROR"@;
            &&& refusal matches Some(reason) ==> r == Err::<Seq<MatchSpec>, Seq<char>>(
                "Failed to set language: "@ + reason,
            )
            &&& refusal is None && snippet_tree is None ==> r == Err::<Seq<MatchSpec>, Seq<char>>(
                "Failed to parse snippet"@,
            )
            &&& refusal is None && snippet_tree is Some && broken ==> r == Err::<
                Seq<MatchSpec>,
                Seq<char>,
            >("Snippet contains syntax errors"@)
            &&& refusal is None && snippet_tree is Some && !broken && source_tree is None ==> r
                == Err::<Seq<MatchSpec>, Seq<char>>("Failed to parse source"@)
            &&& refusal is None && snippet_tree is Some && !broken && source_tree is Some ==> r
                == Ok::<Seq<MatchSpec>, Seq<char>>(
                context.collect(source_tree->0, pattern_of(snippet_tree->0), seq![]),
            )
        }),
{
    if snippet_tree is Some {
        law_contains_error(pattern_of(snippet_tree->0));
    }
}

/// A search is given up only where there are two trees, no error in the pattern, and a tree that
/// is not laid out on its text.
pub proof fn law_search_made(
    source: Seq<char>,
    snippet: Seq<char>,
    lang: Language,
    snippet_tree: Option<NodeSpec>,
    source_tree: Option<NodeSpec>,
)
    ensures
        ({
            let r = snippet_outcome(source, snippet, lang, snippet_tree, source_tree);
            let pattern_text = processed(snippet).pattern_text;
            &&& snippet_tree is None || source_tree is None ==> r is Some
            &&& snippet_tree is Some && snippet_tree->0.fits(pattern_text) && source_tree is Some
                && source_tree->0.fits(source) ==> r is Some
            &&& snippet_tree is Some && contains_error(pattern_of(snippet_tree->0)) ==> r is Some
            &&& r matches Some(result) ==> result == search_outcome(
                snippet_context(source, snippet),
                language_refusal(lang),
                snippet_tree,
                source_tree,
            )
        }),
{
}

/// A snippet is searched for with the texts, the repetitions, the specials and the constraints
/// that preprocessing gives it, and with the names that its sentinels stand for.
pub proof fn law_snippet_context(source: Seq<char>, snippet: Seq<char>)
    ensures
        snippet_context(source, snippet).source_text == source,
        snippet_context(source, snippet).pattern_text == processed(snippet).pattern_text,
        snippet_context(source, snippet).repetitions == processed(snippet).repetitions,
        snippet_context(source, snippet).specials == processed(snippet).specials,
        snippet_context(source, snippet).type_constraints == processed(snippet).type_constraints,
        forall|sentinel: Seq<char>|
            snippet_context(source, snippet).reverse_placeholders.contains_key(sentinel)
                <==> exists|name: Seq<char>| #[trigger]
                processed(snippet).placeholders.contains_pair(name, sentinel),
        forall|sentinel: Seq<char>| #[trigger]
            snippet_context(source, snippet).reverse_placeholders.contains_key(sentinel)
                ==> processed(snippet).placeholders.contains_pair(
                snippet_context(source, snippet).reverse_placeholders[sentinel],
                sentinel,
            ),
{
    assert forall|sentinel: Seq<char>| #[trigger]
        snippet_context(source, snippet).reverse_placeholders.contains_key(
            sentinel,
        ) implies processed(snippet).placeholders.contains_pair(
        snippet_context(source, snippet).reverse_placeholders[sentinel],
        sentinel,
    ) by {
        let name = choose|name: Seq<char>|
            processed(snippet).placeholders.contains_pair(name, sentinel);
        assert(processed(snippet).placeholders.contains_pair(name, sentinel));
    }
}

/// The model of a match holds what the match holds.
pub proof fn law_match_view(m: Match)
    ensures
        m@.start_byte == m.start_byte,
        m@.end_byte == m.end_byte,
        m@.start_point == m.start_point,
        m@.end_point == m.end_point,
        m@.captures == m.captures@,
{
}

/// The models of some matches are the models of each.
pub proof fn law_match_models(matches: Seq<Match>)
    ensures
        match_models(matches).len() == matches.len(),
        forall|i: int| 0 <= i < matches.len() ==> #[trigger] match_models(matches)[i] == matches[i]@,
{
}

} // verus!
