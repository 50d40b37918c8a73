//! Laws of the search for a snippet.
use crate::grammar::{language_refusal, parsed, parses_to, root_value};
use crate::pattern::ContextSpec;
use crate::pattern_laws::{
    holds_sentinel, is_name, is_single, law_captures_named, law_placeholders_captured,
    law_plain_matches_itself, names_unique,
};
use crate::search::{
    contains_error, inside_match, match_at, pattern_of, snippet_context, snippet_may_give,
    snippet_outcome, MatchSpec,
};
use crate::snippet::processed;
use crate::snippet_laws::{
    law_ascii_snippet_kept, law_plain_snippet_kept, law_repetitions_sound, names_by_sentinel,
};
use crate::text::is_text_range;
use crate::tree::{all_fit, in_order, NodeSpec};
use tree_sitter::Language;
use vstd::prelude::*;
use vstd::utf8::is_ascii_chars;

verus! {

/// The node is the root of the tree or stands below it.
pub open spec fn occurs_in(node: NodeSpec, root: NodeSpec) -> bool
    decreases root,
{
    ||| node == root
    ||| exists|i: int| 0 <= i < root.children.len() && occurs_in(node, #[trigger] root.children[i])
}

/// The match reports the node: it stands where the node stands, and its captures are those of
/// the whole pattern or of the unwrapped one.
pub open spec fn reports(
    context: ContextSpec,
    m: MatchSpec,
    node: NodeSpec,
    pattern: NodeSpec,
) -> bool {
    ||| context.node_matches(node, pattern, Map::empty()) == Some(m.captures) && m == match_at(
        node,
        m.captures,
    )
    ||| context.unwrapped(pattern) is Some && context.node_matches(
        node,
        context.unwrapped(pattern)->0,
        Map::empty(),
    ) == Some(m.captures) && m == match_at(node, m.captures)
}

/// A search adds to the matches found before, and takes none away.
pub proof fn law_search_appends(
    context: ContextSpec,
    root: NodeSpec,
    pattern: NodeSpec,
    found: Seq<MatchSpec>,
)
    ensures
        found.is_prefix_of(context.collect(root, pattern, found)),
    decreases root, 0nat,
{
    lemma_all_append(context, root.children, pattern, context.visit(root, pattern, found));
}

proof fn lemma_all_append(
    context: ContextSpec,
    nodes: Seq<NodeSpec>,
    pattern: NodeSpec,
    found: Seq<MatchSpec>,
)
    ensures
        found.is_prefix_of(context.collect_all(nodes, pattern, found)),
    decreases nodes, 1nat,
{
    if nodes.len() > 0 {
        let middle = context.collect_all(nodes.drop_last(), pattern, found);
        lemma_all_append(context, nodes.drop_last(), pattern, found);
        law_search_appends(context, nodes.last(), pattern, middle);
    }
}

/// Some node of the tree is reported by the match.
pub open spec fn reported_in(
    context: ContextSpec,
    m: MatchSpec,
    root: NodeSpec,
    pattern: NodeSpec,
) -> bool {
    exists|node: NodeSpec| occurs_in(node, root) && #[trigger] reports(context, m, node, pattern)
}

/// Every match that a search adds reports a node of the tree.
pub proof fn law_search_sound(
    context: ContextSpec,
    root: NodeSpec,
    pattern: NodeSpec,
    found: Seq<MatchSpec>,
    i: int,
)
    requires
        found.len() <= i < context.collect(root, pattern, found).len(),
    ensures
        reported_in(context, context.collect(root, pattern, found)[i], root, pattern),
    decreases root, 0nat,
{
    let visited = context.visit(root, pattern, found);
    lemma_all_append(context, root.children, pattern, visited);
    let all = context.collect(root, pattern, found);
    if i < visited.len() {
        assert(all[i] == visited[i]);
        assert(reports(context, all[i], root, pattern));
    } else {
        let k = lemma_all_sound(context, root.children, pattern, visited, i);
        let node = choose|node: NodeSpec|
            occurs_in(node, root.children[k]) && #[trigger] reports(context, all[i], node, pattern);
        assert(occurs_in(node, root));
    }
}

proof fn lemma_all_sound(
    context: ContextSpec,
    nodes: Seq<NodeSpec>,
    pattern: NodeSpec,
    found: Seq<MatchSpec>,
    i: int,
) -> (k: int)
    requires
        found.len() <= i < context.collect_all(nodes, pattern, found).len(),
    ensures
        0 <= k < nodes.len(),
        reported_in(context, context.collect_all(nodes, pattern, found)[i], nodes[k], pattern),
    decreases nodes, 1nat,
{
    let middle = context.collect_all(nodes.drop_last(), pattern, found);
    law_search_appends(context, nodes.last(), pattern, middle);
    if i < middle.len() {
        assert(context.collect_all(nodes, pattern, found)[i] == middle[i]);
        lemma_all_sound(context, nodes.drop_last(), pattern, found, i)
    } else {
        law_search_sound(context, nodes.last(), pattern, middle, i);
        nodes.len() - 1
    }
}

/// The match at `i` reports the node for the whole pattern, or for the unwrapped one where the
/// node does not lie inside an earlier match.
pub open spec fn reports_anew(
    context: ContextSpec,
    matches: Seq<MatchSpec>,
    i: int,
    node: NodeSpec,
    pattern: NodeSpec,
) -> bool {
    ||| context.node_matches(node, pattern, Map::empty()) is Some
    ||| reports(context, matches[i], node, pattern) && !inside_match(node, matches.take(i))
}

/// The match at `i` reports a node of the tree, and reports it anew.
pub open spec fn new_in(
    context: ContextSpec,
    matches: Seq<MatchSpec>,
    i: int,
    root: NodeSpec,
    pattern: NodeSpec,
) -> bool {
    exists|node: NodeSpec|
        occurs_in(node, root) && #[trigger] reports(context, matches[i], node, pattern)
            && reports_anew(context, matches, i, node, pattern)
}

/// A node that only the unwrapped pattern matches is not reported inside an earlier match.
pub proof fn law_search_no_duplicates(
    context: ContextSpec,
    root: NodeSpec,
    pattern: NodeSpec,
    found: Seq<MatchSpec>,
    i: int,
)
    requires
        found.len() <= i < context.collect(root, pattern, found).len(),
    ensures
        new_in(context, context.collect(root, pattern, found), i, root, pattern),
    decreases root, 0nat,
{
    let visited = context.visit(root, pattern, found);
    let all = context.collect(root, pattern, found);
    lemma_all_append(context, root.children, pattern, visited);
    if i < visited.len() {
        assert(all[i] == visited[i]);
        assert(all.take(i) =~= found);
        assert(reports(context, all[i], root, pattern));
        assert(reports_anew(context, all, i, root, pattern));
    } else {
        let k = lemma_all_new(context, root.children, pattern, visited, i);
        let node = choose|node: NodeSpec|
            occurs_in(node, root.children[k]) && #[trigger] reports(context, all[i], node, pattern)
                && reports_anew(context, all, i, node, pattern);
        assert(occurs_in(node, root));
    }
}

proof fn lemma_all_new(
    context: ContextSpec,
    nodes: Seq<NodeSpec>,
    pattern: NodeSpec,
    found: Seq<MatchSpec>,
    i: int,
) -> (k: int)
    requires
        found.len() <= i < context.collect_all(nodes, pattern, found).len(),
    ensures
        0 <= k < nodes.len(),
        new_in(context, context.collect_all(nodes, pattern, found), i, nodes[k], pattern),
    decreases nodes, 1nat,
{
    let middle = context.collect_all(nodes.drop_last(), pattern, found);
    let all = context.collect_all(nodes, pattern, found);
    law_search_appends(context, nodes.last(), pattern, middle);
    if i < middle.len() {
        let k = lemma_all_new(context, nodes.drop_last(), pattern, found, i);
        assert(all[i] == middle[i]);
        assert(all.take(i) =~= middle.take(i));
        let node = choose|node: NodeSpec|
            occurs_in(node, nodes[k]) && #[trigger] reports(context, middle[i], node, pattern)
                && reports_anew(context, middle, i, node, pattern);
        assert(reports(context, all[i], node, pattern));
        assert(reports_anew(context, all, i, node, pattern));
        k
    } else {
        law_search_no_duplicates(context, nodes.last(), pattern, middle, i);
        nodes.len() - 1
    }
}

/// Every node of the tree that the whole pattern matches is reported.
pub proof fn law_search_complete(
    context: ContextSpec,
    root: NodeSpec,
    pattern: NodeSpec,
    found: Seq<MatchSpec>,
    node: NodeSpec,
)
    requires
        occurs_in(node, root),
        context.node_matches(node, pattern, Map::empty()) is Some,
    ensures
        context.collect(root, pattern, found).contains(
            match_at(node, context.node_matches(node, pattern, Map::empty())->0),
        ),
    decreases root, 0nat,
{
    let m = match_at(node, context.node_matches(node, pattern, Map::empty())->0);
    let visited = context.visit(root, pattern, found);
    let all = context.collect(root, pattern, found);
    lemma_all_append(context, root.children, pattern, visited);
    if node == root {
        assert(visited.last() == m);
        assert(all[visited.len() - 1] == m);
    } else {
        let k = choose|k: int|
            0 <= k < root.children.len() && occurs_in(node, #[trigger] root.children[k]);
        lemma_all_complete(context, root.children, pattern, visited, node, k);
    }
}

proof fn lemma_all_complete(
    context: ContextSpec,
    nodes: Seq<NodeSpec>,
    pattern: NodeSpec,
    found: Seq<MatchSpec>,
    node: NodeSpec,
    k: int,
)
    requires
        0 <= k < nodes.len(),
        occurs_in(node, nodes[k]),
        context.node_matches(node, pattern, Map::empty()) is Some,
    ensures
        context.collect_all(nodes, pattern, found).contains(
            match_at(node, context.node_matches(node, pattern, Map::empty())->0),
        ),
    decreases nodes, 1nat,
{
    let m = match_at(node, context.node_matches(node, pattern, Map::empty())->0);
    let middle = context.collect_all(nodes.drop_last(), pattern, found);
    if k == nodes.len() - 1 {
        law_search_complete(context, nodes.last(), pattern, middle, node);
    } else {
        assert(nodes.drop_last()[k] == nodes[k]);
        lemma_all_complete(context, nodes.drop_last(), pattern, found, node, k);
        law_search_appends(context, nodes.last(), pattern, middle);
        let i = choose|i: int| 0 <= i < middle.len() && middle[i] == m;
        assert(context.collect_all(nodes, pattern, found)[i] == m);
    }
}

/// The node is reported with what the unwrapped pattern captures, or lies inside a match.
pub open spec fn covered(
    context: ContextSpec,
    matches: Seq<MatchSpec>,
    node: NodeSpec,
    inner: NodeSpec,
) -> bool {
    ||| matches.contains(match_at(node, context.node_matches(node, inner, Map::empty())->0))
    ||| inside_match(node, matches)
}

proof fn lemma_covered_grows(
    context: ContextSpec,
    fewer: Seq<MatchSpec>,
    more: Seq<MatchSpec>,
    node: NodeSpec,
    inner: NodeSpec,
)
    requires
        fewer.is_prefix_of(more),
        covered(context, fewer, node, inner),
    ensures
        covered(context, more, node, inner),
{
    let m = match_at(node, context.node_matches(node, inner, Map::empty())->0);
    if fewer.contains(m) {
        let i = choose|i: int| 0 <= i < fewer.len() && fewer[i] == m;
        assert(more[i] == m);
    } else {
        let i = choose|i: int|
            0 <= i < fewer.len() && {
                let m = #[trigger] fewer[i];
                &&& m.start_byte <= node.start_byte && node.end_byte <= m.end_byte
                &&& m.start_byte < node.end_byte || node.start_byte < m.end_byte
            };
        assert(more[i] == fewer[i]);
    }
}

/// Every node of the tree that the unwrapped pattern matches, and the whole pattern does not,
/// is reported or lies inside a reported one.
pub proof fn law_unwrapped_covered(
    context: ContextSpec,
    root: NodeSpec,
    pattern: NodeSpec,
    found: Seq<MatchSpec>,
    node: NodeSpec,
)
    requires
        occurs_in(node, root),
        context.node_matches(node, pattern, Map::empty()) is None,
        context.unwrapped(pattern) is Some,
        context.node_matches(node, context.unwrapped(pattern)->0, Map::empty()) is Some,
    ensures
        covered(
            context,
            context.collect(root, pattern, found),
            node,
            context.unwrapped(pattern)->0,
        ),
    decreases root, 0nat,
{
    let inner = context.unwrapped(pattern)->0;
    let visited = context.visit(root, pattern, found);
    let all = context.collect(root, pattern, found);
    lemma_all_append(context, root.children, pattern, visited);
    if node == root {
        if !inside_match(node, found) {
            assert(visited.last() == match_at(
                node,
                context.node_matches(node, inner, Map::empty())->0,
            ));
        }
        lemma_covered_grows(context, visited, all, node, inner);
    } else {
        let k = choose|k: int|
            0 <= k < root.children.len() && occurs_in(node, #[trigger] root.children[k]);
        lemma_all_covered(context, root.children, pattern, visited, node, k);
    }
}

proof fn lemma_all_covered(
    context: ContextSpec,
    nodes: Seq<NodeSpec>,
    pattern: NodeSpec,
    found: Seq<MatchSpec>,
    node: NodeSpec,
    k: int,
)
    requires
        0 <= k < nodes.len(),
        occurs_in(node, nodes[k]),
        context.node_matches(node, pattern, Map::empty()) is None,
        context.unwrapped(pattern) is Some,
        context.node_matches(node, context.unwrapped(pattern)->0, Map::empty()) is Some,
    ensures
        covered(
            context,
            context.collect_all(nodes, pattern, found),
            node,
            context.unwrapped(pattern)->0,
        ),
    decreases nodes, 1nat,
{
    let middle = context.collect_all(nodes.drop_last(), pattern, found);
    if k == nodes.len() - 1 {
        law_unwrapped_covered(context, nodes.last(), pattern, middle, node);
    } else {
        assert(nodes.drop_last()[k] == nodes[k]);
        lemma_all_covered(context, nodes.drop_last(), pattern, found, node, k);
        law_search_appends(context, nodes.last(), pattern, middle);
        lemma_covered_grows(
            context,
            middle,
            context.collect_all(nodes, pattern, found),
            node,
            context.unwrapped(pattern)->0,
        );
    }
}

proof fn lemma_occurs_fits(node: NodeSpec, root: NodeSpec, text: Seq<char>)
    requires
        occurs_in(node, root),
        root.fits(text),
    ensures
        node.fits(text),
    decreases root,
{
    if node != root {
        let k = choose|k: int|
            0 <= k < root.children.len() && occurs_in(node, #[trigger] root.children[k]);
        lemma_occurs_fits(node, root.children[k], text);
    }
}

/// The matches start one after the other, and none behind `limit`.
pub open spec fn starts_in_order(matches: Seq<MatchSpec>, limit: int) -> bool {
    &&& forall|i: int, j: int|
        0 <= i <= j < matches.len() ==> (#[trigger] matches[i]).start_byte <= (
        #[trigger] matches[j]).start_byte
    &&& forall|i: int| 0 <= i < matches.len() ==> (#[trigger] matches[i]).start_byte <= limit
}

/// A search that begins behind the starts of the matches found before keeps the matches in the
/// order of their starts.
pub proof fn law_search_in_order(
    context: ContextSpec,
    root: NodeSpec,
    pattern: NodeSpec,
    found: Seq<MatchSpec>,
    text: Seq<char>,
)
    requires
        root.fits(text),
        starts_in_order(found, root.start_byte as int),
    ensures
        starts_in_order(context.collect(root, pattern, found), root.end_byte as int),
    decreases root, 0nat,
{
    let visited = context.visit(root, pattern, found);
    assert(starts_in_order(visited, root.start_byte as int));
    lemma_all_in_order(
        context,
        root.children,
        pattern,
        visited,
        text,
        root.start_byte as int,
        root.end_byte as int,
    );
}

proof fn lemma_all_in_order(
    context: ContextSpec,
    nodes: Seq<NodeSpec>,
    pattern: NodeSpec,
    found: Seq<MatchSpec>,
    text: Seq<char>,
    from: int,
    to: int,
)
    requires
        all_fit(nodes, text),
        from <= to,
        forall|i: int|
            0 <= i < nodes.len() ==> from <= (#[trigger] nodes[i]).start_byte && nodes[i].end_byte
                <= to,
        starts_in_order(found, from),
    ensures
        starts_in_order(context.collect_all(nodes, pattern, found), to),
    decreases nodes, 1nat,
{
    if nodes.len() > 0 {
        let front = nodes.drop_last();
        let last = nodes.last();
        let middle = context.collect_all(front, pattern, found);
        assert(last == nodes[nodes.len() - 1]);
        assert forall|i: int| 0 <= i < front.len() implies (#[trigger] front[i]).fits(text) && from
            <= front[i].start_byte && front[i].end_byte <= last.start_byte by {
            assert(front[i] == nodes[i]);
        }
        assert(in_order(front)) by {
            assert forall|i: int, j: int| 0 <= i < j < front.len() implies (
            #[trigger] front[i]).end_byte <= (#[trigger] front[j]).start_byte by {
                assert(nodes[i].end_byte <= nodes[j].start_byte);
            }
        }
        lemma_all_in_order(context, front, pattern, found, text, from, last.start_byte as int);
        law_search_in_order(context, last, pattern, middle, text);
    }
}

/// The matches of a snippet in a source text, given the trees of the pattern text and the source.
pub open spec fn snippet_matches(
    source: Seq<char>,
    snippet: Seq<char>,
    snippet_root: NodeSpec,
    source_root: NodeSpec,
) -> Seq<MatchSpec> {
    snippet_context(source, snippet).collect(source_root, pattern_of(snippet_root), seq![])
}

/// The trees come of parsing the pattern text and the source, and are laid out on them.
pub open spec fn snippet_trees(
    source: Seq<char>,
    snippet: Seq<char>,
    lang: Language,
    snippet_root: NodeSpec,
    source_root: NodeSpec,
) -> bool {
    &&& parses_to(lang, processed(snippet).pattern_text, Some(snippet_root))
    &&& parses_to(lang, source, Some(source_root))
    &&& snippet_root.fits(processed(snippet).pattern_text)
    &&& source_root.fits(source)
}

/// Whenever a search gives matches, they are those in trees that the parser made.
pub proof fn law_matches_from_trees(
    source: Seq<char>,
    snippet: Seq<char>,
    lang: Language,
    matches: Seq<MatchSpec>,
)
    requires
        snippet_may_give(source, snippet, lang, Some(Ok(matches))),
    ensures
        exists|snippet_root: NodeSpec, source_root: NodeSpec| #[trigger]
            snippet_trees(source, snippet, lang, snippet_root, source_root) && matches
                == snippet_matches(source, snippet, snippet_root, source_root),
{
    let (a, b): (Option<NodeSpec>, Option<NodeSpec>) = choose|
        a: Option<NodeSpec>,
        b: Option<NodeSpec>,
    | #[trigger]
        parses_to(lang, processed(snippet).pattern_text, a) && #[trigger] parses_to(lang, source, b)
            && Some(Ok::<Seq<MatchSpec>, Seq<char>>(matches)) == snippet_outcome(
            source,
            snippet,
            lang,
            a,
            b,
        );
    assert(snippet_trees(source, snippet, lang, a->0, b->0));
}

/// Of ASCII texts a search always gives the same.
pub proof fn law_ascii_search_determined(
    source: Seq<char>,
    snippet: Seq<char>,
    lang: Language,
    a: Option<Result<Seq<MatchSpec>, Seq<char>>>,
    b: Option<Result<Seq<MatchSpec>, Seq<char>>>,
)
    requires
        is_ascii_chars(source),
        is_ascii_chars(snippet),
        snippet_may_give(source, snippet, lang, a),
        snippet_may_give(source, snippet, lang, b),
    ensures
        a == b,
{
    law_ascii_snippet_kept(snippet);
}

/// Every match of a snippet reports a node of the tree of the source.
pub proof fn law_snippet_sound(
    source: Seq<char>,
    snippet: Seq<char>,
    snippet_root: NodeSpec,
    source_root: NodeSpec,
    i: int,
)
    requires
        0 <= i < snippet_matches(source, snippet, snippet_root, source_root).len(),
    ensures
        reported_in(
            snippet_context(source, snippet),
            snippet_matches(source, snippet, snippet_root, source_root)[i],
            source_root,
            pattern_of(snippet_root),
        ),
{
    law_search_sound(
        snippet_context(source, snippet),
        source_root,
        pattern_of(snippet_root),
        seq![],
        i,
    );
}

/// Every node of the tree of the source that the pattern of a snippet matches is reported.
pub proof fn law_snippet_complete(
    source: Seq<char>,
    snippet: Seq<char>,
    snippet_root: NodeSpec,
    source_root: NodeSpec,
    node: NodeSpec,
)
    requires
        occurs_in(node, source_root),
        snippet_context(source, snippet).node_matches(
            node,
            pattern_of(snippet_root),
            Map::empty(),
        ) is Some,
    ensures
        snippet_matches(source, snippet, snippet_root, source_root).contains(
            match_at(
                node,
                snippet_context(source, snippet).node_matches(
                    node,
                    pattern_of(snippet_root),
                    Map::empty(),
                )->0,
            ),
        ),
{
    law_search_complete(
        snippet_context(source, snippet),
        source_root,
        pattern_of(snippet_root),
        seq![],
        node,
    );
}

/// Trees that give the matches.
proof fn lemma_roots(
    source: Seq<char>,
    snippet: Seq<char>,
    lang: Language,
    matches: Seq<MatchSpec>,
) -> (r: (NodeSpec, NodeSpec))
    requires
        snippet_may_give(source, snippet, lang, Some(Ok(matches))),
    ensures
        snippet_trees(source, snippet, lang, r.0, r.1),
        matches == snippet_matches(source, snippet, r.0, r.1),
{
    law_matches_from_trees(source, snippet, lang, matches);
    choose|snippet_root: NodeSpec, source_root: NodeSpec| #[trigger]
        snippet_trees(source, snippet, lang, snippet_root, source_root) && matches
            == snippet_matches(source, snippet, snippet_root, source_root)
}

/// Every match of a snippet spans whole characters of the source.
pub proof fn law_snippet_within_source(
    source: Seq<char>,
    snippet: Seq<char>,
    lang: Language,
    matches: Seq<MatchSpec>,
    i: int,
)
    requires
        snippet_may_give(source, snippet, lang, Some(Ok(matches))),
        0 <= i < matches.len(),
    ensures
        is_text_range(source, matches[i].start_byte as int, matches[i].end_byte as int),
{
    let (snippet_root, root) = lemma_roots(source, snippet, lang, matches);
    let context = snippet_context(source, snippet);
    law_snippet_sound(source, snippet, snippet_root, root, i);
    let node = choose|node: NodeSpec|
        occurs_in(node, root) && #[trigger] reports(
            context,
            matches[i],
            node,
            pattern_of(snippet_root),
        );
    lemma_occurs_fits(node, root, source);
}

/// The matches of a snippet come in the order of their starts.
pub proof fn law_snippet_in_order(
    source: Seq<char>,
    snippet: Seq<char>,
    lang: Language,
    matches: Seq<MatchSpec>,
    i: int,
    j: int,
)
    requires
        snippet_may_give(source, snippet, lang, Some(Ok(matches))),
        0 <= i <= j < matches.len(),
    ensures
        matches[i].start_byte <= matches[j].start_byte,
{
    let (snippet_root, root) = lemma_roots(source, snippet, lang, matches);
    law_search_in_order(
        snippet_context(source, snippet),
        root,
        pattern_of(snippet_root),
        seq![],
        source,
    );
}

/// The captures of a match are those of the whole or of the unwrapped pattern on some node.
proof fn lemma_match_origin(
    source: Seq<char>,
    snippet: Seq<char>,
    snippet_root: NodeSpec,
    source_root: NodeSpec,
    i: int,
) -> (r: (NodeSpec, NodeSpec))
    requires
        0 <= i < snippet_matches(source, snippet, snippet_root, source_root).len(),
    ensures
        ({
            let (node, inner) = r;
            let context = snippet_context(source, snippet);
            let pattern = pattern_of(snippet_root);
            &&& inner == pattern || context.unwrapped(pattern) == Some(inner)
            &&& context.node_matches(node, inner, Map::empty()) == Some(
                snippet_matches(source, snippet, snippet_root, source_root)[i].captures,
            )
        }),
{
    let context = snippet_context(source, snippet);
    let pattern = pattern_of(snippet_root);
    let m = snippet_matches(source, snippet, snippet_root, source_root)[i];
    law_snippet_sound(source, snippet, snippet_root, source_root, i);
    let node = choose|node: NodeSpec|
        occurs_in(node, source_root) && #[trigger] reports(context, m, node, pattern);
    if context.node_matches(node, pattern, Map::empty()) == Some(m.captures) {
        (node, pattern)
    } else {
        (node, context.unwrapped(pattern)->0)
    }
}

/// A match of a snippet captures under the names of the snippet's placeholders only.
pub proof fn law_snippet_captures_names(
    source: Seq<char>,
    snippet: Seq<char>,
    lang: Language,
    matches: Seq<MatchSpec>,
    i: int,
    key: Seq<char>,
)
    requires
        snippet_may_give(source, snippet, lang, Some(Ok(matches))),
        0 <= i < matches.len(),
        matches[i].captures.contains_key(key),
    ensures
        processed(snippet).placeholders.contains_key(key),
{
    let (snippet_root, root) = lemma_roots(source, snippet, lang, matches);
    let context = snippet_context(source, snippet);
    let (node, inner) = lemma_match_origin(source, snippet, snippet_root, root, i);
    law_captures_named(context, Map::empty(), node, inner, Map::empty());
    assert(is_name(context, key));
    let sentinel = choose|sentinel: Seq<char>|
        context.reverse_placeholders.contains_pair(sentinel, key);
    let placeholders = processed(snippet).placeholders;
    assert(context.reverse_placeholders.contains_key(sentinel));
    let name = choose|name: Seq<char>| placeholders.contains_pair(name, sentinel);
    assert(placeholders.contains_pair(name, sentinel));
}

/// A match of a snippet captures every named placeholder that stands in the snippet's pattern.
pub proof fn law_snippet_captures_all(
    source: Seq<char>,
    snippet: Seq<char>,
    snippet_root: NodeSpec,
    source_root: NodeSpec,
    i: int,
    sentinel: Seq<char>,
)
    requires
        0 <= i < snippet_matches(source, snippet, snippet_root, source_root).len(),
        is_single(snippet_context(source, snippet), sentinel),
        holds_sentinel(snippet_context(source, snippet), pattern_of(snippet_root), sentinel),
    ensures
        snippet_matches(source, snippet, snippet_root, source_root)[i].captures.contains_key(
            names_by_sentinel(snippet)[sentinel],
        ),
{
    let context = snippet_context(source, snippet);
    let (node, inner) = lemma_match_origin(source, snippet, snippet_root, source_root, i);
    law_placeholders_captured(context, node, inner, Map::empty(), sentinel);
}

/// A spanning placeholder of a snippet takes any number of nodes.
pub proof fn law_snippet_spans_any_number(source: Seq<char>, snippet: Seq<char>, p: NodeSpec)
    ensures
        snippet_context(source, snippet).span_op(p) == "*"@,
{
    let context = snippet_context(source, snippet);
    if context.is_multi_placeholder(p) {
        law_repetitions_sound(snippet, p.text(context.pattern_text));
    }
}

/// In the context of a snippet no two sentinels have the same name.
pub proof fn law_snippet_names_unique(source: Seq<char>, snippet: Seq<char>)
    ensures
        names_unique(snippet_context(source, snippet)),
{
    let names = names_by_sentinel(snippet);
    let placeholders = processed(snippet).placeholders;
    assert forall|a: Seq<char>, b: Seq<char>|
        names.contains_key(a) && names.contains_key(b) && #[trigger] names[a]
            == #[trigger] names[b] implies a == b by {
        let n = choose|n: Seq<char>| placeholders.contains_pair(n, a);
        assert(placeholders.contains_pair(n, a));
        assert(placeholders.contains_pair(names[a], a));
        let m = choose|m: Seq<char>| placeholders.contains_pair(m, b);
        assert(placeholders.contains_pair(m, b));
        assert(placeholders.contains_pair(names[b], b));
    }
}

/// A snippet without a dollar sign and without syntax errors finds itself in its own text, where
/// the parser makes the same tree of the text twice.
pub proof fn law_plain_snippet_found(snippet: Seq<char>, root: NodeSpec)
    requires
        !snippet.contains('$'),
    ensures
        snippet_matches(snippet, snippet, root, root).contains(
            match_at(pattern_of(root), Map::empty()),
        ),
{
    law_plain_snippet_kept(snippet);
    let context = snippet_context(snippet, snippet);
    assert(names_by_sentinel(snippet) =~= Map::empty());
    law_plain_matches_itself(context, pattern_of(root), Map::empty());
    lemma_pattern_occurs(root);
    law_snippet_complete(snippet, snippet, root, root, pattern_of(root));
}

/// An ASCII snippet without a dollar sign and without syntax errors is found in its own text.
pub proof fn law_plain_ascii_snippet_found(
    snippet: Seq<char>,
    lang: Language,
    r: Option<Result<Seq<MatchSpec>, Seq<char>>>,
)
    requires
        !snippet.contains('$'),
        is_ascii_chars(snippet),
        language_refusal(lang) is None,
        parsed(lang, snippet) is Some,
        ({
            let root = root_value(parsed(lang, snippet)->0);
            root.fits(snippet) && !contains_error(pattern_of(root))
        }),
        snippet_may_give(snippet, snippet, lang, r),
    ensures
        r matches Some(Ok(matches)) && matches.contains(
            match_at(pattern_of(root_value(parsed(lang, snippet)->0)), Map::empty()),
        ),
{
    law_plain_snippet_kept(snippet);
    law_plain_snippet_found(snippet, root_value(parsed(lang, snippet)->0));
}

proof fn lemma_pattern_occurs(root: NodeSpec)
    ensures
        occurs_in(pattern_of(root), root),
{
    let named = root.named_children();
    if pattern_of(root) != root {
        root.children.lemma_filter_contains_rev(|n: NodeSpec| n.named, named[0]);
        let k = choose|k: int| 0 <= k < root.children.len() && root.children[k] == named[0];
        assert(occurs_in(named[0], root.children[k]));
    }
}

} // verus!
