//! The search for a snippet in a source text.
use crate::grammar::{
    language_refusal, parse, parsed, parses_to, refusal_of, root_model, tree_model,
};
use crate::matcher::{is_placeholder, is_root_wrapper, structurally_matches, MatchCtx};
use crate::pattern::{root_wrapper_kind, Captures, ContextSpec};
use crate::snippet::{preprocess_snippet, processed, reverse_placeholder_map, SnippetSpec};
use crate::snippet_laws::{law_reverse_inverts, names_by_sentinel};
use crate::strmap::StrMap;
use crate::text::same_text;
use crate::tree::{lemma_named_fit, models, NodeSpec, Point, SyntaxNode};
use tree_sitter::Language;
use vstd::prelude::*;
use vstd::string::*;
use vstd::utf8::is_ascii_chars;

verus! {

/// A place in the source that a snippet or a query matches.
#[derive(Debug)]
pub struct Match {
    pub start_byte: usize,
    pub end_byte: usize,
    pub start_point: Point,
    pub end_point: Point,
    /// The source text that each named placeholder of the snippet has matched.
    pub captures: StrMap<String>,
}

/// The model of a match.
pub struct MatchSpec {
    pub start_byte: usize,
    pub end_byte: usize,
    pub start_point: Point,
    pub end_point: Point,
    pub captures: Captures,
}

impl View for Match {
    type V = MatchSpec;

    open spec fn view(&self) -> MatchSpec {
        MatchSpec {
            start_byte: self.start_byte,
            end_byte: self.end_byte,
            start_point: self.start_point,
            end_point: self.end_point,
            captures: self.captures@,
        }
    }
}

impl Clone for Match {
    fn clone(&self) -> (r: Self)
        ensures
            r@ == self@,
    {
        Match {
            start_byte: self.start_byte,
            end_byte: self.end_byte,
            start_point: self.start_point,
            end_point: self.end_point,
            captures: self.captures.clone(),
        }
    }
}

/// The models of several matches.
pub open spec fn match_models(matches: Seq<Match>) -> Seq<MatchSpec> {
    matches.map_values(|m: Match| m@)
}

/// The part of a parsed snippet to look for: what a wrapper for whole files holds, if that is
/// one node.
pub open spec fn pattern_of(root: NodeSpec) -> NodeSpec {
    if root_wrapper_kind(root.kind) && root.named_children().len() == 1 {
        root.named_children()[0]
    } else {
        root
    }
}

/// There is an error node in the subtree.
pub open spec fn contains_error(node: NodeSpec) -> bool
    decreases node,
{
    ||| node.kind == "ERROR"@
    ||| exists|i: int| 0 <= i < node.children.len() && contains_error(#[trigger] node.children[i])
}

/// The match of a node.
pub open spec fn match_at(node: NodeSpec, captures: Captures) -> MatchSpec {
    MatchSpec {
        start_byte: node.start_byte,
        end_byte: node.end_byte,
        start_point: node.start_point,
        end_point: node.end_point,
        captures,
    }
}

/// The node lies inside one of the matches. An empty node at the very place of an empty match
/// does not.
pub open spec fn inside_match(node: NodeSpec, matches: Seq<MatchSpec>) -> bool {
    exists|i: int|
        0 <= i < matches.len() && {
            let m = #[trigger] matches[i];
            &&& m.start_byte <= node.start_byte && node.end_byte <= m.end_byte
            &&& m.start_byte < node.end_byte || node.start_byte < m.end_byte
        }
}

impl ContextSpec {
    /// The only named child of a pattern, unless it is a leaf or a placeholder, which would
    /// match too much.
    pub open spec fn unwrapped(self, pattern: NodeSpec) -> Option<NodeSpec> {
        let children = pattern.named_children();
        if children.len() == 1 && children[0].named_children().len() > 0 && !self.is_placeholder(
            children[0],
        ) {
            Some(children[0])
        } else {
            None
        }
    }

    /// What the node itself adds to the matches found so far: a match of the whole pattern,
    /// or else, outside of the matches so far, one of the unwrapped pattern.
    pub open spec fn visit(
        self,
        node: NodeSpec,
        pattern: NodeSpec,
        found: Seq<MatchSpec>,
    ) -> Seq<MatchSpec> {
        match self.node_matches(node, pattern, Map::empty()) {
            Some(captures) => found.push(match_at(node, captures)),
            None => match self.unwrapped(pattern) {
                Some(inner) => match self.node_matches(node, inner, Map::empty()) {
                    Some(captures) => if inside_match(node, found) {
                        found
                    } else {
                        found.push(match_at(node, captures))
                    },
                    None => found,
                },
                None => found,
            },
        }
    }

    /// The matches found so far and those in the subtree, each node before those below it.
    pub open spec fn collect(
        self,
        node: NodeSpec,
        pattern: NodeSpec,
        found: Seq<MatchSpec>,
    ) -> Seq<MatchSpec>
        decreases node,
    {
        self.collect_all(node.children, pattern, self.visit(node, pattern, found))
    }

    pub open spec fn collect_all(
        self,
        nodes: Seq<NodeSpec>,
        pattern: NodeSpec,
        found: Seq<MatchSpec>,
    ) -> Seq<MatchSpec>
        decreases nodes,
    {
        if nodes.len() == 0 {
            found
        } else {
            self.collect(nodes.last(), pattern, self.collect_all(nodes.drop_last(), pattern, found))
        }
    }
}

/// The pattern in a parsed snippet.
pub fn extract_pattern(root: &SyntaxNode) -> (r: &SyntaxNode)
    ensures
        r@ == pattern_of(root@),
{
    if is_root_wrapper(root.kind.as_str()) {
        let named = root.named_children();
        assert(models(named@).len() == named@.len());
        if named.len() == 1 {
            assert(models(named@)[0] == named@[0]@);
            return named[0];
        }
    }
    root
}

/// Whether there is an error node in the subtree.
pub fn has_error(node: &SyntaxNode) -> (r: bool)
    ensures
        r == contains_error(node@),
    decreases node,
{
    if same_text(node.kind.as_str(), "ERROR") {
        return true;
    }
    let mut i: usize = 0;
    while i < node.children.len()
        invariant
            i <= node.children@.len(),
            forall|j: int| 0 <= j < i ==> !contains_error(#[trigger] node@.children[j]),
        decreases node.children.len() - i,
    {
        assert(node@.children[i as int] == node.children@[i as int]@);
        if has_error(&node.children[i]) {
            return true;
        }
        i = i + 1;
    }
    false
}

/// The only named child of a wrapper such as a statement, which allows a match beyond the
/// statement. A leaf or a bare placeholder is not unwrapped.
pub fn try_unwrap_pattern<'a>(pattern: &'a SyntaxNode, ctx: &MatchCtx) -> (r: Option<&'a SyntaxNode>)
    requires
        pattern@.fits(ctx.pattern_text@),
    ensures
        r is Some <==> ctx@.unwrapped(pattern@) is Some,
        r matches Some(inner) ==> ctx@.unwrapped(pattern@) == Some(inner@),
        r matches Some(inner) ==> inner@.fits(ctx.pattern_text@),
{
    let named = pattern.named_children();
    proof {
        lemma_named_fit(pattern@.children, ctx.pattern_text@);
        assert(models(named@).len() == named@.len());
    }
    if named.len() == 1 {
        let child = named[0];
        assert(models(named@)[0] == child@);
        let below = child.named_children();
        assert(models(below@).len() == below@.len());
        if below.len() > 0 && !is_placeholder(child, ctx) {
            return Some(child);
        }
    }
    None
}

/// Whether a node lies inside one of the matches.
pub fn overlaps_matched_range(node: &SyntaxNode, matches: &Vec<Match>) -> (r: bool)
    ensures
        r == inside_match(node@, match_models(matches@)),
{
    let start = node.start_byte;
    let end = node.end_byte;
    let ghost all = match_models(matches@);
    let mut i: usize = 0;
    while i < matches.len()
        invariant
            i <= matches@.len(),
            all == match_models(matches@),
            start == node@.start_byte,
            end == node@.end_byte,
            forall|j: int|
                0 <= j < i ==> {
                    let m = #[trigger] all[j];
                    !(m.start_byte <= start && end <= m.end_byte && (m.start_byte < end || start
                        < m.end_byte))
                },
        decreases matches.len() - i,
    {
        let m = &matches[i];
        assert(all[i as int] == m@);
        if m.start_byte <= start && end <= m.end_byte && (m.start_byte < end || start < m.end_byte) {
            return true;
        }
        i = i + 1;
    }
    false
}

/// Adds the match of a node.
fn push_match(matches: &mut Vec<Match>, node: &SyntaxNode, captures: StrMap<String>)
    ensures
        match_models(final(matches)@) == match_models(old(matches)@).push(
            match_at(node@, captures@),
        ),
{
    matches.push(
        Match {
            start_byte: node.start_byte,
            end_byte: node.end_byte,
            start_point: node.start_point,
            end_point: node.end_point,
            captures,
        },
    );
    assert(match_models(matches@) =~= match_models(old(matches)@).push(match_at(node@, captures@)));
}

/// Adds the matches in a source tree, each node before those below it.
pub fn collect_matches(
    node: &SyntaxNode,
    pattern: &SyntaxNode,
    matches: &mut Vec<Match>,
    ctx: &MatchCtx,
)
    requires
        node@.fits(ctx.source_text@),
        pattern@.fits(ctx.pattern_text@),
    ensures
        match_models(final(matches)@) == ctx@.collect(
            node@,
            pattern@,
            match_models(old(matches)@),
        ),
    decreases node,
{
    let ghost before = match_models(matches@);
    if let Some(captures) = structurally_matches(node, pattern, StrMap::new(), ctx) {
        push_match(matches, node, captures);
    } else if !overlaps_matched_range(node, matches) {
        if let Some(inner) = try_unwrap_pattern(pattern, ctx) {
            if let Some(captures) = structurally_matches(node, inner, StrMap::new(), ctx) {
                push_match(matches, node, captures);
            }
        }
    }
    assert(match_models(matches@) == ctx@.visit(node@, pattern@, before));
    let ghost visited = match_models(matches@);
    let ghost kids = node@.children;
    let mut i: usize = 0;
    assert(kids.take(0).len() == 0);
    while i < node.children.len()
        invariant
            i <= node.children@.len(),
            kids == node@.children,
            node@.fits(ctx.source_text@),
            pattern@.fits(ctx.pattern_text@),
            match_models(matches@) == ctx@.collect_all(kids.take(i as int), pattern@, visited),
        decreases node.children.len() - i,
    {
        proof {
            assert(kids[i as int] == node.children@[i as int]@);
            assert(kids.take(i + 1).drop_last() =~= kids.take(i as int));
            assert(kids.take(i + 1).last() == kids[i as int]);
        }
        collect_matches(&node.children[i], pattern, matches, ctx);
        i = i + 1;
    }
    assert(kids.take(i as int) =~= kids);
}

/// What matching a preprocessed snippet in a source text depends on, where `names` leads from
/// the sentinels to the placeholder names.
pub open spec fn context_of(
    source: Seq<char>,
    snippet: SnippetSpec,
    names: Map<Seq<char>, Seq<char>>,
) -> ContextSpec {
    ContextSpec {
        source_text: source,
        pattern_text: snippet.pattern_text,
        reverse_placeholders: names,
        repetitions: snippet.repetitions,
        specials: snippet.specials,
        type_constraints: snippet.type_constraints,
    }
}

/// The trees are laid out on their texts, if it comes to matching one against the other.
pub open spec fn searchable(
    pattern_text: Seq<char>,
    source: Seq<char>,
    snippet_tree: Option<NodeSpec>,
    source_tree: Option<NodeSpec>,
) -> bool {
    match (snippet_tree, source_tree) {
        (Some(snippet_root), Some(source_root)) => {
            ||| contains_error(pattern_of(snippet_root))
            ||| snippet_root.fits(pattern_text) && source_root.fits(source)
        },
        _ => true,
    }
}

/// What a search comes to, given why the grammar is refused, if it is, and the trees of the
/// pattern text and the source.
pub open spec fn search_outcome(
    context: ContextSpec,
    refusal: Option<Seq<char>>,
    snippet_tree: Option<NodeSpec>,
    source_tree: Option<NodeSpec>,
) -> Result<Seq<MatchSpec>, Seq<char>> {
    match (refusal, snippet_tree, source_tree) {
        (Some(reason), _, _) => Err("Failed to set language: "@ + reason),
        (None, None, _) => Err("Failed to parse snippet"@),
        (None, Some(snippet_root), _) if contains_error(pattern_of(snippet_root)) => Err(
            "Snippet contains syntax errors"@,
        ),
        (None, Some(_), None) => Err("Failed to parse source"@),
        (None, Some(snippet_root), Some(source_root)) => Ok(
            context.collect(source_root, pattern_of(snippet_root), seq![]),
        ),
    }
}

/// The model of a search result.
pub open spec fn found(r: Result<Vec<Match>, String>) -> Result<Seq<MatchSpec>, Seq<char>> {
    match r {
        Ok(matches) => Ok(match_models(matches@)),
        Err(message) => Err(message@),
    }
}

/// The model of an optional text.
pub open spec fn text_model(text: Option<String>) -> Option<Seq<char>> {
    match text {
        Some(t) => Some(t@),
        None => None,
    }
}

/// The pattern in a tree fits the text that the tree fits.
proof fn lemma_pattern_fits(root: NodeSpec, text: Seq<char>)
    requires
        root.fits(text),
    ensures
        pattern_of(root).fits(text),
{
    lemma_named_fit(root.children, text);
}

/// Finds the matches of a preprocessed snippet in a source text, given why the grammar is
/// refused, if it is, and the trees of the pattern text and the source.
pub fn search_trees(
    ctx: &MatchCtx,
    refusal: Option<String>,
    snippet_tree: &Option<SyntaxNode>,
    source_tree: &Option<SyntaxNode>,
) -> (r: Result<Vec<Match>, String>)
    requires
        searchable(
            ctx.pattern_text@,
            ctx.source_text@,
            tree_model(*snippet_tree),
            tree_model(*source_tree),
        ),
    ensures
        found(r) == search_outcome(
            ctx@,
            text_model(refusal),
            tree_model(*snippet_tree),
            tree_model(*source_tree),
        ),
{
    if let Some(reason) = refusal {
        let mut message = "Failed to set language: ".to_owned();
        message.append(reason.as_str());
        return Err(message);
    }
    let root = match snippet_tree {
        Some(root) => root,
        None => {
            return Err("Failed to parse snippet".to_owned());
        },
    };
    let pattern = extract_pattern(root);
    if has_error(pattern) {
        return Err("Snippet contains syntax errors".to_owned());
    }
    let source_root = match source_tree {
        Some(source_root) => source_root,
        None => {
            return Err("Failed to parse source".to_owned());
        },
    };
    proof {
        lemma_pattern_fits(root@, ctx.pattern_text@);
    }
    let mut matches: Vec<Match> = Vec::new();
    assert(match_models(matches@) =~= seq![]);
    collect_matches(source_root, pattern, &mut matches, ctx);
    Ok(matches)
}

/// The context in which a snippet is searched for.
pub open spec fn snippet_context(source: Seq<char>, snippet: Seq<char>) -> ContextSpec {
    context_of(source, processed(snippet), names_by_sentinel(snippet))
}

/// What the search for a snippet in a source text comes to, given the trees of the pattern text
/// and the source: `None` where a tree is not laid out on its text.
pub open spec fn snippet_outcome(
    source: Seq<char>,
    snippet: Seq<char>,
    lang: Language,
    snippet_tree: Option<NodeSpec>,
    source_tree: Option<NodeSpec>,
) -> Option<Result<Seq<MatchSpec>, Seq<char>>> {
    if searchable(processed(snippet).pattern_text, source, snippet_tree, source_tree) {
        Some(
            search_outcome(
                snippet_context(source, snippet),
                language_refusal(lang),
                snippet_tree,
                source_tree,
            ),
        )
    } else {
        None
    }
}

/// The search for a snippet in a source text may come to `r`: it does for trees that the parser
/// may make.
pub open spec fn snippet_may_give(
    source: Seq<char>,
    snippet: Seq<char>,
    lang: Language,
    r: Option<Result<Seq<MatchSpec>, Seq<char>>>,
) -> bool {
    exists|snippet_tree: Option<NodeSpec>, source_tree: Option<NodeSpec>| #[trigger]
        parses_to(lang, processed(snippet).pattern_text, snippet_tree) && #[trigger] parses_to(
            lang,
            source,
            source_tree,
        ) && r == snippet_outcome(source, snippet, lang, snippet_tree, source_tree)
}

/// The model of a search result, if there is one.
pub open spec fn maybe_found(r: Option<Result<Vec<Match>, String>>) -> Option<
    Result<Seq<MatchSpec>, Seq<char>>,
> {
    match r {
        Some(result) => Some(found(result)),
        None => None,
    }
}

/// Finds all matches of a snippet in a source text.
///
/// Named leaves, such as identifiers and literals, match by their text. `$name` matches any
/// one node, `$name:kind` one of that kind. As last child, `$($name),*`, `$($name),+` and
/// `$($name),?` match any number of nodes, at least one, or at most one. `$$$name` matches any
/// number of nodes in any position; so does `$BODY` for statements. `$STMT` matches one
/// statement and `$EXPR` one expression.
///
/// The result is `None` where it comes to matching and a tree is not laid out on its text.
pub fn find_snippet_matches(source: &str, snippet: &str, lang: &Language) -> (r: Option<
    Result<Vec<Match>, String>,
>)
    ensures
        snippet_may_give(source@, snippet@, *lang, maybe_found(r)),
        is_ascii_chars(source@) && is_ascii_chars(processed(snippet@).pattern_text) ==> maybe_found(
            r,
        ) == snippet_outcome(
            source@,
            snippet@,
            *lang,
            root_model(parsed(*lang, processed(snippet@).pattern_text)),
            root_model(parsed(*lang, source@)),
        ),
{
    let processed_snippet = preprocess_snippet(snippet);
    let names = reverse_placeholder_map(&processed_snippet.placeholders);
    proof {
        law_reverse_inverts(snippet@, names@);
    }
    let refusal = refusal_of(lang);
    let pattern_text = processed_snippet.pattern_text.as_str();
    let snippet_tree = parse(lang, pattern_text);
    let source_tree = parse(lang, source);
    if !can_search_trees(pattern_text, source, &snippet_tree, &source_tree) {
        return None;
    }
    let ctx = MatchCtx {
        source_text: source,
        pattern_text,
        reverse_placeholders: &names,
        repetitions: &processed_snippet.repetitions,
        specials: &processed_snippet.specials,
        type_constraints: &processed_snippet.type_constraints,
    };
    Some(search_trees(&ctx, refusal, &snippet_tree, &source_tree))
}

/// Whether the trees are laid out on their texts, if it comes to matching.
pub fn can_search_trees(
    pattern_text: &str,
    source: &str,
    snippet_tree: &Option<SyntaxNode>,
    source_tree: &Option<SyntaxNode>,
) -> (r: bool)
    ensures
        r == searchable(
            pattern_text@,
            source@,
            tree_model(*snippet_tree),
            tree_model(*source_tree),
        ),
{
    match (snippet_tree, source_tree) {
        (Some(root), Some(source_root)) => has_error(extract_pattern(root)) || (root.fits_text(
            pattern_text,
        ) && source_root.fits_text(source)),
        _ => true,
    }
}

} // verus!
