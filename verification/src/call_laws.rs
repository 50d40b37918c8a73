//! What calls of the library give: the result of each in terms of its arguments.
use crate::command::{
    check_in_place, check_ranges, cmd_edit, cmd_find, edit_action, edit_matches, edited, edits_to,
    find_output, find_results, get_matches, input_names, inputs, listed, name_model, one_selector,
    output_model, process_edit, resolve_lang, result_line, search_may_give, show_matches, shown,
    within_text, EditAction,
};
use crate::command_laws::law_find_output;
use crate::finding_laws::{law_contains_error, law_inside_match, law_pattern_of, law_unwrapped};
use crate::grammar::{
    compiled, hits, language_refusal, may_compile, may_parse, parsed, parses_to, query_captures,
    query_hits, query_origin, root_model, root_value, tree_origin, QueryFailure, QueryFailureSpec,
    QueryHit,
};
use crate::matcher::{
    inner_sentinel, is_multi_placeholder, is_placeholder, is_root_wrapper, is_statement_kind,
    last_child_repetition, match_children_suffix, structurally_matches, wraps_special, MatchCtx,
};
use crate::matching_laws::{
    lemma_marked, lemma_statement, repeats_last, sentinel_leaf, spanning_leaf,
    wraps,
};
use crate::query::{
    capturing, find_query_matches, query_error, query_error_message, query_may_give, query_outcome,
    select_target, select_targets, target, targets, try_find_query_matches,
};
use crate::query_laws::{law_report_added, law_report_fields, law_target_is_captured};
use crate::query_shape::{check_query, query_bounded};
use crate::scan::{next_token, scan, special_kind, SpecialKind, Token};
use crate::search::{
    contains_error, extract_pattern, find_snippet_matches, found, has_error, inside_match,
    match_models, maybe_found, overlaps_matched_range, pattern_of, search_trees, snippet_context,
    snippet_may_give, snippet_outcome, text_model, try_unwrap_pattern, Match, MatchSpec,
};
use crate::search_laws::occurs_in;
use crate::snippet::{
    preprocess_snippet, processed, reverse_placeholder_map, ProcessedSnippet, RepetitionInfo,
    RepetitionSpec,
};
use crate::snippet_laws::law_ascii_snippet_kept;
use crate::strmap::StrMap;
use crate::text::{
    chars_of, decimal, first_line_of, has_prefix, has_suffix, is_text_range, same_text, slice_text,
    string_of, text_between, texts,
};
use crate::text_laws::{law_first_line, law_text_between_bytes};
use crate::tree::{all_fit, models, span_text_in, NodeSpec, SyntaxNode};
use crate::tree_laws::{law_fits, placed};
use tree_sitter::{Language, Query, Tree};
use vstd::prelude::*;
use vstd::utf8::{encode_utf8, is_ascii_chars};

verus! {

/// Preprocessing gives what is made of the pieces of the snippet.
pub proof fn law_preprocess_snippet(snippet: &str, r: ProcessedSnippet)
    requires
        call_ensures(preprocess_snippet, (snippet,), r),
    ensures
        r.pattern_text@ == processed(snippet@).pattern_text,
        r.placeholders@ == processed(snippet@).placeholders,
        r.repetitions@ == processed(snippet@).repetitions,
        r.specials@ == processed(snippet@).specials,
        r.type_constraints@ == processed(snippet@).type_constraints,
{
}

/// The reversed placeholders lead from every sentinel that a name has, and from no other text,
/// to a name that has it.
pub proof fn law_reverse_placeholder_map(placeholders: &StrMap<String>, r: StrMap<String>)
    requires
        call_ensures(reverse_placeholder_map, (placeholders,), r),
    ensures
        forall|sentinel: Seq<char>| #[trigger]
            r@.contains_key(sentinel) ==> placeholders@.contains_key(r@[sentinel])
                && placeholders@[r@[sentinel]] == sentinel,
        forall|name: Seq<char>| #[trigger]
            placeholders@.contains_key(name) ==> r@.contains_key(placeholders@[name]),
{
    assert forall|sentinel: Seq<char>| #[trigger]
        r@.contains_key(sentinel) implies placeholders@.contains_key(r@[sentinel])
        && placeholders@[r@[sentinel]] == sentinel by {
        assert(placeholders@.contains_pair(r@[sentinel], sentinel));
    }
}

/// A piece is read at its place, and the next is read behind it.
pub proof fn law_next_token(chars: &Vec<char>, pos: usize, r: (Token, usize))
    requires
        pos < chars@.len(),
        call_ensures(next_token, (chars, pos), r),
    ensures
        r.0@ == scan(chars@.skip(pos as int)).0,
        r.1 - pos == scan(chars@.skip(pos as int)).1,
        pos < r.1 <= chars@.len(),
{
}

/// There are three special names.
pub proof fn law_special_kind(name: &str, r: Option<SpecialKind>)
    requires
        call_ensures(special_kind, (name,), r),
    ensures
        r == Some(SpecialKind::Body) <==> name@ == "BODY"@,
        r == Some(SpecialKind::Stmt) <==> name@ == "STMT"@,
        r == Some(SpecialKind::Expr) <==> name@ == "EXPR"@,
{
    reveal_strlit("BODY");
    reveal_strlit("STMT");
    reveal_strlit("EXPR");
    assert("BODY"@[0] != "STMT"@[0]);
    assert("BODY"@[0] != "EXPR"@[0]);
    assert("STMT"@[0] != "EXPR"@[0]);
}

/// The kinds that wrap a whole file.
pub proof fn law_is_root_wrapper(kind: &str, r: bool)
    requires
        call_ensures(is_root_wrapper, (kind,), r),
    ensures
        r <==> kind@ == "program"@ || kind@ == "module"@,
{
}

/// A kind is that of a statement where it ends in `_statement` or is one of three others: no
/// other declaration counts, nor any other block.
pub proof fn law_is_statement_kind(kind: &str, r: bool)
    requires
        call_ensures(is_statement_kind, (kind,), r),
    ensures
        r <==> (exists|front: Seq<char>| kind@ == #[trigger] (front + "_statement"@)) || kind@
            == "block"@ || kind@ == "local_variable_declaration"@ || kind@
            == "switch_block_statement_group"@,
{
    reveal_strlit("_statement");
    lemma_statement(kind@);
    if kind@.len() >= 10 && kind@.skip(kind@.len() - 10) == "_statement"@ {
        assert(kind@ =~= kind@.take(kind@.len() - 10) + "_statement"@);
    }
    if exists|front: Seq<char>| kind@ == #[trigger] (front + "_statement"@) {
        let front = choose|front: Seq<char>| kind@ == #[trigger] (front + "_statement"@);
        assert(kind@.skip(kind@.len() - 10) =~= "_statement"@);
    }
}

/// A pattern node is a placeholder where it is a marked leaf.
pub proof fn law_is_placeholder(node: &SyntaxNode, ctx: &MatchCtx, r: bool)
    requires
        node@.fits(ctx.pattern_text@),
        call_ensures(is_placeholder, (node, ctx), r),
    ensures
        r <==> sentinel_leaf(ctx@, node@),
{
    lemma_marked(ctx@, node@);
}

/// A source node matches a pattern node with the captures of the match, or does not match.
pub proof fn law_structurally_matches(
    source_node: &SyntaxNode,
    pattern_node: &SyntaxNode,
    captures: StrMap<String>,
    ctx: &MatchCtx,
    r: Option<StrMap<String>>,
)
    requires
        source_node@.fits(ctx.source_text@),
        pattern_node@.fits(ctx.pattern_text@),
        call_ensures(structurally_matches, (source_node, pattern_node, captures, ctx), r),
    ensures
        r is Some <==> ctx@.node_matches(source_node@, pattern_node@, captures@) is Some,
        r matches Some(found) ==> ctx@.node_matches(source_node@, pattern_node@, captures@) == Some(
            found@,
        ),
{
}

/// The context of matching holds what it is made of.
pub proof fn law_context(ctx: MatchCtx)
    ensures
        ctx@.source_text == ctx.source_text@,
        ctx@.pattern_text == ctx.pattern_text@,
        ctx@.reverse_placeholders == ctx.reverse_placeholders@,
        ctx@.repetitions == ctx.repetitions@,
        ctx@.specials == ctx.specials@,
        ctx@.type_constraints == ctx.type_constraints@,
{
}

/// The pattern of a parsed snippet.
pub proof fn law_extract_pattern(root: &SyntaxNode, r: &SyntaxNode)
    requires
        call_ensures(extract_pattern, (root,), r),
    ensures
        (root.kind@ == "program"@ || root.kind@ == "module"@) && root@.named_children().len() == 1
            ==> r@ == root@.named_children()[0],
        root.kind@ != "program"@ && root.kind@ != "module"@ || root@.named_children().len() != 1
            ==> r@ == root@,
{
    law_pattern_of(root@);
}

/// A tree has an error where one of its nodes is one.
pub proof fn law_has_error(node: &SyntaxNode, r: bool)
    requires
        call_ensures(has_error, (node,), r),
    ensures
        r <==> exists|n: NodeSpec| #[trigger] occurs_in(n, node@) && n.kind == "ERROR"@,
{
    law_contains_error(node@);
}

/// A pattern is unwrapped to its only named child where that has named children.
pub proof fn law_try_unwrap_pattern(pattern: &SyntaxNode, ctx: &MatchCtx, r: Option<&SyntaxNode>)
    requires
        pattern@.fits(ctx.pattern_text@),
        call_ensures(try_unwrap_pattern, (pattern, ctx), r),
    ensures
        r is Some <==> pattern@.named_children().len() == 1
            && pattern@.named_children()[0].named_children().len() >= 1,
        r matches Some(inner) ==> inner@ == pattern@.named_children()[0],
{
    law_unwrapped(ctx@, pattern@);
}

/// A node overlaps matches where it lies inside one of them.
pub proof fn law_overlaps_matched_range(node: &SyntaxNode, matches: &Vec<Match>, r: bool)
    requires
        call_ensures(overlaps_matched_range, (node, matches), r),
    ensures
        r <==> exists|i: int|
            0 <= i < matches@.len() && {
                let m = #[trigger] matches@[i];
                &&& m.start_byte <= node.start_byte
                &&& node.end_byte <= m.end_byte
                &&& !(node.end_byte <= m.start_byte && m.end_byte <= node.start_byte)
            },
{
    let all = match_models(matches@);
    law_inside_match(node@, all);
    assert forall|i: int| 0 <= i < matches@.len() implies all[i] == (#[trigger] matches@[i])@ by {}
    if inside_match(node@, all) {
        let i = choose|i: int|
            0 <= i < all.len() && {
                let m = #[trigger] all[i];
                &&& m.start_byte <= node@.start_byte
                &&& node@.end_byte <= m.end_byte
                &&& !(node@.end_byte <= m.start_byte && m.end_byte <= node@.start_byte)
            };
        assert(matches@[i]@ == all[i]);
    }
}

/// A search in given trees.
pub proof fn law_search_trees(
    ctx: &MatchCtx,
    refusal: Option<String>,
    snippet_tree: &Option<SyntaxNode>,
    source_tree: &Option<SyntaxNode>,
    r: Result<Vec<Match>, String>,
)
    requires
        call_ensures(search_trees, (ctx, refusal, snippet_tree, source_tree), r),
        snippet_tree matches Some(root) ==> root@.fits(ctx.pattern_text@),
        source_tree matches Some(root) ==> root@.fits(ctx.source_text@),
    ensures
        refusal is Some ==> r is Err && r->Err_0@ == "Failed to set language: "@ + refusal->0@,
        refusal is None && snippet_tree is None ==> r is Err && r->Err_0@
            == "Failed to parse snippet"@,
        refusal is None && snippet_tree is Some && contains_error(pattern_of((*snippet_tree)->0@))
            ==> r is Err && r->Err_0@ == "Snippet contains syntax errors"@,
        refusal is None && snippet_tree is Some && !contains_error(pattern_of((*snippet_tree)->0@))
            && source_tree is None ==> r is Err && r->Err_0@ == "Failed to parse source"@,
        refusal is None && snippet_tree is Some && !contains_error(pattern_of((*snippet_tree)->0@))
            && source_tree is Some ==> r is Ok && match_models(r->Ok_0@)
            == ctx@.collect(
            (*source_tree)->0@,
            pattern_of((*snippet_tree)->0@),
            seq![],
        ),
{
}

/// The search for a snippet fails with a message of its own where the grammar is refused, and
/// else only where the snippet has a syntax error.
pub proof fn law_find_snippet_matches(
    source: &str,
    snippet: &str,
    lang: &Language,
    r: Option<Result<Vec<Match>, String>>,
)
    requires
        call_ensures(find_snippet_matches, (source, snippet, lang), r),
    ensures
        snippet_may_give(source@, snippet@, *lang, maybe_found(r)),
        language_refusal(*lang) matches Some(reason) ==> (r matches Some(Err(message)) && message@
            == "Failed to set language: "@ + reason),
        language_refusal(*lang) is None ==> (r matches Some(Err(message)) ==> message@
            == "Snippet contains syntax errors"@),
{
}

/// The search for a snippet is made on a tree of what the snippet is made into and a tree of the
/// source: it fails where the pattern in the first has an error, and else finds the matches of
/// the pattern, from the root of the second down; there is no result only where one of the trees
/// is not laid out on its text. The trees of ASCII texts are always the same.
pub proof fn law_find_in_trees(
    source: &str,
    snippet: &str,
    lang: &Language,
    r: Option<Result<Vec<Match>, String>>,
) -> (trees: (Tree, Tree))
    requires
        call_ensures(find_snippet_matches, (source, snippet, lang), r),
        language_refusal(*lang) is None,
    ensures
        tree_origin(trees.0) == (*lang, processed(snippet@).pattern_text),
        tree_origin(trees.1) == (*lang, source@),
        is_ascii_chars(snippet@) ==> Some(trees.0) == parsed(
            *lang,
            processed(snippet@).pattern_text,
        ),
        is_ascii_chars(source@) ==> Some(trees.1) == parsed(*lang, source@),
        ({
            let pattern_text = processed(snippet@).pattern_text;
            let snippet_root = root_value(trees.0);
            let source_root = root_value(trees.1);
            let broken = contains_error(pattern_of(snippet_root));
            let laid_out = snippet_root.fits(pattern_text) && source_root.fits(source@);
            &&& broken ==> (r matches Some(Err(message)) && message@
                == "Snippet contains syntax errors"@)
            &&& !broken && laid_out ==> (r matches Some(Ok(matches)) && match_models(matches@)
                == snippet_context(source@, snippet@).collect(
                source_root,
                pattern_of(snippet_root),
                seq![],
            ))
            &&& !broken && !laid_out ==> r is None
        }),
{
    if is_ascii_chars(snippet@) {
        law_ascii_snippet_kept(snippet@);
    }
    let pattern_text = processed(snippet@).pattern_text;
    let (snippet_root, source_root) = choose|a: Option<NodeSpec>, b: Option<NodeSpec>| #[trigger]
        parses_to(*lang, pattern_text, a) && #[trigger] parses_to(*lang, source@, b)
            && maybe_found(r) == snippet_outcome(source@, snippet@, *lang, a, b);
    let snippet_tree = choose|tree: Option<Tree>| #[trigger]
        may_parse(*lang, pattern_text, tree) && snippet_root == root_model(tree);
    let source_tree = choose|tree: Option<Tree>| #[trigger]
        may_parse(*lang, source@, tree) && source_root == root_model(tree);
    (snippet_tree->0, source_tree->0)
}

/// The capture that a match of a query is reported by.
pub proof fn law_select_target(names: &Vec<String>, captures: &Vec<QueryHit>, r: QueryHit)
    requires
        captures@.len() > 0,
        call_ensures(select_target, (names, captures), r),
    ensures
        r == target(texts(names@), captures@),
{
}

/// Each report of the matches of a query stands where one of the captures of one of the matches
/// stands, from start to end, and captures nothing.
pub proof fn law_select_targets(names: &Vec<String>, all: &Vec<Vec<QueryHit>>, r: Vec<Match>, i: int)
    requires
        call_ensures(select_targets, (names, all), r),
        0 <= i < r@.len(),
    ensures
        exists|j: int, k: int|
            0 <= j < all@.len() && 0 <= k < all@[j]@.len() && {
                let hit = #[trigger] all@[j]@[k];
                &&& r@[i].start_byte == hit.start_byte
                &&& r@[i].end_byte == hit.end_byte
                &&& r@[i].start_point == hit.start_point
                &&& r@[i].end_point == hit.end_point
            },
        r@[i].captures@ == Map::<Seq<char>, Seq<char>>::empty(),
{
    let wanted = texts(names@);
    let found = hits(all@);
    assert(match_models(r@)[i] == r@[i]@);
    law_report_fields(wanted, found, i);
    let captures = capturing(found)[i];
    found.lemma_filter_contains_rev(|captures: Seq<QueryHit>| captures.len() > 0, captures);
    found.lemma_filter_pred(|captures: Seq<QueryHit>| captures.len() > 0, i);
    let j = choose|j: int| 0 <= j < found.len() && found[j] == captures;
    law_target_is_captured(wanted, captures);
    let k = choose|k: int| 0 <= k < captures.len() && captures[k] == target(wanted, captures);
    assert(all@[j]@[k] == target(wanted, captures));
}

/// There is a report for each match of a query that captures anything, and for no other: with one
/// more match there is one more report, or none.
pub proof fn law_select_targets_count(
    names: &Vec<String>,
    fewer: &Vec<Vec<QueryHit>>,
    all: &Vec<Vec<QueryHit>>,
    first: Vec<Match>,
    r: Vec<Match>,
)
    requires
        call_ensures(select_targets, (names, fewer), first),
        call_ensures(select_targets, (names, all), r),
        all@.len() > 0,
        fewer@ == all@.drop_last(),
    ensures
        r@.len() == first@.len() + if all@.last()@.len() > 0 {
            1nat
        } else {
            0nat
        },
        forall|i: int| 0 <= i < first@.len() ==> (#[trigger] r@[i])@ == first@[i]@,
{
    let wanted = texts(names@);
    assert(hits(all@) =~= hits(fewer@).push(all@.last()@));
    law_report_added(wanted, hits(fewer@), all@.last()@);
    assert(match_models(first@) == targets(wanted, hits(fewer@)));
    assert(match_models(r@) == targets(wanted, hits(all@)));
    assert forall|i: int| 0 <= i < first@.len() implies (#[trigger] r@[i])@ == first@[i]@ by {
        assert(match_models(r@)[i] == r@[i]@);
        assert(match_models(first@)[i] == first@[i]@);
        if all@.last()@.len() > 0 {
            assert(match_models(r@).drop_last()[i] == match_models(first@)[i]);
        }
    }
}

/// The search with a query fails where the query is refused, and then where the grammar is; else
/// it gives the reports of the matches of the compiled query on a tree of the source. What an
/// ASCII query is compiled to, and the tree of an ASCII source, are always the same.
pub proof fn law_find_query_matches(
    source: &str,
    query_str: &str,
    lang: &Language,
    r: Result<Vec<Match>, String>,
) -> (made: (Result<Query, QueryFailureSpec>, Option<Tree>))
    requires
        query_bounded(query_str@),
        call_ensures(find_query_matches, (source, query_str, lang), r),
    ensures
        made.0 matches Ok(query) ==> query_origin(query) == (*lang, query_str@),
        made.1 matches Some(tree) ==> tree_origin(tree) == (*lang, source@),
        made.1 is Some <==> language_refusal(*lang) is None,
        is_ascii_chars(query_str@) ==> made.0 == compiled(*lang, query_str@),
        is_ascii_chars(source@) ==> made.1 == parsed(*lang, source@),
        made.0 matches Err(failure) ==> r is Err && r->Err_0@ == query_error(failure),
        made.0 is Ok && made.1 is None ==> r is Err && r->Err_0@ == "Failed to set language"@,
        made.0 is Ok && made.1 is Some ==> r is Ok && match_models(r->Ok_0@) == targets(
            query_captures(made.0->Ok_0),
            query_hits(made.0->Ok_0, made.1->0, source@),
        ),
{
    choose|q: Result<Query, QueryFailureSpec>, tree: Option<Tree>| #[trigger]
        may_compile(*lang, query_str@, q) && #[trigger] may_parse(*lang, source@, tree) && found(r)
            == query_outcome(source@, q, language_refusal(*lang), tree)
}

/// A search with a query is made exactly where the query may be compiled.
pub proof fn law_try_find_query_matches(
    source: &str,
    query_str: &str,
    lang: &Language,
    r: Option<Result<Vec<Match>, String>>,
)
    requires
        call_ensures(try_find_query_matches, (source, query_str, lang), r),
    ensures
        r is Some <==> query_bounded(query_str@),
        r matches Some(result) ==> query_may_give(
            source@,
            query_str@,
            *lang,
            found(result),
        ),
{
}

/// The check of a query is whether it may be compiled.
pub proof fn law_check_query(query: &str, r: bool)
    requires
        call_ensures(check_query, (query,), r),
    ensures
        r <==> query_bounded(query@),
{
}

/// The standard input cannot be edited in place; everything else can be edited.
pub proof fn law_check_in_place(files: usize, in_place: bool, r: Result<(), String>)
    requires
        call_ensures(check_in_place, (files, in_place), r),
    ensures
        r is Ok <==> files > 0 || !in_place,
        r matches Err(message) ==> message@ == "Cannot use --in-place without files"@,
{
}

/// The inputs are the files, or the standard input.
pub proof fn law_inputs_call(files: &Vec<String>, r: Vec<Option<&str>>)
    requires
        call_ensures(inputs, (files,), r),
    ensures
        files@.len() == 0 ==> r@.len() == 1 && r@[0] is None,
        files@.len() > 0 ==> r@.len() == files@.len(),
        forall|i: int|
            0 <= i < files@.len() ==> (#[trigger] r@[i]) is Some && r@[i]->0@ == files@[i]@,
{
    let names = r@.map_values(|file: Option<&str>| name_model(file));
    let given = input_names(texts(files@));
    assert(names.len() == r@.len());
    if files@.len() == 0 {
        assert(names[0] == name_model(r@[0]));
    }
    assert forall|i: int| 0 <= i < files@.len() implies (#[trigger] r@[i]) is Some && r@[i]->0@
        == files@[i]@ by {
        assert(names[i] == name_model(r@[i]));
        assert(given[i] == Some(texts(files@)[i]));
    }
}

/// A line is put out for each match, in order: under the name of the file where there are several
/// files.
pub proof fn law_show_matches(
    matches: Vec<Match>,
    file: Option<&str>,
    files: usize,
    source: &str,
    r: Option<Result<Vec<String>, String>>,
    i: int,
)
    requires
        call_ensures(show_matches, (Some(Ok(matches)), file, files, source), r),
        r is Some,
        0 <= i < matches@.len(),
    ensures
        r->0 is Ok,
        r->0->Ok_0@.len() == matches@.len(),
        files >= 2 && file is Some ==> r->0->Ok_0@[i]@ == result_line(
            matches@[i]@,
            Some(file->0@),
            source@,
        ),
        files <= 1 || file is None ==> r->0->Ok_0@[i]@ == result_line(matches@[i]@, None, source@),
{
    let lines = texts(r->0->Ok_0@);
    let models = match_models(matches@);
    assert(models[i] == matches@[i]@);
    assert(lines.len() == matches@.len());
    assert(lines[i] == r->0->Ok_0@[i]@);
}

/// A search that failed, or was not made, is put out as such.
pub proof fn law_show_failure(
    message: String,
    file: Option<&str>,
    files: usize,
    source: &str,
    r: Option<Result<Vec<String>, String>>,
)
    requires
        call_ensures(show_matches, (Some(Err(message)), file, files, source), r),
    ensures
        r matches Some(Err(m)) && m@ == message@,
{
}

/// What is done with the outcome of an edit.
pub proof fn law_cmd_edit(
    file: Option<&str>,
    files: usize,
    in_place: bool,
    outcome: Result<String, String>,
    r: EditAction,
)
    requires
        call_ensures(cmd_edit, (file, files, in_place, outcome), r),
    ensures
        r@ == edit_action(name_model(file), files as nat, in_place, edited(outcome)),
{
}

/// What an edit of the matches of a search gives.
pub proof fn law_edit_matches<F: Fn(&Vec<Match>) -> Result<String, String>>(
    matches: Result<Vec<Match>, String>,
    edit: F,
    r: Result<String, String>,
)
    requires
        call_ensures(edit_matches::<F>, (matches, edit), r),
        forall|m: &Vec<Match>| m@.len() > 0 ==> #[trigger] call_requires(edit, (m,)),
    ensures
        matches matches Err(message) ==> r is Err && r->Err_0@ == message@,
        matches is Ok && matches->Ok_0@.len() == 0 ==> r is Err && r->Err_0@ == "No matches found"@,
        matches is Ok && matches->Ok_0@.len() > 0 ==> exists|m: &Vec<Match>|
            match_models(m@) == match_models(matches->Ok_0@)
                && #[trigger] call_ensures(edit, (m,), r),
{
}

/// The language is the one that is looked up by the name asked for, where there is one, or else by
/// the name of the file; without either there is none.
pub proof fn law_resolve_lang<L, N: Fn(&str) -> Option<L>, E: Fn(&str) -> Option<L>>(
    lang_opt: &Option<String>,
    file: Option<&str>,
    from_name: N,
    from_extension: E,
    supported: &Vec<String>,
    r: Result<L, String>,
)
    requires
        call_ensures(
            resolve_lang::<L, N, E>,
            (lang_opt, file, from_name, from_extension, supported),
            r,
        ),
        forall|name: &str| call_requires(from_name, (name,)),
        forall|path: &str| call_requires(from_extension, (path,)),
    ensures
        lang_opt is Some && r is Ok ==> exists|asked: &str|
            asked@ == (*lang_opt)->0@ && #[trigger] call_ensures(
                from_name,
                (asked,),
                Some(r->Ok_0),
            ),
        lang_opt is Some && r is Err ==> exists|asked: &str|
            asked@ == (*lang_opt)->0@ && #[trigger] call_ensures(from_name, (asked,), None),
        lang_opt is Some && r is Err ==> r->Err_0@ == "Unknown language '"@ + (*lang_opt)->0@
            + "'. Supported: "@ + listed(texts(supported@)),
        lang_opt is None && file is Some && r is Ok ==> call_ensures(
            from_extension,
            (file->0,),
            Some(r->Ok_0),
        ),
        lang_opt is None && file is Some && r is Err ==> call_ensures(
            from_extension,
            (file->0,),
            None,
        ),
        lang_opt is None && file is Some && r is Err ==> r->Err_0@
            == "Could not detect language from '"@ + file->0@ + "'. Use --language to specify."@,
        lang_opt is None && file is None ==> r is Err && r->Err_0@
            == "Could not detect language. Use --language when reading from stdin."@,
{
}

/// The lines about the outcome of a search are made where every match spans whole characters.
pub proof fn law_show_matches_made(
    matches: Vec<Match>,
    file: Option<&str>,
    files: usize,
    source: &str,
    r: Option<Result<Vec<String>, String>>,
)
    requires
        call_ensures(show_matches, (Some(Ok(matches)), file, files, source), r),
    ensures
        r is Some <==> forall|i: int|
            0 <= i < matches@.len() ==> is_text_range(
                source@,
                (#[trigger] matches@[i]).start_byte as int,
                matches@[i].end_byte as int,
            ),
{
    let models = match_models(matches@);
    assert forall|i: int| 0 <= i < matches@.len() implies models[i] == (
    #[trigger] matches@[i])@ by {}
    if r is None && (forall|i: int|
        0 <= i < matches@.len() ==> is_text_range(
            source@,
            (#[trigger] matches@[i]).start_byte as int,
            matches@[i].end_byte as int,
        )) {
        assert forall|i: int| 0 <= i < models.len() implies is_text_range(
            source@,
            (#[trigger] models[i]).start_byte as int,
            models[i].end_byte as int,
        ) by {
            assert(models[i] == matches@[i]@);
        }
        law_find_output(
            Some(Ok(models)),
            shown(name_model(file), files as nat),
            source@,
        );
    }
    if r is Some {
        law_find_output(
            Some(Ok(models)),
            shown(name_model(file), files as nat),
            source@,
        );
        assert forall|i: int| 0 <= i < matches@.len() implies is_text_range(
            source@,
            (#[trigger] matches@[i]).start_byte as int,
            matches@[i].end_byte as int,
        ) by {
            assert(models[i] == matches@[i]@);
        }
    }
}

/// The check of matches holds where every match spans whole characters.
pub proof fn law_check_ranges(matches: &Vec<Match>, source: &str, r: bool)
    requires
        call_ensures(check_ranges, (matches, source), r),
    ensures
        r <==> forall|i: int|
            0 <= i < matches@.len() ==> is_text_range(
                source@,
                (#[trigger] matches@[i]).start_byte as int,
                matches@[i].end_byte as int,
            ),
{
    let models = match_models(matches@);
    if r {
        assert forall|i: int| 0 <= i < matches@.len() implies is_text_range(
            source@,
            (#[trigger] matches@[i]).start_byte as int,
            matches@[i].end_byte as int,
        ) by {
            assert(models[i] == matches@[i]@);
        }
    } else if forall|i: int|
        0 <= i < matches@.len() ==> is_text_range(
            source@,
            (#[trigger] matches@[i]).start_byte as int,
            matches@[i].end_byte as int,
        ) {
        assert forall|i: int| 0 <= i < models.len() implies is_text_range(
            source@,
            (#[trigger] models[i]).start_byte as int,
            models[i].end_byte as int,
        ) by {
            assert(models[i] == matches@[i]@);
        }
    }
}

/// There is a line for each match, in order.
pub proof fn law_find_results(
    matches: &Vec<Match>,
    file: Option<&str>,
    source: &str,
    r: Vec<String>,
    i: int,
)
    requires
        within_text(match_models(matches@), source@),
        call_ensures(find_results, (matches, file, source), r),
        0 <= i < matches@.len(),
    ensures
        r@.len() == matches@.len(),
        r@[i]@ == result_line(matches@[i]@, name_model(file), source@),
{
    let models = match_models(matches@);
    assert(models[i] == matches@[i]@);
    assert(texts(r@).len() == models.len());
    assert(texts(r@)[i] == r@[i]@);
}

/// A search takes a pattern or a query, and not both.
pub proof fn law_one_selector(text: String)
    ensures
        one_selector(Some(text), None),
        one_selector(None, Some(text)),
        forall|other: String| !#[trigger] one_selector(Some(text), Some(other)),
        !one_selector(None, None),
{
}

/// The matches of a pattern are those of the snippet.
pub proof fn law_get_pattern_matches(
    source: &str,
    pattern: String,
    lang: &Language,
    r: Option<Result<Vec<Match>, String>>,
)
    requires
        call_ensures(get_matches, (source, &Some(pattern), &None, lang), r),
    ensures
        snippet_may_give(source@, pattern@, *lang, maybe_found(r)),
{
}

/// The matches of a query are made where the query may be compiled.
pub proof fn law_get_query_matches(
    source: &str,
    query: String,
    lang: &Language,
    r: Option<Result<Vec<Match>, String>>,
)
    requires
        call_ensures(get_matches, (source, &None, &Some(query), lang), r),
    ensures
        r is Some <==> query_bounded(query@),
        r matches Some(result) ==> query_may_give(
            source@,
            query@,
            *lang,
            found(result),
        ),
{
}

/// What is found is put out as the outcome of some search is.
pub proof fn law_cmd_find(
    pattern: &Option<String>,
    query: &Option<String>,
    file: Option<&str>,
    files: usize,
    lang: &Language,
    source: &str,
    r: Option<Result<Vec<String>, String>>,
) -> (outcome: Option<Result<Seq<MatchSpec>, Seq<char>>>)
    requires
        call_ensures(cmd_find, (pattern, query, file, files, lang, source), r),
        one_selector(*pattern, *query),
    ensures
        pattern is Some ==> snippet_may_give(source@, (*pattern)->0@, *lang, outcome),
        query is Some && outcome is Some ==> query_may_give(
            source@,
            (*query)->0@,
            *lang,
            outcome->0,
        ),
        query is Some ==> (outcome is Some <==> query_bounded((*query)->0@)),
        outcome is None ==> r is None,
        outcome matches Some(Err(message)) ==> r is Some && r->0 is Err && r->0->Err_0@ == message,
        outcome is Some && outcome->0 is Ok && r is Some ==> r->0 is Ok && r->0->Ok_0@.len()
            == outcome->0->Ok_0.len() && forall|i: int|
            0 <= i < r->0->Ok_0@.len() ==> (#[trigger] r->0->Ok_0@[i])@ == result_line(
                outcome->0->Ok_0[i],
                if files >= 2 {
                    name_model(file)
                } else {
                    None
                },
                source@,
            ),
        outcome is Some && outcome->0 is Ok && within_text(outcome->0->Ok_0, source@) ==> r is Some,
{
    let outcome = choose|outcome: Option<Result<Seq<MatchSpec>, Seq<char>>>| #[trigger]
        search_may_give(
            source@,
            text_model(*pattern),
            text_model(*query),
            *lang,
            outcome,
        ) && output_model(r) == find_output(
            outcome,
            shown(name_model(file), files as nat),
            source@,
        );
    if outcome is Some && outcome->0 is Ok && r is Some {
        let lines = texts(r->0->Ok_0@);
        assert(lines.len() == r->0->Ok_0@.len());
        assert forall|i: int| 0 <= i < r->0->Ok_0@.len() implies (#[trigger] r->0->Ok_0@[i])@
            == result_line(
            outcome->0->Ok_0[i],
            if files >= 2 {
                name_model(file)
            } else {
                None
            },
            source@,
        ) by {
            assert(lines[i] == r->0->Ok_0@[i]@);
        }
    }
    outcome
}

/// An edit is made of the matches of some search; there is none where the search is not made.
pub proof fn law_process_edit<F: Fn(&Vec<Match>) -> Result<String, String>>(
    source: &str,
    pattern: &Option<String>,
    query: &Option<String>,
    lang: &Language,
    edit: F,
    r: Option<Result<String, String>>,
) -> (outcome: Option<Result<Seq<MatchSpec>, Seq<char>>>)
    requires
        call_ensures(process_edit::<F>, (source, pattern, query, lang, edit), r),
        one_selector(*pattern, *query),
        forall|m: &Vec<Match>| m@.len() > 0 ==> #[trigger] call_requires(edit, (m,)),
    ensures
        pattern is Some ==> snippet_may_give(source@, (*pattern)->0@, *lang, outcome),
        query is Some ==> (outcome is Some <==> query_bounded((*query)->0@)),
        query is Some && outcome is Some ==> query_may_give(
            source@,
            (*query)->0@,
            *lang,
            outcome->0,
        ),
        r is Some <==> outcome is Some,
        r is Some && outcome->0 is Err ==> r->0 is Err && r->0->Err_0@ == outcome->0->Err_0,
        r is Some && outcome->0 is Ok && outcome->0->Ok_0.len() == 0 ==> r->0 is Err
            && r->0->Err_0@ == "No matches found"@,
        r is Some && outcome->0 is Ok && outcome->0->Ok_0.len() > 0 ==> exists|m: &Vec<Match>|
            match_models(m@) == outcome->0->Ok_0 && #[trigger] call_ensures(
                edit,
                (m,),
                r->0,
            ),
{
    choose|outcome: Option<Result<Seq<MatchSpec>, Seq<char>>>| #[trigger]
        search_may_give(
            source@,
            text_model(*pattern),
            text_model(*query),
            *lang,
            outcome,
        ) && (r is Some <==> outcome is Some) && (r matches Some(result) ==> edits_to(
            outcome->0,
            edit,
            result,
        ))
}

/// A pattern node spans nodes by itself where it is a spanning leaf.
pub proof fn law_is_multi_placeholder(node: &SyntaxNode, ctx: &MatchCtx, r: bool)
    requires
        node@.fits(ctx.pattern_text@),
        call_ensures(is_multi_placeholder, (node, ctx), r),
    ensures
        r <==> spanning_leaf(ctx@, node@),
{
}

/// The text inside a pattern node is that of its only named child, if that is a leaf.
pub proof fn law_inner_sentinel(node: &SyntaxNode, ctx: &MatchCtx, r: Option<&str>)
    requires
        node@.fits(ctx.pattern_text@),
        call_ensures(inner_sentinel, (node, ctx), r),
    ensures
        r is Some <==> node@.named_children().len() == 1
            && node@.named_children()[0].named_children().len() == 0,
        r matches Some(text) ==> text@ == node@.named_children()[0].text(ctx.pattern_text@),
{
}

/// A pattern node is wrapped around a special placeholder where its only named child is a leaf
/// that is recorded as one.
pub proof fn law_wraps_special(node: &SyntaxNode, ctx: &MatchCtx, r: Option<SpecialKind>)
    requires
        node@.fits(ctx.pattern_text@),
        call_ensures(wraps_special, (node, ctx), r),
    ensures
        forall|kind: SpecialKind| #[trigger] wraps(ctx@, node@, kind) <==> r == Some(kind),
{
}

/// The repetition at the end of a pattern node: that of its last named child.
pub proof fn law_last_child_repetition(
    parent: &SyntaxNode,
    ctx: &MatchCtx,
    r: Option<(&str, &RepetitionInfo)>,
)
    requires
        parent@.fits(ctx.pattern_text@),
        call_ensures(last_child_repetition, (parent, ctx), r),
    ensures
        r matches Some((sentinel, info)) ==> repeats_last(ctx@, parent@, info@) && sentinel@
            == parent@.named_children().last().text(ctx.pattern_text@),
        r is None ==> forall|info: RepetitionSpec| !#[trigger] repeats_last(ctx@, parent@, info),
{
    if parent@.named_children().len() > 0 {
        lemma_marked(ctx@, parent@.named_children().last());
    }
}

/// What is left of the source children matches what is left of the pattern children.
pub proof fn law_match_children_suffix(
    s_children: &Vec<&SyntaxNode>,
    p_children: &Vec<&SyntaxNode>,
    si: usize,
    pi: usize,
    captures: StrMap<String>,
    ctx: &MatchCtx,
    r: Option<StrMap<String>>,
)
    requires
        all_fit(models(s_children@), ctx.source_text@),
        all_fit(models(p_children@), ctx.pattern_text@),
        si <= s_children@.len(),
        pi <= p_children@.len(),
        call_ensures(
            match_children_suffix,
            (s_children, p_children, si, pi, captures, ctx),
            r,
        ),
    ensures
        ({
            let ss = models(s_children@).skip(si as int);
            let ps = models(p_children@).skip(pi as int);
            &&& r is Some <==> ctx@.children_match(ss, ps, captures@) is Some
            &&& r matches Some(found) ==> ctx@.children_match(ss, ps, captures@) == Some(found@)
        }),
{
}

/// The named children of a node, in order.
pub proof fn law_named_children_call(node: &SyntaxNode, r: Vec<&SyntaxNode>)
    requires
        call_ensures(SyntaxNode::named_children, (node,), r),
    ensures
        r@.len() == node@.named_children().len(),
        forall|i: int| 0 <= i < r@.len() ==> (#[trigger] r@[i])@ == node@.named_children()[i],
{
    assert forall|i: int| 0 <= i < r@.len() implies (#[trigger] r@[i])@
        == node@.named_children()[i] by {
        assert(models(r@)[i] == r@[i]@);
    }
}

/// The text of a node is what stands between its byte offsets.
pub proof fn law_text_in(node: &SyntaxNode, text: &str, r: &str)
    requires
        node@.fits(text@),
        call_ensures(SyntaxNode::text_in, (node, text), r),
    ensures
        encode_utf8(r@) == encode_utf8(text@).subrange(
            node.start_byte as int,
            node.end_byte as int,
        ),
{
    law_text_between_bytes(text@, node.start_byte as int, node.end_byte as int);
}

/// A tree fits a text where it is laid out on it.
pub proof fn law_fits_text(node: &SyntaxNode, text: &str, r: bool)
    requires
        call_ensures(SyntaxNode::fits_text, (node, text), r),
    ensures
        r <==> forall|n: NodeSpec| #[trigger] occurs_in(n, node@) ==> placed(n, text@),
{
    law_fits(node@, text@);
}

/// The text of nodes in a row is what stands from the start of the first to the end of the last.
pub proof fn law_span_text_in(
    text: &str,
    nodes: &Vec<&SyntaxNode>,
    from: usize,
    to: usize,
    r: String,
)
    requires
        all_fit(models(nodes@), text@),
        from <= to <= nodes@.len(),
        call_ensures(span_text_in, (text, nodes, from, to), r),
    ensures
        from == to ==> r@.len() == 0,
        from < to ==> r@ == text_between(
            text@,
            nodes@[from as int].start_byte as int,
            nodes@[to - 1].end_byte as int,
        ),
{
    if from < to {
        let all = models(nodes@);
        assert(all[from as int] == nodes@[from as int]@);
        assert(all[to - 1] == nodes@[to - 1]@);
        let part = all.subrange(from as int, to as int);
        assert(part.first() == all[from as int]);
        assert(part.last() == all[to - 1]);
    }
}

/// The message on a refused query says where and why, counting rows and columns from zero.
pub proof fn law_query_error_message(failure: &QueryFailure, r: String)
    requires
        call_ensures(query_error_message, (failure,), r),
    ensures
        r@ == "Query error at "@ + decimal(failure.row as nat) + ":"@ + decimal(
            failure.column as nat,
        ) + ": "@ + failure.message@,
{
}

/// Two texts are the same where they have the same characters.
pub proof fn law_same_text(a: &str, b: &str, r: bool)
    requires
        call_ensures(same_text, (a, b), r),
    ensures
        r <==> a@.len() == b@.len() && forall|i: int| 0 <= i < a@.len() ==> #[trigger] a@[i] == b@[i],
{
    if a@.len() == b@.len() && (forall|i: int| 0 <= i < a@.len() ==> #[trigger] a@[i] == b@[i]) {
        assert(a@ =~= b@);
    }
}

/// A text has a prefix where it is the prefix and some rest.
pub proof fn law_has_prefix(text: &str, prefix: &str, r: bool)
    requires
        call_ensures(has_prefix, (text, prefix), r),
    ensures
        r <==> exists|rest: Seq<char>| text@ == #[trigger] (prefix@ + rest),
{
    if r {
        assert(text@ =~= prefix@ + text@.skip(prefix@.len() as int));
    }
    if exists|rest: Seq<char>| text@ == #[trigger] (prefix@ + rest) {
        let rest = choose|rest: Seq<char>| text@ == #[trigger] (prefix@ + rest);
        assert(text@.subrange(0, prefix@.len() as int) =~= prefix@);
    }
}

/// A text has a suffix where it is some text and the suffix.
pub proof fn law_has_suffix(text: &str, suffix: &str, r: bool)
    requires
        call_ensures(has_suffix, (text, suffix), r),
    ensures
        r <==> exists|front: Seq<char>| text@ == #[trigger] (front + suffix@),
{
    if r {
        assert(text@ =~= text@.take(text@.len() - suffix@.len()) + suffix@);
    }
    if exists|front: Seq<char>| text@ == #[trigger] (front + suffix@) {
        let front = choose|front: Seq<char>| text@ == #[trigger] (front + suffix@);
        assert(text@.subrange(front.len() as int, text@.len() as int) =~= suffix@);
    }
}

/// A part of a text is the bytes between two offsets.
pub proof fn law_slice_text(text: &str, start: usize, end: usize, r: &str)
    requires
        is_text_range(text@, start as int, end as int),
        call_ensures(slice_text, (text, start, end), r),
    ensures
        encode_utf8(r@) == encode_utf8(text@).subrange(start as int, end as int),
{
    law_text_between_bytes(text@, start as int, end as int);
}

/// The characters of a text, and the text of some of them.
pub proof fn law_chars_of(text: &str, chars: Vec<char>, from: usize, to: usize, r: String)
    requires
        call_ensures(chars_of, (text,), chars),
        from <= to <= chars@.len(),
        call_ensures(string_of, (&chars, from, to), r),
    ensures
        chars@ == text@,
        r@.len() == to - from,
        forall|i: int| 0 <= i < r@.len() ==> #[trigger] r@[i] == text@[from + i],
{
}

/// The first line of a text ends where the text ends, or in front of the first line break.
pub proof fn law_first_line_of(text: &str, r: String)
    requires
        call_ensures(first_line_of, (text,), r),
    ensures
        r@.is_prefix_of(text@),
        !r@.contains('\n'),
        ({
            let n = r@.len() as int;
            ||| n == text@.len()
            ||| text@[n] == '\n' && (n == 0 || text@[n - 1] != '\r')
            ||| n + 1 < text@.len() && text@[n] == '\r' && text@[n + 1] == '\n'
        }),
{
    law_first_line(text@);
}

/// A copy of a match is the match.
pub proof fn law_clone_match(m: &Match, r: Match)
    requires
        call_ensures(Match::clone, (m,), r),
    ensures
        r.start_byte == m.start_byte,
        r.end_byte == m.end_byte,
        r.start_point == m.start_point,
        r.end_point == m.end_point,
        r.captures@ == m.captures@,
{
    assert(r@ == m@);
}

} // verus!
