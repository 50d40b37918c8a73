use patchwork::grammar::{parse, QueryFailure, QueryHit};
use patchwork::matcher::{
    is_placeholder, is_root_wrapper, is_statement_kind, structurally_matches, MatchCtx,
};
use patchwork::query::{
    find_query_matches, query_error_message, select_target, select_targets, try_find_query_matches,
};
use patchwork::query_shape::check_query;
use patchwork::search::{
    can_search_trees, extract_pattern, has_error, overlaps_matched_range, search_trees,
    try_unwrap_pattern, Match,
};
use patchwork::snippet::{
    preprocess_snippet, reverse_placeholder_map, RepetitionInfo, RepetitionKind,
};
use patchwork::strmap::StrMap;
use patchwork::tree::{Point, SyntaxNode};
use tree_sitter::Language;

/// Searches for a snippet; the trees of most tests are laid out on their texts.
fn find_snippet_matches(source: &str, snippet: &str, lang: &Language) -> Result<Vec<Match>, String> {
    patchwork::search::find_snippet_matches(source, snippet, lang).unwrap()
}

fn java() -> Language {
    tree_sitter_java::LANGUAGE.into()
}

fn python() -> Language {
    tree_sitter_python::LANGUAGE.into()
}

fn javascript() -> Language {
    tree_sitter_javascript::LANGUAGE.into()
}

fn node(kind: &str, named: bool, start: usize, end: usize, children: Vec<SyntaxNode>) -> SyntaxNode {
    SyntaxNode {
        kind: kind.to_string(),
        named,
        start_byte: start,
        end_byte: end,
        start_point: Point { row: 0, column: start },
        end_point: Point { row: 0, column: end },
        children,
    }
}

fn leaf(kind: &str, start: usize, end: usize) -> SyntaxNode {
    node(kind, true, start, end, vec![])
}

fn match_between(start: usize, end: usize) -> Match {
    Match {
        start_byte: start,
        end_byte: end,
        start_point: Point { row: 0, column: start },
        end_point: Point { row: 0, column: end },
        captures: StrMap::new(),
    }
}

/// Searches for a snippet whose tree, and that of the source, are given.
fn search(
    source: &str,
    snippet: &str,
    refusal: Option<String>,
    snippet_tree: Option<SyntaxNode>,
    source_tree: Option<SyntaxNode>,
) -> Result<Vec<Match>, String> {
    let ps = preprocess_snippet(snippet);
    let names = reverse_placeholder_map(&ps.placeholders);
    let ctx = MatchCtx {
        source_text: source,
        pattern_text: &ps.pattern_text,
        reverse_placeholders: &names,
        repetitions: &ps.repetitions,
        specials: &ps.specials,
        type_constraints: &ps.type_constraints,
    };
    search_trees(&ctx, refusal, &snippet_tree, &source_tree)
}

#[test]
fn refused_grammar_comes_first() {
    let r = search("a", "a", Some("too old".to_string()), None, None);
    assert_eq!(r.unwrap_err(), "Failed to set language: too old");
}

#[test]
fn unparsed_snippet_is_an_error() {
    let r = search("a", "a", None, None, Some(leaf("identifier", 0, 1)));
    assert_eq!(r.unwrap_err(), "Failed to parse snippet");
}

#[test]
fn broken_snippet_is_an_error() {
    let broken = node("program", true, 0, 1, vec![
        node("a", true, 0, 1, vec![node("ERROR", true, 0, 1, vec![])]),
    ]);
    let r = search("a", "a", None, Some(broken), None);
    assert_eq!(r.unwrap_err(), "Snippet contains syntax errors");
    let r = find_snippet_matches("class A {}", "return ", &java());
    assert_eq!(r.unwrap_err(), "Snippet contains syntax errors");
}

#[test]
fn unparsed_source_is_an_error() {
    let r = search("a", "a", None, Some(leaf("identifier", 0, 1)), None);
    assert_eq!(r.unwrap_err(), "Failed to parse source");
}

#[test]
fn given_trees_are_searched() {
    let source_tree = node("program", true, 0, 5, vec![
        leaf("identifier", 0, 1),
        node(",", false, 1, 2, vec![]),
        leaf("identifier", 2, 3),
        leaf("number", 4, 5),
    ]);
    let r = search("a,b 1", "$x:identifier", None, Some(leaf("identifier", 0, 5)), Some(source_tree));
    let found = r.unwrap();
    assert_eq!(found.len(), 2);
    assert_eq!((found[0].start_byte, found[0].end_byte), (0, 1));
    assert_eq!((found[1].start_byte, found[1].end_byte), (2, 3));
    assert_eq!(found[1].captures.get("x").unwrap(), "b");
}

#[test]
fn parsed_tree_is_laid_out() {
    let tree = parse(&java(), "class Ä { }\nclass B { }").unwrap();
    assert_eq!(tree.kind, "program");
    assert!(tree.named);
    assert_eq!(tree.children.len(), 2);
    assert_eq!(tree.children[1].kind, "class_declaration");
    assert_eq!((tree.children[0].start_byte, tree.children[0].end_byte), (0, 12));
    assert_eq!((tree.children[1].start_byte, tree.children[1].end_byte), (13, 24));
    assert_eq!(tree.children[1].start_point, Point { row: 1, column: 0 });
    assert_eq!(tree.children[1].end_point, Point { row: 1, column: 11 });
    assert_eq!(tree.children[1].children[0].kind, "class");
    assert!(!tree.children[1].children[0].named);
    assert_eq!(tree.children[1].named_children().len(), 2);
    assert_eq!(tree.children[0].text_in("class Ä { }\nclass B { }"), "class Ä { }");
    assert!(tree.fits_text("class Ä { }\nclass B { }"));
    assert!(!tree.fits_text("class"));
}

#[test]
fn parsers_lay_trees_out() {
    let texts = [
        "",
        "  \n",
        "\r\n\tä ö\r\n",
        "class A { void f( { return } }",
        "def f(:\n  \"unclosed\n x = [1, 2",
        "let s = `a ${b} ü`; // ß",
        "if a:\n\tb\n  c\nelse",
        ")]}({[",
        "\u{feff}x = '\u{1f600}';",
        "class A { /* ä */ int x = \"ö\", ; }",
    ];
    for text in texts {
        for lang in [java(), python(), javascript()] {
            assert!(parse(&lang, text).unwrap().fits_text(text), "{}", text);
        }
    }
}

#[test]
fn layout_faults_are_seen() {
    assert!(leaf("x", 0, 3).fits_text("aä"));
    assert!(!leaf("x", 0, 4).fits_text("aä"));
    assert!(!leaf("x", 0, 2).fits_text("aä"));
    assert!(!leaf("x", 2, 3).fits_text("aä"));
    assert!(!leaf("x", 2, 1).fits_text("abc"));
    let crossed = node("x", true, 0, 3, vec![leaf("y", 0, 2), leaf("y", 1, 3)]);
    assert!(!crossed.fits_text("abc"));
    let beyond = node("x", true, 0, 3, vec![leaf("y", 2, 9)]);
    assert!(!beyond.fits_text("abc"));
    assert!(node("x", true, 1, 2, vec![leaf("y", 1, 2)]).fits_text("abc"));
    assert!(!node("x", true, 1, 2, vec![leaf("y", 0, 2)]).fits_text("abc"));
    assert!(!node("x", true, 1, 2, vec![leaf("y", 1, 3)]).fits_text("abc"));
}

#[test]
fn file_wrappers_with_one_child_are_taken_off() {
    let one = node("program", true, 0, 2, vec![leaf("a", 0, 1), node(";", false, 1, 2, vec![])]);
    assert_eq!(extract_pattern(&one).kind, "a");
    let two = node("module", true, 0, 2, vec![leaf("a", 0, 1), leaf("b", 1, 2)]);
    assert_eq!(extract_pattern(&two).kind, "module");
    let other = node("block", true, 0, 1, vec![leaf("a", 0, 1)]);
    assert_eq!(extract_pattern(&other).kind, "block");
    assert!(is_root_wrapper("program"));
    assert!(is_root_wrapper("module"));
    assert!(!is_root_wrapper("source_file"));
}

#[test]
fn statement_kinds() {
    assert!(is_statement_kind("return_statement"));
    assert!(is_statement_kind("block"));
    assert!(is_statement_kind("local_variable_declaration"));
    assert!(is_statement_kind("switch_block_statement_group"));
    assert!(is_statement_kind("labeled_statement"));
    assert!(!is_statement_kind("identifier"));
}

#[test]
fn errors_below_are_seen() {
    let deep = node("a", true, 0, 1, vec![node("b", true, 0, 1, vec![leaf("ERROR", 0, 1)])]);
    assert!(has_error(&deep));
    assert!(has_error(&leaf("ERROR", 0, 1)));
    assert!(!has_error(&leaf("error", 0, 1)));
}

#[test]
fn overlap_needs_more_than_an_empty_place() {
    let matches = vec![match_between(2, 5)];
    assert!(overlaps_matched_range(&leaf("x", 2, 5), &matches));
    assert!(overlaps_matched_range(&leaf("x", 3, 4), &matches));
    assert!(!overlaps_matched_range(&leaf("x", 1, 4), &matches));
    assert!(!overlaps_matched_range(&leaf("x", 4, 6), &matches));
    assert!(overlaps_matched_range(&leaf("x", 2, 2), &matches));
    assert!(!overlaps_matched_range(&leaf("x", 2, 2), &vec![match_between(2, 2)]));
    assert!(!overlaps_matched_range(&leaf("x", 2, 5), &vec![]));
}

#[test]
fn wrappers_are_taken_off_patterns() {
    let text = "_pw_1 a b";
    let empty: StrMap<String> = StrMap::new();
    let ps = preprocess_snippet("");
    let ctx = MatchCtx {
        source_text: "",
        pattern_text: text,
        reverse_placeholders: &empty,
        repetitions: &ps.repetitions,
        specials: &ps.specials,
        type_constraints: &empty,
    };
    let call = node("call", true, 6, 9, vec![leaf("identifier", 6, 7), leaf("identifier", 8, 9)]);
    let wrapped = node("expression_statement", true, 6, 9, vec![call]);
    assert_eq!(try_unwrap_pattern(&wrapped, &ctx).unwrap().kind, "call");
    let around_leaf = node("expression_statement", true, 6, 7, vec![leaf("identifier", 6, 7)]);
    assert!(try_unwrap_pattern(&around_leaf, &ctx).is_none());
    let two = node("pair", true, 6, 9, vec![leaf("identifier", 6, 7), leaf("identifier", 8, 9)]);
    assert!(try_unwrap_pattern(&two, &ctx).is_none());
    assert!(is_placeholder(&leaf("identifier", 0, 5), &ctx));
    assert!(!is_placeholder(&leaf("identifier", 6, 7), &ctx));
    assert!(!is_placeholder(&node("identifier", false, 0, 5, vec![]), &ctx));
}

#[test]
fn earlier_captures_are_kept() {
    let ps = preprocess_snippet("$x");
    let names = reverse_placeholder_map(&ps.placeholders);
    let ctx = MatchCtx {
        source_text: "abc",
        pattern_text: &ps.pattern_text,
        reverse_placeholders: &names,
        repetitions: &ps.repetitions,
        specials: &ps.specials,
        type_constraints: &ps.type_constraints,
    };
    let mut before: StrMap<String> = StrMap::new();
    before.insert("other".to_string(), "kept".to_string());
    let after = structurally_matches(&leaf("z", 1, 3), &leaf("identifier", 0, 5), before, &ctx).unwrap();
    assert_eq!(after.len(), 2);
    assert_eq!(after.get("other").unwrap(), "kept");
    assert_eq!(after.get("x").unwrap(), "bc");
}

#[test]
fn matches_tell_where_they_stand() {
    let source = "class A {\n  void f() { g(1); }\n}";
    let found = find_snippet_matches(source, "g($n);", &java()).unwrap();
    assert_eq!(found.len(), 1);
    assert_eq!(found[0].start_byte, 23);
    assert_eq!(found[0].end_byte, 28);
    assert_eq!(found[0].start_point, Point { row: 1, column: 13 });
    assert_eq!(found[0].end_point, Point { row: 1, column: 18 });
    assert_eq!(found[0].captures.len(), 1);
    assert_eq!(found[0].clone().captures.get("n").unwrap(), "1");
}

#[test]
fn matches_span_whole_characters() {
    let source = "class A { void f() { g(\"ä\"); h(\"ö\"); } }";
    let found = find_snippet_matches(source, "$f($s);", &java()).unwrap();
    assert_eq!(found.len(), 2);
    assert_eq!(&source[found[0].start_byte..found[0].end_byte], "g(\"ä\");");
    assert_eq!(found[0].captures.get("s").unwrap(), "\"ä\"");
    assert_eq!(&source[found[1].start_byte..found[1].end_byte], "h(\"ö\");");
}

#[test]
fn plain_snippet_finds_itself() {
    let text = "if (a > 1) { b(c); }";
    let found = find_snippet_matches(text, text, &javascript()).unwrap();
    assert_eq!(found.len(), 1);
    assert_eq!((found[0].start_byte, found[0].end_byte), (0, text.len()));
    assert!(found[0].captures.is_empty());
}

#[test]
fn every_layout_from_the_parser_can_be_searched() {
    let r = patchwork::search::find_snippet_matches("f(1); g(2);", "$f($n);", &javascript());
    assert_eq!(r.unwrap().unwrap().len(), 2);
    let r = patchwork::search::find_snippet_matches("f(1);", "f(", &javascript());
    assert_eq!(r.unwrap().unwrap_err(), "Snippet contains syntax errors");
}

#[test]
fn groups_collect_their_texts() {
    let found =
        find_snippet_matches("f(x, 1, y, 2, z, 3);", "$f($($key, $val),*);", &javascript()).unwrap();
    assert_eq!(found.len(), 1);
    assert_eq!(found[0].captures.get("key").unwrap(), "xyz");
    assert_eq!(found[0].captures.get("val").unwrap(), "123");
}

#[test]
fn groups_come_whole() {
    let found = find_snippet_matches("f(x, 1, y);", "$f($($key, $val),*);", &javascript()).unwrap();
    assert!(found.is_empty());
    let found = find_snippet_matches("f(x);", "$f($($key, $val),?);", &javascript()).unwrap();
    assert!(found.is_empty());
    let found = find_snippet_matches("f();", "$f($($key, $val),?);", &javascript()).unwrap();
    assert_eq!(found.len(), 1);
}

#[test]
fn optional_group_comes_once() {
    let source = "class A { void m() { f(a, 1); } }";
    let found = find_snippet_matches(source, "$f($($key, $val),?);", &java()).unwrap();
    assert_eq!(found.len(), 1);
    assert_eq!(found[0].captures.get("key").unwrap(), "a");
    assert_eq!(found[0].captures.get("val").unwrap(), "1");
    let source = "class A { void m() { f(a, 1, b, 2); } }";
    let found = find_snippet_matches(source, "$f($($key, $val),?);", &java()).unwrap();
    assert!(found.is_empty());
}

#[test]
fn spans_may_be_empty_in_any_position() {
    let source = "class A { void m() { f(y, x); } }";
    let found = find_snippet_matches(source, "f($$$a, x, $$$b);", &java()).unwrap();
    assert_eq!(found.len(), 1);
    assert_eq!(found[0].captures.get("a").unwrap(), "y");
    assert_eq!(found[0].captures.get("b").unwrap(), "");
    let found = find_snippet_matches("f(x);", "f($$$a, x, $$$b);", &javascript()).unwrap();
    assert_eq!(found[0].captures.get("a").unwrap(), "");
    assert_eq!(found[0].captures.get("b").unwrap(), "");
    let found = find_snippet_matches("f(1);", "f($$$a, $$$b, $$$c);", &javascript()).unwrap();
    assert_eq!(found[0].captures.get("a").unwrap(), "");
    assert_eq!(found[0].captures.get("b").unwrap(), "");
    assert_eq!(found[0].captures.get("c").unwrap(), "1");
    let found = find_snippet_matches("if (a) { b(); }", "if (a) { $BODY b(); $BODY }", &javascript());
    assert_eq!(found.unwrap().len(), 1);
}

#[test]
fn reserved_prefix_makes_a_placeholder() {
    let found = find_snippet_matches("f(1);", "f(_pw_count);", &javascript()).unwrap();
    assert_eq!(found.len(), 1);
    assert!(found[0].captures.is_empty());
}

#[test]
fn matches_come_in_order_of_their_starts() {
    let source = "f(g(1), h(2)); if (f(3)) { g(f(4)); } x = h(5) + g(f(6));";
    let found = find_snippet_matches(source, "$f($$$a);", &javascript()).unwrap();
    assert!(found.len() > 2);
    for i in 1..found.len() {
        assert!(found[i - 1].start_byte <= found[i].start_byte);
    }
}

#[test]
fn deep_nesting_is_parsed() {
    for depth in [100, 510, 511, 512, 513, 1030] {
        let mut source = String::new();
        for i in 0..depth {
            source.push_str(&" ".repeat(i));
            source.push_str("if a:\n");
        }
        source.push_str(&" ".repeat(depth));
        source.push_str("x = 'deep'\n");
        let r = patchwork::search::find_snippet_matches(&source, "x = $v", &python());
        assert!(r.unwrap().is_ok());
    }
}

#[test]
fn repetition_spans_separators() {
    let found = find_snippet_matches("f(x,  y);", "f($($a),*);", &javascript()).unwrap();
    assert_eq!(found[0].captures.get("a").unwrap(), "x,  y");
    let found = find_snippet_matches("f(x, y);", "f($a, $($b),+);", &javascript()).unwrap();
    assert_eq!(found[0].captures.get("a").unwrap(), "x");
    assert_eq!(found[0].captures.get("b").unwrap(), "y");
}

#[test]
fn spans_take_as_little_as_they_can() {
    let found =
        find_snippet_matches("f(1, x, 2, x, 3);", "f($$$a, x, $$$b);", &javascript()).unwrap();
    assert_eq!(found.len(), 1);
    assert_eq!(found[0].captures.get("a").unwrap(), "1");
    assert_eq!(found[0].captures.get("b").unwrap(), "2, x, 3");
    let found = find_snippet_matches("f(1, x, 2, y);", "f($$$a, y);", &javascript()).unwrap();
    assert_eq!(found[0].captures.get("a").unwrap(), "1, x, 2");
    let found = find_snippet_matches("f(1, x);", "f($$$a, y);", &javascript()).unwrap();
    assert!(found.is_empty());
}

/// Whether a spanning placeholder with the operator `op` takes `count` nodes.
fn span_takes(op: &str, count: usize) -> bool {
    let ps = preprocess_snippet("$$$x");
    let names = reverse_placeholder_map(&ps.placeholders);
    let mut repetitions: StrMap<RepetitionInfo> = StrMap::new();
    let info = RepetitionInfo {
        op: op.to_string(),
        kind: RepetitionKind::MultiChild,
        sub_sentinels: vec![],
    };
    repetitions.insert(ps.pattern_text.clone(), info);
    let ctx = MatchCtx {
        source_text: "abcdef",
        pattern_text: &ps.pattern_text,
        reverse_placeholders: &names,
        repetitions: &repetitions,
        specials: &ps.specials,
        type_constraints: &ps.type_constraints,
    };
    let end = ps.pattern_text.len();
    let pattern = node("args", true, 0, end, vec![leaf("identifier", 0, end)]);
    let children: Vec<SyntaxNode> = (0..count).map(|i| leaf("identifier", i, i + 1)).collect();
    let source = node("args", true, 0, 6, children);
    match structurally_matches(&source, &pattern, StrMap::new(), &ctx) {
        Some(captures) => {
            assert_eq!(captures.get("x").unwrap(), &"abcdef"[..count]);
            true
        }
        None => false,
    }
}

#[test]
fn operators_bound_a_span() {
    let taken = |op: &str| (0..4).filter(|n| span_takes(op, *n)).collect::<Vec<usize>>();
    assert_eq!(taken("*"), vec![0, 1, 2, 3]);
    assert_eq!(taken("+"), vec![1, 2, 3]);
    assert_eq!(taken("?"), vec![0, 1]);
}

#[test]
fn repeated_placeholder_keeps_the_last_text() {
    let found = find_snippet_matches("a = b;", "$x = $x;", &javascript()).unwrap();
    assert_eq!(found.len(), 1);
    assert_eq!(found[0].captures.get("x").unwrap(), "b");
}

#[test]
fn calls_inside_a_match_are_covered() {
    let found = find_snippet_matches("f(f(1));", "f($x)", &javascript()).unwrap();
    let texts: Vec<&str> = found.iter().map(|m| m.captures.get("x").unwrap().as_str()).collect();
    assert_eq!(texts, vec!["f(1)"]);
    let found = find_snippet_matches("x = f(1) + f(2);", "f($x)", &javascript()).unwrap();
    let texts: Vec<&str> = found.iter().map(|m| m.captures.get("x").unwrap().as_str()).collect();
    assert_eq!(texts, vec!["1", "2"]);
}

#[test]
fn expressions_are_no_statements() {
    let source = "class A { void m() { return x; } }";
    let found = find_snippet_matches(source, "$STMT", &java()).unwrap();
    assert!(found.iter().all(|m| source[m.start_byte..m.end_byte].ends_with(|c| c == ';' || c == '}')));
    assert!(found.iter().any(|m| &source[m.start_byte..m.end_byte] == "return x;"));
}

#[test]
fn query_reports_the_named_capture() {
    let source = "class A { void f() { return 42; } }";
    let by = |query: &str| {
        let found = find_query_matches(source, query, &java()).unwrap();
        found.iter().map(|m| source[m.start_byte..m.end_byte].to_string()).collect::<Vec<String>>()
    };
    assert_eq!(by("(method_declaration name: (identifier) @target) @whole"), vec!["f"]);
    assert_eq!(by("(method_declaration name: (identifier) @name) @matched"), vec!["void f() { return 42; }"]);
    assert_eq!(by("(method_declaration name: (identifier) @name) @whole"), vec!["void f() { return 42; }"]);
    assert_eq!(by("(method_declaration name: (identifier) @name)"), vec!["f"]);
    assert_eq!(by("((identifier) @id (#eq? @id \"A\"))"), vec!["A"]);
}

#[test]
fn query_without_captures_reports_nothing() {
    let found = find_query_matches("return 1;", "(return_statement)", &javascript()).unwrap();
    assert!(found.is_empty());
}

#[test]
fn query_matches_capture_no_names() {
    let found = find_query_matches("f(1);\ng(2);", "(call_expression) @matched", &javascript()).unwrap();
    assert_eq!(found.len(), 2);
    assert!(found[1].captures.is_empty());
    assert_eq!(found[1].start_point, Point { row: 1, column: 0 });
    assert_eq!(found[1].end_point, Point { row: 1, column: 4 });
}

#[test]
fn query_errors_tell_the_place() {
    let r = find_query_matches("f();", "(no_such_node) @x", &javascript());
    assert_eq!(r.unwrap_err(), "Query error at 0:1: \"no_such_node\"");
    let failure = QueryFailure { row: 12, column: 3, message: "bad".to_string() };
    assert_eq!(query_error_message(&failure), "Query error at 12:3: bad");
}

fn hit(index: u32, start: usize) -> QueryHit {
    QueryHit {
        index,
        start_byte: start,
        end_byte: start + 1,
        start_point: Point { row: 0, column: start },
        end_point: Point { row: 0, column: start + 1 },
    }
}

#[test]
fn targets_are_selected_by_name() {
    let names = vec!["a".to_string(), "target".to_string(), "matched".to_string()];
    assert_eq!(select_target(&names, &vec![hit(0, 5), hit(2, 6), hit(1, 7)]), hit(2, 6));
    assert_eq!(select_target(&names, &vec![hit(0, 5), hit(0, 6)]), hit(0, 5));
    assert_eq!(select_target(&names, &vec![hit(9, 5), hit(1, 6)]), hit(1, 6));
    let found = select_targets(&names, &vec![vec![hit(0, 1)], vec![], vec![hit(0, 2), hit(1, 3)]]);
    let starts: Vec<usize> = found.iter().map(|m| m.start_byte).collect();
    assert_eq!(starts, vec![1, 3]);
}

#[test]
fn trees_are_checked_before_matching() {
    let good = Some(leaf("identifier", 0, 1));
    let beyond = Some(leaf("identifier", 0, 9));
    let broken = Some(leaf("ERROR", 0, 9));
    assert!(can_search_trees("a", "b", &good, &good));
    assert!(!can_search_trees("a", "b", &beyond, &good));
    assert!(!can_search_trees("a", "b", &good, &beyond));
    assert!(can_search_trees("a", "b", &broken, &beyond));
    assert!(can_search_trees("a", "b", &beyond, &None));
    assert!(can_search_trees("a", "b", &None, &beyond));
}

#[test]
fn texts_beyond_ascii_are_searched() {
    let source = "class A { void f() { s = \"grün\"; } }";
    let found = find_snippet_matches(source, "s = \"grün\";", &java()).unwrap();
    assert_eq!(found.len(), 1);
    let query = "((string_literal) @s (#eq? @s \"\\\"grün\\\"\"))";
    let found = find_query_matches(source, query, &java()).unwrap();
    assert_eq!(&source[found[0].start_byte..found[0].end_byte], "\"grün\"");
}

#[test]
fn endless_queries_are_refused() {
    let endless = [
        "((\"if\")?)+ @x",
        "(program ((expression_statement)?)+) @x",
        "(program ((expression_statement)*)+) @x",
        "(program (((expression_statement)?)+)?) @x",
        "(program [(if_statement) (expression_statement)?]+) @x",
        "(program ((expression_statement)? (if_statement)?)+ .) @x",
        "(program ( ; a group\n (expression_statement)? )+ ) @x",
        "(program ((if_statement)? name_: (identifier)?)+) @x",
        "([\"if\" (#set! a b)] @x)+",
        "((#set! a b))+",
        "(_ \"if\"*)*",
        "(expression (identifier)?)+ @x",
        "[(_ \"if\"* ) (_)]* @x",
        "((_ . (#set! a b) body: (identifier)?)* _)* @x",
    ];
    for query in endless {
        assert!(!check_query(query), "{}", query);
        assert!(try_find_query_matches("f();", query, &javascript()).is_none());
    }
}

#[test]
fn suffixes_without_a_node_are_refused() {
    let loose = [
        "((#set! a b))?",
        "((#set! a b)) @x",
        "(call_expression function: (#set! a b))",
        "(call_expression function: ((#set! a b)))",
        "[(#set! a b)] @x",
        "(program ((#set! a b))? (if_statement)) @x",
        "(program ((.set! a b))* ) @x",
        "((#set! a b) . (_)*) _ @x",
        "([(#set! a b)] . (if_statement)*)",
    ];
    for query in loose {
        assert!(!check_query(query), "{}", query);
    }
}

#[test]
fn long_and_deep_queries_are_refused() {
    assert!(check_query(&format!("[{}]?", "_ ".repeat(10000))));
    assert!(!check_query(&format!("[{}]?", "_ ".repeat(40000))));
    assert!(check_query(&"(".repeat(1000)));
    assert!(!check_query(&"(".repeat(1001)));
    assert!(!check_query("(program name: name: name: (identifier))"));
}

#[test]
fn ordinary_queries_are_compiled() {
    let source = "f(1, 2); if (a) { b(c); } else { return d; } g();";
    let sound = [
        ("(program (expression_statement)+) @x", 1),
        ("(program (expression_statement)? (if_statement)? .) @x", 0),
        ("(program ((expression_statement)? (if_statement)?)* ) @x", 1),
        ("(program ((expression_statement)? (if_statement))+ ) @x", 1),
        ("(program (((expression_statement)* (if_statement)*)*)*) @x", 1),
        ("[(if_statement) (return_statement)] @target", 2),
        ("(call_expression function: (identifier) @f (#eq? @f \"g\"))", 1),
        ("((identifier) @f (#match? @f \"^[a-c]+$\"))", 3),
        ("; all numbers\n(number) @n", 2),
        ("(arguments . (_) @first)", 2),
        ("(program _ @x . (if_statement))", 1),
        ("(_)+ @x", 1),
        ("(program (_ (identifier)?)* ) @x", 1),
        ("((#set! a b) (number) @x)", 2),
        ("((number) @x (#set! a b))", 2),
        ("(call_expression function: (_) @f arguments: (arguments (number)* @n))", 3),
    ];
    for (query, count) in sound {
        assert!(check_query(query), "{}", query);
        let found = try_find_query_matches(source, query, &javascript()).unwrap().unwrap();
        assert_eq!((query, found.len() >= count), (query, true));
    }
    for query in ["((", "(", "))", "[", "(identifier) @", "\"open", "+", "? @x", "(no_such_node)+ @x", "()"] {
        assert!(try_find_query_matches(source, query, &javascript()).unwrap().is_err(), "{}", query);
    }
}
