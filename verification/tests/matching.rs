use patchwork::query::find_query_matches;
use patchwork::scan::SpecialKind;
use patchwork::search::Match;
use patchwork::snippet::{preprocess_snippet, RepetitionKind};
use tree_sitter::Language;

/// Searches for a snippet; the trees of these tests are laid out on their texts.
fn find_snippet_matches(source: &str, snippet: &str, lang: &Language) -> Result<Vec<Match>, String> {
    patchwork::search::find_snippet_matches(source, snippet, lang).unwrap()
}

fn java_lang() -> Language {
    tree_sitter_java::LANGUAGE.into()
}

fn python_lang() -> Language {
    tree_sitter_python::LANGUAGE.into()
}

fn js_lang() -> Language {
    tree_sitter_javascript::LANGUAGE.into()
}

// ——— by default, leaf nodes match by name ———

#[test]
fn test_exact_name_match() {
    // Identifiers must match exactly by default
    let source = "class A { void f() { x = 1; } }";
    let matches = find_snippet_matches(source, "x = 1;", &java_lang()).unwrap();
    assert_eq!(matches.len(), 1);
}

#[test]
fn test_identifier_name_mismatch() {
    // Different identifier name, no match
    let source = "class A { void f() { y = 1; } }";
    let matches = find_snippet_matches(source, "x = 1;", &java_lang()).unwrap();
    assert_eq!(matches.len(), 0);
}

#[test]
fn test_literal_value_mismatch() {
    // Different integer value, no match
    let source = "class A { void f() { return 42; } }";
    let matches = find_snippet_matches(source, "return 1;", &java_lang()).unwrap();
    assert_eq!(matches.len(), 0);
}

#[test]
fn test_string_literal_mismatch() {
    let source = "class A { void f() { s = \"hello\"; } }";
    let matches = find_snippet_matches(source, "s = \"world\";", &java_lang()).unwrap();
    assert_eq!(matches.len(), 0);
}

// ——— $ placeholder wildcard matching ———

#[test]
fn test_dollar_placeholder_matches_any_identifier() {
    let source = "class A { void f() { println(42); } }";
    let matches = find_snippet_matches(source, "$method(42);", &java_lang()).unwrap();
    assert_eq!(matches.len(), 1);
}

#[test]
fn test_dollar_placeholder_matches_any_literal() {
    let source = "class A { void f() { return 42; } }";
    let matches = find_snippet_matches(source, "return $n;", &java_lang()).unwrap();
    assert_eq!(matches.len(), 1);
}

#[test]
fn test_dollar_placeholder_matches_any_string() {
    let source = "class A { void f() { s = \"hello\"; } }";
    let matches = find_snippet_matches(source, "s = $s;", &java_lang()).unwrap();
    assert_eq!(matches.len(), 1);
}

#[test]
fn test_dollar_multiple_placeholders() {
    let source = "class A { void f() { foo(1, 2); } }";
    let matches = find_snippet_matches(source, "$f($a, $b);", &java_lang()).unwrap();
    assert_eq!(matches.len(), 1);
}

#[test]
fn test_multiple_matches_with_placeholder() {
    let source = r#"
class A {
    void f() { return 1; }
    void g() { return 2; }
    void h() { return 3; }
}"#;
    let matches = find_snippet_matches(source, "return $n;", &java_lang()).unwrap();
    assert_eq!(matches.len(), 3);
}

// ——— structure and names together ———

#[test]
fn test_same_kind_leaves_match() {
    let source = "class A { void f() { return 1; } }";
    let matches = find_snippet_matches(source, "return 1;", &java_lang()).unwrap();
    assert_eq!(matches.len(), 1);
}

#[test]
fn test_different_structure_no_match() {
    let source = "class A { void f() { if (true) {} } }";
    let matches = find_snippet_matches(source, "return 1;", &java_lang()).unwrap();
    assert!(matches.is_empty());
}

#[test]
fn test_snippet_collects_matches() {
    let source = r#"
class A {
    void f() {
        System.out.println("hello");
        System.out.println("world");
    }
}"#;
    let matches =
        find_snippet_matches(source, r#"System.out.println("hello");"#, &java_lang()).unwrap();
    assert_eq!(matches.len(), 1);
}

#[test]
fn test_no_match_for_absent_code() {
    let source = "class A { void f() { return 1; } }";
    let matches =
        find_snippet_matches(source, "System.out.println(\"x\");", &java_lang()).unwrap();
    assert!(matches.is_empty());
}

#[test]
fn test_empty_source_no_match() {
    let matches = find_snippet_matches("", "return 1;", &java_lang()).unwrap();
    assert!(matches.is_empty());
}

#[test]
fn test_deeply_nested_match() {
    let source = r#"
class Outer {
    class Inner {
        void f() {
            if (true) {
                return 1;
            }
        }
    }
}"#;
    let matches = find_snippet_matches(source, "return 1;", &java_lang()).unwrap();
    assert_eq!(matches.len(), 1);
}

#[test]
fn test_match_byte_ranges_correct() {
    let source = "class A { int x; void f() { return 1; } }";
    let matches = find_snippet_matches(source, "return 1;", &java_lang()).unwrap();
    assert_eq!(matches.len(), 1);
    let m = &matches[0];
    assert_eq!(&source[m.start_byte..m.end_byte], "return 1;");
}

#[test]
fn test_snippet_error_returns_err() {
    let result = find_snippet_matches("class A {}", "return ", &java_lang());
    assert!(result.is_err());
}

// ——— Python snippet matching ———

#[test]
fn test_python_snippet_match() {
    let source = "x = 42\n";
    let matches = find_snippet_matches(source, "x = 42", &python_lang()).unwrap();
    assert_eq!(matches.len(), 1);
}

#[test]
fn test_python_multiple_matches() {
    let source = "a = 1\nb = 2\n";
    let matches = find_snippet_matches(source, "$x = $n", &python_lang()).unwrap();
    assert_eq!(matches.len(), 2);
}

#[test]
fn test_python_no_match() {
    let source = "def f():\n    pass\n";
    let matches = find_snippet_matches(source, "return 1", &python_lang()).unwrap();
    assert!(matches.is_empty());
}

// ——— JavaScript snippet matching ———

#[test]
fn test_js_snippet_match() {
    let source = "function f() { return 42; }";
    let matches = find_snippet_matches(source, "return 42;", &js_lang()).unwrap();
    assert_eq!(matches.len(), 1);
}

#[test]
fn test_js_no_match() {
    let source = "const x = 1;";
    let matches = find_snippet_matches(source, "return 1;", &js_lang()).unwrap();
    assert!(matches.is_empty());
}

// ——— query matching ———

#[test]
fn test_query_find() {
    let source = "class A { void f() { return 42; } }";
    let matches =
        find_query_matches(source, "(return_statement) @matched", &java_lang()).unwrap();
    assert_eq!(matches.len(), 1);
}

#[test]
fn test_query_no_matches() {
    let source = "class A { void f() { return 42; } }";
    let matches = find_query_matches(source, "(if_statement) @matched", &java_lang()).unwrap();
    assert!(matches.is_empty());
}

#[test]
fn test_query_prefers_matched_capture() {
    let source = "class A { void f() { return 42; } }";
    let matches = find_query_matches(
        source,
        "(method_declaration name: (identifier) @matched)",
        &java_lang(),
    )
    .unwrap();
    assert_eq!(matches.len(), 1);
    assert_eq!(&source[matches[0].start_byte..matches[0].end_byte], "f");
}

#[test]
fn test_query_syntax_error() {
    let result = find_query_matches("class A {}", "((", &java_lang());
    assert!(result.is_err());
}

#[test]
fn test_python_query() {
    let source = "def f():\n    return 42\n";
    let matches =
        find_query_matches(source, "(return_statement) @matched", &python_lang()).unwrap();
    assert_eq!(matches.len(), 1);
}

// ——— structurally_matches ———

#[test]
fn test_structurally_matches_fails_on_kind_mismatch() {
    let source = "class A { void f() { return 1; } }";
    let matches = find_snippet_matches(source, "if (true) {}", &java_lang()).unwrap();
    assert!(matches.is_empty());
}

// ——— preprocess_snippet ———

#[test]
fn test_preprocess_replaces_dollar() {
    let ps = preprocess_snippet("$x = $y;");
    assert_eq!(ps.pattern_text, "_pw_1 = _pw_2;");
}

#[test]
fn test_preprocess_no_dollar() {
    let ps = preprocess_snippet("x = y;");
    assert_eq!(ps.pattern_text, "x = y;");
}

// ——— repetition syntax ———

#[test]
fn test_preprocess_repetition_star() {
    let ps = preprocess_snippet("$f($($arg,)*)");
    // Should produce: _pw_1(_pw_2) with _pw_2 marked as repetition "*"
    assert_eq!(ps.pattern_text, "_pw_1(_pw_2)");
    assert_eq!(ps.placeholders.get("f").unwrap(), "_pw_1");
    assert_eq!(ps.placeholders.get("arg").unwrap(), "_pw_2");
    assert_eq!(ps.repetitions.get("_pw_2").unwrap().op, "*");
}

#[test]
fn test_preprocess_repetition_plus() {
    let ps = preprocess_snippet("$($arg,)+");
    assert!(ps.repetitions.get("_pw_1").is_some());
    assert_eq!(ps.repetitions.get("_pw_1").unwrap().op, "+");
}

#[test]
fn test_repetition_matches_zero_args() {
    // $f($($arg,)*) should match f() (zero args)
    let source = "class A { void m() { f(); } }";
    let matches = find_snippet_matches(source, "$f($($arg,)*);", &java_lang()).unwrap();
    assert_eq!(matches.len(), 1);
    let m = &matches[0];
    // $arg should capture empty string
    assert_eq!(m.captures.get("arg").map(|s| s.as_str()), Some(""));
}

#[test]
fn test_repetition_matches_one_arg() {
    // $f($($arg,)*) should match f(x) (one arg)
    let source = "class A { void m() { f(x); } }";
    let matches = find_snippet_matches(source, "$f($($arg,)*);", &java_lang()).unwrap();
    assert_eq!(matches.len(), 1);
    let m = &matches[0];
    assert_eq!(m.captures.get("arg").map(|s| s.as_str()), Some("x"));
}

#[test]
fn test_repetition_matches_multiple_args() {
    // $f($($arg,)*) should match f(x, y, z) (three args)
    let source = "class A { void m() { f(x, y, z); } }";
    let matches = find_snippet_matches(source, "$f($($arg,)*);", &java_lang()).unwrap();
    assert_eq!(matches.len(), 1);
    let m = &matches[0];
    assert_eq!(m.captures.get("f").unwrap(), "f");
    // Captured text spans all args including separators
    assert!(m.captures.get("arg").unwrap().len() >= 3);
    assert!(m.captures.get("arg").unwrap().contains('x'));
    assert!(m.captures.get("arg").unwrap().contains('y'));
    assert!(m.captures.get("arg").unwrap().contains('z'));
}

#[test]
fn test_repetition_plus_requires_at_least_one() {
    // $f($($arg,)+) should NOT match f() (zero args)
    let source = "class A { void m() { f(); } }";
    let matches = find_snippet_matches(source, "$f($($arg,)+);", &java_lang()).unwrap();
    assert!(matches.is_empty());
}

#[test]
fn test_repetition_plus_matches_one() {
    // $f($($arg,)+) should match f(x) (one arg)
    let source = "class A { void m() { f(x); } }";
    let matches = find_snippet_matches(source, "$f($($arg,)+);", &java_lang()).unwrap();
    assert_eq!(matches.len(), 1);
}

// ——— statement unwrapping ———

#[test]
fn test_unwrap_expression_in_return_statement() {
    // Pattern `users.$method()` (expression_statement) should match
    // a method call inside a return statement via unwrapping
    let source = "class A { void m() { return users.size(); } }";
    // With repetition: $($arg,)* so () matches zero args
    let matches =
        find_snippet_matches(source, "users.$method($($arg,)*);", &java_lang()).unwrap();
    assert_eq!(
        matches.len(),
        1,
        "should match return users.size() via unwrapping"
    );
    let m = &matches[0];
    assert_eq!(m.captures.get("method").unwrap(), "size");
}

#[test]
fn test_unwrap_expression_in_variable_declaration() {
    // Pattern `users.$method()` should match
    // a method call inside a variable declaration
    let source = "class A { void m() { String s = users.get(id); } }";
    let matches =
        find_snippet_matches(source, "users.$method($($arg,)*);", &java_lang()).unwrap();
    assert_eq!(
        matches.len(),
        1,
        "should match users.get(id) in variable decl"
    );
    assert_eq!(matches[0].captures.get("method").unwrap(), "get");
}

#[test]
fn test_unwrap_no_duplicate_with_direct_match() {
    // When the pattern directly matches an expression_statement,
    // we should NOT also get a duplicate inner match
    let source = "class A { void m() { users.size(); } }";
    let matches =
        find_snippet_matches(source, "users.$method($($arg,)*);", &java_lang()).unwrap();
    // Should get exactly 1 match (the expression_statement)
    assert_eq!(matches.len(), 1);
}

// ——— combined: $method() matching on UserService.java ———

#[test]
fn test_method_with_any_args_matches_all_forms() {
    // users.$method() should match all method calls on users
    // regardless of arguments
    let source = r#"
class A {
    void f() {
        users.size();
        String s = users.get(id);
        return users.remove(id);
    }
}"#;
    let matches =
        find_snippet_matches(source, "users.$method($($arg,)*);", &java_lang()).unwrap();
    // Should match all three: users.size(), users.get(id), users.remove(id)
    assert_eq!(matches.len(), 3, "should match all three forms");
}

// ——— optional repetition (?) ———

#[test]
fn test_repetition_optional_matches_zero() {
    // $f($($arg,)?) should match f() (zero args)
    let source = "class A { void m() { f(); } }";
    let matches = find_snippet_matches(source, "$f($($arg,)?);", &java_lang()).unwrap();
    assert_eq!(matches.len(), 1);
    assert_eq!(matches[0].captures.get("arg").map(|s| s.as_str()), Some(""));
}

#[test]
fn test_repetition_optional_matches_one() {
    // $f($($arg,)?) should match f(x) (one arg)
    let source = "class A { void m() { f(x); } }";
    let matches = find_snippet_matches(source, "$f($($arg,)?);", &java_lang()).unwrap();
    assert_eq!(matches.len(), 1);
    assert_eq!(matches[0].captures.get("arg").map(|s| s.as_str()), Some("x"));
}

#[test]
fn test_repetition_optional_rejects_two() {
    // $f($($arg,)?) should NOT match f(x, y) (two args)
    let source = "class A { void m() { f(x, y); } }";
    let matches = find_snippet_matches(source, "$f($($arg,)?);", &java_lang()).unwrap();
    assert!(matches.is_empty());
}

// ——— $$$ multi-child placeholder ———

#[test]
fn test_triple_dollar_matches_zero_args() {
    // $$$args should match f() (zero args)
    let source = "class A { void m() { f(); } }";
    let matches =
        find_snippet_matches(source, "$f($$$args);", &java_lang()).unwrap();
    assert_eq!(matches.len(), 1);
    assert_eq!(
        matches[0].captures.get("args").map(|s| s.as_str()),
        Some("")
    );
}

#[test]
fn test_triple_dollar_matches_one_arg() {
    // $$$args should match f(x) (one arg)
    let source = "class A { void m() { f(x); } }";
    let matches =
        find_snippet_matches(source, "$f($$$args);", &java_lang()).unwrap();
    assert_eq!(matches.len(), 1);
    assert_eq!(
        matches[0].captures.get("args").map(|s| s.as_str()),
        Some("x")
    );
}

#[test]
fn test_triple_dollar_matches_multiple_args() {
    // $$$args should match f(x, y, z) (multiple args)
    let source = "class A { void m() { f(x, y, z); } }";
    let matches =
        find_snippet_matches(source, "$f($$$args);", &java_lang()).unwrap();
    assert_eq!(matches.len(), 1);
    let cap = matches[0].captures.get("args").unwrap();
    assert!(cap.contains('x'), "should contain x: {}", cap);
    assert!(cap.contains('y'), "should contain y: {}", cap);
    assert!(cap.contains('z'), "should contain z: {}", cap);
}

#[test]
fn test_triple_dollar_unnamed() {
    // Bare $$$ should match but not capture
    let source = "class A { void m() { f(a, b, c); } }";
    let matches =
        find_snippet_matches(source, "$f($$$);", &java_lang()).unwrap();
    assert_eq!(matches.len(), 1);
}

#[test]
fn test_triple_dollar_matches_any_args() {
    // $$$args matches any number of arguments in function calls
    let source = "class A { void m() { f(); g(x); h(a, b, c); } }";
    // Match any method call (single-identifier name) with any args
    let matches =
        find_snippet_matches(source, "$fn($$$args);", &java_lang()).unwrap();
    assert_eq!(matches.len(), 3, "should match f(), g(x), h(a,b,c)");
}

#[test]
fn test_triple_dollar_combined_with_single() {
    // $$$ and $ work together
    let source = "class A { void f() { log(msg); } }";
    let matches =
        find_snippet_matches(source, "$fn($$$args);", &java_lang()).unwrap();
    assert_eq!(matches.len(), 1);
    assert_eq!(
        matches[0].captures.get("fn").map(|s| s.as_str()),
        Some("log")
    );
    assert_eq!(
        matches[0].captures.get("args").map(|s| s.as_str()),
        Some("msg")
    );
}

#[test]
fn test_triple_dollar_matches_all_method_calls() {
    // $$$ matches any method name on users, $($arg,)* handles args
    let source = r#"
class A {
    void f() {
        users.size();
        String s = users.get(id);
        return users.remove(id);
    }
}"#;
    let matches =
        find_snippet_matches(source, "users.$$$($($arg,)*);", &java_lang()).unwrap();
    assert_eq!(matches.len(), 3, "should match all three forms");
}

#[test]
fn test_triple_dollar_preprocess() {
    let ps = preprocess_snippet("$$$args");
    assert!(ps.pattern_text.starts_with("_pw_multi_"), "got: {}", ps.pattern_text);
    assert_eq!(ps.placeholders.get("args").map(|s| s.as_str()), Some(ps.pattern_text.as_str()));
    let rep = ps.repetitions.get(ps.pattern_text.as_str()).unwrap();
    assert_eq!(rep.op, "*");
    assert_eq!(rep.kind, RepetitionKind::MultiChild);
}

#[test]
fn test_triple_dollar_preprocess_unnamed() {
    let ps = preprocess_snippet("$$$");
    assert!(ps.pattern_text.starts_with("_pw_multi_"), "got: {}", ps.pattern_text);
    // No placeholder name registered for anonymous $$$
    assert!(!ps.placeholders.contains_key(""));
    let rep = ps.repetitions.get(ps.pattern_text.as_str()).unwrap();
    assert_eq!(rep.kind, RepetitionKind::MultiChild);
}

// ——— special tokens: $BODY, $STMT, $EXPR ———

#[test]
fn test_body_matches_zero_statements() {
    // if (true) { $BODY } should match an empty block
    let source = "class A { void m() { if (true) {} } }";
    let matches =
        find_snippet_matches(source, "if (true) { $BODY }", &java_lang()).unwrap();
    assert_eq!(matches.len(), 1);
    assert_eq!(matches[0].captures.get("BODY").map(|s| s.as_str()), Some(""));
}

#[test]
fn test_body_matches_single_statement() {
    let source = "class A { void m() { if (true) { return 42; } } }";
    let matches =
        find_snippet_matches(source, "if (true) { $BODY }", &java_lang()).unwrap();
    assert_eq!(matches.len(), 1);
    let cap = matches[0].captures.get("BODY").unwrap();
    assert!(cap.contains("return"), "should contain return: {}", cap);
}

#[test]
fn test_body_matches_multiple_statements() {
    let source = "class A { void m() { if (true) { debug(x); return 42; } } }";
    let matches =
        find_snippet_matches(source, "if (true) { $BODY }", &java_lang()).unwrap();
    assert_eq!(matches.len(), 1);
    let cap = matches[0].captures.get("BODY").unwrap();
    assert!(cap.contains("debug"), "should contain debug: {}", cap);
    assert!(cap.contains("return"), "should contain return: {}", cap);
}

#[test]
fn test_body_preprocess() {
    let ps = preprocess_snippet("$BODY");
    assert!(ps.pattern_text.starts_with("_pw_body_"), "got: {}", ps.pattern_text);
    // $BODY appends semicolon for valid statement parsing
    let sentinel = ps.pattern_text.trim_end_matches(';');
    assert_eq!(ps.placeholders.get("BODY").map(|s| s.as_str()), Some(sentinel));
    let rep = ps.repetitions.get(sentinel).unwrap();
    assert_eq!(rep.kind, RepetitionKind::MultiChild);
    assert_eq!(rep.op, "*");
    assert_eq!(ps.specials.get(sentinel), Some(&SpecialKind::Body));
}

#[test]
fn test_stmt_at_statement_level() {
    // $STMT alone matches any single statement, including blocks.
    // Block and return_statement both qualify.
    let source = "class A { void m() { return 42; } }";
    let matches = find_snippet_matches(source, "$STMT", &java_lang()).unwrap();
    assert!(matches.len() >= 1);
    let has_return = matches.iter().any(|m| {
        m.captures.get("STMT").map(|s| s.as_str()) == Some("return 42;")
    });
    assert!(has_return, "should match return statement");
}

#[test]
fn test_stmt_matches_if_statement() {
    let source = "class A { void m() { if (true) { return 1; } } }";
    let matches = find_snippet_matches(source, "$STMT", &java_lang()).unwrap();
    let has_if = matches.iter().any(|m| {
        m.captures.get("STMT").map(|s| s.as_str()) == Some("if (true) { return 1; }")
    });
    assert!(has_if, "should match if statement");
}

#[test]
fn test_stmt_preprocess() {
    let ps = preprocess_snippet("$STMT");
    assert!(ps.pattern_text.starts_with("_pw_stmt_"), "got: {}", ps.pattern_text);
    let sentinel = ps.pattern_text.trim_end_matches(';');
    assert_eq!(ps.placeholders.get("STMT").map(|s| s.as_str()), Some(sentinel));
    assert_eq!(ps.specials.get(sentinel), Some(&SpecialKind::Stmt));
}

#[test]
fn test_expr_at_expression_level() {
    // $EXPR as a leaf should match any expression (like $name)
    let source = "class A { void m() { debug(x); } }";
    let matches =
        find_snippet_matches(source, "debug($EXPR);", &java_lang()).unwrap();
    assert_eq!(matches.len(), 1);
    assert_eq!(matches[0].captures.get("EXPR").map(|s| s.as_str()), Some("x"));
}

#[test]
fn test_expr_preprocess() {
    let ps = preprocess_snippet("$EXPR");
    assert!(ps.pattern_text.starts_with("_pw_expr_"), "got: {}", ps.pattern_text);
    assert_eq!(ps.placeholders.get("EXPR").map(|s| s.as_str()), Some(ps.pattern_text.as_str()));
    assert_eq!(ps.specials.get(ps.pattern_text.as_str()), Some(&SpecialKind::Expr));
}

#[test]
fn test_body_combined_with_condition() {
    // if ($EXPR) { $BODY } matches any if statement
    let source = "class A { void m() { if (x > 0) { return x; } } }";
    let matches =
        find_snippet_matches(source, "if ($EXPR) { $BODY }", &java_lang()).unwrap();
    assert_eq!(matches.len(), 1);
    assert!(matches[0].captures.get("EXPR").unwrap().contains("x > 0"));
    assert!(matches[0].captures.get("BODY").unwrap().contains("return"));
}

// ——— type-constrained placeholders: $name:Kind ———

#[test]
fn test_type_constraint_identifier() {
    let source = "class A { void f() { x = 42; } }";
    let matches = find_snippet_matches(source, "$x:identifier = 42;", &java_lang()).unwrap();
    assert_eq!(matches.len(), 1);
    assert_eq!(matches[0].captures.get("x").map(|s| s.as_str()), Some("x"));
}

#[test]
fn test_type_constraint_identifier_rejects_literal() {
    let source = "class A { void f() { return 42; } }";
    let matches = find_snippet_matches(source, "$x:identifier = 42;", &java_lang()).unwrap();
    assert!(matches.is_empty());
}

#[test]
fn test_type_constraint_string_literal() {
    let source = r#"class A { void f() { log("hello"); } }"#;
    let matches =
        find_snippet_matches(source, r#"log($msg:string_literal);"#, &java_lang()).unwrap();
    assert_eq!(matches.len(), 1);
    assert_eq!(
        matches[0].captures.get("msg").map(|s| s.as_str()),
        Some(r#""hello""#)
    );
}

#[test]
fn test_type_constraint_string_literal_rejects_identifier() {
    let source = "class A { void f() { log(x); } }";
    let matches =
        find_snippet_matches(source, r#"log($msg:string_literal);"#, &java_lang()).unwrap();
    assert!(matches.is_empty());
}

#[test]
fn test_type_constraint_number_literal() {
    let source = "class A { void f() { return 42; } }";
    let matches =
        find_snippet_matches(source, "return $n:decimal_integer_literal;", &java_lang()).unwrap();
    assert_eq!(matches.len(), 1);
    assert_eq!(matches[0].captures.get("n").map(|s| s.as_str()), Some("42"));
}

#[test]
fn test_type_constraint_number_literal_rejects_identifier() {
    let source = "class A { void f() { return x; } }";
    let matches =
        find_snippet_matches(source, "return $n:decimal_integer_literal;", &java_lang()).unwrap();
    assert!(matches.is_empty());
}

#[test]
fn test_type_constraint_multiple_placeholders() {
    let source = r#"class A { void f() { log("msg", 42); } }"#;
    let matches = find_snippet_matches(
        source,
        r#"log($msg:string_literal, $n:decimal_integer_literal);"#,
        &java_lang(),
    )
    .unwrap();
    assert_eq!(matches.len(), 1);
    assert_eq!(
        matches[0].captures.get("msg").map(|s| s.as_str()),
        Some(r#""msg""#)
    );
    assert_eq!(matches[0].captures.get("n").map(|s| s.as_str()), Some("42"));
}

#[test]
fn test_type_constraint_first_occurrence_wins_on_reuse() {
    let source = "class A { void f() { x = y; } }";
    let matches = find_snippet_matches(source, "$x:identifier = $x;", &java_lang()).unwrap();
    assert_eq!(matches.len(), 1);
}

#[test]
fn test_type_constraint_no_trailing_colon_ambiguity() {
    let result = find_snippet_matches("class A { }", "$x:", &java_lang());
    assert!(result.is_err());
}

#[test]
fn test_type_constraint_preprocess() {
    let ps = preprocess_snippet("$x:identifier");
    assert_eq!(ps.type_constraints.len(), 1);
    let sentinel = ps.placeholders.get("x").unwrap();
    assert_eq!(
        ps.type_constraints.get(sentinel).map(|s| s.as_str()),
        Some("identifier")
    );
}

#[test]
fn test_type_constraint_preprocess_unnamed() {
    let ps = preprocess_snippet("$x:");
    assert!(ps.type_constraints.is_empty());
}

#[test]
fn test_type_constraint_rejects_on_kind_mismatch() {
    let source = r#"class A { void f() { log(42); } }"#;
    let matches =
        find_snippet_matches(source, r#"log($x:string_literal);"#, &java_lang()).unwrap();
    assert!(matches.is_empty());
}

// ——— multi-item repetition groups ———

#[test]
fn test_multi_item_matches_all_groups() {
    // $($key, $val),* matches key-value pairs in flat argument list
    let source = "class A { void m() { f(x, 1, y, 2, z, 3); } }";
    let matches =
        find_snippet_matches(source, "$f($($key, $val),*);", &java_lang()).unwrap();
    assert_eq!(matches.len(), 1, "should match the call with 6 args");
    let cap_key = matches[0].captures.get("key").unwrap();
    let cap_val = matches[0].captures.get("val").unwrap();
    assert!(
        cap_key.contains('x') && cap_key.contains('y') && cap_key.contains('z'),
        "key should contain x, y, z: {}",
        cap_key
    );
    assert!(
        cap_val.contains('1') && cap_val.contains('2') && cap_val.contains('3'),
        "val should contain 1, 2, 3: {}",
        cap_val
    );
}

#[test]
fn test_multi_item_single_group() {
    // Single group of multi-item repetition should match
    let source = "class A { void m() { f(a, 1); } }";
    let matches =
        find_snippet_matches(source, "$f($($key, $val),*);", &java_lang()).unwrap();
    assert_eq!(matches.len(), 1);
    assert_eq!(matches[0].captures.get("key").map(|s| s.as_str()), Some("a"));
    assert_eq!(matches[0].captures.get("val").map(|s| s.as_str()), Some("1"));
}

#[test]
fn test_multi_item_zero_matches_allowed_by_star() {
    // $($key, $val),* should match f() with zero args
    let source = "class A { void m() { f(); } }";
    let matches =
        find_snippet_matches(source, "$f($($key, $val),*);", &java_lang()).unwrap();
    assert_eq!(matches.len(), 1);
    assert_eq!(matches[0].captures.get("key").map(|s| s.as_str()), Some(""));
    assert_eq!(matches[0].captures.get("val").map(|s| s.as_str()), Some(""));
}

#[test]
fn test_multi_item_plus_requires_at_least_one() {
    // $($key, $val),+ should NOT match f() with zero args
    let source = "class A { void m() { f(); } }";
    let matches =
        find_snippet_matches(source, "$f($($key, $val),+);", &java_lang()).unwrap();
    assert!(matches.is_empty(), "plus quantifier requires at least one group");
}

#[test]
fn test_multi_item_op_mismatch() {
    // $($key, $val),? should not match more than one group
    let source = "class A { void m() { f(a, 1, b, 2); } }";
    let matches =
        find_snippet_matches(source, "$f($($key, $val),?);", &java_lang()).unwrap();
    assert!(matches.is_empty(), "optional quantifier allows at most one group");
}

#[test]
fn test_multi_item_combined_with_single_placeholder() {
    // Mix multi-item repetition with a regular placeholder before it
    let source = "class A { void m() { f(name, x, 1, y, 2); } }";
    let matches = find_snippet_matches(
        source,
        "$f($prefix, $($key, $val),*);",
        &java_lang(),
    )
    .unwrap();
    assert_eq!(matches.len(), 1);
    assert_eq!(matches[0].captures.get("prefix").map(|s| s.as_str()), Some("name"));
    assert!(matches[0].captures.get("key").unwrap().contains('x'));
    assert!(matches[0].captures.get("val").unwrap().contains('1'));
}

#[test]
fn test_multi_item_preprocess() {
    let ps = preprocess_snippet("$($a, $b),*");
    // Should have both placeholders registered
    assert!(ps.placeholders.contains_key("a"));
    assert!(ps.placeholders.contains_key("b"));
    // Should have a repetition entry (group sentinel)
    assert_eq!(ps.repetitions.len(), 1);
    let (sentinel, info) = &ps.repetitions.entries()[0];
    // sub_sentinels should be non-empty for multi-item
    assert_eq!(info.sub_sentinels.len(), 2);
    assert_eq!(info.sub_sentinels[0], *ps.placeholders.get("a").unwrap());
    assert_eq!(info.sub_sentinels[1], *ps.placeholders.get("b").unwrap());
    assert_eq!(info.kind, RepetitionKind::LastChild);
    // Pattern text should contain the group sentinel
    assert!(ps.pattern_text.contains(sentinel.as_str()));
}

#[test]
fn test_multi_item_single_item_still_works() {
    // A group of one placeholder takes all arguments as one text
    let source = "class A { void m() { f(a, b, c); } }";
    let matches =
        find_snippet_matches(source, "$f($($arg,)*);", &java_lang()).unwrap();
    assert_eq!(matches.len(), 1);
    let cap = matches[0].captures.get("arg").unwrap();
    assert!(cap.contains('a'));
    assert!(cap.contains('b'));
    assert!(cap.contains('c'));
    // Verify single-item uses empty sub_sentinels
    let ps = preprocess_snippet("$($arg,)*");
    let info = &ps.repetitions.entries()[0].1;
    assert!(info.sub_sentinels.is_empty());
}
