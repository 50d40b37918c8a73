use patchwork::scan::{special_kind, SpecialKind};
use patchwork::snippet::{preprocess_snippet, reverse_placeholder_map, RepetitionKind};

#[test]
fn lone_dollar_signs_are_kept() {
    assert_eq!(preprocess_snippet("$").pattern_text, "$");
    assert_eq!(preprocess_snippet("a $ b").pattern_text, "a $ b");
    assert_eq!(preprocess_snippet("$1").pattern_text, "$1");
    assert_eq!(preprocess_snippet("$$").pattern_text, "$$");
    assert!(preprocess_snippet("$1").placeholders.is_empty());
}

#[test]
fn two_dollar_signs_leave_one() {
    let ps = preprocess_snippet("$$x");
    assert_eq!(ps.pattern_text, "$_pw_1");
    assert_eq!(ps.placeholders.get("x").unwrap(), "_pw_1");
}

#[test]
fn four_dollar_signs_span() {
    let ps = preprocess_snippet("$$$$x");
    assert_eq!(ps.pattern_text, "_pw_multi_1_pw_2");
    assert_eq!(ps.placeholders.get("x").unwrap(), "_pw_2");
}

#[test]
fn unclosed_group_is_literal() {
    assert_eq!(preprocess_snippet("$(abc").pattern_text, "$(abc");
    assert_eq!(preprocess_snippet("$(a(b)").pattern_text, "$(a(b)");
    assert_eq!(preprocess_snippet("$(").pattern_text, "$(");
}

#[test]
fn group_without_operator_is_literal() {
    for snippet in ["$(x)", "$($x) y", "a $(b(c)) d"] {
        let ps = preprocess_snippet(snippet);
        assert_eq!(ps.pattern_text, snippet);
        assert!(ps.placeholders.is_empty());
        assert!(ps.repetitions.is_empty());
    }
}

#[test]
fn group_without_names_is_literal() {
    for snippet in ["$(x),*", "$(),+", "$(abc),* d", "$(a $ b)?"] {
        let ps = preprocess_snippet(snippet);
        assert_eq!(ps.pattern_text, snippet);
        assert!(ps.placeholders.is_empty());
        assert!(ps.repetitions.is_empty());
    }
    let ps = preprocess_snippet("$(x),* $y");
    assert_eq!(ps.pattern_text, "$(x),* _pw_1");
}

#[test]
fn group_separator_runs_to_the_operator() {
    let ps = preprocess_snippet("$($x) and so on ? z");
    assert_eq!(ps.pattern_text, "_pw_1 z");
    let info = ps.repetitions.get("_pw_1").unwrap();
    assert_eq!(info.op, "?");
    assert_eq!(info.kind, RepetitionKind::LastChild);
    assert!(info.sub_sentinels.is_empty());
}

#[test]
fn group_may_nest_parentheses() {
    let ps = preprocess_snippet("$(f($x)),+");
    assert_eq!(ps.pattern_text, "_pw_1");
    assert_eq!(ps.repetitions.get("_pw_1").unwrap().op, "+");
}

#[test]
fn group_names_may_begin_with_a_digit() {
    let ps = preprocess_snippet("$($1x)*");
    assert_eq!(ps.placeholders.get("1x").unwrap(), "_pw_1");
}

#[test]
fn group_of_two_gets_its_own_sentinel() {
    let ps = preprocess_snippet("$a $($a $b)*");
    assert_eq!(ps.pattern_text, "_pw_1 _pw_3");
    let info = ps.repetitions.get("_pw_3").unwrap();
    assert_eq!(info.sub_sentinels, vec!["_pw_1".to_string(), "_pw_2".to_string()]);
    assert_eq!(ps.repetitions.len(), 1);
}

#[test]
fn repeated_name_keeps_its_sentinel() {
    let ps = preprocess_snippet("$x $y $x");
    assert_eq!(ps.pattern_text, "_pw_1 _pw_2 _pw_1");
    assert_eq!(ps.placeholders.len(), 2);
}

#[test]
fn spanning_name_is_bound_anew() {
    let ps = preprocess_snippet("$x $$$x");
    assert_eq!(ps.pattern_text, "_pw_1 _pw_multi_2");
    assert_eq!(ps.placeholders.get("x").unwrap(), "_pw_multi_2");
}

#[test]
fn repeated_specials_get_new_sentinels() {
    let ps = preprocess_snippet("$STMT $STMT $EXPR");
    assert_eq!(ps.pattern_text, "_pw_stmt_1; _pw_stmt_2; _pw_expr_3");
    assert_eq!(ps.placeholders.get("STMT").unwrap(), "_pw_stmt_2");
    assert_eq!(ps.specials.get("_pw_stmt_1"), Some(&SpecialKind::Stmt));
    assert_eq!(ps.specials.len(), 3);
    assert!(ps.repetitions.is_empty());
}

#[test]
fn specials_take_no_constraint() {
    let ps = preprocess_snippet("$EXPR:identifier");
    assert_eq!(ps.pattern_text, "_pw_expr_1:identifier");
    assert!(ps.type_constraints.is_empty());
}

#[test]
fn first_constraint_stands() {
    let ps = preprocess_snippet("$x:identifier $x:number");
    assert_eq!(ps.pattern_text, "_pw_1 _pw_1");
    assert_eq!(ps.type_constraints.get("_pw_1").unwrap(), "identifier");
}

#[test]
fn later_constraint_counts_where_there_was_none() {
    let ps = preprocess_snippet("$x $x:number");
    assert_eq!(ps.type_constraints.get("_pw_1").unwrap(), "number");
}

#[test]
fn colon_behind_a_placeholder_is_dropped() {
    assert_eq!(preprocess_snippet("$x: y").pattern_text, "_pw_1 y");
}

#[test]
fn names_are_ascii_and_text_is_not() {
    let ps = preprocess_snippet("ä$xö");
    assert_eq!(ps.pattern_text, "ä_pw_1ö");
    assert_eq!(ps.placeholders.get("x").unwrap(), "_pw_1");
}

#[test]
fn plain_snippet_is_kept() {
    let ps = preprocess_snippet("if (a) { b(); }");
    assert_eq!(ps.pattern_text, "if (a) { b(); }");
    assert!(ps.placeholders.is_empty());
    assert!(ps.repetitions.is_empty());
    assert!(ps.specials.is_empty());
    assert!(ps.type_constraints.is_empty());
}

#[test]
fn sentinels_are_distinct_and_marked() {
    let ps = preprocess_snippet("$a $b $$$c $BODY $STMT $EXPR $($d $e)* $a");
    let entries = ps.placeholders.entries();
    assert_eq!(entries.len(), 8);
    for i in 0..entries.len() {
        assert!(entries[i].1.starts_with("_pw_"));
        for j in 0..i {
            assert_ne!(entries[i].1, entries[j].1);
        }
    }
}

#[test]
fn reversed_placeholders_lead_back() {
    let ps = preprocess_snippet("$a $b $$$c");
    let names = reverse_placeholder_map(&ps.placeholders);
    assert_eq!(names.len(), 3);
    for (name, sentinel) in ps.placeholders.entries() {
        assert_eq!(names.get(sentinel).unwrap(), name);
    }
}

#[test]
fn special_names() {
    assert_eq!(special_kind("BODY"), Some(SpecialKind::Body));
    assert_eq!(special_kind("STMT"), Some(SpecialKind::Stmt));
    assert_eq!(special_kind("EXPR"), Some(SpecialKind::Expr));
    assert_eq!(special_kind("body"), None);
}
