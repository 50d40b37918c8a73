use patchwork::command::{
    check_in_place, check_ranges, cmd_edit, cmd_find, edit_matches, find_results, get_matches, inputs,
    process_edit, resolve_lang, show_matches, EditAction,
};
use patchwork::search::Match;
use patchwork::strmap::StrMap;
use patchwork::tree::Point;
use tree_sitter::Language;

fn javascript() -> Language {
    tree_sitter_javascript::LANGUAGE.into()
}

fn text(s: &str) -> Option<String> {
    Some(s.to_string())
}

fn match_between(start: usize, end: usize, row: usize, column: usize) -> Match {
    Match {
        start_byte: start,
        end_byte: end,
        start_point: Point { row, column },
        end_point: Point { row, column },
        captures: StrMap::new(),
    }
}

fn by_name(name: &str) -> Option<u32> {
    if name == "java" { Some(1) } else { None }
}

fn by_extension(path: &str) -> Option<u32> {
    if path.ends_with(".py") { Some(2) } else { None }
}

fn resolve(name: Option<&str>, file: Option<&str>) -> Result<u32, String> {
    let supported = vec!["java".to_string(), "python".to_string(), "javascript".to_string()];
    resolve_lang(&name.map(|n| n.to_string()), file, by_name, by_extension, &supported)
}

#[test]
fn language_by_name_goes_before_the_file() {
    assert_eq!(resolve(Some("java"), Some("a.py")), Ok(1));
    assert_eq!(resolve(Some("java"), None), Ok(1));
}

#[test]
fn unknown_language_lists_the_known_ones() {
    assert_eq!(
        resolve(Some("cobol"), Some("a.py")).unwrap_err(),
        "Unknown language 'cobol'. Supported: java, python, javascript"
    );
    let none: Vec<String> = vec![];
    assert_eq!(
        resolve_lang(&text("x"), None, by_name, by_extension, &none).unwrap_err(),
        "Unknown language 'x'. Supported: "
    );
}

#[test]
fn language_by_file_name() {
    assert_eq!(resolve(None, Some("a.py")), Ok(2));
    assert_eq!(
        resolve(None, Some("a.txt")).unwrap_err(),
        "Could not detect language from 'a.txt'. Use --language to specify."
    );
}

#[test]
fn language_of_the_standard_input_is_not_told() {
    assert_eq!(
        resolve(None, None).unwrap_err(),
        "Could not detect language. Use --language when reading from stdin."
    );
}

#[test]
fn pattern_or_query_selects() {
    let found = get_matches("f(1);", &text("$f($n);"), &None, &javascript()).unwrap().unwrap();
    assert_eq!(found.len(), 1);
    assert_eq!(found[0].captures.len(), 2);
    let found = get_matches("f(1);", &None, &text("(number) @matched"), &javascript()).unwrap().unwrap();
    assert_eq!(found.len(), 1);
    assert!(found[0].captures.is_empty());
}

#[test]
fn ranges_are_checked() {
    assert!(check_ranges(&vec![match_between(0, 3, 0, 0)], "aä"));
    assert!(!check_ranges(&vec![match_between(0, 2, 0, 0)], "aä"));
    assert!(!check_ranges(&vec![match_between(0, 4, 0, 0)], "aä"));
    assert!(!check_ranges(&vec![match_between(1, 0, 0, 0)], "aä"));
    assert!(check_ranges(&vec![], ""));
}

#[test]
fn result_lines_show_the_first_line() {
    let matches = vec![match_between(0, 5, 0, 0), match_between(2, 3, 9, 12)];
    assert_eq!(find_results(&matches, None, "a\nbcd"), vec!["1:0: a", "10:12: b"]);
    assert_eq!(find_results(&matches, Some("x.js"), "a\nbcd"), vec!["x.js:1:0: a", "x.js:10:12: b"]);
}

#[test]
fn find_puts_out_a_line_per_match() {
    let source = "f(1);\n  g(\n2);";
    let lines = cmd_find(&text("$f($n);"), &None, Some("a.js"), 1, &javascript(), source);
    assert_eq!(lines.unwrap().unwrap(), vec!["1:0: f(1);", "2:2: g("]);
    let lines = cmd_find(&text("$f($n);"), &None, Some("a.js"), 2, &javascript(), source);
    assert_eq!(lines.unwrap().unwrap(), vec!["a.js:1:0: f(1);", "a.js:2:2: g("]);
    let lines = cmd_find(&None, &text("(number) @n"), None, 0, &javascript(), source);
    assert_eq!(lines.unwrap().unwrap(), vec!["1:2: 1", "3:0: 2"]);
}

#[test]
fn searches_that_cannot_be_made_show_nothing() {
    let r = cmd_find(&None, &text("((\"if\")?)+ @x"), None, 0, &javascript(), "f();");
    assert!(r.is_none());
    assert!(show_matches(None, None, 0, "f();").is_none());
    let outside = Some(Ok(vec![match_between(0, 9, 0, 0)]));
    assert!(show_matches(outside, None, 0, "f();").is_none());
    let inside = Some(Ok(vec![match_between(0, 3, 0, 0)]));
    assert_eq!(show_matches(inside, None, 0, "f();").unwrap().unwrap(), vec!["1:0: f()"]);
}

#[test]
fn find_hands_on_errors() {
    let r = cmd_find(&text("f("), &None, None, 0, &javascript(), "f();");
    assert_eq!(r.unwrap().unwrap_err(), "Snippet contains syntax errors");
}

#[test]
fn edit_without_matches_is_an_error() {
    let edit = |_: &Vec<Match>| -> Result<String, String> { Ok("edited".to_string()) };
    let r = process_edit("f(1);", &text("g(1);"), &None, &javascript(), edit);
    assert_eq!(r.unwrap().unwrap_err(), "No matches found");
    assert_eq!(edit_matches(Ok(vec![]), edit).unwrap_err(), "No matches found");
    assert_eq!(edit_matches(Err("broken".to_string()), edit).unwrap_err(), "broken");
    assert_eq!(edit_matches(Ok(vec![match_between(0, 1, 0, 0)]), edit).unwrap(), "edited");
}

#[test]
fn edit_gets_the_matches() {
    let source = "f(1); f(2);";
    let edit = |matches: &Vec<Match>| -> Result<String, String> {
        let last = &matches[matches.len() - 1];
        Ok(format!("{} {}", matches.len(), &source[last.start_byte..last.end_byte]))
    };
    let r = process_edit(source, &text("f($n);"), &None, &javascript(), edit);
    assert_eq!(r.unwrap().unwrap(), "2 f(2);");
    let fail = |_: &Vec<Match>| -> Result<String, String> { Err("overlap".to_string()) };
    let r = process_edit(source, &text("f($n);"), &None, &javascript(), fail);
    assert_eq!(r.unwrap().unwrap_err(), "overlap");
}

#[test]
fn no_files_mean_the_standard_input() {
    assert_eq!(inputs(&vec![]), vec![None]);
    let files = vec!["a".to_string(), "b".to_string()];
    assert_eq!(inputs(&files), vec![Some("a"), Some("b")]);
}

#[test]
fn standard_input_is_not_edited_in_place() {
    assert_eq!(check_in_place(0, true).unwrap_err(), "Cannot use --in-place without files");
    assert!(check_in_place(0, false).is_ok());
    assert!(check_in_place(1, true).is_ok());
}

fn ok() -> Result<String, String> {
    Ok("text".to_string())
}

fn err() -> Result<String, String> {
    Err("No matches found".to_string())
}

fn shown(action: EditAction) -> String {
    match action {
        EditAction::Print(text) => format!("print {}", text),
        EditAction::Write(text) => format!("write {}", text),
        EditAction::Report(text) => format!("report {}", text),
        EditAction::Fail(text) => format!("fail {}", text),
    }
}

#[test]
fn edited_texts_go_where_they_belong() {
    assert_eq!(shown(cmd_edit(None, 0, false, ok())), "print text");
    assert_eq!(shown(cmd_edit(None, 0, false, err())), "fail No matches found");
    assert_eq!(shown(cmd_edit(Some("a"), 1, false, ok())), "print text");
    assert_eq!(shown(cmd_edit(Some("a"), 1, true, ok())), "write text");
    assert_eq!(shown(cmd_edit(Some("a"), 2, true, ok())), "write text");
    assert_eq!(shown(cmd_edit(Some("a"), 2, false, ok())), "print ==> a <==\ntext\n");
    assert_eq!(shown(cmd_edit(Some("a"), 2, false, err())), "report a: No matches found");
    assert_eq!(shown(cmd_edit(Some("a"), 1, true, err())), "report a: No matches found");
}
