//! What the commands of the program decide: the language, the matches, the output.
use crate::query::{query_may_give, try_find_query_matches};
use crate::query_shape::query_bounded;
use crate::search::{
    find_snippet_matches, found, match_models, maybe_found, snippet_may_give, text_model, Match,
    MatchSpec,
};
use crate::text::{
    append_decimal, decimal, first_line, first_line_of, is_text_range, slice_text, text_between,
    texts,
};
use tree_sitter::Language;
use vstd::prelude::*;
use vstd::string::*;

verus! {

/// Some names, with commas between them.
pub open spec fn listed(names: Seq<Seq<char>>) -> Seq<char>
    decreases names.len(),
{
    if names.len() == 0 {
        seq![]
    } else if names.len() == 1 {
        names[0]
    } else {
        listed(names.drop_last()) + ", "@ + names.last()
    }
}

/// The message on a language name that is not known.
pub open spec fn unknown_language(name: Seq<char>, supported: Seq<Seq<char>>) -> Seq<char> {
    "Unknown language '"@ + name + "'. Supported: "@ + listed(supported)
}

/// The message on a file whose name does not tell the language.
pub open spec fn undetected_language(path: Seq<char>) -> Seq<char> {
    "Could not detect language from '"@ + path + "'. Use --language to specify."@
}

/// A language that was looked up, or a message where there is none.
pub open spec fn looked_up<L>(language: Option<L>, message: Seq<char>) -> Result<L, Seq<char>> {
    match language {
        Some(l) => Ok(l),
        None => Err(message),
    }
}

/// The model of a result with a message as its error.
pub open spec fn with_message<L>(r: Result<L, String>) -> Result<L, Seq<char>> {
    match r {
        Ok(l) => Ok(l),
        Err(message) => Err(message@),
    }
}

/// Puts some names together, with commas between them.
fn list_names(names: &Vec<String>) -> (r: String)
    ensures
        r@ == listed(texts(names@)),
{
    let ghost all = texts(names@);
    let mut r = String::new();
    let mut i: usize = 0;
    assert(r@ =~= listed(all.take(0)));
    while i < names.len()
        invariant
            i <= names@.len(),
            all == texts(names@),
            r@ == listed(all.take(i as int)),
        decreases names.len() - i,
    {
        proof {
            assert(all.take(i + 1).drop_last() =~= all.take(i as int));
            assert(all.take(i + 1).last() == names@[i as int]@);
        }
        if i > 0 {
            r.append(", ");
        }
        r.append(names[i].as_str());
        assert(r@ =~= listed(all.take(i + 1)));
        i = i + 1;
    }
    assert(all.take(i as int) =~= all);
    r
}

/// Finds the language to use: the one that is asked for by name, or else the one that the name
/// of the file tells. `from_name` and `from_extension` look a language up.
pub fn resolve_lang<L, N: Fn(&str) -> Option<L>, E: Fn(&str) -> Option<L>>(
    lang_opt: &Option<String>,
    file: Option<&str>,
    from_name: N,
    from_extension: E,
    supported: &Vec<String>,
) -> (r: Result<L, String>)
    requires
        forall|name: &str| call_requires(from_name, (name,)),
        forall|path: &str| call_requires(from_extension, (path,)),
    ensures
        lang_opt matches Some(name) ==> exists|asked: &str, l: Option<L>|
            asked@ == name@ && #[trigger] call_ensures(from_name, (asked,), l) && with_message(r)
                == looked_up(l, unknown_language(name@, texts(supported@))),
        lang_opt is None ==> match file {
            Some(path) => exists|l: Option<L>| #[trigger]
                call_ensures(from_extension, (path,), l) && with_message(r) == looked_up(
                    l,
                    undetected_language(path@),
                ),
            None => with_message(r) == Err::<L, Seq<char>>(
                "Could not detect language. Use --language when reading from stdin."@,
            ),
        },
{
    if let Some(name) = lang_opt {
        match from_name(name.as_str()) {
            Some(l) => Ok(l),
            None => {
                let mut message = "Unknown language '".to_owned();
                message.append(name.as_str());
                message.append("'. Supported: ");
                message.append(list_names(supported).as_str());
                Err(message)
            },
        }
    } else if let Some(path) = file {
        match from_extension(path) {
            Some(l) => Ok(l),
            None => {
                let mut message = "Could not detect language from '".to_owned();
                message.append(path);
                message.append("'. Use --language to specify.");
                Err(message)
            },
        }
    } else {
        Err("Could not detect language. Use --language when reading from stdin.".to_owned())
    }
}

/// There is either a pattern or a query, not both.
pub open spec fn one_selector(pattern: Option<String>, query: Option<String>) -> bool {
    pattern is Some <==> query is None
}

/// The search for a pattern or with a query may come to `r`. It is `None` where the search cannot
/// be made: where the query cannot be handed to the compiler, or a tree for the pattern is not
/// laid out on its text.
pub open spec fn search_may_give(
    source: Seq<char>,
    pattern: Option<Seq<char>>,
    query: Option<Seq<char>>,
    lang: Language,
    r: Option<Result<Seq<MatchSpec>, Seq<char>>>,
) -> bool {
    match pattern {
        Some(snippet) => snippet_may_give(source, snippet, lang, r),
        None => {
            &&& r is Some <==> query_bounded(query->0)
            &&& r matches Some(result) ==> query_may_give(source, query->0, lang, result)
        },
    }
}

/// Finds the matches of a pattern or a query, or `None` where the search cannot be made.
pub fn get_matches(
    source: &str,
    pattern: &Option<String>,
    query: &Option<String>,
    lang: &Language,
) -> (r: Option<Result<Vec<Match>, String>>)
    requires
        one_selector(*pattern, *query),
    ensures
        search_may_give(
            source@,
            text_model(*pattern),
            text_model(*query),
            *lang,
            maybe_found(r),
        ),
{
    match (pattern, query) {
        (Some(p), None) => find_snippet_matches(source, p.as_str(), lang),
        (None, Some(q)) => try_find_query_matches(source, q.as_str(), lang),
        _ => None,
    }
}

/// Every match spans whole characters of the source.
pub open spec fn within_text(matches: Seq<MatchSpec>, source: Seq<char>) -> bool {
    forall|i: int|
        0 <= i < matches.len() ==> is_text_range(
            source,
            (#[trigger] matches[i]).start_byte as int,
            matches[i].end_byte as int,
        )
}

/// What stands in front of each line of output about a file.
pub open spec fn prefix(file: Option<Seq<char>>) -> Seq<char> {
    match file {
        Some(name) => name + ":"@,
        None => seq![],
    }
}

/// The line of output about a match: its row, counted from one, its column, counted from
/// zero, and the first line of its text.
pub open spec fn result_line(m: MatchSpec, file: Option<Seq<char>>, source: Seq<char>) -> Seq<char> {
    prefix(file) + decimal((m.start_point.row + 1) as nat) + ":"@ + decimal(
        m.start_point.column as nat,
    ) + ": "@ + first_line(text_between(source, m.start_byte as int, m.end_byte as int))
}

/// The lines of output about some matches.
pub open spec fn result_lines(
    matches: Seq<MatchSpec>,
    file: Option<Seq<char>>,
    source: Seq<char>,
) -> Seq<Seq<char>> {
    matches.map_values(|m: MatchSpec| result_line(m, file, source))
}

/// The model of an optional file name.
pub open spec fn name_model(file: Option<&str>) -> Option<Seq<char>> {
    match file {
        Some(name) => Some(name@),
        None => None,
    }
}

/// Whether every match spans whole characters of the source.
pub fn check_ranges(matches: &Vec<Match>, source: &str) -> (r: bool)
    ensures
        r == within_text(match_models(matches@), source@),
{
    let ghost all = match_models(matches@);
    let len = source.as_bytes().len();
    let mut i: usize = 0;
    while i < matches.len()
        invariant
            i <= matches@.len(),
            all == match_models(matches@),
            len == vstd::utf8::encode_utf8(source@).len(),
            forall|j: int|
                0 <= j < i ==> is_text_range(
                    source@,
                    (#[trigger] all[j]).start_byte as int,
                    all[j].end_byte as int,
                ),
        decreases matches.len() - i,
    {
        let m = &matches[i];
        assert(all[i as int] == m@);
        if !(m.start_byte <= m.end_byte && m.end_byte <= len) || !source.is_char_boundary(
            m.start_byte,
        ) || !source.is_char_boundary(m.end_byte) {
            return false;
        }
        i = i + 1;
    }
    true
}

/// The lines of output about some matches.
pub fn find_results(matches: &Vec<Match>, file: Option<&str>, source: &str) -> (r: Vec<String>)
    requires
        within_text(match_models(matches@), source@),
    ensures
        texts(r@) == result_lines(match_models(matches@), name_model(file), source@),
{
    let ghost all = match_models(matches@);
    let ghost lines = result_lines(all, name_model(file), source@);
    let mut r: Vec<String> = Vec::new();
    let mut i: usize = 0;
    while i < matches.len()
        invariant
            i <= matches@.len(),
            all == match_models(matches@),
            lines == result_lines(all, name_model(file), source@),
            within_text(all, source@),
            texts(r@) == lines.take(i as int),
        decreases matches.len() - i,
    {
        let m = &matches[i];
        assert(all[i as int] == m@);
        let mut line = String::new();
        if let Some(name) = file {
            line.append(name);
            line.append(":");
        }
        assert(line@ =~= prefix(name_model(file)));
        append_decimal(&mut line, m.start_point.row as u128 + 1);
        line.append(":");
        append_decimal(&mut line, m.start_point.column as u128);
        line.append(": ");
        line.append(first_line_of(slice_text(source, m.start_byte, m.end_byte)).as_str());
        assert(line@ =~= lines[i as int]);
        let ghost before = texts(r@);
        r.push(line);
        i = i + 1;
        proof {
            assert(texts(r@) =~= before.push(line@));
            assert(lines.take(i as int) =~= before.push(lines[i - 1]));
        }
    }
    assert(lines.take(i as int) =~= lines);
    r
}

/// The inputs of a command: each of the files, or the standard input, as `None`, where no file
/// is given.
pub open spec fn input_names(files: Seq<Seq<char>>) -> Seq<Option<Seq<char>>> {
    if files.len() == 0 {
        seq![None]
    } else {
        files.map_values(|file: Seq<char>| Some(file))
    }
}

/// The inputs of a command, in order.
pub fn inputs<'a>(files: &'a Vec<String>) -> (r: Vec<Option<&'a str>>)
    ensures
        r@.map_values(|file: Option<&str>| name_model(file)) == input_names(texts(files@)),
{
    let mut r: Vec<Option<&'a str>> = Vec::new();
    if files.len() == 0 {
        r.push(None);
        assert(r@.map_values(|file: Option<&str>| name_model(file)) =~= seq![None]);
        return r;
    }
    let mut i: usize = 0;
    while i < files.len()
        invariant
            i <= files@.len(),
            r@.len() == i,
            forall|j: int| 0 <= j < i ==> name_model(#[trigger] r@[j]) == Some(files@[j]@),
        decreases files.len() - i,
    {
        r.push(Some(files[i].as_str()));
        i = i + 1;
    }
    assert(r@.map_values(|file: Option<&str>| name_model(file)) =~= input_names(texts(files@)));
    r
}

/// The file name to show with the results: none where there is only one file.
pub open spec fn shown<T>(file: Option<T>, files: nat) -> Option<T> {
    if files > 1 {
        file
    } else {
        None
    }
}

/// The output about the outcome of a search: `None` where the search cannot be made, or a match
/// does not span whole characters of the source.
pub open spec fn find_output(
    outcome: Option<Result<Seq<MatchSpec>, Seq<char>>>,
    file: Option<Seq<char>>,
    source: Seq<char>,
) -> Option<Result<Seq<Seq<char>>, Seq<char>>> {
    match outcome {
        Some(Ok(matches)) => if within_text(matches, source) {
            Some(Ok(result_lines(matches, file, source)))
        } else {
            None
        },
        Some(Err(message)) => Some(Err(message)),
        None => None,
    }
}

/// The model of some lines of output, or of a message, if there is output.
pub open spec fn output_model(r: Option<Result<Vec<String>, String>>) -> Option<
    Result<Seq<Seq<char>>, Seq<char>>,
> {
    match r {
        Some(Ok(lines)) => Some(Ok(texts(lines@))),
        Some(Err(message)) => Some(Err(message@)),
        None => None,
    }
}

/// Makes the lines of output about the outcome of a search in one of `files` files, or in the
/// standard input where `file` is `None`.
pub fn show_matches(
    outcome: Option<Result<Vec<Match>, String>>,
    file: Option<&str>,
    files: usize,
    source: &str,
) -> (r: Option<Result<Vec<String>, String>>)
    ensures
        output_model(r) == find_output(
            maybe_found(outcome),
            shown(name_model(file), files as nat),
            source@,
        ),
{
    match outcome {
        Some(Ok(matches)) => {
            if !check_ranges(&matches, source) {
                return None;
            }
            let prefix = if files > 1 {
                file
            } else {
                None
            };
            Some(Ok(find_results(&matches, prefix, source)))
        },
        Some(Err(message)) => Some(Err(message)),
        None => None,
    }
}

/// Searches one of `files` files, or the standard input where `file` is `None`, and makes the
/// lines of output.
pub fn cmd_find(
    pattern: &Option<String>,
    query: &Option<String>,
    file: Option<&str>,
    files: usize,
    lang: &Language,
    source: &str,
) -> (r: Option<Result<Vec<String>, String>>)
    requires
        one_selector(*pattern, *query),
    ensures
        exists|outcome: Option<Result<Seq<MatchSpec>, Seq<char>>>| #[trigger]
            search_may_give(
                source@,
                text_model(*pattern),
                text_model(*query),
                *lang,
                outcome,
            ) && output_model(r) == find_output(
                outcome,
                shown(name_model(file), files as nat),
                source@,
            ),
{
    let outcome = get_matches(source, pattern, query, lang);
    show_matches(outcome, file, files, source)
}

/// The model of an edited text, or a message.
pub open spec fn edited(r: Result<String, String>) -> Result<Seq<char>, Seq<char>> {
    match r {
        Ok(text) => Ok(text@),
        Err(message) => Err(message@),
    }
}

/// The result `r` is what editing the matches of a search comes to: the message of a search
/// that failed, a message that there are no matches, or what the edit of the matches returns.
pub open spec fn edits_to<F: Fn(&Vec<Match>) -> Result<String, String>>(
    outcome: Result<Seq<MatchSpec>, Seq<char>>,
    edit: F,
    r: Result<String, String>,
) -> bool {
    match outcome {
        Err(message) => edited(r) == Err::<Seq<char>, Seq<char>>(message),
        Ok(matches) => if matches.len() == 0 {
            edited(r) == Err::<Seq<char>, Seq<char>>("No matches found"@)
        } else {
            exists|m: &Vec<Match>|
                match_models(m@) == matches && #[trigger] call_ensures(edit, (m,), r)
        },
    }
}

/// Edits the matches of a search.
pub fn edit_matches<F: Fn(&Vec<Match>) -> Result<String, String>>(
    matches: Result<Vec<Match>, String>,
    edit: F,
) -> (r: Result<String, String>)
    requires
        forall|m: &Vec<Match>| m@.len() > 0 ==> #[trigger] call_requires(edit, (m,)),
    ensures
        edits_to(found(matches), edit, r),
{
    match matches {
        Err(message) => Err(message),
        Ok(matches) => {
            if matches.len() == 0 {
                return Err("No matches found".to_owned());
            }
            edit(&matches)
        },
    }
}

/// Searches a source text and edits the matches; `edit` makes the edited text. `None` where
/// the search cannot be made.
pub fn process_edit<F: Fn(&Vec<Match>) -> Result<String, String>>(
    source: &str,
    pattern: &Option<String>,
    query: &Option<String>,
    lang: &Language,
    edit: F,
) -> (r: Option<Result<String, String>>)
    requires
        one_selector(*pattern, *query),
        forall|m: &Vec<Match>| m@.len() > 0 ==> #[trigger] call_requires(edit, (m,)),
    ensures
        exists|outcome: Option<Result<Seq<MatchSpec>, Seq<char>>>| #[trigger]
            search_may_give(
                source@,
                text_model(*pattern),
                text_model(*query),
                *lang,
                outcome,
            ) && (r is Some <==> outcome is Some) && (r matches Some(result) ==> edits_to(
                outcome->0,
                edit,
                result,
            )),
{
    let outcome = get_matches(source, pattern, query, lang);
    let ghost found_model = maybe_found(outcome);
    assert(search_may_give(
        source@,
        text_model(*pattern),
        text_model(*query),
        *lang,
        found_model,
    ));
    match outcome {
        Some(matches) => Some(edit_matches(matches, edit)),
        None => None,
    }
}

/// What is to be done about a file once the edit is made.
#[derive(Debug)]
pub enum EditAction {
    /// Print to the standard output.
    Print(String),
    /// Write the file anew.
    Write(String),
    /// Print a line to the standard error, and go on with the next file.
    Report(String),
    /// Stop with a message.
    Fail(String),
}

/// The model of an action.
pub enum EditActionSpec {
    Print(Seq<char>),
    Write(Seq<char>),
    Report(Seq<char>),
    Fail(Seq<char>),
}

impl View for EditAction {
    type V = EditActionSpec;

    open spec fn view(&self) -> EditActionSpec {
        match self {
            EditAction::Print(text) => EditActionSpec::Print(text@),
            EditAction::Write(text) => EditActionSpec::Write(text@),
            EditAction::Report(text) => EditActionSpec::Report(text@),
            EditAction::Fail(text) => EditActionSpec::Fail(text@),
        }
    }
}

/// What is to be done with the outcome of an edit. An edit of the standard input that fails
/// ends the program; that of a file is reported under the file's name. Of several files, each
/// is printed under a heading.
pub open spec fn edit_action(
    file: Option<Seq<char>>,
    files: nat,
    in_place: bool,
    outcome: Result<Seq<char>, Seq<char>>,
) -> EditActionSpec {
    match (file, outcome) {
        (None, Ok(text)) => EditActionSpec::Print(text),
        (None, Err(message)) => EditActionSpec::Fail(message),
        (Some(name), Err(message)) => EditActionSpec::Report(name + ": "@ + message),
        (Some(name), Ok(text)) => if in_place {
            EditActionSpec::Write(text)
        } else if files > 1 {
            EditActionSpec::Print("==> "@ + name + " <==\n"@ + text + "\n"@)
        } else {
            EditActionSpec::Print(text)
        },
    }
}

/// Refuses to edit the standard input in place.
pub fn check_in_place(files: usize, in_place: bool) -> (r: Result<(), String>)
    ensures
        r is Err <==> files == 0 && in_place,
        r matches Err(message) ==> message@ == "Cannot use --in-place without files"@,
{
    if files == 0 && in_place {
        Err("Cannot use --in-place without files".to_owned())
    } else {
        Ok(())
    }
}

/// What is to be done with the outcome of the edit of one of `files` files, or of the standard
/// input where `file` is `None`.
pub fn cmd_edit(
    file: Option<&str>,
    files: usize,
    in_place: bool,
    outcome: Result<String, String>,
) -> (r: EditAction)
    ensures
        r@ == edit_action(name_model(file), files as nat, in_place, edited(outcome)),
{
    match (file, outcome) {
        (None, Ok(text)) => EditAction::Print(text),
        (None, Err(message)) => EditAction::Fail(message),
        (Some(name), Err(message)) => {
            let mut line = name.to_owned();
            line.append(": ");
            line.append(message.as_str());
            EditAction::Report(line)
        },
        (Some(name), Ok(text)) => {
            if in_place {
                return EditAction::Write(text);
            }
            if files > 1 {
                let mut all = "==> ".to_owned();
                all.append(name);
                all.append(" <==\n");
                all.append(text.as_str());
                all.append("\n");
                return EditAction::Print(all);
            }
            EditAction::Print(text)
        },
    }
}

} // verus!
