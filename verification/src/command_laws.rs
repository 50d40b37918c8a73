//! Laws of what the commands put out.
use crate::command::{
    edit_action, edited, edits_to, find_output, input_names, listed, looked_up, name_model,
    output_model, result_line, result_lines, search_may_give, shown, undetected_language,
    unknown_language, EditAction, EditActionSpec,
};
use crate::query::query_may_give;
use crate::query_shape::query_bounded;
use crate::search::{match_models, maybe_found, snippet_may_give, text_model, Match, MatchSpec};
use crate::search_laws::law_snippet_within_source;
use crate::text::{decimal, digit, first_line, is_text_range, text_between, texts};
use tree_sitter::Language;
use vstd::prelude::*;

verus! {

/// The matches of a snippet can always be shown.
pub proof fn law_snippet_shows(
    source: Seq<char>,
    snippet: Seq<char>,
    lang: Language,
    r: Option<Result<Seq<MatchSpec>, Seq<char>>>,
    file: Option<Seq<char>>,
)
    requires
        snippet_may_give(source, snippet, lang, r),
    ensures
        find_output(r, file, source) is Some <==> r is Some,
{
    if let Some(Ok(matches)) = r {
        assert forall|i: int| 0 <= i < matches.len() implies is_text_range(
            source,
            (#[trigger] matches[i]).start_byte as int,
            matches[i].end_byte as int,
        ) by {
            law_snippet_within_source(source, snippet, lang, matches, i);
        }
    }
}

proof fn lemma_decimal_digits(n: nat)
    ensures
        forall|i: int| 0 <= i < decimal(n).len() ==> '0' <= #[trigger] decimal(n)[i] <= '9',
    decreases n,
{
    if n >= 10 {
        lemma_decimal_digits(n / 10);
    }
    assert('0' <= digit(n % 10) <= '9');
    assert forall|i: int| 0 <= i < decimal(n).len() implies '0' <= #[trigger] decimal(n)[i]
        <= '9' by {
        if n >= 10 && i < decimal(n / 10).len() {
            assert(decimal(n)[i] == decimal(n / 10)[i]);
        } else {
            assert(decimal(n)[i] == digit(n % 10));
        }
    }
}

/// The output about a match is one line.
pub proof fn law_result_is_one_line(m: MatchSpec, file: Option<Seq<char>>, source: Seq<char>)
    requires
        file matches Some(name) ==> !name.contains('\n'),
    ensures
        !result_line(m, file, source).contains('\n'),
{
    lemma_decimal_digits((m.start_point.row + 1) as nat);
    lemma_decimal_digits(m.start_point.column as nat);
    reveal_strlit(":");
    reveal_strlit(": ");
    let text = text_between(source, m.start_byte as int, m.end_byte as int);
    assert(!first_line(text).contains('\n')) by {
        if text.contains('\n') {
            text.index_of_first_ensures('\n');
        }
    }
}

/// There is one line of output for each match.
pub proof fn law_one_line_each(
    matches: Seq<MatchSpec>,
    file: Option<Seq<char>>,
    source: Seq<char>,
    i: int,
)
    requires
        0 <= i < matches.len(),
    ensures
        result_lines(matches, file, source).len() == matches.len(),
        result_lines(matches, file, source)[i] == result_line(matches[i], file, source),
{
}

/// Only a file is ever written, only in place, and only where the edit succeeded.
pub proof fn law_writes_in_place_only(
    file: Option<Seq<char>>,
    files: nat,
    in_place: bool,
    outcome: Result<Seq<char>, Seq<char>>,
)
    ensures
        edit_action(file, files, in_place, outcome) is Write <==> file is Some && in_place
            && outcome is Ok,
        edit_action(file, files, in_place, outcome) is Fail <==> file is None && outcome is Err,
        edit_action(file, files, in_place, outcome) is Report <==> file is Some && outcome is Err,
{
}

/// Names are listed in order, with a comma and a space between one and the next.
pub proof fn law_listed(names: Seq<Seq<char>>, name: Seq<char>)
    ensures
        listed(seq![]).len() == 0,
        listed(seq![name]) == name,
        names.len() > 0 ==> listed(names.push(name)) == listed(names) + ", "@ + name,
{
    assert(names.push(name).drop_last() =~= names);
}

/// The messages about a language that cannot be found.
pub proof fn law_language_messages(name: Seq<char>, supported: Seq<Seq<char>>)
    ensures
        unknown_language(name, supported) == "Unknown language '"@ + name + "'. Supported: "@
            + listed(supported),
        undetected_language(name) == "Could not detect language from '"@ + name
            + "'. Use --language to specify."@,
{
}

/// A language that is found is used; where none is found, there is a message.
pub proof fn law_looked_up<L>(language: Option<L>, message: Seq<char>)
    ensures
        language matches Some(l) ==> looked_up(language, message) == Ok::<L, Seq<char>>(l),
        language is None ==> looked_up(language, message) == Err::<L, Seq<char>>(message),
{
}

/// A line of output begins with the file name, if there is one, and goes on with the row, counted
/// from one, the column, and the first line of the text of the match.
pub proof fn law_result_line(m: MatchSpec, file: Option<Seq<char>>, source: Seq<char>)
    ensures
        ({
            let where_and_what = decimal((m.start_point.row + 1) as nat) + ":"@ + decimal(
                m.start_point.column as nat,
            ) + ": "@ + first_line(
                text_between(source, m.start_byte as int, m.end_byte as int),
            );
            &&& file is None ==> result_line(m, file, source) == where_and_what
            &&& file matches Some(name) ==> result_line(m, file, source) == name + ":"@
                + where_and_what
        }),
{
    let text = first_line(text_between(source, m.start_byte as int, m.end_byte as int));
    let row = decimal((m.start_point.row + 1) as nat);
    let column = decimal(m.start_point.column as nat);
    let rest = row + ":"@ + column + ": "@ + text;
    if let Some(name) = file {
        assert(result_line(m, file, source) =~= name + ":"@ + rest);
    } else {
        assert(result_line(m, file, source) =~= rest);
    }
}

/// The file name is shown where there are several files.
pub proof fn law_shown<T>(file: Option<T>, files: nat)
    ensures
        files >= 2 ==> shown(file, files) == file,
        files <= 1 ==> shown(file, files) is None,
{
}

/// What a search comes to is put out: a line for each match, or its message. Nothing is put out
/// where the search was not made, or a match lies outside the text.
pub proof fn law_find_output(
    outcome: Option<Result<Seq<MatchSpec>, Seq<char>>>,
    file: Option<Seq<char>>,
    source: Seq<char>,
)
    ensures
        ({
            let r = find_output(outcome, file, source);
            &&& outcome is None ==> r is None
            &&& outcome matches Some(Err(message)) ==> r == Some(
                Err::<Seq<Seq<char>>, Seq<char>>(message),
            )
            &&& outcome matches Some(Ok(matches)) ==> {
                let inside = forall|i: int|
                    0 <= i < matches.len() ==> is_text_range(
                        source,
                        (#[trigger] matches[i]).start_byte as int,
                        matches[i].end_byte as int,
                    );
                &&& !inside ==> r is None
                &&& inside ==> r == Some(
                    Ok::<Seq<Seq<char>>, Seq<char>>(result_lines(matches, file, source)),
                )
            }
        }),
{
}

/// What is done with an edited text: the standard input is printed; a file is written in place,
/// or printed, under a heading where there are several. What fails is reported under the name of
/// the file, or ends the program.
pub proof fn law_edit_action(
    name: Seq<char>,
    files: nat,
    in_place: bool,
    text: Seq<char>,
)
    ensures
        edit_action(None, files, in_place, Ok(text)) == EditActionSpec::Print(text),
        edit_action(None, files, in_place, Err(text)) == EditActionSpec::Fail(text),
        edit_action(Some(name), files, in_place, Err(text)) == EditActionSpec::Report(
            name + ": "@ + text,
        ),
        edit_action(Some(name), files, true, Ok(text)) == EditActionSpec::Write(text),
        files <= 1 ==> edit_action(Some(name), files, false, Ok(text)) == EditActionSpec::Print(
            text,
        ),
        files >= 2 ==> edit_action(Some(name), files, false, Ok(text)) == EditActionSpec::Print(
            "==> "@ + name + " <==\n"@ + text + "\n"@,
        ),
{
}

/// The inputs are the files in order, or the standard input where there are none.
pub proof fn law_inputs(files: Seq<Seq<char>>)
    ensures
        files.len() == 0 ==> input_names(files) == seq![None::<Seq<char>>],
        files.len() > 0 ==> input_names(files).len() == files.len(),
        forall|i: int| 0 <= i < files.len() ==> #[trigger] input_names(files)[i] == Some(files[i]),
{
}

/// An edit comes to the message of a search that failed, to a message where nothing was found,
/// and else to what editing the matches returns.
pub proof fn law_edits_to<F: Fn(&Vec<Match>) -> Result<String, String>>(
    outcome: Result<Seq<MatchSpec>, Seq<char>>,
    edit: F,
    r: Result<String, String>,
)
    requires
        edits_to(outcome, edit, r),
    ensures
        outcome matches Err(message) ==> r is Err && r->Err_0@ == message,
        outcome is Ok && outcome->Ok_0.len() == 0 ==> r is Err && r->Err_0@ == "No matches found"@,
        outcome is Ok && outcome->Ok_0.len() > 0 ==> exists|m: &Vec<Match>|
            m@.len() == outcome->Ok_0.len() && (forall|i: int|
                0 <= i < m@.len() ==> (#[trigger] m@[i])@ == outcome->Ok_0[i])
                && #[trigger] call_ensures(edit, (m,), r),
{
    if let Ok(matches) = outcome {
        if matches.len() > 0 {
            let m = choose|m: &Vec<Match>|
                match_models(m@) == matches && #[trigger] call_ensures(edit, (m,), r);
            assert forall|i: int| 0 <= i < matches.len() implies (#[trigger] m@[i])@
                == matches[i] by {
                assert(match_models(m@)[i] == m@[i]@);
            }
        }
    }
}

/// A search is for a pattern, where there is one, and else with the query. With a query it is made
/// where the query may be compiled.
pub proof fn law_selector(
    source: Seq<char>,
    pattern: Option<Seq<char>>,
    query: Option<Seq<char>>,
    lang: Language,
    r: Option<Result<Seq<MatchSpec>, Seq<char>>>,
)
    requires
        search_may_give(source, pattern, query, lang, r),
    ensures
        pattern matches Some(snippet) ==> snippet_may_give(source, snippet, lang, r),
        pattern is None && query is Some ==> (r is Some <==> query_bounded(query->0)),
        pattern is None && query is Some && r is Some ==> query_may_give(
            source,
            query->0,
            lang,
            r->0,
        ),
{
}

/// The models of optional values and of results hold what these hold.
pub proof fn law_models_of_values(
    text: Option<String>,
    file: Option<&str>,
    edit: Result<String, String>,
    lines: Option<Result<Vec<String>, String>>,
    search: Option<Result<Vec<Match>, String>>,
)
    ensures
        text_model(text) is Some <==> text is Some,
        text matches Some(t) ==> text_model(text) == Some(t@),
        name_model(file) is Some <==> file is Some,
        file matches Some(name) ==> name_model(file) == Some(name@),
        edit matches Ok(t) ==> edited(edit) == Ok::<Seq<char>, Seq<char>>(t@),
        edit matches Err(t) ==> edited(edit) == Err::<Seq<char>, Seq<char>>(t@),
        output_model(lines) is Some <==> lines is Some,
        lines matches Some(Ok(l)) ==> output_model(lines) == Some(
            Ok::<Seq<Seq<char>>, Seq<char>>(texts(l@)),
        ),
        lines matches Some(Err(t)) ==> output_model(lines) == Some(
            Err::<Seq<Seq<char>>, Seq<char>>(t@),
        ),
        maybe_found(search) is Some <==> search is Some,
        search matches Some(Ok(m)) ==> maybe_found(search) == Some(
            Ok::<Seq<MatchSpec>, Seq<char>>(match_models(m@)),
        ),
        search matches Some(Err(t)) ==> maybe_found(search) == Some(
            Err::<Seq<MatchSpec>, Seq<char>>(t@),
        ),
{
}

/// The model of an action is the action on its text.
pub proof fn law_action_view(text: String)
    ensures
        EditAction::Print(text)@ == EditActionSpec::Print(text@),
        EditAction::Write(text)@ == EditActionSpec::Write(text@),
        EditAction::Report(text)@ == EditActionSpec::Report(text@),
        EditAction::Fail(text)@ == EditActionSpec::Fail(text@),
{
}

} // verus!
