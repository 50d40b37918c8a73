//! Laws of preprocessing: what each piece of a snippet is turned into.
use crate::scan::{tokens, SpecialKind, TokenSpec};
use crate::scan_laws::{
    is_placeholder_name, is_word, law_read_constrained, law_read_nothing, law_read_placeholder,
    law_read_span,
};
use crate::snippet::{nothing, processed, Progress, RepetitionKind, RepetitionSpec, SnippetSpec};
use crate::text::decimal;
use vstd::prelude::*;

verus! {

/// Preprocessing begins with nothing.
pub proof fn law_begins_with_nothing()
    ensures
        nothing().counter == 0,
        nothing().snippet.pattern_text == Seq::<char>::empty(),
        nothing().snippet.placeholders == Map::<Seq<char>, Seq<char>>::empty(),
        nothing().snippet.repetitions == Map::<Seq<char>, RepetitionSpec>::empty(),
        nothing().snippet.specials == Map::<Seq<char>, SpecialKind>::empty(),
        nothing().snippet.type_constraints == Map::<Seq<char>, Seq<char>>::empty(),
{
}

/// Pieces are turned one after the other: those in front first, then those behind.
pub proof fn law_pieces_in_order(p: Progress, front: Seq<TokenSpec>, piece: TokenSpec)
    ensures
        p.run(seq![]) == p,
        p.run(front.push(piece)) == p.run(front).step(piece),
    decreases front.len(),
{
    assert(front.push(piece).first() == if front.len() == 0 {
        piece
    } else {
        front.first()
    });
    if front.len() == 0 {
        assert(front.push(piece).drop_first() =~= seq![]);
        assert(p.step(piece).run(seq![]) == p.step(piece));
    } else {
        law_pieces_in_order(p.step(front.first()), front.drop_first(), piece);
        assert(front.push(piece).drop_first() =~= front.drop_first().push(piece));
    }
}

/// What is made of a snippet is what is made of all its pieces.
pub proof fn law_processed_is_run(snippet: Seq<char>)
    ensures
        processed(snippet) == nothing().run(tokens(snippet)).snippet,
{
}

/// Text that stands for itself is kept, and changes nothing else.
pub proof fn law_text_kept(p: Progress, text: Seq<char>)
    ensures
        ({
            let r = p.step(TokenSpec::Verbatim(text));
            &&& r.snippet.pattern_text == p.snippet.pattern_text + text
            &&& r.snippet == (SnippetSpec {
                pattern_text: r.snippet.pattern_text,
                ..p.snippet
            })
            &&& r.counter == p.counter
        }),
{
}

/// A placeholder with a new name gets the next number, and its sentinel stands in its place.
pub proof fn law_new_placeholder(p: Progress, name: Seq<char>, constraint: Seq<char>)
    requires
        !p.snippet.placeholders.contains_key(name),
        !p.snippet.type_constraints.contains_key("_pw_"@ + decimal(p.counter + 1)),
    ensures
        ({
            let r = p.step(TokenSpec::Hole { name, constraint });
            let sentinel = "_pw_"@ + decimal(p.counter + 1);
            &&& r.counter == p.counter + 1
            &&& r.snippet.pattern_text == p.snippet.pattern_text + sentinel
            &&& r.snippet.placeholders == p.snippet.placeholders.insert(name, sentinel)
            &&& r.snippet.repetitions == p.snippet.repetitions
            &&& r.snippet.specials == p.snippet.specials
            &&& constraint.len() == 0 ==> r.snippet.type_constraints == p.snippet.type_constraints
            &&& constraint.len() > 0 ==> r.snippet.type_constraints
                == p.snippet.type_constraints.insert(sentinel, constraint)
        }),
{
}

/// A placeholder with a known name keeps its sentinel, and a constraint counts where it is the
/// first.
pub proof fn law_known_placeholder(p: Progress, name: Seq<char>, constraint: Seq<char>)
    requires
        p.snippet.placeholders.contains_key(name),
    ensures
        ({
            let r = p.step(TokenSpec::Hole { name, constraint });
            let sentinel = p.snippet.placeholders[name];
            &&& r.counter == p.counter
            &&& r.snippet.pattern_text == p.snippet.pattern_text + sentinel
            &&& r.snippet.placeholders == p.snippet.placeholders
            &&& r.snippet.repetitions == p.snippet.repetitions
            &&& r.snippet.specials == p.snippet.specials
            &&& constraint.len() == 0 || p.snippet.type_constraints.contains_key(sentinel)
                ==> r.snippet.type_constraints == p.snippet.type_constraints
            &&& constraint.len() > 0 && !p.snippet.type_constraints.contains_key(sentinel)
                ==> r.snippet.type_constraints == p.snippet.type_constraints.insert(
                sentinel,
                constraint,
            )
        }),
{
}

/// A spanning placeholder gets a sentinel of its own, which takes any number of nodes, and is
/// bound to its name, if it has one.
pub proof fn law_spanning_placeholder(p: Progress, name: Seq<char>)
    ensures
        ({
            let r = p.step(TokenSpec::Span { name });
            let sentinel = "_pw_multi_"@ + decimal(p.counter + 1);
            &&& r.counter == p.counter + 1
            &&& r.snippet.pattern_text == p.snippet.pattern_text + sentinel
            &&& r.snippet.placeholders == (if name.len() > 0 {
                p.snippet.placeholders.insert(name, sentinel)
            } else {
                p.snippet.placeholders
            })
            &&& r.snippet.repetitions.dom() == p.snippet.repetitions.dom().insert(sentinel)
            &&& forall|other: Seq<char>| #[trigger]
                p.snippet.repetitions.contains_key(other) && other != sentinel
                    ==> r.snippet.repetitions[other] == p.snippet.repetitions[other]
            &&& r.snippet.repetitions[sentinel].op == "*"@
            &&& r.snippet.repetitions[sentinel].kind == RepetitionKind::MultiChild
            &&& r.snippet.repetitions[sentinel].sub_sentinels.len() == 0
            &&& r.snippet.specials == p.snippet.specials
            &&& r.snippet.type_constraints == p.snippet.type_constraints
        }),
{
}

/// A special placeholder gets a sentinel of its own and is bound to its name. `$BODY` and `$STMT`
/// end in a semicolon, and `$BODY` takes any number of nodes.
pub proof fn law_special_placeholder(p: Progress, kind: SpecialKind)
    ensures
        ({
            let r = p.step(TokenSpec::Special { kind });
            let (prefix, name) = match kind {
                SpecialKind::Body => ("_pw_body_"@, "BODY"@),
                SpecialKind::Stmt => ("_pw_stmt_"@, "STMT"@),
                SpecialKind::Expr => ("_pw_expr_"@, "EXPR"@),
            };
            let sentinel = prefix + decimal(p.counter + 1);
            &&& r.counter == p.counter + 1
            &&& r.snippet.placeholders == p.snippet.placeholders.insert(name, sentinel)
            &&& r.snippet.specials == p.snippet.specials.insert(sentinel, kind)
            &&& kind == SpecialKind::Expr ==> r.snippet.pattern_text == p.snippet.pattern_text
                + sentinel
            &&& kind != SpecialKind::Expr ==> r.snippet.pattern_text == p.snippet.pattern_text + (
            sentinel + ";"@)
            &&& kind != SpecialKind::Body ==> r.snippet.repetitions == p.snippet.repetitions
            &&& kind == SpecialKind::Body ==> r.snippet.repetitions.contains_key(sentinel)
                && r.snippet.repetitions[sentinel].op == "*"@
                && r.snippet.repetitions[sentinel].kind == RepetitionKind::MultiChild
                && r.snippet.repetitions[sentinel].sub_sentinels.len() == 0
            &&& kind == SpecialKind::Body ==> r.snippet.repetitions.remove(sentinel)
                == p.snippet.repetitions.remove(sentinel)
            &&& r.snippet.type_constraints == p.snippet.type_constraints
        }),
{
    let r = p.step(TokenSpec::Special { kind });
    let sentinel = "_pw_body_"@ + decimal(p.counter + 1);
    assert(kind == SpecialKind::Body ==> r.snippet.repetitions.remove(sentinel)
        =~= p.snippet.repetitions.remove(sentinel));
}

/// A repetition of one name stands where the name would stand, and is a repetition of the
/// last child with its operator.
pub proof fn law_single_repetition(p: Progress, name: Seq<char>, op: char)
    ensures
        ({
            let r = p.step(TokenSpec::Group { names: seq![name], op });
            let plain = p.step(TokenSpec::Hole { name, constraint: seq![] });
            let sentinel = plain.snippet.placeholders[name];
            &&& r.counter == plain.counter
            &&& r.snippet.pattern_text == plain.snippet.pattern_text
            &&& r.snippet.placeholders == plain.snippet.placeholders
            &&& r.snippet.specials == plain.snippet.specials
            &&& r.snippet.type_constraints == plain.snippet.type_constraints
            &&& r.snippet.repetitions == p.snippet.repetitions.insert(
                sentinel,
                RepetitionSpec {
                    op: seq![op],
                    kind: RepetitionKind::LastChild,
                    sub_sentinels: seq![],
                },
            )
        }),
{
    let names = seq![name];
    assert(names.drop_last() =~= seq![]);
    assert(p.bind_all(names.drop_last()) == p);
    assert(p.sentinels(names.drop_last()) =~= seq![]);
    assert(p.bind_all(names) == p.bind(name));
    assert(p.sentinels(names)[0] == p.sentinel(name));
}

/// A repetition of several names binds each from left to right, gets a sentinel of its own, and
/// lists the sentinels of the names.
pub proof fn law_group_repetition(p: Progress, names: Seq<Seq<char>>, op: char)
    requires
        names.len() > 1,
    ensures
        ({
            let r = p.step(TokenSpec::Group { names, op });
            let sentinel = "_pw_"@ + decimal(r.counter);
            let info = r.snippet.repetitions[sentinel];
            &&& p.counter < r.counter <= p.counter + names.len() + 1
            &&& r.snippet.pattern_text == p.snippet.pattern_text + sentinel
            &&& r.snippet.repetitions == p.snippet.repetitions.insert(sentinel, info)
            &&& info.op == seq![op]
            &&& info.kind == RepetitionKind::LastChild
            &&& info.sub_sentinels.len() == names.len()
            &&& forall|i: int|
                0 <= i < names.len() ==> r.snippet.placeholders.contains_pair(
                    #[trigger] names[i],
                    info.sub_sentinels[i],
                )
            &&& forall|name: Seq<char>| #[trigger]
                r.snippet.placeholders.contains_key(name) ==> names.contains(name)
                    || p.snippet.placeholders.contains_key(name)
            &&& forall|name: Seq<char>| #[trigger]
                p.snippet.placeholders.contains_key(name) ==> r.snippet.placeholders.contains_pair(
                    name,
                    p.snippet.placeholders[name],
                )
            &&& r.snippet.specials == p.snippet.specials
            &&& r.snippet.type_constraints == p.snippet.type_constraints
        }),
{
    lemma_all_bound(p, names);
}

proof fn lemma_all_bound(p: Progress, names: Seq<Seq<char>>)
    ensures
        ({
            let r = p.bind_all(names);
            &&& p.counter <= r.counter <= p.counter + names.len()
            &&& r.snippet == (SnippetSpec { placeholders: r.snippet.placeholders, ..p.snippet })
            &&& p.sentinels(names).len() == names.len()
            &&& forall|i: int|
                0 <= i < names.len() ==> r.snippet.placeholders.contains_pair(
                    #[trigger] names[i],
                    p.sentinels(names)[i],
                )
            &&& forall|name: Seq<char>| #[trigger]
                r.snippet.placeholders.contains_key(name) ==> names.contains(name)
                    || p.snippet.placeholders.contains_key(name)
            &&& forall|name: Seq<char>| #[trigger]
                p.snippet.placeholders.contains_key(name) ==> r.snippet.placeholders.contains_pair(
                    name,
                    p.snippet.placeholders[name],
                )
        }),
    decreases names.len(),
{
    if names.len() > 0 {
        let front = names.drop_last();
        lemma_all_bound(p, front);
        let q = p.bind_all(front);
        let r = p.bind_all(names);
        assert(r == q.bind(names.last()));
        assert forall|i: int| 0 <= i < names.len() implies r.snippet.placeholders.contains_pair(
            #[trigger] names[i],
            p.sentinels(names)[i],
        ) by {
            if i < front.len() {
                assert(front[i] == names[i]);
                assert(q.snippet.placeholders.contains_key(front[i]));
            }
        }
        assert forall|name: Seq<char>| #[trigger] r.snippet.placeholders.contains_key(
            name,
        ) implies names.contains(name) || p.snippet.placeholders.contains_key(name) by {
            if q.snippet.placeholders.contains_key(name) {
                if front.contains(name) {
                    let k = choose|k: int| 0 <= k < front.len() && front[k] == name;
                    assert(names[k] == name);
                }
            } else {
                assert(names[names.len() - 1] == name);
            }
        }
    }
}

/// A snippet that is one placeholder becomes the first sentinel, whatever the name.
pub proof fn law_one_placeholder(name: Seq<char>)
    requires
        is_placeholder_name(name),
        name != "BODY"@ && name != "STMT"@ && name != "EXPR"@,
    ensures
        ({
            let r = processed(seq!['$'] + name);
            &&& r.pattern_text == "_pw_1"@
            &&& r.placeholders == Map::<Seq<char>, Seq<char>>::empty().insert(name, "_pw_1"@)
            &&& r.repetitions == Map::<Seq<char>, RepetitionSpec>::empty()
            &&& r.specials == Map::<Seq<char>, SpecialKind>::empty()
            &&& r.type_constraints == Map::<Seq<char>, Seq<char>>::empty()
        }),
{
    law_read_placeholder(name, seq![]);
    law_read_nothing();
    let s = seq!['$'] + name;
    assert(s + seq![] =~= s);
    lemma_one_piece(s, TokenSpec::Hole { name, constraint: seq![] });
    law_new_placeholder(nothing(), name, seq![]);
    lemma_first_number();
    assert(seq![] + "_pw_1"@ =~= "_pw_1"@);
}

/// A snippet that is one constrained placeholder becomes the first sentinel, constrained.
pub proof fn law_one_constrained(name: Seq<char>, kind: Seq<char>)
    requires
        is_placeholder_name(name),
        name != "BODY"@ && name != "STMT"@ && name != "EXPR"@,
        is_word(kind),
        kind.len() > 0,
    ensures
        ({
            let r = processed(seq!['$'] + name + seq![':'] + kind);
            &&& r.pattern_text == "_pw_1"@
            &&& r.placeholders == Map::<Seq<char>, Seq<char>>::empty().insert(name, "_pw_1"@)
            &&& r.type_constraints == Map::<Seq<char>, Seq<char>>::empty().insert("_pw_1"@, kind)
            &&& r.repetitions == Map::<Seq<char>, RepetitionSpec>::empty()
            &&& r.specials == Map::<Seq<char>, SpecialKind>::empty()
        }),
{
    law_read_constrained(name, kind, seq![]);
    law_read_nothing();
    let s = seq!['$'] + name + seq![':'] + kind;
    assert(s + seq![] =~= s);
    lemma_one_piece(s, TokenSpec::Hole { name, constraint: kind });
    law_new_placeholder(nothing(), name, kind);
    lemma_first_number();
    assert(seq![] + "_pw_1"@ =~= "_pw_1"@);
}

/// A snippet that is one spanning placeholder becomes the first spanning sentinel.
pub proof fn law_one_span(name: Seq<char>)
    requires
        is_word(name),
        name.len() > 0,
    ensures
        ({
            let r = processed(seq!['$', '$', '$'] + name);
            &&& r.pattern_text == "_pw_multi_1"@
            &&& r.placeholders == Map::<Seq<char>, Seq<char>>::empty().insert(name, "_pw_multi_1"@)
            &&& r.repetitions.contains_key("_pw_multi_1"@)
            &&& r.repetitions["_pw_multi_1"@].kind == RepetitionKind::MultiChild
            &&& r.repetitions["_pw_multi_1"@].op == "*"@
        }),
{
    law_read_span(name, seq![]);
    law_read_nothing();
    let s = seq!['$', '$', '$'] + name;
    assert(s + seq![] =~= s);
    lemma_one_piece(s, TokenSpec::Span { name });
    law_spanning_placeholder(nothing(), name);
    lemma_first_number();
    assert(seq![] + "_pw_multi_1"@ =~= "_pw_multi_1"@);
}

proof fn lemma_one_piece(s: Seq<char>, piece: TokenSpec)
    requires
        tokens(s) == seq![piece] + Seq::<TokenSpec>::empty(),
    ensures
        processed(s) == nothing().step(piece).snippet,
{
    assert(tokens(s) =~= Seq::<TokenSpec>::empty().push(piece));
    law_pieces_in_order(nothing(), seq![], piece);
}

proof fn lemma_first_number()
    ensures
        "_pw_"@ + decimal(1) == "_pw_1"@,
        "_pw_multi_"@ + decimal(1) == "_pw_multi_1"@,
{
    reveal_strlit("_pw_");
    reveal_strlit("_pw_1");
    reveal_strlit("_pw_multi_");
    reveal_strlit("_pw_multi_1");
    assert(decimal(1) =~= seq!['1']);
    assert("_pw_"@ + decimal(1) =~= "_pw_1"@);
    assert("_pw_multi_"@ + decimal(1) =~= "_pw_multi_1"@);
}

} // verus!
