//! What holds of every processed snippet.
use crate::scan::{lemma_scan_advances, scan, tokens, SpecialKind, TokenSpec};
use crate::snippet::{
    any_number, last_child, multi_sentinel, nothing, plain_sentinel, processed, reverses,
    special_name, special_sentinel, Progress, RepetitionKind, RepetitionSpec, SnippetSpec,
};
use crate::text::{decimal, digit};
use vstd::prelude::*;
use vstd::utf8::is_ascii_chars;

verus! {

/// `s` is one of the sentinels that carry the number `n`.
pub open spec fn is_sentinel(s: Seq<char>, n: nat) -> bool {
    ||| s == plain_sentinel(n)
    ||| s == multi_sentinel(n)
    ||| s == special_sentinel(SpecialKind::Body, n)
    ||| s == special_sentinel(SpecialKind::Stmt, n)
    ||| s == special_sentinel(SpecialKind::Expr, n)
}

/// `s` is a sentinel with a number up to `limit`.
pub open spec fn given_out(s: Seq<char>, limit: nat) -> bool {
    exists|n: nat| n <= limit && #[trigger] is_sentinel(s, n)
}

/// Different numbers have different numerals.
pub proof fn lemma_decimal_injective(a: nat, b: nat)
    requires
        decimal(a) == decimal(b),
    ensures
        a == b,
    decreases a,
{
    lemma_decimal_len(a);
    lemma_decimal_len(b);
    assert(decimal(a).last() == decimal(b).last());
    if a >= 10 && b >= 10 {
        assert(decimal(a).drop_last() =~= decimal(a / 10));
        assert(decimal(b).drop_last() =~= decimal(b / 10));
        lemma_decimal_injective(a / 10, b / 10);
        assert(decimal(a).last() == digit(a % 10));
        assert(decimal(b).last() == digit(b % 10));
    }
}

proof fn lemma_decimal_len(n: nat)
    ensures
        decimal(n).len() >= 1,
        n < 10 <==> decimal(n).len() == 1,
        '0' <= decimal(n)[0] && decimal(n)[0] <= '9',
    decreases n,
{
    if n >= 10 {
        lemma_decimal_len(n / 10);
    }
}

proof fn lemma_suffix(prefix: Seq<char>, a: Seq<char>, b: Seq<char>)
    requires
        prefix + a == prefix + b,
    ensures
        a == b,
{
    assert((prefix + a).skip(prefix.len() as int) =~= a);
    assert((prefix + b).skip(prefix.len() as int) =~= b);
}

/// A sentinel carries only one number.
pub proof fn lemma_sentinel_number(s: Seq<char>, a: nat, b: nat)
    requires
        is_sentinel(s, a),
        is_sentinel(s, b),
    ensures
        a == b,
{
    reveal_strlit("_pw_");
    reveal_strlit("_pw_multi_");
    reveal_strlit("_pw_body_");
    reveal_strlit("_pw_stmt_");
    reveal_strlit("_pw_expr_");
    lemma_decimal_len(a);
    lemma_decimal_len(b);
    if s[4] == 'm' {
        lemma_suffix("_pw_multi_"@, decimal(a), decimal(b));
    } else if s[4] == 'b' {
        lemma_suffix("_pw_body_"@, decimal(a), decimal(b));
    } else if s[4] == 's' {
        lemma_suffix("_pw_stmt_"@, decimal(a), decimal(b));
    } else if s[4] == 'e' {
        lemma_suffix("_pw_expr_"@, decimal(a), decimal(b));
    } else {
        lemma_suffix("_pw_"@, decimal(a), decimal(b));
    }
    lemma_decimal_injective(a, b);
}

/// What holds of the state after any number of pieces.
pub open spec fn sound(p: Progress) -> bool {
    let s = p.snippet;
    &&& forall|name: Seq<char>| #[trigger]
        s.placeholders.contains_key(name) ==> given_out(s.placeholders[name], p.counter)
    &&& forall|a: Seq<char>, b: Seq<char>| #[trigger]
        s.placeholders.contains_key(a) && #[trigger] s.placeholders.contains_key(b)
            && s.placeholders[a] == s.placeholders[b] ==> a == b
    &&& forall|k: Seq<char>| #[trigger] s.repetitions.contains_key(k) ==> sound_repetition(s, p.counter, k)
    &&& forall|k: Seq<char>| #[trigger] s.specials.contains_key(k) ==> given_out(k, p.counter)
    &&& forall|k: Seq<char>| #[trigger]
        s.type_constraints.contains_key(k) ==> given_out(k, p.counter)
            && s.type_constraints[k].len() > 0
}

/// A repetition belongs to a sentinel; one over several children takes any number of them.
pub open spec fn sound_repetition(s: SnippetSpec, counter: nat, k: Seq<char>) -> bool {
    let info = s.repetitions[k];
    &&& given_out(k, counter)
    &&& info.kind == RepetitionKind::MultiChild ==> info.op == "*"@
    &&& info.sub_sentinels.len() != 1
    &&& forall|i: int|
        0 <= i < info.sub_sentinels.len() ==> given_out(#[trigger] info.sub_sentinels[i], counter)
}

proof fn lemma_given_out(s: Seq<char>, m: nat, n: nat)
    requires
        given_out(s, m),
        m <= n,
    ensures
        given_out(s, n),
{
    let k = choose|k: nat| k <= m && #[trigger] is_sentinel(s, k);
    assert(k <= n && is_sentinel(s, k));
}

/// What a new number adds has not been given out before.
proof fn lemma_fresh(s: Seq<char>, m: nat)
    requires
        is_sentinel(s, m + 1),
    ensures
        !given_out(s, m),
        given_out(s, m + 1),
{
    if given_out(s, m) {
        let k = choose|k: nat| k <= m && #[trigger] is_sentinel(s, k);
        lemma_sentinel_number(s, k, m + 1);
    }
}

proof fn lemma_counted(p: Progress)
    requires
        sound(p),
    ensures
        sound(p.counted()),
{
    let q = p.counted();
    assert forall|s: Seq<char>| given_out(s, p.counter) implies #[trigger] given_out(s, q.counter) by {
        lemma_given_out(s, p.counter, q.counter);
    }
    assert forall|k: Seq<char>| #[trigger] q.snippet.repetitions.contains_key(k) implies sound_repetition(
        q.snippet,
        q.counter,
        k,
    ) by {
        assert(sound_repetition(p.snippet, p.counter, k));
    }
}

/// Giving a name a sentinel that no other name has.
proof fn lemma_with_placeholder(p: Progress, name: Seq<char>, sentinel: Seq<char>)
    requires
        sound(p),
        given_out(sentinel, p.counter),
        forall|other: Seq<char>| #[trigger]
            p.snippet.placeholders.contains_key(other) ==> p.snippet.placeholders[other] != sentinel,
    ensures
        sound(p.with_placeholder(name, sentinel)),
{
    let q = p.with_placeholder(name, sentinel);
    assert forall|k: Seq<char>| #[trigger] q.snippet.repetitions.contains_key(k) implies sound_repetition(
        q.snippet,
        q.counter,
        k,
    ) by {
        assert(sound_repetition(p.snippet, p.counter, k));
    }
    assert forall|a: Seq<char>, b: Seq<char>| #[trigger]
        q.snippet.placeholders.contains_key(a) && #[trigger] q.snippet.placeholders.contains_key(b)
            && q.snippet.placeholders[a] == q.snippet.placeholders[b] implies a == b by {
        if a != name {
            assert(p.snippet.placeholders.contains_key(a));
        }
        if b != name {
            assert(p.snippet.placeholders.contains_key(b));
        }
    }
}

proof fn lemma_with_repetition(p: Progress, sentinel: Seq<char>, info: RepetitionSpec)
    requires
        sound(p),
        given_out(sentinel, p.counter),
        info.kind == RepetitionKind::MultiChild ==> info.op == "*"@,
        info.sub_sentinels.len() != 1,
        forall|i: int|
            0 <= i < info.sub_sentinels.len() ==> given_out(
                #[trigger] info.sub_sentinels[i],
                p.counter,
            ),
    ensures
        sound(p.with_repetition(sentinel, info)),
{
    let q = p.with_repetition(sentinel, info);
    assert forall|k: Seq<char>| #[trigger] q.snippet.repetitions.contains_key(k) implies sound_repetition(
        q.snippet,
        q.counter,
        k,
    ) by {
        if k != sentinel {
            assert(p.snippet.repetitions.contains_key(k));
            assert(sound_repetition(p.snippet, p.counter, k));
        }
    }
}

/// Text, specials and constraints leave the rest as it is.
proof fn lemma_with_others(
    p: Progress,
    text: Seq<char>,
    sentinel: Seq<char>,
    kind: SpecialKind,
    constraint: Seq<char>,
)
    requires
        sound(p),
    ensures
        sound(p.with_text(text)),
        given_out(sentinel, p.counter) ==> sound(p.with_special(sentinel, kind)),
        given_out(sentinel, p.counter) ==> sound(p.with_constraint(sentinel, constraint)),
{
    assert forall|s: SnippetSpec, k: Seq<char>|
        s.repetitions == p.snippet.repetitions && s.repetitions.contains_key(k) implies #[trigger] sound_repetition(
        s,
        p.counter,
        k,
    ) by {
        assert(p.snippet.repetitions.contains_key(k));
        assert(sound_repetition(p.snippet, p.counter, k));
    }
}

proof fn lemma_bind(p: Progress, name: Seq<char>)
    requires
        sound(p),
    ensures
        sound(p.bind(name)),
        given_out(p.sentinel(name), p.bind(name).counter),
        p.counter <= p.bind(name).counter,
{
    if !p.snippet.placeholders.contains_key(name) {
        let sentinel = plain_sentinel(p.counter + 1);
        lemma_fresh(sentinel, p.counter);
        lemma_counted(p);
        lemma_with_placeholder(p.counted(), name, sentinel);
    }
}

proof fn lemma_bind_all(p: Progress, names: Seq<Seq<char>>)
    requires
        sound(p),
    ensures
        sound(p.bind_all(names)),
        p.counter <= p.bind_all(names).counter,
        p.sentinels(names).len() == names.len(),
        forall|i: int|
            0 <= i < names.len() ==> given_out(
                #[trigger] p.sentinels(names)[i],
                p.bind_all(names).counter,
            ),
    decreases names.len(),
{
    if names.len() > 0 {
        let front = names.drop_last();
        lemma_bind_all(p, front);
        let q = p.bind_all(front);
        lemma_bind(q, names.last());
        assert forall|i: int| 0 <= i < names.len() implies given_out(
            #[trigger] p.sentinels(names)[i],
            p.bind_all(names).counter,
        ) by {
            if i < front.len() {
                assert(p.sentinels(names)[i] == p.sentinels(front)[i]);
                lemma_given_out(p.sentinels(front)[i], q.counter, p.bind_all(names).counter);
            }
        }
    }
}

proof fn lemma_step(p: Progress, token: TokenSpec)
    requires
        sound(p),
    ensures
        sound(p.step(token)),
{
    match token {
        TokenSpec::Verbatim(text) => {
            lemma_with_others(p, text, seq![], SpecialKind::Body, seq![]);
        },
        TokenSpec::Hole { name, constraint } => {
            lemma_bind(p, name);
            let sentinel = p.sentinel(name);
            lemma_with_others(p.bind(name), sentinel, sentinel, SpecialKind::Body, constraint);
            lemma_with_others(
                p.bind(name).with_text(sentinel),
                sentinel,
                sentinel,
                SpecialKind::Body,
                constraint,
            );
        },
        TokenSpec::Group { names, op } => {
            let sub_sentinels = p.sentinels(names);
            let bound = p.bind_all(names);
            lemma_bind_all(p, names);
            if names.len() == 1 {
                let sentinel = sub_sentinels[0];
                let info = last_child(seq![op], seq![]);
                lemma_with_repetition(bound, sentinel, info);
                lemma_with_others(
                    bound.with_repetition(sentinel, info),
                    sentinel,
                    sentinel,
                    SpecialKind::Body,
                    seq![],
                );
            } else {
                let sentinel = plain_sentinel(bound.counter + 1);
                let info = last_child(seq![op], sub_sentinels);
                lemma_fresh(sentinel, bound.counter);
                lemma_counted(bound);
                assert forall|i: int| 0 <= i < info.sub_sentinels.len() implies given_out(
                    #[trigger] info.sub_sentinels[i],
                    bound.counted().counter,
                ) by {
                    lemma_given_out(sub_sentinels[i], bound.counter, bound.counted().counter);
                }
                lemma_with_repetition(bound.counted(), sentinel, info);
                lemma_with_others(
                    bound.counted().with_repetition(sentinel, info),
                    sentinel,
                    sentinel,
                    SpecialKind::Body,
                    seq![],
                );
            }
        },
        TokenSpec::Span { name } => {
            let sentinel = multi_sentinel(p.counter + 1);
            lemma_fresh(sentinel, p.counter);
            lemma_counted(p);
            lemma_with_placeholder(p.counted(), name, sentinel);
            let named = if name.len() > 0 {
                p.counted().with_placeholder(name, sentinel)
            } else {
                p.counted()
            };
            lemma_with_repetition(named, sentinel, any_number());
            lemma_with_others(
                named.with_repetition(sentinel, any_number()),
                sentinel,
                sentinel,
                SpecialKind::Body,
                seq![],
            );
        },
        TokenSpec::Special { kind } => {
            let sentinel = special_sentinel(kind, p.counter + 1);
            lemma_fresh(sentinel, p.counter);
            lemma_counted(p);
            let named = p.counted().with_placeholder(special_name(kind), sentinel);
            lemma_with_placeholder(p.counted(), special_name(kind), sentinel);
            lemma_with_others(named, sentinel, sentinel, kind, seq![]);
            let marked = named.with_special(sentinel, kind);
            lemma_with_repetition(marked, sentinel, any_number());
            let repeated = marked.with_repetition(sentinel, any_number());
            lemma_with_others(repeated, sentinel + ";"@, sentinel, kind, seq![]);
            lemma_with_others(marked, sentinel + ";"@, sentinel, kind, seq![]);
            lemma_with_others(marked, sentinel, sentinel, kind, seq![]);
        },
    }
}

proof fn lemma_run(p: Progress, pieces: Seq<TokenSpec>)
    requires
        sound(p),
    ensures
        sound(p.run(pieces)),
    decreases pieces.len(),
{
    if pieces.len() > 0 {
        lemma_step(p, pieces.first());
        lemma_run(p.step(pieces.first()), pieces.drop_first());
    }
}

/// The state after the last piece of a snippet is sound.
pub proof fn lemma_processed_sound(snippet: Seq<char>)
    ensures
        sound(nothing().run(tokens(snippet))),
{
    lemma_run(nothing(), tokens(snippet));
}

/// No two placeholders of a snippet share a sentinel.
pub proof fn law_sentinels_distinct(snippet: Seq<char>, a: Seq<char>, b: Seq<char>)
    requires
        processed(snippet).placeholders.contains_key(a),
        processed(snippet).placeholders.contains_key(b),
        processed(snippet).placeholders[a] == processed(snippet).placeholders[b],
    ensures
        a == b,
{
    lemma_processed_sound(snippet);
}

/// The map that leads from the sentinels back to the names.
pub open spec fn names_by_sentinel(snippet: Seq<char>) -> Map<Seq<char>, Seq<char>> {
    let placeholders = processed(snippet).placeholders;
    Map::new(
        |sentinel: Seq<char>| exists|name: Seq<char>| placeholders.contains_pair(name, sentinel),
        |sentinel: Seq<char>| choose|name: Seq<char>| placeholders.contains_pair(name, sentinel),
    )
}

/// Turning the placeholders of a snippet around leads from every sentinel to its only name:
/// whichever way it is done, the outcome is the same, and going there and back is the identity.
pub proof fn law_reverse_inverts(snippet: Seq<char>, reversed: Map<Seq<char>, Seq<char>>)
    requires
        reverses(processed(snippet).placeholders, reversed),
    ensures
        reversed == names_by_sentinel(snippet),
        forall|name: Seq<char>| #[trigger]
            processed(snippet).placeholders.contains_key(name) ==> reversed.contains_pair(
                processed(snippet).placeholders[name],
                name,
            ),
        forall|sentinel: Seq<char>| #[trigger]
            reversed.contains_key(sentinel) ==> processed(snippet).placeholders.contains_pair(
                reversed[sentinel],
                sentinel,
            ),
{
    let placeholders = processed(snippet).placeholders;
    lemma_processed_sound(snippet);
    assert forall|name: Seq<char>| #[trigger] placeholders.contains_key(name) implies reversed.contains_pair(
        placeholders[name],
        name,
    ) by {
        let sentinel = placeholders[name];
        assert(placeholders.contains_pair(reversed[sentinel], sentinel));
        assert(placeholders.contains_key(reversed[sentinel]));
    }
    let unique = names_by_sentinel(snippet);
    assert forall|sentinel: Seq<char>| reversed.contains_key(sentinel) == #[trigger] unique.contains_key(
        sentinel,
    ) by {
        if reversed.contains_key(sentinel) {
            assert(placeholders.contains_pair(reversed[sentinel], sentinel));
        }
        if unique.contains_key(sentinel) {
            let name = choose|name: Seq<char>| placeholders.contains_pair(name, sentinel);
            assert(placeholders.contains_key(name));
        }
    }
    assert forall|sentinel: Seq<char>| #[trigger] reversed.contains_key(sentinel) implies reversed[sentinel]
        == unique[sentinel] by {
        let name = choose|name: Seq<char>| placeholders.contains_pair(name, sentinel);
        assert(placeholders.contains_pair(reversed[sentinel], sentinel));
        assert(placeholders.contains_key(name));
        assert(placeholders.contains_key(reversed[sentinel]));
    }
    assert(reversed =~= unique);
}

/// Every sentinel of a snippet begins with the mark by which a placeholder is recognised.
pub proof fn law_sentinels_are_marked(snippet: Seq<char>, sentinel: Seq<char>)
    requires
        ({
            let p = processed(snippet);
            ||| exists|name: Seq<char>| p.placeholders.contains_pair(name, sentinel)
            ||| p.repetitions.contains_key(sentinel)
            ||| p.specials.contains_key(sentinel)
            ||| p.type_constraints.contains_key(sentinel)
        }),
    ensures
        "_pw_"@.is_prefix_of(sentinel),
{
    let p = nothing().run(tokens(snippet));
    lemma_processed_sound(snippet);
    if exists|name: Seq<char>| p.snippet.placeholders.contains_pair(name, sentinel) {
        let name = choose|name: Seq<char>| p.snippet.placeholders.contains_pair(name, sentinel);
        assert(p.snippet.placeholders.contains_key(name));
    }
    if p.snippet.repetitions.contains_key(sentinel) {
        assert(sound_repetition(p.snippet, p.counter, sentinel));
    }
    assert(given_out(sentinel, p.counter));
    reveal_strlit("_pw_");
    reveal_strlit("_pw_multi_");
    reveal_strlit("_pw_body_");
    reveal_strlit("_pw_stmt_");
    reveal_strlit("_pw_expr_");
    assert(sentinel.subrange(0, 4) =~= "_pw_"@);
}

/// A placeholder of a snippet that can span several children takes any number of them, and a
/// repetition group lists no sentinel or at least two.
pub proof fn law_repetitions_sound(snippet: Seq<char>, sentinel: Seq<char>)
    requires
        processed(snippet).repetitions.contains_key(sentinel),
    ensures
        ({
            let info = processed(snippet).repetitions[sentinel];
            &&& info.kind == RepetitionKind::MultiChild ==> info.op == "*"@
            &&& info.sub_sentinels.len() != 1
        }),
{
    let p = nothing().run(tokens(snippet));
    lemma_processed_sound(snippet);
    assert(sound_repetition(p.snippet, p.counter, sentinel));
}

/// A snippet without a dollar sign stands for itself and has no placeholders.
pub proof fn law_plain_snippet_kept(snippet: Seq<char>)
    requires
        !snippet.contains('$'),
    ensures
        processed(snippet) == (SnippetSpec { pattern_text: snippet, ..nothing().snippet }),
{
    lemma_plain_run(nothing(), snippet);
    assert(nothing().snippet.pattern_text + snippet =~= snippet);
}

proof fn lemma_plain_run(p: Progress, s: Seq<char>)
    requires
        !s.contains('$'),
    ensures
        p.run(tokens(s)) == p.with_text(s),
    decreases s.len(),
{
    if s.len() > 0 {
        assert(s[0] != '$');
        let rest = s.skip(1);
        assert(!rest.contains('$')) by {
            if rest.contains('$') {
                let i = choose|i: int| 0 <= i < rest.len() && rest[i] == '$';
                assert(s[i + 1] == '$');
            }
        }
        let q = p.step(TokenSpec::Verbatim(s.take(1)));
        lemma_plain_run(q, rest);
        assert(tokens(s).first() == TokenSpec::Verbatim(s.take(1)));
        assert(tokens(s).drop_first() =~= tokens(rest));
        assert(p.snippet.pattern_text + s.take(1) + rest =~= p.snippet.pattern_text + s);
    } else {
        assert(p.snippet.pattern_text + s =~= p.snippet.pattern_text);
    }
}

/// Once a placeholder is constrained to a node kind, nothing that follows changes that: the
/// first constraint stands.
pub proof fn law_first_constraint_stands(
    p: Progress,
    pieces: Seq<TokenSpec>,
    sentinel: Seq<char>,
)
    requires
        p.snippet.type_constraints.contains_key(sentinel),
    ensures
        p.run(pieces).snippet.type_constraints.contains_pair(
            sentinel,
            p.snippet.type_constraints[sentinel],
        ),
    decreases pieces.len(),
{
    if pieces.len() > 0 {
        if let TokenSpec::Group { names, op } = pieces.first() {
            lemma_bind_all_keeps(p, names, seq![]);
        }
        law_first_constraint_stands(p.step(pieces.first()), pieces.drop_first(), sentinel);
    }
}

/// Binding names leaves constraints, and the sentinels of names that have one, as they are.
proof fn lemma_bind_all_keeps(p: Progress, names: Seq<Seq<char>>, name: Seq<char>)
    ensures
        p.bind_all(names).snippet.type_constraints == p.snippet.type_constraints,
        p.snippet.placeholders.contains_key(name) ==> p.bind_all(
            names,
        ).snippet.placeholders.contains_pair(name, p.snippet.placeholders[name]),
    decreases names.len(),
{
    if names.len() > 0 {
        lemma_bind_all_keeps(p, names.drop_last(), name);
    }
}

/// The piece gives `name` a sentinel of its own whatever it had before.
pub open spec fn renames(token: TokenSpec, name: Seq<char>) -> bool {
    match token {
        TokenSpec::Span { name: other } => other == name,
        TokenSpec::Special { kind } => special_name(kind) == name,
        _ => false,
    }
}

/// A placeholder keeps its sentinel: wherever `$name` occurs again, the same identifier stands
/// for it, unless the name is taken over by a `$$$name` or a special placeholder.
pub proof fn law_name_keeps_sentinel(p: Progress, pieces: Seq<TokenSpec>, name: Seq<char>)
    requires
        p.snippet.placeholders.contains_key(name),
        forall|i: int| 0 <= i < pieces.len() ==> !renames(#[trigger] pieces[i], name),
    ensures
        p.run(pieces).snippet.placeholders.contains_pair(name, p.snippet.placeholders[name]),
        p.run(pieces).sentinel(name) == p.sentinel(name),
    decreases pieces.len(),
{
    if pieces.len() > 0 {
        let q = p.step(pieces.first());
        assert(!renames(pieces[0], name));
        if let TokenSpec::Group { names, op } = pieces.first() {
            lemma_bind_all_keeps(p, names, name);
        }
        assert(q.snippet.placeholders.contains_pair(name, p.snippet.placeholders[name]));
        assert forall|i: int| 0 <= i < pieces.drop_first().len() implies !renames(
            #[trigger] pieces.drop_first()[i],
            name,
        ) by {
            assert(!renames(pieces[i + 1], name));
        }
        law_name_keeps_sentinel(q, pieces.drop_first(), name);
    }
}

/// The text so far, and every sentinel that a name has, are ASCII.
spec fn ascii_so_far(p: Progress) -> bool {
    &&& is_ascii_chars(p.snippet.pattern_text)
    &&& forall|name: Seq<char>| #[trigger]
        p.snippet.placeholders.contains_key(name) ==> is_ascii_chars(p.snippet.placeholders[name])
}

/// The text that a piece stands for, where it stands for itself, is ASCII.
spec fn ascii_piece(token: TokenSpec) -> bool {
    token matches TokenSpec::Verbatim(text) ==> is_ascii_chars(text)
}

proof fn lemma_decimal_ascii(n: nat)
    ensures
        is_ascii_chars(decimal(n)),
    decreases n,
{
    if n >= 10 {
        lemma_decimal_ascii(n / 10);
    }
    assert('0' <= digit(n % 10) <= '9');
    assert forall|i: int| 0 <= i < decimal(n).len() implies '\0' <= #[trigger] decimal(n)[i]
        <= '\u{7f}' by {
        if n >= 10 && i < decimal(n / 10).len() {
            assert(decimal(n)[i] == decimal(n / 10)[i]);
        } else {
            assert(decimal(n)[i] == digit(n % 10));
        }
    }
}

/// Sentinels are ASCII.
proof fn lemma_sentinel_ascii(n: nat)
    ensures
        is_ascii_chars(plain_sentinel(n)),
        is_ascii_chars(multi_sentinel(n)),
        forall|kind: SpecialKind| is_ascii_chars(#[trigger] special_sentinel(kind, n)),
{
    lemma_decimal_ascii(n);
    reveal_strlit("_pw_");
    reveal_strlit("_pw_multi_");
    reveal_strlit("_pw_body_");
    reveal_strlit("_pw_stmt_");
    reveal_strlit("_pw_expr_");
    assert forall|kind: SpecialKind| is_ascii_chars(#[trigger] special_sentinel(kind, n)) by {
        match kind {
            SpecialKind::Body => {},
            SpecialKind::Stmt => {},
            SpecialKind::Expr => {},
        }
    }
}

proof fn lemma_bind_ascii(p: Progress, name: Seq<char>)
    requires
        ascii_so_far(p),
    ensures
        ascii_so_far(p.bind(name)),
        is_ascii_chars(p.sentinel(name)),
{
    lemma_sentinel_ascii(p.counter + 1);
}

proof fn lemma_bind_all_ascii(p: Progress, names: Seq<Seq<char>>)
    requires
        ascii_so_far(p),
    ensures
        ascii_so_far(p.bind_all(names)),
        p.sentinels(names).len() == names.len(),
        forall|i: int| 0 <= i < names.len() ==> is_ascii_chars(#[trigger] p.sentinels(names)[i]),
    decreases names.len(),
{
    if names.len() > 0 {
        lemma_bind_all_ascii(p, names.drop_last());
        lemma_bind_ascii(p.bind_all(names.drop_last()), names.last());
    }
}

proof fn lemma_step_ascii(p: Progress, token: TokenSpec)
    requires
        ascii_so_far(p),
        ascii_piece(token),
    ensures
        ascii_so_far(p.step(token)),
{
    reveal_strlit(";");
    match token {
        TokenSpec::Verbatim(_) => {},
        TokenSpec::Hole { name, constraint: _ } => {
            lemma_bind_ascii(p, name);
        },
        TokenSpec::Group { names, op: _ } => {
            lemma_bind_all_ascii(p, names);
            lemma_sentinel_ascii(p.bind_all(names).counter + 1);
        },
        TokenSpec::Span { name: _ } => {
            lemma_sentinel_ascii(p.counter + 1);
        },
        TokenSpec::Special { kind } => {
            lemma_sentinel_ascii(p.counter + 1);
            assert(is_ascii_chars(special_sentinel(kind, p.counter + 1)));
        },
    }
}

proof fn lemma_run_ascii(p: Progress, s: Seq<char>)
    requires
        ascii_so_far(p),
        is_ascii_chars(s),
    ensures
        ascii_so_far(p.run(tokens(s))),
    decreases s.len(),
{
    if s.len() > 0 {
        let (token, n) = scan(s);
        lemma_scan_advances(s);
        assert(ascii_piece(token));
        lemma_step_ascii(p, token);
        lemma_run_ascii(p.step(token), s.skip(n as int));
        assert(tokens(s).first() == token);
        assert(tokens(s).drop_first() =~= tokens(s.skip(n as int)));
    }
}

/// An ASCII snippet has an ASCII pattern text.
pub proof fn law_ascii_snippet_kept(snippet: Seq<char>)
    requires
        is_ascii_chars(snippet),
    ensures
        is_ascii_chars(processed(snippet).pattern_text),
{
    lemma_run_ascii(nothing(), snippet);
}

} // verus!
