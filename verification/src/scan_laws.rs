//! Laws of the placeholder syntax: what each piece of a snippet is read as.
use crate::scan::{
    closing, lemma_scan_advances, name_len, names_in, scan, separator_len, special_named, tokens,
    SpecialKind, TokenSpec,
};
use vstd::prelude::*;

verus! {

/// An ASCII letter or an underscore, by its code.
pub open spec fn begins_word(c: char) -> bool {
    65 <= c as int <= 90 || 97 <= c as int <= 122 || c as int == 95
}

/// An ASCII letter, an ASCII digit or an underscore, by its code.
pub open spec fn continues_word(c: char) -> bool {
    begins_word(c) || 48 <= c as int <= 57
}

/// Nothing but letters, digits and underscores.
pub open spec fn is_word(s: Seq<char>) -> bool {
    forall|i: int| 0 <= i < s.len() ==> continues_word(#[trigger] s[i])
}

/// A word ends in front of this.
pub open spec fn ends_word(rest: Seq<char>) -> bool {
    rest.len() == 0 || !continues_word(rest[0])
}

/// A word that begins with a letter or an underscore.
pub open spec fn is_placeholder_name(s: Seq<char>) -> bool {
    s.len() > 0 && begins_word(s[0]) && is_word(s)
}

/// One of the operators of a repetition.
pub open spec fn repeats(c: char) -> bool {
    c == '*' || c == '+' || c == '?'
}

/// How many more parentheses `s` opens than it closes.
pub open spec fn nesting(s: Seq<char>) -> int
    decreases s.len(),
{
    if s.len() == 0 {
        0
    } else {
        nesting(s.drop_last()) + (if s.last() == '(' {
            1int
        } else if s.last() == ')' {
            -1int
        } else {
            0int
        })
    }
}

/// No parenthesis is closed in `s` that was not opened in it.
pub open spec fn stays_open(s: Seq<char>) -> bool {
    forall|k: int| 0 <= k <= s.len() ==> nesting(#[trigger] s.take(k)) >= 0
}

/// The length of a word in front of something else is that of the word.
proof fn lemma_word(word: Seq<char>, rest: Seq<char>)
    requires
        is_word(word),
        ends_word(rest),
    ensures
        name_len(word + rest) == word.len(),
    decreases word.len(),
{
    let all = word + rest;
    if word.len() == 0 {
        assert(all =~= rest);
    } else {
        assert(all[0] == word[0]);
        assert(all.skip(1) =~= word.skip(1) + rest);
        assert forall|i: int| 0 <= i < word.skip(1).len() implies continues_word(
            #[trigger] word.skip(1)[i],
        ) by {
            assert(word.skip(1)[i] == word[i + 1]);
        }
        lemma_word(word.skip(1), rest);
    }
}

/// A snippet that begins with a piece goes on behind it.
proof fn lemma_first_piece(s: Seq<char>, piece: TokenSpec, n: nat, rest: Seq<char>)
    requires
        s.len() > 0,
        scan(s) == (piece, n),
        s.skip(n as int) == rest,
    ensures
        tokens(s) == seq![piece] + tokens(rest),
{
    lemma_scan_advances(s);
}

/// An empty snippet has no pieces.
pub proof fn law_read_nothing()
    ensures
        tokens(seq![]) == Seq::<TokenSpec>::empty(),
{
}

/// A character other than a dollar sign stands for itself.
pub proof fn law_read_plain(c: char, rest: Seq<char>)
    requires
        c != '$',
    ensures
        tokens(seq![c] + rest) == seq![TokenSpec::Verbatim(seq![c])] + tokens(rest),
{
    let s = seq![c] + rest;
    assert(s.take(1) =~= seq![c]);
    assert(s.skip(1) =~= rest);
    lemma_first_piece(s, TokenSpec::Verbatim(seq![c]), 1, rest);
}

/// A dollar sign that begins no placeholder stands for itself.
pub proof fn law_read_lone_dollar(rest: Seq<char>)
    requires
        rest.len() > 0 ==> rest[0] != '(' && !begins_word(rest[0]),
        rest.len() > 1 ==> !(rest[0] == '$' && rest[1] == '$'),
    ensures
        tokens(seq!['$'] + rest) == seq![TokenSpec::Verbatim(seq!['$'])] + tokens(rest),
{
    let s = seq!['$'] + rest;
    assert(s.take(1) =~= seq!['$']);
    assert(s.skip(1) =~= rest);
    if rest.len() > 0 {
        assert(s[1] == rest[0]);
    }
    if rest.len() > 1 {
        assert(s[2] == rest[1]);
    }
    lemma_first_piece(s, TokenSpec::Verbatim(seq!['$']), 1, rest);
}

/// A dollar sign and a name, in front of anything but a colon, is a placeholder of that name.
pub proof fn law_read_placeholder(name: Seq<char>, rest: Seq<char>)
    requires
        is_placeholder_name(name),
        name != "BODY"@ && name != "STMT"@ && name != "EXPR"@,
        ends_word(rest),
        rest.len() > 0 ==> rest[0] != ':',
    ensures
        tokens(seq!['$'] + name + rest) == seq![
            TokenSpec::Hole { name, constraint: seq![] },
        ] + tokens(rest),
{
    let s = seq!['$'] + name + rest;
    let n = name.len() as int;
    assert(s[1] == name[0]);
    assert(s.skip(1) =~= name + rest);
    lemma_word(name, rest);
    assert(s.subrange(1, 1 + n) =~= name);
    assert(s.skip(1 + n) =~= rest);
    lemma_first_piece(s, TokenSpec::Hole { name, constraint: seq![] }, 1 + name.len(), rest);
}

/// A dollar sign, a name, a colon and a word is a placeholder that is constrained to the word.
pub proof fn law_read_constrained(name: Seq<char>, kind: Seq<char>, rest: Seq<char>)
    requires
        is_placeholder_name(name),
        name != "BODY"@ && name != "STMT"@ && name != "EXPR"@,
        is_word(kind),
        ends_word(rest),
    ensures
        tokens(seq!['$'] + name + seq![':'] + kind + rest) == seq![
            TokenSpec::Hole { name, constraint: kind },
        ] + tokens(rest),
{
    let s = seq!['$'] + name + seq![':'] + kind + rest;
    let n = name.len() as int;
    let k = kind.len() as int;
    let after = seq![':'] + kind + rest;
    assert(s[1] == name[0]);
    assert(s.skip(1) =~= name + after);
    lemma_word(name, after);
    assert(s.subrange(1, 1 + n) =~= name);
    assert(s.skip(1 + n) =~= after);
    assert(after.skip(1) =~= kind + rest);
    lemma_word(kind, rest);
    assert(after.subrange(1, 1 + k) =~= kind);
    assert(s.skip(2 + n + k) =~= rest);
    lemma_first_piece(s, TokenSpec::Hole { name, constraint: kind }, 2 + name.len() + kind.len(), rest);
}

/// Three dollar signs and a word, which may be empty, span nodes.
pub proof fn law_read_span(name: Seq<char>, rest: Seq<char>)
    requires
        is_word(name),
        ends_word(rest),
    ensures
        tokens(seq!['$', '$', '$'] + name + rest) == seq![TokenSpec::Span { name }] + tokens(rest),
{
    let s = seq!['$', '$', '$'] + name + rest;
    let n = name.len() as int;
    assert(s.skip(3) =~= name + rest);
    lemma_word(name, rest);
    assert(s.subrange(3, 3 + n) =~= name);
    assert(s.skip(3 + n) =~= rest);
    lemma_first_piece(s, TokenSpec::Span { name }, 3 + name.len(), rest);
}

/// The three special names are special.
pub proof fn law_read_special(rest: Seq<char>)
    requires
        ends_word(rest),
    ensures
        tokens(seq!['$'] + "BODY"@ + rest) == seq![
            TokenSpec::Special { kind: SpecialKind::Body },
        ] + tokens(rest),
        tokens(seq!['$'] + "STMT"@ + rest) == seq![
            TokenSpec::Special { kind: SpecialKind::Stmt },
        ] + tokens(rest),
        tokens(seq!['$'] + "EXPR"@ + rest) == seq![
            TokenSpec::Special { kind: SpecialKind::Expr },
        ] + tokens(rest),
{
    reveal_strlit("BODY");
    reveal_strlit("STMT");
    reveal_strlit("EXPR");
    lemma_special("BODY"@, SpecialKind::Body, rest);
    assert("STMT"@[0] != "BODY"@[0]);
    lemma_special("STMT"@, SpecialKind::Stmt, rest);
    assert("EXPR"@[0] != "BODY"@[0]);
    assert("EXPR"@[0] != "STMT"@[0]);
    lemma_special("EXPR"@, SpecialKind::Expr, rest);
}

proof fn lemma_special(name: Seq<char>, kind: SpecialKind, rest: Seq<char>)
    requires
        is_placeholder_name(name),
        special_named(name) == Some(kind),
        ends_word(rest),
    ensures
        tokens(seq!['$'] + name + rest) == seq![TokenSpec::Special { kind }] + tokens(rest),
{
    let s = seq!['$'] + name + rest;
    let n = name.len() as int;
    assert(s[1] == name[0]);
    assert(s.skip(1) =~= name + rest);
    lemma_word(name, rest);
    assert(s.subrange(1, 1 + n) =~= name);
    assert(s.skip(1 + n) =~= rest);
    lemma_first_piece(s, TokenSpec::Special { kind }, 1 + name.len(), rest);
}

/// The nesting of a text without its first character.
proof fn lemma_nesting_skip(s: Seq<char>, k: int)
    requires
        0 < k <= s.len(),
    ensures
        nesting(s.take(k)) == nesting(s.take(1)) + nesting(s.skip(1).take(k - 1)),
    decreases k,
{
    if k > 1 {
        lemma_nesting_skip(s, k - 1);
        assert(s.take(k).drop_last() =~= s.take(k - 1));
        assert(s.skip(1).take(k - 1).drop_last() =~= s.skip(1).take(k - 2));
        assert(s.take(k).last() == s.skip(1).take(k - 1).last());
    } else {
        assert(s.skip(1).take(0) =~= seq![]);
    }
}

/// The nesting of one character.
proof fn lemma_nesting_one(s: Seq<char>)
    requires
        s.len() > 0,
    ensures
        nesting(s.take(1)) == (if s[0] == '(' {
            1int
        } else if s[0] == ')' {
            -1int
        } else {
            0int
        }),
{
    assert(s.take(1).drop_last() =~= seq![]);
    assert(s.take(1).last() == s[0]);
    assert(nesting(s.take(1).drop_last()) == 0);
}

/// The parenthesis closes where the nesting first falls below what it was.
proof fn lemma_closes(s: Seq<char>, depth: nat, n: int)
    requires
        depth >= 1,
        0 <= n < s.len(),
        s[n] == ')',
        forall|k: int| 0 <= k <= n ==> depth + nesting(#[trigger] s.take(k)) >= 1,
        depth + nesting(s.take(n)) == 1,
    ensures
        closing(s, depth) == Some(n as nat),
    decreases n,
{
    if n == 0 {
        assert(s.take(0) =~= seq![]);
    } else {
        lemma_nesting_one(s);
        assert(depth + nesting(s.take(1)) >= 1);
        let inner = (depth + nesting(s.take(1))) as nat;
        assert forall|k: int| 0 <= k <= n - 1 implies inner + nesting(#[trigger] s.skip(1).take(k))
            >= 1 by {
            lemma_nesting_skip(s, k + 1);
            assert(depth + nesting(s.take(k + 1)) >= 1);
        }
        lemma_nesting_skip(s, n);
        lemma_closes(s.skip(1), inner, n - 1);
    }
}

/// A parenthesis that is not closed stays open.
proof fn lemma_never_closes(s: Seq<char>, depth: nat)
    requires
        depth >= 1,
        forall|k: int| 0 <= k <= s.len() ==> depth + nesting(#[trigger] s.take(k)) >= 1,
    ensures
        closing(s, depth) is None,
    decreases s.len(),
{
    if s.len() > 0 {
        lemma_nesting_one(s);
        assert(depth + nesting(s.take(1)) >= 1);
        let inner = (depth + nesting(s.take(1))) as nat;
        assert forall|k: int| 0 <= k <= s.skip(1).len() implies inner + nesting(
            #[trigger] s.skip(1).take(k),
        ) >= 1 by {
            lemma_nesting_skip(s, k + 1);
            assert(depth + nesting(s.take(k + 1)) >= 1);
        }
        lemma_never_closes(s.skip(1), inner);
    }
}

/// A separator runs to the first operator.
proof fn lemma_separator(separator: Seq<char>, rest: Seq<char>)
    requires
        forall|i: int| 0 <= i < separator.len() ==> !repeats(#[trigger] separator[i]),
        rest.len() > 0 ==> repeats(rest[0]),
    ensures
        separator_len(separator + rest) == separator.len(),
    decreases separator.len(),
{
    let all = separator + rest;
    if separator.len() == 0 {
        assert(all =~= rest);
    } else {
        assert(all[0] == separator[0]);
        assert(all.skip(1) =~= separator.skip(1) + rest);
        assert forall|i: int| 0 <= i < separator.skip(1).len() implies !repeats(
            #[trigger] separator.skip(1)[i],
        ) by {
            assert(separator.skip(1)[i] == separator[i + 1]);
        }
        lemma_separator(separator.skip(1), rest);
    }
}

/// The parts of a group, put together.
pub open spec fn group_source(inner: Seq<char>, separator: Seq<char>) -> Seq<char> {
    seq!['$', '('] + inner + seq![')'] + separator
}

proof fn lemma_group_parts(inner: Seq<char>, separator: Seq<char>, rest: Seq<char>)
    requires
        stays_open(inner),
        nesting(inner) == 0,
        forall|i: int| 0 <= i < separator.len() ==> !repeats(#[trigger] separator[i]),
        rest.len() > 0 ==> repeats(rest[0]),
    ensures
        ({
            let s = group_source(inner, separator) + rest;
            let k = inner.len();
            &&& closing(s.skip(2), 1) == Some(k)
            &&& s.subrange(2, 2 + k as int) == inner
            &&& s.skip(3 + k as int) == separator + rest
            &&& separator_len(separator + rest) == separator.len()
        }),
{
    let s = group_source(inner, separator) + rest;
    let k = inner.len() as int;
    let tail = s.skip(2);
    assert(tail =~= inner + seq![')'] + separator + rest);
    assert forall|j: int| 0 <= j <= k implies 1 + nesting(#[trigger] tail.take(j)) >= 1 by {
        assert(tail.take(j) =~= inner.take(j));
    }
    assert(tail.take(k) =~= inner);
    lemma_closes(tail, 1, k);
    assert(s.subrange(2, 2 + k) =~= inner);
    assert(s.skip(3 + k) =~= separator + rest);
    lemma_separator(separator, rest);
}

/// A dollar sign, a text in parentheses that has names behind dollar signs, a separator and an
/// operator is a repetition of those names.
pub proof fn law_read_group(
    inner: Seq<char>,
    separator: Seq<char>,
    op: char,
    rest: Seq<char>,
)
    requires
        stays_open(inner),
        nesting(inner) == 0,
        forall|i: int| 0 <= i < separator.len() ==> !repeats(#[trigger] separator[i]),
        repeats(op),
    ensures
        tokens(group_source(inner, separator) + seq![op] + rest) == seq![
            if names_in(inner).len() > 0 {
                TokenSpec::Group { names: names_in(inner), op }
            } else {
                TokenSpec::Verbatim(group_source(inner, separator) + seq![op])
            },
        ] + tokens(rest),
{
    let behind = seq![op] + rest;
    let s = group_source(inner, separator) + behind;
    assert(s =~= group_source(inner, separator) + seq![op] + rest);
    lemma_group_parts(inner, separator, behind);
    let k = inner.len();
    let m = separator.len();
    let after = separator + behind;
    assert(after[m as int] == op);
    assert(s.skip((4 + k + m) as int) =~= rest);
    assert(s.take((4 + k + m) as int) =~= group_source(inner, separator) + seq![op]);
    let piece = if names_in(inner).len() > 0 {
        TokenSpec::Group { names: names_in(inner), op }
    } else {
        TokenSpec::Verbatim(group_source(inner, separator) + seq![op])
    };
    lemma_first_piece(s, piece, 4 + k + m, rest);
}

/// A repetition without an operator stands for itself, to the end of the snippet.
pub proof fn law_read_no_operator(inner: Seq<char>, separator: Seq<char>)
    requires
        stays_open(inner),
        nesting(inner) == 0,
        forall|i: int| 0 <= i < separator.len() ==> !repeats(#[trigger] separator[i]),
    ensures
        tokens(group_source(inner, separator)) == seq![
            TokenSpec::Verbatim(group_source(inner, separator)),
        ],
{
    let s = group_source(inner, separator);
    lemma_group_parts(inner, separator, seq![]);
    assert(s + seq![] =~= s);
    assert(separator + seq![] =~= separator);
    assert(s.skip(s.len() as int) =~= seq![]);
    lemma_first_piece(s, TokenSpec::Verbatim(s), s.len(), seq![]);
}

/// A repetition whose parenthesis is not closed stands for itself, to the end of the snippet.
pub proof fn law_read_unclosed(inner: Seq<char>)
    requires
        stays_open(inner),
    ensures
        tokens(seq!['$', '('] + inner) == seq![TokenSpec::Verbatim(seq!['$', '('] + inner)],
{
    let s = seq!['$', '('] + inner;
    assert(s.skip(2) =~= inner);
    assert forall|k: int| 0 <= k <= inner.len() implies 1 + nesting(#[trigger] inner.take(k))
        >= 1 by {}
    lemma_never_closes(inner, 1);
    assert(s.skip(s.len() as int) =~= seq![]);
    lemma_first_piece(s, TokenSpec::Verbatim(s), s.len(), seq![]);
}

/// The names in a text are the words behind its dollar signs, in order.
pub proof fn law_names_in(name: Seq<char>, rest: Seq<char>)
    requires
        is_word(name),
        ends_word(rest),
    ensures
        names_in(seq![]) == Seq::<Seq<char>>::empty(),
        names_in(seq!['$'] + name + rest) == (if name.len() > 0 {
            seq![name]
        } else {
            seq![]
        }) + names_in(rest),
{
    let s = seq!['$'] + name + rest;
    let n = name.len() as int;
    assert(s.skip(1) =~= name + rest);
    lemma_word(name, rest);
    assert(s.subrange(1, 1 + n) =~= name);
    assert(s.skip(1 + n) =~= rest);
}

/// A character that is no dollar sign names nothing, whatever follows it.
pub proof fn law_names_skip(c: char, rest: Seq<char>)
    requires
        c != '$',
    ensures
        names_in(seq![c] + rest) == names_in(rest),
{
    assert((seq![c] + rest).skip(1) =~= rest);
}

/// A dollar sign in front of a character that opens nothing begins a placeholder where the
/// character is a letter from `a` to `z` or from `A` to `Z` or an underscore, and stands for itself
/// in front of any other.
pub proof fn law_read_dollar(c: char, rest: Seq<char>)
    requires
        c != '(' && c != '$',
    ensures
        ({
            let code = c as u32;
            let letter = (97 <= code && code <= 122) || (65 <= code && code <= 90) || code == 95;
            let piece = tokens(seq!['$', c] + rest)[0];
            &&& letter ==> piece is Hole || piece is Special
            &&& !letter ==> piece == TokenSpec::Verbatim(seq!['$'])
        }),
{
    let s = seq!['$', c] + rest;
    assert(s[0] == '$' && s[1] == c);
    assert(s.take(1) =~= seq!['$']);
    lemma_scan_advances(s);
    assert(tokens(s)[0] == scan(s).0);
}

/// The name of a placeholder goes on as long as letters, digits and underscores follow: with one
/// more of them behind it, it is longer by that.
pub proof fn law_read_longer_name(name: Seq<char>, c: char, rest: Seq<char>)
    requires
        is_placeholder_name(name),
        name.push(c) != "BODY"@ && name.push(c) != "STMT"@ && name.push(c) != "EXPR"@,
        rest.len() > 0 ==> rest[0] == ' ',
    ensures
        ({
            let code = c as u32;
            let more = (97 <= code && code <= 122) || (65 <= code && code <= 90) || (48 <= code
                && code <= 57) || code == 95;
            more ==> tokens(seq!['$'] + name.push(c) + rest)[0] == (TokenSpec::Hole {
                name: name.push(c),
                constraint: seq![],
            })
        }),
{
    let code = c as u32;
    if (97 <= code && code <= 122) || (65 <= code && code <= 90) || (48 <= code && code <= 57)
        || code == 95 {
        assert(name.push(c)[0] == name[0]);
        law_read_placeholder(name.push(c), rest);
    }
}

} // verus!
