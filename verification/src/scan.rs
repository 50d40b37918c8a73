//! The placeholder syntax of snippets, read token by token.
use crate::text::{same_text, string_of, texts};
use vstd::prelude::*;

verus! {

/// Pre-defined placeholders that match by the role of a node rather than by its structure.
#[derive(Debug, Clone, Copy, PartialEq, Eq, Structural)]
pub enum SpecialKind {
    /// `$BODY`: zero or more statements inside a block.
    Body,
    /// `$STMT`: a single statement of any kind.
    Stmt,
    /// `$EXPR`: a single expression.
    Expr,
}

impl View for SpecialKind {
    type V = SpecialKind;

    open spec fn view(&self) -> SpecialKind {
        *self
    }
}

/// One piece of a snippet.
pub enum TokenSpec {
    /// Text that stands for itself.
    Verbatim(Seq<char>),
    /// `$(..)sep op`: a repetition over the placeholders named inside.
    Group { names: Seq<Seq<char>>, op: char },
    /// `$$$name` or `$$$`: any number of consecutive nodes.
    Span { name: Seq<char> },
    /// `$BODY`, `$STMT` or `$EXPR`.
    Special { kind: SpecialKind },
    /// `$name` or `$name:constraint`; without a constraint, the latter is empty.
    Hole { name: Seq<char>, constraint: Seq<char> },
}

/// The first character of a placeholder name.
pub open spec fn is_name_start(c: char) -> bool {
    ('a' <= c && c <= 'z') || ('A' <= c && c <= 'Z') || c == '_'
}

/// Any further character of a placeholder name.
pub open spec fn is_name_char(c: char) -> bool {
    is_name_start(c) || ('0' <= c && c <= '9')
}

/// A repetition operator.
pub open spec fn is_operator(c: char) -> bool {
    c == '*' || c == '+' || c == '?'
}

/// The length of the longest prefix made of name characters.
pub open spec fn name_len(s: Seq<char>) -> nat
    decreases s.len(),
{
    if s.len() > 0 && is_name_char(s[0]) {
        1 + name_len(s.skip(1))
    } else {
        0
    }
}

/// The length of the longest prefix without a repetition operator.
pub open spec fn separator_len(s: Seq<char>) -> nat
    decreases s.len(),
{
    if s.len() > 0 && !is_operator(s[0]) {
        1 + separator_len(s.skip(1))
    } else {
        0
    }
}

/// Where the parenthesis closes that encloses `s` at nesting depth `depth`.
pub open spec fn closing(s: Seq<char>, depth: nat) -> Option<nat>
    decreases s.len(),
{
    if s.len() == 0 {
        None
    } else if s[0] == ')' && depth <= 1 {
        Some(0)
    } else {
        let inner = if s[0] == '(' {
            depth + 1
        } else if s[0] == ')' {
            (depth - 1) as nat
        } else {
            depth
        };
        match closing(s.skip(1), inner) {
            Some(k) => Some(k + 1),
            None => None,
        }
    }
}

/// The names that follow a `$` in `s`, in order.
pub open spec fn names_in(s: Seq<char>) -> Seq<Seq<char>>
    decreases s.len(),
{
    if s.len() == 0 {
        seq![]
    } else if s[0] == '$' {
        let n = name_len(s.skip(1));
        proof {
            lemma_name_len(s.skip(1));
        }
        let rest = names_in(s.skip(1 + n as int));
        if n > 0 {
            seq![s.subrange(1, 1 + n as int)] + rest
        } else {
            rest
        }
    } else {
        names_in(s.skip(1))
    }
}

/// The special placeholder called `name`.
pub open spec fn special_named(name: Seq<char>) -> Option<SpecialKind> {
    if name == "BODY"@ {
        Some(SpecialKind::Body)
    } else if name == "STMT"@ {
        Some(SpecialKind::Stmt)
    } else if name == "EXPR"@ {
        Some(SpecialKind::Expr)
    } else {
        None
    }
}

/// The piece that `s` begins with, where `s` begins with `$(`, and its length. What lacks the
/// closing parenthesis, the operator or a name stands for itself.
pub open spec fn scan_group(s: Seq<char>) -> (TokenSpec, nat) {
    match closing(s.skip(2), 1) {
        None => (TokenSpec::Verbatim(s), s.len()),
        Some(k) => {
            let inner = s.subrange(2, 2 + k as int);
            let after = s.skip(3 + k as int);
            let m = separator_len(after);
            let names = names_in(inner);
            if m == after.len() {
                (TokenSpec::Verbatim(s), s.len())
            } else if names.len() == 0 {
                (TokenSpec::Verbatim(s.take((4 + k + m) as int)), 4 + k + m)
            } else {
                (TokenSpec::Group { names, op: after[m as int] }, 4 + k + m)
            }
        },
    }
}

/// The piece that `s` begins with, where `s` begins with `$` and a name, and its length.
pub open spec fn scan_hole(s: Seq<char>) -> (TokenSpec, nat) {
    let n = name_len(s.skip(1));
    let name = s.subrange(1, 1 + n as int);
    let after = s.skip(1 + n as int);
    match special_named(name) {
        Some(kind) => (TokenSpec::Special { kind }, 1 + n),
        None => if after.len() > 0 && after[0] == ':' {
            let k = name_len(after.skip(1));
            (TokenSpec::Hole { name, constraint: after.subrange(1, 1 + k as int) }, 2 + n + k)
        } else {
            (TokenSpec::Hole { name, constraint: seq![] }, 1 + n)
        },
    }
}

/// The piece that a nonempty `s` begins with, and its length.
pub open spec fn scan(s: Seq<char>) -> (TokenSpec, nat) {
    if s[0] != '$' || s.len() == 1 {
        (TokenSpec::Verbatim(s.take(1)), 1)
    } else if s[1] == '(' {
        scan_group(s)
    } else if s[1] == '$' && s.len() > 2 && s[2] == '$' {
        let n = name_len(s.skip(3));
        (TokenSpec::Span { name: s.subrange(3, 3 + n as int) }, 3 + n)
    } else if is_name_start(s[1]) {
        scan_hole(s)
    } else {
        (TokenSpec::Verbatim(s.take(1)), 1)
    }
}

/// The pieces of a snippet, in order.
pub open spec fn tokens(s: Seq<char>) -> Seq<TokenSpec>
    decreases s.len(),
{
    if s.len() == 0 {
        seq![]
    } else {
        let (token, n) = scan(s);
        proof {
            lemma_scan_advances(s);
        }
        seq![token] + tokens(s.skip(n as int))
    }
}

/// A name does not reach beyond its text, and has name characters only.
pub proof fn lemma_name_len(s: Seq<char>)
    ensures
        name_len(s) <= s.len(),
        forall|i: int| 0 <= i < name_len(s) ==> is_name_char(#[trigger] s[i]),
    decreases s.len(),
{
    if s.len() > 0 && is_name_char(s[0]) {
        let rest = s.skip(1);
        lemma_name_len(rest);
        assert forall|i: int| 0 <= i < name_len(s) implies is_name_char(#[trigger] s[i]) by {
            if i > 0 {
                assert(is_name_char(rest[i - 1]));
            }
        }
    }
}

proof fn lemma_separator_len(s: Seq<char>)
    ensures
        separator_len(s) <= s.len(),
        separator_len(s) < s.len() ==> is_operator(s[separator_len(s) as int]),
    decreases s.len(),
{
    if s.len() > 0 && !is_operator(s[0]) {
        lemma_separator_len(s.skip(1));
    }
}

proof fn lemma_closing(s: Seq<char>, depth: nat)
    ensures
        closing(s, depth) matches Some(k) ==> k < s.len(),
    decreases s.len(),
{
    if s.len() > 0 && !(s[0] == ')' && depth <= 1) {
        let inner = if s[0] == '(' {
            depth + 1
        } else if s[0] == ')' {
            (depth - 1) as nat
        } else {
            depth
        };
        lemma_closing(s.skip(1), inner);
    }
}

/// A piece is never empty and never reaches beyond the snippet.
pub proof fn lemma_scan_advances(s: Seq<char>)
    requires
        s.len() > 0,
    ensures
        1 <= scan(s).1 <= s.len(),
{
    if s.len() > 1 {
        lemma_name_len(s.skip(1));
        lemma_closing(s.skip(2), 1);
        if let Some(k) = closing(s.skip(2), 1) {
            lemma_separator_len(s.skip(3 + k as int));
        }
        lemma_name_len(s.skip(3));
        let n = name_len(s.skip(1));
        lemma_name_len(s.skip(1 + n as int).skip(1));
    }
}

/// One piece of a snippet.
pub enum Token {
    Verbatim(String),
    Group { names: Vec<String>, op: char },
    Span { name: String },
    Special { kind: SpecialKind },
    Hole { name: String, constraint: String },
}

impl View for Token {
    type V = TokenSpec;

    open spec fn view(&self) -> TokenSpec {
        match self {
            Token::Verbatim(text) => TokenSpec::Verbatim(text@),
            Token::Group { names, op } => TokenSpec::Group { names: texts(names@), op: *op },
            Token::Span { name } => TokenSpec::Span { name: name@ },
            Token::Special { kind } => TokenSpec::Special { kind: *kind },
            Token::Hole { name, constraint } => TokenSpec::Hole {
                name: name@,
                constraint: constraint@,
            },
        }
    }
}

fn name_start(c: char) -> (r: bool)
    ensures
        r == is_name_start(c),
{
    ('a' <= c && c <= 'z') || ('A' <= c && c <= 'Z') || c == '_'
}

fn name_char(c: char) -> (r: bool)
    ensures
        r == is_name_char(c),
{
    name_start(c) || ('0' <= c && c <= '9')
}

fn operator(c: char) -> (r: bool)
    ensures
        r == is_operator(c),
{
    c == '*' || c == '+' || c == '?'
}

/// Where the run of name characters from `from` on ends.
fn name_end(chars: &Vec<char>, from: usize) -> (r: usize)
    requires
        from <= chars@.len(),
    ensures
        from <= r <= chars@.len(),
        r == from + name_len(chars@.skip(from as int)),
{
    let mut i: usize = from;
    while i < chars.len() && name_char(chars[i])
        invariant
            from <= i <= chars@.len(),
            name_len(chars@.skip(from as int)) == i - from + name_len(chars@.skip(i as int)),
        decreases chars.len() - i,
    {
        assert(chars@.skip(i as int).skip(1) =~= chars@.skip(i + 1));
        i = i + 1;
    }
    i
}

/// Where the first repetition operator from `from` on stands.
fn separator_end(chars: &Vec<char>, from: usize) -> (r: usize)
    requires
        from <= chars@.len(),
    ensures
        from <= r <= chars@.len(),
        r == from + separator_len(chars@.skip(from as int)),
{
    let mut i: usize = from;
    while i < chars.len() && !operator(chars[i])
        invariant
            from <= i <= chars@.len(),
            separator_len(chars@.skip(from as int)) == i - from + separator_len(
                chars@.skip(i as int),
            ),
        decreases chars.len() - i,
    {
        assert(chars@.skip(i as int).skip(1) =~= chars@.skip(i + 1));
        i = i + 1;
    }
    i
}

/// Where the parenthesis that was opened in front of `from` closes.
fn closing_parenthesis(chars: &Vec<char>, from: usize) -> (r: Option<usize>)
    requires
        1 <= from <= chars@.len(),
    ensures
        r is Some <==> closing(chars@.skip(from as int), 1) is Some,
        r matches Some(end) ==> from <= end < chars@.len() && closing(
            chars@.skip(from as int),
            1,
        ) == Some((end - from) as nat),
{
    let mut depth: usize = 1;
    let mut i: usize = from;
    while i < chars.len()
        invariant
            1 <= from <= i <= chars@.len(),
            1 <= depth <= 1 + i - from,
            match closing(chars@.skip(i as int), depth as nat) {
                Some(k) => closing(chars@.skip(from as int), 1) == Some((i - from + k) as nat),
                None => closing(chars@.skip(from as int), 1) is None,
            },
        decreases chars.len() - i,
    {
        assert(chars@.skip(i as int).skip(1) =~= chars@.skip(i + 1));
        if chars[i] == '(' {
            depth = depth + 1;
        } else if chars[i] == ')' {
            if depth == 1 {
                return Some(i);
            }
            depth = depth - 1;
        }
        i = i + 1;
    }
    None
}

/// The names that follow a `$` at `from..to`.
fn names_between(chars: &Vec<char>, from: usize, to: usize) -> (r: Vec<String>)
    requires
        from <= to <= chars@.len(),
    ensures
        texts(r@) == names_in(chars@.subrange(from as int, to as int)),
{
    let inner = inner_chars(chars, from, to);
    let mut names: Vec<String> = Vec::new();
    let mut i: usize = 0;
    assert(texts(names@) =~= seq![]);
    assert(inner@.skip(0) =~= inner@);
    while i < inner.len()
        invariant
            i <= inner@.len(),
            texts(names@) + names_in(inner@.skip(i as int)) == names_in(inner@),
        decreases inner.len() - i,
    {
        let ghost rest = inner@.skip(i as int);
        let ghost before = texts(names@);
        if inner[i] == '$' {
            let end = name_end(&inner, i + 1);
            proof {
                assert(rest.skip(1) =~= inner@.skip(i + 1));
                assert(rest.skip(end - i) =~= inner@.skip(end as int));
                assert(rest.subrange(1, end - i) =~= inner@.subrange(i + 1, end as int));
            }
            if end > i + 1 {
                names.push(string_of(&inner, i + 1, end));
                assert(texts(names@) =~= before.push(inner@.subrange(i + 1, end as int)));
                assert(texts(names@) + names_in(inner@.skip(end as int)) =~= before + names_in(rest));
            }
            i = end;
        } else {
            assert(rest.skip(1) =~= inner@.skip(i + 1));
            i = i + 1;
        }
    }
    assert(texts(names@) + names_in(inner@.skip(i as int)) =~= texts(names@));
    names
}

fn inner_chars(chars: &Vec<char>, from: usize, to: usize) -> (r: Vec<char>)
    requires
        from <= to <= chars@.len(),
    ensures
        r@ == chars@.subrange(from as int, to as int),
{
    let mut r: Vec<char> = Vec::new();
    let mut i: usize = from;
    while i < to
        invariant
            from <= i <= to <= chars@.len(),
            r@ == chars@.subrange(from as int, i as int),
        decreases to - i,
    {
        r.push(chars[i]);
        i = i + 1;
        assert(r@ =~= chars@.subrange(from as int, i as int));
    }
    r
}

/// The special placeholder called `name`.
pub fn special_kind(name: &str) -> (r: Option<SpecialKind>)
    ensures
        r == special_named(name@),
{
    if same_text(name, "BODY") {
        Some(SpecialKind::Body)
    } else if same_text(name, "STMT") {
        Some(SpecialKind::Stmt)
    } else if same_text(name, "EXPR") {
        Some(SpecialKind::Expr)
    } else {
        None
    }
}

/// Reads the repetition group at `pos`, where `$(` stands, and says where it ends.
fn next_group(chars: &Vec<char>, pos: usize) -> (r: (Token, usize))
    requires
        pos + 2 <= chars@.len(),
    ensures
        r.0@ == scan_group(chars@.skip(pos as int)).0,
        r.1 == pos + scan_group(chars@.skip(pos as int)).1,
{
    let ghost s = chars@.skip(pos as int);
    let len = chars.len();
    assert(s.skip(2) =~= chars@.skip(pos + 2));
    match closing_parenthesis(chars, pos + 2) {
        None => {
            let text = string_of(chars, pos, len);
            assert(text@ =~= s);
            (Token::Verbatim(text), len)
        },
        Some(close) => {
            let end = separator_end(chars, close + 1);
            proof {
                lemma_separator_len(chars@.skip(close + 1));
                let k = close - pos - 2;
                assert(s.skip(3 + k) =~= chars@.skip(close + 1));
                assert(s.subrange(2, 2 + k) =~= chars@.subrange(pos + 2, close as int));
            }
            if end == len {
                let text = string_of(chars, pos, len);
                assert(text@ =~= s);
                return (Token::Verbatim(text), len);
            }
            let names = names_between(chars, pos + 2, close);
            if names.len() == 0 {
                let text = string_of(chars, pos, end + 1);
                proof {
                    assert(texts(names@).len() == 0);
                    assert(text@ =~= s.take(end + 1 - pos));
                }
                return (Token::Verbatim(text), end + 1);
            }
            assert(texts(names@).len() > 0);
            (Token::Group { names, op: chars[end] }, end + 1)
        },
    }
}

/// Reads the named placeholder at `pos`, and says where it ends.
fn next_hole(chars: &Vec<char>, pos: usize) -> (r: (Token, usize))
    requires
        pos + 1 < chars@.len(),
    ensures
        r.0@ == scan_hole(chars@.skip(pos as int)).0,
        r.1 == pos + scan_hole(chars@.skip(pos as int)).1,
{
    let ghost s = chars@.skip(pos as int);
    let len = chars.len();
    assert(s.skip(1) =~= chars@.skip(pos + 1));
    let end = name_end(chars, pos + 1);
    let name = string_of(chars, pos + 1, end);
    proof {
        assert(name@ =~= s.subrange(1, end - pos));
        assert(s.skip(end - pos) =~= chars@.skip(end as int));
    }
    if let Some(kind) = special_kind(name.as_str()) {
        return (Token::Special { kind }, end);
    }
    if end < len && chars[end] == ':' {
        let stop = name_end(chars, end + 1);
        let constraint = string_of(chars, end + 1, stop);
        proof {
            assert(chars@.skip(end as int).skip(1) =~= chars@.skip(end + 1));
            assert(constraint@ =~= chars@.skip(end as int).subrange(1, stop - end));
        }
        return (Token::Hole { name, constraint }, stop);
    }
    let constraint = String::new();
    assert(constraint@ =~= seq![]);
    (Token::Hole { name, constraint }, end)
}

/// Reads the piece of the snippet at `pos`, and says where it ends.
pub fn next_token(chars: &Vec<char>, pos: usize) -> (r: (Token, usize))
    requires
        pos < chars@.len(),
    ensures
        r.0@ == scan(chars@.skip(pos as int)).0,
        r.1 == pos + scan(chars@.skip(pos as int)).1,
        pos < r.1 <= chars@.len(),
{
    let ghost s = chars@.skip(pos as int);
    let left: usize = chars.len() - pos;
    proof {
        lemma_scan_advances(s);
    }
    if chars[pos] == '$' && left > 1 {
        let next = chars[pos + 1];
        if next == '(' {
            return next_group(chars, pos);
        }
        if next == '$' && left > 2 && chars[pos + 2] == '$' {
            let end = name_end(chars, pos + 3);
            let name = string_of(chars, pos + 3, end);
            proof {
                assert(s.skip(3) =~= chars@.skip(pos + 3));
                assert(name@ =~= s.subrange(3, end - pos));
            }
            return (Token::Span { name }, end);
        }
        if name_start(next) {
            return next_hole(chars, pos);
        }
    }
    let text = string_of(chars, pos, pos + 1);
    assert(text@ =~= s.take(1));
    (Token::Verbatim(text), pos + 1)
}

} // verus!
