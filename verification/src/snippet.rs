//! Snippets with their placeholders replaced by identifiers that a parser accepts.
use crate::scan::{
    closing, lemma_name_len, lemma_scan_advances, name_len, names_in, next_token, scan, tokens,
    SpecialKind, Token, TokenSpec,
};
use crate::strmap::{distinct_keys, entries_map, has_entry, lemma_entry, StrMap};
use crate::text::{append_decimal, chars_of, decimal, texts};
use vstd::prelude::*;
use vstd::string::*;

verus! {

/// Distinguishes the two repetition syntaxes.
#[derive(Debug, Clone, Copy, PartialEq, Eq, Structural)]
pub enum RepetitionKind {
    /// `$($name)sep*`: only applies at the last child position.
    LastChild,
    /// `$$$name` or `$$$`: can span several consecutive children at any position.
    MultiChild,
}

/// What a repetition placeholder stands for.
#[derive(Debug)]
pub struct RepetitionInfo {
    /// The operator: `*`, `+` or `?`.
    pub op: String,
    pub kind: RepetitionKind,
    /// The sentinels of the placeholders inside, in order, where there are several.
    pub sub_sentinels: Vec<String>,
}

/// The model of a repetition.
pub struct RepetitionSpec {
    pub op: Seq<char>,
    pub kind: RepetitionKind,
    pub sub_sentinels: Seq<Seq<char>>,
}

impl View for RepetitionInfo {
    type V = RepetitionSpec;

    open spec fn view(&self) -> RepetitionSpec {
        RepetitionSpec {
            op: self.op@,
            kind: self.kind,
            sub_sentinels: texts(self.sub_sentinels@),
        }
    }
}

/// A snippet in which every placeholder has become a sentinel identifier.
#[derive(Debug)]
pub struct ProcessedSnippet {
    pub pattern_text: String,
    /// The sentinel of each placeholder name.
    pub placeholders: StrMap<String>,
    pub repetitions: StrMap<RepetitionInfo>,
    pub specials: StrMap<SpecialKind>,
    /// The node kind that the placeholder with a given sentinel is constrained to.
    pub type_constraints: StrMap<String>,
}

/// The model of a processed snippet.
pub struct SnippetSpec {
    pub pattern_text: Seq<char>,
    pub placeholders: Map<Seq<char>, Seq<char>>,
    pub repetitions: Map<Seq<char>, RepetitionSpec>,
    pub specials: Map<Seq<char>, SpecialKind>,
    pub type_constraints: Map<Seq<char>, Seq<char>>,
}

impl View for ProcessedSnippet {
    type V = SnippetSpec;

    open spec fn view(&self) -> SnippetSpec {
        SnippetSpec {
            pattern_text: self.pattern_text@,
            placeholders: self.placeholders@,
            repetitions: self.repetitions@,
            specials: self.specials@,
            type_constraints: self.type_constraints@,
        }
    }
}

/// The sentinel of an ordinary placeholder or of a repetition group.
pub open spec fn plain_sentinel(n: nat) -> Seq<char> {
    "_pw_"@ + decimal(n)
}

/// The sentinel of a `$$$` placeholder.
pub open spec fn multi_sentinel(n: nat) -> Seq<char> {
    "_pw_multi_"@ + decimal(n)
}

/// The sentinel of a special placeholder.
pub open spec fn special_sentinel(kind: SpecialKind, n: nat) -> Seq<char> {
    special_prefix(kind) + decimal(n)
}

pub open spec fn special_prefix(kind: SpecialKind) -> Seq<char> {
    match kind {
        SpecialKind::Body => "_pw_body_"@,
        SpecialKind::Stmt => "_pw_stmt_"@,
        SpecialKind::Expr => "_pw_expr_"@,
    }
}

pub open spec fn special_name(kind: SpecialKind) -> Seq<char> {
    match kind {
        SpecialKind::Body => "BODY"@,
        SpecialKind::Stmt => "STMT"@,
        SpecialKind::Expr => "EXPR"@,
    }
}

/// What has been made of the pieces read so far, and how many sentinels have been given out.
pub struct Progress {
    pub snippet: SnippetSpec,
    pub counter: nat,
}

/// Nothing has been read.
pub open spec fn nothing() -> Progress {
    Progress {
        snippet: SnippetSpec {
            pattern_text: seq![],
            placeholders: Map::empty(),
            repetitions: Map::empty(),
            specials: Map::empty(),
            type_constraints: Map::empty(),
        },
        counter: 0,
    }
}

impl Progress {
    pub open spec fn with_text(self, text: Seq<char>) -> Progress {
        Progress {
            snippet: SnippetSpec {
                pattern_text: self.snippet.pattern_text + text,
                ..self.snippet
            },
            ..self
        }
    }

    pub open spec fn with_placeholder(self, name: Seq<char>, sentinel: Seq<char>) -> Progress {
        Progress {
            snippet: SnippetSpec {
                placeholders: self.snippet.placeholders.insert(name, sentinel),
                ..self.snippet
            },
            ..self
        }
    }

    pub open spec fn with_repetition(self, sentinel: Seq<char>, info: RepetitionSpec) -> Progress {
        Progress {
            snippet: SnippetSpec {
                repetitions: self.snippet.repetitions.insert(sentinel, info),
                ..self.snippet
            },
            ..self
        }
    }

    pub open spec fn with_special(self, sentinel: Seq<char>, kind: SpecialKind) -> Progress {
        Progress {
            snippet: SnippetSpec {
                specials: self.snippet.specials.insert(sentinel, kind),
                ..self.snippet
            },
            ..self
        }
    }

    /// The first constraint on a placeholder stands.
    pub open spec fn with_constraint(self, sentinel: Seq<char>, kind: Seq<char>) -> Progress {
        if kind.len() == 0 || self.snippet.type_constraints.contains_key(sentinel) {
            self
        } else {
            Progress {
                snippet: SnippetSpec {
                    type_constraints: self.snippet.type_constraints.insert(sentinel, kind),
                    ..self.snippet
                },
                ..self
            }
        }
    }

    pub open spec fn counted(self) -> Progress {
        Progress { counter: self.counter + 1, ..self }
    }

    /// The sentinel of the placeholder `name`: the one it has, or a new one.
    pub open spec fn sentinel(self, name: Seq<char>) -> Seq<char> {
        if self.snippet.placeholders.contains_key(name) {
            self.snippet.placeholders[name]
        } else {
            plain_sentinel(self.counter + 1)
        }
    }

    /// Gives the placeholder `name` a sentinel if it has none.
    pub open spec fn bind(self, name: Seq<char>) -> Progress {
        if self.snippet.placeholders.contains_key(name) {
            self
        } else {
            self.counted().with_placeholder(name, plain_sentinel(self.counter + 1))
        }
    }

    pub open spec fn bind_all(self, names: Seq<Seq<char>>) -> Progress
        decreases names.len(),
    {
        if names.len() == 0 {
            self
        } else {
            self.bind_all(names.drop_last()).bind(names.last())
        }
    }

    /// The sentinels of several placeholders, bound from left to right.
    pub open spec fn sentinels(self, names: Seq<Seq<char>>) -> Seq<Seq<char>>
        decreases names.len(),
    {
        if names.len() == 0 {
            seq![]
        } else {
            self.sentinels(names.drop_last()).push(
                self.bind_all(names.drop_last()).sentinel(names.last()),
            )
        }
    }

    /// What one piece of the snippet adds.
    pub open spec fn step(self, token: TokenSpec) -> Progress {
        match token {
            TokenSpec::Verbatim(text) => self.with_text(text),
            TokenSpec::Hole { name, constraint } => {
                let sentinel = self.sentinel(name);
                self.bind(name).with_text(sentinel).with_constraint(sentinel, constraint)
            },
            TokenSpec::Group { names, op } => {
                let sub_sentinels = self.sentinels(names);
                let bound = self.bind_all(names);
                if names.len() == 1 {
                    bound.with_repetition(
                        sub_sentinels[0],
                        last_child(seq![op], seq![]),
                    ).with_text(sub_sentinels[0])
                } else {
                    let sentinel = plain_sentinel(bound.counter + 1);
                    bound.counted().with_repetition(
                        sentinel,
                        last_child(seq![op], sub_sentinels),
                    ).with_text(sentinel)
                }
            },
            TokenSpec::Span { name } => {
                let sentinel = multi_sentinel(self.counter + 1);
                let named = if name.len() > 0 {
                    self.counted().with_placeholder(name, sentinel)
                } else {
                    self.counted()
                };
                named.with_repetition(sentinel, any_number()).with_text(sentinel)
            },
            TokenSpec::Special { kind } => {
                let sentinel = special_sentinel(kind, self.counter + 1);
                let named = self.counted().with_placeholder(
                    special_name(kind),
                    sentinel,
                ).with_special(sentinel, kind);
                match kind {
                    SpecialKind::Body => named.with_repetition(sentinel, any_number()).with_text(
                        sentinel + ";"@,
                    ),
                    SpecialKind::Stmt => named.with_text(sentinel + ";"@),
                    SpecialKind::Expr => named.with_text(sentinel),
                }
            },
        }
    }

    pub open spec fn run(self, pieces: Seq<TokenSpec>) -> Progress
        decreases pieces.len(),
    {
        if pieces.len() == 0 {
            self
        } else {
            self.step(pieces.first()).run(pieces.drop_first())
        }
    }
}

/// A repetition of the last child.
pub open spec fn last_child(op: Seq<char>, sub_sentinels: Seq<Seq<char>>) -> RepetitionSpec {
    RepetitionSpec { op, kind: RepetitionKind::LastChild, sub_sentinels }
}

/// Any number of children.
pub open spec fn any_number() -> RepetitionSpec {
    RepetitionSpec { op: "*"@, kind: RepetitionKind::MultiChild, sub_sentinels: seq![] }
}

/// A snippet with its placeholders replaced.
pub open spec fn processed(snippet: Seq<char>) -> SnippetSpec {
    nothing().run(tokens(snippet)).snippet
}

/// How many sentinels a piece can use up.
pub open spec fn demand(token: TokenSpec) -> nat {
    match token {
        TokenSpec::Verbatim(_) => 0,
        TokenSpec::Group { names, op: _ } => names.len() + 1,
        _ => 1,
    }
}

/// A snippet in the making.
struct Builder {
    snippet: ProcessedSnippet,
    counter: usize,
}

/// A string made of a prefix and a numeral.
fn numbered(prefix: &str, n: usize) -> (r: String)
    ensures
        r@ == prefix@ + decimal(n as nat),
{
    let mut r = prefix.to_owned();
    append_decimal(&mut r, n as u128);
    r
}

impl Builder {
    spec fn progress(&self) -> Progress {
        Progress { snippet: self.snippet@, counter: self.counter as nat }
    }

    /// The sentinel of the placeholder `name`, which is given one if it has none.
    fn bind(&mut self, name: &String) -> (sentinel: String)
        requires
            old(self).counter < usize::MAX,
        ensures
            sentinel@ == old(self).progress().sentinel(name@),
            final(self).progress() == old(self).progress().bind(name@),
    {
        if let Some(existing) = self.snippet.placeholders.get(name.as_str()) {
            return existing.clone();
        }
        self.counter = self.counter + 1;
        let sentinel = numbered("_pw_", self.counter);
        self.snippet.placeholders.insert(name.clone(), sentinel.clone());
        sentinel
    }

    fn bind_all(&mut self, names: &Vec<String>) -> (r: Vec<String>)
        requires
            old(self).counter + names@.len() <= usize::MAX,
        ensures
            r@.len() == names@.len(),
            texts(r@) == old(self).progress().sentinels(texts(names@)),
            final(self).progress() == old(self).progress().bind_all(texts(names@)),
            final(self).counter <= old(self).counter + names@.len(),
    {
        let mut r: Vec<String> = Vec::new();
        let mut i: usize = 0;
        let ghost all = texts(names@);
        let ghost start = self.progress();
        assert(texts(r@) =~= start.sentinels(all.take(0)));
        while i < names.len()
            invariant
                i <= names@.len(),
                r@.len() == i,
                all == texts(names@),
                start == old(self).progress(),
                self.counter <= old(self).counter + i,
                old(self).counter + names@.len() <= usize::MAX,
                self.progress() == start.bind_all(all.take(i as int)),
                texts(r@) == start.sentinels(all.take(i as int)),
            decreases names.len() - i,
        {
            proof {
                assert(all.take(i + 1).drop_last() =~= all.take(i as int));
                assert(all.take(i + 1).last() == names@[i as int]@);
            }
            let sentinel = self.bind(&names[i]);
            r.push(sentinel);
            proof {
                assert(texts(r@) =~= start.sentinels(all.take(i as int)).push(sentinel@));
            }
            i = i + 1;
        }
        assert(all.take(i as int) =~= all);
        r
    }

    /// Adds one piece of the snippet.
    fn add(&mut self, token: Token)
        requires
            old(self).counter + demand(token@) <= usize::MAX,
        ensures
            final(self).progress() == old(self).progress().step(token@),
            final(self).counter <= old(self).counter + demand(token@),
    {
        match token {
            Token::Verbatim(text) => {
                self.snippet.pattern_text.append(text.as_str());
            },
            Token::Hole { name, constraint } => {
                let sentinel = self.bind(&name);
                self.snippet.pattern_text.append(sentinel.as_str());
                if !constraint.as_str().is_empty() && !self.snippet.type_constraints.contains_key(
                    sentinel.as_str(),
                ) {
                    self.snippet.type_constraints.insert(sentinel, constraint);
                }
            },
            Token::Group { names, op } => {
                let sub_sentinels = self.bind_all(&names);
                let mut operator = String::new();
                operator.push(op);
                assert(operator@ =~= seq![op]);
                if names.len() == 1 {
                    let sentinel = sub_sentinels[0].clone();
                    assert(sentinel@ == texts(sub_sentinels@)[0]);
                    self.snippet.pattern_text.append(sentinel.as_str());
                    let info = RepetitionInfo {
                        op: operator,
                        kind: RepetitionKind::LastChild,
                        sub_sentinels: Vec::new(),
                    };
                    assert(info@.sub_sentinels =~= seq![]);
                    self.snippet.repetitions.insert(sentinel, info);
                } else {
                    self.counter = self.counter + 1;
                    let sentinel = numbered("_pw_", self.counter);
                    self.snippet.pattern_text.append(sentinel.as_str());
                    let info = RepetitionInfo {
                        op: operator,
                        kind: RepetitionKind::LastChild,
                        sub_sentinels,
                    };
                    self.snippet.repetitions.insert(sentinel, info);
                }
            },
            Token::Span { name } => {
                self.counter = self.counter + 1;
                let sentinel = numbered("_pw_multi_", self.counter);
                if !name.as_str().is_empty() {
                    self.snippet.placeholders.insert(name, sentinel.clone());
                }
                self.snippet.pattern_text.append(sentinel.as_str());
                self.snippet.repetitions.insert(sentinel, star());
            },
            Token::Special { kind } => {
                self.add_special(kind);
            },
        }
    }

    fn add_special(&mut self, kind: SpecialKind)
        requires
            old(self).counter < usize::MAX,
        ensures
            final(self).progress() == old(self).progress().step(TokenSpec::Special { kind }),
            final(self).counter == old(self).counter + 1,
    {
        self.counter = self.counter + 1;
        let (name, prefix) = match kind {
            SpecialKind::Body => ("BODY", "_pw_body_"),
            SpecialKind::Stmt => ("STMT", "_pw_stmt_"),
            SpecialKind::Expr => ("EXPR", "_pw_expr_"),
        };
        let sentinel = numbered(prefix, self.counter);
        self.snippet.placeholders.insert(name.to_owned(), sentinel.clone());
        if kind == SpecialKind::Body {
            self.snippet.repetitions.insert(sentinel.clone(), star());
        }
        let ghost before = self.snippet.pattern_text@;
        self.snippet.pattern_text.append(sentinel.as_str());
        // `$BODY` and `$STMT` stand for statements, which end in a semicolon.
        if kind != SpecialKind::Expr {
            self.snippet.pattern_text.append(";");
            assert(before + sentinel@ + ";"@ =~= before + (sentinel@ + ";"@));
        }
        self.snippet.specials.insert(sentinel, kind);
    }
}

/// The repetition that spans any number of children.
fn star() -> (r: RepetitionInfo)
    ensures
        r@ == any_number(),
{
    let r = RepetitionInfo {
        op: "*".to_owned(),
        kind: RepetitionKind::MultiChild,
        sub_sentinels: Vec::new(),
    };
    assert(r@.sub_sentinels =~= seq![]);
    r
}

/// Replaces the placeholders of a snippet by sentinel identifiers, so that it can be parsed.
///
/// `$name` becomes a unique identifier, the same wherever the name occurs; `$name:kind` also
/// records the node kind that the placeholder is constrained to, where the first constraint
/// stands. `$($name)sep*`, with `+` or `?` in place of `*`, and `$$$name` become identifiers
/// that are recorded as repetitions. `$BODY`, `$STMT` and `$EXPR` are recorded as specials.
/// A colon behind `$name` is dropped. Everything else is kept, a group without an operator or
/// without a name behind a `$` too.
pub fn preprocess_snippet(snippet: &str) -> (r: ProcessedSnippet)
    ensures
        r@ == processed(snippet@),
{
    let chars = chars_of(snippet);
    let mut builder = Builder {
        snippet: ProcessedSnippet {
            pattern_text: String::new(),
            placeholders: StrMap::new(),
            repetitions: StrMap::new(),
            specials: StrMap::new(),
            type_constraints: StrMap::new(),
        },
        counter: 0,
    };
    let len = chars.len();
    let mut pos: usize = 0;
    proof {
        assert(builder.progress().snippet.pattern_text =~= seq![]);
        assert(chars@.skip(0) =~= chars@);
    }
    while pos < len
        invariant
            pos <= len,
            len == chars@.len(),
            builder.counter <= pos,
            nothing().run(tokens(chars@)) == builder.progress().run(tokens(chars@.skip(pos as int))),
        decreases len - pos,
    {
        let ghost rest = chars@.skip(pos as int);
        let (token, end) = next_token(&chars, pos);
        proof {
            lemma_demand(rest);
            assert(rest.skip(end - pos) =~= chars@.skip(end as int));
            assert(tokens(rest).first() == token@);
            assert(tokens(rest).drop_first() =~= tokens(rest.skip(end - pos)));
        }
        builder.add(token);
        pos = end;
    }
    assert(tokens(chars@.skip(pos as int)) =~= seq![]);
    builder.snippet
}

/// `reversed` leads from each sentinel that a name has back to a name that has it.
pub open spec fn reverses(
    placeholders: Map<Seq<char>, Seq<char>>,
    reversed: Map<Seq<char>, Seq<char>>,
) -> bool {
    &&& forall|name: Seq<char>| #[trigger]
        placeholders.contains_key(name) ==> reversed.contains_key(placeholders[name])
    &&& forall|sentinel: Seq<char>| #[trigger]
        reversed.contains_key(sentinel) ==> placeholders.contains_pair(reversed[sentinel], sentinel)
}

/// Turns a map from names to sentinels around.
pub fn reverse_placeholder_map(placeholders: &StrMap<String>) -> (r: StrMap<String>)
    ensures
        reverses(placeholders@, r@),
{
    let entries = placeholders.entries();
    let mut r: StrMap<String> = StrMap::new();
    let mut i: usize = 0;
    while i < entries.len()
        invariant
            i <= entries@.len(),
            distinct_keys(entries@),
            entries_map(entries@) == placeholders@,
            forall|j: int|
                0 <= j < i ==> r@.contains_key((#[trigger] entries@[j]).1@),
            forall|sentinel: Seq<char>| #[trigger]
                r@.contains_key(sentinel) ==> placeholders@.contains_pair(r@[sentinel], sentinel),
        decreases entries.len() - i,
    {
        proof {
            lemma_entry(entries@, i as int);
        }
        r.insert(entries[i].1.clone(), entries[i].0.clone());
        i = i + 1;
    }
    proof {
        assert forall|name: Seq<char>| #[trigger] placeholders@.contains_key(name) implies r@.contains_key(
            placeholders@[name],
        ) by {
            assert(has_entry(entries@, name));
            let j = choose|j: int| 0 <= j < entries@.len() && (#[trigger] entries@[j]).0@ == name;
            lemma_entry(entries@, j);
        }
    }
    r
}

/// A piece uses up no more sentinels than it has characters.
proof fn lemma_demand(s: Seq<char>)
    requires
        s.len() > 0,
    ensures
        demand(scan(s).0) <= scan(s).1,
{
    lemma_scan_advances(s);
    if let TokenSpec::Group { names, op } = scan(s).0 {
        let k = closing(s.skip(2), 1)->0;
        lemma_names_len(s.subrange(2, 2 + k as int));
    }
}

proof fn lemma_names_len(s: Seq<char>)
    ensures
        names_in(s).len() <= s.len(),
    decreases s.len(),
{
    if s.len() > 0 {
        lemma_name_len(s.skip(1));
        if s[0] == '$' {
            lemma_names_len(s.skip(1 + name_len(s.skip(1)) as int));
        } else {
            lemma_names_len(s.skip(1));
        }
    }
}

} // verus!
