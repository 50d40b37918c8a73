//! Which queries are handed to tree-sitter's query compiler.
//!
//! The compiler turns a query into numbered steps, keeps the numbers in 16 bits, and follows
//! links between steps that it takes to end somewhere. On some queries it goes round for ever,
//! or aborts:
//!
//! - where there are more steps than 16 bits can number;
//! - where `+` follows a group or a choice that can be skipped as a whole, as in
//!   `(("a")? ("b")*)+`: the link past the end of it leads back to its start;
//! - where `+` or `*` follows a pattern with a node of the outermost level all of whose children
//!   can be skipped, as in `(_ "a"?)*`: for a node that may be of several kinds the compiler
//!   starts with the children, and goes round in the same way;
//! - where a quantifier, a capture or a field name belongs to a pattern of predicates alone, as
//!   in `((#set! a b))?`: there is no step to attach it to;
//! - where an anchor stands in a group behind nothing but predicates, as in
//!   `((#set! a b) . ("a")?)`: there is no step in front of it;
//! - where brackets are nested so deeply that the stack does not hold the calls for them.
//!
//! A query is read here once, character by character, and refused where it may be one of these.
//! What the compiler answers with an error is not looked into: it stops at the error.
use crate::text::chars_of;
use vstd::prelude::*;

verus! {

/// The most brackets that may be open at once.
pub const MAX_DEPTH: usize = 1000;

/// Where in a query a character stands.
#[derive(Debug, Clone, Copy, PartialEq, Eq, Structural)]
pub enum Mode {
    /// Neither in a comment nor in a string.
    Code,
    Comment,
    Quoted,
    /// Behind a backslash in a string.
    Escaped,
}

/// What a bracket has opened.
#[derive(Debug, Clone, Copy, PartialEq, Eq, Structural)]
pub enum Shape {
    /// `(`, before the next character tells more.
    Opened,
    /// `(` and a node name; also the query as a whole.
    Node,
    /// `(` and a pattern: a sequence of patterns.
    Group,
    /// `[`: a choice of patterns.
    Choice,
    /// `(#` or `(.`: a predicate.
    Predicate,
}

/// A pattern that has been read.
#[derive(Debug, Clone, Copy, PartialEq, Eq, Structural)]
pub struct Item {
    /// It may have no node.
    pub empty: bool,
    /// It may be skipped as a whole, its own quantifiers aside.
    pub skippable: bool,
    /// It has the quantifier `?` or `*`.
    pub optional: bool,
    /// It has a node of the outermost level all of whose children can be skipped.
    pub hollow: bool,
}

/// What has been read since a bracket was opened.
#[derive(Debug, Clone, Copy, PartialEq, Eq, Structural)]
pub struct Frame {
    pub shape: Shape,
    /// What has been read, the last pattern aside, may have no node.
    pub empty: bool,
    /// It may be skipped.
    pub skippable: bool,
    /// It has a pattern.
    pub filled: bool,
    /// It has a node of the outermost level all of whose children can be skipped.
    pub hollow: bool,
    /// It stands inside a node.
    pub deep: bool,
    /// The last pattern, to which quantifiers and captures belong.
    pub last: Option<Item>,
    /// A field name and a colon have been read, and the pattern has not.
    pub field: bool,
}

/// What has been read of a query.
pub struct Reading {
    pub mode: Mode,
    pub frames: Seq<Frame>,
    /// The last character belongs to a word.
    pub word: bool,
    /// A bracket was closed that was not open: the compiler stops there.
    pub over: bool,
}

pub open spec fn is_space(c: char) -> bool {
    c == ' ' || c == '\t' || c == '\n' || c == '\r' || c == '\u{b}' || c == '\u{c}'
}

/// A character that belongs to a word. The compiler asks the C library about those beyond
/// ASCII, and may take them for letters or for space: neither makes a word a pattern.
pub open spec fn is_word(c: char) -> bool {
    ||| 'a' <= c && c <= 'z'
    ||| 'A' <= c && c <= 'Z'
    ||| '0' <= c && c <= '9'
    ||| c == '-'
    ||| c > '\u{7f}'
}

/// A node, a string or `_`.
pub open spec fn solid() -> Item {
    Item { empty: false, skippable: false, optional: false, hollow: false }
}

/// A bracket that was opened: what it has so far is empty, unless it is a choice, which has
/// nothing to choose from yet.
pub open spec fn opened(shape: Shape, deep: bool) -> Frame {
    Frame {
        shape,
        empty: shape != Shape::Choice,
        skippable: shape != Shape::Choice,
        filled: false,
        hollow: false,
        deep,
        last: None,
        field: false,
    }
}

impl Frame {
    /// The last pattern is counted in. A sequence can be skipped if all of it can be; a choice,
    /// if one of its patterns can be.
    pub open spec fn folded(self) -> Frame {
        match self.last {
            Some(item) => {
                let skip = item.skippable || item.optional;
                if self.shape == Shape::Choice {
                    Frame {
                        empty: self.empty || item.empty,
                        skippable: self.skippable || skip,
                        filled: true,
                        hollow: self.hollow || item.hollow,
                        last: None,
                        ..self
                    }
                } else {
                    Frame {
                        empty: self.empty && item.empty,
                        skippable: self.skippable && skip,
                        filled: true,
                        hollow: self.hollow || item.hollow,
                        last: None,
                        ..self
                    }
                }
            },
            None => self,
        }
    }

    /// A pattern is read, unless a field name stands in front of a pattern without a node.
    pub open spec fn with_item(self, item: Item) -> Option<Frame> {
        if self.field && item.empty {
            None
        } else {
            Some(Frame { last: Some(item), field: false, ..self.folded() })
        }
    }

    /// A predicate is read: a part of a sequence that has no node.
    pub open spec fn with_predicate(self) -> Option<Frame> {
        if self.field {
            None
        } else if self.shape == Shape::Choice {
            Some(Frame { empty: true, skippable: true, ..self.folded() })
        } else {
            Some(self.folded())
        }
    }

    /// The pattern that the closing bracket completes.
    pub open spec fn item(self) -> Item {
        let frame = self.folded();
        if self.shape == Shape::Group || self.shape == Shape::Choice {
            Item {
                empty: frame.empty,
                skippable: frame.skippable,
                optional: false,
                hollow: frame.hollow,
            }
        } else {
            Item { hollow: !self.deep && frame.filled && frame.skippable, ..solid() }
        }
    }

    /// The character behind an opening parenthesis tells what it has opened.
    pub open spec fn settled(self, c: char) -> Frame {
        if self.shape != Shape::Opened || c > '\u{7f}' {
            self
        } else if c == '(' || c == '"' || c == '[' {
            Frame { shape: Shape::Group, ..self }
        } else if c == '#' || c == '.' {
            Frame { shape: Shape::Predicate, ..self }
        } else {
            Frame { shape: Shape::Node, ..self }
        }
    }

    /// The last pattern has no node to attach something to.
    pub open spec fn last_empty(self) -> bool {
        self.last matches Some(item) && item.empty
    }

    /// The last pattern must not be repeated: a link from its end leads back to its start.
    pub open spec fn last_endless(self) -> bool {
        self.last matches Some(item) && (item.empty || item.hollow)
    }

    /// `_` is read: a pattern or, in a node, possibly its name, which does not count.
    pub open spec fn with_wildcard(self) -> Option<Frame> {
        if self.shape == Shape::Node {
            Some(Frame { field: false, ..self.folded() })
        } else {
            self.with_item(solid())
        }
    }

    /// The last pattern is quantified by `?` or `*`.
    pub open spec fn with_optional(self) -> Frame {
        match self.last {
            Some(item) => Frame { last: Some(Item { optional: true, ..item }), ..self },
            None => self,
        }
    }
}

/// The query as a whole, before anything is read.
pub open spec fn unread() -> Reading {
    Reading {
        mode: Mode::Code,
        frames: seq![opened(Shape::Node, false)],
        word: false,
        over: false,
    }
}

impl Reading {
    /// With another top frame, and no word.
    pub open spec fn with_top(self, frame: Frame) -> Reading {
        Reading { frames: self.frames.drop_last().push(frame), word: false, ..self }
    }

    /// With another top frame, if there is one.
    pub open spec fn with_some_top(self, frame: Option<Frame>) -> Option<Reading> {
        match frame {
            Some(f) => Some(self.with_top(f)),
            None => None,
        }
    }

    /// A bracket is opened.
    pub open spec fn open(self, shape: Shape) -> Option<Reading> {
        if self.frames.len() > MAX_DEPTH {
            None
        } else {
            let outer = self.with_top(self.frames.last().folded());
            let top = self.frames.last();
            let deep = top.deep || (self.frames.len() > 1 && top.shape == Shape::Node);
            Some(Reading { frames: outer.frames.push(opened(shape, deep)), ..outer })
        }
    }

    /// A bracket is closed.
    pub open spec fn close(self) -> Option<Reading> {
        if self.frames.len() <= 1 {
            Some(Reading { over: true, ..self })
        } else {
            let inner = self.frames.last();
            let outer = Reading { frames: self.frames.drop_last(), ..self };
            outer.with_some_top(
                if inner.shape == Shape::Predicate {
                    outer.frames.last().with_predicate()
                } else {
                    outer.frames.last().with_item(inner.item())
                },
            )
        }
    }

    /// A character of the code, other than space, is read; `None` where the query is refused.
    pub open spec fn read_code(self, c: char) -> Option<Reading> {
        let top = self.frames.last();
        if top.shape == Shape::Predicate {
            if c == ')' {
                self.close()
            } else if c == '"' {
                Some(Reading { mode: Mode::Quoted, ..self })
            } else {
                Some(self)
            }
        } else if c == '(' {
            self.open(Shape::Opened)
        } else if c == '[' {
            self.open(Shape::Choice)
        } else if c == ')' || c == ']' {
            self.close()
        } else if c == '"' {
            Reading { mode: Mode::Quoted, ..self }.with_some_top(top.with_item(solid()))
        } else if c == '_' && !self.word {
            self.with_some_top(top.with_wildcard())
        } else if c == ':' {
            if top.field {
                None
            } else {
                Some(self.with_top(Frame { field: true, ..top }))
            }
        } else if c == '@' {
            if top.last_empty() {
                None
            } else {
                Some(Reading { word: true, ..self })
            }
        } else if c == '?' {
            if top.last_empty() {
                None
            } else {
                Some(self.with_top(top.with_optional()))
            }
        } else if c == '*' {
            if top.last_endless() {
                None
            } else {
                Some(self.with_top(top.with_optional()))
            }
        } else if c == '+' {
            if top.last_endless() || (top.last matches Some(item) && item.skippable) {
                None
            } else {
                Some(Reading { word: false, ..self })
            }
        } else if c == '.' && !self.word && top.shape == Shape::Group && top.folded().empty {
            None
        } else if c == '.' || c == '_' {
            Some(self)
        } else {
            Some(Reading { word: is_word(c), ..self })
        }
    }

    /// The next character is read; `None` where the query is refused.
    pub open spec fn read(self, c: char) -> Option<Reading> {
        if self.over {
            Some(self)
        } else {
            match self.mode {
                Mode::Comment => if c == '\n' {
                    Some(Reading { mode: Mode::Code, ..self })
                } else {
                    Some(self)
                },
                Mode::Quoted => if c == '"' {
                    Some(Reading { mode: Mode::Code, ..self })
                } else if c == '\\' {
                    Some(Reading { mode: Mode::Escaped, ..self })
                } else {
                    Some(self)
                },
                Mode::Escaped => Some(Reading { mode: Mode::Quoted, ..self }),
                Mode::Code => if c == ';' {
                    Some(Reading { mode: Mode::Comment, word: false, ..self })
                } else if is_space(c) {
                    Some(Reading { word: false, ..self })
                } else {
                    Reading {
                        frames: self.frames.drop_last().push(self.frames.last().settled(c)),
                        ..self
                    }.read_code(c)
                },
            }
        }
    }

    /// The rest of a query is read without being refused.
    pub open spec fn accepts(self, rest: Seq<char>) -> bool
        decreases rest.len(),
    {
        rest.len() == 0 || match self.read(rest[0]) {
            Some(next) => next.accepts(rest.skip(1)),
            None => false,
        }
    }
}

/// The compiler is handed the query: it is short enough for its steps to be numbered, where one
/// character adds three steps at most, and its patterns are sound.
pub open spec fn query_bounded(query: Seq<char>) -> bool {
    3 * query.len() < 0xFFFF && unread().accepts(query)
}

/// What has been read of a query.
struct Reader {
    mode: Mode,
    frames: Vec<Frame>,
    word: bool,
    over: bool,
}

impl Frame {
    fn fold(self) -> (r: Frame)
        ensures
            r == self.folded(),
    {
        match self.last {
            Some(item) => {
                let skip = item.skippable || item.optional;
                if self.shape == Shape::Choice {
                    Frame {
                        shape: self.shape,
                        empty: self.empty || item.empty,
                        skippable: self.skippable || skip,
                        filled: true,
                        hollow: self.hollow || item.hollow,
                        deep: self.deep,
                        last: None,
                        field: self.field,
                    }
                } else {
                    Frame {
                        shape: self.shape,
                        empty: self.empty && item.empty,
                        skippable: self.skippable && skip,
                        filled: true,
                        hollow: self.hollow || item.hollow,
                        deep: self.deep,
                        last: None,
                        field: self.field,
                    }
                }
            },
            None => self,
        }
    }

    fn add_item(self, item: Item) -> (r: Option<Frame>)
        ensures
            r == self.with_item(item),
    {
        if self.field && item.empty {
            return None;
        }
        let mut frame = self.fold();
        frame.last = Some(item);
        frame.field = false;
        Some(frame)
    }

    fn add_predicate(self) -> (r: Option<Frame>)
        ensures
            r == self.with_predicate(),
    {
        if self.field {
            return None;
        }
        let mut frame = self.fold();
        if frame.shape == Shape::Choice {
            frame.empty = true;
            frame.skippable = true;
        }
        Some(frame)
    }

    fn to_item(self) -> (r: Item)
        ensures
            r == self.item(),
    {
        let frame = self.fold();
        if self.shape == Shape::Group || self.shape == Shape::Choice {
            Item {
                empty: frame.empty,
                skippable: frame.skippable,
                optional: false,
                hollow: frame.hollow,
            }
        } else {
            Item {
                empty: false,
                skippable: false,
                optional: false,
                hollow: !self.deep && frame.filled && frame.skippable,
            }
        }
    }

    fn settle(self, c: char) -> (r: Frame)
        ensures
            r == self.settled(c),
    {
        let mut frame = self;
        if self.shape == Shape::Opened && c <= '\u{7f}' {
            frame.shape = if c == '(' || c == '"' || c == '[' {
                Shape::Group
            } else if c == '#' || c == '.' {
                Shape::Predicate
            } else {
                Shape::Node
            };
        }
        frame
    }
}

/// A bracket that was opened.
fn open_frame(shape: Shape, deep: bool) -> (r: Frame)
    ensures
        r == opened(shape, deep),
{
    Frame {
        shape,
        empty: shape != Shape::Choice,
        skippable: shape != Shape::Choice,
        filled: false,
        hollow: false,
        deep,
        last: None,
        field: false,
    }
}

impl Reader {
    spec fn reading(&self) -> Reading {
        Reading { mode: self.mode, frames: self.frames@, word: self.word, over: self.over }
    }

    fn set_top(&mut self, frame: Frame)
        requires
            old(self).frames@.len() > 0,
        ensures
            final(self).reading() == old(self).reading().with_top(frame),
    {
        let top: usize = self.frames.len() - 1;
        self.frames.set(top, frame);
        self.word = false;
        assert(self.frames@ =~= old(self).frames@.drop_last().push(frame));
    }

    fn set_some_top(&mut self, frame: Option<Frame>) -> (ok: bool)
        requires
            old(self).frames@.len() > 0,
        ensures
            ok == (frame is Some),
            ok ==> old(self).reading().with_some_top(frame) == Some(final(self).reading()),
    {
        match frame {
            Some(f) => {
                self.set_top(f);
                true
            },
            None => false,
        }
    }

    fn open_bracket(&mut self, shape: Shape) -> (ok: bool)
        requires
            old(self).frames@.len() > 0,
        ensures
            ok == (old(self).reading().open(shape) is Some),
            ok ==> old(self).reading().open(shape) == Some(final(self).reading()),
    {
        if self.frames.len() > MAX_DEPTH {
            return false;
        }
        let top = self.frames[self.frames.len() - 1];
        let deep = top.deep || (self.frames.len() > 1 && top.shape == Shape::Node);
        self.set_top(top.fold());
        self.frames.push(open_frame(shape, deep));
        true
    }

    fn close_bracket(&mut self) -> (ok: bool)
        requires
            old(self).frames@.len() > 0,
        ensures
            ok == (old(self).reading().close() is Some),
            ok ==> old(self).reading().close() == Some(final(self).reading()),
    {
        if self.frames.len() == 1 {
            self.over = true;
            return true;
        }
        let inner = self.frames[self.frames.len() - 1];
        let outer = self.frames[self.frames.len() - 2];
        let _ = self.frames.pop();
        assert(self.frames@ =~= old(self).frames@.drop_last());
        if inner.shape == Shape::Predicate {
            self.set_some_top(outer.add_predicate())
        } else {
            self.set_some_top(outer.add_item(inner.to_item()))
        }
    }

    fn read_code(&mut self, c: char) -> (ok: bool)
        requires
            old(self).frames@.len() > 0,
        ensures
            ok == (old(self).reading().read_code(c) is Some),
            ok ==> old(self).reading().read_code(c) == Some(final(self).reading()),
    {
        let top = self.frames[self.frames.len() - 1];
        let solid = Item { empty: false, skippable: false, optional: false, hollow: false };
        let (last_empty, last_endless) = match top.last {
            Some(item) => (item.empty, item.empty || item.hollow),
            None => (false, false),
        };
        if top.shape == Shape::Predicate {
            if c == ')' {
                return self.close_bracket();
            }
            if c == '"' {
                self.mode = Mode::Quoted;
            }
            return true;
        }
        if c == '(' {
            return self.open_bracket(Shape::Opened);
        }
        if c == '[' {
            return self.open_bracket(Shape::Choice);
        }
        if c == ')' || c == ']' {
            return self.close_bracket();
        }
        if c == '"' {
            self.mode = Mode::Quoted;
            return self.set_some_top(top.add_item(solid));
        }
        if c == '_' && !self.word {
            if top.shape == Shape::Node {
                let mut frame = top.fold();
                frame.field = false;
                return self.set_some_top(Some(frame));
            }
            return self.set_some_top(top.add_item(solid));
        }
        if c == ':' {
            if top.field {
                return false;
            }
            let mut frame = top;
            frame.field = true;
            self.set_top(frame);
            return true;
        }
        if c == '@' {
            if last_empty {
                return false;
            }
            self.word = true;
            return true;
        }
        if c == '?' || c == '*' {
            if last_empty || (c == '*' && last_endless) {
                return false;
            }
            let mut frame = top;
            if let Some(item) = top.last {
                let mut quantified = item;
                quantified.optional = true;
                frame.last = Some(quantified);
            }
            self.set_top(frame);
            return true;
        }
        if c == '+' {
            if let Some(item) = top.last {
                if last_endless || item.skippable {
                    return false;
                }
            }
            self.word = false;
            return true;
        }
        if c == '.' && !self.word && top.shape == Shape::Group && top.fold().empty {
            return false;
        }
        if c == '.' || c == '_' {
            return true;
        }
        self.word =
        ('a' <= c && c <= 'z') || ('A' <= c && c <= 'Z') || ('0' <= c && c <= '9') || c == '-' || c
            > '\u{7f}';
        true
    }

    fn read(&mut self, c: char) -> (ok: bool)
        requires
            old(self).frames@.len() > 0,
        ensures
            ok == (old(self).reading().read(c) is Some),
            ok ==> old(self).reading().read(c) == Some(final(self).reading()),
    {
        if self.over {
            return true;
        }
        match self.mode {
            Mode::Comment => {
                if c == '\n' {
                    self.mode = Mode::Code;
                }
                true
            },
            Mode::Quoted => {
                if c == '"' {
                    self.mode = Mode::Code;
                } else if c == '\\' {
                    self.mode = Mode::Escaped;
                }
                true
            },
            Mode::Escaped => {
                self.mode = Mode::Quoted;
                true
            },
            Mode::Code => {
                if c == ';' {
                    self.mode = Mode::Comment;
                    self.word = false;
                    return true;
                }
                if c == ' ' || c == '\t' || c == '\n' || c == '\r' || c == '\u{b}' || c == '\u{c}' {
                    self.word = false;
                    return true;
                }
                let top: usize = self.frames.len() - 1;
                let frame = self.frames[top].settle(c);
                self.frames.set(top, frame);
                assert(self.frames@ =~= old(self).frames@.drop_last().push(frame));
                self.read_code(c)
            },
        }
    }
}

/// A query always has a frame: the one for the query as a whole.
proof fn lemma_frames_kept(reading: Reading, c: char)
    requires
        reading.frames.len() > 0,
    ensures
        reading.read(c) matches Some(next) ==> next.frames.len() > 0,
{
}

/// Whether the compiler is handed a query.
pub fn check_query(query: &str) -> (r: bool)
    ensures
        r == query_bounded(query@),
{
    let chars = chars_of(query);
    if chars.len() >= 21845 {
        return false;
    }
    let mut frames: Vec<Frame> = Vec::new();
    frames.push(open_frame(Shape::Node, false));
    let mut reader = Reader { mode: Mode::Code, frames, word: false, over: false };
    proof {
        assert(reader.frames@ =~= unread().frames);
        assert(chars@.skip(0) =~= chars@);
    }
    let mut i: usize = 0;
    while i < chars.len()
        invariant
            i <= chars@.len(),
            chars@ == query@,
            3 * query@.len() < 0xFFFF,
            reader.frames@.len() > 0,
            unread().accepts(chars@) == reader.reading().accepts(chars@.skip(i as int)),
        decreases chars.len() - i,
    {
        proof {
            assert(chars@.skip(i as int)[0] == chars@[i as int]);
            assert(chars@.skip(i as int).skip(1) =~= chars@.skip(i + 1));
            lemma_frames_kept(reader.reading(), chars@[i as int]);
        }
        if !reader.read(chars[i]) {
            return false;
        }
        i = i + 1;
    }
    true
}

} // verus!
