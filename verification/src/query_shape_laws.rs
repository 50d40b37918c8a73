//! What holds of the queries that are handed to the query compiler.
use crate::query_shape::{check_query, opened, unread, Frame, Item, Mode, Reading, Shape};
use vstd::prelude::*;

verus! {

/// How many brackets a text opens.
pub open spec fn brackets(text: Seq<char>) -> nat
    decreases text.len(),
{
    if text.len() == 0 {
        0
    } else {
        brackets(text.skip(1)) + if text[0] == '(' || text[0] == '[' {
            1nat
        } else {
            0nat
        }
    }
}

/// A pattern can be left out where it may be skipped, or is optional.
pub open spec fn can_be_left_out(item: Item) -> bool {
    item.skippable || item.optional
}

/// A bracket with some patterns in it.
pub open spec fn holding(frame: Frame, items: Seq<Item>) -> Frame
    decreases items.len(),
{
    if items.len() == 0 {
        frame
    } else {
        holding(frame, items.drop_last()).with_item(items.last())->0
    }
}

/// A bracket holds nothing that could be refused later: neither predicates nor field names nor
/// patterns without a node. Where it is `firm`, nothing in it can be left out either.
spec fn calm_frame(frame: Frame, firm: bool) -> bool {
    &&& !frame.field
    &&& frame.shape != Shape::Predicate
    &&& frame.last matches Some(item) ==> !item.empty
    &&& frame.shape == Shape::Opened ==> !frame.filled && frame.last is None
    &&& frame.filled && frame.shape == Shape::Group ==> !frame.empty
    &&& frame.shape == Shape::Choice ==> !frame.empty
    &&& firm ==> {
        &&& !frame.hollow
        &&& frame.last matches Some(item) ==> !item.skippable && !item.optional && !item.hollow
        &&& frame.filled ==> !frame.skippable
        &&& frame.shape == Shape::Choice ==> !frame.skippable
    }
}

/// All brackets are calm, and the last, if it is a group, has a pattern.
spec fn calm(r: Reading, firm: bool) -> bool {
    &&& r.frames.len() > 0
    &&& forall|i: int| 0 <= i < r.frames.len() ==> calm_frame(#[trigger] r.frames[i], firm)
    &&& forall|i: int| 0 <= i < r.frames.len() - 1 ==> (#[trigger] r.frames[i]).shape != Shape::Opened
    &&& r.frames.last().shape == Shape::Group ==> r.frames.last().filled
        || r.frames.last().last is Some
}

proof fn lemma_calm_step(r: Reading, c: char, firm: bool)
    requires
        calm(r, firm),
        c != '*' && c != ':' && c != '#' && c != '.',
        firm ==> c != '?',
        !firm ==> c != '+',
        r.frames.len() <= 1000 || (c != '(' && c != '['),
    ensures
        r.read(c) is Some,
        calm(r.read(c)->0, firm),
        r.read(c)->0.frames.len() <= r.frames.len() + if c == '(' || c == '[' {
            1nat
        } else {
            0nat
        },
{
    let next = r.read(c)->0;
    let top = r.frames.last();
    assert(calm_frame(top, firm));
    if r.frames.len() > 1 {
        assert(calm_frame(r.frames[r.frames.len() - 2], firm));
    }
    assert(r.read(c) is Some);
    assert forall|i: int| 0 <= i < next.frames.len() implies calm_frame(
        #[trigger] next.frames[i],
        firm,
    ) by {
        if i < r.frames.len() {
            assert(calm_frame(r.frames[i], firm));
        }
    }
}

proof fn lemma_calm(r: Reading, rest: Seq<char>, firm: bool)
    requires
        calm(r, firm),
        forall|i: int|
            0 <= i < rest.len() ==> {
                let c = #[trigger] rest[i];
                &&& c != '*' && c != ':' && c != '#' && c != '.'
                &&& firm ==> c != '?'
                &&& !firm ==> c != '+'
            },
        r.frames.len() + brackets(rest) <= 1001,
    ensures
        r.accepts(rest),
    decreases rest.len(),
{
    if rest.len() > 0 {
        assert(rest[0] != '*');
        lemma_calm_step(r, rest[0], firm);
        assert forall|i: int| 0 <= i < rest.skip(1).len() implies rest.skip(1)[i]
            == #[trigger] rest[i + 1] by {}
        lemma_calm(r.read(rest[0])->0, rest.skip(1), firm);
    }
}

/// A query that is handed to the compiler has no more characters than steps for them can be
/// numbered in 16 bits.
pub proof fn law_query_length(query: &str, r: bool)
    requires
        call_ensures(check_query, (query,), r),
        query@.len() >= 21845,
    ensures
        !r,
{
}

/// A query that is not too long, opens few brackets, and has neither predicates, anchors, field
/// names nor `*` is handed to the compiler, if it does not have both `?` and `+`.
pub proof fn law_simple_query(query: &str, r: bool)
    requires
        call_ensures(check_query, (query,), r),
        query@.len() <= 21844,
        brackets(query@) <= 1000,
        forall|i: int|
            0 <= i < query@.len() ==> {
                let c = #[trigger] query@[i];
                c != '*' && c != ':' && c != '#' && c != '.'
            },
        (forall|i: int| 0 <= i < query@.len() ==> #[trigger] query@[i] != '?') || (forall|i: int|
            0 <= i < query@.len() ==> #[trigger] query@[i] != '+'),
    ensures
        r,
{
    let firm = forall|i: int| 0 <= i < query@.len() ==> #[trigger] query@[i] != '?';
    assert(calm(unread(), firm));
    lemma_calm(unread(), query@, firm);
}

/// A group may be empty, or be left out, where all of its patterns may, and a choice where one
/// of them may; either has a node whose children can all be left out where one of its patterns
/// has. A node is there in any case; its children can all be left out where it has some and each
/// of them can, which counts on the outermost level only.
pub proof fn law_bracket(shape: Shape, deep: bool, items: Seq<Item>)
    requires
        shape == Shape::Group || shape == Shape::Choice || shape == Shape::Node,
    ensures
        ({
            let item = holding(opened(shape, deep), items).item();
            &&& !item.optional
            &&& shape == Shape::Group ==> {
                &&& item.empty <==> forall|i: int|
                    0 <= i < items.len() ==> (#[trigger] items[i]).empty
                &&& item.skippable <==> forall|i: int|
                    0 <= i < items.len() ==> can_be_left_out(#[trigger] items[i])
                &&& item.hollow <==> exists|i: int|
                    0 <= i < items.len() && (#[trigger] items[i]).hollow
            }
            &&& shape == Shape::Choice ==> {
                &&& item.empty <==> exists|i: int|
                    0 <= i < items.len() && (#[trigger] items[i]).empty
                &&& item.skippable <==> exists|i: int|
                    0 <= i < items.len() && can_be_left_out(#[trigger] items[i])
                &&& item.hollow <==> exists|i: int|
                    0 <= i < items.len() && (#[trigger] items[i]).hollow
            }
            &&& shape == Shape::Node ==> {
                &&& !item.empty
                &&& !item.skippable
                &&& item.hollow <==> !deep && items.len() > 0 && forall|i: int|
                    0 <= i < items.len() ==> can_be_left_out(#[trigger] items[i])
            }
        }),
{
    lemma_bracket(shape, deep, items);
}

proof fn lemma_bracket(shape: Shape, deep: bool, items: Seq<Item>)
    requires
        shape == Shape::Group || shape == Shape::Choice || shape == Shape::Node,
    ensures
        ({
            let frame = holding(opened(shape, deep), items);
            let all = frame.folded();
            let choice = shape == Shape::Choice;
            &&& frame.shape == shape && frame.deep == deep && !frame.field
            &&& all.shape == shape && all.deep == deep
            &&& all.filled <==> items.len() > 0
            &&& all.empty <==> if choice {
                exists|i: int| 0 <= i < items.len() && (#[trigger] items[i]).empty
            } else {
                forall|i: int| 0 <= i < items.len() ==> (#[trigger] items[i]).empty
            }
            &&& all.skippable <==> if choice {
                exists|i: int| 0 <= i < items.len() && can_be_left_out(#[trigger] items[i])
            } else {
                forall|i: int| 0 <= i < items.len() ==> can_be_left_out(#[trigger] items[i])
            }
            &&& all.hollow <==> exists|i: int| 0 <= i < items.len() && (#[trigger] items[i]).hollow
        }),
    decreases items.len(),
{
    if items.len() > 0 {
        let front = items.drop_last();
        lemma_bracket(shape, deep, front);
        let last = items.len() - 1;
        assert forall|i: int| 0 <= i < front.len() implies front[i] == #[trigger] items[i] by {}
        assert(items[last] == items.last());
        if exists|i: int| 0 <= i < front.len() && (#[trigger] front[i]).empty {
            let i = choose|i: int| 0 <= i < front.len() && (#[trigger] front[i]).empty;
            assert(items[i].empty);
        }
        if exists|i: int| 0 <= i < front.len() && can_be_left_out(#[trigger] front[i]) {
            let i = choose|i: int| 0 <= i < front.len() && can_be_left_out(#[trigger] front[i]);
            assert(can_be_left_out(items[i]));
        }
        if exists|i: int| 0 <= i < front.len() && (#[trigger] front[i]).hollow {
            let i = choose|i: int| 0 <= i < front.len() && (#[trigger] front[i]).hollow;
            assert(items[i].hollow);
        }
    }
}

/// The query is read up to a place where patterns may stand.
pub open spec fn among_patterns(r: Reading) -> bool {
    &&& !r.over
    &&& r.mode == Mode::Code
    &&& r.frames.len() > 0
    &&& r.frames.last().shape != Shape::Predicate
    &&& r.frames.last().shape != Shape::Opened
}

/// The reading goes on with the last bracket changed.
pub open spec fn with_last(r: Reading, next: Option<Reading>, frame: Frame) -> bool {
    next matches Some(n) && n.mode == r.mode && n.over == r.over && n.frames == r.frames.update(
        r.frames.len() - 1,
        frame,
    )
}

/// A capture is refused behind a pattern without a node.
pub proof fn law_capture(r: Reading)
    requires
        among_patterns(r),
    ensures
        ({
            let last = r.frames.last().last;
            &&& last is None || !last->0.empty ==> with_last(r, r.read('@'), r.frames.last())
            &&& last is Some && last->0.empty ==> r.read('@') is None
        }),
{
    assert(r.frames.drop_last().push(r.frames.last()) =~= r.frames);
    assert(r.frames.update(r.frames.len() - 1, r.frames.last()) =~= r.frames);
}

/// The quantifiers `?` and `*` make the pattern in front of them optional. They are refused
/// behind a pattern without a node, and `*` also behind one with a node whose children can all be
/// left out.
pub proof fn law_optional(r: Reading, c: char)
    requires
        among_patterns(r),
        c == '?' || c == '*',
    ensures
        ({
            let top = r.frames.last();
            &&& top.last is None ==> with_last(r, r.read(c), top)
            &&& top.last matches Some(item) ==> {
                let refused = item.empty || (c == '*' && item.hollow);
                &&& refused ==> r.read(c) is None
                &&& !refused ==> with_last(
                    r,
                    r.read(c),
                    (Frame { last: Some(Item { optional: true, ..item }), ..top }),
                )
            }
        }),
{
    let top = r.frames.last();
    assert(r.frames.drop_last().push(top) =~= r.frames);
    assert(forall|f: Frame| #[trigger] r.frames.drop_last().push(f) =~= r.frames.update(
        r.frames.len() - 1,
        f,
    ));
}

/// The quantifier `+` is refused behind a pattern without a node, one that can be skipped as a
/// whole, and one with a node whose children can all be left out.
pub proof fn law_repeated(r: Reading)
    requires
        among_patterns(r),
    ensures
        ({
            let last = r.frames.last().last;
            let refused = last is Some && (last->0.empty || last->0.skippable || last->0.hollow);
            &&& refused ==> r.read('+') is None
            &&& !refused ==> with_last(r, r.read('+'), r.frames.last())
        }),
{
    assert(r.frames.drop_last().push(r.frames.last()) =~= r.frames);
    assert(r.frames.update(r.frames.len() - 1, r.frames.last()) =~= r.frames);
}

/// A bracket is opened unless a thousand are open.
pub proof fn law_open(r: Reading, c: char)
    requires
        among_patterns(r),
        c == '(' || c == '[',
    ensures
        r.frames.len() > 1000 ==> r.read(c) is None,
        r.frames.len() <= 1000 ==> {
            let next = r.read(c)->0;
            let frame = next.frames.last();
            &&& r.read(c) is Some
            &&& next.frames.len() == r.frames.len() + 1
            &&& next.frames.take(r.frames.len() - 1) == r.frames.drop_last()
            &&& next.frames[r.frames.len() - 1] == r.frames.last().folded()
            &&& next.mode == Mode::Code && !next.over
            &&& frame.shape == if c == '(' {
                Shape::Opened
            } else {
                Shape::Choice
            }
            &&& frame.deep <==> r.frames.last().deep || (r.frames.len() > 1 && r.frames.last().shape
                == Shape::Node)
            &&& frame == opened(frame.shape, frame.deep)
        },
{
    if r.frames.len() <= 1000 {
        let next = r.read(c)->0;
        assert(next.frames.take(r.frames.len() - 1) =~= r.frames.drop_last());
    }
}

/// The ASCII character behind an opening parenthesis, space aside, tells what the parenthesis has
/// opened: a group, where a pattern follows that is not a name, a predicate, or a node.
pub proof fn law_settled(frame: Frame, c: char)
    requires
        frame.shape == Shape::Opened,
        c <= '\u{7f}',
    ensures
        c == '(' || c == '[' || c == '"' ==> frame.settled(c) == (Frame {
            shape: Shape::Group,
            ..frame
        }),
        c == '#' || c == '.' ==> frame.settled(c) == (Frame { shape: Shape::Predicate, ..frame }),
        c != '(' && c != '[' && c != '"' && c != '#' && c != '.' ==> frame.settled(c) == (Frame {
            shape: Shape::Node,
            ..frame
        }),
{
}

/// A character beyond ASCII tells nothing: it may be space.
pub proof fn law_unsettled(frame: Frame, c: char)
    requires
        c > '\u{7f}',
    ensures
        frame.settled(c) == frame,
{
}

/// A character behind an opening parenthesis is read in what the parenthesis has opened.
pub proof fn law_read_settled(r: Reading, c: char)
    requires
        !r.over,
        r.mode == Mode::Code,
        r.frames.len() > 0,
        c != ';',
        !(c == ' ' || c == '\t' || c == '\n' || c == '\r' || c == '\u{b}' || c == '\u{c}'),
    ensures
        ({
            let frames = r.frames.update(r.frames.len() - 1, r.frames.last().settled(c));
            r.read(c) == (Reading { frames, ..r }).read(c)
        }),
{
    let frame = r.frames.last().settled(c);
    let frames = r.frames.update(r.frames.len() - 1, frame);
    assert(frames.last() == frame);
    assert(frame.settled(c) == frame);
    assert(r.frames.drop_last().push(frame) =~= frames);
    assert(frames.drop_last().push(frame) =~= frames);
}

/// What was settled stays so.
pub proof fn law_settled_once(frame: Frame, c: char)
    requires
        frame.shape != Shape::Opened,
    ensures
        frame.settled(c) == frame,
{
}

/// A closing bracket completes a pattern of the bracket around it. It is refused where a field
/// name stands in front of a pattern without a node.
pub proof fn law_close(r: Reading, c: char)
    requires
        among_patterns(r),
        r.frames.len() >= 2,
        c == ')' || c == ']',
    ensures
        ({
            let outer = r.frames[r.frames.len() - 2];
            let item = r.frames.last().item();
            &&& outer.field && item.empty ==> r.read(c) is None
            &&& !(outer.field && item.empty) ==> {
                let next = r.read(c)->0;
                &&& r.read(c) is Some
                &&& next.mode == Mode::Code && !next.over
                &&& next.frames.len() == r.frames.len() - 1
                &&& next.frames.drop_last() == r.frames.take(r.frames.len() - 2)
                &&& next.frames.last() == (Frame {
                    last: Some(item),
                    field: false,
                    ..outer.folded()
                })
            }
        }),
{
    let top = r.frames.last();
    assert(r.frames.drop_last().push(top) =~= r.frames);
    if r.read(c) is Some {
        assert(r.read(c)->0.frames.drop_last() =~= r.frames.take(r.frames.len() - 2));
    }
}

/// A string is a pattern that has a node and cannot be left out; so is `_`, but in a node, where
/// it may be the name.
pub proof fn law_leaf_pattern(r: Reading, c: char)
    requires
        among_patterns(r),
        c == '"' || (c == '_' && !r.word),
    ensures
        ({
            let top = r.frames.last();
            let next = r.read(c)->0;
            &&& r.read(c) is Some
            &&& next.frames.len() == r.frames.len()
            &&& next.frames.drop_last() == r.frames.drop_last()
            &&& next.mode == if c == '"' {
                Mode::Quoted
            } else {
                Mode::Code
            }
            &&& c == '"' || top.shape != Shape::Node ==> next.frames.last() == (Frame {
                last: Some(Item { empty: false, skippable: false, optional: false, hollow: false }),
                field: false,
                ..top.folded()
            })
            &&& c == '_' && top.shape == Shape::Node ==> next.frames.last() == (Frame {
                field: false,
                ..top.folded()
            })
        }),
{
    assert(r.frames.drop_last().push(r.frames.last()) =~= r.frames);
    assert(r.read(c)->0.frames.drop_last() =~= r.frames.drop_last());
}

/// A second field name is refused where the first has no pattern yet.
pub proof fn law_field(r: Reading)
    requires
        among_patterns(r),
    ensures
        r.frames.last().field ==> r.read(':') is None,
        !r.frames.last().field ==> with_last(
            r,
            r.read(':'),
            (Frame { field: true, ..r.frames.last() }),
        ),
{
    let top = r.frames.last();
    assert(r.frames.drop_last().push(top) =~= r.frames);
    assert(r.frames.drop_last().push((Frame { field: true, ..top })) =~= r.frames.update(
        r.frames.len() - 1,
        (Frame { field: true, ..top }),
    ));
}

/// An anchor is refused in a group in which nothing with a node stands in front of it. A dot
/// inside a word is no anchor.
pub proof fn law_anchor(r: Reading)
    requires
        among_patterns(r),
    ensures
        ({
            let top = r.frames.last();
            let refused = !r.word && top.shape == Shape::Group && top.folded().empty;
            &&& refused ==> r.read('.') is None
            &&& !refused ==> r.read('.') == Some(r)
        }),
{
    assert(r.frames.drop_last().push(r.frames.last()) =~= r.frames);
}

/// What stands in a predicate does not count, up to the parenthesis that closes it.
pub proof fn law_in_predicate(r: Reading, c: char)
    requires
        !r.over,
        r.mode == Mode::Code,
        r.frames.len() > 0,
        r.frames.last().shape == Shape::Predicate,
        c != ')' && c != '"' && c != ';',
        !(c == ' ' || c == '\t' || c == '\n' || c == '\r' || c == '\u{b}' || c == '\u{c}'),
    ensures
        r.read(c) == Some(r),
{
    assert(r.frames.drop_last().push(r.frames.last()) =~= r.frames);
}

/// A predicate is a part of a group without a node, which can be skipped. Behind a field name it
/// is refused. As a part of a choice it makes the choice one that can be left out.
pub proof fn law_predicate(r: Reading)
    requires
        !r.over,
        r.mode == Mode::Code,
        r.frames.len() >= 2,
        r.frames.last().shape == Shape::Predicate,
    ensures
        ({
            let outer = r.frames[r.frames.len() - 2];
            let choice = outer.shape == Shape::Choice;
            let next = r.read(')')->0;
            &&& outer.field ==> r.read(')') is None
            &&& !outer.field ==> {
                &&& r.read(')') is Some
                &&& next.mode == Mode::Code && !next.over
                &&& next.frames.len() == r.frames.len() - 1
                &&& next.frames.drop_last() == r.frames.take(r.frames.len() - 2)
                &&& !choice ==> next.frames.last() == outer.folded()
                &&& choice ==> next.frames.last() == (Frame {
                    empty: true,
                    skippable: true,
                    ..outer.folded()
                })
            }
        }),
{
    assert(r.frames.drop_last().push(r.frames.last()) =~= r.frames);
    if r.read(')') is Some {
        assert(r.read(')')->0.frames.drop_last() =~= r.frames.take(r.frames.len() - 2));
    }
}

/// Behind a bracket that closes none, nothing is refused: the compiler stops there.
pub proof fn law_closed_too_often(r: Reading, c: char, rest: Seq<char>)
    requires
        among_patterns(r),
        r.frames.len() == 1,
        c == ')' || c == ']',
    ensures
        r.accepts(seq![c] + rest),
{
    let text = seq![c] + rest;
    assert(text.skip(1) =~= rest);
    assert(text[0] == c);
    assert(r.frames.drop_last().push(r.frames.last()) =~= r.frames);
    lemma_over(r.read(c)->0, rest);
}

proof fn lemma_over(r: Reading, rest: Seq<char>)
    requires
        r.over,
    ensures
        r.accepts(rest),
    decreases rest.len(),
{
    if rest.len() > 0 {
        lemma_over(r, rest.skip(1));
    }
}

/// A comment, up to the end of the line, counts for no more than space.
pub proof fn law_comment(r: Reading, text: Seq<char>, rest: Seq<char>)
    requires
        !r.over,
        r.mode == Mode::Code,
        !text.contains('\n'),
    ensures
        r.accepts(seq![';'] + text + seq!['\n'] + rest) == r.accepts(seq![' '] + rest),
{
    let all = seq![';'] + text + seq!['\n'] + rest;
    let quiet = Reading { word: false, ..r };
    assert(all[0] == ';');
    assert(all.skip(1) =~= text + seq!['\n'] + rest);
    lemma_in_comment(Reading { mode: Mode::Comment, ..quiet }, text, rest);
    let short = seq![' '] + rest;
    assert(short[0] == ' ');
    assert(short.skip(1) =~= rest);
    assert(Reading { mode: Mode::Code, ..(Reading { mode: Mode::Comment, ..quiet }) } == quiet);
}

proof fn lemma_in_comment(r: Reading, text: Seq<char>, rest: Seq<char>)
    requires
        !r.over,
        r.mode == Mode::Comment,
        !text.contains('\n'),
    ensures
        r.accepts(text + seq!['\n'] + rest) == (Reading { mode: Mode::Code, ..r }).accepts(rest),
    decreases text.len(),
{
    let all = text + seq!['\n'] + rest;
    if text.len() == 0 {
        assert(all[0] == '\n');
        assert(all.skip(1) =~= rest);
    } else {
        assert(text.contains(text[0]));
        assert(all[0] == text[0]);
        assert(all.skip(1) =~= text.skip(1) + seq!['\n'] + rest);
        assert forall|c: char| text.skip(1).contains(c) implies text.contains(c) by {
            let i = choose|i: int| 0 <= i < text.skip(1).len() && text.skip(1)[i] == c;
            assert(text[i + 1] == c);
        }
        lemma_in_comment(r, text.skip(1), rest);
    }
}

/// Space ends a word, and counts for nothing else.
pub proof fn law_space(r: Reading, c: char)
    requires
        !r.over,
        r.mode == Mode::Code,
        c == ' ' || c == '\t' || c == '\n' || c == '\r' || c == '\u{b}' || c == '\u{c}',
    ensures
        r.read(c) == Some(Reading { word: false, ..r }),
{
}

/// What a string holds does not count: where neither of two texts has a quote or a backslash,
/// one may stand in quotes for the other.
pub proof fn law_string(r: Reading, one: Seq<char>, other: Seq<char>, rest: Seq<char>)
    requires
        among_patterns(r),
        !one.contains('"') && !one.contains('\\'),
        !other.contains('"') && !other.contains('\\'),
    ensures
        r.accepts(seq!['"'] + one + seq!['"'] + rest) == r.accepts(
            seq!['"'] + other + seq!['"'] + rest,
        ),
{
    let a = seq!['"'] + one + seq!['"'] + rest;
    let b = seq!['"'] + other + seq!['"'] + rest;
    assert(a[0] == '"' && b[0] == '"');
    assert(a.skip(1) =~= one + seq!['"'] + rest);
    assert(b.skip(1) =~= other + seq!['"'] + rest);
    law_leaf_pattern(r, '"');
    let next = r.read('"')->0;
    lemma_in_string(next, one, rest);
    lemma_in_string(next, other, rest);
}

/// A string in a predicate does not count, a closing parenthesis in it included.
pub proof fn law_string_in_predicate(r: Reading, text: Seq<char>, rest: Seq<char>)
    requires
        !r.over,
        r.mode == Mode::Code,
        r.frames.len() > 0,
        r.frames.last().shape == Shape::Predicate,
        !text.contains('"') && !text.contains('\\'),
    ensures
        r.accepts(seq!['"'] + text + seq!['"'] + rest) == r.accepts(rest),
{
    let all = seq!['"'] + text + seq!['"'] + rest;
    assert(all[0] == '"');
    assert(all.skip(1) =~= text + seq!['"'] + rest);
    assert(r.frames.drop_last().push(r.frames.last()) =~= r.frames);
    let quoted = Reading { mode: Mode::Quoted, ..r };
    assert(r.read('"') == Some(quoted));
    lemma_in_string(quoted, text, rest);
    assert(Reading { mode: Mode::Code, ..quoted } == r);
}

proof fn lemma_in_string(r: Reading, text: Seq<char>, rest: Seq<char>)
    requires
        !r.over,
        r.mode == Mode::Quoted,
        !text.contains('"') && !text.contains('\\'),
    ensures
        r.accepts(text + seq!['"'] + rest) == (Reading { mode: Mode::Code, ..r }).accepts(rest),
    decreases text.len(),
{
    let all = text + seq!['"'] + rest;
    if text.len() == 0 {
        assert(all[0] == '"');
        assert(all.skip(1) =~= rest);
    } else {
        assert(text.contains(text[0]));
        assert(all[0] == text[0]);
        assert(all.skip(1) =~= text.skip(1) + seq!['"'] + rest);
        assert forall|c: char| text.skip(1).contains(c) implies text.contains(c) by {
            let i = choose|i: int| 0 <= i < text.skip(1).len() && text.skip(1)[i] == c;
            assert(text[i + 1] == c);
        }
        lemma_in_string(r, text.skip(1), rest);
    }
}

/// In a string, a backslash and the character behind it do not count.
pub proof fn law_escaped(r: Reading, c: char, rest: Seq<char>)
    requires
        !r.over,
        r.mode == Mode::Quoted,
    ensures
        r.accepts(seq!['\\', c] + rest) == r.accepts(rest),
{
    let all = seq!['\\', c] + rest;
    assert(all[0] == '\\');
    assert(all.skip(1) =~= seq![c] + rest);
    let behind = seq![c] + rest;
    assert(behind.skip(1) =~= rest);
    let escaped = Reading { mode: Mode::Escaped, ..r };
    assert(r.read('\\') == Some(escaped));
    assert(escaped.read(c) == Some(r));
    assert(r.accepts(all) == escaped.accepts(behind));
}

/// The characters of words: the last one read tells whether a `_` begins a pattern. No word is
/// refused.
pub proof fn law_word(r: Reading, c: char)
    requires
        among_patterns(r),
        c != '(' && c != '[' && c != ')' && c != ']' && c != '"' && c != ':' && c != '@',
        c != '?' && c != '*' && c != '+' && c != '.' && c != '_' && c != ';',
        !(c == ' ' || c == '\t' || c == '\n' || c == '\r' || c == '\u{b}' || c == '\u{c}'),
    ensures
        ({
            let code = c as u32;
            let in_word = (97 <= code && code <= 122) || (65 <= code && code <= 90) || (48 <= code
                && code <= 57) || code == 45 || code >= 128;
            r.read(c) == Some(Reading { word: in_word, ..r })
        }),
{
    assert(r.frames.drop_last().push(r.frames.last()) =~= r.frames);
}

/// What stands inside a word, or begins a name behind `@`, is no pattern; what follows a
/// quantifier, a bracket or a string may be.
pub proof fn law_word_ends(r: Reading, c: char)
    requires
        among_patterns(r),
        r.read(c) is Some,
    ensures
        c == '@' ==> r.read(c)->0.word,
        c == '_' && r.word ==> r.read(c) == Some(r),
        c == '?' || c == '*' || c == '+' || c == ':' || c == '"' || c == '[' || c == '('
            ==> !r.read(c)->0.word,
        (c == ')' || c == ']') && r.frames.len() >= 2 ==> !r.read(c)->0.word,
        c == '_' && !r.word ==> !r.read(c)->0.word,
{
    assert(r.frames.drop_last().push(r.frames.last()) =~= r.frames);
}

/// A query is read from a state in which nothing has been read.
pub proof fn law_unread()
    ensures
        among_patterns(unread()),
        !unread().word,
        unread().frames == seq![opened(Shape::Node, false)],
{
}

} // verus!
