//! Laws of matching, in terms of the two nodes: when there is a match, and what it captures.
use crate::pattern::{group_text, Captures, ContextSpec};
use crate::pattern_laws::{lemma_span_first, lemma_span_tries, span_rest};
use crate::scan::SpecialKind;
use crate::snippet::{RepetitionKind, RepetitionSpec};
use crate::tree::{span_text, NodeSpec};
use vstd::prelude::*;

verus! {

/// The text begins with the mark of the sentinels.
pub open spec fn marked(text: Seq<char>) -> bool {
    text.len() >= 4 && text[0] == '_' && text[1] == 'p' && text[2] == 'w' && text[3] == '_'
}

/// A named node without named children.
pub open spec fn is_leaf(node: NodeSpec) -> bool {
    node.named && node.named_children().len() == 0
}

/// A placeholder in the pattern.
pub open spec fn sentinel_leaf(context: ContextSpec, p: NodeSpec) -> bool {
    is_leaf(p) && marked(p.text(context.pattern_text))
}

/// The captures with a text under the name that a sentinel stands for, if it stands for one.
pub open spec fn noted(
    context: ContextSpec,
    captures: Captures,
    sentinel: Seq<char>,
    text: Seq<char>,
) -> Captures {
    if context.reverse_placeholders.contains_key(sentinel) {
        captures.insert(context.reverse_placeholders[sentinel], text)
    } else {
        captures
    }
}

/// The kind is that of a statement.
pub open spec fn names_statement(kind: Seq<char>) -> bool {
    ||| kind.len() >= 10 && kind.skip(kind.len() - 10) == "_statement"@
    ||| kind == "block"@
    ||| kind == "local_variable_declaration"@
    ||| kind == "switch_block_statement_group"@
}

/// The only named child of a node, where it has no named children itself, stands for a special
/// placeholder.
pub open spec fn wraps(context: ContextSpec, p: NodeSpec, special: SpecialKind) -> bool {
    &&& p.named_children().len() == 1
    &&& p.named_children()[0].named_children().len() == 0
    &&& context.specials.contains_key(p.named_children()[0].text(context.pattern_text))
    &&& context.specials[p.named_children()[0].text(context.pattern_text)] == special
}

/// A leaf that spans nodes.
pub open spec fn spanning_leaf(context: ContextSpec, p: NodeSpec) -> bool {
    &&& is_leaf(p)
    &&& context.repetitions.contains_key(p.text(context.pattern_text))
    &&& context.repetitions[p.text(context.pattern_text)].kind == RepetitionKind::MultiChild
}

/// A pattern node that takes any number of nodes: a statement `$BODY`, or a spanning leaf.
pub open spec fn spans_nodes(context: ContextSpec, p: NodeSpec) -> bool {
    wraps(context, p, SpecialKind::Body) || spanning_leaf(context, p)
}

/// The last named child repeats: it is a placeholder that is recorded as a repetition of the
/// last child.
pub open spec fn repeats_last(context: ContextSpec, p: NodeSpec, info: RepetitionSpec) -> bool {
    let ps = p.named_children();
    &&& ps.len() > 0
    &&& sentinel_leaf(context, ps[ps.len() - 1])
    &&& context.repetitions.contains_key(ps[ps.len() - 1].text(context.pattern_text))
    &&& context.repetitions[ps[ps.len() - 1].text(context.pattern_text)] == info
    &&& info.kind == RepetitionKind::LastChild
}

/// The first `count` source nodes match the pattern nodes, each with the captures of those in
/// front of it: `steps` are the captures before, between and behind them.
pub open spec fn threads(
    context: ContextSpec,
    ss: Seq<NodeSpec>,
    ps: Seq<NodeSpec>,
    count: nat,
    steps: Seq<Captures>,
) -> bool {
    &&& steps.len() == count + 1
    &&& forall|i: int|
        0 <= i < count ==> context.node_matches(
            ss[i],
            ps[i],
            #[trigger] steps[i],
        ) == Some(steps[i + 1])
}

pub proof fn lemma_marked(context: ContextSpec, p: NodeSpec)
    ensures
        context.is_placeholder(p) == sentinel_leaf(context, p),
{
    reveal_strlit("_pw_");
    let text = p.text(context.pattern_text);
    if marked(text) {
        assert("_pw_"@ =~= text.subrange(0, 4));
    }
    if "_pw_"@.is_prefix_of(text) {
        assert(text.subrange(0, 4)[0] == text[0]);
        assert(text.subrange(0, 4)[1] == text[1]);
        assert(text.subrange(0, 4)[2] == text[2]);
        assert(text.subrange(0, 4)[3] == text[3]);
    }
}

proof fn lemma_wraps(context: ContextSpec, p: NodeSpec)
    ensures
        forall|special: SpecialKind|
            wraps(context, p, special) <==> #[trigger] context.wraps_special(p) == Some(special),
        context.span_sentinel(p) is Some <==> spans_nodes(context, p),
{
}

/// A placeholder matches every node that its constraint admits, and no other, and captures the
/// text of the node under its name.
pub proof fn law_placeholder(context: ContextSpec, s: NodeSpec, p: NodeSpec, captures: Captures)
    requires
        sentinel_leaf(context, p),
    ensures
        ({
            let sentinel = p.text(context.pattern_text);
            let admitted = !context.type_constraints.contains_key(sentinel)
                || context.type_constraints[sentinel] == s.kind;
            context.node_matches(s, p, captures) == if admitted {
                Some(noted(context, captures, sentinel, s.text(context.source_text)))
            } else {
                None
            }
        }),
{
    lemma_marked(context, p);
}

/// A leaf that is no placeholder matches the leaves of its kind with its text, and captures
/// nothing.
pub proof fn law_leaf(context: ContextSpec, s: NodeSpec, p: NodeSpec, captures: Captures)
    requires
        is_leaf(p),
        !marked(p.text(context.pattern_text)),
    ensures
        context.node_matches(s, p, captures) == if s.kind == p.kind && s.named_children().len() == 0
            && s.text(context.source_text) == p.text(context.pattern_text) {
            Some(captures)
        } else {
            None
        },
{
    lemma_marked(context, p);
    assert(!context.has_span(p.named_children()));
}

/// An anonymous node without named children matches those of its kind.
pub proof fn law_anonymous_leaf(context: ContextSpec, s: NodeSpec, p: NodeSpec, captures: Captures)
    requires
        !p.named,
        p.named_children().len() == 0,
    ensures
        context.node_matches(s, p, captures) == if s.kind == p.kind && s.named_children().len()
            == 0 {
            Some(captures)
        } else {
            None
        },
{
    assert(!context.has_span(p.named_children()));
}

/// A node of another kind is matched by a wrapped `$STMT` or `$BODY` exactly where it is a
/// statement, by a wrapped `$EXPR` exactly where it is neither a statement nor a whole file, and
/// by no other pattern. Its text is captured.
pub proof fn law_role(context: ContextSpec, s: NodeSpec, p: NodeSpec, captures: Captures)
    requires
        s.kind != p.kind,
        !sentinel_leaf(context, p),
    ensures
        ({
            let statement = wraps(context, p, SpecialKind::Stmt) || wraps(
                context,
                p,
                SpecialKind::Body,
            );
            let expression = wraps(context, p, SpecialKind::Expr);
            let whole_file = s.kind == "program"@ || s.kind == "module"@;
            context.node_matches(s, p, captures) == if (statement && names_statement(s.kind)) || (
            expression && !names_statement(s.kind) && !whole_file) {
                Some(
                    noted(
                        context,
                        captures,
                        p.named_children()[0].text(context.pattern_text),
                        s.text(context.source_text),
                    ),
                )
            } else {
                None
            }
        }),
{
    lemma_marked(context, p);
    lemma_wraps(context, p);
    lemma_statement(s.kind);
}

pub proof fn lemma_statement(kind: Seq<char>)
    ensures
        names_statement(kind) == crate::pattern::statement_kind(kind),
{
    reveal_strlit("_statement");
    reveal_strlit("labeled_statement");
    let labeled = "labeled_statement"@;
    assert(labeled.skip(labeled.len() - 10) =~= "_statement"@);
    if kind.len() >= 10 {
        assert(kind.skip(kind.len() - 10) =~= kind.subrange(kind.len() - 10, kind.len() as int));
    }
}

/// Matching the nodes in front one by one is to thread the captures through them.
pub proof fn law_each_threads(
    context: ContextSpec,
    ss: Seq<NodeSpec>,
    ps: Seq<NodeSpec>,
    count: nat,
    captures: Captures,
    r: Captures,
)
    requires
        count <= ss.len(),
        count <= ps.len(),
    ensures
        context.each_matches(ss, ps, count, captures) == Some(r) <==> exists|steps: Seq<Captures>|
            #[trigger] threads(context, ss, ps, count, steps) && steps[0] == captures
                && steps[count as int] == r,
{
    if context.each_matches(ss, ps, count, captures) == Some(r) {
        let steps = lemma_each_steps(context, ss, ps, count, captures);
        assert(threads(context, ss, ps, count, steps));
    }
    if exists|steps: Seq<Captures>| #[trigger]
        threads(context, ss, ps, count, steps) && steps[0] == captures && steps[count as int] == r {
        let steps = choose|steps: Seq<Captures>| #[trigger]
            threads(context, ss, ps, count, steps) && steps[0] == captures && steps[count as int]
                == r;
        lemma_steps_each(context, ss, ps, count, steps);
    }
}

proof fn lemma_each_steps(
    context: ContextSpec,
    ss: Seq<NodeSpec>,
    ps: Seq<NodeSpec>,
    count: nat,
    captures: Captures,
) -> (steps: Seq<Captures>)
    requires
        count <= ss.len(),
        count <= ps.len(),
        context.each_matches(ss, ps, count, captures) is Some,
    ensures
        threads(context, ss, ps, count, steps),
        steps[0] == captures,
        steps[count as int] == context.each_matches(ss, ps, count, captures)->0,
    decreases count,
{
    if count == 0 {
        seq![captures]
    } else {
        let found = context.node_matches(ss[0], ps[0], captures)->0;
        let rest = lemma_each_steps(
            context,
            ss.drop_first(),
            ps.drop_first(),
            (count - 1) as nat,
            found,
        );
        let steps = seq![captures] + rest;
        assert forall|i: int| 0 <= i < count implies context.node_matches(
            ss[i],
            ps[i],
            #[trigger] steps[i],
        ) == Some(steps[i + 1]) by {
            assert(steps[i + 1] == rest[i]);
            if i > 0 {
                assert(steps[i] == rest[i - 1]);
                assert(ss.drop_first()[i - 1] == ss[i]);
                assert(ps.drop_first()[i - 1] == ps[i]);
            }
        }
        steps
    }
}

proof fn lemma_steps_each(
    context: ContextSpec,
    ss: Seq<NodeSpec>,
    ps: Seq<NodeSpec>,
    count: nat,
    steps: Seq<Captures>,
)
    requires
        count <= ss.len(),
        count <= ps.len(),
        threads(context, ss, ps, count, steps),
    ensures
        context.each_matches(ss, ps, count, steps[0]) == Some(steps[count as int]),
    decreases count,
{
    if count > 0 {
        let rest = steps.drop_first();
        assert(context.node_matches(ss[0], ps[0], steps[0]) == Some(steps[1]));
        assert forall|i: int| 0 <= i < count - 1 implies context.node_matches(
            ss.drop_first()[i],
            ps.drop_first()[i],
            #[trigger] rest[i],
        ) == Some(rest[i + 1]) by {
            assert(rest[i] == steps[i + 1]);
            assert(rest[i + 1] == steps[i + 2]);
        }
        lemma_steps_each(context, ss.drop_first(), ps.drop_first(), (count - 1) as nat, rest);
        assert(rest[0] == steps[1]);
    }
}

/// A pattern whose last child repeats: each child in front of the repetition matches the source
/// child in its place, and the repetition takes those that are left, as many as it may.
pub proof fn law_repetition(
    context: ContextSpec,
    s: NodeSpec,
    p: NodeSpec,
    captures: Captures,
    info: RepetitionSpec,
)
    requires
        s.kind == p.kind,
        repeats_last(context, p, info),
    ensures
        ({
            let ss = s.named_children();
            let ps = p.named_children();
            let fixed = (ps.len() - 1) as nat;
            let count = ss.len() - fixed;
            let group = info.sub_sentinels.len() as int;
            context.node_matches(s, p, captures) is Some <==> {
                &&& count >= 0
                &&& info.op == "+"@ ==> count > 0
                &&& info.op == "?"@ ==> count <= 1 || count <= group
                &&& group > 0 ==> count % group == 0
                &&& exists|steps: Seq<Captures>| #[trigger]
                    threads(context, ss, ps, fixed, steps) && steps[0] == captures
            }
        }),
{
    let ss = s.named_children();
    let ps = p.named_children();
    let fixed = (ps.len() - 1) as nat;
    lemma_repeats_last(context, p, info);
    if fixed <= ss.len() {
        if exists|steps: Seq<Captures>| #[trigger]
            threads(context, ss, ps, fixed, steps) && steps[0] == captures {
            let steps = choose|steps: Seq<Captures>| #[trigger]
                threads(context, ss, ps, fixed, steps) && steps[0] == captures;
            law_each_threads(context, ss, ps, fixed, captures, steps[fixed as int]);
        }
        if context.each_matches(ss, ps, fixed, captures) is Some {
            let r = context.each_matches(ss, ps, fixed, captures)->0;
            law_each_threads(context, ss, ps, fixed, captures, r);
        }
    }
}

proof fn lemma_repeats_last(context: ContextSpec, p: NodeSpec, info: RepetitionSpec)
    requires
        repeats_last(context, p, info),
    ensures
        ({
            let ps = p.named_children();
            context.last_child_repetition(p) == Some(
                (ps[ps.len() - 1].text(context.pattern_text), info),
            )
        }),
        !context.is_placeholder(p),
{
    let ps = p.named_children();
    lemma_marked(context, ps[ps.len() - 1]);
    lemma_marked(context, p);
}

/// Every child in front of a repetition matches the source child in its place: a leaf that is no
/// placeholder has the kind and the text of the source leaf.
pub proof fn law_fixed_children(
    context: ContextSpec,
    s: NodeSpec,
    p: NodeSpec,
    captures: Captures,
    info: RepetitionSpec,
    i: int,
)
    requires
        s.kind == p.kind,
        repeats_last(context, p, info),
        context.node_matches(s, p, captures) is Some,
        0 <= i < p.named_children().len() - 1,
    ensures
        i < s.named_children().len(),
        exists|before: Captures| #[trigger]
            context.node_matches(s.named_children()[i], p.named_children()[i], before) is Some,
        is_leaf(p.named_children()[i]) && !marked(
            p.named_children()[i].text(context.pattern_text),
        ) ==> s.named_children()[i].kind == p.named_children()[i].kind
            && s.named_children()[i].text(context.source_text) == p.named_children()[i].text(
            context.pattern_text,
        ),
{
    law_repetition(context, s, p, captures, info);
    let ss = s.named_children();
    let ps = p.named_children();
    let fixed = (ps.len() - 1) as nat;
    let steps = choose|steps: Seq<Captures>| #[trigger]
        threads(context, ss, ps, fixed, steps) && steps[0] == captures;
    assert(context.node_matches(ss[i], ps[i], steps[i]) == Some(steps[i + 1]));
    if is_leaf(ps[i]) && !marked(ps[i].text(context.pattern_text)) {
        law_leaf(context, ss[i], ps[i], steps[i]);
    }
}

/// A repetition of one placeholder captures the text from the first to the last of the nodes
/// that it takes, besides what the children in front capture.
pub proof fn law_repetition_captures(
    context: ContextSpec,
    s: NodeSpec,
    p: NodeSpec,
    captures: Captures,
    info: RepetitionSpec,
)
    requires
        s.kind == p.kind,
        repeats_last(context, p, info),
        info.sub_sentinels.len() == 0,
        context.node_matches(s, p, captures) is Some,
    ensures
        ({
            let ss = s.named_children();
            let ps = p.named_children();
            let fixed = (ps.len() - 1) as nat;
            exists|steps: Seq<Captures>| #[trigger]
                threads(context, ss, ps, fixed, steps) && steps[0] == captures
                    && context.node_matches(s, p, captures) == Some(
                    noted(
                        context,
                        steps[fixed as int],
                        ps[fixed as int].text(context.pattern_text),
                        span_text(context.source_text, ss.skip(fixed as int)),
                    ),
                )
        }),
{
    lemma_repeats_last(context, p, info);
    let ss = s.named_children();
    let ps = p.named_children();
    let fixed = (ps.len() - 1) as nat;
    let r = context.each_matches(ss, ps, fixed, captures)->0;
    law_each_threads(context, ss, ps, fixed, captures, r);
    let steps = choose|steps: Seq<Captures>| #[trigger]
        threads(context, ss, ps, fixed, steps) && steps[0] == captures && steps[fixed as int] == r;
    assert(threads(context, ss, ps, fixed, steps));
}

/// A repetition of a group captures for each sentinel of the group the texts that fall to it, and
/// leaves what the children in front capture under other names.
pub proof fn law_group_captures(
    context: ContextSpec,
    s: NodeSpec,
    p: NodeSpec,
    captures: Captures,
    info: RepetitionSpec,
)
    requires
        forall|a: Seq<char>, b: Seq<char>|
            context.reverse_placeholders.contains_key(a)
                && context.reverse_placeholders.contains_key(b)
                && #[trigger] context.reverse_placeholders[a]
                == #[trigger] context.reverse_placeholders[b] ==> a == b,
        s.kind == p.kind,
        repeats_last(context, p, info),
        info.sub_sentinels.len() > 0,
        context.node_matches(s, p, captures) is Some,
    ensures
        ({
            let ss = s.named_children();
            let ps = p.named_children();
            let fixed = (ps.len() - 1) as nat;
            let group = info.sub_sentinels;
            let r = context.node_matches(s, p, captures)->0;
            exists|steps: Seq<Captures>| #[trigger]
                threads(context, ss, ps, fixed, steps) && steps[0] == captures && (forall|k: int|
                    0 <= k < group.len() && context.reverse_placeholders.contains_key(
                        #[trigger] group[k],
                    ) ==> r.contains_pair(
                        context.reverse_placeholders[group[k]],
                        group_text(context.source_text, ss.skip(fixed as int), group, group[k]),
                    )) && (forall|key: Seq<char>|
                    !named_in(context, group, key) ==> (#[trigger] r.contains_key(key)
                        <==> steps[fixed as int].contains_key(key)) && (r.contains_key(key)
                        ==> r[key] == steps[fixed as int][key]))
        }),
{
    lemma_repeats_last(context, p, info);
    let ss = s.named_children();
    let ps = p.named_children();
    let fixed = (ps.len() - 1) as nat;
    let group = info.sub_sentinels;
    let nodes = ss.skip(fixed as int);
    let found = context.each_matches(ss, ps, fixed, captures)->0;
    law_each_threads(context, ss, ps, fixed, captures, found);
    let steps = choose|steps: Seq<Captures>| #[trigger]
        threads(context, ss, ps, fixed, steps) && steps[0] == captures && steps[fixed as int]
            == found;
    lemma_groups_frame(context, found, group, nodes, group.len());
    assert forall|k: int|
        0 <= k < group.len() && context.reverse_placeholders.contains_key(
            #[trigger] group[k],
        ) implies context.node_matches(s, p, captures)->0.contains_pair(
        context.reverse_placeholders[group[k]],
        group_text(context.source_text, nodes, group, group[k]),
    ) by {
        lemma_groups_texts(context, found, group, nodes, group.len(), k);
    }
    assert(threads(context, ss, ps, fixed, steps));
}

/// The key is the name of a sentinel of a group.
pub open spec fn named_in(context: ContextSpec, group: Seq<Seq<char>>, key: Seq<char>) -> bool {
    exists|k: int|
        0 <= k < group.len() && context.reverse_placeholders.contains_key(#[trigger] group[k])
            && context.reverse_placeholders[group[k]] == key
}

proof fn lemma_groups_frame(
    context: ContextSpec,
    captures: Captures,
    group: Seq<Seq<char>>,
    nodes: Seq<NodeSpec>,
    count: nat,
)
    requires
        count <= group.len(),
    ensures
        forall|key: Seq<char>|
            !named_in(context, group, key) ==> (#[trigger] context.capture_groups(
                captures,
                group,
                nodes,
                count,
            ).contains_key(key) <==> captures.contains_key(key)) && (captures.contains_key(key)
                ==> context.capture_groups(captures, group, nodes, count)[key] == captures[key]),
    decreases count,
{
    if count > 0 {
        lemma_groups_frame(context, captures, group, nodes, (count - 1) as nat);
        let front = context.capture_groups(captures, group, nodes, (count - 1) as nat);
        assert forall|key: Seq<char>| !named_in(context, group, key) implies (
        #[trigger] context.capture_groups(captures, group, nodes, count).contains_key(key)
            <==> captures.contains_key(key)) && (captures.contains_key(key)
            ==> context.capture_groups(captures, group, nodes, count)[key] == captures[key]) by {
            assert(front.contains_key(key) <==> captures.contains_key(key));
            let sentinel = group[count - 1];
            assert(context.reverse_placeholders.contains_key(sentinel)
                ==> context.reverse_placeholders[sentinel] != key);
        }
    }
}

proof fn lemma_groups_texts(
    context: ContextSpec,
    captures: Captures,
    group: Seq<Seq<char>>,
    nodes: Seq<NodeSpec>,
    count: nat,
    k: int,
)
    requires
        forall|a: Seq<char>, b: Seq<char>|
            context.reverse_placeholders.contains_key(a)
                && context.reverse_placeholders.contains_key(b)
                && #[trigger] context.reverse_placeholders[a]
                == #[trigger] context.reverse_placeholders[b] ==> a == b,
        0 <= k < count <= group.len(),
        context.reverse_placeholders.contains_key(group[k]),
    ensures
        context.capture_groups(captures, group, nodes, count).contains_pair(
            context.reverse_placeholders[group[k]],
            group_text(context.source_text, nodes, group, group[k]),
        ),
    decreases count,
{
    if k < count - 1 {
        lemma_groups_texts(context, captures, group, nodes, (count - 1) as nat, k);
    }
}

/// The texts that fall to a sentinel of a group are those of the nodes in its place, in order.
pub proof fn law_group_text(
    text: Seq<char>,
    nodes: Seq<NodeSpec>,
    group: Seq<Seq<char>>,
    sentinel: Seq<char>,
    node: NodeSpec,
)
    requires
        group.len() > 0,
    ensures
        group_text(text, seq![], group, sentinel).len() == 0,
        group_text(text, nodes.push(node), group, sentinel) == group_text(
            text,
            nodes,
            group,
            sentinel,
        ) + (if group[(nodes.len() as int) % (group.len() as int)] == sentinel {
            node.text(text)
        } else {
            seq![]
        }),
{
    assert(nodes.push(node).drop_last() =~= nodes);
    assert(group_text(text, nodes, group, sentinel) + seq![] =~= group_text(
        text,
        nodes,
        group,
        sentinel,
    ));
}

/// A pattern node with named children, none of which spans nodes or repeats, matches a node of
/// its kind with as many named children, each of which its own child matches.
pub proof fn law_children(
    context: ContextSpec,
    s: NodeSpec,
    p: NodeSpec,
    captures: Captures,
    r: Captures,
)
    requires
        s.kind == p.kind,
        p.named_children().len() > 0,
        forall|info: RepetitionSpec| !#[trigger] repeats_last(context, p, info),
        forall|i: int|
            0 <= i < p.named_children().len() ==> !spans_nodes(
                context,
                #[trigger] p.named_children()[i],
            ),
    ensures
        ({
            let ss = s.named_children();
            let ps = p.named_children();
            context.node_matches(s, p, captures) == Some(r) <==> ss.len() == ps.len() && exists|
                steps: Seq<Captures>,
            | #[trigger]
                threads(context, ss, ps, ps.len(), steps) && steps[0] == captures
                    && steps[ps.len() as int] == r
        }),
{
    let ss = s.named_children();
    let ps = p.named_children();
    lemma_no_repetition(context, p);
    lemma_marked(context, p);
    assert forall|i: int| 0 <= i < ps.len() implies context.span_sentinel(
        #[trigger] ps[i],
    ) is None by {
        lemma_wraps(context, ps[i]);
    }
    assert(!context.has_span(ps));
    if ss.len() == ps.len() {
        lemma_children_each(context, ss, ps, captures);
        law_each_threads(context, ss, ps, ps.len(), captures, r);
    }
}

proof fn lemma_no_repetition(context: ContextSpec, p: NodeSpec)
    requires
        forall|info: RepetitionSpec| !#[trigger] repeats_last(context, p, info),
    ensures
        context.last_child_repetition(p) is None,
{
    let ps = p.named_children();
    if context.last_child_repetition(p) is Some {
        lemma_marked(context, ps[ps.len() - 1]);
        let (_, info) = context.last_child_repetition(p)->0;
        assert(repeats_last(context, p, info));
    }
}

proof fn lemma_children_each(
    context: ContextSpec,
    ss: Seq<NodeSpec>,
    ps: Seq<NodeSpec>,
    captures: Captures,
)
    requires
        ss.len() == ps.len(),
        forall|i: int| 0 <= i < ps.len() ==> context.span_sentinel(#[trigger] ps[i]) is None,
    ensures
        context.children_match(ss, ps, captures) == context.each_matches(
            ss,
            ps,
            ps.len(),
            captures,
        ),
    decreases ps.len(),
{
    if ps.len() > 0 {
        assert(context.span_sentinel(ps[0]) is None);
        if let Some(found) = context.node_matches(ss[0], ps[0], captures) {
            assert forall|i: int| 0 <= i < ps.drop_first().len() implies context.span_sentinel(
                #[trigger] ps.drop_first()[i],
            ) is None by {
                assert(ps.drop_first()[i] == ps[i + 1]);
            }
            lemma_children_each(context, ss.drop_first(), ps.drop_first(), found);
        }
    }
}

/// Every child of such a pattern matches the source child in its place: a leaf that is no
/// placeholder has the kind and the text of the source leaf.
pub proof fn law_each_child(
    context: ContextSpec,
    s: NodeSpec,
    p: NodeSpec,
    captures: Captures,
    i: int,
)
    requires
        s.kind == p.kind,
        forall|info: RepetitionSpec| !#[trigger] repeats_last(context, p, info),
        forall|j: int|
            0 <= j < p.named_children().len() ==> !spans_nodes(
                context,
                #[trigger] p.named_children()[j],
            ),
        context.node_matches(s, p, captures) is Some,
        0 <= i < p.named_children().len(),
    ensures
        s.named_children().len() == p.named_children().len(),
        is_leaf(p.named_children()[i]) && !marked(
            p.named_children()[i].text(context.pattern_text),
        ) ==> s.named_children()[i].kind == p.named_children()[i].kind
            && s.named_children()[i].text(context.source_text) == p.named_children()[i].text(
            context.pattern_text,
        ),
{
    let ss = s.named_children();
    let ps = p.named_children();
    let r = context.node_matches(s, p, captures)->0;
    law_children(context, s, p, captures, r);
    let steps = choose|steps: Seq<Captures>| #[trigger]
        threads(context, ss, ps, ps.len(), steps) && steps[0] == captures && steps[ps.len() as int]
            == r;
    assert(context.node_matches(ss[i], ps[i], steps[i]) == Some(steps[i + 1]));
    if is_leaf(ps[i]) && !marked(ps[i].text(context.pattern_text)) {
        law_leaf(context, ss[i], ps[i], steps[i]);
    }
}

/// A pattern node one of whose children spans nodes matches a node of its kind as the children
/// match.
pub proof fn law_spanning_children(
    context: ContextSpec,
    s: NodeSpec,
    p: NodeSpec,
    captures: Captures,
    i: int,
)
    requires
        s.kind == p.kind,
        forall|info: RepetitionSpec| !#[trigger] repeats_last(context, p, info),
        0 <= i < p.named_children().len(),
        spans_nodes(context, p.named_children()[i]),
    ensures
        context.node_matches(s, p, captures) == context.children_match(
            s.named_children(),
            p.named_children(),
            captures,
        ),
{
    lemma_no_repetition(context, p);
    lemma_marked(context, p);
    lemma_wraps(context, p.named_children()[i]);
    assert(context.has_span(p.named_children()));
}

/// No pattern children match no source children only.
pub proof fn law_no_children(context: ContextSpec, ss: Seq<NodeSpec>, captures: Captures)
    ensures
        context.children_match(ss, seq![], captures) == if ss.len() == 0 {
            Some(captures)
        } else {
            None
        },
{
}

/// Children match where the first matches the first and the others match the others with the
/// captures of the first, unless the first pattern child spans nodes.
pub proof fn law_first_child(
    context: ContextSpec,
    ss: Seq<NodeSpec>,
    ps: Seq<NodeSpec>,
    captures: Captures,
    r: Captures,
)
    requires
        ps.len() > 0,
        !spans_nodes(context, ps[0]),
    ensures
        context.children_match(ss, ps, captures) == Some(r) <==> ss.len() > 0 && exists|
            found: Captures,
        | #[trigger]
            context.children_match(ss.drop_first(), ps.drop_first(), found) == Some(r)
                && context.node_matches(ss[0], ps[0], captures) == Some(found),
{
    lemma_wraps(context, ps[0]);
    if ss.len() > 0 {
        if let Some(found) = context.node_matches(ss[0], ps[0], captures) {
            assert(context.children_match(ss, ps, captures) == context.children_match(
                ss.drop_first(),
                ps.drop_first(),
                found,
            ));
        }
    }
}

/// What the first pattern child, which spans nodes, captures of the first `k` source nodes.
pub open spec fn span_noted(
    context: ContextSpec,
    ss: Seq<NodeSpec>,
    p: NodeSpec,
    k: int,
    captures: Captures,
) -> Captures {
    let sentinel = if wraps(context, p, SpecialKind::Body) {
        p.named_children()[0].text(context.pattern_text)
    } else {
        p.text(context.pattern_text)
    };
    noted(context, captures, sentinel, span_text(context.source_text, ss.take(k)))
}

/// A spanning child may take `k` of the source nodes: a spanning leaf recorded with `+` at least
/// one, with `?` at most one.
pub open spec fn may_take(context: ContextSpec, ss: Seq<NodeSpec>, p: NodeSpec, k: int) -> bool {
    &&& 0 <= k <= ss.len()
    &&& !wraps(context, p, SpecialKind::Body) ==> {
        let op = context.repetitions[p.text(context.pattern_text)].op;
        &&& op == "+"@ ==> k >= 1
        &&& op == "?"@ ==> k <= 1
    }
}

/// A spanning child in front takes the fewest nodes that it may take so that the rest matches;
/// where no number lets the rest match, there is no match.
pub proof fn law_spanning_child(
    context: ContextSpec,
    ss: Seq<NodeSpec>,
    ps: Seq<NodeSpec>,
    captures: Captures,
)
    requires
        ps.len() > 0,
        spans_nodes(context, ps[0]),
    ensures
        context.children_match(ss, ps, captures) is Some <==> exists|k: int| #[trigger]
            may_take(context, ss, ps[0], k) && context.children_match(
                ss.skip(k),
                ps.drop_first(),
                span_noted(context, ss, ps[0], k, captures),
            ) is Some,
        context.children_match(ss, ps, captures) matches Some(r) ==> exists|k: int| #[trigger]
            may_take(context, ss, ps[0], k) && context.children_match(
                ss.skip(k),
                ps.drop_first(),
                span_noted(context, ss, ps[0], k, captures),
            ) == Some(r) && forall|m: int| #[trigger]
                may_take(context, ss, ps[0], m) && m < k ==> context.children_match(
                    ss.skip(m),
                    ps.drop_first(),
                    span_noted(context, ss, ps[0], m, captures),
                ) is None,
{
    let p = ps[0];
    lemma_wraps(context, p);
    lemma_operators();
    let least = context.span_least(p);
    let limit = context.span_limit(ss, ps);
    assert forall|k: int| #[trigger] may_take(context, ss, p, k) implies least <= k <= limit
        && span_rest(context, ss, ps, k as nat, captures) == context.children_match(
        ss.skip(k),
        ps.drop_first(),
        span_noted(context, ss, p, k, captures),
    ) by {}
    if context.children_match(ss, ps, captures) is Some {
        let k = lemma_span_first(context, ss, ps, least, captures);
        assert(may_take(context, ss, p, k as int));
        assert forall|m: int| #[trigger] may_take(context, ss, p, m) && m
            < k implies context.children_match(
            ss.skip(m),
            ps.drop_first(),
            span_noted(context, ss, p, m, captures),
        ) is None by {
            assert(span_rest(context, ss, ps, m as nat, captures) is None);
        }
    }
    if exists|k: int| #[trigger]
        may_take(context, ss, p, k) && context.children_match(
            ss.skip(k),
            ps.drop_first(),
            span_noted(context, ss, p, k, captures),
        ) is Some {
        let k = choose|k: int| #[trigger]
            may_take(context, ss, p, k) && context.children_match(
                ss.skip(k),
                ps.drop_first(),
                span_noted(context, ss, p, k, captures),
            ) is Some;
        lemma_span_tries(context, ss, ps, least, captures, k as nat);
    }
}

proof fn lemma_operators()
    ensures
        "*"@ != "+"@,
        "*"@ != "?"@,
        "+"@ != "?"@,
{
    reveal_strlit("*");
    reveal_strlit("+");
    reveal_strlit("?");
    assert("*"@[0] == '*');
    assert("+"@[0] == '+');
    assert("?"@[0] == '?');
}

} // verus!
