//! Laws of matching a source tree against a pattern tree.
use crate::pattern::{group_text, role_matches, Captures, ContextSpec};
use crate::scan::SpecialKind;
use crate::snippet::RepetitionSpec;
use crate::tree::{
    lemma_named_size, lemma_size_drop_first, lemma_total_size, span_text, total_size, NodeSpec,
};
use vstd::prelude::*;

verus! {

/// A placeholder matches exactly the nodes that its constraint admits, and captures their text.
pub proof fn law_placeholder_matches(
    context: ContextSpec,
    s: NodeSpec,
    p: NodeSpec,
    captures: Captures,
)
    requires
        context.is_placeholder(p),
    ensures
        ({
            let sentinel = p.text(context.pattern_text);
            let r = context.node_matches(s, p, captures);
            &&& r is Some <==> context.constraint_holds(sentinel, s.kind)
            &&& r is Some && context.reverse_placeholders.contains_key(sentinel)
                ==> r->0 == captures.insert(
                context.reverse_placeholders[sentinel],
                s.text(context.source_text),
            )
            &&& r is Some && !context.reverse_placeholders.contains_key(sentinel) ==> r->0
                == captures
        }),
{
}

/// A node of another kind than the pattern matches only where the pattern is a placeholder, or
/// wraps a special placeholder whose role the node has.
pub proof fn law_kinds_agree(context: ContextSpec, s: NodeSpec, p: NodeSpec, captures: Captures)
    requires
        s.kind != p.kind,
        !context.is_placeholder(p),
    ensures
        context.node_matches(s, p, captures) is Some <==> (context.wraps_special(p) is Some
            && role_matches(context.wraps_special(p)->0, s.kind)),
{
}

/// Named leaves that are no placeholders match by kind and text.
pub proof fn law_leaves_by_text(context: ContextSpec, s: NodeSpec, p: NodeSpec, captures: Captures)
    requires
        p.named,
        p.named_children().len() == 0,
        s.named_children().len() == 0,
        !context.is_placeholder(p),
    ensures
        context.node_matches(s, p, captures) is Some <==> (s.kind == p.kind && s.text(
            context.source_text,
        ) == p.text(context.pattern_text)),
        context.node_matches(s, p, captures) is Some ==> context.node_matches(s, p, captures)
            == Some(captures),
{
    assert(!context.has_span(p.named_children()));
}

/// A repetition as last child takes the children that the pattern leaves over, where those in
/// front of it match: any number for `*`, at least one for `+`, at most one for `?`. Of a group
/// it takes whole groups, and at most one for `?`.
pub proof fn law_repetition_count(context: ContextSpec, s: NodeSpec, p: NodeSpec, captures: Captures)
    requires
        s.kind == p.kind,
        context.last_child_repetition(p) is Some,
    ensures
        ({
            let (_, info) = context.last_child_repetition(p)->0;
            let ss = s.named_children();
            let ps = p.named_children();
            let fixed = (ps.len() - 1) as nat;
            let count = ss.len() - fixed;
            context.node_matches(s, p, captures) is Some <==> {
                &&& count >= 0
                &&& info.op == "+"@ ==> count >= 1
                &&& info.op == "?"@ ==> count <= (if info.sub_sentinels.len() > 0 {
                    info.sub_sentinels.len() as int
                } else {
                    1
                })
                &&& info.sub_sentinels.len() > 0 ==> count % info.sub_sentinels.len() as int == 0
                &&& context.each_matches(ss, ps, fixed, captures) is Some
            }
        }),
{
}

/// A pattern without repetitions and spanning placeholders fixes the number of named children.
pub proof fn law_child_count(context: ContextSpec, s: NodeSpec, p: NodeSpec, captures: Captures)
    requires
        s.kind == p.kind,
        !context.is_placeholder(p),
        context.last_child_repetition(p) is None,
        !context.has_span(p.named_children()),
        context.node_matches(s, p, captures) is Some,
    ensures
        s.named_children().len() == p.named_children().len(),
{
}

/// The first number of nodes, from `n` on, that lets the rest match.
pub proof fn lemma_span_first(
    context: ContextSpec,
    ss: Seq<NodeSpec>,
    ps: Seq<NodeSpec>,
    n: nat,
    captures: Captures,
) -> (k: nat)
    requires
        context.span_matches(ss, ps, n, captures) is Some,
    ensures
        n <= k <= context.span_limit(ss, ps),
        context.span_matches(ss, ps, n, captures) == span_rest(context, ss, ps, k, captures),
        forall|m: nat| n <= m < k ==> #[trigger] span_rest(context, ss, ps, m, captures) is None,
    decreases context.span_limit(ss, ps) + 1 - n,
{
    if span_rest(context, ss, ps, n, captures) is Some {
        n
    } else {
        lemma_span_first(context, ss, ps, n + 1, captures)
    }
}

/// What comes of a spanning placeholder in front that takes `n` of the source nodes.
pub open spec fn span_rest(
    context: ContextSpec,
    ss: Seq<NodeSpec>,
    ps: Seq<NodeSpec>,
    n: nat,
    captures: Captures,
) -> Option<Captures> {
    context.children_match(
        ss.skip(n as int),
        ps.drop_first(),
        context.capture(
            captures,
            context.span_sentinel(ps[0])->0,
            span_text(context.source_text, ss.take(n as int)),
        ),
    )
}

/// A spanning placeholder takes as few nodes as it can so that the rest of the pattern matches,
/// and the text of those nodes.
pub proof fn law_span_shortest(
    context: ContextSpec,
    ss: Seq<NodeSpec>,
    ps: Seq<NodeSpec>,
    captures: Captures,
)
    requires
        ps.len() > 0,
        context.span_sentinel(ps[0]) is Some,
        context.children_match(ss, ps, captures) is Some,
    ensures
        exists|k: nat|
            context.span_least(ps[0]) <= k <= context.span_limit(ss, ps) && #[trigger] span_rest(
                context,
                ss,
                ps,
                k,
                captures,
            ) == context.children_match(ss, ps, captures) && forall|m: nat|
                context.span_least(ps[0]) <= m < k ==> #[trigger] span_rest(
                    context,
                    ss,
                    ps,
                    m,
                    captures,
                ) is None,
{
    let k = lemma_span_first(context, ss, ps, context.span_least(ps[0]), captures);
    assert(span_rest(context, ss, ps, k, captures) == context.children_match(ss, ps, captures));
}

/// A spanning placeholder tries every number of nodes that it can take: where one of them lets
/// the rest of the pattern match, the whole matches.
pub proof fn law_span_tries_all(
    context: ContextSpec,
    ss: Seq<NodeSpec>,
    ps: Seq<NodeSpec>,
    captures: Captures,
    k: nat,
)
    requires
        ps.len() > 0,
        context.span_sentinel(ps[0]) is Some,
        context.span_op(ps[0]) == "+"@ ==> k >= 1,
        context.span_op(ps[0]) == "?"@ ==> k <= 1,
        k <= ss.len(),
        span_rest(context, ss, ps, k, captures) is Some,
    ensures
        context.children_match(ss, ps, captures) is Some,
{
    lemma_span_tries(context, ss, ps, context.span_least(ps[0]), captures, k);
}

pub proof fn lemma_span_tries(
    context: ContextSpec,
    ss: Seq<NodeSpec>,
    ps: Seq<NodeSpec>,
    n: nat,
    captures: Captures,
    k: nat,
)
    requires
        ps.len() > 0,
        n <= k <= context.span_limit(ss, ps),
        span_rest(context, ss, ps, k, captures) is Some,
    ensures
        context.span_matches(ss, ps, n, captures) is Some,
    decreases k - n,
{
    if n < k && span_rest(context, ss, ps, n, captures) is None {
        lemma_span_tries(context, ss, ps, n + 1, captures, k);
    }
}

/// A spanning placeholder with `*` alone takes all nodes, however many there are.
pub proof fn law_span_takes_all(
    context: ContextSpec,
    ss: Seq<NodeSpec>,
    p: NodeSpec,
    captures: Captures,
)
    requires
        context.span_sentinel(p) is Some,
        context.span_op(p) == "*"@,
    ensures
        context.children_match(ss, seq![p], captures) == Some(
            context.capture(
                captures,
                context.span_sentinel(p)->0,
                span_text(context.source_text, ss),
            ),
        ),
{
    lemma_operators_differ();
    lemma_span_all(context, ss, p, 0, captures);
}

/// The operators are told apart by their texts.
proof fn lemma_operators_differ()
    ensures
        "*"@ != "+"@,
        "*"@ != "?"@,
{
    reveal_strlit("*");
    reveal_strlit("+");
    reveal_strlit("?");
    assert("*"@[0] == '*');
    assert("+"@[0] == '+');
    assert("?"@[0] == '?');
}

proof fn lemma_span_all(
    context: ContextSpec,
    ss: Seq<NodeSpec>,
    p: NodeSpec,
    n: nat,
    captures: Captures,
)
    requires
        context.span_sentinel(p) is Some,
        context.span_op(p) == "*"@,
        n <= ss.len(),
    ensures
        context.span_matches(ss, seq![p], n, captures) == Some(
            context.capture(
                captures,
                context.span_sentinel(p)->0,
                span_text(context.source_text, ss),
            ),
        ),
    decreases ss.len() - n,
{
    lemma_operators_differ();
    let ps = seq![p];
    let rest = span_rest(context, ss, ps, n, captures);
    assert(ps.drop_first().len() == 0);
    assert(context.span_limit(ss, ps) == ss.len());
    if n < ss.len() {
        assert(rest is None);
        lemma_span_all(context, ss, p, n + 1, captures);
    } else {
        assert(ss.take(n as int) =~= ss);
        assert(rest is Some);
    }
}

/// The placeholders are left as they are but for those with a name: no other key is added,
/// changed or taken away, and no key is taken away at all.
pub open spec fn adds_named(context: ContextSpec, before: Captures, after: Captures) -> bool {
    &&& forall|key: Seq<char>| #[trigger] before.contains_key(key) ==> after.contains_key(key)
    &&& forall|key: Seq<char>| #[trigger]
        after.contains_key(key) && !is_name(context, key) ==> before.contains_pair(
            key,
            after[key],
        )
}

/// There is a placeholder with this name.
pub open spec fn is_name(context: ContextSpec, key: Seq<char>) -> bool {
    exists|sentinel: Seq<char>| context.reverse_placeholders.contains_pair(sentinel, key)
}

proof fn lemma_capture_adds(
    context: ContextSpec,
    before: Captures,
    captures: Captures,
    sentinel: Seq<char>,
    text: Seq<char>,
)
    requires
        adds_named(context, before, captures),
    ensures
        adds_named(context, before, context.capture(captures, sentinel, text)),
{
    if context.reverse_placeholders.contains_key(sentinel) {
        let name = context.reverse_placeholders[sentinel];
        assert(context.reverse_placeholders.contains_pair(sentinel, name));
        assert(is_name(context, name));
        let after = context.capture(captures, sentinel, text);
        assert forall|key: Seq<char>| #[trigger]
            after.contains_key(key) && !is_name(context, key) implies before.contains_pair(
            key,
            after[key],
        ) by {
            assert(captures.contains_key(key));
        }
    }
}

proof fn lemma_groups_add(
    context: ContextSpec,
    before: Captures,
    captures: Captures,
    group: Seq<Seq<char>>,
    nodes: Seq<NodeSpec>,
    count: nat,
)
    requires
        adds_named(context, before, captures),
    ensures
        adds_named(context, before, context.capture_groups(captures, group, nodes, count)),
    decreases count,
{
    if count > 0 {
        lemma_groups_add(context, before, captures, group, nodes, (count - 1) as nat);
        let sentinel = group[count - 1];
        lemma_capture_adds(
            context,
            before,
            context.capture_groups(captures, group, nodes, (count - 1) as nat),
            sentinel,
            group_text(context.source_text, nodes, group, sentinel),
        );
    }
}

/// A match captures under the names of placeholders only, and keeps what was captured under
/// any other key.
pub proof fn law_captures_named(
    context: ContextSpec,
    before: Captures,
    s: NodeSpec,
    p: NodeSpec,
    captures: Captures,
)
    requires
        adds_named(context, before, captures),
        context.node_matches(s, p, captures) is Some,
    ensures
        adds_named(context, before, context.node_matches(s, p, captures)->0),
    decreases p.size(), 0nat, 0nat,
{
    lemma_named_size(p.children);
    let ss = s.named_children();
    let ps = p.named_children();
    let sentinel = p.text(context.pattern_text);
    if context.is_placeholder(p) {
        lemma_capture_adds(context, before, captures, sentinel, s.text(context.source_text));
    } else if s.kind != p.kind {
        lemma_capture_adds(
            context,
            before,
            captures,
            context.inner_sentinel(p)->0,
            s.text(context.source_text),
        );
    } else if let Some((last, info)) = context.last_child_repetition(p) {
        let fixed = (ps.len() - 1) as nat;
        lemma_each_adds(context, before, ss, ps, fixed, captures);
        let found = context.each_matches(ss, ps, fixed, captures)->0;
        let nodes = ss.skip(fixed as int);
        lemma_capture_adds(
            context,
            before,
            found,
            last,
            span_text(context.source_text, nodes),
        );
        lemma_groups_add(
            context,
            before,
            found,
            info.sub_sentinels,
            nodes,
            info.sub_sentinels.len(),
        );
    } else if !context.has_span(ps) && ps.len() == 0 {
    } else {
        lemma_children_add(context, before, ss, ps, captures);
    }
}

proof fn lemma_each_adds(
    context: ContextSpec,
    before: Captures,
    ss: Seq<NodeSpec>,
    ps: Seq<NodeSpec>,
    count: nat,
    captures: Captures,
)
    requires
        adds_named(context, before, captures),
        context.each_matches(ss, ps, count, captures) is Some,
    ensures
        adds_named(context, before, context.each_matches(ss, ps, count, captures)->0),
    decreases total_size(ps), 1nat, count,
{
    if count > 0 && ps.len() > 0 {
        lemma_size_drop_first(ps);
        law_captures_named(context, before, ss[0], ps[0], captures);
        let found = context.node_matches(ss[0], ps[0], captures)->0;
        lemma_each_adds(
            context,
            before,
            ss.drop_first(),
            ps.drop_first(),
            (count - 1) as nat,
            found,
        );
    }
}

proof fn lemma_children_add(
    context: ContextSpec,
    before: Captures,
    ss: Seq<NodeSpec>,
    ps: Seq<NodeSpec>,
    captures: Captures,
)
    requires
        adds_named(context, before, captures),
        context.children_match(ss, ps, captures) is Some,
    ensures
        adds_named(context, before, context.children_match(ss, ps, captures)->0),
    decreases total_size(ps), 2nat, 0nat,
{
    if ps.len() > 0 {
        lemma_size_drop_first(ps);
        if context.span_sentinel(ps[0]) is Some {
            let n = lemma_span_first(context, ss, ps, context.span_least(ps[0]), captures);
            let text = span_text(context.source_text, ss.take(n as int));
            let sentinel = context.span_sentinel(ps[0])->0;
            lemma_capture_adds(context, before, captures, sentinel, text);
            lemma_children_add(
                context,
                before,
                ss.skip(n as int),
                ps.drop_first(),
                context.capture(captures, sentinel, text),
            );
        } else {
            law_captures_named(context, before, ss[0], ps[0], captures);
            let found = context.node_matches(ss[0], ps[0], captures)->0;
            lemma_children_add(context, before, ss.drop_first(), ps.drop_first(), found);
        }
    }
}

/// The sentinel stands in the pattern, as a placeholder or below a named node.
pub open spec fn holds_sentinel(context: ContextSpec, p: NodeSpec, sentinel: Seq<char>) -> bool
    decreases p.size(),
{
    proof {
        lemma_named_size(p.children);
        lemma_total_size(p.named_children());
    }
    ||| context.is_placeholder(p) && p.text(context.pattern_text) == sentinel
    ||| exists|i: int|
        0 <= i < p.named_children().len() && holds_sentinel(
            context,
            #[trigger] p.named_children()[i],
            sentinel,
        )
}

/// The sentinel names a placeholder whose text is captured in one piece.
pub open spec fn is_single(context: ContextSpec, sentinel: Seq<char>) -> bool {
    &&& context.reverse_placeholders.contains_key(sentinel)
    &&& context.repetitions.contains_key(sentinel)
        ==> context.repetitions[sentinel].sub_sentinels.len() == 0
}

/// A leaf holds a sentinel only as a placeholder.
proof fn lemma_leaf_holds(context: ContextSpec, p: NodeSpec, sentinel: Seq<char>)
    requires
        p.named_children().len() == 0,
        holds_sentinel(context, p, sentinel),
    ensures
        p.text(context.pattern_text) == sentinel,
        context.is_placeholder(p),
{
}

/// Every named placeholder in a pattern is captured by every match of the pattern.
pub proof fn law_placeholders_captured(
    context: ContextSpec,
    s: NodeSpec,
    p: NodeSpec,
    captures: Captures,
    sentinel: Seq<char>,
)
    requires
        is_single(context, sentinel),
        holds_sentinel(context, p, sentinel),
        context.node_matches(s, p, captures) is Some,
    ensures
        context.node_matches(s, p, captures)->0.contains_key(context.reverse_placeholders[sentinel]),
    decreases p.size(), 0nat, 0nat,
{
    lemma_named_size(p.children);
    let ss = s.named_children();
    let ps = p.named_children();
    if context.is_placeholder(p) {
        lemma_leaf_holds(context, p, sentinel);
    } else {
        let i = choose|i: int| 0 <= i < ps.len() && holds_sentinel(context, #[trigger] ps[i], sentinel);
        if s.kind != p.kind {
            lemma_leaf_holds(context, ps[0], sentinel);
        } else if let Some((last, info)) = context.last_child_repetition(p) {
            let fixed = (ps.len() - 1) as nat;
            let found = context.each_matches(ss, ps, fixed, captures)->0;
            let nodes = ss.skip(fixed as int);
            if i < fixed {
                lemma_each_captures(context, ss, ps, fixed, captures, sentinel, i);
                lemma_capture_adds(
                    context,
                    found,
                    found,
                    last,
                    span_text(context.source_text, nodes),
                );
                lemma_groups_add(
                    context,
                    found,
                    found,
                    info.sub_sentinels,
                    nodes,
                    info.sub_sentinels.len(),
                );
            } else {
                lemma_leaf_holds(context, ps.last(), sentinel);
            }
        } else {
            assert(ps.len() > 0);
            lemma_children_capture(context, ss, ps, captures, sentinel, i);
        }
    }
}

proof fn lemma_each_captures(
    context: ContextSpec,
    ss: Seq<NodeSpec>,
    ps: Seq<NodeSpec>,
    count: nat,
    captures: Captures,
    sentinel: Seq<char>,
    i: int,
)
    requires
        is_single(context, sentinel),
        0 <= i < count <= ps.len(),
        holds_sentinel(context, ps[i], sentinel),
        context.each_matches(ss, ps, count, captures) is Some,
    ensures
        context.each_matches(ss, ps, count, captures)->0.contains_key(
            context.reverse_placeholders[sentinel],
        ),
    decreases total_size(ps), 1nat, count,
{
    lemma_size_drop_first(ps);
    let found = context.node_matches(ss[0], ps[0], captures)->0;
    let rest = (count - 1) as nat;
    if i == 0 {
        law_placeholders_captured(context, ss[0], ps[0], captures, sentinel);
        lemma_each_adds(context, found, ss.drop_first(), ps.drop_first(), rest, found);
    } else {
        assert(ps.drop_first()[i - 1] == ps[i]);
        lemma_each_captures(
            context,
            ss.drop_first(),
            ps.drop_first(),
            rest,
            found,
            sentinel,
            i - 1,
        );
    }
}

proof fn lemma_children_capture(
    context: ContextSpec,
    ss: Seq<NodeSpec>,
    ps: Seq<NodeSpec>,
    captures: Captures,
    sentinel: Seq<char>,
    i: int,
)
    requires
        is_single(context, sentinel),
        0 <= i < ps.len(),
        holds_sentinel(context, ps[i], sentinel),
        context.children_match(ss, ps, captures) is Some,
    ensures
        context.children_match(ss, ps, captures)->0.contains_key(
            context.reverse_placeholders[sentinel],
        ),
    decreases total_size(ps), 2nat, 0nat,
{
    lemma_size_drop_first(ps);
    let rest = ps.drop_first();
    if i > 0 {
        assert(rest[i - 1] == ps[i]);
    }
    if context.span_sentinel(ps[0]) is Some {
        let n = lemma_span_first(context, ss, ps, context.span_least(ps[0]), captures);
        let taken = context.capture(
            captures,
            context.span_sentinel(ps[0])->0,
            span_text(context.source_text, ss.take(n as int)),
        );
        if i == 0 {
            if context.wraps_special(ps[0]) == Some(SpecialKind::Body) {
                assert(!context.is_placeholder(ps[0]));
                lemma_leaf_holds(context, ps[0].named_children()[0], sentinel);
            } else {
                lemma_leaf_holds(context, ps[0], sentinel);
            }
            assert(context.span_sentinel(ps[0]) == Some(sentinel));
            assert(taken.contains_key(context.reverse_placeholders[sentinel]));
            lemma_children_add(context, taken, ss.skip(n as int), rest, taken);
        } else {
            lemma_children_capture(context, ss.skip(n as int), rest, taken, sentinel, i - 1);
        }
    } else {
        let found = context.node_matches(ss[0], ps[0], captures)->0;
        if i == 0 {
            law_placeholders_captured(context, ss[0], ps[0], captures, sentinel);
            lemma_children_add(context, found, ss.drop_first(), rest, found);
        } else {
            lemma_children_capture(context, ss.drop_first(), rest, found, sentinel, i - 1);
        }
    }
}

/// No two sentinels have the same name.
pub open spec fn names_unique(context: ContextSpec) -> bool {
    forall|a: Seq<char>, b: Seq<char>|
        context.reverse_placeholders.contains_key(a) && context.reverse_placeholders.contains_key(b)
            && #[trigger] context.reverse_placeholders[a]
            == #[trigger] context.reverse_placeholders[b] ==> a == b
}

/// A repetition of a group captures for each placeholder of the group the texts of the nodes
/// that fall to it, put together.
pub proof fn law_group_captured(
    context: ContextSpec,
    s: NodeSpec,
    p: NodeSpec,
    captures: Captures,
    k: int,
)
    requires
        names_unique(context),
        s.kind == p.kind,
        context.last_child_repetition(p) is Some,
        context.node_matches(s, p, captures) is Some,
        ({
            let (_, info) = context.last_child_repetition(p)->0;
            &&& 0 <= k < info.sub_sentinels.len()
            &&& context.reverse_placeholders.contains_key(info.sub_sentinels[k])
        }),
    ensures
        ({
            let (_, info) = context.last_child_repetition(p)->0;
            let sentinel = info.sub_sentinels[k];
            let nodes = s.named_children().skip(p.named_children().len() - 1);
            context.node_matches(s, p, captures)->0.contains_pair(
                context.reverse_placeholders[sentinel],
                group_text(context.source_text, nodes, info.sub_sentinels, sentinel),
            )
        }),
{
    let (_, info) = context.last_child_repetition(p)->0;
    let ps = p.named_children();
    let fixed = (ps.len() - 1) as nat;
    let found = context.each_matches(s.named_children(), ps, fixed, captures)->0;
    lemma_group_captured(
        context,
        found,
        info.sub_sentinels,
        s.named_children().skip(fixed as int),
        info.sub_sentinels.len(),
        k,
    );
}

proof fn lemma_group_captured(
    context: ContextSpec,
    captures: Captures,
    group: Seq<Seq<char>>,
    nodes: Seq<NodeSpec>,
    count: nat,
    k: int,
)
    requires
        names_unique(context),
        0 <= k < count <= group.len(),
        context.reverse_placeholders.contains_key(group[k]),
    ensures
        context.capture_groups(captures, group, nodes, count).contains_pair(
            context.reverse_placeholders[group[k]],
            group_text(context.source_text, nodes, group, group[k]),
        ),
    decreases count,
{
    if k < count - 1 {
        lemma_group_captured(context, captures, group, nodes, (count - 1) as nat, k);
    }
}

/// The pattern has no placeholders, and source and pattern are laid out on the same text.
pub open spec fn is_plain(context: ContextSpec) -> bool {
    &&& context.source_text == context.pattern_text
    &&& context.reverse_placeholders == Map::<Seq<char>, Seq<char>>::empty()
    &&& context.repetitions == Map::<Seq<char>, RepetitionSpec>::empty()
    &&& context.specials == Map::<Seq<char>, SpecialKind>::empty()
    &&& context.type_constraints == Map::<Seq<char>, Seq<char>>::empty()
}

/// A tree without placeholders matches itself, and nothing is captured.
pub proof fn law_plain_matches_itself(context: ContextSpec, node: NodeSpec, captures: Captures)
    requires
        is_plain(context),
    ensures
        context.node_matches(node, node, captures) == Some(captures),
    decreases node.size(), 0nat,
{
    lemma_named_size(node.children);
    let children = node.named_children();
    assert forall|p: NodeSpec| #[trigger] context.span_sentinel(p) is None by {
        assert(context.wraps_special(p) is None);
        assert(!context.is_multi_placeholder(p));
    }
    assert(!context.has_span(children));
    assert(context.last_child_repetition(node) is None);
    lemma_plain_children(context, children, captures);
}

proof fn lemma_plain_children(context: ContextSpec, nodes: Seq<NodeSpec>, captures: Captures)
    requires
        is_plain(context),
        forall|p: NodeSpec| #[trigger] context.span_sentinel(p) is None,
    ensures
        context.children_match(nodes, nodes, captures) == Some(captures),
    decreases total_size(nodes), 1nat,
{
    if nodes.len() > 0 {
        lemma_size_drop_first(nodes);
        law_plain_matches_itself(context, nodes[0], captures);
        lemma_plain_children(context, nodes.drop_first(), captures);
    }
}

} // verus!
