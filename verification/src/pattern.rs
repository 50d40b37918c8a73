//! What it means for a source tree to match a pattern tree.
use crate::scan::SpecialKind;
use crate::snippet::{RepetitionKind, RepetitionSpec};
use crate::tree::{lemma_named_size, lemma_size_drop_first, span_text, total_size, NodeSpec};
use vstd::prelude::*;

verus! {

/// The texts that placeholders have matched, by placeholder name.
pub type Captures = Map<Seq<char>, Seq<char>>;

/// What matching depends on besides the two trees: the texts that they are laid out on, and
/// what the sentinels in the pattern text stand for.
pub struct ContextSpec {
    pub source_text: Seq<char>,
    pub pattern_text: Seq<char>,
    pub reverse_placeholders: Map<Seq<char>, Seq<char>>,
    pub repetitions: Map<Seq<char>, RepetitionSpec>,
    pub specials: Map<Seq<char>, SpecialKind>,
    pub type_constraints: Map<Seq<char>, Seq<char>>,
}

/// A node kind that wraps a whole file.
pub open spec fn root_wrapper_kind(kind: Seq<char>) -> bool {
    kind == "program"@ || kind == "module"@
}

/// A node kind that represents a statement.
pub open spec fn statement_kind(kind: Seq<char>) -> bool {
    ||| "_statement"@.is_suffix_of(kind)
    ||| kind == "block"@
    ||| kind == "local_variable_declaration"@
    ||| kind == "switch_block_statement_group"@
    ||| kind == "labeled_statement"@
}

/// The node kinds whose role a special placeholder stands for.
pub open spec fn role_matches(special: SpecialKind, kind: Seq<char>) -> bool {
    match special {
        SpecialKind::Body | SpecialKind::Stmt => statement_kind(kind),
        SpecialKind::Expr => !statement_kind(kind) && !root_wrapper_kind(kind),
    }
}

/// The texts of those nodes, put together, that stand where `sentinel` stands when the
/// sentinels of a group are laid out over the nodes again and again.
pub open spec fn group_text(
    text: Seq<char>,
    nodes: Seq<NodeSpec>,
    group: Seq<Seq<char>>,
    sentinel: Seq<char>,
) -> Seq<char>
    decreases nodes.len(),
{
    if nodes.len() == 0 {
        seq![]
    } else {
        let before = group_text(text, nodes.drop_last(), group, sentinel);
        if group[(nodes.len() - 1) % group.len() as int] == sentinel {
            before + nodes.last().text(text)
        } else {
            before
        }
    }
}

impl ContextSpec {
    /// A leaf whose text begins with the prefix `_pw_` of the sentinels. The prefix is
    /// reserved: an identifier of the snippet that begins with it is a placeholder too.
    pub open spec fn is_placeholder(self, p: NodeSpec) -> bool {
        &&& p.named
        &&& p.named_children().len() == 0
        &&& "_pw_"@.is_prefix_of(p.text(self.pattern_text))
    }

    /// A leaf that stands for any number of consecutive children.
    pub open spec fn is_multi_placeholder(self, p: NodeSpec) -> bool {
        let sentinel = p.text(self.pattern_text);
        &&& p.named
        &&& p.named_children().len() == 0
        &&& self.repetitions.contains_key(sentinel)
        &&& self.repetitions[sentinel].kind == RepetitionKind::MultiChild
    }

    /// The text of the only child of a node around a leaf.
    pub open spec fn inner_sentinel(self, p: NodeSpec) -> Option<Seq<char>> {
        if p.named_children().len() == 1 && p.named_children()[0].named_children().len() == 0 {
            Some(p.named_children()[0].text(self.pattern_text))
        } else {
            None
        }
    }

    /// The special placeholder that a node is wrapped around.
    pub open spec fn wraps_special(self, p: NodeSpec) -> Option<SpecialKind> {
        match self.inner_sentinel(p) {
            Some(sentinel) => if self.specials.contains_key(sentinel) {
                Some(self.specials[sentinel])
            } else {
                None
            },
            None => None,
        }
    }

    /// The sentinel of a pattern child that can take the place of any number of children:
    /// a statement `$BODY`, or a `$$$` placeholder.
    pub open spec fn span_sentinel(self, p: NodeSpec) -> Option<Seq<char>> {
        if self.wraps_special(p) == Some(SpecialKind::Body) {
            self.inner_sentinel(p)
        } else if self.is_multi_placeholder(p) {
            Some(p.text(self.pattern_text))
        } else {
            None
        }
    }

    /// The operator that says how many children such a pattern child takes.
    pub open spec fn span_op(self, p: NodeSpec) -> Seq<char> {
        if self.wraps_special(p) != Some(SpecialKind::Body) && self.is_multi_placeholder(p) {
            self.repetitions[p.text(self.pattern_text)].op
        } else {
            "*"@
        }
    }

    /// One of some pattern children can take the place of any number of children.
    pub open spec fn has_span(self, ps: Seq<NodeSpec>) -> bool {
        exists|i: int| 0 <= i < ps.len() && self.span_sentinel(#[trigger] ps[i]) is Some
    }

    /// The sentinel and the repetition that the last named child of a node stands for.
    pub open spec fn last_child_repetition(self, p: NodeSpec) -> Option<
        (Seq<char>, RepetitionSpec),
    > {
        let ps = p.named_children();
        let sentinel = ps.last().text(self.pattern_text);
        if ps.len() > 0 && self.is_placeholder(ps.last()) && self.repetitions.contains_key(sentinel)
            && self.repetitions[sentinel].kind == RepetitionKind::LastChild {
            Some((sentinel, self.repetitions[sentinel]))
        } else {
            None
        }
    }

    /// Records what the placeholder with a sentinel has matched, if it has a name.
    pub open spec fn capture(
        self,
        captures: Captures,
        sentinel: Seq<char>,
        text: Seq<char>,
    ) -> Captures {
        if self.reverse_placeholders.contains_key(sentinel) {
            captures.insert(self.reverse_placeholders[sentinel], text)
        } else {
            captures
        }
    }

    /// Records what each of the first `count` sentinels of a group has matched.
    pub open spec fn capture_groups(
        self,
        captures: Captures,
        group: Seq<Seq<char>>,
        nodes: Seq<NodeSpec>,
        count: nat,
    ) -> Captures
        decreases count,
    {
        if count == 0 {
            captures
        } else {
            let sentinel = group[count - 1];
            self.capture(
                self.capture_groups(captures, group, nodes, (count - 1) as nat),
                sentinel,
                group_text(self.source_text, nodes, group, sentinel),
            )
        }
    }

    /// The kind that a sentinel is constrained to, if it is constrained, is `kind`.
    pub open spec fn constraint_holds(self, sentinel: Seq<char>, kind: Seq<char>) -> bool {
        self.type_constraints.contains_key(sentinel) ==> kind == self.type_constraints[sentinel]
    }

    /// Matches the source node `s` against the pattern node `p`. The result is the captures
    /// with those of the match added, or `None` where there is no match.
    ///
    /// - A placeholder matches any node that its constraint admits.
    /// - Otherwise the kinds must agree, unless the pattern node wraps a special placeholder
    ///   whose role the source node has.
    /// - A repetition as last child takes all children that the pattern leaves over: for `+`
    ///   at least one, for `?` at most one or, of a group, at most one group.
    /// - Without a placeholder that spans several children, both have the same number of
    ///   named children; leaves match by their text.
    pub open spec fn node_matches(self, s: NodeSpec, p: NodeSpec, captures: Captures) -> Option<
        Captures,
    >
        decreases p.size(), 0nat, 0nat,
    {
        proof {
            lemma_named_size(p.children);
        }
        let ss = s.named_children();
        let ps = p.named_children();
        let sentinel = p.text(self.pattern_text);
        if self.is_placeholder(p) {
            if self.constraint_holds(sentinel, s.kind) {
                Some(self.capture(captures, sentinel, s.text(self.source_text)))
            } else {
                None
            }
        } else if s.kind != p.kind {
            match self.wraps_special(p) {
                Some(special) => if role_matches(special, s.kind) {
                    Some(
                        self.capture(captures, self.inner_sentinel(p)->0, s.text(self.source_text)),
                    )
                } else {
                    None
                },
                None => None,
            }
        } else if let Some((last, info)) = self.last_child_repetition(p) {
            let fixed = (ps.len() - 1) as nat;
            let count = ss.len() - fixed;
            let once = if info.sub_sentinels.len() > 0 {
                info.sub_sentinels.len()
            } else {
                1
            };
            if count < 0 || (info.op == "+"@ && count == 0) || (info.op == "?"@ && count > once) {
                None
            } else {
                match self.each_matches(ss, ps, fixed, captures) {
                    Some(found) => self.repetition_captures(
                        last,
                        info.sub_sentinels,
                        ss.skip(fixed as int),
                        found,
                    ),
                    None => None,
                }
            }
        } else if !self.has_span(ps) && ps.len() != ss.len() {
            None
        } else if !self.has_span(ps) && ps.len() == 0 {
            if p.named && sentinel != s.text(self.source_text) {
                None
            } else {
                Some(captures)
            }
        } else {
            self.children_match(ss, ps, captures)
        }
    }

    /// What a repetition captures of the children that it takes: their span of text, or, for
    /// a group of several placeholders, the text of each. The children of a group come in
    /// whole groups.
    pub open spec fn repetition_captures(
        self,
        sentinel: Seq<char>,
        group: Seq<Seq<char>>,
        nodes: Seq<NodeSpec>,
        captures: Captures,
    ) -> Option<Captures> {
        if group.len() == 0 {
            Some(self.capture(captures, sentinel, span_text(self.source_text, nodes)))
        } else if nodes.len() % group.len() != 0 {
            None
        } else {
            Some(self.capture_groups(captures, group, nodes, group.len()))
        }
    }

    /// Matches the first `count` of some source nodes against as many pattern nodes, one by
    /// one.
    pub open spec fn each_matches(
        self,
        ss: Seq<NodeSpec>,
        ps: Seq<NodeSpec>,
        count: nat,
        captures: Captures,
    ) -> Option<Captures>
        decreases total_size(ps), 1nat, count,
    {
        if count == 0 || ps.len() == 0 {
            Some(captures)
        } else {
            proof {
                lemma_size_drop_first(ps);
            }
            match self.node_matches(ss[0], ps[0], captures) {
                Some(found) => self.each_matches(
                    ss.drop_first(),
                    ps.drop_first(),
                    (count - 1) as nat,
                    found,
                ),
                None => None,
            }
        }
    }

    /// Matches all of some source nodes against all of some pattern nodes, where a spanning
    /// placeholder takes as few source nodes as it can.
    pub open spec fn children_match(
        self,
        ss: Seq<NodeSpec>,
        ps: Seq<NodeSpec>,
        captures: Captures,
    ) -> Option<Captures>
        decreases total_size(ps), 2nat, 0nat,
    {
        if ps.len() == 0 {
            if ss.len() == 0 {
                Some(captures)
            } else {
                None
            }
        } else {
            proof {
                lemma_size_drop_first(ps);
            }
            if self.span_sentinel(ps[0]) is Some {
                self.span_matches(ss, ps, self.span_least(ps[0]), captures)
            } else if ss.len() == 0 {
                None
            } else {
                match self.node_matches(ss[0], ps[0], captures) {
                    Some(found) => self.children_match(ss.drop_first(), ps.drop_first(), found),
                    None => None,
                }
            }
        }
    }

    /// The fewest source nodes that a spanning placeholder can take.
    pub open spec fn span_least(self, p: NodeSpec) -> nat {
        if self.span_op(p) == "+"@ {
            1
        } else {
            0
        }
    }

    /// The most source nodes that a spanning placeholder in front can take: at most one for
    /// `?`, and else all of them.
    pub open spec fn span_limit(self, ss: Seq<NodeSpec>, ps: Seq<NodeSpec>) -> nat {
        if self.span_op(ps[0]) == "?"@ && ss.len() > 1 {
            1
        } else {
            ss.len()
        }
    }

    /// Lets the spanning placeholder in front take `n` source nodes or, where the rest does
    /// not match then, more.
    pub open spec fn span_matches(
        self,
        ss: Seq<NodeSpec>,
        ps: Seq<NodeSpec>,
        n: nat,
        captures: Captures,
    ) -> Option<Captures>
        decreases total_size(ps), 1nat, self.span_limit(ss, ps) + 1 - n,
    {
        if ps.len() == 0 || n > self.span_limit(ss, ps) {
            None
        } else {
            proof {
                lemma_size_drop_first(ps);
            }
            let taken = self.capture(
                captures,
                self.span_sentinel(ps[0])->0,
                span_text(self.source_text, ss.take(n as int)),
            );
            match self.children_match(ss.skip(n as int), ps.drop_first(), taken) {
                Some(found) => Some(found),
                None => self.span_matches(ss, ps, n + 1, captures),
            }
        }
    }
}

} // verus!
