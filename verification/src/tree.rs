//! Syntax trees as plain values.
use crate::text::{is_text_range, slice_text, text_between};
use vstd::prelude::*;
use vstd::string::*;
use vstd::utf8::*;

verus! {

/// A position in a text: a row and a column, both counted from zero.
#[derive(Debug, Clone, Copy, PartialEq, Eq, Structural)]
pub struct Point {
    pub row: usize,
    pub column: usize,
}

/// The model of a syntax tree node: its kind, whether it is named, where it stands in the
/// text, and its children in order.
pub struct NodeSpec {
    pub kind: Seq<char>,
    pub named: bool,
    pub start_byte: usize,
    pub end_byte: usize,
    pub start_point: Point,
    pub end_point: Point,
    pub children: Seq<NodeSpec>,
}

/// The named ones among some nodes.
pub open spec fn named_among(nodes: Seq<NodeSpec>) -> Seq<NodeSpec> {
    nodes.filter(|n: NodeSpec| n.named)
}

impl NodeSpec {
    /// The children that are named. What stands below an anonymous child is no child.
    pub open spec fn named_children(self) -> Seq<NodeSpec> {
        named_among(self.children)
    }

    /// The part of `text` that the node spans.
    pub open spec fn text(self, text: Seq<char>) -> Seq<char> {
        text_between(text, self.start_byte as int, self.end_byte as int)
    }

    /// The node is laid out on `text`: it and every node below it spans whole characters of
    /// the text, children lie within their parent, and siblings follow one another.
    pub open spec fn fits(self, text: Seq<char>) -> bool
        decreases self,
    {
        &&& is_text_range(text, self.start_byte as int, self.end_byte as int)
        &&& in_order(self.children)
        &&& forall|i: int|
            0 <= i < self.children.len() ==> self.spans(#[trigger] self.children[i])
        &&& forall|i: int|
            0 <= i < self.children.len() ==> (#[trigger] self.children[i]).fits(text)
    }

    /// The other node lies within this one.
    pub open spec fn spans(self, other: NodeSpec) -> bool {
        self.start_byte <= other.start_byte && other.end_byte <= self.end_byte
    }

    /// The number of nodes in the subtree.
    pub open spec fn size(self) -> nat
        decreases self,
    {
        1 + total_size(self.children)
    }
}

/// Each node ends before the next begins.
pub open spec fn in_order(nodes: Seq<NodeSpec>) -> bool {
    forall|i: int, j: int|
        0 <= i < j < nodes.len() ==> (#[trigger] nodes[i]).end_byte <= (
        #[trigger] nodes[j]).start_byte
}

/// The number of nodes in some subtrees together.
pub open spec fn total_size(nodes: Seq<NodeSpec>) -> nat
    decreases nodes,
{
    if nodes.len() == 0 {
        0
    } else {
        total_size(nodes.drop_last()) + nodes.last().size()
    }
}

/// What is needed of some nodes side by side.
pub open spec fn all_fit(nodes: Seq<NodeSpec>, text: Seq<char>) -> bool {
    &&& in_order(nodes)
    &&& forall|i: int| 0 <= i < nodes.len() ==> (#[trigger] nodes[i]).fits(text)
}

/// The part of `text` from the start of the first node to the end of the last.
pub open spec fn span_text(text: Seq<char>, nodes: Seq<NodeSpec>) -> Seq<char> {
    if nodes.len() == 0 {
        seq![]
    } else {
        text_between(text, nodes.first().start_byte as int, nodes.last().end_byte as int)
    }
}

/// A syntax tree node with everything below it.
#[derive(Debug)]
pub struct SyntaxNode {
    pub kind: String,
    pub named: bool,
    pub start_byte: usize,
    pub end_byte: usize,
    pub start_point: Point,
    pub end_point: Point,
    pub children: Vec<SyntaxNode>,
}

impl View for SyntaxNode {
    type V = NodeSpec;

    open spec fn view(&self) -> NodeSpec {
        self.model()
    }
}

/// The models of some nodes.
pub open spec fn models(nodes: Seq<&SyntaxNode>) -> Seq<NodeSpec> {
    nodes.map_values(|n: &SyntaxNode| n@)
}

impl SyntaxNode {
    pub open spec fn model(&self) -> NodeSpec
        decreases self,
    {
        NodeSpec {
            kind: self.kind@,
            named: self.named,
            start_byte: self.start_byte,
            end_byte: self.end_byte,
            start_point: self.start_point,
            end_point: self.end_point,
            children: Seq::new(
                self.children@.len(),
                |i: int|
                    if 0 <= i < self.children@.len() {
                        self.children@[i].model()
                    } else {
                        arbitrary()
                    },
            ),
        }
    }

    /// Collects the named children.
    pub fn named_children(&self) -> (r: Vec<&SyntaxNode>)
        ensures
            models(r@) == self@.named_children(),
    {
        let mut r: Vec<&SyntaxNode> = Vec::new();
        let mut i: usize = 0;
        let ghost kids = self@.children;
        assert(models(r@) =~= named_among(kids.take(0)));
        while i < self.children.len()
            invariant
                i <= self.children@.len(),
                kids == self@.children,
                models(r@) == named_among(kids.take(i as int)),
            decreases self.children.len() - i,
        {
            let child = &self.children[i];
            proof {
                assert(kids.take(i + 1).drop_last() =~= kids.take(i as int));
                assert(kids.take(i + 1).last() == child@);
                reveal(Seq::filter);
            }
            if child.named {
                r.push(child);
                assert(models(r@) =~= named_among(kids.take(i as int)).push(child@));
            }
            i = i + 1;
        }
        assert(kids.take(i as int) =~= kids);
        r
    }

    /// The text that the node spans.
    pub fn text_in<'a>(&self, text: &'a str) -> (r: &'a str)
        requires
            self@.fits(text@),
        ensures
            r@ == self@.text(text@),
    {
        slice_text(text, self.start_byte, self.end_byte)
    }

    /// Checks that the tree is laid out on `text`.
    pub fn fits_text(&self, text: &str) -> (r: bool)
        ensures
            r == self@.fits(text@),
        decreases self,
    {
        let len = text.as_bytes().len();
        if !(self.start_byte <= self.end_byte && self.end_byte <= len) {
            return false;
        }
        if !text.is_char_boundary(self.start_byte) || !text.is_char_boundary(self.end_byte) {
            return false;
        }
        let mut i: usize = 0;
        while i < self.children.len()
            invariant
                i <= self.children@.len(),
                is_text_range(text@, self.start_byte as int, self.end_byte as int),
                forall|j: int| 0 <= j < i ==> self@.spans(#[trigger] self@.children[j]),
                forall|j: int| 0 <= j < i ==> (#[trigger] self@.children[j]).fits(text@),
                forall|j: int, k: int|
                    0 <= j < k < i ==> (#[trigger] self@.children[j]).end_byte <= (
                    #[trigger] self@.children[k]).start_byte,
            decreases self.children.len() - i,
        {
            proof {
                assert(self@.children[i as int] == self.children@[i as int]@);
            }
            if self.children[i].start_byte < self.start_byte || self.children[i].end_byte
                > self.end_byte {
                assert(!self@.spans(self@.children[i as int]));
                return false;
            }
            if !self.children[i].fits_text(text) {
                return false;
            }
            if i > 0 && self.children[i - 1].end_byte > self.children[i].start_byte {
                proof {
                    assert(self@.children[i - 1] == self.children@[i - 1]@);
                }
                return false;
            }
            proof {
                assert forall|j: int, k: int| 0 <= j < k < i + 1 implies (
                #[trigger] self@.children[j]).end_byte <= (#[trigger] self@.children[k]).start_byte by {
                    if k == i {
                        assert(self@.children[i - 1] == self.children@[i - 1]@);
                        assert(self@.children[i - 1].fits(text@));
                        if j < i - 1 {
                            assert(self@.children[j].end_byte <= self@.children[i - 1].start_byte);
                        }
                    }
                }
            }
            i = i + 1;
        }
        true
    }
}

/// The text from the start of the first to the end of the last of some nodes.
pub fn span_text_in(text: &str, nodes: &Vec<&SyntaxNode>, from: usize, to: usize) -> (r: String)
    requires
        all_fit(models(nodes@), text@),
        from <= to <= nodes@.len(),
    ensures
        r@ == span_text(text@, models(nodes@).subrange(from as int, to as int)),
{
    if from == to {
        return String::new();
    }
    let first = nodes[from];
    let last = nodes[to - 1];
    proof {
        let all = models(nodes@);
        assert(all[from as int] == first@);
        assert(all[to - 1] == last@);
        assert(all[from as int].fits(text@));
        assert(all[to - 1].fits(text@));
    }
    slice_text(text, first.start_byte, last.end_byte).to_owned()
}

/// Every node weighs at least one.
pub proof fn lemma_named_size(nodes: Seq<NodeSpec>)
    ensures
        total_size(named_among(nodes)) <= total_size(nodes),
    decreases nodes.len(),
{
    reveal(Seq::filter);
    if nodes.len() > 0 {
        lemma_named_size(nodes.drop_last());
        let rest = named_among(nodes.drop_last());
        if nodes.last().named {
            assert(rest.push(nodes.last()).drop_last() =~= rest);
        }
    }
}

/// Dropping the first of some nodes drops its size.
pub proof fn lemma_size_drop_first(nodes: Seq<NodeSpec>)
    requires
        nodes.len() > 0,
    ensures
        total_size(nodes) == nodes.first().size() + total_size(nodes.drop_first()),
    decreases nodes.len(),
{
    if nodes.len() == 1 {
        assert(nodes.drop_last() =~= seq![]);
        assert(nodes.drop_first() =~= seq![]);
    } else {
        lemma_size_drop_first(nodes.drop_last());
        assert(nodes.drop_last().drop_first() =~= nodes.drop_first().drop_last());
    }
}

/// One of some nodes is no larger than all together.
pub proof fn lemma_total_size(nodes: Seq<NodeSpec>)
    ensures
        forall|i: int| 0 <= i < nodes.len() ==> (#[trigger] nodes[i]).size() <= total_size(nodes),
    decreases nodes.len(),
{
    if nodes.len() > 0 {
        let front = nodes.drop_last();
        lemma_total_size(front);
        assert forall|i: int| 0 <= i < nodes.len() implies (#[trigger] nodes[i]).size()
            <= total_size(nodes) by {
            if i < front.len() {
                assert(front[i] == nodes[i]);
            }
        }
    }
}

/// The named children of a node that fits a text fit it too.
pub proof fn lemma_named_fit(nodes: Seq<NodeSpec>, text: Seq<char>)
    requires
        all_fit(nodes, text),
    ensures
        all_fit(named_among(nodes), text),
        forall|i: int| 0 <= i < named_among(nodes).len() ==> (#[trigger] named_among(nodes)[i]).named,
    decreases nodes.len(),
{
    reveal(Seq::filter);
    if nodes.len() > 0 {
        let front = nodes.drop_last();
        assert(all_fit(front, text)) by {
            assert forall|i: int| 0 <= i < front.len() implies (#[trigger] front[i]).fits(text) by {
                assert(nodes[i].fits(text));
            }
            assert forall|i: int, j: int| 0 <= i < j < front.len() implies (
            #[trigger] front[i]).end_byte <= (#[trigger] front[j]).start_byte by {
                assert(nodes[i].end_byte <= nodes[j].start_byte);
            }
        }
        lemma_named_fit(front, text);
        let rest = named_among(front);
        if nodes.last().named {
            let all = named_among(nodes);
            assert(all == rest.push(nodes.last()));
            assert(nodes[nodes.len() - 1].fits(text));
            assert forall|i: int, j: int| 0 <= i < j < all.len() implies (
            #[trigger] all[i]).end_byte <= (#[trigger] all[j]).start_byte by {
                if j == all.len() - 1 {
                    front.lemma_filter_contains_rev(|n: NodeSpec| n.named, rest[i]);
                    let k = choose|k: int| 0 <= k < front.len() && front[k] == rest[i];
                    assert(nodes[k].end_byte <= nodes[nodes.len() - 1].start_byte);
                } else {
                    assert(rest[i].end_byte <= rest[j].start_byte);
                }
            }
        }
    }
}

} // verus!
