//! Laws of syntax trees.
use crate::search_laws::occurs_in;
use crate::text_laws::law_text_between_bytes;
use crate::tree::{models, span_text, NodeSpec, SyntaxNode};
use vstd::prelude::*;
use vstd::utf8::*;

verus! {

/// The named children of a node are its first child, if that is named, and then the named ones
/// among the others.
pub proof fn law_named_children(node: NodeSpec)
    ensures
        node.children.len() == 0 ==> node.named_children() == Seq::<NodeSpec>::empty(),
        node.children.len() > 0 ==> node.named_children() == (if node.children[0].named {
            seq![node.children[0]]
        } else {
            seq![]
        }) + (NodeSpec { children: node.children.drop_first(), ..node }).named_children(),
{
    let named = |n: NodeSpec| n.named;
    reveal_with_fuel(Seq::filter, 2);
    if node.children.len() > 0 {
        let first = seq![node.children[0]];
        let rest = node.children.drop_first();
        assert(node.children =~= first + rest);
        Seq::filter_distributes_over_add(first, rest, named);
        assert(first.drop_last() =~= seq![]);
        assert(first.filter(named) =~= if node.children[0].named {
            first
        } else {
            seq![]
        });
    }
}

/// The text of a node has the bytes between the node's offsets.
pub proof fn law_node_text(node: NodeSpec, text: Seq<char>)
    requires
        node.start_byte <= node.end_byte <= encode_utf8(text).len(),
        is_char_boundary(encode_utf8(text), node.start_byte as int),
        is_char_boundary(encode_utf8(text), node.end_byte as int),
    ensures
        encode_utf8(node.text(text)) == encode_utf8(text).subrange(
            node.start_byte as int,
            node.end_byte as int,
        ),
{
    law_text_between_bytes(text, node.start_byte as int, node.end_byte as int);
}

/// The text that some nodes span has the bytes from the start of the first to the end of the
/// last; none span no text.
pub proof fn law_span_text(nodes: Seq<NodeSpec>, text: Seq<char>)
    requires
        nodes.len() > 0 ==> {
            &&& nodes[0].start_byte <= nodes[nodes.len() - 1].end_byte <= encode_utf8(text).len()
            &&& is_char_boundary(encode_utf8(text), nodes[0].start_byte as int)
            &&& is_char_boundary(encode_utf8(text), nodes[nodes.len() - 1].end_byte as int)
        },
    ensures
        nodes.len() == 0 ==> span_text(text, nodes).len() == 0,
        nodes.len() > 0 ==> encode_utf8(span_text(text, nodes)) == encode_utf8(text).subrange(
            nodes[0].start_byte as int,
            nodes[nodes.len() - 1].end_byte as int,
        ),
{
    if nodes.len() > 0 {
        law_text_between_bytes(
            text,
            nodes[0].start_byte as int,
            nodes[nodes.len() - 1].end_byte as int,
        );
    }
}

/// What a node needs of itself to be laid out on a text: it spans whole characters, its children
/// lie within it, and each ends before the next begins.
pub open spec fn placed(node: NodeSpec, text: Seq<char>) -> bool {
    &&& node.start_byte <= node.end_byte <= encode_utf8(text).len()
    &&& is_char_boundary(encode_utf8(text), node.start_byte as int)
    &&& is_char_boundary(encode_utf8(text), node.end_byte as int)
    &&& forall|i: int|
        0 <= i < node.children.len() ==> node.start_byte <= (
        #[trigger] node.children[i]).start_byte && node.children[i].end_byte <= node.end_byte
    &&& forall|i: int, j: int|
        0 <= i < j < node.children.len() ==> (#[trigger] node.children[i]).end_byte <= (
        #[trigger] node.children[j]).start_byte
}

/// A tree is laid out on a text where each of its nodes is placed.
pub proof fn law_fits(root: NodeSpec, text: Seq<char>)
    ensures
        root.fits(text) <==> forall|node: NodeSpec| #[trigger]
            occurs_in(node, root) ==> placed(node, text),
    decreases root,
{
    if root.fits(text) {
        assert forall|node: NodeSpec| #[trigger] occurs_in(node, root) implies placed(node, text) by {
            lemma_placed(node, root, text);
        }
    }
    if forall|node: NodeSpec| #[trigger] occurs_in(node, root) ==> placed(node, text) {
        assert(occurs_in(root, root));
        assert forall|i: int| 0 <= i < root.children.len() implies (
        #[trigger] root.children[i]).fits(text) by {
            let child = root.children[i];
            assert forall|node: NodeSpec| #[trigger] occurs_in(node, child) implies placed(
                node,
                text,
            ) by {
                assert(occurs_in(node, root));
            }
            law_fits(child, text);
        }
    }
}

proof fn lemma_placed(node: NodeSpec, root: NodeSpec, text: Seq<char>)
    requires
        root.fits(text),
        occurs_in(node, root),
    ensures
        placed(node, text),
    decreases root,
{
    if node == root {
        assert forall|i: int| 0 <= i < node.children.len() implies node.start_byte <= (
        #[trigger] node.children[i]).start_byte && node.children[i].end_byte <= node.end_byte by {
            assert(node.spans(node.children[i]));
        }
    } else {
        let k = choose|k: int|
            0 <= k < root.children.len() && occurs_in(node, #[trigger] root.children[k]);
        lemma_placed(node, root.children[k], text);
    }
}

/// The model of a node holds what the node holds.
pub proof fn law_model(node: SyntaxNode)
    ensures
        node@.kind == node.kind@,
        node@.named == node.named,
        node@.start_byte == node.start_byte,
        node@.end_byte == node.end_byte,
        node@.start_point == node.start_point,
        node@.end_point == node.end_point,
        node@.children.len() == node.children@.len(),
        forall|i: int|
            0 <= i < node.children@.len() ==> #[trigger] node@.children[i] == node.children@[i]@,
{
}

/// The models of some nodes are the models of each.
pub proof fn law_models(nodes: Seq<&SyntaxNode>)
    ensures
        models(nodes).len() == nodes.len(),
        forall|i: int| 0 <= i < nodes.len() ==> #[trigger] models(nodes)[i] == nodes[i]@,
{
}

} // verus!
