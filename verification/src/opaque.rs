//! Carrying a handle through a queue that only takes plain numbers.

use vstd::prelude::*;
use crate::dom::Document;
use crate::node::LayoutNode;

verus! {

/// A handle as a pair of numbers: the node's index and the pass in which
/// the handle was made.
pub type UnsafeLayoutNode = (usize, usize);

/// The pair of numbers that stands for a handle.
pub open spec fn spec_to_unsafe(node: LayoutNode) -> UnsafeLayoutNode {
    (node.index, node.pass)
}

/// The handle that a pair of numbers stands for in `doc`: none where the
/// pair comes from another pass or names no node.
pub open spec fn spec_from_unsafe(doc: &Document, pair: UnsafeLayoutNode) -> Option<LayoutNode> {
    if pair.0 < doc.nodes@.len() && pair.1 == doc.pass {
        Some(LayoutNode { index: pair.0, pass: pair.1 })
    } else {
        None
    }
}

/// Turns a handle into its pair of numbers.
pub fn layout_node_to_unsafe_layout_node(node: &LayoutNode) -> (r: UnsafeLayoutNode)
    ensures
        r == spec_to_unsafe(*node),
{
    (node.index, node.pass)
}

/// Turns a pair of numbers back into a handle, if it names a node of `doc`
/// and comes from the current pass of `doc`.
pub fn layout_node_from_unsafe_layout_node(doc: &Document, node: &UnsafeLayoutNode) -> (r: Option<LayoutNode>)
    ensures
        r == spec_from_unsafe(doc, *node),
{
    let (index, pass) = *node;
    if index < doc.len() && pass == doc.pass {
        Some(LayoutNode { index, pass })
    } else {
        None
    }
}

/// A handle that is good for `doc` comes back unchanged from its pair of
/// numbers; any other handle does not come back at all; and whatever comes
/// back is good for `doc`.
pub proof fn lemma_unsafe_layout_node_round_trip(doc: &Document, node: LayoutNode)
    ensures
        node.wf(doc) ==> spec_from_unsafe(doc, spec_to_unsafe(node)) == Some(node),
        !node.wf(doc) ==> spec_from_unsafe(doc, spec_to_unsafe(node)).is_none(),
        forall|pair: UnsafeLayoutNode|
            (#[trigger] spec_from_unsafe(doc, pair)) matches Some(n) ==> n.wf(doc)
                && spec_to_unsafe(n) == pair,
{
}

} // verus!
