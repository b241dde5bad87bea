//! The full-access view: a handle that can walk to parent, children and
//! siblings, read and write the dirty flags, and attach the side table.

use vstd::prelude::*;
use crate::dom::{Document, NodeContent, NodeFlags, NodeTypeId};
use crate::element::LayoutElement;
use crate::style::{LayoutChan, LayoutDataWrapper, PrivateLayoutData, SharedLayoutData};

verus! {

/// A node's identity, stable over passes, for use as a key.
#[derive(Clone, Copy, Debug, PartialEq, Eq, Structural)]
pub struct OpaqueNode {
    pub id: usize,
}

/// What a layout pass knows about the document it works on.
#[derive(Clone, Copy, Debug, PartialEq, Eq, Structural)]
pub struct SharedLayoutContext {
    /// The node that this pass treats as the top of the tree.
    pub reflow_root: Option<OpaqueNode>,
}

/// A handle on a node, good for the pass in which it was made.
#[derive(Clone, Copy, Debug, PartialEq, Eq, Structural)]
pub struct LayoutNode {
    pub index: usize,
    pub pass: usize,
}

impl Document {
    /// Two documents with the same tree: they differ at most in flags and
    /// side tables.
    pub open spec fn same_tree(&self, other: &Document) -> bool {
        &&& self.pass == other.pass
        &&& self.nodes@.len() == other.nodes@.len()
        &&& forall|i: int|
            0 <= i < self.nodes@.len() ==> {
                &&& (#[trigger] self.nodes@[i]).content == other.nodes@[i].content
                &&& self.nodes@[i].parent == other.nodes@[i].parent
                &&& self.nodes@[i].position == other.nodes@[i].position
                &&& self.nodes@[i].children == other.nodes@[i].children
            }
    }

    /// A document with the tree of a well-formed one is well-formed.
    pub proof fn lemma_same_tree_wf(&self, other: &Document)
        requires
            self.wf(),
            self.same_tree(other),
        ensures
            other.wf(),
    {
        assert forall|i: int| 0 <= i < other.nodes@.len() implies #[trigger] other.links_ok(i) by {
            assert(self.links_ok(i));
            assert(self.nodes@[i].content == other.nodes@[i].content);
            let n = other.nodes@[i];
            assert forall|k: int| 0 <= k < n.children@.len() implies ({
                let c = #[trigger] n.children@[k];
                &&& i < c < other.nodes@.len()
                &&& other.nodes@[c as int].parent == Some(i as usize)
                &&& other.nodes@[c as int].position == k
            }) by {
                let c = self.nodes@[i].children@[k];
                assert(self.nodes@[c as int].content == other.nodes@[c as int].content);
            }
            match n.parent {
                Some(p) => {
                    assert(self.nodes@[p as int].content == other.nodes@[p as int].content);
                },
                None => {},
            }
        }
    }

    /// The handle of the node at `index` for the current pass, if there is
    /// such a node.
    pub fn layout_node(&self, index: usize) -> (r: Option<LayoutNode>)
        ensures
            r == (if index < self.nodes@.len() {
                Some(LayoutNode { index, pass: self.pass })
            } else {
                None
            }),
    {
        if index < self.nodes.len() {
            Some(LayoutNode { index, pass: self.pass })
        } else {
            None
        }
    }

    /// Ends the current pass, so that the handles made in it are no longer
    /// accepted. Returns false, and changes nothing, when the pass counter
    /// cannot go further.
    pub fn advance_pass(&mut self) -> (advanced: bool)
        ensures
            advanced == (old(self).pass < usize::MAX),
            advanced ==> final(self).pass == old(self).pass + 1,
            !advanced ==> final(self).pass == old(self).pass,
            final(self).nodes == old(self).nodes,
            old(self).wf() ==> final(self).wf(),
            advanced ==> forall|handle: LayoutNode|
                #[trigger] handle.wf(old(self)) ==> !handle.wf(final(self)),
    {
        let advanced = if self.pass < usize::MAX {
            self.pass = self.pass + 1;
            true
        } else {
            false
        };
        proof {
            assert forall|i: int| 0 <= i < self.nodes@.len() && old(self).wf() implies #[trigger] self.links_ok(i) by {
                assert(old(self).links_ok(i));
            }
        }
        advanced
    }

    /// The parent of node `i`.
    pub open spec fn parent_of(&self, i: int) -> Option<usize> {
        self.nodes@[i].parent
    }

    /// The first child of node `i`.
    pub open spec fn first_child_of(&self, i: int) -> Option<usize> {
        if self.kids(i).len() > 0 {
            Some(self.kids(i)[0])
        } else {
            None
        }
    }

    /// The last child of node `i`.
    pub open spec fn last_child_of(&self, i: int) -> Option<usize> {
        if self.kids(i).len() > 0 {
            Some(self.kids(i).last())
        } else {
            None
        }
    }

    /// The sibling that follows node `i`.
    pub open spec fn next_sibling_of(&self, i: int) -> Option<usize> {
        match self.nodes@[i].parent {
            Some(p) => if self.nodes@[i].position + 1 < self.kids(p as int).len() {
                Some(self.kids(p as int)[self.nodes@[i].position + 1])
            } else {
                None
            },
            None => None,
        }
    }

    /// The sibling that precedes node `i`.
    pub open spec fn prev_sibling_of(&self, i: int) -> Option<usize> {
        match self.nodes@[i].parent {
            Some(p) => if self.nodes@[i].position > 0 {
                Some(self.kids(p as int)[self.nodes@[i].position - 1])
            } else {
                None
            },
            None => None,
        }
    }

    /// Node `n` followed by its descendants, depth first, each node before
    /// its children and the children in document order.
    pub open spec fn subtree(&self, n: int) -> Seq<usize>
        decreases self.nodes@.len() - n, self.kids(n).len() + 1,
    {
        if 0 <= n < self.nodes@.len() {
            seq![n as usize] + self.forest_from(n, 0)
        } else {
            Seq::empty()
        }
    }

    /// The subtrees of the children of `n` from the `j`-th on, one after
    /// the other.
    pub open spec fn forest_from(&self, n: int, j: nat) -> Seq<usize>
        decreases self.nodes@.len() - n, self.kids(n).len() - j,
    {
        if 0 <= n < self.nodes@.len() && j < self.kids(n).len() {
            let c = self.kids(n)[j as int];
            (if n < c < self.nodes@.len() {
                self.subtree(c as int)
            } else {
                Seq::empty()
            }) + self.forest_from(n, j + 1)
        } else {
            Seq::empty()
        }
    }
}

impl LayoutNode {
    /// The handle names a node of `doc` and was made in its current pass.
    pub open spec fn wf(&self, doc: &Document) -> bool {
        self.index < doc.nodes@.len() && self.pass == doc.pass
    }

    /// The handle that `index` has in the pass of `self`.
    pub open spec fn sibling_handle(&self, index: Option<usize>) -> Option<LayoutNode> {
        match index {
            Some(i) => Some(LayoutNode { index: i, pass: self.pass }),
            None => None,
        }
    }

    /// Creates a handle on another node for the pass of this one.
    pub fn new_with_this_lifetime(&self, index: usize) -> (r: LayoutNode)
        ensures
            r == (LayoutNode { index, pass: self.pass }),
    {
        LayoutNode { index, pass: self.pass }
    }

    /// Returns the category of this node.
    pub fn type_id(&self, doc: &Document) -> (r: NodeTypeId)
        requires
            self.wf(doc),
        ensures
            r == doc.nodes@[self.index as int].content.spec_type_id(),
    {
        doc.nodes[self.index].content.type_id()
    }

    /// The identifier of the flow built for this node; 0 where the node has
    /// no side table.
    pub fn flow_debug_id(self, doc: &Document) -> (r: usize)
        requires
            self.wf(doc),
        ensures
            r == (match doc.nodes@[self.index as int].layout_data {
                Some(d) => d.data.flow_debug_id,
                None => 0,
            }),
    {
        match &doc.nodes[self.index].layout_data {
            None => 0,
            Some(layout_data) => layout_data.data.flow_debug_id,
        }
    }

    /// Converts the handle into the node's identity.
    pub fn opaque(&self) -> (r: OpaqueNode)
        ensures
            r.id == self.index,
    {
        OpaqueNode { id: self.index }
    }

    pub fn debug_id(self) -> (r: usize)
        ensures
            r == self.index,
    {
        self.opaque().id
    }

    pub fn parent_node(&self, doc: &Document) -> (r: Option<LayoutNode>)
        requires
            self.wf(doc),
        ensures
            r == self.sibling_handle(doc.parent_of(self.index as int)),
            doc.wf() ==> (r matches Some(n) ==> n.wf(doc)),
    {
        proof {
            if doc.wf() {
                assert(doc.links_ok(self.index as int));
                match doc.nodes@[self.index as int].parent {
                    Some(p) => {
                        assert(doc.links_ok(p as int));
                    },
                    None => {},
                }
            }
        }
        match doc.nodes[self.index].parent {
            Some(p) => Some(self.new_with_this_lifetime(p)),
            None => None,
        }
    }

    pub fn first_child(&self, doc: &Document) -> (r: Option<LayoutNode>)
        requires
            self.wf(doc),
        ensures
            r == self.sibling_handle(doc.first_child_of(self.index as int)),
            doc.wf() ==> (r matches Some(n) ==> n.wf(doc)),
    {
        proof {
            if doc.wf() {
                assert(doc.links_ok(self.index as int));
                match doc.nodes@[self.index as int].parent {
                    Some(p) => {
                        assert(doc.links_ok(p as int));
                    },
                    None => {},
                }
            }
        }
        let kids = &doc.nodes[self.index].children;
        if kids.len() > 0 {
            Some(self.new_with_this_lifetime(kids[0]))
        } else {
            None
        }
    }

    pub fn last_child(&self, doc: &Document) -> (r: Option<LayoutNode>)
        requires
            self.wf(doc),
        ensures
            r == self.sibling_handle(doc.last_child_of(self.index as int)),
            doc.wf() ==> (r matches Some(n) ==> n.wf(doc)),
    {
        proof {
            if doc.wf() {
                assert(doc.links_ok(self.index as int));
                match doc.nodes@[self.index as int].parent {
                    Some(p) => {
                        assert(doc.links_ok(p as int));
                    },
                    None => {},
                }
            }
        }
        let kids = &doc.nodes[self.index].children;
        if kids.len() > 0 {
            Some(self.new_with_this_lifetime(kids[kids.len() - 1]))
        } else {
            None
        }
    }

    pub fn prev_sibling(&self, doc: &Document) -> (r: Option<LayoutNode>)
        requires
            doc.wf(),
            self.wf(doc),
        ensures
            r == self.sibling_handle(doc.prev_sibling_of(self.index as int)),
            doc.wf() ==> (r matches Some(n) ==> n.wf(doc)),
    {
        proof {
            if doc.wf() {
                assert(doc.links_ok(self.index as int));
                match doc.nodes@[self.index as int].parent {
                    Some(p) => {
                        assert(doc.links_ok(p as int));
                    },
                    None => {},
                }
            }
        }
        let node = &doc.nodes[self.index];
        match node.parent {
            Some(p) => {
                proof {
                    assert(doc.links_ok(self.index as int));
                }
                if node.position > 0 {
                    Some(self.new_with_this_lifetime(doc.nodes[p].children[node.position - 1]))
                } else {
                    None
                }
            },
            None => None,
        }
    }

    pub fn next_sibling(&self, doc: &Document) -> (r: Option<LayoutNode>)
        requires
            doc.wf(),
            self.wf(doc),
        ensures
            r == self.sibling_handle(doc.next_sibling_of(self.index as int)),
            doc.wf() ==> (r matches Some(n) ==> n.wf(doc)),
    {
        proof {
            if doc.wf() {
                assert(doc.links_ok(self.index as int));
                match doc.nodes@[self.index as int].parent {
                    Some(p) => {
                        assert(doc.links_ok(p as int));
                    },
                    None => {},
                }
            }
        }
        let node = &doc.nodes[self.index];
        match node.parent {
            Some(p) => {
                proof {
                    assert(doc.links_ok(self.index as int));
                }
                let kids = &doc.nodes[p].children;
                let count: usize = kids.len();
                assert(node.position < count);
                if node.position + 1 < count {
                    Some(self.new_with_this_lifetime(kids[node.position + 1]))
                } else {
                    None
                }
            },
            None => None,
        }
    }

    /// If this is an element, the element view of it.
    pub fn as_element(&self, doc: &Document) -> (r: Option<LayoutElement>)
        requires
            self.wf(doc),
        ensures
            r == (if doc.nodes@[self.index as int].content is Element {
                Some(LayoutElement { node: *self })
            } else {
                None
            }),
    {
        match &doc.nodes[self.index].content {
            NodeContent::Element(_) => Some(LayoutElement { node: *self }),
            _ => None,
        }
    }

    pub fn is_document(&self, doc: &Document) -> (r: bool)
        requires
            self.wf(doc),
        ensures
            r == (doc.nodes@[self.index as int].content is Document),
    {
        match self.type_id(doc) {
            NodeTypeId::Document => true,
            _ => false,
        }
    }

    pub fn has_children(self, doc: &Document) -> (r: bool)
        requires
            self.wf(doc),
        ensures
            r == (doc.kids(self.index as int).len() > 0),
    {
        self.first_child(doc).is_some()
    }

    /// The parent as this pass sees it: none at the reflow root, the parent
    /// everywhere else.
    pub fn layout_parent_node(self, doc: &Document, shared: &SharedLayoutContext) -> (r: Option<LayoutNode>)
        requires
            self.wf(doc),
            shared.reflow_root.is_some(),
        ensures
            r == (if shared.reflow_root == Some(OpaqueNode { id: self.index }) {
                None
            } else {
                self.sibling_handle(doc.parent_of(self.index as int))
            }),
            doc.wf() ==> (r matches Some(n) ==> n.wf(doc)),
    {
        match shared.reflow_root {
            None => vstd::pervasive::unreached(),
            Some(reflow_root) => {
                if self.opaque().id == reflow_root.id {
                    None
                } else {
                    self.parent_node(doc)
                }
            },
        }
    }

    /// Attaches a new side table where the node has none, and changes
    /// nothing where it has one.
    pub fn initialize_layout_data(self, doc: &mut Document, chan: LayoutChan)
        requires
            self.wf(old(doc)),
        ensures
            old(doc).same_tree(final(doc)),
            old(doc).wf() ==> final(doc).wf(),
            forall|j: int|
                0 <= j < old(doc).nodes@.len() && j != self.index ==> final(doc).nodes@[j] == old(doc).nodes@[j],
            final(doc).nodes@[self.index as int].flags == old(doc).nodes@[self.index as int].flags,
            final(doc).nodes@[self.index as int].layout_data == LayoutDataWrapper::attached(
                old(doc).nodes@[self.index as int].layout_data,
                chan,
            ),
    {
        if doc.nodes[self.index].layout_data.is_none() {
            doc.nodes[self.index].layout_data = Some(
                LayoutDataWrapper {
                    chan: Some(chan),
                    shared_data: SharedLayoutData { style: None },
                    data: PrivateLayoutData::new(),
                },
            );
        }
        proof {
            if old(doc).wf() {
                old(doc).lemma_same_tree_wf(doc);
            }
        }
    }

    pub fn has_changed(&self, doc: &Document) -> (r: bool)
        requires
            self.wf(doc),
        ensures
            r == doc.nodes@[self.index as int].flags.has_changed,
    {
        doc.nodes[self.index].flags.has_changed
    }

    pub fn is_dirty(&self, doc: &Document) -> (r: bool)
        requires
            self.wf(doc),
        ensures
            r == doc.nodes@[self.index as int].flags.is_dirty,
    {
        doc.nodes[self.index].flags.is_dirty
    }

    pub fn has_dirty_descendants(&self, doc: &Document) -> (r: bool)
        requires
            self.wf(doc),
        ensures
            r == doc.nodes@[self.index as int].flags.has_dirty_descendants,
    {
        doc.nodes[self.index].flags.has_dirty_descendants
    }

    /// `doc` differs from `before` in the flags of this node alone, which
    /// are `flags`.
    pub open spec fn flags_set(&self, before: &Document, doc: &Document, flags: NodeFlags) -> bool {
        &&& before.same_tree(doc)
        &&& before.wf() ==> doc.wf()
        &&& forall|j: int|
            0 <= j < before.nodes@.len() && j != self.index ==> doc.nodes@[j] == before.nodes@[j]
        &&& doc.nodes@[self.index as int].layout_data == before.nodes@[self.index as int].layout_data
        &&& doc.nodes@[self.index as int].flags == flags
    }

    pub fn set_changed(&self, doc: &mut Document, value: bool)
        requires
            self.wf(old(doc)),
        ensures
            self.flags_set(
                old(doc),
                final(doc),
                NodeFlags { has_changed: value, ..old(doc).nodes@[self.index as int].flags },
            ),
    {
        doc.nodes[self.index].flags.has_changed = value;
        proof {
            if old(doc).wf() {
                old(doc).lemma_same_tree_wf(doc);
            }
        }
    }

    pub fn set_dirty(&self, doc: &mut Document, value: bool)
        requires
            self.wf(old(doc)),
        ensures
            self.flags_set(
                old(doc),
                final(doc),
                NodeFlags { is_dirty: value, ..old(doc).nodes@[self.index as int].flags },
            ),
    {
        doc.nodes[self.index].flags.is_dirty = value;
        proof {
            if old(doc).wf() {
                old(doc).lemma_same_tree_wf(doc);
            }
        }
    }

    pub fn set_dirty_siblings(&self, doc: &mut Document, value: bool)
        requires
            self.wf(old(doc)),
        ensures
            self.flags_set(
                old(doc),
                final(doc),
                NodeFlags { has_dirty_siblings: value, ..old(doc).nodes@[self.index as int].flags },
            ),
    {
        doc.nodes[self.index].flags.has_dirty_siblings = value;
        proof {
            if old(doc).wf() {
                old(doc).lemma_same_tree_wf(doc);
            }
        }
    }

    pub fn set_dirty_descendants(&self, doc: &mut Document, value: bool)
        requires
            self.wf(old(doc)),
        ensures
            self.flags_set(
                old(doc),
                final(doc),
                NodeFlags {
                    has_dirty_descendants: value,
                    ..old(doc).nodes@[self.index as int].flags
                },
            ),
    {
        doc.nodes[self.index].flags.has_dirty_descendants = value;
        proof {
            if old(doc).wf() {
                old(doc).lemma_same_tree_wf(doc);
            }
        }
    }

    /// The side table of this node, to change. The document is held until
    /// the reference is given up, and then differs in that side table alone.
    pub fn mutate_layout_data<'a>(&self, doc: &'a mut Document) -> (r: &'a mut Option<LayoutDataWrapper>)
        requires
            self.wf(old(doc)),
        ensures
            *r == old(doc).nodes@[self.index as int].layout_data,
            old(doc).same_tree(final(doc)),
            forall|j: int|
                0 <= j < old(doc).nodes@.len() && j != self.index ==> final(doc).nodes@[j] == old(doc).nodes@[j],
            final(doc).nodes@[self.index as int].flags == old(doc).nodes@[self.index as int].flags,
            final(doc).nodes@[self.index as int].layout_data == *final(r),
    {
        &mut doc.nodes[self.index].layout_data
    }

    /// The side table of this node, to read.
    pub fn borrow_layout_data<'a>(&self, doc: &'a Document) -> (r: &'a Option<LayoutDataWrapper>)
        requires
            self.wf(doc),
        ensures
            *r == doc.nodes@[self.index as int].layout_data,
    {
        &doc.nodes[self.index].layout_data
    }
}

} // verus!
