//! Walking the tree through the full-access view: the children of a node in
//! either direction, and a node with all its descendants, depth first.

use vstd::prelude::*;
use crate::dom::Document;
use crate::node::LayoutNode;

verus! {

/// The first `n` items of `s`, the last of them first.
pub open spec fn backwards(s: Seq<usize>, n: int) -> Seq<usize> {
    Seq::new(n as nat, |k: int| s[n - 1 - k])
}

/// What a depth-first walk yields from a stack of nodes still to visit: the
/// subtree of the topmost, then those of the ones below, the top being the
/// last item.
pub open spec fn pending(doc: &Document, stack: Seq<LayoutNode>) -> Seq<usize>
    decreases stack.len(),
{
    if stack.len() == 0 {
        Seq::empty()
    } else {
        doc.subtree(stack.last().index as int) + pending(doc, stack.drop_last())
    }
}

/// Yields the children of a node, first to last.
pub struct LayoutNodeChildrenIterator {
    current: Option<LayoutNode>,
}

/// Yields the children of a node, last to first.
pub struct LayoutNodeReverseChildrenIterator {
    current: Option<LayoutNode>,
}

/// Yields a node and its descendants, each node before its children.
pub struct LayoutTreeIterator {
    stack: Vec<LayoutNode>,
}

impl LayoutNodeChildrenIterator {
    pub closed spec fn current(&self) -> Option<LayoutNode> {
        self.current
    }

    /// The node to yield next, if any, is a node of `doc`.
    pub open spec fn wf(&self, doc: &Document) -> bool {
        self.current() matches Some(c) ==> c.wf(doc)
    }

    /// The nodes still to come, in order: the current node and the siblings
    /// after it.
    pub open spec fn remaining(&self, doc: &Document) -> Seq<usize> {
        match self.current() {
            None => Seq::empty(),
            Some(c) => match doc.nodes@[c.index as int].parent {
                Some(p) => doc.kids(p as int).skip(doc.nodes@[c.index as int].position as int),
                None => seq![c.index],
            },
        }
    }

    /// Yields the next child and moves on to its next sibling.
    pub fn next(&mut self, doc: &Document) -> (r: Option<LayoutNode>)
        requires
            doc.wf(),
            old(self).wf(doc),
        ensures
            final(self).wf(doc),
            r == (if old(self).remaining(doc).len() == 0 {
                None
            } else {
                Some(LayoutNode { index: old(self).remaining(doc)[0], pass: doc.pass })
            }),
            old(self).remaining(doc).len() == 0 ==> final(self).remaining(doc).len() == 0,
            old(self).remaining(doc).len() > 0 ==> final(self).remaining(doc) == old(self).remaining(doc).drop_first(),
    {
        let node = self.current;
        match node {
            Some(c) => {
                proof {
                    assert(doc.links_ok(c.index as int));
                    match doc.nodes@[c.index as int].parent {
                        Some(p) => {
                            assert(doc.links_ok(p as int));
                        },
                        None => {},
                    }
                }
                self.current = c.next_sibling(doc);
                proof {
                    match self.current {
                        Some(s) => {
                            assert(doc.links_ok(s.index as int));
                        },
                        None => {},
                    }
                    assert(self.remaining(doc) =~= old(self).remaining(doc).drop_first());
                }
            },
            None => {},
        }
        node
    }
}

impl LayoutNodeReverseChildrenIterator {
    pub closed spec fn current(&self) -> Option<LayoutNode> {
        self.current
    }

    /// The node to yield next, if any, is a node of `doc`.
    pub open spec fn wf(&self, doc: &Document) -> bool {
        self.current() matches Some(c) ==> c.wf(doc)
    }

    /// The nodes still to come, in order: the current node and the siblings
    /// before it, nearest first.
    pub open spec fn remaining(&self, doc: &Document) -> Seq<usize> {
        match self.current() {
            None => Seq::empty(),
            Some(c) => match doc.nodes@[c.index as int].parent {
                Some(p) => backwards(doc.kids(p as int), doc.nodes@[c.index as int].position + 1),
                None => seq![c.index],
            },
        }
    }

    /// Yields the next child and moves on to its previous sibling.
    pub fn next(&mut self, doc: &Document) -> (r: Option<LayoutNode>)
        requires
            doc.wf(),
            old(self).wf(doc),
        ensures
            final(self).wf(doc),
            r == (if old(self).remaining(doc).len() == 0 {
                None
            } else {
                Some(LayoutNode { index: old(self).remaining(doc)[0], pass: doc.pass })
            }),
            old(self).remaining(doc).len() == 0 ==> final(self).remaining(doc).len() == 0,
            old(self).remaining(doc).len() > 0 ==> final(self).remaining(doc) == old(self).remaining(doc).drop_first(),
    {
        let node = self.current;
        match node {
            Some(c) => {
                proof {
                    assert(doc.links_ok(c.index as int));
                    match doc.nodes@[c.index as int].parent {
                        Some(p) => {
                            assert(doc.links_ok(p as int));
                        },
                        None => {},
                    }
                }
                self.current = c.prev_sibling(doc);
                proof {
                    match self.current {
                        Some(s) => {
                            assert(doc.links_ok(s.index as int));
                        },
                        None => {},
                    }
                    assert(self.remaining(doc) =~= old(self).remaining(doc).drop_first());
                }
            },
            None => {},
        }
        node
    }
}

impl LayoutTreeIterator {
    pub closed spec fn stack(&self) -> Seq<LayoutNode> {
        self.stack@
    }

    /// Every node still on the stack is a node of `doc`.
    pub open spec fn wf(&self, doc: &Document) -> bool {
        forall|k: int| 0 <= k < self.stack().len() ==> (#[trigger] self.stack()[k]).wf(doc)
    }

    /// The nodes still to come, in order.
    pub open spec fn remaining(&self, doc: &Document) -> Seq<usize> {
        pending(doc, self.stack())
    }

    fn new(root: LayoutNode) -> (r: LayoutTreeIterator)
        ensures
            r.stack() == seq![root],
    {
        let mut stack = Vec::new();
        stack.push(root);
        LayoutTreeIterator { stack }
    }

    /// Yields the next node, and puts its children in its place, so that the
    /// first of them comes next.
    pub fn next(&mut self, doc: &Document) -> (r: Option<LayoutNode>)
        requires
            doc.wf(),
            old(self).wf(doc),
        ensures
            final(self).wf(doc),
            r == (if old(self).remaining(doc).len() == 0 {
                None
            } else {
                Some(LayoutNode { index: old(self).remaining(doc)[0], pass: doc.pass })
            }),
            old(self).remaining(doc).len() == 0 ==> final(self).remaining(doc).len() == 0,
            old(self).remaining(doc).len() > 0 ==> final(self).remaining(doc) == old(self).remaining(doc).drop_first(),
    {
        let ret = self.stack.pop();
        match ret {
            None => {
                assert(old(self).stack() =~= Seq::<LayoutNode>::empty());
                None
            },
            Some(node) => {
                let ghost rest = self.stack@;
                assert(rest =~= old(self).stack().drop_last());
                assert(node == old(self).stack().last());
                let kids = &doc.nodes[node.index].children;
                let mut j: usize = kids.len();
                proof {
                    assert(doc.forest_from(node.index as int, j as nat) =~= Seq::<usize>::empty());
                }
                while j > 0
                    invariant
                        doc.wf(),
                        node.wf(doc),
                        *kids == doc.nodes@[node.index as int].children,
                        j <= kids@.len(),
                        forall|k: int| 0 <= k < self.stack@.len() ==> (#[trigger] self.stack@[k]).wf(doc),
                        pending(doc, self.stack@) == doc.forest_from(node.index as int, j as nat)
                            + pending(doc, rest),
                    decreases j,
                {
                    j = j - 1;
                    let ghost before = self.stack@;
                    let kid = node.new_with_this_lifetime(kids[j]);
                    self.stack.push(kid);
                    proof {
                        assert(doc.links_ok(node.index as int));
                        assert(self.stack@.drop_last() =~= before);
                        assert(pending(doc, self.stack@) == doc.subtree(kid.index as int)
                            + pending(doc, before));
                        assert(doc.forest_from(node.index as int, j as nat) == doc.subtree(
                            kid.index as int,
                        ) + doc.forest_from(node.index as int, (j + 1) as nat));
                        assert(pending(doc, self.stack@) =~= doc.forest_from(
                            node.index as int,
                            j as nat,
                        ) + pending(doc, rest));
                    }
                }
                proof {
                    assert(old(self).remaining(doc) == doc.subtree(node.index as int) + pending(
                        doc,
                        rest,
                    ));
                    assert(self.remaining(doc) =~= old(self).remaining(doc).drop_first());
                }
                Some(node)
            },
        }
    }
}

impl LayoutNode {
    /// Returns an iterator over this node and its descendants, depth first.
    pub fn traverse_preorder(self, doc: &Document) -> (r: LayoutTreeIterator)
        requires
            self.wf(doc),
        ensures
            r.wf(doc),
            r.remaining(doc) == doc.subtree(self.index as int),
    {
        let r = LayoutTreeIterator::new(self);
        proof {
            assert(r.stack().drop_last() =~= Seq::<LayoutNode>::empty());
            assert(pending(doc, r.stack().drop_last()) =~= Seq::<usize>::empty());
            assert(r.remaining(doc) =~= doc.subtree(self.index as int));
        }
        r
    }

    /// Returns an iterator over this node's children.
    pub fn children(self, doc: &Document) -> (r: LayoutNodeChildrenIterator)
        requires
            doc.wf(),
            self.wf(doc),
        ensures
            r.wf(doc),
            r.remaining(doc) == doc.kids(self.index as int),
    {
        let r = LayoutNodeChildrenIterator { current: self.first_child(doc) };
        proof {
            assert(doc.links_ok(self.index as int));
            assert(r.remaining(doc) =~= doc.kids(self.index as int));
        }
        r
    }

    /// Returns an iterator over this node's children, the last one first.
    pub fn rev_children(self, doc: &Document) -> (r: LayoutNodeReverseChildrenIterator)
        requires
            doc.wf(),
            self.wf(doc),
        ensures
            r.wf(doc),
            r.remaining(doc) == backwards(
                doc.kids(self.index as int),
                doc.kids(self.index as int).len() as int,
            ),
    {
        let r = LayoutNodeReverseChildrenIterator { current: self.last_child(doc) };
        proof {
            assert(doc.links_ok(self.index as int));
            assert(r.remaining(doc) =~= backwards(
                doc.kids(self.index as int),
                doc.kids(self.index as int).len() as int,
            ));
        }
        r
    }
}

impl Document {
    /// Every node that the subtrees of the children of `n` hold, from the
    /// `j`-th child on, is a node of the document, and is a child of `n` or
    /// comes after its own parent.
    proof fn lemma_forest_parent_first(&self, n: usize, j: nat, i: int)
        requires
            self.wf(),
            n < self.nodes@.len(),
            0 <= i < self.forest_from(n as int, j).len(),
        ensures
            self.forest_from(n as int, j)[i] < self.nodes@.len(),
            self.nodes@[self.forest_from(n as int, j)[i] as int].parent == Some(n) || exists|q: int|
                0 <= q < i && Some(#[trigger] self.forest_from(n as int, j)[q])
                    == self.nodes@[self.forest_from(n as int, j)[i] as int].parent,
        decreases self.nodes@.len() - n, self.kids(n as int).len() - j, 0nat,
    {
        let c = self.kids(n as int)[j as int];
        assert(self.links_ok(n as int));
        let first = self.subtree(c as int);
        let rest = self.forest_from(n as int, j + 1);
        let all = self.forest_from(n as int, j);
        assert(all == first + rest);
        if i < first.len() {
            self.lemma_preorder_parent_first(c, i);
            if i > 0 {
                let q = choose|q: int|
                    0 <= q < i && Some(#[trigger] first[q]) == self.nodes@[first[i] as int].parent;
                assert(all[q] == first[q]);
            }
        } else {
            let at = i - first.len();
            self.lemma_forest_parent_first(n, j + 1, at);
            if self.nodes@[rest[at] as int].parent != Some(n) {
                let q = choose|q: int|
                    0 <= q < at && Some(#[trigger] rest[q]) == self.nodes@[rest[at] as int].parent;
                assert(all[q + first.len()] == rest[q]);
            }
        }
    }

    /// In the depth-first order of the subtree of `n`, the first node is
    /// `n`, and every other node comes after its parent: so a node comes
    /// before all of its descendants.
    pub proof fn lemma_preorder_parent_first(&self, n: usize, i: int)
        requires
            self.wf(),
            n < self.nodes@.len(),
            0 <= i < self.subtree(n as int).len(),
        ensures
            self.subtree(n as int)[i] < self.nodes@.len(),
            i == 0 ==> self.subtree(n as int)[i] == n,
            i > 0 ==> exists|q: int|
                0 <= q < i && Some(#[trigger] self.subtree(n as int)[q])
                    == self.nodes@[self.subtree(n as int)[i] as int].parent,
        decreases self.nodes@.len() - n, self.kids(n as int).len() + 1, 0nat,
    {
        let below = self.forest_from(n as int, 0);
        let all = self.subtree(n as int);
        assert(all == seq![n] + below);
        if i > 0 {
            self.lemma_forest_parent_first(n, 0, i - 1);
            assert(all[i] == below[i - 1]);
            if self.nodes@[below[i - 1] as int].parent == Some(n) {
                assert(all[0] == n);
            } else {
                let q = choose|q: int|
                    0 <= q < i - 1 && Some(#[trigger] below[q])
                        == self.nodes@[below[i - 1] as int].parent;
                assert(all[q + 1] == below[q]);
            }
        }
    }
}

} // verus!
