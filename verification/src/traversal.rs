//! Walking the tree through the restricted view: the children of a handle,
//! pseudo-elements included, and the bottom-up traversal with pruning.

use vstd::prelude::*;
use crate::dom::Document;
use crate::node::LayoutNode;
use crate::style::{LayoutDataWrapper, PrivateLayoutData, RestyleDamage};
use crate::thread_safe::{PseudoElementType, ThreadSafeLayoutNode};

verus! {

/// Yields the children of a restricted handle: the `before` pseudo-element,
/// the node's own children, the `after` pseudo-element.
pub struct ThreadSafeLayoutNodeChildrenIterator {
    current_node: Option<ThreadSafeLayoutNode>,
    parent_node: ThreadSafeLayoutNode,
}

impl ThreadSafeLayoutNodeChildrenIterator {
    pub closed spec fn current(&self) -> Option<ThreadSafeLayoutNode> {
        self.current_node
    }

    pub closed spec fn parent(&self) -> ThreadSafeLayoutNode {
        self.parent_node
    }

    /// The current handle is a child of the parent handle in `doc`.
    pub open spec fn wf(&self, doc: &Document) -> bool {
        &&& self.parent().node.wf(doc)
        &&& match self.current() {
            None => true,
            Some(c) => match self.parent().pseudo {
                PseudoElementType::Normal => match c.pseudo {
                    PseudoElementType::Normal => {
                        &&& c.node.wf(doc)
                        &&& doc.nodes@[c.node.index as int].parent == Some(self.parent().node.index)
                    },
                    PseudoElementType::Before(_) => self.parent().before_part(doc) == seq![c],
                    PseudoElementType::After(_) => self.parent().after_part(doc) == seq![c],
                },
                PseudoElementType::Before(_) => self.parent().real_part(doc).len() > 0 && c
                    == self.parent().real_part(doc)[0],
                PseudoElementType::After(_) => false,
            },
        }
    }

    /// The handles still to come, in order.
    pub open spec fn remaining(&self, doc: &Document) -> Seq<ThreadSafeLayoutNode> {
        match self.current() {
            None => if self.parent().pseudo is Normal {
                self.parent().after_part(doc)
            } else {
                Seq::empty()
            },
            Some(c) => match self.parent().pseudo {
                PseudoElementType::Normal => match c.pseudo {
                    PseudoElementType::Before(_) => self.parent().spec_children(doc),
                    PseudoElementType::Normal => self.parent().real_part(doc).skip(
                        doc.nodes@[c.node.index as int].position as int,
                    ) + self.parent().after_part(doc),
                    PseudoElementType::After(_) => Seq::empty(),
                },
                _ => seq![c],
            },
        }
    }

    /// Yields the next child. After the last of the node's own children
    /// comes the `after` pseudo-element, where the node has one, and after
    /// that nothing.
    pub fn next(&mut self, doc: &Document) -> (r: Option<ThreadSafeLayoutNode>)
        requires
            doc.wf(),
            old(self).wf(doc),
        ensures
            final(self).wf(doc),
            final(self).parent() == old(self).parent(),
            r == (if old(self).remaining(doc).len() == 0 {
                None
            } else {
                Some(old(self).remaining(doc)[0])
            }),
            r matches Some(c) ==> c.wf(doc),
            old(self).remaining(doc).len() == 0 ==> final(self).remaining(doc).len() == 0,
            old(self).remaining(doc).len() > 0 ==> final(self).remaining(doc) == old(self).remaining(doc).drop_first(),
    {
        let node = self.current_node;
        let parent = self.parent_node;
        match node {
            Some(c) => {
                if c.pseudo.is_after() {
                    return None;
                }
                proof {
                    assert(doc.links_ok(parent.node.index as int));
                    if parent.pseudo is Normal && c.pseudo is Normal {
                        assert(doc.links_ok(c.node.index as int));
                    }
                }
                self.current_node = if parent.pseudo.is_normal() {
                    c.next_sibling(doc)
                } else {
                    None
                };
                proof {
                    match self.current_node {
                        Some(s) => {
                            assert(doc.links_ok(s.node.index as int));
                        },
                        None => {},
                    }
                    assert(self.remaining(doc) =~= old(self).remaining(doc).drop_first());
                    assert(old(self).remaining(doc)[0] == c);
                }
                Some(c)
            },
            None => {
                if parent.pseudo.is_normal() {
                    match parent.get_after_display(doc) {
                        Some(display) => {
                            let after = ThreadSafeLayoutNode {
                                node: parent.node,
                                pseudo: PseudoElementType::After(display),
                            };
                            self.current_node = Some(after);
                            Some(after)
                        },
                        None => None,
                    }
                } else {
                    None
                }
            },
        }
    }
}

impl ThreadSafeLayoutNode {
    /// Returns an iterator over this handle's children.
    pub fn children(&self, doc: &Document) -> (r: ThreadSafeLayoutNodeChildrenIterator)
        requires
            doc.wf(),
            self.node.wf(doc),
        ensures
            r.wf(doc),
            r.parent() == *self,
            r.remaining(doc) == self.spec_children(doc),
    {
        let r = ThreadSafeLayoutNodeChildrenIterator {
            current_node: self.first_child(doc),
            parent_node: *self,
        };
        proof {
            assert(doc.links_ok(self.node.index as int));
            assert(r.remaining(doc) =~= self.spec_children(doc));
        }
        r
    }
}

/// A bottom-up traversal: the operations that the traversal performs on
/// each node, and the record of what it has done.
pub trait PostorderNodeMutTraversal: Sized {
    /// The handles that `process` has been given so far, each with what it
    /// answered, oldest first.
    spec fn processed(&self) -> Seq<(ThreadSafeLayoutNode, bool)>;

    /// Whether the traversal leaves out this handle and everything below.
    spec fn prunes(&self, doc: &Document, node: ThreadSafeLayoutNode) -> bool;

    /// The operation to perform. Returns true to continue and false to
    /// stop. It may write to the node of the handle it is given, but for
    /// the styles of that node's pseudo-elements, and to nothing else; it is
    /// recorded, and does not change what is pruned.
    fn process(&mut self, doc: &mut Document, node: &ThreadSafeLayoutNode) -> (go_on: bool)
        requires
            old(doc).wf(),
            node.wf(old(doc)),
        ensures
            final(self).processed() == old(self).processed().push((*node, go_on)),
            forall|d: &Document, n: ThreadSafeLayoutNode|
                #[trigger] final(self).prunes(d, n) == old(self).prunes(d, n),
            forall|n: ThreadSafeLayoutNode|
                #[trigger] old(self).prunes(final(doc), n) == old(self).prunes(old(doc), n),
            old(doc).same_shape(final(doc)),
            forall|j: int|
                0 <= j < old(doc).nodes@.len() && j != node.node.index
                    ==> #[trigger] final(doc).nodes@[j] == old(doc).nodes@[j],
    ;

    /// Returns true if this handle should be pruned: it is then not
    /// processed, nor is anything below it. Asked before the children are
    /// visited.
    fn should_prune(&self, doc: &Document, node: &ThreadSafeLayoutNode) -> (r: bool)
        requires
            doc.wf(),
            node.wf(doc),
        ensures
            r == self.prunes(doc, *node),
    ;
}

/// A top-down traversal: one operation per node, performed before the
/// node's descendants are visited.
pub trait PreorderDomTraversal {
    /// The operation to perform.
    fn process(&self, doc: &Document, node: LayoutNode)
        requires
            doc.wf(),
            node.wf(doc),
    ;
}

/// A bottom-up traversal: one operation per node, performed after the
/// node's descendants have been visited.
pub trait PostorderDomTraversal {
    /// The operation to perform.
    fn process(&self, doc: &Document, node: LayoutNode)
        requires
            doc.wf(),
            node.wf(doc),
    ;
}

impl ThreadSafeLayoutNode {
    /// 1 for a node, 0 for a pseudo-element: a pseudo-element stands below
    /// its node.
    pub open spec fn rank(&self) -> nat {
        if self.pseudo is Normal {
            1
        } else {
            0
        }
    }

    /// `self` stands below `upper` in `doc`: on a later node, or as a
    /// pseudo-element on the same node.
    pub open spec fn below(&self, upper: &ThreadSafeLayoutNode, doc: &Document) -> bool {
        &&& self.node.index < doc.nodes@.len()
        &&& self.node.index > upper.node.index || (self.node.index == upper.node.index
            && self.rank() < upper.rank())
    }

    /// How many children a bottom-up traversal goes into from this handle:
    /// all of them from a node, none from a pseudo-element.
    pub open spec fn descent(&self, doc: &Document) -> nat {
        if self.pseudo is Normal {
            self.spec_children(doc).len()
        } else {
            0
        }
    }

    /// The handles that a bottom-up traversal from this handle processes
    /// when no operation stops it, in order: nothing where the handle is
    /// pruned; the handle alone where it stands for a pseudo-element; else
    /// what the traversals from its children process, one child after the
    /// other, and then the handle itself.
    pub open spec fn postorder(
        &self,
        doc: &Document,
        pruned: spec_fn(ThreadSafeLayoutNode) -> bool,
    ) -> Seq<ThreadSafeLayoutNode>
        decreases doc.nodes@.len() - self.node.index, self.rank(), self.spec_children(doc).len() + 1,
    {
        if pruned(*self) || self.node.index >= doc.nodes@.len() {
            Seq::empty()
        } else {
            self.postorder_kids(doc, pruned, self.descent(doc)).push(*self)
        }
    }

    /// What the traversals from the first `k` children of this handle
    /// process, one child after the other.
    pub open spec fn postorder_kids(
        &self,
        doc: &Document,
        pruned: spec_fn(ThreadSafeLayoutNode) -> bool,
        k: nat,
    ) -> Seq<ThreadSafeLayoutNode>
        decreases doc.nodes@.len() - self.node.index, self.rank(), k,
    {
        if k == 0 || k > self.spec_children(doc).len() || self.node.index >= doc.nodes@.len() {
            Seq::empty()
        } else {
            let kid = self.spec_children(doc)[k - 1];
            self.postorder_kids(doc, pruned, (k - 1) as nat) + (if kid.below(self, doc) {
                kid.postorder(doc, pruned)
            } else {
                Seq::empty()
            })
        }
    }

    /// Every child of a handle is a good handle and stands below it.
    pub proof fn lemma_child_below(&self, doc: &Document, k: int)
        requires
            doc.wf(),
            self.node.wf(doc),
            0 <= k < self.spec_children(doc).len(),
        ensures
            self.spec_children(doc)[k].wf(doc),
            self.spec_children(doc)[k].below(self, doc),
    {
        assert(doc.links_ok(self.node.index as int));
    }

    /// What the first `j` children contribute is the start of what the
    /// first `m` contribute.
    pub proof fn lemma_kids_prefix(
        &self,
        doc: &Document,
        pruned: spec_fn(ThreadSafeLayoutNode) -> bool,
        j: nat,
        m: nat,
    )
        requires
            self.node.index < doc.nodes@.len(),
            j <= m <= self.spec_children(doc).len(),
        ensures
            self.postorder_kids(doc, pruned, j).len() <= self.postorder_kids(doc, pruned, m).len(),
            self.postorder_kids(doc, pruned, m).take(
                self.postorder_kids(doc, pruned, j).len() as int,
            ) == self.postorder_kids(doc, pruned, j),
        decreases m - j,
    {
        if j < m {
            self.lemma_kids_prefix(doc, pruned, j, (m - 1) as nat);
            let a = self.postorder_kids(doc, pruned, j);
            let b = self.postorder_kids(doc, pruned, (m - 1) as nat);
            let c = self.postorder_kids(doc, pruned, m);
            assert(c.take(b.len() as int) =~= b);
            assert(c.take(a.len() as int) =~= b.take(a.len() as int));
        } else {
            assert(self.postorder_kids(doc, pruned, m).take(
                self.postorder_kids(doc, pruned, j).len() as int,
            ) =~= self.postorder_kids(doc, pruned, j));
        }
    }
}

/// `done` is the record of a traversal that was to process `want` and
/// returned `ok`: it processed the handles of `want` in order; every
/// operation but the last answered true; with `ok` it processed all of them
/// and the last answered true as well; without, the last one answered false.
pub open spec fn is_run(
    want: Seq<ThreadSafeLayoutNode>,
    done: Seq<(ThreadSafeLayoutNode, bool)>,
    ok: bool,
) -> bool {
    &&& done.len() <= want.len()
    &&& forall|i: int| 0 <= i < done.len() ==> (#[trigger] done[i]).0 == want[i]
    &&& forall|i: int| 0 <= i < done.len() - 1 ==> (#[trigger] done[i]).1
    &&& ok ==> done.len() == want.len() && (done.len() > 0 ==> done.last().1)
    &&& !ok ==> done.len() > 0 && !done.last().1
}

/// `after` is `before` with more entries at its end.
pub open spec fn extends<A>(before: Seq<A>, after: Seq<A>) -> bool {
    before.len() <= after.len() && after.take(before.len() as int) == before
}

impl Document {
    /// Two documents with the same tree and the same pseudo-element styles
    /// on every node: every handle has the same children in both.
    pub open spec fn same_shape(&self, other: &Document) -> bool {
        &&& self.same_tree(other)
        &&& forall|i: int|
            0 <= i < self.nodes@.len() ==> {
                &&& #[trigger] self.before_style(i) == other.before_style(i)
                &&& self.after_style(i) == other.after_style(i)
            }
    }

    /// Having the same shape carries over a document in the middle.
    pub proof fn lemma_same_shape_chain(&self, middle: &Document, other: &Document)
        requires
            self.same_shape(middle),
            middle.same_shape(other),
        ensures
            self.same_shape(other),
    {
        assert forall|i: int| 0 <= i < self.nodes@.len() implies {
            &&& (#[trigger] self.nodes@[i]).content == other.nodes@[i].content
            &&& self.nodes@[i].parent == other.nodes@[i].parent
            &&& self.nodes@[i].position == other.nodes@[i].position
            &&& self.nodes@[i].children == other.nodes@[i].children
        } by {
            assert(middle.nodes@[i].content == other.nodes@[i].content);
        }
        assert forall|i: int| 0 <= i < self.nodes@.len() implies {
            &&& #[trigger] self.before_style(i) == other.before_style(i)
            &&& self.after_style(i) == other.after_style(i)
        } by {
            assert(middle.before_style(i) == other.before_style(i));
        }
    }

    /// Documents with the same tree have the same ancestors.
    pub proof fn lemma_same_tree_ancestry(&self, other: &Document, a: int, x: int)
        requires
            self.same_tree(other),
        ensures
            self.is_ancestor_or_self(a, x) == other.is_ancestor_or_self(a, x),
        decreases x,
    {
        if a != x && 0 <= x < self.nodes@.len() {
            assert(self.nodes@[x].parent == other.nodes@[x].parent);
            match self.nodes@[x].parent {
                Some(p) => {
                    if p < x {
                        self.lemma_same_tree_ancestry(other, a, p as int);
                    }
                },
                None => {},
            }
        }
    }
}

impl ThreadSafeLayoutNode {
    /// A handle has the same children in two documents of the same shape.
    pub proof fn lemma_same_shape_children(&self, doc: &Document, other: &Document)
        requires
            doc.same_shape(other),
            self.node.index < doc.nodes@.len(),
        ensures
            self.spec_children(doc) == self.spec_children(other),
            self.wf(doc) == self.wf(other),
    {
        let i = self.node.index as int;
        assert(doc.before_style(i) == other.before_style(i));
        assert(doc.nodes@[i].children == other.nodes@[i].children);
        assert(self.real_part(doc) =~= self.real_part(other));
        assert(self.spec_children(doc) =~= self.spec_children(other));
    }

    /// The traversals from the first `k` children process the same handles
    /// in two documents of the same shape.
    proof fn lemma_same_shape_kids(
        &self,
        doc: &Document,
        other: &Document,
        pruned: spec_fn(ThreadSafeLayoutNode) -> bool,
        k: nat,
    )
        requires
            doc.same_shape(other),
        ensures
            self.postorder_kids(doc, pruned, k) == self.postorder_kids(other, pruned, k),
        decreases doc.nodes@.len() - self.node.index, self.rank(), k, 0nat,
    {
        if self.node.index < doc.nodes@.len() {
            self.lemma_same_shape_children(doc, other);
            if 0 < k <= self.spec_children(doc).len() {
                let kid = self.spec_children(doc)[k - 1];
                self.lemma_same_shape_kids(doc, other, pruned, (k - 1) as nat);
                if kid.below(self, doc) {
                    kid.lemma_same_shape_postorder(doc, other, pruned);
                }
            }
        }
    }

    /// A traversal processes the same handles in two documents of the same
    /// shape.
    pub proof fn lemma_same_shape_postorder(
        &self,
        doc: &Document,
        other: &Document,
        pruned: spec_fn(ThreadSafeLayoutNode) -> bool,
    )
        requires
            doc.same_shape(other),
        ensures
            self.postorder(doc, pruned) == self.postorder(other, pruned),
        decreases doc.nodes@.len() - self.node.index, self.rank(), self.spec_children(doc).len() + 1,
            0nat,
    {
        if self.node.index < doc.nodes@.len() {
            self.lemma_same_shape_children(doc, other);
            self.lemma_same_shape_kids(doc, other, pruned, self.descent(doc));
        }
    }
}

impl ThreadSafeLayoutNodeChildrenIterator {
    /// An iterator goes on in the same way in a document of the same shape.
    pub proof fn lemma_same_shape(&self, doc: &Document, other: &Document)
        requires
            doc.wf(),
            doc.same_shape(other),
            self.wf(doc),
        ensures
            self.wf(other),
            self.remaining(other) == self.remaining(doc),
    {
        let p = self.parent_node;
        p.lemma_same_shape_children(doc, other);
        let i = p.node.index as int;
        assert(doc.before_style(i) == other.before_style(i));
        assert(doc.nodes@[i].children == other.nodes@[i].children);
        assert(p.real_part(doc) =~= p.real_part(other));
        match self.current_node {
            Some(c) => {
                if c.node.index < doc.nodes@.len() {
                    assert(doc.nodes@[c.node.index as int].parent == other.nodes@[c.node.index as int].parent);
                }
            },
            None => {},
        }
    }
}

impl ThreadSafeLayoutNode {
    /// Traverses the tree below this handle in postorder: asks whether the
    /// handle is pruned, and if it is not, traverses from each child in
    /// turn and then processes the handle. From a pseudo-element it goes
    /// into no child, so every handle is processed once. Stops at the first
    /// operation that answers false, and then returns false. The document
    /// keeps its shape, and changes only on this handle's node and under
    /// it.
    #[verifier::rlimit(80)]
    pub fn traverse_postorder_mut<T: PostorderNodeMutTraversal>(
        &mut self,
        doc: &mut Document,
        traversal: &mut T,
    ) -> (ok: bool)
        requires
            old(doc).wf(),
            old(self).wf(old(doc)),
        ensures
            *final(self) == *old(self),
            forall|d: &Document, n: ThreadSafeLayoutNode|
                #[trigger] final(traversal).prunes(d, n) == old(traversal).prunes(d, n),
            forall|n: ThreadSafeLayoutNode|
                #[trigger] old(traversal).prunes(final(doc), n) == old(traversal).prunes(
                    old(doc),
                    n,
                ),
            old(doc).same_shape(final(doc)),
            final(doc).wf(),
            forall|j: int|
                0 <= j < old(doc).nodes@.len() && !old(doc).is_ancestor_or_self(
                    old(self).node.index as int,
                    j,
                ) ==> #[trigger] final(doc).nodes@[j] == old(doc).nodes@[j],
            extends(old(traversal).processed(), final(traversal).processed()),
            is_run(
                old(self).postorder(
                    old(doc),
                    |n: ThreadSafeLayoutNode| old(traversal).prunes(old(doc), n),
                ),
                final(traversal).processed().skip(old(traversal).processed().len() as int),
                ok,
            ),
        decreases old(doc).nodes@.len() - old(self).node.index, old(self).rank(),
    {
        let ghost doc0 = *doc;
        let ghost pruned = |n: ThreadSafeLayoutNode| old(traversal).prunes(&doc0, n);
        let ghost start = traversal.processed();
        let me = *self;
        if traversal.should_prune(&*doc, self) {
            proof {
                assert(traversal.processed().skip(start.len() as int) =~= Seq::empty());
                assert(traversal.processed().take(start.len() as int) =~= start);
            }
            return true;
        }
        let descend = self.pseudo.is_normal();
        let mut kids = self.children(&*doc);
        let ghost all = me.spec_children(&doc0);
        let ghost want = me.postorder(&doc0, pruned);
        let ghost mut k: nat = 0;
        proof {
            assert(kids.remaining(&doc0) =~= all.skip(0));
            assert(start.take(start.len() as int) =~= start);
        }
        loop
            invariant
                doc0 == *old(doc),
                doc0.wf(),
                doc.wf(),
                doc0.same_shape(doc),
                forall|j: int|
                    0 <= j < doc0.nodes@.len() && !doc0.is_ancestor_or_self(me.node.index as int, j)
                        ==> #[trigger] doc.nodes@[j] == doc0.nodes@[j],
                forall|n: ThreadSafeLayoutNode|
                    #[trigger] traversal.prunes(doc, n) == old(traversal).prunes(&doc0, n),
                forall|n: ThreadSafeLayoutNode|
                    #[trigger] old(traversal).prunes(doc, n) == old(traversal).prunes(&doc0, n),
                me.wf(&doc0),
                me.wf(doc),
                *self == me,
                !pruned(me),
                kids.wf(doc),
                all == me.spec_children(&doc0),
                want == me.postorder(&doc0, pruned),
                pruned == (|n: ThreadSafeLayoutNode| old(traversal).prunes(&doc0, n)),
                k <= all.len(),
                descend == (me.pseudo is Normal),
                !descend ==> k == 0,
                kids.remaining(doc) == all.skip(k as int),
                start == old(traversal).processed(),
                forall|d: &Document, n: ThreadSafeLayoutNode|
                    #[trigger] traversal.prunes(d, n) == old(traversal).prunes(d, n),
                extends(start, traversal.processed()),
                traversal.processed().len() == start.len() + me.postorder_kids(&doc0, pruned, k).len(),
                forall|i: int|
                    0 <= i < me.postorder_kids(&doc0, pruned, k).len() ==> {
                        &&& (#[trigger] traversal.processed()[start.len() + i]).0
                            == me.postorder_kids(&doc0, pruned, k)[i]
                        &&& traversal.processed()[start.len() + i].1
                    },
            ensures
                k == me.descent(&doc0),
            decreases all.len() - k,
        {
            if !descend {
                break ;
            }
            let ghost so_far = traversal.processed();
            let ghost doc1 = *doc;
            match kids.next(&*doc) {
                None => {
                    break ;
                },
                Some(kid) => {
                    let mut kid = kid;
                    proof {
                        assert(kid == all[k as int]);
                        me.lemma_child_below(&doc0, k as int);
                        me.lemma_kids_prefix(&doc0, pruned, k + 1, all.len());
                        assert(kids.remaining(&doc1) =~= all.skip(k as int + 1));
                    }
                    let ghost sub = |n: ThreadSafeLayoutNode| traversal.prunes(&doc1, n);
                    proof {
                        assert(sub =~= pruned);
                        kid.lemma_same_shape_postorder(&doc0, &doc1, pruned);
                    }
                    let ghost before = *traversal;
                    let went = kid.traverse_postorder_mut(doc, traversal);
                    proof {
                        assert forall|n: ThreadSafeLayoutNode|
                            #[trigger] old(traversal).prunes(doc, n) == old(traversal).prunes(
                                &doc0,
                                n,
                            ) by {
                            assert(before.prunes(doc, n) == old(traversal).prunes(doc, n));
                            assert(before.prunes(doc, n) == before.prunes(&doc1, n));
                            assert(before.prunes(&doc1, n) == old(traversal).prunes(&doc0, n));
                        }
                        assert forall|n: ThreadSafeLayoutNode|
                            #[trigger] traversal.prunes(doc, n) == old(traversal).prunes(
                                &doc0,
                                n,
                            ) by {
                            assert(traversal.prunes(doc, n) == before.prunes(doc, n));
                        }
                        doc0.lemma_same_shape_chain(&doc1, doc);
                        kids.lemma_same_shape(&doc1, doc);
                        me.lemma_same_shape_children(&doc0, doc);
                        assert forall|j: int|
                            0 <= j < doc0.nodes@.len() && !doc0.is_ancestor_or_self(
                                me.node.index as int,
                                j,
                            ) implies #[trigger] doc.nodes@[j] == doc0.nodes@[j] by {
                            doc0.lemma_same_tree_ancestry(&doc1, kid.node.index as int, j);
                            if doc0.is_ancestor_or_self(kid.node.index as int, j) {
                                if kid.node.index != me.node.index {
                                    assert(doc0.links_ok(me.node.index as int));
                                    doc0.lemma_ancestor_of_parent(me.node.index, kid.node.index, j);
                                }
                            }
                            assert(doc1.nodes@[j] == doc0.nodes@[j]);
                        }
                        let now = traversal.processed();
                        let part = now.skip(so_far.len() as int);
                        let head = me.postorder_kids(&doc0, pruned, k);
                        let next = me.postorder_kids(&doc0, pruned, k + 1);
                        let full = me.postorder_kids(&doc0, pruned, all.len());
                        assert(next == head + kid.postorder(&doc0, pruned));
                        assert(is_run(kid.postorder(&doc0, pruned), part, went));
                        assert forall|j: int| 0 <= j < so_far.len() implies now[j] == so_far[j] by {
                            assert(now.take(so_far.len() as int)[j] == now[j]);
                        }
                        assert forall|j: int| 0 <= j < start.len() implies so_far[j] == start[j] by {
                            assert(so_far.take(start.len() as int)[j] == so_far[j]);
                        }
                        assert(now.take(start.len() as int) =~= start);
                        assert forall|i: int| 0 <= i < head.len() + part.len() implies {
                            &&& (#[trigger] now[start.len() + i]).0 == next[i]
                            &&& (i < head.len() + part.len() - 1 || went) ==> now[start.len() + i].1
                        } by {
                            if i < head.len() {
                                assert(now[start.len() + i] == so_far[start.len() + i]);
                            } else {
                                assert(now[start.len() + i] == part[i - head.len()]);
                            }
                        }
                        if !went {
                            let done = now.skip(start.len() as int);
                            assert(want == full.push(me));
                            assert(full.take(next.len() as int) == next);
                            assert forall|i: int| 0 <= i < done.len() implies (#[trigger] done[i]).0
                                == want[i] by {
                                assert(done[i] == now[start.len() + i]);
                                assert(next[i] == full.take(next.len() as int)[i]);
                            }
                            assert forall|i: int| 0 <= i < done.len() - 1 implies (
                            #[trigger] done[i]).1 by {
                                assert(done[i] == now[start.len() + i]);
                            }
                            assert(done.last() == part.last());
                            assert(is_run(want, done, false));
                        }
                    }
                    if !went {
                        return false;
                    }
                    proof {
                        k = k + 1;
                    }
                },
            }
        }
        let ghost so_far = traversal.processed();
        let ghost doc1 = *doc;
        let ghost before = *traversal;
        let go_on = traversal.process(doc, self);
        proof {
            assert forall|n: ThreadSafeLayoutNode|
                #[trigger] old(traversal).prunes(doc, n) == old(traversal).prunes(&doc0, n) by {
                assert(before.prunes(doc, n) == old(traversal).prunes(doc, n));
                assert(before.prunes(doc, n) == before.prunes(&doc1, n));
                assert(before.prunes(&doc1, n) == old(traversal).prunes(&doc0, n));
            }
            doc0.lemma_same_shape_chain(&doc1, doc);
            doc0.lemma_same_tree_wf(doc);
            assert(doc0.is_ancestor_or_self(me.node.index as int, me.node.index as int));
            let now = traversal.processed();
            let done = now.skip(start.len() as int);
            let head = me.postorder_kids(&doc0, pruned, me.descent(&doc0));
            assert(want == head.push(me));
            assert(now.take(start.len() as int) =~= so_far.take(start.len() as int));
            assert forall|i: int| 0 <= i < done.len() implies (#[trigger] done[i]).0 == want[i] by {
                assert(done[i] == now[start.len() + i]);
                if i < head.len() {
                    assert(now[start.len() + i] == so_far[start.len() + i]);
                }
            }
            assert forall|i: int| 0 <= i < done.len() - 1 implies (#[trigger] done[i]).1 by {
                assert(done[i] == now[start.len() + i]);
                assert(now[start.len() + i] == so_far[start.len() + i]);
            }
            assert(done.last() == (me, go_on));
            assert(is_run(want, done, go_on));
        }
        go_on
    }
}

impl ThreadSafeLayoutNode {
    /// `self` is one of the children of `upper`.
    pub open spec fn is_child_of(&self, upper: &ThreadSafeLayoutNode, doc: &Document) -> bool {
        upper.spec_children(doc).contains(*self)
    }

    /// Every handle that the traversals from the first `k` children of this
    /// handle process is good and not pruned, and is a child of this handle
    /// or is processed before a handle whose child it is.
    proof fn lemma_kids_children_first(
        &self,
        doc: &Document,
        pruned: spec_fn(ThreadSafeLayoutNode) -> bool,
        k: nat,
        i: int,
    )
        requires
            doc.wf(),
            self.node.wf(doc),
            k <= self.spec_children(doc).len(),
            0 <= i < self.postorder_kids(doc, pruned, k).len(),
        ensures
            self.postorder_kids(doc, pruned, k)[i].node.wf(doc),
            !pruned(self.postorder_kids(doc, pruned, k)[i]),
            self.postorder_kids(doc, pruned, k)[i].is_child_of(self, doc) || exists|q: int|
                i < q < self.postorder_kids(doc, pruned, k).len() && self.postorder_kids(
                    doc,
                    pruned,
                    k,
                )[i].is_child_of(&#[trigger] self.postorder_kids(doc, pruned, k)[q], doc),
        decreases doc.nodes@.len() - self.node.index, self.rank(), k, 0nat,
    {
        let kid = self.spec_children(doc)[k - 1];
        self.lemma_child_below(doc, k - 1);
        let head = self.postorder_kids(doc, pruned, (k - 1) as nat);
        let part = kid.postorder(doc, pruned);
        let all = self.postorder_kids(doc, pruned, k);
        assert(all == head + part);
        if i < head.len() {
            self.lemma_kids_children_first(doc, pruned, (k - 1) as nat, i);
            if !head[i].is_child_of(self, doc) {
                let q = choose|q: int|
                    i < q < head.len() && head[i].is_child_of(&#[trigger] head[q], doc);
                assert(all[q] == head[q]);
            }
        } else {
            let at = i - head.len();
            kid.lemma_postorder_children_first(doc, pruned, at);
            assert(all[i] == part[at]);
            if at < part.len() - 1 {
                let q = choose|q: int|
                    at < q < part.len() && part[at].is_child_of(&#[trigger] part[q], doc);
                assert(all[q + head.len()] == part[q]);
            }
        }
    }

    /// In the order in which a traversal from this handle processes
    /// handles, the last one is this handle, and every other one is
    /// processed before a handle whose child it is: so a handle is
    /// processed after everything below it. No pruned handle is processed.
    pub proof fn lemma_postorder_children_first(
        &self,
        doc: &Document,
        pruned: spec_fn(ThreadSafeLayoutNode) -> bool,
        i: int,
    )
        requires
            doc.wf(),
            self.node.wf(doc),
            0 <= i < self.postorder(doc, pruned).len(),
        ensures
            self.postorder(doc, pruned)[i].node.wf(doc),
            !pruned(self.postorder(doc, pruned)[i]),
            i == self.postorder(doc, pruned).len() - 1 ==> self.postorder(doc, pruned)[i] == *self,
            i < self.postorder(doc, pruned).len() - 1 ==> exists|q: int|
                i < q < self.postorder(doc, pruned).len() && self.postorder(
                    doc,
                    pruned,
                )[i].is_child_of(&#[trigger] self.postorder(doc, pruned)[q], doc),
        decreases doc.nodes@.len() - self.node.index, self.rank(), self.spec_children(doc).len() + 1,
            0nat,
    {
        let count = self.descent(doc);
        let head = self.postorder_kids(doc, pruned, count);
        let all = self.postorder(doc, pruned);
        assert(all == head.push(*self));
        if i < head.len() {
            self.lemma_kids_children_first(doc, pruned, count, i);
            assert(all[i] == head[i]);
            if head[i].is_child_of(self, doc) {
                assert(all[head.len() as int] == *self);
            } else {
                let q = choose|q: int|
                    i < q < head.len() && head[i].is_child_of(&#[trigger] head[q], doc);
                assert(all[q] == head[q]);
            }
        }
    }

    /// What the traversals from the first `k` children process holds, for
    /// each handle in it, all that the traversal from that handle processes,
    /// as one run that ends with the handle.
    proof fn lemma_kids_block(
        &self,
        doc: &Document,
        pruned: spec_fn(ThreadSafeLayoutNode) -> bool,
        k: nat,
        j: int,
    ) -> (start: int)
        requires
            doc.wf(),
            self.node.wf(doc),
            k <= self.spec_children(doc).len(),
            0 <= j < self.postorder_kids(doc, pruned, k).len(),
        ensures
            0 <= start <= j,
            self.postorder_kids(doc, pruned, k).subrange(start, j + 1) == self.postorder_kids(
                doc,
                pruned,
                k,
            )[j].postorder(doc, pruned),
        decreases doc.nodes@.len() - self.node.index, self.rank(), k, 0nat,
    {
        let kid = self.spec_children(doc)[k - 1];
        self.lemma_child_below(doc, k - 1);
        let head = self.postorder_kids(doc, pruned, (k - 1) as nat);
        let part = kid.postorder(doc, pruned);
        let all = self.postorder_kids(doc, pruned, k);
        assert(all == head + part);
        if j < head.len() {
            let start = self.lemma_kids_block(doc, pruned, (k - 1) as nat, j);
            assert(all.subrange(start, j + 1) =~= head.subrange(start, j + 1));
            start
        } else {
            let at = j - head.len();
            let start = kid.lemma_postorder_block(doc, pruned, at);
            assert(all.subrange(start + head.len(), j + 1) =~= part.subrange(start, at + 1));
            start + head.len()
        }
    }

    /// What a traversal processes holds, for each handle in it, all that
    /// the traversal from that handle processes, as one run that ends with
    /// the handle.
    pub proof fn lemma_postorder_block(
        &self,
        doc: &Document,
        pruned: spec_fn(ThreadSafeLayoutNode) -> bool,
        j: int,
    ) -> (start: int)
        requires
            doc.wf(),
            self.node.wf(doc),
            0 <= j < self.postorder(doc, pruned).len(),
        ensures
            0 <= start <= j,
            self.postorder(doc, pruned).subrange(start, j + 1) == self.postorder(
                doc,
                pruned,
            )[j].postorder(doc, pruned),
        decreases doc.nodes@.len() - self.node.index, self.rank(), self.spec_children(doc).len() + 1,
            0nat,
    {
        let count = self.descent(doc);
        let head = self.postorder_kids(doc, pruned, count);
        let all = self.postorder(doc, pruned);
        assert(all == head.push(*self));
        if j < head.len() {
            let start = self.lemma_kids_block(doc, pruned, count, j);
            assert(all.subrange(start, j + 1) =~= head.subrange(start, j + 1));
            start
        } else {
            assert(all.subrange(0, j + 1) =~= all);
            0
        }
    }

    /// Whenever a traversal processes the handle of a node, it has
    /// processed before that every child of the handle that is not pruned:
    /// so a node is processed strictly after all that stands below it.
    pub proof fn lemma_postorder_child_before(
        &self,
        doc: &Document,
        pruned: spec_fn(ThreadSafeLayoutNode) -> bool,
        j: int,
        m: int,
    ) -> (i: int)
        requires
            doc.wf(),
            self.node.wf(doc),
            0 <= j < self.postorder(doc, pruned).len(),
            self.postorder(doc, pruned)[j].pseudo is Normal,
            0 <= m < self.postorder(doc, pruned)[j].spec_children(doc).len(),
            !pruned(self.postorder(doc, pruned)[j].spec_children(doc)[m]),
        ensures
            0 <= i < j,
            self.postorder(doc, pruned)[i] == self.postorder(doc, pruned)[j].spec_children(doc)[m],
    {
        let all = self.postorder(doc, pruned);
        let upper = all[j];
        self.lemma_postorder_children_first(doc, pruned, j);
        let start = self.lemma_postorder_block(doc, pruned, j);
        let block = upper.postorder(doc, pruned);
        let count = upper.descent(doc);
        let kid = upper.spec_children(doc)[m];
        upper.lemma_child_below(doc, m);
        upper.lemma_kids_prefix(doc, pruned, (m + 1) as nat, count);
        let head = upper.postorder_kids(doc, pruned, m as nat);
        let part = kid.postorder(doc, pruned);
        let upto = upper.postorder_kids(doc, pruned, (m + 1) as nat);
        let full = upper.postorder_kids(doc, pruned, count);
        assert(upto == head + part);
        assert(part == kid.postorder_kids(doc, pruned, kid.descent(doc)).push(kid));
        assert(block == full.push(upper));
        let at = upto.len() - 1;
        assert(part.len() >= 1);
        assert(upto.len() <= full.len());
        assert(block.len() == full.len() + 1);
        assert(all.subrange(start, j + 1).len() == j + 1 - start);
        assert(upto[at] == part[part.len() - 1]);
        assert(full.take(upto.len() as int)[at] == full[at]);
        assert(all.subrange(start, j + 1)[at] == all[start + at]);
        start + at
    }

    /// Where a traversal goes into the children of a node's handle, all
    /// that it processes on account of an earlier child comes before all
    /// that it processes on account of a later one, and both before the
    /// handle itself.
    pub proof fn lemma_postorder_children_in_order(
        &self,
        doc: &Document,
        pruned: spec_fn(ThreadSafeLayoutNode) -> bool,
        m1: int,
        m2: int,
        i1: int,
        i2: int,
    ) -> (at: (int, int))
        requires
            doc.wf(),
            self.node.wf(doc),
            self.pseudo is Normal,
            !pruned(*self),
            0 <= m1 < m2 < self.spec_children(doc).len(),
            0 <= i1 < self.spec_children(doc)[m1].postorder(doc, pruned).len(),
            0 <= i2 < self.spec_children(doc)[m2].postorder(doc, pruned).len(),
        ensures
            0 <= at.0 < at.1 < self.postorder(doc, pruned).len() - 1,
            self.postorder(doc, pruned)[at.0] == self.spec_children(doc)[m1].postorder(
                doc,
                pruned,
            )[i1],
            self.postorder(doc, pruned)[at.1] == self.spec_children(doc)[m2].postorder(
                doc,
                pruned,
            )[i2],
    {
        let count = self.spec_children(doc).len();
        let full = self.postorder_kids(doc, pruned, count);
        assert(self.postorder(doc, pruned) == full.push(*self));
        self.lemma_child_below(doc, m1);
        self.lemma_child_below(doc, m2);
        let head1 = self.postorder_kids(doc, pruned, m1 as nat);
        let upto1 = self.postorder_kids(doc, pruned, (m1 + 1) as nat);
        let head2 = self.postorder_kids(doc, pruned, m2 as nat);
        let upto2 = self.postorder_kids(doc, pruned, (m2 + 1) as nat);
        assert(upto1 == head1 + self.spec_children(doc)[m1].postorder(doc, pruned));
        assert(upto2 == head2 + self.spec_children(doc)[m2].postorder(doc, pruned));
        self.lemma_kids_prefix(doc, pruned, (m1 + 1) as nat, m2 as nat);
        self.lemma_kids_prefix(doc, pruned, (m1 + 1) as nat, count);
        self.lemma_kids_prefix(doc, pruned, (m2 + 1) as nat, count);
        let first = head1.len() + i1;
        let second = head2.len() + i2;
        assert(full.take(upto1.len() as int)[first] == full[first]);
        assert(full.take(upto2.len() as int)[second] == full[second]);
        (first, second)
    }

    /// A traversal from a pruned handle processes nothing and returns true.
    pub proof fn lemma_pruned_is_skipped(
        &self,
        doc: &Document,
        pruned: spec_fn(ThreadSafeLayoutNode) -> bool,
        done: Seq<(ThreadSafeLayoutNode, bool)>,
        ok: bool,
    )
        requires
            pruned(*self),
            is_run(self.postorder(doc, pruned), done, ok),
        ensures
            self.postorder(doc, pruned).len() == 0,
            done.len() == 0,
            ok,
    {
    }
}

/// A traversal that records the handles it is given. It prunes the handles
/// of the nodes listed in `pruned`, and answers false, which stops the
/// traversal, at the handles of the node `stop_at`. Where `mark` is set, it
/// writes that restyle damage into the side table of each node it
/// processes.
pub struct RecordingTraversal {
    pub visited: Vec<(ThreadSafeLayoutNode, bool)>,
    pub pruned: Vec<usize>,
    pub stop_at: Option<usize>,
    pub mark: Option<RestyleDamage>,
}

impl RecordingTraversal {
    /// A traversal that has recorded nothing yet.
    pub fn new(pruned: Vec<usize>, stop_at: Option<usize>) -> (r: RecordingTraversal)
        ensures
            r.visited@.len() == 0,
            r.pruned == pruned,
            r.stop_at == stop_at,
            r.mark.is_none(),
    {
        RecordingTraversal { visited: Vec::new(), pruned, stop_at, mark: None }
    }
}

impl PostorderNodeMutTraversal for RecordingTraversal {
    open spec fn processed(&self) -> Seq<(ThreadSafeLayoutNode, bool)> {
        self.visited@
    }

    open spec fn prunes(&self, doc: &Document, node: ThreadSafeLayoutNode) -> bool {
        self.pruned@.contains(node.node.index)
    }

    fn process(&mut self, doc: &mut Document, node: &ThreadSafeLayoutNode) -> (go_on: bool)
        ensures
            go_on == (old(self).stop_at != Some(node.node.index)),
            final(self).pruned == old(self).pruned,
            final(self).stop_at == old(self).stop_at,
            final(self).mark == old(self).mark,
            match old(self).mark {
                Some(damage) => node.layout_data_set(
                    old(doc),
                    final(doc),
                    match old(doc).nodes@[node.node.index as int].layout_data {
                        Some(d) => Some(
                            LayoutDataWrapper {
                                data: PrivateLayoutData { restyle_damage: damage, ..d.data },
                                ..d
                            },
                        ),
                        None => None,
                    },
                ),
                None => *final(doc) == *old(doc),
            },
    {
        let go_on = match self.stop_at {
            Some(index) => index != node.node.index,
            None => true,
        };
        match self.mark {
            Some(damage) => {
                let _ = (*node).set_restyle_damage(doc, damage);
                proof {
                    assert forall|i: int| 0 <= i < old(doc).nodes@.len() implies {
                        &&& #[trigger] old(doc).before_style(i) == doc.before_style(i)
                        &&& old(doc).after_style(i) == doc.after_style(i)
                    } by {
                        if i != node.node.index {
                            assert(doc.nodes@[i] == old(doc).nodes@[i]);
                        }
                    }
                }
            },
            None => {},
        }
        self.visited.push((*node, go_on));
        go_on
    }

    fn should_prune(&self, doc: &Document, node: &ThreadSafeLayoutNode) -> (r: bool) {
        let mut i: usize = 0;
        while i < self.pruned.len()
            invariant
                i <= self.pruned@.len(),
                forall|k: int| 0 <= k < i ==> self.pruned@[k] != node.node.index,
            decreases self.pruned@.len() - i,
        {
            if self.pruned[i] == node.node.index {
                return true;
            }
            i = i + 1;
        }
        false
    }
}

} // verus!
