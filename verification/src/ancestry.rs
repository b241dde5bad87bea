//! Ancestors, and why work on the subtrees of two siblings never meets.

use vstd::prelude::*;
use crate::dom::Document;
use crate::thread_safe::ThreadSafeLayoutNode;

verus! {

impl Document {
    /// `a` is `x` itself or one of its ancestors.
    pub open spec fn is_ancestor_or_self(&self, a: int, x: int) -> bool
        decreases x,
    {
        if a == x {
            true
        } else if 0 <= x < self.nodes@.len() {
            match self.nodes@[x].parent {
                Some(p) => p < x && self.is_ancestor_or_self(a, p as int),
                None => false,
            }
        } else {
            false
        }
    }

    /// An ancestor has no larger index than its descendant.
    pub proof fn lemma_ancestor_is_earlier(&self, a: int, x: int)
        requires
            self.is_ancestor_or_self(a, x),
        ensures
            a <= x,
        decreases x,
    {
        if a != x {
            self.lemma_ancestor_is_earlier(a, self.nodes@[x].parent.unwrap() as int);
        }
    }

    /// What stands under a node stands under the node's parent.
    pub proof fn lemma_ancestor_of_parent(&self, n: usize, c: usize, x: int)
        requires
            c < self.nodes@.len(),
            self.nodes@[c as int].parent == Some(n),
            n < c,
            self.is_ancestor_or_self(c as int, x),
        ensures
            self.is_ancestor_or_self(n as int, x),
        decreases x,
    {
        if x == c {
            assert(self.is_ancestor_or_self(n as int, n as int));
        } else if x != n {
            self.lemma_ancestor_of_parent(n, c, self.nodes@[x].parent.unwrap() as int);
        }
    }

    /// Two nodes with a common descendant stand one under the other.
    pub proof fn lemma_ancestors_are_in_line(&self, a: int, b: int, x: int)
        requires
            self.is_ancestor_or_self(a, x),
            self.is_ancestor_or_self(b, x),
        ensures
            self.is_ancestor_or_self(a, b) || self.is_ancestor_or_self(b, a),
        decreases x,
    {
        if x != a && x != b {
            self.lemma_ancestors_are_in_line(a, b, self.nodes@[x].parent.unwrap() as int);
        }
    }

    /// Two different children of one node have no descendant in common, and
    /// neither is a descendant of the other.
    pub proof fn lemma_siblings_share_nothing(&self, s1: int, s2: int, x: int)
        requires
            self.wf(),
            0 <= s1 < self.nodes@.len(),
            0 <= s2 < self.nodes@.len(),
            s1 != s2,
            self.nodes@[s1].parent.is_some(),
            self.nodes@[s1].parent == self.nodes@[s2].parent,
        ensures
            !(self.is_ancestor_or_self(s1, x) && self.is_ancestor_or_self(s2, x)),
    {
        if self.is_ancestor_or_self(s1, x) && self.is_ancestor_or_self(s2, x) {
            self.lemma_ancestors_are_in_line(s1, s2, x);
            let p = self.nodes@[s1].parent.unwrap() as int;
            assert(self.links_ok(s1));
            assert(self.links_ok(s2));
            if self.is_ancestor_or_self(s1, s2) {
                self.lemma_ancestor_is_earlier(s1, p);
            } else {
                self.lemma_ancestor_is_earlier(s2, p);
            }
        }
    }

    /// Every node in the subtrees of the children of `n`, from the `j`-th
    /// child on, stands under `n`.
    proof fn lemma_forest_under(&self, n: usize, j: nat, i: int)
        requires
            self.wf(),
            n < self.nodes@.len(),
            0 <= i < self.forest_from(n as int, j).len(),
        ensures
            self.is_ancestor_or_self(n as int, self.forest_from(n as int, j)[i] as int),
        decreases self.nodes@.len() - n, self.kids(n as int).len() - j, 0nat,
    {
        let c = self.kids(n as int)[j as int];
        assert(self.links_ok(n as int));
        let first = self.subtree(c as int);
        let rest = self.forest_from(n as int, j + 1);
        assert(self.forest_from(n as int, j) == first + rest);
        if i < first.len() {
            self.lemma_subtree_under(c, i);
            self.lemma_ancestor_of_parent(n, c, first[i] as int);
        } else {
            self.lemma_forest_under(n, j + 1, i - first.len());
        }
    }

    /// Every node of the subtree of `n` is `n` or stands under it.
    pub proof fn lemma_subtree_under(&self, n: usize, i: int)
        requires
            self.wf(),
            n < self.nodes@.len(),
            0 <= i < self.subtree(n as int).len(),
        ensures
            self.is_ancestor_or_self(n as int, self.subtree(n as int)[i] as int),
        decreases self.nodes@.len() - n, self.kids(n as int).len() + 1, 0nat,
    {
        assert(self.subtree(n as int) == seq![n] + self.forest_from(n as int, 0));
        if i > 0 {
            self.lemma_forest_under(n, 0, i - 1);
        }
    }
}

impl Document {
    /// Every node in the subtrees of the children of `n`, from the `j`-th
    /// child on, stands under one of those children.
    proof fn lemma_forest_under_child(&self, n: usize, j: nat, i: int) -> (k: int)
        requires
            self.wf(),
            n < self.nodes@.len(),
            0 <= i < self.forest_from(n as int, j).len(),
        ensures
            j <= k < self.kids(n as int).len(),
            self.is_ancestor_or_self(
                self.kids(n as int)[k] as int,
                self.forest_from(n as int, j)[i] as int,
            ),
        decreases self.kids(n as int).len() - j,
    {
        let c = self.kids(n as int)[j as int];
        assert(self.links_ok(n as int));
        let first = self.subtree(c as int);
        let rest = self.forest_from(n as int, j + 1);
        assert(self.forest_from(n as int, j) == first + rest);
        if i < first.len() {
            self.lemma_subtree_under(c, i);
            j as int
        } else {
            self.lemma_forest_under_child(n, j + 1, i - first.len())
        }
    }

    /// No node occurs twice in the subtrees of the children of `n`, from
    /// the `j`-th child on.
    proof fn lemma_forest_no_duplicates(&self, n: usize, j: nat, i1: int, i2: int)
        requires
            self.wf(),
            n < self.nodes@.len(),
            0 <= i1 < i2 < self.forest_from(n as int, j).len(),
        ensures
            self.forest_from(n as int, j)[i1] != self.forest_from(n as int, j)[i2],
        decreases self.nodes@.len() - n, self.kids(n as int).len() - j, 0nat,
    {
        let c = self.kids(n as int)[j as int];
        assert(self.links_ok(n as int));
        let first = self.subtree(c as int);
        let rest = self.forest_from(n as int, j + 1);
        assert(self.forest_from(n as int, j) == first + rest);
        if i2 < first.len() {
            self.lemma_subtree_no_duplicates(c, i1, i2);
        } else if i1 >= first.len() {
            self.lemma_forest_no_duplicates(n, j + 1, i1 - first.len(), i2 - first.len());
        } else {
            self.lemma_subtree_under(c, i1);
            let k = self.lemma_forest_under_child(n, j + 1, i2 - first.len());
            let other = self.kids(n as int)[k];
            self.lemma_siblings_share_nothing(c as int, other as int, first[i1] as int);
        }
    }

    /// No node occurs twice in the depth-first order of a subtree.
    pub proof fn lemma_subtree_no_duplicates(&self, n: usize, i1: int, i2: int)
        requires
            self.wf(),
            n < self.nodes@.len(),
            0 <= i1 < i2 < self.subtree(n as int).len(),
        ensures
            self.subtree(n as int)[i1] != self.subtree(n as int)[i2],
        decreases self.nodes@.len() - n, self.kids(n as int).len() + 1, 0nat,
    {
        let below = self.forest_from(n as int, 0);
        assert(self.subtree(n as int) == seq![n] + below);
        if i1 == 0 {
            let k = self.lemma_forest_under_child(n, 0, i2 - 1);
            assert(self.links_ok(n as int));
            self.lemma_ancestor_is_earlier(self.kids(n as int)[k] as int, below[i2 - 1] as int);
        } else {
            self.lemma_forest_no_duplicates(n, 0, i1 - 1, i2 - 1);
        }
    }

    /// The depth-first order of a subtree has every node before all of its
    /// descendants.
    pub proof fn lemma_preorder_ancestor_first(&self, n: usize, i: int, j: int)
        requires
            self.wf(),
            n < self.nodes@.len(),
            0 <= i < self.subtree(n as int).len(),
            0 <= j < self.subtree(n as int).len(),
            self.subtree(n as int)[i] != self.subtree(n as int)[j],
            self.is_ancestor_or_self(
                self.subtree(n as int)[i] as int,
                self.subtree(n as int)[j] as int,
            ),
        ensures
            i < j,
        decreases self.subtree(n as int)[j],
    {
        let order = self.subtree(n as int);
        self.lemma_preorder_parent_first(n, j);
        self.lemma_preorder_parent_first(n, i);
        if j == 0 {
            self.lemma_subtree_under(n, i);
            self.lemma_ancestor_is_earlier(n as int, order[i] as int);
            self.lemma_ancestor_is_earlier(order[i] as int, order[j] as int);
        } else {
            let q = choose|q: int|
                0 <= q < j && Some(#[trigger] order[q]) == self.nodes@[order[j] as int].parent;
            if order[i] == order[q] {
                if i < q {
                } else if q < i {
                    self.lemma_subtree_no_duplicates(n, q, i);
                }
            } else {
                self.lemma_preorder_ancestor_first(n, i, q);
            }
        }
    }
}

impl ThreadSafeLayoutNode {
    /// Every handle that the traversals from the first `k` children of this
    /// handle process stands on this handle's node or under it.
    proof fn lemma_kids_under(
        &self,
        doc: &Document,
        pruned: spec_fn(ThreadSafeLayoutNode) -> bool,
        k: nat,
        i: int,
    )
        requires
            doc.wf(),
            self.node.wf(doc),
            k <= self.spec_children(doc).len(),
            0 <= i < self.postorder_kids(doc, pruned, k).len(),
        ensures
            doc.is_ancestor_or_self(
                self.node.index as int,
                self.postorder_kids(doc, pruned, k)[i].node.index as int,
            ),
        decreases doc.nodes@.len() - self.node.index, self.rank(), k, 0nat,
    {
        let kid = self.spec_children(doc)[k - 1];
        self.lemma_child_below(doc, k - 1);
        assert(doc.links_ok(self.node.index as int));
        let head = self.postorder_kids(doc, pruned, (k - 1) as nat);
        let part = kid.postorder(doc, pruned);
        assert(self.postorder_kids(doc, pruned, k) == head + part);
        if i < head.len() {
            self.lemma_kids_under(doc, pruned, (k - 1) as nat, i);
        } else {
            kid.lemma_postorder_under(doc, pruned, i - head.len());
            if kid.node.index != self.node.index {
                doc.lemma_ancestor_of_parent(
                    self.node.index,
                    kid.node.index,
                    part[i - head.len()].node.index as int,
                );
            }
        }
    }

    /// Every handle that a traversal from this handle processes stands on
    /// this handle's node or under it.
    pub proof fn lemma_postorder_under(
        &self,
        doc: &Document,
        pruned: spec_fn(ThreadSafeLayoutNode) -> bool,
        i: int,
    )
        requires
            doc.wf(),
            self.node.wf(doc),
            0 <= i < self.postorder(doc, pruned).len(),
        ensures
            doc.is_ancestor_or_self(
                self.node.index as int,
                self.postorder(doc, pruned)[i].node.index as int,
            ),
        decreases doc.nodes@.len() - self.node.index, self.rank(), self.spec_children(doc).len() + 1,
            0nat,
    {
        let count = self.descent(doc);
        let head = self.postorder_kids(doc, pruned, count);
        assert(self.postorder(doc, pruned) == head.push(*self));
        if i < head.len() {
            self.lemma_kids_under(doc, pruned, count, i);
        }
    }

    /// Traversals from handles on two different children of one node never
    /// process handles on the same node, whatever each of them prunes.
    pub proof fn lemma_sibling_traversals_are_disjoint(
        &self,
        other: &ThreadSafeLayoutNode,
        doc: &Document,
        pruned: spec_fn(ThreadSafeLayoutNode) -> bool,
        other_pruned: spec_fn(ThreadSafeLayoutNode) -> bool,
        i: int,
        j: int,
    )
        requires
            doc.wf(),
            self.node.wf(doc),
            other.node.wf(doc),
            self.node.index != other.node.index,
            doc.nodes@[self.node.index as int].parent.is_some(),
            doc.nodes@[self.node.index as int].parent == doc.nodes@[other.node.index as int].parent,
            0 <= i < self.postorder(doc, pruned).len(),
            0 <= j < other.postorder(doc, other_pruned).len(),
        ensures
            self.postorder(doc, pruned)[i].node.index != other.postorder(
                doc,
                other_pruned,
            )[j].node.index,
    {
        self.lemma_postorder_under(doc, pruned, i);
        other.lemma_postorder_under(doc, other_pruned, j);
        doc.lemma_siblings_share_nothing(
            self.node.index as int,
            other.node.index as int,
            self.postorder(doc, pruned)[i].node.index as int,
        );
    }
}

impl Document {
    /// A node that stands strictly under `n` stands under one of the
    /// children of `n`.
    proof fn lemma_under_a_child(&self, n: usize, x: int) -> (k: int)
        requires
            self.wf(),
            n < self.nodes@.len(),
            0 <= x < self.nodes@.len(),
            x != n,
            self.is_ancestor_or_self(n as int, x),
        ensures
            0 <= k < self.kids(n as int).len(),
            self.is_ancestor_or_self(self.kids(n as int)[k] as int, x),
        decreases x,
    {
        let p = self.nodes@[x].parent.unwrap();
        assert(self.links_ok(x));
        if p == n {
            self.nodes@[x].position as int
        } else {
            self.lemma_under_a_child(n, p as int)
        }
    }

    /// The subtrees of the children of `n`, from the `j`-th on, hold all of
    /// the subtree of the `k`-th child, for `k` from `j` on.
    proof fn lemma_forest_holds_subtree(&self, n: usize, j: nat, k: int, x: usize)
        requires
            self.wf(),
            n < self.nodes@.len(),
            j <= k < self.kids(n as int).len(),
            self.subtree(self.kids(n as int)[k] as int).contains(x),
        ensures
            self.forest_from(n as int, j).contains(x),
        decreases k - j,
    {
        let c = self.kids(n as int)[j as int];
        assert(self.links_ok(n as int));
        let first = self.subtree(c as int);
        let rest = self.forest_from(n as int, j + 1);
        let all = self.forest_from(n as int, j);
        assert(all == first + rest);
        if j == k {
            let i = choose|i: int| 0 <= i < first.len() && first[i] == x;
            assert(all[i] == x);
        } else {
            self.lemma_forest_holds_subtree(n, j + 1, k, x);
            let i = choose|i: int| 0 <= i < rest.len() && rest[i] == x;
            assert(all[i + first.len()] == x);
        }
    }

    /// The depth-first order of the subtree of `n` holds `n` and every
    /// node that stands under it.
    pub proof fn lemma_subtree_complete(&self, n: usize, x: int)
        requires
            self.wf(),
            n < self.nodes@.len(),
            0 <= x < self.nodes@.len(),
            self.is_ancestor_or_self(n as int, x),
        ensures
            self.subtree(n as int).contains(x as usize),
        decreases self.nodes@.len() - n,
    {
        let below = self.forest_from(n as int, 0);
        let all = self.subtree(n as int);
        assert(all == seq![n] + below);
        if x == n {
            assert(all[0] == n);
        } else {
            let k = self.lemma_under_a_child(n, x);
            assert(self.links_ok(n as int));
            let c = self.kids(n as int)[k];
            self.lemma_subtree_complete(c, x);
            self.lemma_forest_holds_subtree(n, 0, k, x as usize);
            let i = choose|i: int| 0 <= i < below.len() && below[i] == x as usize;
            assert(all[i + 1] == x as usize);
        }
    }
}

impl ThreadSafeLayoutNode {
    /// Every handle that the traversals from the first `k` children of a
    /// node's handle process comes from one of those children: it stands on
    /// that child's node or under it, and is that child where the child is
    /// a pseudo-element.
    proof fn lemma_kids_owner(
        &self,
        doc: &Document,
        pruned: spec_fn(ThreadSafeLayoutNode) -> bool,
        k: nat,
        i: int,
    ) -> (m: int)
        requires
            doc.wf(),
            self.node.wf(doc),
            k <= self.spec_children(doc).len(),
            0 <= i < self.postorder_kids(doc, pruned, k).len(),
        ensures
            0 <= m < k,
            doc.is_ancestor_or_self(
                self.spec_children(doc)[m].node.index as int,
                self.postorder_kids(doc, pruned, k)[i].node.index as int,
            ),
            !(self.spec_children(doc)[m].pseudo is Normal) ==> self.postorder_kids(doc, pruned, k)[i]
                == self.spec_children(doc)[m],
        decreases k,
    {
        let kid = self.spec_children(doc)[k - 1];
        self.lemma_child_below(doc, k - 1);
        let head = self.postorder_kids(doc, pruned, (k - 1) as nat);
        let part = kid.postorder(doc, pruned);
        assert(self.postorder_kids(doc, pruned, k) == head + part);
        if i < head.len() {
            self.lemma_kids_owner(doc, pruned, (k - 1) as nat, i)
        } else {
            kid.lemma_postorder_under(doc, pruned, i - head.len());
            assert(part == kid.postorder_kids(doc, pruned, kid.descent(doc)).push(kid));
            k - 1
        }
    }

    /// A child of a node's handle is a pseudo-element on the same node or
    /// the handle of one of the node's own children, and two children at
    /// different places differ.
    proof fn lemma_children_differ(&self, doc: &Document, m1: int, m2: int)
        requires
            doc.wf(),
            self.node.wf(doc),
            self.pseudo is Normal,
            0 <= m1 < m2 < self.spec_children(doc).len(),
        ensures
            self.spec_children(doc)[m1] != self.spec_children(doc)[m2],
            forall|m: int|
                m == m1 || m == m2 ==> {
                    let kid = #[trigger] self.spec_children(doc)[m];
                    if kid.pseudo is Normal {
                        &&& self.node.index < kid.node.index < doc.nodes@.len()
                        &&& doc.nodes@[kid.node.index as int].parent == Some(self.node.index)
                    } else {
                        kid.node.index == self.node.index
                    }
                },
            self.spec_children(doc)[m1].pseudo is Normal && self.spec_children(doc)[m2].pseudo is Normal
                ==> self.spec_children(doc)[m1].node.index != self.spec_children(doc)[m2].node.index,
    {
        assert(doc.links_ok(self.node.index as int));
        let b = self.before_part(doc).len();
        let kids = doc.kids(self.node.index as int);
        if b <= m1 < b + kids.len() {
            let _ = kids[m1 - b];
        }
        if b <= m2 < b + kids.len() {
            let _ = kids[m2 - b];
        }
    }

    /// No handle occurs twice in what the traversals from the first `k`
    /// children of a node's handle process.
    proof fn lemma_kids_no_duplicates(
        &self,
        doc: &Document,
        pruned: spec_fn(ThreadSafeLayoutNode) -> bool,
        k: nat,
        i1: int,
        i2: int,
    )
        requires
            doc.wf(),
            self.node.wf(doc),
            self.pseudo is Normal,
            k <= self.spec_children(doc).len(),
            0 <= i1 < i2 < self.postorder_kids(doc, pruned, k).len(),
        ensures
            self.postorder_kids(doc, pruned, k)[i1] != self.postorder_kids(doc, pruned, k)[i2],
        decreases doc.nodes@.len() - self.node.index, self.rank(), k, 0nat,
    {
        let kid = self.spec_children(doc)[k - 1];
        self.lemma_child_below(doc, k - 1);
        let head = self.postorder_kids(doc, pruned, (k - 1) as nat);
        let part = kid.postorder(doc, pruned);
        assert(self.postorder_kids(doc, pruned, k) == head + part);
        if i2 < head.len() {
            self.lemma_kids_no_duplicates(doc, pruned, (k - 1) as nat, i1, i2);
        } else if i1 >= head.len() {
            kid.lemma_postorder_no_duplicates(doc, pruned, i1 - head.len(), i2 - head.len());
        } else {
            let m = self.lemma_kids_owner(doc, pruned, (k - 1) as nat, i1);
            let owner = self.spec_children(doc)[m];
            let x = head[i1];
            let y = part[i2 - head.len()];
            kid.lemma_postorder_under(doc, pruned, i2 - head.len());
            self.lemma_children_differ(doc, m, k - 1);
            assert(part == kid.postorder_kids(doc, pruned, kid.descent(doc)).push(kid));
            if kid.pseudo is Normal {
                doc.lemma_ancestor_is_earlier(kid.node.index as int, y.node.index as int);
                if owner.pseudo is Normal {
                    doc.lemma_siblings_share_nothing(
                        owner.node.index as int,
                        kid.node.index as int,
                        x.node.index as int,
                    );
                }
            } else {
                if owner.pseudo is Normal {
                    doc.lemma_ancestor_is_earlier(owner.node.index as int, x.node.index as int);
                }
            }
        }
    }

    /// No handle occurs twice in what a traversal processes: every handle
    /// is processed at most once.
    pub proof fn lemma_postorder_no_duplicates(
        &self,
        doc: &Document,
        pruned: spec_fn(ThreadSafeLayoutNode) -> bool,
        i1: int,
        i2: int,
    )
        requires
            doc.wf(),
            self.node.wf(doc),
            0 <= i1 < i2 < self.postorder(doc, pruned).len(),
        ensures
            self.postorder(doc, pruned)[i1] != self.postorder(doc, pruned)[i2],
        decreases doc.nodes@.len() - self.node.index, self.rank(), self.spec_children(doc).len() + 1,
            0nat,
    {
        let count = self.descent(doc);
        let head = self.postorder_kids(doc, pruned, count);
        assert(self.postorder(doc, pruned) == head.push(*self));
        if i2 < head.len() {
            self.lemma_kids_no_duplicates(doc, pruned, count, i1, i2);
        } else {
            let m = self.lemma_kids_owner(doc, pruned, count, i1);
            let owner = self.spec_children(doc)[m];
            self.lemma_child_below(doc, m);
            if owner.pseudo is Normal {
                doc.lemma_ancestor_is_earlier(owner.node.index as int, head[i1].node.index as int);
            }
        }
    }
}

} // verus!
