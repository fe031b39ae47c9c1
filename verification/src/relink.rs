//! Changes that keep the graph a tree: adding a node below the root, and
//! moving a node below another parent, provided the node is not moved below
//! itself or one of its own descendants.

use crate::handle::NodeHandle;
use crate::hierarchy::{lemma_without, without, GraphView};
use crate::node::NodeView;
use vstd::prelude::*;

verus! {

impl GraphView {
    /// The rank that orders the graph after `child` has been moved below
    /// `parent`: `child` and its descendants are lifted above `parent`.
    pub open spec fn rank_after_link(
        self,
        rank: Seq<nat>,
        child: NodeHandle,
        parent: NodeHandle,
    ) -> Seq<nat> {
        Seq::new(
            rank.len(),
            |i: int|
                if self.reaches(rank, child, self.handle_at(i)) {
                    rank[i] + rank[parent.index as int] + 1
                } else {
                    rank[i]
                },
        )
    }

    /// What `link` leaves as it was and what it changes, node by node.
    pub proof fn lemma_link_nodes(self, child: NodeHandle, parent: NodeHandle)
        requires
            self.live(child),
            self.live(parent),
        ensures
            self.link(child, parent).root == self.root,
            self.link(child, parent).records.len() == self.records.len(),
            forall|i: int|
                0 <= i < self.records.len() ==> (#[trigger] self.link(
                    child,
                    parent,
                ).records[i]).generation == self.records[i].generation,
            forall|h: NodeHandle|
                self.live(h) <==> #[trigger] self.link(child, parent).live(h),
            forall|h: NodeHandle|
                self.live(h) ==> (#[trigger] self.link(child, parent).parent_of(h)) == if h
                    == child {
                    parent
                } else {
                    self.parent_of(h)
                },
            forall|h: NodeHandle|
                self.live(h) ==> (#[trigger] self.link(child, parent).children_of(h)) == if h
                    == parent {
                    without(self.children_of(h), child).push(child)
                } else {
                    without(self.children_of(h), child)
                },
    {
        let g = self.link(child, parent);
        assert forall|h: NodeHandle| self.live(h) implies (#[trigger] g.parent_of(h)) == if h
            == child {
            parent
        } else {
            self.parent_of(h)
        } && g.children_of(h) == if h == parent {
            without(self.children_of(h), child).push(child)
        } else {
            without(self.children_of(h), child)
        } by {
            assert(g.records[h.index as int].slot is Occupied);
        }
    }

    /// Links stay consistent when a node other than the root is moved below
    /// a live node.
    pub proof fn lemma_link_consistent(self, child: NodeHandle, parent: NodeHandle)
        requires
            self.consistent(),
            self.live(child),
            self.live(parent),
            child != self.root,
        ensures
            self.link(child, parent).consistent(),
    {
        let g = self.link(child, parent);
        self.lemma_link_nodes(child, parent);
        assert forall|h: NodeHandle| #[trigger] g.live(h) implies g.linked(h) by {
            assert(self.live(h));
            assert(self.linked(h));
            let s = self.children_of(h);
            lemma_without(s, child);
            let w = without(s, child);
            // The parent of `h` lists `h`.
            if h != g.root {
                let q = g.parent_of(h);
                if h == child {
                    let t = without(self.children_of(parent), child);
                    assert(g.children_of(parent) == t.push(child));
                    assert(t.push(child)[t.len() as int] == child);
                } else {
                    let sq = self.children_of(q);
                    assert(self.linked(q));
                    lemma_without(sq, child);
                    let wq = without(sq, child);
                    assert(wq.contains(h));
                    let m = wq.index_of(h);
                    assert(0 <= m < wq.len() && wq[m] == h);
                    if q == parent {
                        assert(wq.push(child)[m] == h);
                    }
                }
            }
            // `h` lists nothing twice.
            if h == parent {
                let t = w.push(child);
                assert forall|i: int, j: int|
                    0 <= i < t.len() && 0 <= j < t.len() && i != j implies t[i] != t[j] by {
                    if i < w.len() {
                        assert(w.contains(w[i]));
                    }
                    if j < w.len() {
                        assert(w.contains(w[j]));
                    }
                }
            }
            // The children of `h` name `h` as their parent.
            assert forall|k: int| 0 <= k < g.children_of(h).len() implies g.live(
                #[trigger] g.children_of(h)[k],
            ) && g.parent_of(g.children_of(h)[k]) == h by {
                let e = g.children_of(h)[k];
                if k < w.len() {
                    assert(e == w[k]);
                    assert(s.contains(e) && e != child);
                    let m = s.index_of(e);
                    assert(0 <= m < s.len() && s[m] == e);
                    assert(self.live(s[m]) && self.parent_of(s[m]) == h);
                } else {
                    assert(h == parent && e == child);
                }
            }
        }
    }

    /// A rank still orders the graph when a node is moved below a node that
    /// is neither itself nor one of its descendants.
    pub proof fn lemma_link_ranked(self, rank: Seq<nat>, child: NodeHandle, parent: NodeHandle)
        requires
            self.consistent(),
            self.ranked(rank),
            self.live(child),
            self.live(parent),
            !self.reaches(rank, child, parent),
        ensures
            child != self.root,
            self.link(child, parent).ranked(self.rank_after_link(rank, child, parent)),
    {
        let g = self.link(child, parent);
        let r = self.rank_after_link(rank, child, parent);
        self.lemma_root_reaches(rank, parent);
        self.lemma_link_nodes(child, parent);
        assert forall|h: NodeHandle| #[trigger] g.live(h) && h != g.root implies r[g.parent_of(
            h,
        ).index as int] < r[h.index as int] by {
            assert(self.live(h));
            assert(self.linked(h));
            assert(self.handle_at(h.index as int) == h);
            if h == child {
                assert(self.handle_at(parent.index as int) == parent);
                assert(self.reaches(rank, child, child));
            } else {
                let q = self.parent_of(h);
                assert(self.handle_at(q.index as int) == q);
                assert(self.reaches(rank, child, h) == self.reaches(rank, child, q));
            }
        }
    }

    /// Moving a node below a node that is neither itself nor one of its
    /// descendants leaves a tree.
    pub proof fn lemma_link_well_formed(self, child: NodeHandle, parent: NodeHandle)
        requires
            self.well_formed(),
            self.live(child),
            self.live(parent),
            !self.ancestor_or_self(child, parent),
        ensures
            child != self.root,
            self.link(child, parent).well_formed(),
    {
        let rank = choose|rank: Seq<nat>| self.ranked(rank);
        self.lemma_reaches_iff(rank, child, parent);
        self.lemma_link_ranked(rank, child, parent);
        self.lemma_link_consistent(child, parent);
    }
    /// Adding a node below the root leaves a tree.
    pub proof fn lemma_spawn_ranked(self, rank: Seq<nat>, node: NodeView)
        requires
            self.consistent(),
            self.ranked(rank),
            self.records.len() < u32::MAX,
        ensures
            self.spawn(node).consistent(),
            self.spawn(node).ranked(rank.push(rank[self.root.index as int] + 1)),
            self.spawn(node).live(self.next_handle()),
            !self.live(self.next_handle()),
            forall|h: NodeHandle| self.live(h) ==> #[trigger] self.spawn(node).live(h),
    {
        let g = self.spawn(node);
        let fresh = self.next_handle();
        let r = rank.push(rank[self.root.index as int] + 1);
        assert(self.linked(self.root));
        assert forall|h: NodeHandle| #[trigger] g.live(h) implies g.linked(h) && (h != g.root
            ==> r[g.parent_of(h).index as int] < r[h.index as int]) by {
            if h == fresh {
                let t = self.children_of(self.root);
                assert(g.children_of(g.root) == t.push(fresh));
                assert(t.push(fresh)[t.len() as int] == fresh);
            } else {
                assert(self.live(h));
                assert(self.linked(h));
                let s = self.children_of(h);
                if h != self.root {
                    let q = self.parent_of(h);
                    let m = self.children_of(q).index_of(h);
                    assert(self.children_of(q)[m] == h);
                    if q == self.root {
                        assert(g.children_of(q)[m] == h);
                    }
                } else {
                    let t = s.push(fresh);
                    assert forall|i: int, j: int|
                        0 <= i < t.len() && 0 <= j < t.len() && i != j implies t[i] != t[j] by {
                        if i < s.len() {
                            assert(self.live(s[i]));
                        }
                        if j < s.len() {
                            assert(self.live(s[j]));
                        }
                    }
                }
                assert forall|k: int| 0 <= k < g.children_of(h).len() implies g.live(
                    #[trigger] g.children_of(h)[k],
                ) && g.parent_of(g.children_of(h)[k]) == h by {
                    if k < s.len() {
                        assert(self.live(s[k]) && self.parent_of(s[k]) == h);
                    }
                }
            }
        }
    }
    /// Moving `child` leaves the ancestors of every node that is not below
    /// `child` as they were.
    proof fn lemma_link_keeps_reach(
        self,
        rank: Seq<nat>,
        child: NodeHandle,
        parent: NodeHandle,
        a: NodeHandle,
        x: NodeHandle,
    )
        requires
            self.consistent(),
            self.ranked(rank),
            self.live(child),
            self.live(parent),
            !self.reaches(rank, child, parent),
            !self.reaches(rank, child, x),
        ensures
            self.link(child, parent).reaches(self.rank_after_link(rank, child, parent), a, x)
                == self.reaches(rank, a, x),
        decreases rank[x.index as int],
    {
        let g = self.link(child, parent);
        let r = self.rank_after_link(rank, child, parent);
        self.lemma_link_nodes(child, parent);
        self.lemma_link_ranked(rank, child, parent);
        if self.live(x) && x != a {
            assert(self.linked(x));
            assert(x != child);
            let q = self.parent_of(x);
            assert(g.parent_of(x) == q);
            assert(self.handle_at(x.index as int) == x);
            if x != self.root {
                assert(self.handle_at(q.index as int) == q);
                assert(!self.reaches(rank, child, q));
                self.lemma_link_keeps_reach(rank, child, parent, a, q);
                assert(r[q.index as int] < r[x.index as int]);
            } else {
                assert(!self.live(q));
                assert(!g.live(q));
            }
        }
    }

    /// Moving `child` below `parent` leaves the ancestors of every node
    /// that is not below `child` as they were.
    pub proof fn lemma_link_ancestors(
        self,
        child: NodeHandle,
        parent: NodeHandle,
        a: NodeHandle,
        x: NodeHandle,
    )
        requires
            self.well_formed(),
            self.can_link(child, parent),
            !self.ancestor_or_self(child, x),
        ensures
            self.link(child, parent).ancestor_or_self(a, x) == self.ancestor_or_self(a, x),
    {
        let rank = choose|rank: Seq<nat>| self.ranked(rank);
        let g = self.link(child, parent);
        let r = self.rank_after_link(rank, child, parent);
        self.lemma_reaches_iff(rank, child, parent);
        self.lemma_reaches_iff(rank, child, x);
        self.lemma_reaches_iff(rank, a, x);
        self.lemma_link_ranked(rank, child, parent);
        self.lemma_link_consistent(child, parent);
        self.lemma_link_keeps_reach(rank, child, parent, a, x);
        g.lemma_reaches_iff(r, a, x);
    }
}

} // verus!
