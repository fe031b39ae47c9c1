//! Taking a node with all its descendants out of the graph, and putting
//! such a unit back.
//!
//! The slots of the nodes that are taken out stay reserved, so the handles
//! of the nodes are the same when they come back.

use crate::handle::NodeHandle;
use crate::hierarchy::{lemma_without, without, GraphView, RecordView, SlotView};
use crate::node::NodeView;
use vstd::prelude::*;

verus! {

/// A node and its descendants outside the graph: the nodes by their slots,
/// the handle of the topmost node, and the parent it had.
pub struct SubGraphView {
    pub root: NodeHandle,
    pub parent: NodeHandle,
    pub nodes: Map<int, NodeView>,
}

impl GraphView {
    /// The node in slot `i` is live and is `top` or one of its descendants.
    pub open spec fn in_subtree(self, top: NodeHandle, i: int) -> bool {
        &&& 0 <= i < self.records.len()
        &&& self.records[i].slot is Occupied
        &&& self.ancestor_or_self(top, self.handle_at(i))
    }

    /// Whether `top` with its descendants can be taken out: it is live and
    /// is not the root.
    pub open spec fn can_take(self, top: NodeHandle) -> bool {
        self.live(top) && top != self.root
    }

    /// The graph after `top` and its descendants have been taken out: their
    /// slots are reserved, and the parent of `top` lists it no more.
    pub open spec fn without_subtree(self, top: NodeHandle) -> GraphView {
        GraphView {
            records: Seq::new(
                self.records.len(),
                |i: int|
                    match self.records[i].slot {
                        SlotView::Reserved => self.records[i],
                        SlotView::Occupied(n) => if self.in_subtree(top, i) {
                            RecordView {
                                generation: self.records[i].generation,
                                slot: SlotView::Reserved,
                            }
                        } else {
                            RecordView {
                                generation: self.records[i].generation,
                                slot: SlotView::Occupied(
                                    NodeView { children: without(n.children, top), ..n },
                                ),
                            }
                        },
                    },
            ),
            root: self.root,
        }
    }

    /// `top` and its descendants as a unit outside the graph. The topmost
    /// node has lost its parent, which the unit remembers.
    pub open spec fn subtree(self, top: NodeHandle) -> SubGraphView {
        SubGraphView {
            root: top,
            parent: self.parent_of(top),
            nodes: Map::new(
                |i: int| self.in_subtree(top, i),
                |i: int|
                    if i == top.index {
                        NodeView {
                            parent: NodeHandle::none_spec(),
                            ..self.records[i].slot->Occupied_0
                        }
                    } else {
                        self.records[i].slot->Occupied_0
                    },
            ),
        }
    }

    /// The links of the node that `sub` holds for slot `i` agree with those
    /// of its neighbours in `sub`.
    pub open spec fn linked_in(self, sub: SubGraphView, i: int) -> bool {
        let h = self.handle_at(i);
        let n = sub.nodes[i];
        &&& i == sub.root.index ==> n.parent == NodeHandle::none_spec()
        &&& i != sub.root.index ==> sub.nodes.dom().contains(n.parent.index as int) && n.parent
            == self.handle_at(n.parent.index as int) && sub.nodes[n.parent.index as int].children.contains(
            h,
        )
        &&& n.children.no_duplicates()
        &&& forall|k: int|
            0 <= k < n.children.len() ==> {
                let c = #[trigger] n.children[k];
                &&& sub.nodes.dom().contains(c.index as int)
                &&& c == self.handle_at(c.index as int)
                &&& sub.nodes[c.index as int].parent == h
            }
    }

    /// `rank` gives every node of `sub` but the topmost a larger number
    /// than its parent.
    pub open spec fn ranked_in(self, sub: SubGraphView, rank: Seq<nat>) -> bool {
        &&& rank.len() == self.records.len()
        &&& forall|i: int|
            #[trigger] sub.nodes.dom().contains(i) && i != sub.root.index ==> rank[sub.nodes[i].parent.index as int]
                < rank[i]
    }

    /// The graph has kept the slots of `sub` for it, and the nodes of `sub`
    /// form a tree below its topmost node.
    pub open spec fn accepts(self, sub: SubGraphView) -> bool {
        &&& sub.nodes.dom().contains(sub.root.index as int)
        &&& forall|i: int|
            #[trigger] sub.nodes.dom().contains(i) ==> 0 <= i < self.records.len()
                && self.records[i].slot is Reserved && self.linked_in(sub, i)
        &&& sub.root == self.handle_at(sub.root.index as int)
        &&& exists|rank: Seq<nat>| self.ranked_in(sub, rank)
    }

    /// The node below which a unit that is put back goes: the parent it
    /// had, or the root where that parent is no longer live.
    pub open spec fn home_of(self, sub: SubGraphView) -> NodeHandle {
        if self.live(sub.parent) {
            sub.parent
        } else {
            self.root
        }
    }

    /// The graph after `sub` has been put back: its nodes are live again
    /// under their handles, and its topmost node stands last among the
    /// children of its home.
    pub open spec fn with_subtree(self, sub: SubGraphView) -> GraphView {
        let home = self.home_of(sub);
        GraphView {
            records: Seq::new(
                self.records.len(),
                |i: int|
                    if sub.nodes.dom().contains(i) {
                        RecordView {
                            generation: self.records[i].generation,
                            slot: SlotView::Occupied(
                                if i == sub.root.index {
                                    NodeView { parent: home, ..sub.nodes[i] }
                                } else {
                                    sub.nodes[i]
                                },
                            ),
                        }
                    } else if i == home.index {
                        RecordView {
                            generation: self.records[i].generation,
                            slot: SlotView::Occupied(
                                NodeView {
                                    children: self.children_of(home).push(sub.root),
                                    ..self.node(home)
                                },
                            ),
                        }
                    } else {
                        self.records[i]
                    },
            ),
            root: self.root,
        }
    }

    /// A node that is neither `top` nor the root is below `top` exactly
    /// when its parent is.
    pub proof fn lemma_in_subtree_step(self, rank: Seq<nat>, top: NodeHandle, h: NodeHandle)
        requires
            self.consistent(),
            self.ranked(rank),
            self.live(h),
        ensures
            self.in_subtree(top, h.index as int) == self.reaches(rank, top, h),
            h != top && h != self.root ==> self.reaches(rank, top, h) == self.reaches(
                rank,
                top,
                self.parent_of(h),
            ),
            h == self.root && h != top ==> !self.reaches(rank, top, h),
    {
        assert(self.handle_at(h.index as int) == h);
        self.lemma_reaches_iff(rank, top, h);
        assert(self.linked(h));
    }

    /// Taking a node with its descendants out leaves a tree.
    pub proof fn lemma_take_ranked(self, rank: Seq<nat>, top: NodeHandle)
        requires
            self.consistent(),
            self.ranked(rank),
            self.can_take(top),
        ensures
            self.without_subtree(top).consistent(),
            self.without_subtree(top).ranked(rank),
            forall|h: NodeHandle|
                #[trigger] self.without_subtree(top).live(h) <==> self.live(h) && !self.in_subtree(
                    top,
                    h.index as int,
                ),
    {
        let g = self.without_subtree(top);
        assert forall|h: NodeHandle| #[trigger] g.live(h) <==> self.live(h) && !self.in_subtree(
            top,
            h.index as int,
        ) by {}
        self.lemma_in_subtree_step(rank, top, self.root);
        assert(g.live(g.root));
        assert forall|h: NodeHandle| #[trigger] g.live(h) implies g.linked(h) && (h != g.root
            ==> rank[g.parent_of(h).index as int] < rank[h.index as int]) by {
            assert(self.live(h));
            assert(self.linked(h));
            self.lemma_in_subtree_step(rank, top, h);
            self.lemma_in_subtree_step(rank, top, top);
            assert(h != top);
            let s = self.children_of(h);
            lemma_without(s, top);
            if h != g.root {
                let q = self.parent_of(h);
                self.lemma_in_subtree_step(rank, top, q);
                assert(g.live(q));
                lemma_without(self.children_of(q), top);
            }
            assert forall|k: int| 0 <= k < g.children_of(h).len() implies g.live(
                #[trigger] g.children_of(h)[k],
            ) && g.parent_of(g.children_of(h)[k]) == h by {
                let e = g.children_of(h)[k];
                assert(e == without(s, top)[k]);
                assert(s.contains(e) && e != top);
                let m = s.index_of(e);
                assert(0 <= m < s.len() && s[m] == e);
                assert(self.live(s[m]) && self.parent_of(s[m]) == h);
                self.lemma_in_subtree_step(rank, top, e);
                assert(self.linked(e));
            }
        }
    }

    /// What has been taken out can be put back.
    pub proof fn lemma_take_accepts(self, rank: Seq<nat>, top: NodeHandle)
        requires
            self.consistent(),
            self.ranked(rank),
            self.can_take(top),
        ensures
            self.without_subtree(top).accepts(self.subtree(top)),
            self.without_subtree(top).ranked_in(self.subtree(top), rank),
    {
        let g = self.without_subtree(top);
        let sub = self.subtree(top);
        self.lemma_in_subtree_step(rank, top, top);
        assert(self.linked(top));
        assert forall|i: int| #[trigger] sub.nodes.dom().contains(i) implies 0 <= i
            < g.records.len() && g.records[i].slot is Reserved && g.linked_in(sub, i) && (i
            != sub.root.index ==> rank[sub.nodes[i].parent.index as int] < rank[i]) by {
            let h = self.handle_at(i);
            assert(self.live(h));
            assert(self.linked(h));
            assert(g.handle_at(i) == h);
            self.lemma_in_subtree_step(rank, top, h);
            let n = sub.nodes[i];
            if i != top.index {
                let q = self.parent_of(h);
                assert(h != self.root);
                self.lemma_in_subtree_step(rank, top, q);
                assert(sub.nodes.dom().contains(q.index as int));
                assert(g.handle_at(q.index as int) == q);
            }
            assert forall|k: int| 0 <= k < n.children.len() implies {
                let c = #[trigger] n.children[k];
                &&& sub.nodes.dom().contains(c.index as int)
                &&& c == g.handle_at(c.index as int)
                &&& sub.nodes[c.index as int].parent == h
            } by {
                let c = n.children[k];
                assert(c == self.children_of(h)[k]);
                assert(self.live(c) && self.parent_of(c) == h);
                assert(self.linked(c));
                self.lemma_in_subtree_step(rank, top, c);
                assert(c != self.root);
                if c == top {
                    self.lemma_reaches_rank(rank, top, h);
                    assert(false);
                }
                assert(c.index != top.index);
                assert(g.handle_at(c.index as int) == c);
            }
            assert(g.linked_in(sub, i));
        }
        assert(self.handle_at(top.index as int) == top);
        assert(self.in_subtree(top, top.index as int));
        assert(sub.nodes.dom().contains(sub.root.index as int));
        assert(sub.root == g.handle_at(sub.root.index as int));
        assert(g.ranked_in(sub, rank));
    }
    /// Taking a node with its descendants out leaves a tree that has kept
    /// the slots of what was taken.
    pub proof fn lemma_take_well_formed(self, top: NodeHandle)
        requires
            self.well_formed(),
            self.can_take(top),
        ensures
            self.without_subtree(top).well_formed(),
            self.without_subtree(top).accepts(self.subtree(top)),
            forall|h: NodeHandle|
                #[trigger] self.without_subtree(top).live(h) <==> self.live(h) && !self.in_subtree(
                    top,
                    h.index as int,
                ),
    {
        let rank = choose|rank: Seq<nat>| self.ranked(rank);
        self.lemma_take_ranked(rank, top);
        self.lemma_take_accepts(rank, top);
    }

    /// The rank that orders the graph after `sub` has been put back: the
    /// nodes of `sub` are lifted above their home.
    pub open spec fn rank_after_put(
        self,
        rank: Seq<nat>,
        sub: SubGraphView,
        sub_rank: Seq<nat>,
    ) -> Seq<nat> {
        Seq::new(
            rank.len(),
            |i: int|
                if sub.nodes.dom().contains(i) {
                    sub_rank[i] + rank[self.home_of(sub).index as int] + 1
                } else {
                    rank[i]
                },
        )
    }

    /// Putting a unit back leaves a tree, in which the nodes of the unit
    /// are live again beside those that were live before.
    pub proof fn lemma_put_ranked(self, rank: Seq<nat>, sub: SubGraphView, sub_rank: Seq<nat>)
        requires
            self.consistent(),
            self.ranked(rank),
            self.accepts(sub),
            self.ranked_in(sub, sub_rank),
        ensures
            self.with_subtree(sub).consistent(),
            self.with_subtree(sub).ranked(self.rank_after_put(rank, sub, sub_rank)),
            forall|h: NodeHandle|
                #[trigger] self.with_subtree(sub).live(h) <==> self.live(h) || (
                sub.nodes.dom().contains(h.index as int) && h == self.handle_at(h.index as int)),
            self.with_subtree(sub).live(sub.root),
            self.live(self.home_of(sub)),
            !sub.nodes.dom().contains(self.home_of(sub).index as int),
    {
        let g = self.with_subtree(sub);
        let home = self.home_of(sub);
        let r = self.rank_after_put(rank, sub, sub_rank);
        assert(self.live(home));
        assert(self.linked(home));
        assert forall|h: NodeHandle| #[trigger] g.live(h) <==> self.live(h) || (
        sub.nodes.dom().contains(h.index as int) && h == self.handle_at(h.index as int)) by {}
        assert forall|h: NodeHandle| #[trigger] g.live(h) implies g.linked(h) && (h != g.root
            ==> r[g.parent_of(h).index as int] < r[h.index as int]) by {
            let i = h.index as int;
            if sub.nodes.dom().contains(i) {
                let n = sub.nodes[i];
                assert(self.linked_in(sub, i));
                assert(h != g.root);
                if i == sub.root.index {
                    let t = self.children_of(home);
                    assert(g.children_of(home) == t.push(sub.root));
                    assert(t.push(sub.root)[t.len() as int] == sub.root);
                } else {
                    let q = n.parent;
                    assert(sub.nodes.dom().contains(q.index as int));
                    assert(self.linked_in(sub, q.index as int));
                    if q.index == sub.root.index {
                        assert(g.children_of(q) == sub.nodes[q.index as int].children);
                    }
                }
                assert forall|k: int| 0 <= k < g.children_of(h).len() implies g.live(
                    #[trigger] g.children_of(h)[k],
                ) && g.parent_of(g.children_of(h)[k]) == h by {
                    let c = n.children[k];
                    assert(g.children_of(h)[k] == c);
                    assert(sub.nodes.dom().contains(c.index as int));
                    assert(self.linked_in(sub, c.index as int));
                }
            } else {
                assert(self.live(h));
                assert(self.linked(h));
                let s = self.children_of(h);
                if h != self.root {
                    let q = self.parent_of(h);
                    let m = self.children_of(q).index_of(h);
                    assert(self.children_of(q)[m] == h);
                    if q == home {
                        assert(g.children_of(q)[m] == h);
                    }
                }
                if h == home {
                    let t = s.push(sub.root);
                    assert forall|i: int, j: int|
                        0 <= i < t.len() && 0 <= j < t.len() && i != j implies t[i] != t[j] by {
                        if i < s.len() {
                            assert(self.live(s[i]));
                        }
                        if j < s.len() {
                            assert(self.live(s[j]));
                        }
                    }
                }
                assert forall|k: int| 0 <= k < g.children_of(h).len() implies g.live(
                    #[trigger] g.children_of(h)[k],
                ) && g.parent_of(g.children_of(h)[k]) == h by {
                    if k < s.len() {
                        assert(self.live(s[k]) && self.parent_of(s[k]) == h);
                    }
                }
            }
        }
    }

    /// In the graph that `sub` has been put back into, every node of `sub`
    /// is the topmost node of `sub` or one of its descendants.
    proof fn lemma_put_inside(
        self,
        rank: Seq<nat>,
        sub: SubGraphView,
        sub_rank: Seq<nat>,
        i: int,
    )
        requires
            self.consistent(),
            self.ranked(rank),
            self.accepts(sub),
            self.ranked_in(sub, sub_rank),
            sub.nodes.dom().contains(i),
        ensures
            self.with_subtree(sub).reaches(
                self.rank_after_put(rank, sub, sub_rank),
                sub.root,
                self.handle_at(i),
            ),
        decreases sub_rank[i],
    {
        let g = self.with_subtree(sub);
        let r = self.rank_after_put(rank, sub, sub_rank);
        self.lemma_put_ranked(rank, sub, sub_rank);
        let h = self.handle_at(i);
        assert(g.live(h));
        assert(self.linked_in(sub, i));
        if i != sub.root.index {
            let q = sub.nodes[i].parent;
            self.lemma_put_inside(rank, sub, sub_rank, q.index as int);
            assert(g.parent_of(h) == q);
            assert(g.live(q));
        }
    }

    /// In the graph that `sub` has been put back into, no node that was
    /// live before is below the topmost node of `sub`.
    proof fn lemma_put_outside(
        self,
        rank: Seq<nat>,
        sub: SubGraphView,
        sub_rank: Seq<nat>,
        h: NodeHandle,
    )
        requires
            self.consistent(),
            self.ranked(rank),
            self.accepts(sub),
            self.ranked_in(sub, sub_rank),
            self.live(h),
        ensures
            !self.with_subtree(sub).reaches(self.rank_after_put(rank, sub, sub_rank), sub.root, h),
        decreases rank[h.index as int],
    {
        let g = self.with_subtree(sub);
        self.lemma_put_ranked(rank, sub, sub_rank);
        assert(self.linked(h));
        assert(g.live(h));
        assert(h != sub.root);
        if h != self.root {
            let q = self.parent_of(h);
            assert(g.parent_of(h) == q);
            self.lemma_put_outside(rank, sub, sub_rank, q);
        } else {
            assert(g.parent_of(h) == NodeHandle::none_spec());
            assert(!g.live(NodeHandle::none_spec()));
        }
    }

    /// Taking out again what has just been put back gives back the graph
    /// and the unit, which now remembers its home as its parent.
    pub proof fn lemma_put_then_take(self, sub: SubGraphView)
        requires
            self.well_formed(),
            self.accepts(sub),
        ensures
            self.with_subtree(sub).well_formed(),
            self.with_subtree(sub).can_take(sub.root),
            self.with_subtree(sub).without_subtree(sub.root) == self,
            self.with_subtree(sub).subtree(sub.root) == (SubGraphView {
                parent: self.home_of(sub),
                ..sub
            }),
            self.with_subtree(sub).parent_of(sub.root) == self.home_of(sub),
            self.with_subtree(sub).children_of(self.home_of(sub)) == self.children_of(
                self.home_of(sub),
            ).push(sub.root),
            forall|i: int|
                #[trigger] self.with_subtree(sub).in_subtree(sub.root, i)
                    <==> sub.nodes.dom().contains(i),
            forall|h: NodeHandle|
                self.live(h) ==> #[trigger] self.with_subtree(sub).live(h),
    {
        let rank = choose|rank: Seq<nat>| self.ranked(rank);
        let sub_rank = choose|sub_rank: Seq<nat>| self.ranked_in(sub, sub_rank);
        let g = self.with_subtree(sub);
        let r = self.rank_after_put(rank, sub, sub_rank);
        let home = self.home_of(sub);
        self.lemma_put_ranked(rank, sub, sub_rank);
        assert(self.linked(home));
        assert forall|i: int| g.in_subtree(sub.root, i) <==> sub.nodes.dom().contains(i) by {
            if sub.nodes.dom().contains(i) {
                self.lemma_put_inside(rank, sub, sub_rank, i);
                g.lemma_reaches_iff(r, sub.root, self.handle_at(i));
                assert(g.handle_at(i) == self.handle_at(i));
            } else if 0 <= i < self.records.len() && self.records[i].slot is Occupied {
                let h = self.handle_at(i);
                assert(self.live(h));
                self.lemma_put_outside(rank, sub, sub_rank, h);
                g.lemma_reaches_iff(r, sub.root, h);
                assert(g.handle_at(i) == h);
            }
        }
        let back = g.without_subtree(sub.root);
        assert forall|i: int| 0 <= i < self.records.len() implies back.records[i]
            == self.records[i] by {
            if !sub.nodes.dom().contains(i) && self.records[i].slot is Occupied {
                let h = self.handle_at(i);
                assert(self.live(h));
                assert(self.linked(h));
                let s = self.children_of(h);
                if s.contains(sub.root) {
                    let m = s.index_of(sub.root);
                    assert(self.live(s[m]));
                }
                if h == home {
                    crate::hierarchy::lemma_without_push(s, sub.root);
                }
            }
        }
        assert(back.records =~= self.records);
        let again = g.subtree(sub.root);
        assert(self.linked_in(sub, sub.root.index as int));
        assert(again.nodes =~= sub.nodes);
    }
}

} // verus!
