//! What instantiating a model does to the graph: the nodes of the
//! instance take new slots and form one tree below the topmost node of
//! the instance, which stands last among the children of the root. The
//! nodes that were there before stay as they were.

use crate::handle::NodeHandle;
use crate::hierarchy::{lemma_without_push, GraphView, RecordView, SlotView};
use crate::model::ModelView;
use crate::node::{NodeView, Scale};
use vstd::prelude::*;

verus! {

impl GraphView {
    /// Only live nodes are ancestors.
    pub proof fn lemma_within_live(self, a: NodeHandle, x: NodeHandle, k: nat)
        requires
            self.within(a, x, k),
        ensures
            self.live(a),
            self.live(x),
        decreases k,
    {
        if x != a {
            self.lemma_within_live(a, self.parent_of(x), (k - 1) as nat);
        }
    }

    /// Graphs that agree on which nodes are live and on their parents
    /// agree on their ancestors.
    pub proof fn lemma_same_parents(self, other: GraphView, a: NodeHandle, x: NodeHandle, k: nat)
        requires
            forall|h: NodeHandle| self.live(h) <==> #[trigger] other.live(h),
            forall|h: NodeHandle|
                self.live(h) ==> self.parent_of(h) == #[trigger] other.parent_of(h),
        ensures
            self.within(a, x, k) == other.within(a, x, k),
        decreases k,
    {
        if self.live(x) && x != a && k > 0 {
            assert(other.live(x));
            assert(self.parent_of(x) == other.parent_of(x));
            self.lemma_same_parents(other, a, self.parent_of(x), (k - 1) as nat);
        }
    }

    /// Adding a node leaves the ancestors of the nodes that were there
    /// as they were.
    pub proof fn lemma_spawn_within(self, node: NodeView, a: NodeHandle, x: NodeHandle, k: nat)
        requires
            self.consistent(),
            self.records.len() < u32::MAX,
            self.live(x),
        ensures
            self.spawn(node).within(a, x, k) == self.within(a, x, k),
        decreases k,
    {
        let g = self.spawn(node);
        assert(g.live(x));
        assert(g.parent_of(x) == self.parent_of(x));
        assert(self.linked(x));
        if x != a && k > 0 {
            if x != self.root {
                self.lemma_spawn_within(node, a, self.parent_of(x), (k - 1) as nat);
            } else {
                let none = NodeHandle::none_spec();
                assert(self.parent_of(x) == none);
                assert(self.records[0].generation != 0);
                assert(g.records[0].generation == self.records[0].generation);
                assert(!self.live(none));
                assert(!g.live(none));
                assert(!self.within(a, none, (k - 1) as nat));
                assert(!g.within(a, none, (k - 1) as nat));
            }
        }
    }

    /// The graph `self` is `before` with an instance of `count` nodes in
    /// it: a tree again, in which the slots that `before` had hold what
    /// they held, but that the root lists the topmost node of the instance
    /// as its last child, and in which the new slots hold that node and
    /// its descendants.
    pub open spec fn holds_instance(self, before: GraphView, count: nat) -> bool {
        let base = before.records.len() as int;
        let instance = before.next_handle();
        &&& self.well_formed()
        &&& self.root == before.root
        &&& self.records.len() == base + count
        &&& forall|i: int|
            0 <= i < base && i != before.root.index ==> #[trigger] self.records[i]
                == before.records[i]
        &&& self.records[before.root.index as int] == (RecordView {
            generation: before.root.generation,
            slot: SlotView::Occupied(
                NodeView {
                    children: before.children_of(before.root).push(instance),
                    ..before.node(before.root)
                },
            ),
        })
        &&& forall|j: int|
            base <= j < base + count ==> (#[trigger] self.records[j]).generation == 1
                && self.in_subtree(instance, j)
    }

    /// A node that has just been added is no ancestor of any node that
    /// was there, so it can be moved below any of them.
    proof fn lemma_grow_link(self, node: NodeView, x: NodeHandle)
        requires
            self.well_formed(),
            self.records.len() < u32::MAX,
            self.live(x),
        ensures
            self.spawn(node).well_formed(),
            self.spawn(node).live(x),
            !self.spawn(node).ancestor_or_self(self.next_handle(), x),
            self.spawn(node).can_link(self.next_handle(), x),
            forall|a: NodeHandle|
                self.ancestor_or_self(a, x) ==> #[trigger] self.spawn(node).ancestor_or_self(a, x),
    {
        let gs = self.spawn(node);
        let h = self.next_handle();
        let rank = choose|rank: Seq<nat>| self.ranked(rank);
        self.lemma_spawn_ranked(rank, node);
        if gs.ancestor_or_self(h, x) {
            let k = choose|k: nat| gs.within(h, x, k);
            self.lemma_spawn_within(node, h, x, k);
            self.lemma_within_live(h, x, k);
        }
        assert forall|a: NodeHandle| self.ancestor_or_self(a, x) implies #[trigger] gs.ancestor_or_self(
            a,
            x,
        ) by {
            let k = choose|k: nat| self.within(a, x, k);
            self.lemma_spawn_within(node, a, x, k);
        }
    }

    /// The slots that were there before an instance came keep what they
    /// hold when one more node of the instance is added and moved below
    /// another node of the instance.
    proof fn lemma_grow_old(self, before: GraphView, count: nat, node: NodeView, position: int)
        requires
            before.consistent(),
            self.holds_instance(before, count),
            count >= 1,
            before.records.len() + count < u32::MAX,
            0 <= position < count,
        ensures
            ({
                let g2 = self.spawn(node).link(
                    before.instance_handle(count as int),
                    before.instance_handle(position),
                );
                &&& g2.root == before.root
                &&& g2.records.len() == before.records.len() + count + 1
                &&& forall|i: int|
                    0 <= i < before.records.len() && i != before.root.index
                        ==> #[trigger] g2.records[i] == before.records[i]
                &&& g2.records[before.root.index as int] == self.records[before.root.index as int]
                &&& forall|j: int|
                    before.records.len() <= j < g2.records.len() ==> (
                    #[trigger] g2.records[j]).generation == 1 && g2.records[j].slot is Occupied
            }),
    {
        let base = before.records.len() as int;
        let instance = before.next_handle();
        let h = before.instance_handle(count as int);
        let ph = before.instance_handle(position);
        let gs = self.spawn(node);
        let g2 = gs.link(h, ph);
        assert(before.linked(before.root));
        assert forall|i: int| 0 <= i < base && i != before.root.index implies #[trigger] g2.records[i]
            == before.records[i] by {
            assert(self.records[i] == before.records[i]);
            if before.records[i].slot is Occupied {
                let x = before.handle_at(i);
                assert(before.live(x));
                assert(before.linked(x));
                let s = before.children_of(x);
                if s.contains(h) {
                    let m = s.index_of(h);
                    assert(before.live(s[m]));
                }
            }
        }
        let s0 = before.children_of(before.root);
        assert(gs.children_of(before.root) == s0.push(instance).push(h));
        if s0.push(instance).contains(h) {
            let m = s0.push(instance).index_of(h);
            if m < s0.len() {
                assert(before.live(s0[m]));
            }
        }
        lemma_without_push(s0.push(instance), h);
        assert forall|j: int| base <= j < g2.records.len() implies (#[trigger] g2.records[j]).generation
            == 1 && g2.records[j].slot is Occupied by {
            if j < base + count {
                assert(self.records[j].generation == 1 && self.in_subtree(instance, j));
            }
        }
    }

    /// Adding one more node to an instance and moving it below a node of
    /// the instance leaves a graph that holds the larger instance.
    proof fn lemma_grow(self, before: GraphView, count: nat, node: NodeView, position: int)
        requires
            before.consistent(),
            self.holds_instance(before, count),
            count >= 1,
            before.records.len() + count < u32::MAX,
            0 <= position < count,
        ensures
            self.spawn(node).relinked(
                before.instance_handle(count as int),
                before.instance_handle(position),
            ).holds_instance(before, count + 1),
    {
        let base = before.records.len() as int;
        let instance = before.next_handle();
        let h = before.instance_handle(count as int);
        let ph = before.instance_handle(position);
        let pj = base + position;
        let gs = self.spawn(node);
        assert(self.next_handle() == h);
        assert(self.records[pj].generation == 1 && self.in_subtree(instance, pj));
        assert(self.handle_at(pj) == ph);
        self.lemma_grow_link(node, ph);
        let g2 = gs.link(h, ph);
        assert(gs.relinked(h, ph) == g2);
        gs.lemma_link_well_formed(h, ph);
        gs.lemma_link_nodes(h, ph);
        self.lemma_grow_old(before, count, node, position);
        assert forall|j: int| base <= j < base + count implies (#[trigger] g2.records[j]).generation
            == 1 && g2.in_subtree(instance, j) by {
            let x = self.handle_at(j);
            assert(self.records[j].generation == 1 && self.in_subtree(instance, j));
            self.lemma_grow_link(node, x);
            gs.lemma_link_ancestors(h, ph, instance, x);
            assert(g2.handle_at(j) == x);
        }
        assert(g2.records[pj].generation == 1 && g2.in_subtree(instance, pj));
        assert(g2.handle_at(pj) == ph);
        assert(g2.handle_at(base + count) == h);
        assert(g2.parent_of(h) == ph);
        let k = choose|k: nat| g2.within(instance, ph, k);
        assert(g2.within(instance, h, k + 1));
        assert(g2.in_subtree(instance, base + count));
    }

    /// Instantiating a model puts an instance into the graph.
    pub proof fn lemma_instantiated(self, model: ModelView, count: nat)
        requires
            self.well_formed(),
            count >= 1,
            self.records.len() + count <= u32::MAX,
        ensures
            self.instantiated(model, count).holds_instance(self, count),
        decreases count,
    {
        let base = self.records.len() as int;
        let instance = self.next_handle();
        assert(self.linked(self.root));
        if count == 1 {
            let rank0 = choose|rank: Seq<nat>| self.ranked(rank);
            let g = self.spawn(model.node(0));
            assert(self.instantiated(model, 0) == self);
            self.lemma_spawn_ranked(rank0, model.node(0));
            assert(g.handle_at(base) == instance);
            assert(g.within(instance, instance, 0));
        } else {
            let gi = self.instantiated(model, (count - 1) as nat);
            self.lemma_instantiated(model, (count - 1) as nat);
            gi.lemma_grow(
                self,
                (count - 1) as nat,
                model.node(count - 1),
                model.parent_position(count - 1),
            );
        }
    }

    /// In a graph that holds an instance, no node that was there before
    /// is part of the instance.
    pub proof fn lemma_instance_apart(self, before: GraphView, count: nat, x: NodeHandle, k: nat)
        requires
            before.consistent(),
            self.holds_instance(before, count),
            before.live(x),
        ensures
            self.live(x),
            !self.within(before.next_handle(), x, k),
        decreases k,
    {
        let instance = before.next_handle();
        assert(before.linked(x));
        assert(x.index < before.records.len());
        assert(x != instance);
        if x != before.root {
            assert(self.records[x.index as int] == before.records[x.index as int]);
        }
        assert(self.live(x));
        if k > 0 {
            if x != before.root {
                assert(self.parent_of(x) == before.parent_of(x));
                self.lemma_instance_apart(before, count, before.parent_of(x), (k - 1) as nat);
            } else {
                let none = NodeHandle::none_spec();
                assert(self.parent_of(x) == none);
                assert(self.records[0].generation != 0);
                assert(!self.live(none));
                assert(!self.within(instance, none, (k - 1) as nat));
            }
        }
    }

    /// Setting a scale changes no link.
    pub proof fn lemma_scaled(self, h: NodeHandle, scale: Scale)
        requires
            self.well_formed(),
        ensures
            self.scaled(h, scale).well_formed(),
            self.scaled(h, scale).records.len() == self.records.len(),
            forall|x: NodeHandle| self.live(x) <==> #[trigger] self.scaled(h, scale).live(x),
            forall|x: NodeHandle|
                self.live(x) ==> self.parent_of(x) == #[trigger] self.scaled(h, scale).parent_of(
                    x,
                ) && self.children_of(x) == self.scaled(h, scale).children_of(x),
            forall|a: NodeHandle, x: NodeHandle|
                self.ancestor_or_self(a, x) <==> #[trigger] self.scaled(
                    h,
                    scale,
                ).ancestor_or_self(a, x),
    {
        let g = self.scaled(h, scale);
        let rank = choose|rank: Seq<nat>| self.ranked(rank);
        assert forall|x: NodeHandle| #[trigger] g.live(x) implies g.linked(x) && (x != g.root
            ==> rank[g.parent_of(x).index as int] < rank[x.index as int]) by {
            assert(self.live(x));
            assert(self.linked(x));
            assert forall|k: int| 0 <= k < g.children_of(x).len() implies g.live(
                #[trigger] g.children_of(x)[k],
            ) && g.parent_of(g.children_of(x)[k]) == x by {
                assert(self.live(self.children_of(x)[k]));
            }
        }
        assert(g.ranked(rank));
        assert forall|a: NodeHandle, x: NodeHandle|
            self.ancestor_or_self(a, x) <==> #[trigger] g.ancestor_or_self(a, x) by {
            if self.ancestor_or_self(a, x) {
                let k = choose|k: nat| self.within(a, x, k);
                self.lemma_same_parents(g, a, x, k);
            }
            if g.ancestor_or_self(a, x) {
                let k = choose|k: nat| g.within(a, x, k);
                self.lemma_same_parents(g, a, x, k);
            }
        }
    }

    /// The slots of `self` followed by `count` reserved slots of the first
    /// generation.
    pub open spec fn with_reserved(self, count: nat) -> GraphView {
        GraphView {
            records: self.records + Seq::new(
                count,
                |j: int| RecordView { generation: 1, slot: SlotView::Reserved },
            ),
            root: self.root,
        }
    }

    /// An instance that is scaled and taken out again has left the graph
    /// as it was, with slots reserved for its nodes. The unit that was
    /// taken out holds exactly the nodes in these slots, and remembers the
    /// root as its parent.
    pub proof fn lemma_instance_taken(self, model: ModelView, scale: Scale)
        requires
            self.well_formed(),
            model.nodes.len() >= 1,
            self.records.len() + model.nodes.len() <= u32::MAX,
        ensures
            ({
                let instance = self.next_handle();
                let staged = self.instantiated(model, model.nodes.len()).scaled(instance, scale);
                &&& staged.well_formed()
                &&& staged.can_take(instance)
                &&& staged.without_subtree(instance) == self.with_reserved(model.nodes.len())
                &&& staged.subtree(instance).parent == self.root
                &&& forall|i: int|
                    staged.subtree(instance).nodes.dom().contains(i) <==> self.records.len() <= i
                        < self.records.len() + model.nodes.len()
            }),
    {
        let count = model.nodes.len();
        let base = self.records.len() as int;
        let instance = self.next_handle();
        let gi = self.instantiated(model, count);
        let staged = gi.scaled(instance, scale);
        self.lemma_instantiated(model, count);
        gi.lemma_scaled(instance, scale);
        assert(self.linked(self.root));
        assert(gi.records[base].generation == 1 && gi.in_subtree(instance, base));
        assert(gi.handle_at(base) == instance);
        assert(gi.live(instance));
        assert(gi.linked(instance));
        let s0 = self.children_of(self.root);
        // The instance hangs below the root.
        assert(gi.live(self.root));
        assert(gi.linked(self.root));
        assert(gi.children_of(self.root)[s0.len() as int] == instance);
        assert(gi.parent_of(gi.children_of(self.root)[s0.len() as int]) == self.root);
        assert forall|i: int| 0 <= i < base + count implies staged.in_subtree(instance, i) == (i
            >= base) by {
            if i >= base {
                assert(gi.records[i].generation == 1 && gi.in_subtree(instance, i));
                assert(staged.handle_at(i) == gi.handle_at(i));
            } else if self.records[i].slot is Occupied {
                let x = self.handle_at(i);
                assert(self.live(x));
                if staged.in_subtree(instance, i) {
                    assert(staged.handle_at(i) == x);
                    assert(gi.ancestor_or_self(instance, x));
                    let k = choose|k: nat| gi.within(instance, x, k);
                    gi.lemma_instance_apart(self, count, x, k);
                }
            } else {
                assert(gi.records[i] == self.records[i]);
            }
        }
        let target = self.with_reserved(count);
        let taken = staged.without_subtree(instance);
        if s0.contains(instance) {
            let m = s0.index_of(instance);
            assert(self.live(s0[m]));
        }
        lemma_without_push(s0, instance);
        assert forall|i: int| 0 <= i < base + count implies taken.records[i]
            == target.records[i] by {
            if i < base && self.records[i].slot is Occupied {
                let x = self.handle_at(i);
                assert(self.live(x));
                assert(self.linked(x));
                assert(!staged.in_subtree(instance, i));
                if i != self.root.index {
                    assert(gi.records[i] == self.records[i]);
                    let s = self.children_of(x);
                    if s.contains(instance) {
                        let m = s.index_of(instance);
                        assert(self.live(s[m]));
                    }
                }
            } else if i < base {
                assert(gi.records[i] == self.records[i]);
            } else {
                assert(staged.in_subtree(instance, i));
                assert(gi.records[i].generation == 1 && gi.in_subtree(instance, i));
            }
        }
        assert(taken.records =~= target.records);
    }
}

} // verus!
