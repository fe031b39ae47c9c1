//! Units of nodes outside the graph, and the two operations that move a
//! node with its descendants out of the graph and back.

use crate::graph::{position_of, Graph};
use crate::handle::NodeHandle;
use crate::hierarchy::{without, GraphView, RecordView, SlotView};
use crate::node::{Node, NodeView};
use crate::subtree::SubGraphView;
use vstd::prelude::*;

verus! {

/// A node outside the graph, with the slot that is kept for it.
pub(crate) struct Entry {
    pub(crate) index: u32,
    pub(crate) node: Node,
}

/// A node and its descendants, taken out of a graph.
pub struct SubGraph {
    pub(crate) root: NodeHandle,
    pub(crate) parent: NodeHandle,
    pub(crate) entries: Vec<Entry>,
}

/// The nodes of a list of entries by their slots. Where two entries name
/// one slot, the earlier counts.
pub(crate) open spec fn entries_map(entries: Seq<Entry>) -> Map<int, NodeView>
    decreases entries.len(),
{
    if entries.len() == 0 {
        Map::empty()
    } else {
        entries_map(entries.drop_first()).insert(entries[0].index as int, entries[0].node@)
    }
}

proof fn lemma_entries_push(entries: Seq<Entry>, e: Entry)
    ensures
        entries_map(entries.push(e)) == if entries_map(entries).dom().contains(e.index as int) {
            entries_map(entries)
        } else {
            entries_map(entries).insert(e.index as int, e.node@)
        },
    decreases entries.len(),
{
    let longer = entries.push(e);
    if entries.len() == 0 {
        assert(longer.drop_first() =~= Seq::<Entry>::empty());
        assert(longer[0] == e);
        assert(entries_map(longer.drop_first()) == Map::<int, NodeView>::empty());
        assert(entries_map(longer) == Map::<int, NodeView>::empty().insert(
            e.index as int,
            e.node@,
        ));
    } else {
        let rest = entries.drop_first();
        assert(longer.drop_first() =~= rest.push(e));
        lemma_entries_push(rest, e);
        if entries_map(entries).dom().contains(e.index as int) {
            assert(entries_map(longer) =~= entries_map(entries));
        } else {
            assert(entries_map(longer) =~= entries_map(entries).insert(e.index as int, e.node@));
        }
    }
}

proof fn lemma_entries_dom(entries: Seq<Entry>, k: int)
    requires
        0 <= k < entries.len(),
    ensures
        entries_map(entries).dom().contains(entries[k].index as int),
    decreases entries.len(),
{
    if k > 0 {
        lemma_entries_dom(entries.drop_first(), k - 1);
    }
}

impl View for SubGraph {
    type V = SubGraphView;

    closed spec fn view(&self) -> SubGraphView {
        SubGraphView { root: self.root, parent: self.parent, nodes: entries_map(self.entries@) }
    }
}

impl SubGraph {
    /// The handle of the topmost node.
    pub fn root(&self) -> (h: NodeHandle)
        ensures
            h == self@.root,
    {
        self.root
    }

    /// The parent that the topmost node had in the graph.
    pub fn parent(&self) -> (h: NodeHandle)
        ensures
            h == self@.parent,
    {
        self.parent
    }
}

impl Graph {
    fn take_at(&mut self, i: usize) -> (node: Node)
        requires
            i < old(self)@.records.len(),
            old(self)@.records[i as int].slot is Occupied,
        ensures
            final(self).root == old(self).root,
            final(self).rank == old(self).rank,
            node@ == old(self)@.records[i as int].slot->Occupied_0,
            final(self)@.records == old(self)@.records.update(
                i as int,
                RecordView {
                    generation: old(self)@.records[i as int].generation,
                    slot: SlotView::Reserved,
                },
            ),
    {
        let taken = self.records[i].payload.take();
        assert(self@.records =~= old(self)@.records.update(
            i as int,
            RecordView {
                generation: old(self)@.records[i as int].generation,
                slot: SlotView::Reserved,
            },
        ));
        taken.unwrap()
    }

    fn put_at(&mut self, i: usize, node: Node)
        requires
            i < old(self)@.records.len(),
        ensures
            final(self).root == old(self).root,
            final(self).rank == old(self).rank,
            final(self)@.records == Graph::replaced(old(self)@, i as int, node@),
    {
        self.records[i].payload = Some(node);
        assert(self@.records =~= Graph::replaced(old(self)@, i as int, node@));
    }

    /// For each slot, whether its node is `top` or one of its descendants.
    fn members_of(&self, top: NodeHandle) -> (member: Vec<bool>)
        requires
            self.wf(),
        ensures
            member@.len() == self@.records.len(),
            forall|j: int|
                0 <= j < member@.len() ==> member@[j] == self@.in_subtree(top, j),
    {
        let mut member: Vec<bool> = Vec::new();
        let mut i: usize = 0;
        while i < self.records.len()
            invariant
                self.wf(),
                i <= self.records.len(),
                self.records.len() == self@.records.len(),
                member@.len() == i,
                forall|j: int| 0 <= j < i ==> member@[j] == self@.in_subtree(top, j),
            decreases self.records.len() - i,
        {
            let inside = self.records[i].payload.is_some() && self.is_ancestor_or_self(
                top,
                NodeHandle::new(i as u32, self.records[i].generation),
            );
            member.push(inside);
            i += 1;
        }
        member
    }

    /// Takes `top` and its descendants out of the graph, keeping their
    /// slots for them. Nothing is taken where `top` is not live or is the
    /// root.
    pub fn take_reserve_sub_graph(&mut self, top: NodeHandle) -> (sub: Option<SubGraph>)
        requires
            old(self).wf(),
        ensures
            final(self).wf(),
            sub is Some <==> old(self)@.can_take(top),
            sub matches Some(s) ==> final(self)@ == old(self)@.without_subtree(top) && s@ == old(
                self,
            )@.subtree(top) && final(self)@.accepts(s@),
            sub is None ==> final(self)@ == old(self)@,
    {
        if !self.is_valid_handle(top) || top == self.root {
            return None;
        }
        let ghost g = self@;
        let ghost rank = self.rank@;
        proof {
            g.lemma_take_ranked(rank, top);
            g.lemma_take_accepts(rank, top);
            assert(g.linked(top));
            assert(g.linked(g.parent_of(top)));
            g.lemma_in_subtree_step(rank, top, g.parent_of(top));
            if g.reaches(rank, top, g.parent_of(top)) {
                g.lemma_reaches_rank(rank, top, g.parent_of(top));
            }
            assert(!g.in_subtree(top, g.parent_of(top).index as int));
        }
        let member = self.members_of(top);
        let parent = match self.try_get(top) {
            Some(node) => node.parent(),
            None => NodeHandle::none(),
        };
        let pos = match self.try_get(parent) {
            Some(node) => position_of(node.children(), top),
            None => None,
        };
        match pos {
            Some(i) => {
                proof {
                    let siblings = g.children_of(parent);
                    assert(siblings[i as int] == top);
                    assert(siblings.contains(top));
                    assert(siblings.index_of(top) == i);
                }
                self.remove_child_at(parent.index as usize, i);
            },
            None => {},
        }
        let ghost g1 = self@;
        let mut entries: Vec<Entry> = Vec::new();
        let mut i: usize = 0;
        let n = self.records.len();
        proof {
            assert(g1.records.len() == g.records.len());
            assert(n == g1.records.len());
            assert(entries_map(entries@) =~= Map::new(
                |j: int| 0 <= j < 0 && g.in_subtree(top, j),
                |j: int| g.subtree(top).nodes[j],
            ));
        }
        while i < n
            invariant
                i <= n,
                n == g.records.len(),
                n <= u32::MAX,
                self.root == g.root,
                self.rank@ == rank,
                member@.len() == n,
                forall|j: int| 0 <= j < n ==> member@[j] == g.in_subtree(top, j),
                g1.records.len() == n,
                forall|j: int| 0 <= j < n && g.in_subtree(top, j) ==> g1.records[j] == g.records[j],
                self@.records.len() == n,
                forall|j: int|
                    0 <= j < n ==> (#[trigger] self@.records[j]) == if j < i && member@[j] {
                        RecordView {
                            generation: g1.records[j].generation,
                            slot: SlotView::Reserved,
                        }
                    } else {
                        g1.records[j]
                    },
                entries_map(entries@) == Map::new(
                    |j: int| 0 <= j < i && g.in_subtree(top, j),
                    |j: int| g.subtree(top).nodes[j],
                ),
            decreases n - i,
        {
            if member[i] {
                let ghost before = self@;
                let mut node = self.take_at(i);
                if i == top.index as usize {
                    node.set_parent(NodeHandle::none());
                }
                let entry = Entry { index: i as u32, node };
                proof {
                    lemma_entries_push(entries@, entry);
                    assert(entries_map(entries@.push(entry)) =~= Map::new(
                        |j: int| 0 <= j < i + 1 && g.in_subtree(top, j),
                        |j: int| g.subtree(top).nodes[j],
                    ));
                }
                entries.push(entry);
            } else {
                proof {
                    assert(entries_map(entries@) =~= Map::new(
                        |j: int| 0 <= j < i + 1 && g.in_subtree(top, j),
                        |j: int| g.subtree(top).nodes[j],
                    ));
                }
            }
            i += 1;
        }
        let sub = SubGraph { root: top, parent, entries };
        proof {
            let target = g.without_subtree(top);
            assert forall|j: int| 0 <= j < n implies self@.records[j] == target.records[j] by {
                if g.records[j].slot is Occupied && !g.in_subtree(top, j) {
                    let h = g.handle_at(j);
                    assert(g.live(h));
                    assert(g.linked(h));
                    if h != parent {
                        if g.children_of(h).contains(top) {
                            let m = g.children_of(h).index_of(top);
                            assert(g.parent_of(g.children_of(h)[m]) == h);
                        }
                        assert(without(g.children_of(h), top) == g.children_of(h));
                    }
                }
            }
            assert(self@.records =~= target.records);
            assert(sub@.nodes =~= g.subtree(top).nodes);
        }
        Some(sub)
    }

    /// The slots of `g` with the nodes of `nodes` laid over them.
    pub(crate) open spec fn overlaid(g: GraphView, nodes: Map<int, NodeView>) -> Seq<RecordView> {
        Seq::new(
            g.records.len(),
            |j: int|
                if nodes.dom().contains(j) {
                    RecordView {
                        generation: g.records[j].generation,
                        slot: SlotView::Occupied(nodes[j]),
                    }
                } else {
                    g.records[j]
                },
        )
    }

    fn restore(&mut self, entries: Vec<Entry>)
        requires
            forall|j: int| #[trigger]
                entries_map(entries@).dom().contains(j) ==> 0 <= j < old(self)@.records.len(),
        ensures
            final(self).root == old(self).root,
            final(self).rank == old(self).rank,
            final(self)@.records == Graph::overlaid(old(self)@, entries_map(entries@)),
    {
        let ghost g = self@;
        let ghost rank = self.rank@;
        let ghost all = entries@;
        let mut entries = entries;
        proof {
            assert(all.skip(all.len() as int) =~= Seq::<Entry>::empty());
            assert(self@.records =~= Graph::overlaid(g, entries_map(all.skip(all.len() as int))));
            assert(entries@ =~= all.take(all.len() as int));
        }
        while entries.len() > 0
            invariant
                entries@.len() <= all.len(),
                entries@ == all.take(entries@.len() as int),
                forall|j: int| #[trigger]
                    entries_map(all).dom().contains(j) ==> 0 <= j < g.records.len(),
                self.root == g.root,
                self.rank@ == rank,
                self@.records == Graph::overlaid(
                    g,
                    entries_map(all.skip(entries@.len() as int)),
                ),
            decreases entries@.len(),
        {
            let ghost k = entries@.len() as int;
            let entry = entries.pop().unwrap();
            proof {
                lemma_entries_dom(all, k - 1);
                assert(all[k - 1] == entry);
                assert(all.skip(k - 1).drop_first() =~= all.skip(k));
                assert(all.skip(k - 1)[0] == entry);
                assert(entries@ =~= all.take(k - 1));
            }
            self.put_at(entry.index as usize, entry.node);
            proof {
                assert(entries_map(all.skip(k - 1)) == entries_map(all.skip(k)).insert(
                    entry.index as int,
                    entry.node@,
                ));
                assert(self@.records =~= Graph::overlaid(g, entries_map(all.skip(k - 1))));
            }
        }
        assert(all.skip(0) =~= all);
    }

    /// Puts `sub` back into the graph it was taken from, below the parent
    /// that it had, or below the root where that parent is no longer live.
    /// Returns the handle of the topmost node of `sub`.
    pub fn put_sub_graph_back(&mut self, sub: SubGraph) -> (top: NodeHandle)
        requires
            old(self).wf(),
            old(self)@.accepts(sub@),
        ensures
            final(self).wf(),
            final(self)@ == old(self)@.with_subtree(sub@),
            top == sub@.root,
    {
        let ghost g = self@;
        let ghost rank = self.rank@;
        let ghost view = sub@;
        let ghost sub_rank = choose|sub_rank: Seq<nat>| g.ranked_in(view, sub_rank);
        proof {
            g.lemma_put_ranked(rank, view, sub_rank);
        }
        let home = if self.is_valid_handle(sub.parent) {
            sub.parent
        } else {
            self.root
        };
        let top = sub.root;
        self.restore(sub.entries);
        proof {
            assert(view.nodes.dom().contains(top.index as int));
            assert(self@.records[top.index as int].slot is Occupied);
            assert(self@.records[home.index as int] == g.records[home.index as int]);
        }
        self.set_parent_at(top.index as usize, home);
        self.push_child_at(home.index as usize, top);
        proof {
            self.rank = Ghost(g.rank_after_put(rank, view, sub_rank));
            assert(self@.records =~= g.with_subtree(view).records);
        }
        top
    }
}

} // verus!
