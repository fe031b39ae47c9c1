//! The node arena: slots with generations, each holding a node or kept
//! free for one that was taken out.

use crate::handle::NodeHandle;
use crate::hierarchy::{without, GraphView, RecordView, SlotView};
use crate::node::{Capabilities, Node, NodeView, Scale};
use vstd::prelude::*;

verus! {

pub(crate) struct Record {
    pub(crate) generation: u32,
    pub(crate) payload: Option<Node>,
}

pub(crate) open spec fn record_view(r: Record) -> RecordView {
    RecordView {
        generation: r.generation,
        slot: match r.payload {
            Some(n) => SlotView::Occupied(n@),
            None => SlotView::Reserved,
        },
    }
}

/// A scene graph.
pub struct Graph {
    pub(crate) records: Vec<Record>,
    pub(crate) root: NodeHandle,
    pub(crate) rank: Ghost<Seq<nat>>,
}

impl View for Graph {
    type V = GraphView;

    open(crate) spec fn view(&self) -> GraphView {
        GraphView {
            records: Seq::new(self.records@.len(), |i: int| record_view(self.records@[i])),
            root: self.root,
        }
    }
}

/// The position of the first `x` in `v`.
pub(crate) fn position_of(v: &Vec<NodeHandle>, x: NodeHandle) -> (r: Option<usize>)
    ensures
        r matches Some(i) ==> i < v.len() && v[i as int] == x && forall|j: int|
            0 <= j < i ==> v[j] != x,
        r is None ==> !v@.contains(x),
{
    let mut i: usize = 0;
    while i < v.len()
        invariant
            i <= v.len(),
            forall|j: int| 0 <= j < i ==> v[j] != x,
        decreases v.len() - i,
    {
        if v[i] == x {
            return Some(i);
        }
        i += 1;
    }
    None
}

impl Graph {
    /// The graph holds a tree of live nodes below its root.
    pub open(crate) spec fn wf(&self) -> bool {
        self@.consistent() && self@.ranked(self.rank@)
    }

    pub proof fn lemma_wf(&self)
        requires
            self.wf(),
        ensures
            self@.well_formed(),
    {
    }

    /// The graph that holds a root named `__ROOT__` and nothing else.
    pub open spec fn initial() -> GraphView {
        GraphView {
            records: seq![
                RecordView {
                    generation: 1,
                    slot: SlotView::Occupied(
                        NodeView {
                            name: "__ROOT__"@,
                            parent: NodeHandle::none_spec(),
                            children: Seq::empty(),
                            capabilities: Capabilities::plain_spec(),
                            resource: None,
                            scale: Scale::unit_spec(),
                        },
                    ),
                },
            ],
            root: NodeHandle { index: 0, generation: 1 },
        }
    }

    pub fn new() -> (g: Graph)
        ensures
            g.wf(),
            g@ == Graph::initial(),
    {
        let mut records: Vec<Record> = Vec::new();
        records.push(
            Record { generation: 1, payload: Some(Node::new("__ROOT__", Capabilities::plain())) },
        );
        let g = Graph { records, root: NodeHandle::new(0, 1), rank: Ghost(Seq::<nat>::empty().push(0nat)) };
        proof {
            assert(g@.records =~= Graph::initial().records);
            assert forall|h: NodeHandle| #[trigger] g@.live(h) implies g@.linked(h) by {
                assert(h == g@.root);
            }
        }
        g
    }

    pub fn get_root(&self) -> (r: NodeHandle)
        ensures
            r == self@.root,
    {
        self.root
    }

    /// The number of slots, occupied or reserved.
    pub fn capacity(&self) -> (n: usize)
        ensures
            n == self@.records.len(),
    {
        self.records.len()
    }

    pub fn is_valid_handle(&self, h: NodeHandle) -> (b: bool)
        ensures
            b == self@.live(h),
    {
        let i = h.index as usize;
        i < self.records.len() && self.records[i].generation == h.generation
            && self.records[i].payload.is_some()
    }

    /// The node that `h` names, if `h` is live.
    pub fn try_get(&self, h: NodeHandle) -> (n: Option<&Node>)
        ensures
            n is Some <==> self@.live(h),
            n matches Some(x) ==> x@ == self@.node(h),
    {
        let i = h.index as usize;
        if i < self.records.len() && self.records[i].generation == h.generation {
            self.records[i].payload.as_ref()
        } else {
            None
        }
    }

    /// Whether `a` is `x` or one of its ancestors, found by following the
    /// parent links upwards from `x`.
    pub fn is_ancestor_or_self(&self, a: NodeHandle, x: NodeHandle) -> (b: bool)
        requires
            self.wf(),
        ensures
            b == self@.ancestor_or_self(a, x),
    {
        proof {
            self@.lemma_reaches_iff(self.rank@, a, x);
        }
        let mut p = x;
        loop
            invariant
                self.wf(),
                self@.reaches(self.rank@, a, x) == self@.reaches(self.rank@, a, p),
                self@.reaches(self.rank@, a, x) == self@.ancestor_or_self(a, x),
            decreases
                    if self@.live(p) {
                        self.rank@[p.index as int] + 1
                    } else {
                        0
                    },
        {
            match self.try_get(p) {
                None => {
                    return false;
                },
                Some(node) => {
                    if p == a {
                        return true;
                    }
                    proof {
                        assert(self@.linked(p));
                    }
                    p = node.parent();
                },
            }
        }
    }

    /// The graph with the node in slot `i` replaced by `node`.
    pub(crate) open spec fn replaced(g: GraphView, i: int, node: NodeView) -> Seq<RecordView> {
        g.records.update(
            i,
            RecordView { generation: g.records[i].generation, slot: SlotView::Occupied(node) },
        )
    }

    pub(crate) fn remove_child_at(&mut self, i: usize, pos: usize)
        requires
            i < old(self)@.records.len(),
            old(self)@.records[i as int].slot is Occupied,
            pos < old(self)@.records[i as int].slot->Occupied_0.children.len(),
        ensures
            final(self).root == old(self).root,
            final(self).rank == old(self).rank,
            final(self)@.records == Graph::replaced(
                old(self)@,
                i as int,
                NodeView {
                    children: old(self)@.records[i as int].slot->Occupied_0.children.remove(
                        pos as int,
                    ),
                    ..old(self)@.records[i as int].slot->Occupied_0
                },
            ),
    {
        match &mut self.records[i].payload {
            Some(node) => {
                node.remove_child(pos);
            },
            None => {},
        }
        assert(self@.records =~= Graph::replaced(
            old(self)@,
            i as int,
            NodeView {
                children: old(self)@.records[i as int].slot->Occupied_0.children.remove(pos as int),
                ..old(self)@.records[i as int].slot->Occupied_0
            },
        ));
    }

    pub(crate) fn push_child_at(&mut self, i: usize, child: NodeHandle)
        requires
            i < old(self)@.records.len(),
            old(self)@.records[i as int].slot is Occupied,
        ensures
            final(self).root == old(self).root,
            final(self).rank == old(self).rank,
            final(self)@.records == Graph::replaced(
                old(self)@,
                i as int,
                NodeView {
                    children: old(self)@.records[i as int].slot->Occupied_0.children.push(child),
                    ..old(self)@.records[i as int].slot->Occupied_0
                },
            ),
    {
        match &mut self.records[i].payload {
            Some(node) => {
                node.push_child(child);
            },
            None => {},
        }
        assert(self@.records =~= Graph::replaced(
            old(self)@,
            i as int,
            NodeView {
                children: old(self)@.records[i as int].slot->Occupied_0.children.push(child),
                ..old(self)@.records[i as int].slot->Occupied_0
            },
        ));
    }

    pub(crate) fn set_parent_at(&mut self, i: usize, parent: NodeHandle)
        requires
            i < old(self)@.records.len(),
            old(self)@.records[i as int].slot is Occupied,
        ensures
            final(self).root == old(self).root,
            final(self).rank == old(self).rank,
            final(self)@.records == Graph::replaced(
                old(self)@,
                i as int,
                NodeView { parent, ..old(self)@.records[i as int].slot->Occupied_0 },
            ),
    {
        match &mut self.records[i].payload {
            Some(node) => {
                node.set_parent(parent);
            },
            None => {},
        }
        assert(self@.records =~= Graph::replaced(
            old(self)@,
            i as int,
            NodeView { parent, ..old(self)@.records[i as int].slot->Occupied_0 },
        ));
    }

    /// Moves `child` below `parent`.
    pub fn link_nodes(&mut self, child: NodeHandle, parent: NodeHandle)
        requires
            old(self).wf(),
            old(self)@.live(child),
            old(self)@.live(parent),
            !old(self)@.ancestor_or_self(child, parent),
        ensures
            final(self).wf(),
            final(self)@ == old(self)@.link(child, parent),
    {
        let ghost g = self@;
        let ghost rank = self.rank@;
        proof {
            g.lemma_reaches_iff(rank, child, parent);
            g.lemma_link_ranked(rank, child, parent);
            g.lemma_link_consistent(child, parent);
            assert(g.linked(child));
            assert(g.linked(g.parent_of(child)));
        }
        let old_parent = match self.try_get(child) {
            Some(node) => node.parent(),
            None => NodeHandle::none(),
        };
        let pos = match self.try_get(old_parent) {
            Some(node) => position_of(node.children(), child),
            None => None,
        };
        let ghost siblings = g.children_of(old_parent);
        match pos {
            Some(i) => {
                proof {
                    assert(siblings[i as int] == child);
                    assert(siblings.contains(child));
                    assert(siblings.index_of(child) == i);
                }
                self.remove_child_at(old_parent.index as usize, i);
            },
            None => {},
        }
        self.set_parent_at(child.index as usize, parent);
        self.push_child_at(parent.index as usize, child);
        proof {
            self.rank = Ghost(g.rank_after_link(rank, child, parent));
            let target = g.link(child, parent);
            assert forall|i: int| 0 <= i < g.records.len() implies self@.records[i]
                == target.records[i] by {
                let h = g.handle_at(i);
                if g.records[i].slot is Occupied {
                    assert(g.live(h));
                    assert(g.linked(h));
                    if h != old_parent {
                        if g.children_of(h).contains(child) {
                            let m = g.children_of(h).index_of(child);
                            assert(g.parent_of(g.children_of(h)[m]) == h);
                        }
                        assert(without(g.children_of(h), child) == g.children_of(h));
                    }
                }
            }
            assert(self@.records =~= target.records);
        }
    }
    /// Moves `child` below `parent` where that leaves a tree, and says
    /// whether it did. Nothing changes where a handle is not live, or where
    /// `child` is `parent` or one of its ancestors.
    pub fn try_link_nodes(&mut self, child: NodeHandle, parent: NodeHandle) -> (done: bool)
        requires
            old(self).wf(),
        ensures
            final(self).wf(),
            done == old(self)@.can_link(child, parent),
            done ==> final(self)@ == old(self)@.link(child, parent),
            !done ==> final(self)@ == old(self)@,
    {
        if self.can_link(child, parent) {
            self.link_nodes(child, parent);
            true
        } else {
            false
        }
    }

    /// Whether `child` can be moved below `parent`: both are live, and
    /// `child` is neither `parent` nor one of its ancestors.
    pub fn can_link(&self, child: NodeHandle, parent: NodeHandle) -> (b: bool)
        requires
            self.wf(),
        ensures
            b == self@.can_link(child, parent),
    {
        self.is_valid_handle(child) && self.is_valid_handle(parent) && !self.is_ancestor_or_self(
            child,
            parent,
        )
    }

    /// Adds `node` below the root and returns its handle. Whatever links
    /// `node` carried are dropped.
    pub fn add_node(&mut self, node: Node) -> (handle: NodeHandle)
        requires
            old(self).wf(),
            old(self)@.records.len() < u32::MAX,
        ensures
            final(self).wf(),
            handle == old(self)@.next_handle(),
            final(self)@ == old(self)@.spawn(node@),
    {
        let ghost g = self@;
        let ghost rank = self.rank@;
        proof {
            g.lemma_spawn_ranked(rank, node@);
        }
        let handle = NodeHandle::new(self.records.len() as u32, 1);
        let mut node = node;
        node.clear_links();
        node.set_parent(self.root);
        self.records.push(Record { generation: 1, payload: Some(node) });
        self.push_child_at(self.root.index as usize, handle);
        proof {
            self.rank = Ghost(rank.push(rank[g.root.index as int] + 1));
            assert(self@.records =~= g.spawn(node@).records);
        }
        handle
    }

    /// The handles of all live nodes, in the order of their slots.
    pub fn handles(&self) -> (all: Vec<NodeHandle>)
        ensures
            all@ == self@.handles(),
    {
        let mut all: Vec<NodeHandle> = Vec::new();
        let mut i: usize = 0;
        while i < self.records.len()
            invariant
                i <= self.records.len(),
                all@ == self@.handles_below(i as nat),
            decreases self.records.len() - i,
        {
            if self.records[i].payload.is_some() {
                all.push(NodeHandle::new(i as u32, self.records[i].generation));
            }
            i += 1;
        }
        all
    }

    /// The number of live nodes.
    pub fn node_count(&self) -> (n: usize)
        ensures
            n == self@.node_count(),
    {
        self.handles().len()
    }
}

} // verus!
