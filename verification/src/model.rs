//! Reusable assets: a tree of node descriptions that can be instantiated
//! into a graph any number of times.

use crate::graph::Graph;
use crate::handle::NodeHandle;
use crate::hierarchy::{GraphView, RecordView, SlotView};
use crate::node::{Capabilities, Node, NodeView, Scale};
use vstd::prelude::*;

verus! {

/// The description of one node of a model.
#[derive(Debug)]
pub struct ModelNode {
    pub(crate) name: String,
    pub(crate) capabilities: Capabilities,
    pub(crate) parent: usize,
}

/// A model: the descriptions of its nodes, the topmost first.
#[derive(Debug)]
pub struct Model {
    pub(crate) id: u64,
    pub(crate) nodes: Vec<ModelNode>,
}

pub struct ModelNodeView {
    pub name: Seq<char>,
    pub capabilities: Capabilities,
    /// The position of the description of the parent.
    pub parent: int,
}

pub struct ModelView {
    pub id: u64,
    pub nodes: Seq<ModelNodeView>,
}

impl View for ModelNode {
    type V = ModelNodeView;

    open(crate) spec fn view(&self) -> ModelNodeView {
        ModelNodeView {
            name: self.name@,
            capabilities: self.capabilities,
            parent: self.parent as int,
        }
    }
}

impl View for Model {
    type V = ModelView;

    open(crate) spec fn view(&self) -> ModelView {
        ModelView { id: self.id, nodes: Seq::new(self.nodes@.len(), |i: int| self.nodes@[i]@) }
    }
}

impl ModelView {
    /// The node that the description at `position` becomes, before it has
    /// any links.
    pub open spec fn node(self, position: int) -> NodeView {
        NodeView {
            name: self.nodes[position].name,
            parent: NodeHandle::none_spec(),
            children: Seq::empty(),
            capabilities: self.nodes[position].capabilities,
            resource: Some(self.id),
            scale: Scale::unit_spec(),
        }
    }

    /// The position of the description below which the one at `position`
    /// goes: that of its parent where that is an earlier one, else the
    /// topmost.
    pub open spec fn parent_position(self, position: int) -> int {
        if 0 <= self.nodes[position].parent < position {
            self.nodes[position].parent
        } else {
            0
        }
    }
}

impl Model {
    /// A model of one node, known to the editor as the asset `id`.
    pub fn new(id: u64, name: &str, capabilities: Capabilities) -> (m: Model)
        ensures
            m@.id == id,
            m@.nodes == seq![ModelNodeView { name: name@, capabilities, parent: 0 }],
    {
        let mut nodes: Vec<ModelNode> = Vec::new();
        nodes.push(ModelNode { name: name.to_owned(), capabilities, parent: 0 });
        let m = Model { id, nodes };
        assert(m@.nodes =~= seq![ModelNodeView { name: name@, capabilities, parent: 0 }]);
        m
    }

    /// Describes one more node, below the one described at `parent`, and
    /// returns the position of the new description. Nothing is added where
    /// `parent` is no position of the model.
    pub fn add_child(&mut self, parent: usize, name: &str, capabilities: Capabilities) -> (position:
        Option<usize>)
        ensures
            final(self)@.id == old(self)@.id,
            parent < old(self)@.nodes.len() ==> position == Some(old(self)@.nodes.len() as usize)
                && final(self)@.nodes == old(self)@.nodes.push(
                ModelNodeView { name: name@, capabilities, parent: parent as int },
            ),
            parent >= old(self)@.nodes.len() ==> position is None && final(self)@ == old(self)@,
    {
        if parent < self.nodes.len() {
            let position = self.nodes.len();
            self.nodes.push(ModelNode { name: name.to_owned(), capabilities, parent });
            assert(self@.nodes =~= old(self)@.nodes.push(
                ModelNodeView { name: name@, capabilities, parent: parent as int },
            ));
            Some(position)
        } else {
            assert(self@.nodes =~= old(self)@.nodes);
            None
        }
    }

    pub fn id(&self) -> (id: u64)
        ensures
            id == self@.id,
    {
        self.id
    }

    /// The number of nodes described.
    pub fn len(&self) -> (n: usize)
        ensures
            n == self@.nodes.len(),
    {
        self.nodes.len()
    }
}

impl GraphView {
    /// The handle of the node that the description at `position` becomes
    /// when a model is instantiated into this graph.
    pub open spec fn instance_handle(self, position: int) -> NodeHandle {
        NodeHandle { index: (self.records.len() + position) as u32, generation: 1 }
    }

    /// The graph after the first `count` nodes of `model` have been
    /// instantiated: each is added in turn and moved below the node that
    /// its parent has become.
    pub open spec fn instantiated(self, model: ModelView, count: nat) -> GraphView
        decreases count,
    {
        if count == 0 {
            self
        } else {
            let before = self.instantiated(model, (count - 1) as nat);
            let added = before.spawn(model.node(count - 1));
            if count == 1 {
                added
            } else {
                added.relinked(
                    self.instance_handle(count - 1),
                    self.instance_handle(model.parent_position(count - 1)),
                )
            }
        }
    }

    /// The graph with the scale of the node `h` set, where `h` is live.
    pub open spec fn scaled(self, h: NodeHandle, scale: Scale) -> GraphView {
        if self.live(h) {
            GraphView {
                records: self.records.update(
                    h.index as int,
                    RecordView {
                        generation: h.generation,
                        slot: SlotView::Occupied(NodeView { scale, ..self.node(h) }),
                    },
                ),
                root: self.root,
            }
        } else {
            self
        }
    }
}

impl Graph {
    /// Sets the scale of the node `h`, and says whether `h` is live.
    pub fn set_scale(&mut self, h: NodeHandle, scale: Scale) -> (done: bool)
        requires
            old(self).wf(),
        ensures
            final(self).wf(),
            done == old(self)@.live(h),
            final(self)@ == old(self)@.scaled(h, scale),
    {
        if !self.is_valid_handle(h) {
            return false;
        }
        let ghost g = self@;
        match &mut self.records[h.index as usize].payload {
            Some(node) => {
                node.set_scale(scale);
            },
            None => {},
        }
        proof {
            assert(self@.records =~= g.scaled(h, scale).records);
            assert forall|x: NodeHandle| #[trigger] self@.live(x) implies self@.linked(x) && (x
                != self@.root ==> self.rank@[self@.parent_of(x).index as int]
                < self.rank@[x.index as int]) by {
                assert(g.live(x));
                assert(g.linked(x));
                assert forall|k: int| 0 <= k < self@.children_of(x).len() implies self@.live(
                    #[trigger] self@.children_of(x)[k],
                ) && self@.parent_of(self@.children_of(x)[k]) == x by {
                    assert(g.live(g.children_of(x)[k]));
                }
            }
        }
        true
    }

    /// Instantiates `model` into the graph and returns the handle of the
    /// topmost node of the instance. Nothing is added where the model is
    /// empty or the graph has no room for it.
    pub fn instantiate(&mut self, model: &Model) -> (instance: Option<NodeHandle>)
        requires
            old(self).wf(),
        ensures
            final(self).wf(),
            instance is Some <==> model@.nodes.len() > 0 && old(self)@.records.len()
                + model@.nodes.len() <= u32::MAX,
            instance matches Some(h) ==> h == old(self)@.next_handle() && final(self)@ == old(
                self,
            )@.instantiated(model@, model@.nodes.len()) && final(self)@.can_take(h),
            instance is None ==> final(self)@ == old(self)@,
    {
        let count = model.nodes.len();
        let base = self.records.len();
        if count == 0 || base > (u32::MAX as usize) || count > (u32::MAX as usize) - base {
            return None;
        }
        let ghost g = self@;
        let mut i: usize = 0;
        while i < count
            invariant
                i <= count,
                count == model@.nodes.len(),
                base == g.records.len(),
                base + count <= u32::MAX,
                self.wf(),
                self@ == g.instantiated(model@, i as nat),
                self@.records.len() == base + i,
                self@.root == g.root,
                i > 0 ==> self@.live(g.next_handle()),
            decreases count - i,
        {
            let ghost before = self@;
            let description = &model.nodes[i];
            let node = Node::new(description.name.as_str(), description.capabilities).with_resource(
                model.id,
            );
            assert(node@ == model@.node(i as int));
            let handle = self.add_node(node);
            if i > 0 {
                let position = if description.parent < i {
                    description.parent
                } else {
                    0
                };
                let parent = NodeHandle::new((base + position) as u32, 1);
                let ghost added = self@;
                self.try_link_nodes(handle, parent);
                proof {
                    if added.can_link(handle, parent) {
                        added.lemma_link_nodes(handle, parent);
                    }
                }
            }
            i += 1;
        }
        Some(NodeHandle::new(base as u32, 1))
    }
}

} // verus!
