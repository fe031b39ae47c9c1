//! Scene nodes as the editor sees them: a name, the links to the parent and
//! the children, what the node is capable of, the asset it came from, and the
//! scale of its local transform.

use crate::handle::NodeHandle;
use vstd::prelude::*;

verus! {

/// What a node can act as. The capabilities are independent of each other.
#[derive(Clone, Copy, Debug, PartialEq, Eq, Structural)]
pub struct Capabilities {
    pub point_light: bool,
    pub directional_light: bool,
    pub spot_light: bool,
    pub joint: bool,
    pub joint2d: bool,
    pub rigid_body: bool,
    pub rigid_body2d: bool,
    pub collider: bool,
    pub collider2d: bool,
    pub sound: bool,
}

impl Capabilities {
    /// A node that is nothing in particular.
    pub open spec fn plain_spec() -> Capabilities {
        Capabilities {
            point_light: false,
            directional_light: false,
            spot_light: false,
            joint: false,
            joint2d: false,
            rigid_body: false,
            rigid_body2d: false,
            collider: false,
            collider2d: false,
            sound: false,
        }
    }

    pub fn plain() -> (c: Capabilities)
        ensures
            c == Capabilities::plain_spec(),
    {
        Capabilities {
            point_light: false,
            directional_light: false,
            spot_light: false,
            joint: false,
            joint2d: false,
            rigid_body: false,
            rigid_body2d: false,
            collider: false,
            collider2d: false,
            sound: false,
        }
    }

    pub open spec fn is_light(self) -> bool {
        self.point_light || self.directional_light || self.spot_light
    }

    pub open spec fn is_any_joint(self) -> bool {
        self.joint || self.joint2d
    }

    pub open spec fn is_any_rigid_body(self) -> bool {
        self.rigid_body || self.rigid_body2d
    }

    pub open spec fn is_any_collider(self) -> bool {
        self.collider || self.collider2d
    }
}

/// The scale of a local transform along the three axes. Each component is
/// the bit pattern of a single-precision number, which the editor carries
/// through without computing on it.
#[derive(Clone, Copy, Debug, PartialEq, Eq, Structural)]
pub struct Scale {
    pub x: u32,
    pub y: u32,
    pub z: u32,
}

/// The bit pattern of the number one.
pub const ONE_BITS: u32 = 0x3f80_0000;

impl Scale {
    pub open spec fn unit_spec() -> Scale {
        Scale { x: ONE_BITS, y: ONE_BITS, z: ONE_BITS }
    }

    /// The scale that leaves every axis as it is.
    pub fn unit() -> (s: Scale)
        ensures
            s == Scale::unit_spec(),
    {
        Scale { x: ONE_BITS, y: ONE_BITS, z: ONE_BITS }
    }
}

/// A scene node.
#[derive(Debug)]
pub struct Node {
    pub(crate) name: String,
    pub(crate) parent: NodeHandle,
    pub(crate) children: Vec<NodeHandle>,
    pub(crate) capabilities: Capabilities,
    pub(crate) resource: Option<u64>,
    pub(crate) scale: Scale,
}

/// The mathematical value of a node.
pub struct NodeView {
    pub name: Seq<char>,
    pub parent: NodeHandle,
    pub children: Seq<NodeHandle>,
    pub capabilities: Capabilities,
    /// The asset that the node was instantiated from, if any.
    pub resource: Option<u64>,
    pub scale: Scale,
}

impl NodeView {
    /// The node as it is before it enters a graph: without parent or children.
    pub open spec fn unlinked(self) -> NodeView {
        NodeView { parent: NodeHandle::none_spec(), children: Seq::empty(), ..self }
    }
}

impl View for Node {
    type V = NodeView;

    open(crate) spec fn view(&self) -> NodeView {
        NodeView {
            name: self.name@,
            parent: self.parent,
            children: self.children@,
            capabilities: self.capabilities,
            resource: self.resource,
            scale: self.scale,
        }
    }
}

impl Node {
    /// A node authored directly, outside any graph.
    pub fn new(name: &str, capabilities: Capabilities) -> (n: Node)
        ensures
            n@ == (NodeView {
                name: name@,
                parent: NodeHandle::none_spec(),
                children: Seq::empty(),
                capabilities,
                resource: None,
                scale: Scale::unit_spec(),
            }),
    {
        Node {
            name: name.to_owned(),
            parent: NodeHandle::none(),
            children: Vec::new(),
            capabilities,
            resource: None,
            scale: Scale::unit(),
        }
    }

    /// The same node, marked as instantiated from the asset `resource`.
    pub fn with_resource(self, resource: u64) -> (n: Node)
        ensures
            n@ == (NodeView { resource: Some(resource), ..self@ }),
    {
        let mut n = self;
        n.resource = Some(resource);
        n
    }

    /// The same node with another scale.
    pub fn with_scale(self, scale: Scale) -> (n: Node)
        ensures
            n@ == (NodeView { scale, ..self@ }),
    {
        let mut n = self;
        n.scale = scale;
        n
    }

    pub fn name(&self) -> (s: &str)
        ensures
            s@ == self@.name,
    {
        self.name.as_str()
    }

    pub fn parent(&self) -> (p: NodeHandle)
        ensures
            p == self@.parent,
    {
        self.parent
    }

    pub fn children(&self) -> (c: &Vec<NodeHandle>)
        ensures
            c@ == self@.children,
    {
        &self.children
    }

    pub fn capabilities(&self) -> (c: Capabilities)
        ensures
            c == self@.capabilities,
    {
        self.capabilities
    }

    pub fn resource(&self) -> (r: Option<u64>)
        ensures
            r == self@.resource,
    {
        self.resource
    }

    pub fn scale(&self) -> (s: Scale)
        ensures
            s == self@.scale,
    {
        self.scale
    }

    pub(crate) fn set_parent(&mut self, parent: NodeHandle)
        ensures
            final(self)@ == (NodeView { parent, ..old(self)@ }),
    {
        self.parent = parent;
    }

    pub(crate) fn push_child(&mut self, child: NodeHandle)
        ensures
            final(self)@ == (NodeView { children: old(self)@.children.push(child), ..old(self)@ }),
    {
        self.children.push(child);
    }

    pub(crate) fn remove_child(&mut self, position: usize)
        requires
            position < old(self)@.children.len(),
        ensures
            final(self)@ == (NodeView {
                children: old(self)@.children.remove(position as int),
                ..old(self)@
            }),
    {
        self.children.remove(position);
    }

    pub(crate) fn set_scale(&mut self, scale: Scale)
        ensures
            final(self)@ == (NodeView { scale, ..old(self)@ }),
    {
        self.scale = scale;
    }

    pub(crate) fn clear_links(&mut self)
        ensures
            final(self)@ == old(self)@.unlinked(),
    {
        self.parent = NodeHandle::none();
        self.children.clear();
    }
}

} // verus!
