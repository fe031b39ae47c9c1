//! The rules of the scene that every node is held to.
//!
//! A collider does nothing unless its parent is a rigid body of the same
//! dimension, and a rigid body does nothing without a collider of its
//! dimension among its children. The rules are tried in this order, and the
//! first that a node breaks is reported.

use crate::graph::Graph;
use crate::handle::NodeHandle;
use crate::hierarchy::GraphView;
use vstd::prelude::*;

verus! {

/// A rule that a node breaks.
#[derive(Clone, Copy, Debug, PartialEq, Eq, Structural)]
pub enum Defect {
    ColliderOutsideBody,
    FlatColliderOutsideBody,
    BodyWithoutCollider,
    FlatBodyWithoutCollider,
}

impl Defect {
    pub open spec fn message_spec(self) -> Seq<char> {
        match self {
            Defect::ColliderOutsideBody => "3D Collider must be a direct child of a 3D Rigid Body node, otherwise it will not have any effect!"@,
            Defect::FlatColliderOutsideBody => "2D Collider must be a direct child of a 2D Rigid Body node, otherwise it will not have any effect!"@,
            Defect::BodyWithoutCollider => "The 3D rigid body must have at least one 3D collider as a direct child node to work correctly!"@,
            Defect::FlatBodyWithoutCollider => "The 2D rigid body must have at least one 2D collider as a direct child node to work correctly!"@,
        }
    }

    /// The defect in words, for display.
    pub fn message(self) -> (text: String)
        ensures
            text@ == self.message_spec(),
    {
        match self {
            Defect::ColliderOutsideBody => "3D Collider must be a direct child of a 3D Rigid Body node, otherwise it will not have any effect!".to_owned(),
            Defect::FlatColliderOutsideBody => "2D Collider must be a direct child of a 2D Rigid Body node, otherwise it will not have any effect!".to_owned(),
            Defect::BodyWithoutCollider => "The 3D rigid body must have at least one 3D collider as a direct child node to work correctly!".to_owned(),
            Defect::FlatBodyWithoutCollider => "The 2D rigid body must have at least one 2D collider as a direct child node to work correctly!".to_owned(),
        }
    }
}

impl GraphView {
    /// The live node `h` is a rigid body of the given dimension.
    pub open spec fn is_body(self, h: NodeHandle, flat: bool) -> bool {
        self.live(h) && if flat {
            self.node(h).capabilities.rigid_body2d
        } else {
            self.node(h).capabilities.rigid_body
        }
    }

    /// The live node `h` is a collider of the given dimension.
    pub open spec fn is_collider(self, h: NodeHandle, flat: bool) -> bool {
        self.live(h) && if flat {
            self.node(h).capabilities.collider2d
        } else {
            self.node(h).capabilities.collider
        }
    }

    /// One of the first `n` children of `h` is a collider of the given
    /// dimension.
    pub open spec fn has_collider_among(self, h: NodeHandle, flat: bool, n: int) -> bool {
        exists|k: int|
            0 <= k < n && k < self.children_of(h).len() && self.is_collider(
                #[trigger] self.children_of(h)[k],
                flat,
            )
    }

    /// The first rule that the node `h` breaks, if it breaks one. A handle
    /// that is not live breaks none.
    pub open spec fn defect_of(self, h: NodeHandle) -> Option<Defect> {
        if !self.live(h) {
            None
        } else if self.is_collider(h, false) && !self.is_body(self.parent_of(h), false) {
            Some(Defect::ColliderOutsideBody)
        } else if self.is_collider(h, true) && !self.is_body(self.parent_of(h), true) {
            Some(Defect::FlatColliderOutsideBody)
        } else if self.is_body(h, false) && !self.has_collider_among(
            h,
            false,
            self.children_of(h).len() as int,
        ) {
            Some(Defect::BodyWithoutCollider)
        } else if self.is_body(h, true) && !self.has_collider_among(
            h,
            true,
            self.children_of(h).len() as int,
        ) {
            Some(Defect::FlatBodyWithoutCollider)
        } else {
            None
        }
    }
}

impl Graph {
    fn is_body(&self, h: NodeHandle, flat: bool) -> (b: bool)
        ensures
            b == self@.is_body(h, flat),
    {
        match self.try_get(h) {
            Some(node) => if flat {
                node.capabilities().rigid_body2d
            } else {
                node.capabilities().rigid_body
            },
            None => false,
        }
    }

    fn is_collider(&self, h: NodeHandle, flat: bool) -> (b: bool)
        ensures
            b == self@.is_collider(h, flat),
    {
        match self.try_get(h) {
            Some(node) => if flat {
                node.capabilities().collider2d
            } else {
                node.capabilities().collider
            },
            None => false,
        }
    }

    fn has_collider_child(&self, h: NodeHandle, flat: bool) -> (b: bool)
        requires
            self@.live(h),
        ensures
            b == self@.has_collider_among(h, flat, self@.children_of(h).len() as int),
    {
        match self.try_get(h) {
            Some(node) => {
                let children = node.children();
                let mut i: usize = 0;
                while i < children.len()
                    invariant
                        i <= children.len(),
                        children@ == self@.children_of(h),
                        !self@.has_collider_among(h, flat, i as int),
                    decreases children.len() - i,
                {
                    if self.is_collider(children[i], flat) {
                        return true;
                    }
                    i += 1;
                }
                false
            },
            None => false,
        }
    }

    /// The first rule of the scene that the node `h` breaks, if any.
    pub fn defect_of(&self, h: NodeHandle) -> (defect: Option<Defect>)
        ensures
            defect == self@.defect_of(h),
    {
        match self.try_get(h) {
            None => None,
            Some(node) => {
                let parent = node.parent();
                if self.is_collider(h, false) && !self.is_body(parent, false) {
                    Some(Defect::ColliderOutsideBody)
                } else if self.is_collider(h, true) && !self.is_body(parent, true) {
                    Some(Defect::FlatColliderOutsideBody)
                } else if self.is_body(h, false) && !self.has_collider_child(h, false) {
                    Some(Defect::BodyWithoutCollider)
                } else if self.is_body(h, true) && !self.has_collider_child(h, true) {
                    Some(Defect::FlatBodyWithoutCollider)
                } else {
                    None
                }
            },
        }
    }
}

} // verus!
