//! The icon that stands for a node in the hierarchy view.
//!
//! The capabilities of a node are looked at in a fixed order and the first
//! that the node has decides: light, joint, rigid body, collider, sound
//! source. A node with none of them gets the cube.

use crate::node::Capabilities;
use vstd::prelude::*;

verus! {

#[derive(Clone, Copy, Debug, PartialEq, Eq, Structural)]
pub enum Icon {
    Light,
    Joint,
    RigidBody,
    Collider,
    SoundSource,
    Cube,
}

impl Icon {
    /// The icon of a node with the capabilities `c`.
    pub open spec fn of(c: Capabilities) -> Icon {
        if c.is_light() {
            Icon::Light
        } else if c.is_any_joint() {
            Icon::Joint
        } else if c.is_any_rigid_body() {
            Icon::RigidBody
        } else if c.is_any_collider() {
            Icon::Collider
        } else if c.sound {
            Icon::SoundSource
        } else {
            Icon::Cube
        }
    }

    pub fn classify(c: Capabilities) -> (icon: Icon)
        ensures
            icon == Icon::of(c),
    {
        if c.point_light || c.directional_light || c.spot_light {
            Icon::Light
        } else if c.joint || c.joint2d {
            Icon::Joint
        } else if c.rigid_body || c.rigid_body2d {
            Icon::RigidBody
        } else if c.collider || c.collider2d {
            Icon::Collider
        } else if c.sound {
            Icon::SoundSource
        } else {
            Icon::Cube
        }
    }

    /// The name of the image that is built in for the icon.
    pub open spec fn image_name_spec(self) -> Seq<char> {
        match self {
            Icon::Light => "light.png"@,
            Icon::Joint => "joint.png"@,
            Icon::RigidBody => "rigid_body.png"@,
            Icon::Collider => "collider.png"@,
            Icon::SoundSource => "sound_source.png"@,
            Icon::Cube => "cube.png"@,
        }
    }

    pub fn image_name(self) -> (name: &'static str)
        ensures
            name@ == self.image_name_spec(),
    {
        match self {
            Icon::Light => "light.png",
            Icon::Joint => "joint.png",
            Icon::RigidBody => "rigid_body.png",
            Icon::Collider => "collider.png",
            Icon::SoundSource => "sound_source.png",
            Icon::Cube => "cube.png",
        }
    }
}

/// An earlier capability wins over every later one: a light gets the light
/// icon whatever else it is, a joint that is no light the joint icon, and
/// so on down to the sound source.
pub proof fn lemma_icon_precedence(c: Capabilities)
    ensures
        c.is_light() ==> Icon::of(c) == Icon::Light,
        !c.is_light() && c.is_any_joint() ==> Icon::of(c) == Icon::Joint,
        !c.is_light() && !c.is_any_joint() && c.is_any_rigid_body() ==> Icon::of(c)
            == Icon::RigidBody,
        !c.is_light() && !c.is_any_joint() && !c.is_any_rigid_body() && c.is_any_collider()
            ==> Icon::of(c) == Icon::Collider,
        !c.is_light() && !c.is_any_joint() && !c.is_any_rigid_body() && !c.is_any_collider()
            && c.sound ==> Icon::of(c) == Icon::SoundSource,
        !c.is_light() && !c.is_any_joint() && !c.is_any_rigid_body() && !c.is_any_collider()
            && !c.sound ==> Icon::of(c) == Icon::Cube,
{
}

} // verus!
