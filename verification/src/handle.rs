//! Generation-checked identifiers of arena-resident scene nodes.
//!
//! A handle is a slot index paired with the generation the slot had when the
//! handle was issued. It never owns the node it names; whether it still names
//! one is decided by the arena that issued it.

use vstd::prelude::*;
use vstd::std_specs::convert::FromSpecImpl;

verus! {

/// The generation that no occupied slot ever carries.
pub const INVALID_GENERATION: u32 = 0;

/// A handle to a scene node.
#[derive(Clone, Copy, Debug, PartialEq, Eq, Structural, Hash)]
pub struct NodeHandle {
    pub index: u32,
    pub generation: u32,
}

/// A handle whose node kind has been forgotten, as exchanged with
/// the hierarchy view.
#[derive(Clone, Copy, Debug, PartialEq, Eq, Structural, Hash)]
pub struct ErasedHandle {
    pub index: u32,
    pub generation: u32,
}

impl NodeHandle {
    /// The null handle.
    pub open spec fn none_spec() -> NodeHandle {
        NodeHandle { index: 0, generation: INVALID_GENERATION }
    }

    pub open spec fn is_none_spec(self) -> bool {
        self.index == 0 && self.generation == INVALID_GENERATION
    }

    pub open spec fn is_some_spec(self) -> bool {
        !self.is_none_spec()
    }

    /// The erased handle with the same index and generation.
    pub open spec fn erased(self) -> ErasedHandle {
        ErasedHandle { index: self.index, generation: self.generation }
    }

    pub fn new(index: u32, generation: u32) -> (h: NodeHandle)
        ensures
            h == (NodeHandle { index, generation }),
    {
        NodeHandle { index, generation }
    }

    pub fn none() -> (h: NodeHandle)
        ensures
            h == NodeHandle::none_spec(),
    {
        NodeHandle { index: 0, generation: INVALID_GENERATION }
    }

    #[verifier::when_used_as_spec(is_none_spec)]
    pub fn is_none(self) -> (b: bool)
        ensures
            b == self.is_none_spec(),
    {
        self.index == 0 && self.generation == INVALID_GENERATION
    }

    #[verifier::when_used_as_spec(is_some_spec)]
    pub fn is_some(self) -> (b: bool)
        ensures
            b == self.is_some_spec(),
    {
        !self.is_none()
    }

    pub fn index(self) -> (i: u32)
        ensures
            i == self.index,
    {
        self.index
    }

    pub fn generation(self) -> (g: u32)
        ensures
            g == self.generation,
    {
        self.generation
    }
}

impl ErasedHandle {
    /// The null handle.
    pub open spec fn none_spec() -> ErasedHandle {
        ErasedHandle { index: 0, generation: INVALID_GENERATION }
    }

    pub open spec fn is_some_spec(self) -> bool {
        self.generation != INVALID_GENERATION
    }

    pub open spec fn is_none_spec(self) -> bool {
        !self.is_some_spec()
    }

    /// The typed handle with the same index and generation.
    pub open spec fn typed(self) -> NodeHandle {
        NodeHandle { index: self.index, generation: self.generation }
    }

    pub fn new(index: u32, generation: u32) -> (h: ErasedHandle)
        ensures
            h == (ErasedHandle { index, generation }),
    {
        ErasedHandle { index, generation }
    }

    pub fn none() -> (h: ErasedHandle)
        ensures
            h == ErasedHandle::none_spec(),
    {
        ErasedHandle { index: 0, generation: INVALID_GENERATION }
    }

    #[verifier::when_used_as_spec(is_some_spec)]
    pub fn is_some(self) -> (b: bool)
        ensures
            b == self.is_some_spec(),
    {
        self.generation != INVALID_GENERATION
    }

    #[verifier::when_used_as_spec(is_none_spec)]
    pub fn is_none(self) -> (b: bool)
        ensures
            b == self.is_none_spec(),
    {
        !self.is_some()
    }

    pub fn index(self) -> (i: u32)
        ensures
            i == self.index,
    {
        self.index
    }

    pub fn generation(self) -> (g: u32)
        ensures
            g == self.generation,
    {
        self.generation
    }
}

impl Default for NodeHandle {
    fn default() -> (h: NodeHandle)
        ensures
            h == NodeHandle::none_spec(),
    {
        NodeHandle::none()
    }
}

impl Default for ErasedHandle {
    fn default() -> (h: ErasedHandle)
        ensures
            h == ErasedHandle::none_spec(),
    {
        ErasedHandle::none()
    }
}

impl From<NodeHandle> for ErasedHandle {
    fn from(h: NodeHandle) -> (e: ErasedHandle) {
        ErasedHandle { index: h.index, generation: h.generation }
    }
}

impl FromSpecImpl<NodeHandle> for ErasedHandle {
    open spec fn obeys_from_spec() -> bool {
        true
    }

    open spec fn from_spec(h: NodeHandle) -> ErasedHandle {
        h.erased()
    }
}

impl From<ErasedHandle> for NodeHandle {
    fn from(e: ErasedHandle) -> (h: NodeHandle) {
        NodeHandle { index: e.index, generation: e.generation }
    }
}

impl FromSpecImpl<ErasedHandle> for NodeHandle {
    open spec fn obeys_from_spec() -> bool {
        true
    }

    open spec fn from_spec(e: ErasedHandle) -> NodeHandle {
        e.typed()
    }
}

/// Erasing a handle and typing it again gives the handle back, and the
/// other way round.
pub proof fn lemma_erase_round_trip(h: NodeHandle, e: ErasedHandle)
    ensures
        h.erased().typed() == h,
        e.typed().erased() == e,
{
}

} // verus!
