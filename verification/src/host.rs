//! Handles to entities that live in the host.

use vstd::prelude::*;

verus! {

/// The kind tag of the null reference.
pub const KIND_NULL: u8 = 0x00;

/// The kind tag of a tile.
pub const KIND_TURF: u8 = 0x01;

/// An opaque handle to a live host entity (a tile, an area, a type, an object
/// instance): the host's kind tag and its 32-bit number. The handle is a plain
/// value; whether it is still valid is decided by the host.
#[derive(Clone, Copy, Debug, PartialEq, Eq, Structural)]
pub struct WorldRef {
    pub kind: u8,
    pub id: u32,
}

/// The handle of the tile with number `index`.
pub open spec fn turf_ref(index: u32) -> WorldRef {
    WorldRef { kind: KIND_TURF, id: index }
}

impl WorldRef {
    /// The null reference.
    pub fn null() -> (r: WorldRef)
        ensures
            r == (WorldRef { kind: KIND_NULL, id: 0 }),
            r.spec_is_null(),
    {
        WorldRef { kind: KIND_NULL, id: 0 }
    }

    /// The handle of the tile with number `index`.
    pub fn turf(index: u32) -> (r: WorldRef)
        ensures
            r == turf_ref(index),
    {
        WorldRef { kind: KIND_TURF, id: index }
    }

    /// A reference is null when it carries the null kind, whatever its number.
    pub open spec fn spec_is_null(&self) -> bool {
        self.kind == KIND_NULL
    }

    /// Tells whether this is a null reference.
    #[verifier::when_used_as_spec(spec_is_null)]
    pub fn is_null(&self) -> (r: bool)
        ensures
            r == self.spec_is_null(),
    {
        self.kind == KIND_NULL
    }
}

} // verus!
