//! Layer and surface identity types.

use vstd::prelude::*;

verus! {

/// Sentinel value indicating "no layer" in index fields.
pub const INVALID: u32 = 0xFFFF_FFFF;

/// A handle to a layer in a [`LayerStore`](crate::layer::store::LayerStore).
///
/// Contains both a slot index and a generation counter so that stale
/// handles can be detected after a layer is destroyed and its slot reused.
#[derive(Clone, Copy, PartialEq, Eq, Structural, Hash, Debug)]
pub struct LayerId {
    /// Slot index into the store's arrays.
    pub idx: u32,
    /// Generation counter; must match the store's generation for the slot.
    pub generation: u32,
}

impl LayerId {
    /// Returns the raw slot index (for diagnostics only).
    pub fn index(self) -> (r: u32)
        ensures
            r == self.idx,
    {
        self.idx
    }

    /// Returns the generation counter.
    pub fn generation(self) -> (r: u32)
        ensures
            r == self.generation,
    {
        self.generation
    }
}

/// An opaque reference to a content surface.
///
/// Surfaces are created and managed externally. A layer with a surface as
/// its content is a leaf that presents that surface; none means a grouping
/// node.
#[derive(Clone, Copy, PartialEq, Eq, Structural, Hash, Debug)]
pub struct SurfaceId(pub u32);

} // verus!
