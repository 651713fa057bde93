//! Backend contract for platform integrations.
//!
//! Each backend provides a tick source, a host clock, a hint computation,
//! and a presenter. The presenter applies evaluated frame changes to a
//! platform-native tree; the recommended order is removed, added,
//! transforms, opacities, hidden, unhidden, clips, content, then topology
//! reorder, reading current property values through the store's raw-index
//! accessors.

use vstd::prelude::*;

use crate::layer::evaluate::FrameChanges;
use crate::layer::store::LayerStore;

verus! {

/// Applies evaluated frame changes to a platform-native presentation tree.
pub trait Presenter {
    /// Applies the given [`FrameChanges`], reading current property values
    /// from `store` as needed.
    fn apply(&mut self, store: &LayerStore, changes: &FrameChanges);
}

} // verus!
