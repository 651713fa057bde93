//! Frame evaluation and change tracking.
//!
//! Evaluation follows a drain-recompute pattern per dirty channel. The
//! inherited channels (transform, opacity) are drained in traversal order,
//! closed over each marked layer's subtree, so parents are always current
//! when children recompute. Clip and content drains report the marked slots
//! only. [`FrameChanges`] uses raw slot indices rather than handles so that
//! backends can index the store's arrays directly.

use vstd::prelude::*;

verus! {

/// The set of changes produced by a single evaluation.
///
/// Each list holds the raw slot indices of layers that changed in the
/// corresponding category, in the order the evaluation visited them.
#[derive(Clone, Debug)]
pub struct FrameChanges {
    /// Layers whose world transform was recomputed, parents first.
    pub transforms: Vec<u32>,
    /// Layers whose effective opacity was recomputed, parents first.
    pub opacities: Vec<u32>,
    /// Layers whose clip shape changed.
    pub clips: Vec<u32>,
    /// Layers whose surface content changed.
    pub content: Vec<u32>,
    /// Layers that transitioned from visible to effectively hidden.
    pub hidden: Vec<u32>,
    /// Layers that transitioned from effectively hidden to visible.
    pub unhidden: Vec<u32>,
    /// Layers added since the last evaluation.
    pub added: Vec<u32>,
    /// Layers removed since the last evaluation.
    pub removed: Vec<u32>,
    /// Whether the tree topology changed (traversal order was rebuilt).
    pub topology_changed: bool,
}

impl FrameChanges {
    /// An empty change-set.
    pub fn new() -> (r: Self)
        ensures
            r.transforms@ == Seq::<u32>::empty(),
            r.opacities@ == Seq::<u32>::empty(),
            r.clips@ == Seq::<u32>::empty(),
            r.content@ == Seq::<u32>::empty(),
            r.hidden@ == Seq::<u32>::empty(),
            r.unhidden@ == Seq::<u32>::empty(),
            r.added@ == Seq::<u32>::empty(),
            r.removed@ == Seq::<u32>::empty(),
            !r.topology_changed,
    {
        FrameChanges {
            transforms: Vec::new(),
            opacities: Vec::new(),
            clips: Vec::new(),
            content: Vec::new(),
            hidden: Vec::new(),
            unhidden: Vec::new(),
            added: Vec::new(),
            removed: Vec::new(),
            topology_changed: false,
        }
    }

    /// Clears all change lists.
    pub fn clear(&mut self)
        ensures
            final(self).transforms@ == Seq::<u32>::empty(),
            final(self).opacities@ == Seq::<u32>::empty(),
            final(self).clips@ == Seq::<u32>::empty(),
            final(self).content@ == Seq::<u32>::empty(),
            final(self).hidden@ == Seq::<u32>::empty(),
            final(self).unhidden@ == Seq::<u32>::empty(),
            final(self).added@ == Seq::<u32>::empty(),
            final(self).removed@ == Seq::<u32>::empty(),
            !final(self).topology_changed,
    {
        self.transforms.clear();
        self.opacities.clear();
        self.clips.clear();
        self.content.clear();
        self.hidden.clear();
        self.unhidden.clear();
        self.added.clear();
        self.removed.clear();
        self.topology_changed = false;
    }
}

impl Default for FrameChanges {
    /// An empty change-set.
    fn default() -> (r: Self)
        ensures
            r.transforms@ == Seq::<u32>::empty(),
            r.opacities@ == Seq::<u32>::empty(),
            r.clips@ == Seq::<u32>::empty(),
            r.content@ == Seq::<u32>::empty(),
            r.hidden@ == Seq::<u32>::empty(),
            r.unhidden@ == Seq::<u32>::empty(),
            r.added@ == Seq::<u32>::empty(),
            r.removed@ == Seq::<u32>::empty(),
            !r.topology_changed,
    {
        FrameChanges::new()
    }
}

} // verus!
