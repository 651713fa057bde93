//! Render-plan identities shared with backends.
//!
//! The geometric render plan itself (draw items with transforms and
//! opacities) lives with the backends; the core owns the opaque resource
//! identity and the blend-mode vocabulary.

use vstd::prelude::*;

verus! {

/// An opaque handle to a backend-managed resource (texture, buffer, etc.).
///
/// Resource keys are assigned by backends and passed through without
/// interpretation by the core.
#[derive(Clone, Copy, PartialEq, Eq, Structural, PartialOrd, Ord, Hash, Debug)]
pub struct ResourceKey(pub u64);

/// Blend mode for compositing a render item.
#[derive(Clone, Copy, PartialEq, Eq, Structural, Hash, Debug)]
pub enum BlendMode {
    /// Standard source-over alpha compositing.
    SourceOver,
    /// Multiply blend.
    Multiply,
    /// Screen blend.
    Screen,
}

impl Default for BlendMode {
    /// The default blend mode is source-over.
    fn default() -> (r: Self)
        ensures
            r is SourceOver,
    {
        BlendMode::SourceOver
    }
}

} // verus!
