//! Clip shape types for layer clipping.
//!
//! Coordinates are opaque 64-bit words encoding real values in the
//! platform's interchange format; the core stores and reports them without
//! computing on them, and backends interpret them.

use vstd::prelude::*;

verus! {

/// A shape used to clip a layer's content and descendants.
#[derive(Clone, Copy, PartialEq, Eq, Structural, Hash, Debug)]
pub enum ClipShape {
    /// An axis-aligned rectangle, as min/max coordinate words.
    Rect {
        /// Left edge word.
        x0: u64,
        /// Top edge word.
        y0: u64,
        /// Right edge word.
        x1: u64,
        /// Bottom edge word.
        y1: u64,
    },
    /// A rectangle with rounded corners.
    RoundedRect {
        /// Left edge word.
        x0: u64,
        /// Top edge word.
        y0: u64,
        /// Right edge word.
        x1: u64,
        /// Bottom edge word.
        y1: u64,
        /// Top-left corner radius word.
        top_left: u64,
        /// Top-right corner radius word.
        top_right: u64,
        /// Bottom-right corner radius word.
        bottom_right: u64,
        /// Bottom-left corner radius word.
        bottom_left: u64,
    },
}

} // verus!
