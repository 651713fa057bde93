//! Display output identification.
//!
//! [`OutputId`] is a lightweight handle identifying a specific display or
//! output surface. Backends assign these; the core passes them through
//! without interpreting the value.

use vstd::prelude::*;

verus! {

/// Identifies a specific display output or surface.
#[derive(Clone, Copy, PartialEq, Eq, Structural, PartialOrd, Ord, Hash, Default, Debug)]
pub struct OutputId(pub u32);

} // verus!
