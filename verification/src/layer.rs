//! Layer tree data model.
//!
//! A *layer* is a node in a compositing tree, addressed by a generational
//! [`id::LayerId`] handle. The [`store::LayerStore`] keeps every property in
//! struct-of-arrays layout, tracks dirtiness per channel, and
//! [`evaluate::FrameChanges`] describes what one evaluation changed.

pub mod clip;
pub mod evaluate;
pub mod id;
pub mod store;
