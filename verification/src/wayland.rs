//! Wayland backend building blocks that do not touch the protocol itself:
//! bounded event queues, present-hint computation, and the host clock.

pub mod hints;
pub mod presentation;
pub mod queue;
pub mod tick;
pub mod time;
