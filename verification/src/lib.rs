//! Timing-synchronized compositor core.
//!
//! The crate turns platform display-refresh ticks into presentable scene
//! updates while adapting to observed latency:
//!
//! - [`time`] — monotonic host time, durations, and rational timebases.
//! - [`timing`] — the capability-graded tick / hints / plan / feedback flow.
//! - [`scheduler`] — frame planning with adaptive pipeline depth and an
//!   integer-smoothed build-cost safety margin.
//! - [`layer`] — the struct-of-arrays layer tree store, its dirty channels,
//!   and the incremental per-frame evaluation.
//! - [`transform`] — the word-encoded column-major transform carried
//!   through the store.
//! - [`trace`] and [`recorder`] — frame-loop instrumentation and the
//!   append-only binary recording with its verified round-trip decoder.
//! - [`apple`], [`web`], and [`wayland`] — the portable parts of the
//!   platform backends: hint computation, timebases, bounded queues, and
//!   the host clock.
//! - [`backend`], [`render`], [`output`], [`harness`] — the contracts and
//!   identities shared with platform presenters and demo harnesses.
//!
//! Every function in this crate carries a contract and is verified against
//! it; the scalar arithmetic that backends interpret as floating point is
//! carried as opaque words and combined through caller-supplied callbacks.

pub mod apple;
pub mod backend;
pub mod harness;
pub mod layer;
pub mod output;
pub mod recorder;
pub mod render;
pub mod scheduler;
pub mod time;
pub mod timing;
pub mod trace;
pub mod trace_event;
pub mod transform;
pub mod wayland;
pub mod web;
