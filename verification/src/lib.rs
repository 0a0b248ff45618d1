//! Core engine of a personal time tracker.
//!
//! Tasks carry an ordered history of start/stop intervals; a registry owns the
//! tasks and keeps at most one of them active at a time; a persistence layer
//! turns the task list into a durable document and back, with debounced saves.
//! All state transitions and the store codec are verified; the clock, the id
//! generator and file I/O stay outside the proofs.

pub mod clock;
pub mod codec;
pub mod decimal;
pub mod display;
pub mod parse;
pub mod persist;
pub mod registry;
pub mod task;
