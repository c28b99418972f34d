//! Debounced wallpaper switching for river outputs.
//!
//! The crate holds the event-coalescing core of a small daemon: it receives
//! a stream of (output name, focused tags) observations, resolves each to a
//! desired wallpaper path, and keeps a per-output table of pending updates
//! so that a burst of rapid changes leads to at most one applied action per
//! output once the debounce window has elapsed.
//!
//! All timing is expressed over plain millisecond timestamps handed in by
//! the caller; the surrounding binary owns the clock, the channels and the
//! processes it spawns.

pub mod applier;
pub mod config;
pub mod engine;
pub mod laws;
pub mod observation;
pub mod pending;
