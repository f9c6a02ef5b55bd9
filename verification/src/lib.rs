//! Event correlation and debouncing for a filesystem watcher.
//!
//! Raw change notifications are noisy: one save produces several data events, and
//! one move arrives as two halves, of which the second may never come. This crate
//! absorbs that noise and hands out a small stream of index mutations.

pub mod action;
pub mod clock;
pub mod debounce;
pub mod handler;
pub mod laws;
pub mod mutation;
pub mod rename;
pub mod table;
pub mod timing;
pub mod trace;
