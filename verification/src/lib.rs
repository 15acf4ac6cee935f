//! A verified file-relocation engine.
//!
//! The engine decides which files to move, how to rename them when their
//! names collide with existing destination entries, and which progress
//! events to emit.  All filesystem access is left to the caller, which
//! feeds the engine plain observations (does a path exist, did a rename
//! succeed, what did the traversal find) and carries out the actions it
//! decides on.  Paths and names are byte strings throughout.

pub mod engine;
pub mod events;
pub mod filter;
pub mod names;
