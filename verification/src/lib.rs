//! One-way differential synchronisation of a source tree onto a target tree:
//! the decisions, the path arithmetic and the deletion order, with the file
//! system left to the caller.

pub mod path;
pub mod prune;
pub mod prune_laws;
pub mod sync;
pub mod sync_laws;
