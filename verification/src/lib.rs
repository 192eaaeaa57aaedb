//! Aggregation engine for a remote music library.
//!
//! The crate collects every track reachable from a user's playlists and
//! liked-songs library into one deduplicated set (counting each track's
//! duration once, at its first sighting), resolves a destination playlist
//! by name with an overwrite-or-create decision loop, and plans the chunked
//! batch writes that push the set back to the remote service, tolerating
//! partial failures.  All remote calls and terminal I/O live outside this
//! crate; the functions here work on plain values and carry proofs.

pub mod boxy;
pub mod collect;
pub mod color;
pub mod pages;
pub mod render;
pub mod resolve;
pub mod runtime;
pub mod sync;
