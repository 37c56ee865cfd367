//! Mirrors remote streaming-service playlists to local storage.
//!
//! The core of the crate is the reconciliation engine in [`index`]: given a
//! freshly fetched playlist manifest and the previously persisted state, it
//! computes exactly which tracks were added, removed, deleted or restricted
//! (and which of those transitions were reversed), turns the changes into an
//! ordered list of idempotent actions, and updates the persisted index.
//! The surrounding modules hold the data model, the playlist-file writer,
//! the retry combinator and the per-service fetch helpers.

pub mod config;
pub mod fetcher;
pub mod index;
pub mod m3u;
pub mod model;
pub mod nonewrap;
pub mod retry;
pub mod source;
pub mod sources;
pub mod util;
pub mod ytdl;
