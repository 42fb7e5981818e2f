//! Incremental archiving of a remote block chain into an ordered key-value store.
//!
//! The library holds the decisions of a synchronisation run: how store keys are
//! formed, how the persisted watermark is found, how a block and its
//! transactions become store entries, how writes are grouped into atomic
//! batches, and how the walk along the chain proceeds from event to event.
//! Talking to the remote node and to the store is left to the caller.

pub mod batch;
pub mod enrich;
pub mod keys;
pub mod record;
pub mod walker;
pub mod watermark;
