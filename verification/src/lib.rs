//! Coordination layer for browser-backed in-world screens: a chat-stream
//! protocol engine (framing, continuation reassembly, bounded response
//! windows), a cooperative task-scheduler model, and the registry that owns
//! the resulting entities.

pub mod text;
pub mod registry;
pub mod bus;
pub mod sched;
pub mod query;
pub mod theme;
pub mod urls;

use vstd::prelude::*;

verus! {

/// Failure kinds of the coordination layer.
#[derive(Clone, Debug)]
pub enum CoordError {
    /// A bounded wait elapsed without satisfying its condition.
    Timeout,
    /// A delimiter, URL or backend pattern was not found in a message.
    ParseFailure,
    /// A name or id has no roster entry.
    Unresolved,
    /// An unknown entity id was passed to the registry.
    NotFound,
    /// Every playback backend rejected a URL; both rejection reasons are kept.
    BackendConstruction { youtube: Vec<char>, media: Vec<char> },
}

} // verus!
