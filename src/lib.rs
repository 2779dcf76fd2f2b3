use vstd::prelude::*;

pub mod keyed;
pub mod room;
pub mod registry;
pub mod connection;
pub mod directory;

verus! {

/// Number of messages a subscriber's backlog keeps before the oldest is dropped.
pub const DEFAULT_BACKLOG: usize = 69;

} // verus!
