//! A per-process message-routing hub core: the verified logic behind a
//! client/server socket manager that fans inbound frames out to many
//! in-process handles by identifier prefix, consistent hash, or round-robin,
//! under bounded-memory and at-most-one-in-flight-send disciplines.
//!
//! - [`tnetstring`]: the length-prefixed wire framing and its map walker.
//! - [`packet`]: packet rendering for logs, identifier extraction, and the
//!   dispatch hash.
//! - [`registry`]: the four handle registries and their dispatch policies.
//! - [`arena`]: the bounded reference-counted pool behind shared messages.
//! - [`manager`]: the per-flavor event-loop state machines.
//! - [`laws`]: the routing guarantees, proved over the registry model.

pub mod arena;
pub mod laws;
pub mod manager;
pub mod packet;
pub mod registry;
pub mod tnetstring;

use vstd::prelude::*;

verus! {

/// Upper bound on the combined number of request and stream handles a
/// manager will register.
pub const HANDLES_MAX: usize = 1024;

} // verus!
