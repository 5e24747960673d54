//! Cross-thread resource coordination and tick-scheduling core for an
//! entity/component simulation sandbox.
//!
//! A simulation thread mutates a [`world::World`] once per tick, driven at a
//! fixed rate by the spin-wait driver in [`tick`].  Resources owned by other
//! threads (a windowing subsystem, a graphics device) are reached only through
//! the non-blocking command/response pairs in [`channel`], so the owning
//! threads are never blocked on the simulation thread and no resource state is
//! ever shared mutably across threads.  Each tick runs a fixed [`schedule`]
//! of stages whose operations have declared read and write sets, separated by
//! barriers.

pub mod channel;
pub mod model;
pub mod resource;
pub mod schedule;
pub mod sim;
pub mod tick;
pub mod transport;
pub mod widget;
pub mod world;

use vstd::prelude::*;

verus! {

/// The error signalled when a command is sent on a `Requester` whose paired
/// `Responder` no longer exists.  Recoverable: the caller decides whether to
/// drop the request or surface the failure upward.
#[derive(Clone, Copy, Debug, PartialEq, Eq, Structural)]
pub struct ChannelClosed;

} // verus!
