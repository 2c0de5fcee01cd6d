//! The relay's shared state, as one value.
//!
//! Everything the request handlers and the reader task share: the link
//! supervisor, the broadcast bus and the palette cache. The surrounding
//! process guards it with its own exclusive-access region; the pieces
//! themselves carry their invariants from here.

use vstd::prelude::*;

use crate::bus::Bus;
use crate::link::LinkSupervisor;
use crate::palette::PaletteRegistry;

verus! {

/// How many unread messages one subscriber may queue before it starts
/// losing the oldest.
pub const BUS_CAPACITY: usize = 100;

/// The shared state of the relay.
pub struct AppState {
    /// Keeper of the single device link.
    pub supervisor: LinkSupervisor,
    /// Fan-out of decoded messages to the push-channel sessions.
    pub bus: Bus,
    /// In-memory cache of the stored palettes.
    pub palettes: PaletteRegistry,
}

impl AppState {
    /// A fresh relay: no link, no subscribers, no cached palettes.
    pub fn new() -> (s: AppState)
        ensures
            s.supervisor.wf(),
            s.supervisor.active is None,
            s.bus.wf(),
            s.bus.subs@.len() == 0,
            s.bus.capacity == BUS_CAPACITY,
            !s.bus.closed,
            s.palettes.wf(),
            s.palettes.items@.len() == 0,
    {
        AppState {
            supervisor: LinkSupervisor::new(),
            bus: Bus::new(BUS_CAPACITY),
            palettes: PaletteRegistry::new(),
        }
    }
}

} // verus!
