//! Core of a terminal control panel for a live audio-routing server: the
//! ordered selection registry that holds each category of server-side entity,
//! the entity snapshots themselves, and the decision logic of the three
//! execution contexts (notification handler, keyboard reader, render poll)
//! that share them behind one lock. Everything here is verified; connecting
//! to the server, reading keys and painting frames live in the surrounding
//! program, which calls in with plain values and carries the returned
//! commands back out.

pub mod entries;
pub mod selecting_map;
pub mod state;
pub mod views;

use vstd::prelude::*;

verus! {

/// One percent of the nominal volume, the small adjustment step.
pub const VOLUME_STEP_SMALL: u32 = 655;

/// Ten percent of the nominal volume, the large adjustment step.
pub const VOLUME_STEP_BIG: u32 = 6554;

} // verus!
