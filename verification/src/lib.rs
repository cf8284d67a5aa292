//! A frame-based sprite animation state machine.
//!
//! An [`components::Animator`] owns a set of named animation clips and the
//! per-clip playback state (current frame, timer, playing flag). Each
//! simulation tick the host runs two passes over every animator:
//!
//! * the advance pass ([`systems::update_animations`]) accumulates the tick's
//!   elapsed time into the winning animation's timer and moves its frame
//!   forward according to the clip's repeat mode, and
//! * the projection pass ([`systems::update_spritesheets`]) writes the
//!   highest-priority playing animation's frame data to the renderable
//!   sprite output.
//!
//! The host's entity iteration, asset loading and rendering are outside this
//! crate; it works on plain values only.

use vstd::prelude::*;

pub mod components;
pub mod laws;
pub mod systems;

verus! {

/// An application-defined identifier naming one animation inside an
/// [`components::Animator`]. Hosts with richer key types (an enum of
/// animation names, say) map each key to a distinct integer.
pub type AnimationKey = u64;

/// An opaque reference to a spritesheet asset. The animator never interprets
/// it; it only compares two references for equality and hands the winning
/// animation's reference to the renderable output. The host's asset system
/// assigns the values.
pub type SpritesheetId = u64;

} // verus!
