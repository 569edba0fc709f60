//! Network-synchronization core for a real-time multiplayer simulation:
//! a generation-safe component store issuing stable handles, a sequenced
//! unreliable channel with loss detection and latency measurement, a
//! history-bounded snapshot delta encoder, and a client-side prediction
//! engine that replays unconfirmed commands over authoritative state.

use vstd::prelude::*;

pub mod component;
pub mod entity;
pub mod math;
pub mod network;
pub mod physics;
pub mod prediction;
pub mod playercmd;

verus! {

/// Number of simulation ticks per second, shared by both peers.
pub const TICK_RATE: u64 = 128;

} // verus!
