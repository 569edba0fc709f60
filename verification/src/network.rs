//! Wire-level message shapes shared by client and server.

use vstd::prelude::*;

pub use crate::playercmd::PlayerCommand;
use crate::component::{NoHandleEntityComponent, RawComponentHandle};

pub mod channel;
pub mod delta;
pub mod handle_map;
pub mod protocol;

verus! {

/// A message from the client to the server.
#[derive(Clone, Copy, PartialEq, Eq, Structural, Debug)]
pub enum ClientToServer {
    /// Ask to join; repeated until the server answers with a signon.
    Connect,
    /// The player's input for one simulation tick.
    Playercmd(PlayerCommand),
    /// Leave the game.
    Disconnect,
}

/// A message from the server to the client.
#[derive(Debug)]
pub enum ServerToClient {
    /// The client's own entity, answered to a connect.
    Signon(SignonPacket),
    /// The changes since the client's last acknowledged state.
    Update(UpdatePacket),
}

/// The per-tick state changes sent to one client.
#[derive(Debug)]
pub struct UpdatePacket {
    pub tick: u64,
    pub entity_updates: Vec<ComponentUpdate>,
}

/// Tells a fresh client which wire handle is its own entity.
#[derive(Clone, Copy, PartialEq, Eq, Structural, Debug)]
pub struct SignonPacket {
    pub handle: RawComponentHandle,
}

/// One per-handle change of an update packet.
#[derive(Clone, Copy, PartialEq, Eq, Structural, Debug)]
pub struct ComponentUpdate {
    pub target: RawComponentHandle,
    pub data: ComponentUpdateType,
}

/// What happened to the component a wire handle names.
#[derive(Clone, Copy, PartialEq, Eq, Structural, Debug)]
pub enum ComponentUpdateType {
    /// The component now has this marshalled value.
    Change(NoHandleEntityComponent),
    /// The component is gone.
    Destroy,
}

} // verus!
