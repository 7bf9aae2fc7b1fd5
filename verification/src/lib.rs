//! Core logic of a small multiplayer world-sharing game: the identifier
//! registry that maps namespaced content identifiers to compact integer
//! codes, the versioned binary save codec, the wire protocol message set,
//! and the client and server connection state machines.

pub mod assoc;
pub mod asset;
pub mod client;
pub mod codec;
pub mod identifier;
pub mod networking;
pub mod player;
pub mod raw_id;
pub mod save;
pub mod server;
pub mod tile;
pub mod util;
pub mod world;

use vstd::prelude::*;

verus! {

/// The game's own content namespace.
pub const NAMESPACE: &'static str = "botanica";

} // verus!
