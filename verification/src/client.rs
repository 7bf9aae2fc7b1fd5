//! The client side of the connection state machine.
//!
//! A connection walks `Disconnected → Connecting → AwaitingJoinAccept →
//! WorldSelect → LoadingWorld → InWorld`, and any state can fall back to
//! `Disconnected` with the triggering reason recorded. These functions
//! only decide; the transport layer performs each returned action and
//! hands events back in.

use vstd::prelude::*;

use crate::networking::protocol::{Channel, ClientMessage, ClientMessageView, ClientResponse,
    ClientResponseView, Packet, PacketView, ProtocolVersion, ServerMessage, ServerMessageView,
    ServerResponse, ServerResponseView, PROTOCOL_VER};
use crate::networking::{DisconnectReason, DisconnectReasonView, Ping};
use crate::player::Target;
use crate::raw_id::{RawId, RawIds};
use crate::tile::{TilePos, WorldTile};
use crate::world::{ClientGameWorld, TileEventError, TileEventErrorView, TileMap, WorldId};

verus! {

/// Where a connection stands in its lifecycle.
#[derive(Debug, Copy, Clone, PartialEq, Eq, Hash, Structural)]
pub enum ClientState {
    Disconnected,
    Connecting,
    AwaitingJoinAccept,
    WorldSelect,
    LoadingWorld,
    InWorld,
}

/// Mathematical model of a [`ClientAction`].
pub enum ClientActionView {
    Send(Channel, PacketView),
    Disconnect,
    DeliverChat(crate::networking::protocol::ChatMessageBundleView),
    SurfaceDeny(crate::networking::protocol::WorldDenyReasonView),
}

/// What the surrounding loop must do after a step: send a packet on a
/// channel, close the transport, hand a chat message to the UI, or
/// surface a world-entry denial.
#[derive(Debug)]
pub enum ClientAction {
    Send(Channel, Packet),
    Disconnect,
    DeliverChat(crate::networking::protocol::ChatMessageBundle),
    SurfaceDeny(crate::networking::protocol::WorldDenyReason),
}

impl View for ClientAction {
    type V = ClientActionView;

    open spec fn view(&self) -> ClientActionView {
        match self {
            ClientAction::Send(ch, p) => ClientActionView::Send(*ch, p@),
            ClientAction::Disconnect => ClientActionView::Disconnect,
            ClientAction::DeliverChat(b) => ClientActionView::DeliverChat(b@),
            ClientAction::SurfaceDeny(r) => ClientActionView::SurfaceDeny(r@),
        }
    }
}

/// The actions of a step, viewed.
pub open spec fn actions_view(v: Seq<ClientAction>) -> Seq<ClientActionView> {
    v.map(|i: int, a: ClientAction| a@)
}

/// Everything a connected client tracks besides the transport itself.
pub struct ClientConn {
    pub state: ClientState,
    /// The server's registry snapshot, adopted wholesale on connect.
    pub server_ids: Option<RawIds>,
    /// The local mirror of the world the client is in.
    pub world: Option<ClientGameWorld>,
    /// The last measured round-trip latency.
    pub last_ping: Option<Ping>,
    /// Why the connection last fell back to `Disconnected`.
    pub disconnect_reason: Option<DisconnectReason>,
}

/// What the polling loop observed during the connect phase.
#[derive(Debug)]
pub enum ConnectingEvent {
    /// The transport reports the session established.
    Connected,
    /// The connect-phase timer expired (see [`timed_out`]).
    TimedOut,
    /// The transport layer failed with the given message.
    TransportError(String),
    /// The client layer failed with the given message.
    ClientError(String),
    /// A packet arrived on the session-control channel.
    Received(Packet),
}

/// The connect-phase timer: the client never waits on the server
/// indefinitely.
pub fn timed_out(elapsed_ms: u64, timeout_ms: u64) -> (r: bool)
    ensures
        r == (elapsed_ms >= timeout_ms),
{
    elapsed_ms >= timeout_ms
}

impl ClientConn {
    /// A fresh connection, about to open its transport session.
    pub fn connect() -> (r: Self)
        ensures
            r.state == ClientState::Connecting,
            r.server_ids is None,
            r.world is None,
            r.last_ping is None,
            r.disconnect_reason is None,
    {
        ClientConn {
            state: ClientState::Connecting,
            server_ids: None,
            world: None,
            last_ping: None,
            disconnect_reason: None,
        }
    }

    /// One step of the connect phase. On the transport's first
    /// "connected" signal the client sends its join request, exactly
    /// once: the signal is ignored after the request is out, however
    /// often the transport repeats it. A timeout or failure falls back
    /// to `Disconnected` with the reason recorded; the server's verdict
    /// either advances to `WorldSelect` or disconnects with exactly the
    /// reason the server supplied.
    pub fn handle_connecting_event(&mut self, event: ConnectingEvent) -> (r: Vec<ClientAction>)
        requires
            old(self).state == ClientState::Connecting || old(self).state
                == ClientState::AwaitingJoinAccept,
        ensures
            ({
                let acts = actions_view(r@);
                match event {
                    ConnectingEvent::Connected => if old(self).state == ClientState::Connecting {
                        final(self).state == ClientState::AwaitingJoinAccept && final(self).server_ids == old(self).server_ids && acts =~= seq![
                            ClientActionView::Send(
                                Channel::ReliableOrdered,
                                PacketView::ClientMessage(
                                    ClientMessageView::JoinRequest {
                                        protocol_ver: ProtocolVersion(PROTOCOL_VER),
                                    },
                                ),
                            ),
                        ]
                    } else {
                        // The join request is already out: nothing more.
                        *final(self) == *old(self) && acts =~= Seq::<ClientActionView>::empty()
                    },
                    ConnectingEvent::TimedOut => final(self).state == ClientState::Disconnected
                        && (final(self).disconnect_reason matches Some(dr)
                        && dr@ is Transport) && acts =~= seq![ClientActionView::Disconnect],
                    ConnectingEvent::TransportError(m) => final(self).state
                        == ClientState::Disconnected && (final(self).disconnect_reason matches Some(
                        dr,
                    ) && dr@ == DisconnectReasonView::Transport(m@)) && acts =~= seq![
                        ClientActionView::Disconnect,
                    ],
                    ConnectingEvent::ClientError(m) => final(self).state
                        == ClientState::Disconnected && (final(self).disconnect_reason matches Some(
                        dr,
                    ) && dr@ == DisconnectReasonView::Client(m@)) && acts =~= seq![
                        ClientActionView::Disconnect,
                    ],
                    ConnectingEvent::Received(p) => match p@ {
                        PacketView::ServerResponse(ServerResponseView::JoinAccept) => final(self).state == ClientState::WorldSelect && final(self).disconnect_reason == old(self).disconnect_reason && acts =~= Seq::<ClientActionView>::empty(),
                        PacketView::ServerResponse(ServerResponseView::JoinDeny(reason)) => final(self).state == ClientState::Disconnected && (final(self).disconnect_reason matches Some(dr) && dr@
                            == DisconnectReasonView::Disconnected(reason)) && acts =~= seq![
                            ClientActionView::Disconnect,
                        ],
                        PacketView::ServerMessage(ServerMessageView::Disconnect(reason)) => final(self).state == ClientState::Disconnected && (final(self).disconnect_reason matches Some(dr) && dr@
                            == DisconnectReasonView::Disconnected(reason)) && acts =~= seq![
                            ClientActionView::Disconnect,
                        ],
                        PacketView::ServerMessage(ServerMessageView::RawTileIds(ids)) => final(self).state == old(self).state && (final(self).server_ids matches Some(s)
                            && s@ == ids) && acts =~= Seq::<ClientActionView>::empty(),
                        _ => *final(self) == *old(self) && acts =~= Seq::<ClientActionView>::empty(),
                    },
                }
            }),
    {
        let mut actions: Vec<ClientAction> = Vec::new();
        match event {
            ConnectingEvent::Connected => {
                if matches!(self.state, ClientState::Connecting) {
                    self.state = ClientState::AwaitingJoinAccept;
                    actions.push(
                        ClientAction::Send(
                            Channel::ReliableOrdered,
                            Packet::ClientMessage(
                                ClientMessage::JoinRequest {
                                    protocol_ver: ProtocolVersion(PROTOCOL_VER),
                                },
                            ),
                        ),
                    );
                }
            },
            ConnectingEvent::TimedOut => {
                self.state = ClientState::Disconnected;
                self.disconnect_reason = Some(
                    DisconnectReason::Transport(connection_timed_out_text()),
                );
                actions.push(ClientAction::Disconnect);
            },
            ConnectingEvent::TransportError(m) => {
                self.state = ClientState::Disconnected;
                self.disconnect_reason = Some(DisconnectReason::Transport(m));
                actions.push(ClientAction::Disconnect);
            },
            ConnectingEvent::ClientError(m) => {
                self.state = ClientState::Disconnected;
                self.disconnect_reason = Some(DisconnectReason::Client(m));
                actions.push(ClientAction::Disconnect);
            },
            ConnectingEvent::Received(p) => match p {
                Packet::ServerResponse(ServerResponse::JoinAccept) => {
                    self.state = ClientState::WorldSelect;
                },
                Packet::ServerResponse(ServerResponse::JoinDeny(reason)) => {
                    self.state = ClientState::Disconnected;
                    self.disconnect_reason = Some(DisconnectReason::Disconnected(reason));
                    actions.push(ClientAction::Disconnect);
                },
                Packet::ServerMessage(ServerMessage::Disconnect(reason)) => {
                    self.state = ClientState::Disconnected;
                    self.disconnect_reason = Some(DisconnectReason::Disconnected(reason));
                    actions.push(ClientAction::Disconnect);
                },
                Packet::ServerMessage(ServerMessage::RawTileIds(ids)) => {
                    self.server_ids = Some(ids);
                },
                _ => {},
            },
        }
        actions
    }

    /// Asks to enter the named world, from the world-select screen.
    pub fn request_enter_world(&self, name: String) -> (r: Vec<ClientAction>)
        requires
            self.state == ClientState::WorldSelect,
        ensures
            actions_view(r@) =~= seq![
                ClientActionView::Send(
                    Channel::ReliableOrdered,
                    PacketView::ClientMessage(ClientMessageView::EnterWorldRequest(name@)),
                ),
            ],
    {
        let mut actions: Vec<ClientAction> = Vec::new();
        actions.push(
            ClientAction::Send(
                Channel::ReliableOrdered,
                Packet::ClientMessage(ClientMessage::EnterWorldRequest(name)),
            ),
        );
        actions
    }

    /// Sends a chat message to the given target.
    pub fn send_chat(&self, target: Target, message: String) -> (r: Vec<ClientAction>)
        ensures
            actions_view(r@) =~= seq![
                ClientActionView::Send(
                    Channel::ReliableOrdered,
                    PacketView::ClientMessage(ClientMessageView::ChatMessage(target@, message@)),
                ),
            ],
    {
        let mut actions: Vec<ClientAction> = Vec::new();
        actions.push(
            ClientAction::Send(
                Channel::ReliableOrdered,
                Packet::ClientMessage(ClientMessage::ChatMessage(target, message)),
            ),
        );
        actions
    }

    /// Applies one in-session push message from the server: a ping is
    /// acknowledged at once, chat goes to the UI, a server-sent
    /// disconnect forces `Disconnected`, and a world snapshot replaces
    /// the local tile mirror wholesale — or is rejected whole when any
    /// of its raw ids is unknown to the synchronized registry.
    pub fn handle_server_message(&mut self, message: ServerMessage) -> (r: Result<
        Vec<ClientAction>,
        TileEventError,
    >)
        requires
            old(self).world matches Some(w) ==> w.tiles.wf(),
        ensures
            ({
                match message@ {
                    ServerMessageView::Ping { timestamp } => r matches Ok(acts) && *final(self)
                        == *old(self) && actions_view(acts@) =~= seq![
                        ClientActionView::Send(
                            Channel::ReliableUnordered,
                            PacketView::ClientResponse(ClientResponseView::PingAck { timestamp }),
                        ),
                    ],
                    ServerMessageView::ChatMessage(bundle) => r matches Ok(acts) && *final(self)
                        == *old(self) && actions_view(acts@) =~= seq![
                        ClientActionView::DeliverChat(bundle),
                    ],
                    ServerMessageView::Disconnect(reason) => r matches Ok(acts) && final(self).state == ClientState::Disconnected && (final(self).disconnect_reason matches Some(dr) && dr@
                        == DisconnectReasonView::Disconnected(reason)) && actions_view(acts@)
                        =~= seq![ClientActionView::Disconnect],
                    ServerMessageView::WorldTiles(tiles) => ({
                        let bad = has_invalid_tile(tiles, world_ids_len_raw(old(self).server_ids));
                        &&& (r is Err <==> bad)
                        &&& r is Err ==> *final(self) == *old(self)
                        &&& r matches Err(err) ==> (err@ matches TileEventErrorView::InvalidRawId(
                            raw,
                            p,
                        ) && first_invalid_tile(
                            tiles,
                            world_ids_len_raw(old(self).server_ids),
                            p,
                            raw,
                        ))
                        &&& r matches Ok(acts) ==> actions_view(acts@) =~= Seq::<
                            ClientActionView,
                        >::empty() && (final(self).world matches Some(w) && w.tiles@ == tiles)
                            && (old(self).state == ClientState::LoadingWorld ==> final(self).state
                            == ClientState::InWorld) && (old(self).state != ClientState::LoadingWorld
                            ==> final(self).state == old(self).state)
                    }),
                    _ => r matches Ok(acts) && *final(self) == *old(self) && actions_view(acts@)
                        =~= Seq::<ClientActionView>::empty(),
                }
            }),
    {
        let mut actions: Vec<ClientAction> = Vec::new();
        match message {
            ServerMessage::Ping { timestamp } => {
                actions.push(
                    ClientAction::Send(
                        Channel::ReliableUnordered,
                        Packet::ClientResponse(ClientResponse::PingAck { timestamp }),
                    ),
                );
                Ok(actions)
            },
            ServerMessage::ChatMessage(bundle) => {
                actions.push(ClientAction::DeliverChat(bundle));
                Ok(actions)
            },
            ServerMessage::Disconnect(reason) => {
                self.state = ClientState::Disconnected;
                self.disconnect_reason = Some(DisconnectReason::Disconnected(reason));
                actions.push(ClientAction::Disconnect);
                Ok(actions)
            },
            ServerMessage::WorldTiles(tiles) => {
                let n_ids: usize = match &self.server_ids {
                    Some(ids) => ids.len(),
                    None => 0,
                };
                // Validate the whole snapshot before touching the mirror.
                match find_invalid_tile(&tiles, n_ids) {
                    Some((pos, tile)) => Err(TileEventError::InvalidRawId(tile.0, pos)),
                    None => {
                        let id = match &self.world {
                            Some(w) => w.id.clone(),
                            None => WorldId(String::new()),
                        };
                        self.world = Some(ClientGameWorld { id, tiles });
                        if matches!(self.state, ClientState::LoadingWorld) {
                            self.state = ClientState::InWorld;
                        }
                        Ok(actions)
                    },
                }
            },
            _ => Ok(actions),
        }
    }

    /// Applies one reply from the server: a ping acknowledgement fixes
    /// the measured latency; world-entry acceptance adopts the world id
    /// and moves to `LoadingWorld`; a denial stays in `WorldSelect` and
    /// surfaces the reason.
    pub fn handle_server_response(&mut self, response: ServerResponse, now_ms: u128) -> (r: Vec<
        ClientAction,
    >)
        ensures
            ({
                let acts = actions_view(r@);
                match response@ {
                    ServerResponseView::PingAck { timestamp } => final(self).state == old(self).state && (final(self).last_ping matches Some(p) && p.0 == (if now_ms
                        >= timestamp {
                        now_ms - timestamp
                    } else {
                        0
                    })) && acts =~= Seq::<ClientActionView>::empty(),
                    ServerResponseView::EnterWorldAccept(world_id) => final(self).state
                        == ClientState::LoadingWorld && (final(self).world matches Some(w)
                        && w.id@ == world_id && w.tiles@ == Seq::<(TilePos, WorldTile)>::empty())
                        && acts =~= Seq::<ClientActionView>::empty(),
                    ServerResponseView::EnterWorldDeny(reason) => final(self).state == old(self).state && final(self).world is None && acts =~= seq![
                        ClientActionView::SurfaceDeny(reason),
                    ],
                    _ => *final(self) == *old(self) && acts =~= Seq::<ClientActionView>::empty(),
                }
            }),
    {
        let mut actions: Vec<ClientAction> = Vec::new();
        match response {
            ServerResponse::PingAck { timestamp } => {
                let ping: u128 = if now_ms >= timestamp {
                    now_ms - timestamp
                } else {
                    0
                };
                self.last_ping = Some(Ping(ping));
                actions
            },
            ServerResponse::EnterWorldAccept(world_id) => {
                self.world = Some(ClientGameWorld { id: world_id, tiles: TileMap::new() });
                self.state = ClientState::LoadingWorld;
                actions
            },
            ServerResponse::EnterWorldDeny(reason) => {
                self.world = None;
                actions.push(ClientAction::SurfaceDeny(reason));
                actions
            },
            _ => actions,
        }
    }
}


/// Whether some tile of a snapshot holds a raw id outside the
/// synchronized registry's range of `n_ids` assigned ids.
pub open spec fn has_invalid_tile(tiles: Seq<(TilePos, WorldTile)>, n_ids: int) -> bool {
    exists|j: int| 0 <= j < tiles.len() && !(0 <= (#[trigger] tiles[j]).1.0.0 < n_ids)
}

/// Whether `(p, raw)` names the first snapshot entry whose raw id falls
/// outside the synchronized registry's range of `n_ids` assigned ids.
pub open spec fn first_invalid_tile(
    tiles: Seq<(TilePos, WorldTile)>,
    n_ids: int,
    p: TilePos,
    raw: RawId,
) -> bool {
    exists|k: int|
        {
            &&& 0 <= k < tiles.len()
            &&& (#[trigger] tiles[k]).0 == p
            &&& tiles[k].1.0 == raw
            &&& !(0 <= raw.0 < n_ids)
            &&& forall|j: int| 0 <= j < k ==> 0 <= (#[trigger] tiles[j]).1.0.0 < n_ids
        }
}

/// The first tile of the snapshot whose raw id falls outside the
/// synchronized registry's range, if any.
fn find_invalid_tile(tiles: &TileMap, n_ids: usize) -> (r: Option<(TilePos, WorldTile)>)
    ensures
        r is Some <==> has_invalid_tile(tiles@, n_ids as int),
        r matches Some(e) ==> first_invalid_tile(tiles@, n_ids as int, e.0, e.1.0),
{
    let n = tiles.len();
    let mut k: usize = 0;
    while k < n
        invariant
            n == tiles@.len(),
            k <= n,
            forall|j: int| 0 <= j < k ==> 0 <= (#[trigger] tiles@[j]).1.0.0 < n_ids as int,
        decreases n - k,
    {
        let (pos, tile) = tiles.entry_at(k);
        if !(tile.0.0 >= 0 && (tile.0.0 as usize) < n_ids) {
            proof {
                assert(!(0 <= (tiles@[k as int]).1.0.0 < n_ids as int));
                assert(first_invalid_tile(tiles@, n_ids as int, pos, tile.0));
            }
            return Some((pos, tile));
        }
        k += 1;
    }
    None
}

/// How many raw ids a connection's synchronized registry holds; zero
/// before the server has sent its snapshot.
pub open spec fn world_ids_len_raw(ids: Option<RawIds>) -> int {
    match ids {
        Some(ids) => ids@.len() as int,
        None => 0,
    }
}

/// The transport-layer text recorded when the connect-phase timer runs
/// out.
fn connection_timed_out_text() -> (r: String)
    ensures
        r@ == "connection timed out"@,
{
    "connection timed out".to_owned()
}

} // verus!
