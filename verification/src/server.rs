//! The server side of the connection state machine.
//!
//! Each function decides what one inbound event means: which packets to
//! send on which channel, which connection to close, and how the session
//! table, world store and statistics change. The transport loop performs
//! the returned actions; nothing here touches a socket.

use vstd::prelude::*;

use crate::assoc::{assoc_map, has_key, lemma_assoc_map_absent, lemma_assoc_map_index,
    lemma_assoc_map_push, lemma_assoc_map_remove, lemma_assoc_map_update, unique_keys};
use crate::networking::protocol::{Channel, ChatMessageBundle, ChatMessageContent, ClientId,
    DisconnectReason, DisconnectReasonView, Packet, PacketView, PlayerData, PlayerDataView,
    ProtocolVersion, ServerMessage, ServerMessageView, ServerResponse, ServerResponseView,
    WorldDenyReason, WorldDenyReasonView, PROTOCOL_VER, VERSION_STRING};
use crate::networking::stats::PlayerNetStats;
use crate::networking::Username;
use crate::player::{Source, SourceView, Target, TargetView};
use crate::raw_id::{RawId, RawIds};
use crate::save::{resolve_world_load, spec_deserialize, SaveError, SaveErrorView};
use crate::util::sanitize::{sanitize_alphanumeric_dash, sanitize_alphanumeric_dash_spec};
use crate::util::{str_eq, strip_formatting, strip_formatting_spec};
use crate::world::{roster_with, roster_without, ServerGameWorld, ServerGameWorldView,
    ServerGameWorlds, WorldBanUntil, WorldId};

verus! {

/// The address a server binds and listens on.
#[derive(Debug)]
pub struct ServerAddress(pub String);

impl View for ServerAddress {
    type V = Seq<char>;

    open spec fn view(&self) -> Seq<char> {
        self.0@
    }
}

impl Default for ServerAddress {
    fn default() -> (r: Self)
        ensures
            r@ == "127.0.0.1"@,
    {
        ServerAddress("127.0.0.1".to_owned())
    }
}

/// The UDP port a server listens on.
#[derive(Debug, Copy, Clone, PartialEq, Eq, Hash, Structural)]
pub struct ServerPort(pub u16);

impl Default for ServerPort {
    fn default() -> (r: Self)
        ensures
            r == ServerPort(44738u16),
    {
        ServerPort(44738)
    }
}

/// How a server is reached and how many clients it admits.
#[derive(Debug)]
pub struct ServerConfig {
    pub address: ServerAddress,
    pub port: ServerPort,
    pub max_clients: usize,
}

impl Default for ServerConfig {
    fn default() -> (r: Self)
        ensures
            r.address@ == "127.0.0.1"@,
            r.port == ServerPort(44738u16),
            r.max_clients == 16usize,
    {
        ServerConfig { address: Default::default(), port: Default::default(), max_clients: 16 }
    }
}

/// Mathematical model of a [`PlayerSession`].
pub struct PlayerSessionView {
    pub username: Seq<char>,
    pub world: Option<Seq<char>>,
}

/// One connected player: who they are and which world they are in.
#[derive(Debug)]
pub struct PlayerSession {
    pub data: PlayerData,
    pub world: Option<WorldId>,
}

impl View for PlayerSession {
    type V = PlayerSessionView;

    open spec fn view(&self) -> PlayerSessionView {
        PlayerSessionView {
            username: self.data.username@,
            world: match &self.world {
                Some(w) => Some(w@),
                None => None,
            },
        }
    }
}

/// The server's session table, keyed by connection id.
pub struct Players {
    entries: Vec<(ClientId, PlayerSession)>,
}

impl View for Players {
    type V = Seq<(ClientId, PlayerSessionView)>;

    closed spec fn view(&self) -> Seq<(ClientId, PlayerSessionView)> {
        self.entries@.map(|i: int, e: (ClientId, PlayerSession)| (e.0, e.1@))
    }
}

impl Players {
    pub open spec fn wf(&self) -> bool {
        unique_keys(self@)
    }

    pub open spec fn as_map(&self) -> Map<ClientId, PlayerSessionView> {
        assoc_map(self@)
    }

    pub fn new() -> (r: Self)
        ensures
            r.wf(),
            r.as_map() =~= Map::<ClientId, PlayerSessionView>::empty(),
    {
        let r = Players { entries: Vec::new() };
        proof {
            assert(r@ =~= Seq::<(ClientId, PlayerSessionView)>::empty());
        }
        r
    }

    fn find(&self, client_id: ClientId) -> (r: Option<usize>)
        ensures
            r is Some <==> has_key(self@, client_id),
            r matches Some(i) ==> i < self@.len() && self@[i as int].0 == client_id,
    {
        let n = self.entries.len();
        let mut i: usize = 0;
        while i < n
            invariant
                n == self@.len(),
                i <= n,
                forall|j: int| 0 <= j < i ==> (#[trigger] self@[j]).0 != client_id,
            decreases n - i,
        {
            if self.entries[i].0 == client_id {
                proof {
                    assert(self@[i as int].0 == client_id);
                }
                return Some(i);
            }
            i += 1;
        }
        None
    }

    /// The session of that connection, if one is open.
    pub fn get(&self, client_id: ClientId) -> (r: Option<&PlayerSession>)
        requires
            self.wf(),
        ensures
            r is Some <==> self.as_map().contains_key(client_id),
            r matches Some(s) ==> self.as_map()[client_id] == s@,
    {
        match self.find(client_id) {
            Some(i) => {
                proof {
                    lemma_assoc_map_index(self@, i as int);
                }
                Some(&self.entries[i].1)
            },
            None => {
                proof {
                    lemma_assoc_map_absent(self@, client_id);
                }
                None
            },
        }
    }

    /// Opens (or replaces) the session of that connection.
    pub fn insert(&mut self, client_id: ClientId, session: PlayerSession)
        requires
            old(self).wf(),
        ensures
            final(self).wf(),
            final(self).as_map() =~= old(self).as_map().insert(client_id, session@),
    {
        let ghost sv = session@;
        match self.find(client_id) {
            Some(i) => {
                proof {
                    lemma_assoc_map_update(self@, i as int, sv);
                }
                self.entries[i] = (client_id, session);
                proof {
                    assert(self@ =~= old(self)@.update(i as int, (client_id, sv)));
                }
            },
            None => {
                proof {
                    lemma_assoc_map_push(self@, client_id, sv);
                }
                self.entries.push((client_id, session));
                proof {
                    assert(self@ =~= old(self)@.push((client_id, sv)));
                    let s2 = self@;
                    assert(forall|x: int| 0 <= x < old(self)@.len() ==> s2[x] == old(self)@[x]);
                    assert(unique_keys(s2));
                }
            },
        }
    }

    /// Discards the session of a connection that is gone.
    pub fn remove(&mut self, client_id: ClientId)
        requires
            old(self).wf(),
        ensures
            final(self).wf(),
            final(self).as_map() =~= old(self).as_map().remove(client_id),
    {
        match self.find(client_id) {
            Some(i) => {
                proof {
                    lemma_assoc_map_remove(self@, i as int);
                }
                self.entries.remove(i);
                proof {
                    assert(self@ =~= old(self)@.remove(i as int));
                }
            },
            None => {
                proof {
                    lemma_assoc_map_absent(self@, client_id);
                    assert(self.as_map() =~= self.as_map().remove(client_id));
                }
            },
        }
    }

    /// Associates the session of that connection with a world.
    pub fn set_world(&mut self, client_id: ClientId, world: WorldId)
        requires
            old(self).wf(),
            old(self).as_map().contains_key(client_id),
        ensures
            final(self).wf(),
            final(self).as_map() =~= old(self).as_map().insert(
                client_id,
                PlayerSessionView {
                    username: old(self).as_map()[client_id].username,
                    world: Some(world@),
                },
            ),
    {
        let ghost wv = world@;
        let i = match self.find(client_id) {
            Some(i) => i,
            None => {
                proof {
                    lemma_assoc_map_absent(self@, client_id);
                    assert(false);
                }
                0
            },
        };
        proof {
            lemma_assoc_map_index(self@, i as int);
        }
        let e = &mut self.entries[i];
        e.1.world = Some(world);
        proof {
            let sv = PlayerSessionView {
                username: old(self).as_map()[client_id].username,
                world: Some(wv),
            };
            assert(self@ =~= old(self)@.update(i as int, (client_id, sv)));
            lemma_assoc_map_update(old(self)@, i as int, sv);
        }
    }
}

/// Mathematical model of a [`ServerAction`].
pub enum ServerActionView {
    Send(ClientId, Channel, PacketView),
    Broadcast(Channel, PacketView),
    DisconnectClient(ClientId),
    Log(Seq<char>),
}

/// What the surrounding loop must do after a step: send a packet to one
/// client on a channel, send one to every client, forcibly close a
/// connection, or print a line on the server console.
#[derive(Debug)]
pub enum ServerAction {
    Send(ClientId, Channel, Packet),
    Broadcast(Channel, Packet),
    DisconnectClient(ClientId),
    Log(String),
}

impl View for ServerAction {
    type V = ServerActionView;

    open spec fn view(&self) -> ServerActionView {
        match self {
            ServerAction::Send(id, ch, p) => ServerActionView::Send(*id, *ch, p@),
            ServerAction::Broadcast(ch, p) => ServerActionView::Broadcast(*ch, p@),
            ServerAction::DisconnectClient(id) => ServerActionView::DisconnectClient(*id),
            ServerAction::Log(s) => ServerActionView::Log(s@),
        }
    }
}

/// The actions of a step, viewed.
pub open spec fn server_actions_view(v: Seq<ServerAction>) -> Seq<ServerActionView> {
    v.map(|i: int, a: ServerAction| a@)
}

/// A transport-level "client connected" event. A connection without the
/// user-data payload (the serialized username) is never silently
/// accepted: it is told why and closed. One with a username gets a
/// session and, immediately, the server's full registry snapshot — the
/// reconciliation handshake for raw-id drift.
pub fn handle_client_connected(
    players: &mut Players,
    client_id: ClientId,
    username: Option<Username>,
    raw_tile_ids: &RawIds,
) -> (r: Vec<ServerAction>)
    requires
        old(players).wf(),
    ensures
        final(players).wf(),
        match username {
            None => final(players).as_map() == old(players).as_map() && server_actions_view(r@)
                =~= seq![
                ServerActionView::Send(
                    client_id,
                    Channel::ReliableOrdered,
                    PacketView::ServerMessage(
                        ServerMessageView::Disconnect(DisconnectReasonView::EmptyUserdata),
                    ),
                ),
                ServerActionView::DisconnectClient(client_id),
            ],
            Some(u) => final(players).as_map() =~= old(players).as_map().insert(
                client_id,
                PlayerSessionView { username: u@, world: None },
            ) && server_actions_view(r@) =~= seq![
                ServerActionView::Send(
                    client_id,
                    Channel::ReliableOrdered,
                    PacketView::ServerMessage(ServerMessageView::RawTileIds(raw_tile_ids@)),
                ),
            ],
        },
{
    let mut actions: Vec<ServerAction> = Vec::new();
    match username {
        None => {
            actions.push(
                ServerAction::Send(
                    client_id,
                    Channel::ReliableOrdered,
                    Packet::ServerMessage(
                        ServerMessage::Disconnect(DisconnectReason::EmptyUserdata),
                    ),
                ),
            );
            actions.push(ServerAction::DisconnectClient(client_id));
        },
        Some(u) => {
            players.insert(
                client_id,
                PlayerSession { data: PlayerData { username: u }, world: None },
            );
            actions.push(
                ServerAction::Send(
                    client_id,
                    Channel::ReliableOrdered,
                    Packet::ServerMessage(ServerMessage::RawTileIds(raw_tile_ids.clone())),
                ),
            );
        },
    }
    actions
}

/// A transport-level "client disconnected" event: the player leaves the
/// roster of whatever world they were in, and the session is discarded.
/// Messages already decoded for this connection are the loop's to drop.
pub fn handle_client_disconnected(
    players: &mut Players,
    worlds: &mut ServerGameWorlds,
    client_id: ClientId,
)
    requires
        old(players).wf(),
        old(worlds).wf(),
    ensures
        final(players).wf(),
        final(worlds).wf(),
        final(players).as_map() =~= old(players).as_map().remove(client_id),
        ({
            let m = old(players).as_map();
            if m.contains_key(client_id) && m[client_id].world is Some {
                let w = m[client_id].world->0;
                if old(worlds).as_map().contains_key(w) {
                    final(worlds).as_map() =~= old(worlds).as_map().insert(
                        w,
                        crate::world::roster_without(old(worlds).as_map()[w], client_id),
                    )
                } else {
                    final(worlds).as_map() == old(worlds).as_map()
                }
            } else {
                final(worlds).as_map() == old(worlds).as_map()
            }
        }),
{
    let world: Option<WorldId> = match players.get(client_id) {
        Some(session) => match &session.world {
            Some(w) => Some(w.clone()),
            None => None,
        },
        None => None,
    };
    match world {
        Some(w) => {
            worlds.remove_player_from_world(w.0.as_str(), client_id);
        },
        None => {},
    }
    players.remove(client_id);
}

/// A join request: the announced protocol version must equal this
/// build's, whole. A mismatch earns exactly one `JoinDeny` carrying the
/// required version and a forced disconnect; a match earns exactly one
/// `JoinAccept` and no disconnect.
pub fn handle_join_request(client_id: ClientId, protocol_ver: ProtocolVersion) -> (r: Vec<
    ServerAction,
>)
    ensures
        protocol_ver != ProtocolVersion(PROTOCOL_VER) ==> server_actions_view(r@) =~= seq![
            ServerActionView::Send(
                client_id,
                Channel::ReliableOrdered,
                PacketView::ServerResponse(
                    ServerResponseView::JoinDeny(
                        DisconnectReasonView::ProtocolReject {
                            required_protocol_ver: ProtocolVersion(PROTOCOL_VER),
                            required_version_string: VERSION_STRING@,
                        },
                    ),
                ),
            ),
            ServerActionView::DisconnectClient(client_id),
        ],
        protocol_ver == ProtocolVersion(PROTOCOL_VER) ==> server_actions_view(r@) =~= seq![
            ServerActionView::Send(
                client_id,
                Channel::ReliableOrdered,
                PacketView::ServerResponse(ServerResponseView::JoinAccept),
            ),
        ],
{
    let mut actions: Vec<ServerAction> = Vec::new();
    if protocol_ver.0 != PROTOCOL_VER {
        actions.push(
            ServerAction::Send(
                client_id,
                Channel::ReliableOrdered,
                Packet::ServerResponse(
                    ServerResponse::JoinDeny(
                        DisconnectReason::ProtocolReject {
                            required_protocol_ver: ProtocolVersion(PROTOCOL_VER),
                            required_version_string: VERSION_STRING.to_owned(),
                        },
                    ),
                ),
            ),
        );
        actions.push(ServerAction::DisconnectClient(client_id));
    } else {
        actions.push(
            ServerAction::Send(
                client_id,
                Channel::ReliableOrdered,
                Packet::ServerResponse(ServerResponse::JoinAccept),
            ),
        );
    }
    actions
}

/// A latency probe: acknowledged at once on the probe channel, and the
/// measured round trip is recorded for the connection.
pub fn handle_ping(
    stats: &mut PlayerNetStats,
    client_id: ClientId,
    timestamp: u128,
    now_ms: u128,
) -> (r: Vec<ServerAction>)
    requires
        old(stats).wf(),
    ensures
        final(stats).wf(),
        final(stats).as_map() =~= old(stats).as_map().insert(
            client_id,
            crate::networking::stats::PlayerNetStat {
                ping: if now_ms >= timestamp {
                    (now_ms - timestamp) as u128
                } else {
                    0
                },
            },
        ),
        server_actions_view(r@) =~= seq![
            ServerActionView::Send(
                client_id,
                Channel::ReliableUnordered,
                PacketView::ServerResponse(ServerResponseView::PingAck { timestamp }),
            ),
        ],
{
    let mut actions: Vec<ServerAction> = Vec::new();
    actions.push(
        ServerAction::Send(
            client_id,
            Channel::ReliableUnordered,
            Packet::ServerResponse(ServerResponse::PingAck { timestamp }),
        ),
    );
    let ping: u128 = if now_ms >= timestamp {
        now_ms - timestamp
    } else {
        0
    };
    stats.record_ping(client_id, ping);
    actions
}

/// A probe acknowledgement from the client: records the measured round
/// trip for the connection.
pub fn handle_ping_ack(stats: &mut PlayerNetStats, client_id: ClientId, timestamp: u128, now_ms: u128)
    requires
        old(stats).wf(),
    ensures
        final(stats).wf(),
        final(stats).as_map() =~= old(stats).as_map().insert(
            client_id,
            crate::networking::stats::PlayerNetStat {
                ping: if now_ms >= timestamp {
                    (now_ms - timestamp) as u128
                } else {
                    0
                },
            },
        ),
{
    let ping: u128 = if now_ms >= timestamp {
        now_ms - timestamp
    } else {
        0
    };
    stats.record_ping(client_id, ping);
}

// ---------------------------------------------------------------------
// Position and chat fan-out
// ---------------------------------------------------------------------

/// One position update sent to each roster member, in roster order.
pub open spec fn position_broadcast(
    roster: Seq<ClientId>,
    from: ClientId,
    position: crate::world::Position,
) -> Seq<ServerActionView>
    decreases roster.len(),
{
    if roster.len() == 0 {
        Seq::empty()
    } else {
        seq![
            ServerActionView::Send(
                roster[0],
                Channel::Unreliable,
                PacketView::ServerMessage(ServerMessageView::PlayerPosition(from, position)),
            ),
        ] + position_broadcast(roster.skip(1), from, position)
    }
}

proof fn lemma_position_broadcast_push(
    roster: Seq<ClientId>,
    m: ClientId,
    from: ClientId,
    position: crate::world::Position,
)
    ensures
        position_broadcast(roster.push(m), from, position) == position_broadcast(
            roster,
            from,
            position,
        ) + seq![
            ServerActionView::Send(
                m,
                Channel::Unreliable,
                PacketView::ServerMessage(ServerMessageView::PlayerPosition(from, position)),
            ),
        ],
    decreases roster.len(),
{
    let one = seq![
        ServerActionView::Send(
            m,
            Channel::Unreliable,
            PacketView::ServerMessage(ServerMessageView::PlayerPosition(from, position)),
        ),
    ];
    if roster.len() == 0 {
        assert(roster.push(m)[0] == m);
        assert(roster.push(m).skip(1) =~= Seq::<ClientId>::empty());
        assert(position_broadcast(Seq::<ClientId>::empty(), from, position) == Seq::<
            ServerActionView,
        >::empty());
        assert(one + Seq::<ServerActionView>::empty() =~= one);
        assert(position_broadcast(roster.push(m), from, position) =~= one);
        assert(position_broadcast(roster, from, position) + one =~= one);
    } else {
        assert(roster.push(m)[0] == roster[0]);
        assert(roster.push(m).skip(1) =~= roster.skip(1).push(m));
        lemma_position_broadcast_push(roster.skip(1), m, from, position);
        let head = seq![
            ServerActionView::Send(
                roster[0],
                Channel::Unreliable,
                PacketView::ServerMessage(ServerMessageView::PlayerPosition(from, position)),
            ),
        ];
        assert(head + (position_broadcast(roster.skip(1), from, position) + one) =~= (head
            + position_broadcast(roster.skip(1), from, position)) + one);
    }
}

/// A position update from a client is relayed, unreliably, to every
/// member of the world the client is in; one from a client in no world
/// goes nowhere.
pub fn handle_player_position(
    players: &Players,
    worlds: &ServerGameWorlds,
    client_id: ClientId,
    position: crate::world::Position,
) -> (r: Vec<ServerAction>)
    requires
        players.wf(),
        worlds.wf(),
    ensures
        ({
            let m = players.as_map();
            if m.contains_key(client_id) && m[client_id].world is Some && worlds.as_map(
            ).contains_key(m[client_id].world->0) {
                server_actions_view(r@) =~= position_broadcast(
                    worlds.as_map()[m[client_id].world->0].players,
                    client_id,
                    position,
                )
            } else {
                server_actions_view(r@) =~= Seq::<ServerActionView>::empty()
            }
        }),
{
    let mut actions: Vec<ServerAction> = Vec::new();
    let world_id: Option<WorldId> = match players.get(client_id) {
        Some(session) => match &session.world {
            Some(w) => Some(w.clone()),
            None => None,
        },
        None => None,
    };
    let w = match world_id {
        Some(wid) => wid,
        None => {
            return actions;
        },
    };
    let world = match worlds.get_world(w.0.as_str()) {
        Some(world) => world,
        None => {
            return actions;
        },
    };
    let ghost roster = world@.players;
    let n = world.players.len();
    let mut i: usize = 0;
    while i < n
        invariant
            n == world.players@.len(),
            world.players@ == roster,
            i <= n,
            server_actions_view(actions@) =~= position_broadcast(
                roster.take(i as int),
                client_id,
                position,
            ),
        decreases n - i,
    {
        let m = world.players[i];
        actions.push(
            ServerAction::Send(
                m,
                Channel::Unreliable,
                Packet::ServerMessage(ServerMessage::PlayerPosition(client_id, position)),
            ),
        );
        proof {
            assert(roster.take(i + 1) =~= roster.take(i as int).push(roster[i as int]));
            lemma_position_broadcast_push(roster.take(i as int), roster[i as int], client_id,
                position);
            assert(server_actions_view(actions@) =~= position_broadcast(
                roster.take(i + 1),
                client_id,
                position,
            ));
        }
        i += 1;
    }
    proof {
        assert(roster.take(n as int) =~= roster);
    }
    actions
}

/// One chat message sent, reliably and in order, to each listed player.
pub open spec fn chat_sends(
    ids: Seq<ClientId>,
    bundle: crate::networking::protocol::ChatMessageBundleView,
) -> Seq<ServerActionView>
    decreases ids.len(),
{
    if ids.len() == 0 {
        Seq::empty()
    } else {
        seq![
            ServerActionView::Send(
                ids[0],
                Channel::ReliableOrdered,
                PacketView::ServerMessage(ServerMessageView::ChatMessage(bundle)),
            ),
        ] + chat_sends(ids.skip(1), bundle)
    }
}

proof fn lemma_chat_sends_push(
    ids: Seq<ClientId>,
    m: ClientId,
    bundle: crate::networking::protocol::ChatMessageBundleView,
)
    ensures
        chat_sends(ids.push(m), bundle) == chat_sends(ids, bundle) + seq![
            ServerActionView::Send(
                m,
                Channel::ReliableOrdered,
                PacketView::ServerMessage(ServerMessageView::ChatMessage(bundle)),
            ),
        ],
    decreases ids.len(),
{
    let one = seq![
        ServerActionView::Send(
            m,
            Channel::ReliableOrdered,
            PacketView::ServerMessage(ServerMessageView::ChatMessage(bundle)),
        ),
    ];
    if ids.len() == 0 {
        assert(ids.push(m)[0] == m);
        assert(ids.push(m).skip(1) =~= Seq::<ClientId>::empty());
        assert(chat_sends(Seq::<ClientId>::empty(), bundle) == Seq::<ServerActionView>::empty());
        assert(one + Seq::<ServerActionView>::empty() =~= one);
        assert(chat_sends(ids.push(m), bundle) =~= one);
        assert(chat_sends(ids, bundle) + one =~= one);
    } else {
        assert(ids.push(m)[0] == ids[0]);
        assert(ids.push(m).skip(1) =~= ids.skip(1).push(m));
        lemma_chat_sends_push(ids.skip(1), m, bundle);
        let head = seq![
            ServerActionView::Send(
                ids[0],
                Channel::ReliableOrdered,
                PacketView::ServerMessage(ServerMessageView::ChatMessage(bundle)),
            ),
        ];
        assert(head + (chat_sends(ids.skip(1), bundle) + one) =~= (head + chat_sends(
            ids.skip(1),
            bundle,
        )) + one);
    }
}

/// Where one chat message goes: to the one player, to each listed
/// player, to the roster of the sender's world, or to everyone — the
/// last with a console line of the source's tag and the message, its
/// formatting marks stripped.
pub open spec fn spec_route_chat(
    worlds: Map<Seq<char>, crate::world::ServerGameWorldView>,
    source: SourceView,
    target: TargetView,
    message: Seq<char>,
) -> Seq<ServerActionView> {
    let bundle = crate::networking::protocol::ChatMessageBundleView {
        content: message,
        source,
        target,
    };
    match target {
        TargetView::Player(id) => seq![
            ServerActionView::Send(
                id,
                Channel::ReliableOrdered,
                PacketView::ServerMessage(ServerMessageView::ChatMessage(bundle)),
            ),
        ],
        TargetView::Players(ids) => chat_sends(ids, bundle),
        TargetView::World => match source {
            SourceView::Player { id, world: Some(w) } => if worlds.contains_key(w) {
                chat_sends(worlds[w].players, bundle)
            } else {
                Seq::empty()
            },
            _ => Seq::empty(),
        },
        TargetView::All => seq![
            ServerActionView::Log(
                strip_formatting_spec(
                    crate::player::source_text_spec(source) + seq![' '] + message,
                ),
            ),
            ServerActionView::Broadcast(
                Channel::ReliableOrdered,
                PacketView::ServerMessage(ServerMessageView::ChatMessage(bundle)),
            ),
        ],
    }
}

/// Tags a chat message with its source and fans it out per target; see
/// [`spec_route_chat`].
pub fn send_chat(
    worlds: &ServerGameWorlds,
    source: Source,
    target: Target,
    message: String,
) -> (r: Vec<ServerAction>)
    requires
        worlds.wf(),
    ensures
        server_actions_view(r@) =~= spec_route_chat(
            worlds.as_map(),
            source@,
            target@,
            message@,
        ),
{
    let mut actions: Vec<ServerAction> = Vec::new();
    let bundle = ChatMessageBundle {
        content: ChatMessageContent(message),
        source,
        target: target.clone(),
    };
    let ghost bv = bundle@;
    match target {
        Target::Player(id) => {
            actions.push(
                ServerAction::Send(
                    id,
                    Channel::ReliableOrdered,
                    Packet::ServerMessage(ServerMessage::ChatMessage(bundle)),
                ),
            );
        },
        Target::Players(ids) => {
            let n = ids.len();
            let mut i: usize = 0;
            while i < n
                invariant
                    n == ids@.len(),
                    i <= n,
                    bundle@ == bv,
                    server_actions_view(actions@) =~= chat_sends(ids@.take(i as int), bv),
                decreases n - i,
            {
                actions.push(
                    ServerAction::Send(
                        ids[i],
                        Channel::ReliableOrdered,
                        Packet::ServerMessage(ServerMessage::ChatMessage(bundle.clone())),
                    ),
                );
                proof {
                    assert(ids@.take(i + 1) =~= ids@.take(i as int).push(ids@[i as int]));
                    lemma_chat_sends_push(ids@.take(i as int), ids@[i as int], bv);
                    assert(server_actions_view(actions@) =~= chat_sends(ids@.take(i + 1), bv));
                }
                i += 1;
            }
            proof {
                assert(ids@.take(n as int) =~= ids@);
            }
        },
        Target::World => {
            let world_name: Option<WorldId> = match &bundle.source {
                Source::Player(_, Some(w)) => Some(w.clone()),
                _ => None,
            };
            match world_name {
                Some(wid) => {
                    match worlds.get_world(wid.0.as_str()) {
                        Some(world) => {
                            let ghost roster = world@.players;
                            let n = world.players.len();
                            let mut i: usize = 0;
                            while i < n
                                invariant
                                    n == world.players@.len(),
                                    world.players@ == roster,
                                    i <= n,
                                    bundle@ == bv,
                                    server_actions_view(actions@) =~= chat_sends(
                                        roster.take(i as int),
                                        bv,
                                    ),
                                decreases n - i,
                            {
                                actions.push(
                                    ServerAction::Send(
                                        world.players[i],
                                        Channel::ReliableOrdered,
                                        Packet::ServerMessage(
                                            ServerMessage::ChatMessage(bundle.clone()),
                                        ),
                                    ),
                                );
                                proof {
                                    assert(roster.take(i + 1) =~= roster.take(i as int).push(
                                        roster[i as int],
                                    ));
                                    lemma_chat_sends_push(roster.take(i as int), roster[i as int],
                                        bv);
                                    assert(server_actions_view(actions@) =~= chat_sends(
                                        roster.take(i + 1),
                                        bv,
                                    ));
                                }
                                i += 1;
                            }
                            proof {
                                assert(roster.take(n as int) =~= roster);
                            }
                        },
                        None => {},
                    }
                },
                None => {},
            }
        },
        Target::All => {
            let mut line = bundle.source.text();
            crate::util::push_char(&mut line, ' ');
            line.append(bundle.content.0.as_str());
            proof {
                assert(line@ =~= crate::player::source_text_spec(bundle.source@) + seq![' ']
                    + bundle.content.0@);
            }
            actions.push(ServerAction::Log(strip_formatting(line.as_str())));
            actions.push(
                ServerAction::Broadcast(
                    Channel::ReliableOrdered,
                    Packet::ServerMessage(ServerMessage::ChatMessage(bundle)),
                ),
            );
        },
    }
    actions
}

/// A chat message from a client: tagged with that player and their
/// world, then fanned out per target. One from a connection with no open
/// session is dropped.
pub fn handle_chat_message(
    players: &Players,
    worlds: &ServerGameWorlds,
    client_id: ClientId,
    target: Target,
    content: String,
) -> (r: Vec<ServerAction>)
    requires
        players.wf(),
        worlds.wf(),
    ensures
        ({
            let m = players.as_map();
            if m.contains_key(client_id) {
                server_actions_view(r@) =~= spec_route_chat(
                    worlds.as_map(),
                    SourceView::Player { id: client_id, world: m[client_id].world },
                    target@,
                    content@,
                )
            } else {
                server_actions_view(r@) =~= Seq::<ServerActionView>::empty()
            }
        }),
{
    let session = match players.get(client_id) {
        Some(s) => s,
        None => {
            return Vec::new();
        },
    };
    let world: Option<WorldId> = match &session.world {
        Some(w) => Some(w.clone()),
        None => None,
    };
    send_chat(worlds, Source::Player(client_id, world), target, content)
}

// ---------------------------------------------------------------------
// World entry
// ---------------------------------------------------------------------

/// Where new players appear: the render layer's `(0.0, 1.0)`, as bits.
pub open spec fn default_spawnpoint() -> crate::world::Position {
    crate::world::Position { x_bits: 0u32, y_bits: 0x3F80_0000u32 }
}

/// Makes sure the world of that (sanitized, non-empty) name is loaded:
/// if the store lacks it, the given save file contents are decoded — or,
/// with no file, the default world is synthesized — and the result is
/// added under that name with an empty roster. Nothing is touched on
/// failure.
pub fn ensure_world_loaded(
    worlds: &mut ServerGameWorlds,
    world_name: &str,
    file: Option<Vec<u8>>,
    raw_tile_ids: &RawIds,
) -> (r: Result<(), SaveError>)
    requires
        old(worlds).wf(),
        raw_tile_ids.wf(),
    ensures
        final(worlds).wf(),
        old(worlds).as_map().contains_key(world_name@) ==> r is Ok && final(worlds).as_map()
            == old(worlds).as_map(),
        !old(worlds).as_map().contains_key(world_name@) ==> ({
            let loaded_world = final(worlds).as_map()[world_name@];
            &&& r is Ok ==> {
                &&& final(worlds).as_map() =~= old(worlds).as_map().insert(
                    world_name@,
                    loaded_world,
                )
                &&& loaded_world.id == world_name@
                &&& loaded_world.players == Seq::<ClientId>::empty()
                &&& loaded_world.spawnpoint == default_spawnpoint()
            }
            &&& r is Err ==> final(worlds).as_map() == old(worlds).as_map()
            &&& match file {
                Some(bytes) => match spec_deserialize(bytes@, raw_tile_ids@) {
                    Ok(body) => r is Ok && assoc_map(loaded_world.tiles) == assoc_map(body.0)
                        && assoc_map(loaded_world.bans) == assoc_map(body.1),
                    Err(e) => r matches Err(e2) && e2@ == e,
                },
                None => {
                    &&& r is Ok <==> raw_tile_ids.contains_id(crate::save::grass_ident())
                    &&& r is Ok ==> loaded_world.tiles == crate::save::default_tile_strip(
                        RawId(raw_tile_ids.raw_of(crate::save::grass_ident()) as i32),
                    ) && loaded_world.bans == Seq::<(Seq<char>, crate::world::WorldBanView)>::empty()
                    &&& r matches Err(e2) ==> e2@ == SaveErrorView::IdNonexistent(
                        crate::save::grass_ident(),
                    )
                },
            }
        }),
{
    if worlds.contains_world(world_name) {
        return Ok(());
    }
    let save = match resolve_world_load(file, raw_tile_ids) {
        Ok(save) => save,
        Err(e) => {
            return Err(e);
        },
    };
    let world = ServerGameWorld {
        id: WorldId(world_name.to_owned()),
        tiles: save.tiles,
        players: Vec::new(),
        bans: save.bans,
        spawnpoint: crate::world::Position { x_bits: 0, y_bits: 0x3F80_0000 },
    };
    proof {
        assert(world@.players =~= Seq::<ClientId>::empty());
    }
    worlds.add_world(world);
    Ok(())
}

/// One `PlayerJoin` announcement to each prior roster member other than
/// the joining player, in roster order.
pub open spec fn join_broadcast(
    roster: Seq<ClientId>,
    joining: ClientId,
    username: Seq<char>,
    spawn: crate::world::Position,
) -> Seq<ServerActionView>
    decreases roster.len(),
{
    if roster.len() == 0 {
        Seq::empty()
    } else {
        (if roster[0] == joining {
            Seq::empty()
        } else {
            seq![
                ServerActionView::Send(
                    roster[0],
                    Channel::ReliableOrdered,
                    PacketView::ServerMessage(
                        ServerMessageView::PlayerJoin(
                            joining,
                            PlayerDataView { username },
                            spawn,
                        ),
                    ),
                ),
            ]
        }) + join_broadcast(roster.skip(1), joining, username, spawn)
    }
}

proof fn lemma_join_broadcast_push(
    roster: Seq<ClientId>,
    m: ClientId,
    joining: ClientId,
    username: Seq<char>,
    spawn: crate::world::Position,
)
    ensures
        join_broadcast(roster.push(m), joining, username, spawn) == join_broadcast(
            roster,
            joining,
            username,
            spawn,
        ) + (if m == joining {
            Seq::<ServerActionView>::empty()
        } else {
            seq![
                ServerActionView::Send(
                    m,
                    Channel::ReliableOrdered,
                    PacketView::ServerMessage(
                        ServerMessageView::PlayerJoin(
                            joining,
                            PlayerDataView { username },
                            spawn,
                        ),
                    ),
                ),
            ]
        }),
    decreases roster.len(),
{
    let one = if m == joining {
        Seq::<ServerActionView>::empty()
    } else {
        seq![
            ServerActionView::Send(
                m,
                Channel::ReliableOrdered,
                PacketView::ServerMessage(
                    ServerMessageView::PlayerJoin(joining, PlayerDataView { username }, spawn),
                ),
            ),
        ]
    };
    if roster.len() == 0 {
        assert(roster.push(m)[0] == m);
        assert(roster.push(m).skip(1) =~= Seq::<ClientId>::empty());
        assert(join_broadcast(Seq::<ClientId>::empty(), joining, username, spawn) == Seq::<
            ServerActionView,
        >::empty());
        assert(one + Seq::<ServerActionView>::empty() =~= one);
        assert(join_broadcast(roster, joining, username, spawn) + one =~= one);
    } else {
        assert(roster.push(m)[0] == roster[0]);
        assert(roster.push(m).skip(1) =~= roster.skip(1).push(m));
        lemma_join_broadcast_push(roster.skip(1), m, joining, username, spawn);
        let head = if roster[0] == joining {
            Seq::<ServerActionView>::empty()
        } else {
            seq![
                ServerActionView::Send(
                    roster[0],
                    Channel::ReliableOrdered,
                    PacketView::ServerMessage(
                        ServerMessageView::PlayerJoin(
                            joining,
                            PlayerDataView { username },
                            spawn,
                        ),
                    ),
                ),
            ]
        };
        assert(head + (join_broadcast(roster.skip(1), joining, username, spawn) + one) =~= (head
            + join_broadcast(roster.skip(1), joining, username, spawn)) + one);
    }
}

/// A request to enter a world. The name is held to the allowed
/// character subset (letters, digits, dashes, underscores): an empty
/// name, or one that sanitizing would alter, is denied as invalid.
/// For a request that passes the name gate and comes from an open
/// session, a banned, unexpired username is denied with exactly the
/// ban's reason and expiry and ends up off the roster, with the world's
/// tiles and bans untouched — the name gate comes first, so the ban
/// verdict is reachable only there. Otherwise the player joins the
/// roster, the entry is accepted with the world id, the full tile map
/// follows, and the world's other members hear of the join.
///
/// The caller keeps the store ahead of this function: whenever the
/// sanitized name is non-empty, the world of that name has been loaded
/// (see [`ensure_world_loaded`]).
pub fn handle_enter_world_request(
    worlds: &mut ServerGameWorlds,
    players: &mut Players,
    client_id: ClientId,
    world_name: &str,
    now: u64,
) -> (r: Vec<ServerAction>)
    requires
        old(worlds).wf(),
        old(players).wf(),
        world_name@.len() > 0 && sanitize_alphanumeric_dash_spec(world_name@) == world_name@
            ==> old(worlds).as_map().contains_key(world_name@),
    ensures
        final(worlds).wf(),
        final(players).wf(),
        ({
            let name = sanitize_alphanumeric_dash_spec(world_name@);
            let acts = server_actions_view(r@);
            if name.len() == 0 || name != world_name@ {
                &&& final(worlds).as_map() == old(worlds).as_map()
                &&& final(players).as_map() == old(players).as_map()
                &&& acts =~= seq![
                    ServerActionView::Send(
                        client_id,
                        Channel::ReliableOrdered,
                        PacketView::ServerResponse(
                            ServerResponseView::EnterWorldDeny(
                                WorldDenyReasonView::InvalidWorldName,
                            ),
                        ),
                    ),
                ]
            } else if !old(players).as_map().contains_key(client_id) {
                &&& final(worlds).as_map() == old(worlds).as_map()
                &&& final(players).as_map() == old(players).as_map()
                &&& acts =~= seq![
                    ServerActionView::Send(
                        client_id,
                        Channel::ReliableOrdered,
                        PacketView::ServerMessage(
                            ServerMessageView::Disconnect(
                                DisconnectReasonView::PlayerNonexistent,
                            ),
                        ),
                    ),
                    ServerActionView::DisconnectClient(client_id),
                ]
            } else {
                let w = old(worlds).as_map()[name];
                let uname = old(players).as_map()[client_id].username;
                let bans = assoc_map(w.bans);
                if bans.contains_key(uname) && now < bans[uname].until {
                    &&& final(players).as_map() == old(players).as_map()
                    &&& final(worlds).as_map() =~= old(worlds).as_map().insert(
                        name,
                        roster_without(w, client_id),
                    )
                    &&& acts =~= seq![
                        ServerActionView::Send(
                            client_id,
                            Channel::ReliableOrdered,
                            PacketView::ServerResponse(
                                ServerResponseView::EnterWorldDeny(
                                    WorldDenyReasonView::Banned(
                                        bans[uname].reason,
                                        WorldBanUntil(bans[uname].until),
                                    ),
                                ),
                            ),
                        ),
                    ]
                } else {
                    &&& final(worlds).as_map() =~= old(worlds).as_map().insert(
                        name,
                        roster_with(w, client_id),
                    )
                    &&& final(players).as_map() =~= old(players).as_map().insert(
                        client_id,
                        PlayerSessionView { username: uname, world: Some(name) },
                    )
                    &&& acts =~= seq![
                        ServerActionView::Send(
                            client_id,
                            Channel::ReliableOrdered,
                            PacketView::ServerResponse(
                                ServerResponseView::EnterWorldAccept(name),
                            ),
                        ),
                        ServerActionView::Send(
                            client_id,
                            Channel::ReliableOrdered,
                            PacketView::ServerMessage(ServerMessageView::WorldTiles(w.tiles)),
                        ),
                    ] + join_broadcast(w.players, client_id, uname, w.spawnpoint)
                }
            }
        }),
{
    let mut actions: Vec<ServerAction> = Vec::new();
    let name = sanitize_alphanumeric_dash(world_name);
    if name.as_str().unicode_len() == 0 || !str_eq(name.as_str(), world_name) {
        actions.push(
            ServerAction::Send(
                client_id,
                Channel::ReliableOrdered,
                Packet::ServerResponse(
                    ServerResponse::EnterWorldDeny(WorldDenyReason::InvalidWorldName),
                ),
            ),
        );
        return actions;
    }
    let username = match players.get(client_id) {
        Some(session) => session.data.username.clone(),
        None => {
            actions.push(
                ServerAction::Send(
                    client_id,
                    Channel::ReliableOrdered,
                    Packet::ServerMessage(
                        ServerMessage::Disconnect(DisconnectReason::PlayerNonexistent),
                    ),
                ),
            );
            actions.push(ServerAction::DisconnectClient(client_id));
            return actions;
        },
    };
    let world = match worlds.get_world(name.as_str()) {
        Some(world) => world,
        None => {
            proof {
                assert(false);
            }
            return actions;
        },
    };

    // Check the requesting username against the world's ban map.
    let ban: Option<(String, WorldBanUntil)> = match world.bans.get(&username) {
        Some(b) => if b.is_active(now) {
            Some((b.reason().to_owned(), b.until()))
        } else {
            None
        },
        None => None,
    };
    if let Some((reason, until)) = ban {
        worlds.remove_player_from_world(name.as_str(), client_id);
        actions.push(
            ServerAction::Send(
                client_id,
                Channel::ReliableOrdered,
                Packet::ServerResponse(
                    ServerResponse::EnterWorldDeny(WorldDenyReason::Banned(reason, until)),
                ),
            ),
        );
        return actions;
    }

    // Admit the player.
    let ghost wv = world@;
    let tiles_copy = world.tiles.clone();
    let spawn = world.spawnpoint;
    let mut roster: Vec<ClientId> = Vec::new();
    let n = world.players.len();
    let mut i: usize = 0;
    while i < n
        invariant
            n == world.players@.len(),
            i <= n,
            roster@ =~= world.players@.take(i as int),
        decreases n - i,
    {
        roster.push(world.players[i]);
        proof {
            assert(roster@ =~= world.players@.take(i + 1));
        }
        i += 1;
    }
    proof {
        assert(world.players@.take(n as int) =~= world.players@);
    }
    worlds.add_player_to_world(name.as_str(), client_id);
    players.set_world(client_id, WorldId(name.clone()));
    actions.push(
        ServerAction::Send(
            client_id,
            Channel::ReliableOrdered,
            Packet::ServerResponse(ServerResponse::EnterWorldAccept(WorldId(name))),
        ),
    );
    actions.push(
        ServerAction::Send(
            client_id,
            Channel::ReliableOrdered,
            Packet::ServerMessage(ServerMessage::WorldTiles(tiles_copy)),
        ),
    );
    let ghost prefix = server_actions_view(actions@);
    let m = roster.len();
    let mut k: usize = 0;
    while k < m
        invariant
            m == roster@.len(),
            roster@ == wv.players,
            k <= m,
            server_actions_view(actions@) =~= prefix + join_broadcast(
                roster@.take(k as int),
                client_id,
                username@,
                spawn,
            ),
        decreases m - k,
    {
        let member = roster[k];
        if member != client_id {
            actions.push(
                ServerAction::Send(
                    member,
                    Channel::ReliableOrdered,
                    Packet::ServerMessage(
                        ServerMessage::PlayerJoin(
                            client_id,
                            PlayerData { username: username.clone() },
                            spawn,
                        ),
                    ),
                ),
            );
        }
        proof {
            assert(roster@.take(k + 1) =~= roster@.take(k as int).push(roster@[k as int]));
            lemma_join_broadcast_push(roster@.take(k as int), roster@[k as int], client_id,
                username@, spawn);
            let jb = join_broadcast(roster@.take(k as int), client_id, username@, spawn);
            assert(jb + Seq::<ServerActionView>::empty() =~= jb);
            if roster@[k as int] != client_id {
                let one = seq![
                    ServerActionView::Send(
                        roster@[k as int],
                        Channel::ReliableOrdered,
                        PacketView::ServerMessage(
                            ServerMessageView::PlayerJoin(
                                client_id,
                                PlayerDataView { username: username@ },
                                spawn,
                            ),
                        ),
                    ),
                ];
                assert(prefix + (jb + one) =~= (prefix + jb) + one);
            }
            assert(server_actions_view(actions@) =~= prefix + join_broadcast(
                roster@.take(k + 1),
                client_id,
                username@,
                spawn,
            ));
        }
        k += 1;
    }
    proof {
        assert(roster@.take(m as int) =~= roster@);
    }
    actions
}

} // verus!
