//! The wire message set: four message categories in one tagged union,
//! and the channel each variant travels on.

use vstd::prelude::*;

use crate::identifier::IdentifierView;
use crate::networking::Username;
use crate::player::{Source, SourceView, Target, TargetView};
use crate::raw_id::RawIds;
use crate::tile::{TilePos, WorldTile};
use crate::world::{Position, TileMap, WorldBanUntil, WorldId};

verus! {

/// The transport-level protocol id the netcode session is opened with.
pub const PROTOCOL_ID: u64 = 0x460709E200F3661E;

/// The application protocol version this build speaks, compared whole
/// against the version a joining client announces.
pub const PROTOCOL_VER: u32 = 0;

/// The game version string sent along with a protocol rejection.
pub const VERSION_STRING: &'static str = "0.1.0-alpha.0";

/// How long the client waits for the transport to connect, in
/// milliseconds, before giving up.
pub const CLIENT_TIMEOUT: u64 = 5000;

/// An application protocol version.
#[derive(Debug, Copy, Clone, PartialEq, Eq, Hash, Structural)]
pub struct ProtocolVersion(pub u32);

/// A connection id, as the transport hands it out.
#[derive(Debug, Copy, Clone, PartialEq, Eq, Hash, Structural)]
pub struct ClientId(pub u64);

/// A named delivery path with a fixed reliability/ordering guarantee.
#[derive(Debug, Copy, Clone, PartialEq, Eq, Hash, Structural)]
pub enum Channel {
    /// Loss or reordering would corrupt session state.
    ReliableOrdered,
    /// Loss is not tolerated, ordering is irrelevant.
    ReliableUnordered,
    /// High-frequency, loss-tolerant data.
    Unreliable,
}

/// Mathematical model of a [`PlayerData`].
pub struct PlayerDataView {
    pub username: Seq<char>,
}

/// What the server knows about a connected player.
#[derive(Debug)]
pub struct PlayerData {
    pub username: Username,
}

impl View for PlayerData {
    type V = PlayerDataView;

    open spec fn view(&self) -> PlayerDataView {
        PlayerDataView { username: self.username@ }
    }
}

impl Clone for PlayerData {
    fn clone(&self) -> (r: Self)
        ensures
            r@ == self@,
    {
        PlayerData { username: self.username.clone() }
    }
}

/// Mathematical model of a [`DisconnectReason`].
pub enum DisconnectReasonView {
    ProtocolReject { required_protocol_ver: ProtocolVersion, required_version_string: Seq<char> },
    EmptyUserdata,
    PlayerNonexistent,
    ServerFull(Seq<char>),
    Kicked(Seq<char>),
    Banned(Seq<char>),
    Shutdown(Seq<char>),
    Other(Option<Seq<char>>),
}

/// Why the server is closing, or refused, a connection.
#[derive(Debug)]
pub enum DisconnectReason {
    ProtocolReject {
        /// The protocol version that is required.
        required_protocol_ver: ProtocolVersion,
        /// The required version string.
        required_version_string: String,
    },
    EmptyUserdata,
    PlayerNonexistent,
    ServerFull(String),
    Kicked(String),
    Banned(String),
    Shutdown(String),
    Other(Option<String>),
}

impl View for DisconnectReason {
    type V = DisconnectReasonView;

    open spec fn view(&self) -> DisconnectReasonView {
        match self {
            DisconnectReason::ProtocolReject { required_protocol_ver, required_version_string } =>
                DisconnectReasonView::ProtocolReject {
                required_protocol_ver: *required_protocol_ver,
                required_version_string: required_version_string@,
            },
            DisconnectReason::EmptyUserdata => DisconnectReasonView::EmptyUserdata,
            DisconnectReason::PlayerNonexistent => DisconnectReasonView::PlayerNonexistent,
            DisconnectReason::ServerFull(s) => DisconnectReasonView::ServerFull(s@),
            DisconnectReason::Kicked(s) => DisconnectReasonView::Kicked(s@),
            DisconnectReason::Banned(s) => DisconnectReasonView::Banned(s@),
            DisconnectReason::Shutdown(s) => DisconnectReasonView::Shutdown(s@),
            DisconnectReason::Other(Some(s)) => DisconnectReasonView::Other(Some(s@)),
            DisconnectReason::Other(None) => DisconnectReasonView::Other(None),
        }
    }
}

impl Clone for DisconnectReason {
    fn clone(&self) -> (r: Self)
        ensures
            r@ == self@,
    {
        match self {
            DisconnectReason::ProtocolReject { required_protocol_ver, required_version_string } =>
                DisconnectReason::ProtocolReject {
                required_protocol_ver: *required_protocol_ver,
                required_version_string: required_version_string.clone(),
            },
            DisconnectReason::EmptyUserdata => DisconnectReason::EmptyUserdata,
            DisconnectReason::PlayerNonexistent => DisconnectReason::PlayerNonexistent,
            DisconnectReason::ServerFull(s) => DisconnectReason::ServerFull(s.clone()),
            DisconnectReason::Kicked(s) => DisconnectReason::Kicked(s.clone()),
            DisconnectReason::Banned(s) => DisconnectReason::Banned(s.clone()),
            DisconnectReason::Shutdown(s) => DisconnectReason::Shutdown(s.clone()),
            DisconnectReason::Other(Some(s)) => DisconnectReason::Other(Some(s.clone())),
            DisconnectReason::Other(None) => DisconnectReason::Other(None),
        }
    }
}

/// Mathematical model of a [`WorldDenyReason`].
pub enum WorldDenyReasonView {
    WorldFull(Seq<char>),
    Banned(Seq<char>, WorldBanUntil),
    InvalidWorldName,
    Other(Option<Seq<char>>),
}

/// Why entry to a world has been denied.
#[derive(Debug)]
pub enum WorldDenyReason {
    WorldFull(String),
    Banned(String, WorldBanUntil),
    InvalidWorldName,
    Other(Option<String>),
}

impl View for WorldDenyReason {
    type V = WorldDenyReasonView;

    open spec fn view(&self) -> WorldDenyReasonView {
        match self {
            WorldDenyReason::WorldFull(s) => WorldDenyReasonView::WorldFull(s@),
            WorldDenyReason::Banned(s, until) => WorldDenyReasonView::Banned(s@, *until),
            WorldDenyReason::InvalidWorldName => WorldDenyReasonView::InvalidWorldName,
            WorldDenyReason::Other(Some(s)) => WorldDenyReasonView::Other(Some(s@)),
            WorldDenyReason::Other(None) => WorldDenyReasonView::Other(None),
        }
    }
}

impl Clone for WorldDenyReason {
    fn clone(&self) -> (r: Self)
        ensures
            r@ == self@,
    {
        match self {
            WorldDenyReason::WorldFull(s) => WorldDenyReason::WorldFull(s.clone()),
            WorldDenyReason::Banned(s, until) => WorldDenyReason::Banned(s.clone(), *until),
            WorldDenyReason::InvalidWorldName => WorldDenyReason::InvalidWorldName,
            WorldDenyReason::Other(Some(s)) => WorldDenyReason::Other(Some(s.clone())),
            WorldDenyReason::Other(None) => WorldDenyReason::Other(None),
        }
    }
}

/// The text of one chat message.
#[derive(Debug)]
pub struct ChatMessageContent(pub String);

impl View for ChatMessageContent {
    type V = Seq<char>;

    open spec fn view(&self) -> Seq<char> {
        self.0@
    }
}

impl Clone for ChatMessageContent {
    fn clone(&self) -> (r: Self)
        ensures
            r@ == self@,
    {
        ChatMessageContent(self.0.clone())
    }
}

/// Mathematical model of a [`ChatMessageBundle`].
pub struct ChatMessageBundleView {
    pub content: Seq<char>,
    pub source: SourceView,
    pub target: TargetView,
}

/// One chat message: its text, who sent it, and who it is for.
#[derive(Debug)]
pub struct ChatMessageBundle {
    pub content: ChatMessageContent,
    pub source: Source,
    pub target: Target,
}

impl View for ChatMessageBundle {
    type V = ChatMessageBundleView;

    open spec fn view(&self) -> ChatMessageBundleView {
        ChatMessageBundleView { content: self.content@, source: self.source@, target: self.target@ }
    }
}

impl Clone for ChatMessageBundle {
    fn clone(&self) -> (r: Self)
        ensures
            r@ == self@,
    {
        ChatMessageBundle {
            content: self.content.clone(),
            source: self.source.clone(),
            target: self.target.clone(),
        }
    }
}

/// Mathematical model of a [`ServerMessage`].
pub enum ServerMessageView {
    Ping { timestamp: u128 },
    Disconnect(DisconnectReasonView),
    PlayerJoin(ClientId, PlayerDataView, Position),
    PlayerLeave(ClientId),
    PlayerNick(ClientId, Seq<char>),
    ChatMessage(ChatMessageBundleView),
    PlayerPosition(ClientId, Position),
    RawTileIds(Seq<IdentifierView>),
    WorldTiles(Seq<(TilePos, WorldTile)>),
}

/// A message that the server sends to a client (or to all/some clients).
#[derive(Debug)]
pub enum ServerMessage {
    Ping {
        /// The time the ping was sent.
        timestamp: u128,
    },
    /// Signals a disconnection is about to happen and gives the reason.
    Disconnect(DisconnectReason),
    PlayerJoin(ClientId, PlayerData, Position),
    PlayerLeave(ClientId),
    /// A player's display name (nickname) changed.
    PlayerNick(ClientId, String),
    ChatMessage(ChatMessageBundle),
    PlayerPosition(ClientId, Position),
    /// Syncs the server's raw-id registry with the client.
    RawTileIds(RawIds),
    WorldTiles(TileMap),
}

impl View for ServerMessage {
    type V = ServerMessageView;

    open spec fn view(&self) -> ServerMessageView {
        match self {
            ServerMessage::Ping { timestamp } => ServerMessageView::Ping { timestamp: *timestamp },
            ServerMessage::Disconnect(r) => ServerMessageView::Disconnect(r@),
            ServerMessage::PlayerJoin(id, data, pos) => ServerMessageView::PlayerJoin(
                *id,
                data@,
                *pos,
            ),
            ServerMessage::PlayerLeave(id) => ServerMessageView::PlayerLeave(*id),
            ServerMessage::PlayerNick(id, name) => ServerMessageView::PlayerNick(*id, name@),
            ServerMessage::ChatMessage(bundle) => ServerMessageView::ChatMessage(bundle@),
            ServerMessage::PlayerPosition(id, pos) => ServerMessageView::PlayerPosition(*id, *pos),
            ServerMessage::RawTileIds(ids) => ServerMessageView::RawTileIds(ids@),
            ServerMessage::WorldTiles(tiles) => ServerMessageView::WorldTiles(tiles@),
        }
    }
}

/// Mathematical model of a [`ServerResponse`].
pub enum ServerResponseView {
    JoinDeny(DisconnectReasonView),
    JoinAccept,
    PingAck { timestamp: u128 },
    EnterWorldDeny(WorldDenyReasonView),
    EnterWorldAccept(Seq<char>),
}

/// A message that the server sends to a client in response to a message
/// from that client.
#[derive(Debug)]
pub enum ServerResponse {
    JoinDeny(DisconnectReason),
    JoinAccept,
    PingAck {
        /// The time the ping was sent.
        timestamp: u128,
    },
    EnterWorldDeny(WorldDenyReason),
    EnterWorldAccept(WorldId),
}

impl View for ServerResponse {
    type V = ServerResponseView;

    open spec fn view(&self) -> ServerResponseView {
        match self {
            ServerResponse::JoinDeny(r) => ServerResponseView::JoinDeny(r@),
            ServerResponse::JoinAccept => ServerResponseView::JoinAccept,
            ServerResponse::PingAck { timestamp } => ServerResponseView::PingAck {
                timestamp: *timestamp,
            },
            ServerResponse::EnterWorldDeny(r) => ServerResponseView::EnterWorldDeny(r@),
            ServerResponse::EnterWorldAccept(id) => ServerResponseView::EnterWorldAccept(id@),
        }
    }
}

/// Mathematical model of a [`ClientMessage`].
pub enum ClientMessageView {
    JoinRequest { protocol_ver: ProtocolVersion },
    Ping { timestamp: u128 },
    ChatMessage(TargetView, Seq<char>),
    EnterWorldRequest(Seq<char>),
    PlayerPosition(Position),
}

/// A message that the client sends to the server.
#[derive(Debug)]
pub enum ClientMessage {
    JoinRequest {
        /// The version of the protocol.
        protocol_ver: ProtocolVersion,
    },
    Ping {
        /// The time the ping was sent.
        timestamp: u128,
    },
    ChatMessage(Target, String),
    EnterWorldRequest(String),
    PlayerPosition(Position),
}

impl View for ClientMessage {
    type V = ClientMessageView;

    open spec fn view(&self) -> ClientMessageView {
        match self {
            ClientMessage::JoinRequest { protocol_ver } => ClientMessageView::JoinRequest {
                protocol_ver: *protocol_ver,
            },
            ClientMessage::Ping { timestamp } => ClientMessageView::Ping { timestamp: *timestamp },
            ClientMessage::ChatMessage(target, text) => ClientMessageView::ChatMessage(
                target@,
                text@,
            ),
            ClientMessage::EnterWorldRequest(name) => ClientMessageView::EnterWorldRequest(name@),
            ClientMessage::PlayerPosition(pos) => ClientMessageView::PlayerPosition(*pos),
        }
    }
}

/// Mathematical model of a [`ClientResponse`].
pub enum ClientResponseView {
    PingAck { timestamp: u128 },
}

/// A message that the client sends to the server in response to a message
/// the server sent.
#[derive(Debug)]
pub enum ClientResponse {
    PingAck {
        /// The time the ping was sent.
        timestamp: u128,
    },
}

impl View for ClientResponse {
    type V = ClientResponseView;

    open spec fn view(&self) -> ClientResponseView {
        match self {
            ClientResponse::PingAck { timestamp } => ClientResponseView::PingAck {
                timestamp: *timestamp,
            },
        }
    }
}

/// Mathematical model of a [`Packet`].
pub enum PacketView {
    ServerMessage(ServerMessageView),
    ServerResponse(ServerResponseView),
    ClientMessage(ClientMessageView),
    ClientResponse(ClientResponseView),
}

/// A type of message/response: the tagged union that actually goes on
/// the wire.
#[derive(Debug)]
pub enum Packet {
    ServerMessage(ServerMessage),
    ServerResponse(ServerResponse),
    ClientMessage(ClientMessage),
    ClientResponse(ClientResponse),
}

impl View for Packet {
    type V = PacketView;

    open spec fn view(&self) -> PacketView {
        match self {
            Packet::ServerMessage(m) => PacketView::ServerMessage(m@),
            Packet::ServerResponse(m) => PacketView::ServerResponse(m@),
            Packet::ClientMessage(m) => PacketView::ClientMessage(m@),
            Packet::ClientResponse(m) => PacketView::ClientResponse(m@),
        }
    }
}

/// The channel each packet variant is bound to, chosen by its delivery
/// requirement: session control rides Reliable-Ordered, latency probes
/// Reliable-Unordered, position updates Unreliable.
pub open spec fn spec_channel_of(p: PacketView) -> Channel {
    match p {
        PacketView::ServerMessage(m) => match m {
            ServerMessageView::Ping { .. } => Channel::ReliableUnordered,
            ServerMessageView::PlayerPosition(..) => Channel::Unreliable,
            _ => Channel::ReliableOrdered,
        },
        PacketView::ServerResponse(m) => match m {
            ServerResponseView::PingAck { .. } => Channel::ReliableUnordered,
            _ => Channel::ReliableOrdered,
        },
        PacketView::ClientMessage(m) => match m {
            ClientMessageView::Ping { .. } => Channel::ReliableUnordered,
            ClientMessageView::PlayerPosition(..) => Channel::Unreliable,
            _ => Channel::ReliableOrdered,
        },
        PacketView::ClientResponse(m) => match m {
            ClientResponseView::PingAck { .. } => Channel::ReliableUnordered,
        },
    }
}

/// The channel `p` is bound to; see [`spec_channel_of`].
pub fn channel_of(p: &Packet) -> (r: Channel)
    ensures
        r == spec_channel_of(p@),
{
    match p {
        Packet::ServerMessage(m) => match m {
            ServerMessage::Ping { .. } => Channel::ReliableUnordered,
            ServerMessage::PlayerPosition(..) => Channel::Unreliable,
            _ => Channel::ReliableOrdered,
        },
        Packet::ServerResponse(m) => match m {
            ServerResponse::PingAck { .. } => Channel::ReliableUnordered,
            _ => Channel::ReliableOrdered,
        },
        Packet::ClientMessage(m) => match m {
            ClientMessage::Ping { .. } => Channel::ReliableUnordered,
            ClientMessage::PlayerPosition(..) => Channel::Unreliable,
            _ => Channel::ReliableOrdered,
        },
        Packet::ClientResponse(m) => match m {
            ClientResponse::PingAck { .. } => Channel::ReliableUnordered,
        },
    }
}

} // verus!
