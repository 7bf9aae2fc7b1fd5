//! The client connection state machine: connect phase, the join
//! verdict, world entry and the in-session message handling.

use botanica::client::{timed_out, ClientAction, ClientConn, ClientState, ConnectingEvent};
use botanica::identifier::Identifier;
use botanica::networking::protocol::{Channel, ChatMessageBundle, ChatMessageContent, ClientMessage,
    ClientResponse, DisconnectReason, Packet, ProtocolVersion, ServerMessage, ServerResponse,
    PROTOCOL_VER};
use botanica::networking::DisconnectReason as ClientDisconnectReason;
use botanica::networking::Username;
use botanica::player::{Source, Target};
use botanica::raw_id::{RawId, RawIds};
use botanica::tile::{TileData, TilePos, WorldTile};
use botanica::world::{TileEventError, TileMap, WorldId};

fn registry() -> RawIds {
    let mut ids = RawIds::new();
    ids.register(Identifier::from_str("botanica", "grass"));
    ids
}

#[test]
fn connect_phase_sends_exactly_one_join_request() {
    let mut conn = ClientConn::connect();
    assert_eq!(conn.state, ClientState::Connecting);
    let acts = conn.handle_connecting_event(ConnectingEvent::Connected);
    assert_eq!(conn.state, ClientState::AwaitingJoinAccept);
    assert_eq!(acts.len(), 1);
    assert!(matches!(
        &acts[0],
        ClientAction::Send(
            Channel::ReliableOrdered,
            Packet::ClientMessage(ClientMessage::JoinRequest {
                protocol_ver: ProtocolVersion(PROTOCOL_VER)
            }),
        )
    ));
}

#[test]
fn repeated_connected_signal_sends_no_second_join_request() {
    let mut conn = ClientConn::connect();
    let first = conn.handle_connecting_event(ConnectingEvent::Connected);
    assert_eq!(first.len(), 1);
    // The transport keeps reporting "connected"; the request is already
    // out, so nothing more is sent and nothing changes.
    let again = conn.handle_connecting_event(ConnectingEvent::Connected);
    assert_eq!(again.len(), 0);
    assert_eq!(conn.state, ClientState::AwaitingJoinAccept);
}

#[test]
fn join_accept_advances_to_world_select() {
    let mut conn = ClientConn::connect();
    conn.handle_connecting_event(ConnectingEvent::Connected);
    let acts = conn.handle_connecting_event(ConnectingEvent::Received(Packet::ServerResponse(
        ServerResponse::JoinAccept,
    )));
    assert_eq!(conn.state, ClientState::WorldSelect);
    assert_eq!(acts.len(), 0);
    assert!(conn.disconnect_reason.is_none());
}

#[test]
fn join_deny_disconnects_with_the_server_reason() {
    let mut conn = ClientConn::connect();
    conn.handle_connecting_event(ConnectingEvent::Connected);
    let acts = conn.handle_connecting_event(ConnectingEvent::Received(Packet::ServerResponse(
        ServerResponse::JoinDeny(DisconnectReason::ProtocolReject {
            required_protocol_ver: ProtocolVersion(PROTOCOL_VER),
            required_version_string: "0.1.0-alpha.0".to_string(),
        }),
    )));
    assert_eq!(conn.state, ClientState::Disconnected);
    assert_eq!(acts.len(), 1);
    assert!(matches!(&acts[0], ClientAction::Disconnect));
    assert!(matches!(
        conn.disconnect_reason,
        Some(ClientDisconnectReason::Disconnected(DisconnectReason::ProtocolReject { .. }))
    ));
}

#[test]
fn connect_timeout_never_waits_forever() {
    assert!(!timed_out(4_999, 5_000));
    assert!(timed_out(5_000, 5_000));
    let mut conn = ClientConn::connect();
    let acts = conn.handle_connecting_event(ConnectingEvent::TimedOut);
    assert_eq!(conn.state, ClientState::Disconnected);
    assert!(matches!(&acts[0], ClientAction::Disconnect));
    assert!(matches!(
        conn.disconnect_reason,
        Some(ClientDisconnectReason::Transport(_))
    ));
}

#[test]
fn transport_and_client_errors_record_their_sources() {
    let mut conn = ClientConn::connect();
    conn.handle_connecting_event(ConnectingEvent::TransportError("reset".to_string()));
    assert!(matches!(
        conn.disconnect_reason,
        Some(ClientDisconnectReason::Transport(ref m)) if m == "reset"
    ));

    let mut conn = ClientConn::connect();
    conn.handle_connecting_event(ConnectingEvent::ClientError("oops".to_string()));
    assert!(matches!(
        conn.disconnect_reason,
        Some(ClientDisconnectReason::Client(ref m)) if m == "oops"
    ));
}

#[test]
fn registry_snapshot_is_adopted_during_connect() {
    let mut conn = ClientConn::connect();
    conn.handle_connecting_event(ConnectingEvent::Connected);
    let acts = conn.handle_connecting_event(ConnectingEvent::Received(Packet::ServerMessage(
        ServerMessage::RawTileIds(registry()),
    )));
    assert_eq!(acts.len(), 0);
    assert_eq!(conn.state, ClientState::AwaitingJoinAccept);
    assert_eq!(conn.server_ids.as_ref().expect("adopted").len(), 1);
}

#[test]
fn ping_is_acknowledged_immediately() {
    let mut conn = ClientConn::connect();
    let acts = conn
        .handle_server_message(ServerMessage::Ping { timestamp: 42 })
        .expect("no tile error");
    assert_eq!(acts.len(), 1);
    assert!(matches!(
        &acts[0],
        ClientAction::Send(
            Channel::ReliableUnordered,
            Packet::ClientResponse(ClientResponse::PingAck { timestamp: 42 }),
        )
    ));
}

#[test]
fn chat_goes_to_the_ui_layer() {
    let mut conn = ClientConn::connect();
    let bundle = ChatMessageBundle {
        content: ChatMessageContent("hi".to_string()),
        source: Source::System,
        target: Target::All,
    };
    let acts = conn.handle_server_message(ServerMessage::ChatMessage(bundle)).expect("ok");
    assert_eq!(acts.len(), 1);
    assert!(matches!(&acts[0], ClientAction::DeliverChat(_)));
}

#[test]
fn world_entry_walks_loading_then_in_world() {
    let mut conn = ClientConn::connect();
    conn.state = ClientState::WorldSelect;
    conn.server_ids = Some(registry());

    let acts = conn.request_enter_world("home".to_string());
    assert!(matches!(
        &acts[0],
        ClientAction::Send(
            Channel::ReliableOrdered,
            Packet::ClientMessage(ClientMessage::EnterWorldRequest(_)),
        )
    ));

    conn.handle_server_response(ServerResponse::EnterWorldAccept(WorldId("home".to_string())), 0);
    assert_eq!(conn.state, ClientState::LoadingWorld);
    assert_eq!(conn.world.as_ref().expect("adopted").id.0, "home");

    let mut tiles = TileMap::new();
    tiles.insert(TilePos { x: 0, y: 0 }, WorldTile(RawId(0), TileData(0)));
    conn.handle_server_message(ServerMessage::WorldTiles(tiles)).expect("valid ids");
    assert_eq!(conn.state, ClientState::InWorld);
    let world = conn.world.as_ref().expect("mirror");
    assert_eq!(
        world.get_tile(&TilePos { x: 0, y: 0 }),
        Some(WorldTile(RawId(0), TileData(0)))
    );
}

#[test]
fn world_snapshot_with_unknown_raw_id_is_rejected_whole() {
    let mut conn = ClientConn::connect();
    conn.state = ClientState::LoadingWorld;
    conn.server_ids = Some(registry());
    let mut tiles = TileMap::new();
    tiles.insert(TilePos { x: 0, y: 0 }, WorldTile(RawId(0), TileData(0)));
    tiles.insert(TilePos { x: 1, y: 0 }, WorldTile(RawId(5), TileData(0)));
    let r = conn.handle_server_message(ServerMessage::WorldTiles(tiles));
    assert!(matches!(
        r,
        Err(TileEventError::InvalidRawId(RawId(5), TilePos { x: 1, y: 0 }))
    ));
    assert!(conn.world.is_none());
    assert_eq!(conn.state, ClientState::LoadingWorld);
}

#[test]
fn world_entry_denial_stays_in_world_select() {
    let mut conn = ClientConn::connect();
    conn.state = ClientState::WorldSelect;
    let acts = conn.handle_server_response(
        ServerResponse::EnterWorldDeny(
            botanica::networking::protocol::WorldDenyReason::InvalidWorldName,
        ),
        0,
    );
    assert_eq!(conn.state, ClientState::WorldSelect);
    assert_eq!(acts.len(), 1);
    assert!(matches!(&acts[0], ClientAction::SurfaceDeny(_)));
    assert!(conn.world.is_none());
}

#[test]
fn ping_ack_fixes_the_measured_latency() {
    let mut conn = ClientConn::connect();
    conn.handle_server_response(ServerResponse::PingAck { timestamp: 100 }, 175);
    assert_eq!(conn.last_ping.expect("measured").0, 75);
    // A clock running behind the timestamp measures zero, not a panic.
    conn.handle_server_response(ServerResponse::PingAck { timestamp: 200 }, 175);
    assert_eq!(conn.last_ping.expect("measured").0, 0);
}

#[test]
fn server_disconnect_forces_disconnected() {
    let mut conn = ClientConn::connect();
    conn.state = ClientState::InWorld;
    let acts = conn
        .handle_server_message(ServerMessage::Disconnect(DisconnectReason::Kicked(
            "bye".to_string(),
        )))
        .expect("ok");
    assert_eq!(conn.state, ClientState::Disconnected);
    assert!(matches!(&acts[0], ClientAction::Disconnect));
}

#[test]
fn chat_sending_uses_the_session_channel() {
    let conn = ClientConn::connect();
    let acts = conn.send_chat(Target::All, "hello".to_string());
    assert_eq!(acts.len(), 1);
    assert!(matches!(
        &acts[0],
        ClientAction::Send(
            Channel::ReliableOrdered,
            Packet::ClientMessage(ClientMessage::ChatMessage(Target::All, _)),
        )
    ));
}

#[test]
fn username_user_data_round_trips() {
    let name = Username("ada_lovelace".to_string());
    let data = name.to_user_data();
    assert_eq!(data.len(), 256);
    assert_eq!(data[0], 12);
    let back = Username::from_user_data(&data).expect("valid utf-8");
    assert_eq!(back.0, "ada_lovelace");
}

#[test]
fn malformed_user_data_is_rejected() {
    let mut data = vec![0u8; 256];
    data[0] = 2;
    data[1] = 0xFF;
    data[2] = 0xFF;
    assert!(Username::from_user_data(&data).is_none());
}
