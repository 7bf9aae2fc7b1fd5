//! The server connection state machine: handshake, world entry, ban
//! enforcement, chat relay, disconnects and latency bookkeeping.

use botanica::identifier::Identifier;
use botanica::networking::protocol::{Channel, ClientId, DisconnectReason, Packet, PlayerData,
    ProtocolVersion, ServerMessage, ServerResponse, WorldDenyReason, PROTOCOL_VER};
use botanica::networking::stats::PlayerNetStats;
use botanica::networking::Username;
use botanica::player::{Source, Target};
use botanica::raw_id::{RawId, RawIds};
use botanica::server::{ensure_world_loaded, handle_chat_message, handle_client_connected,
    handle_client_disconnected, handle_enter_world_request, handle_join_request, handle_ping,
    handle_ping_ack, handle_player_position, send_chat, Players, ServerAction, ServerConfig};
use botanica::tile::{TileData, TilePos, WorldTile};
use botanica::world::{Position, ServerGameWorlds, WorldBan, WorldBanUntil};

fn registry() -> RawIds {
    let mut ids = RawIds::new();
    ids.register(Identifier::from_str("botanica", "grass"));
    ids
}

fn connected_player(players: &mut Players, ids: &RawIds, id: u64, name: &str) {
    let acts = handle_client_connected(players, ClientId(id), Some(Username(name.to_string())), ids);
    assert_eq!(acts.len(), 1);
}

/// Handshake, mismatched version: exactly one `JoinDeny(ProtocolReject)`
/// and a forced disconnect.
#[test]
fn join_request_with_wrong_version_is_denied_and_disconnected() {
    let acts = handle_join_request(ClientId(7), ProtocolVersion(PROTOCOL_VER + 1));
    assert_eq!(acts.len(), 2);
    assert!(matches!(
        &acts[0],
        ServerAction::Send(
            ClientId(7),
            Channel::ReliableOrdered,
            Packet::ServerResponse(ServerResponse::JoinDeny(DisconnectReason::ProtocolReject {
                required_protocol_ver: ProtocolVersion(PROTOCOL_VER),
                ..
            })),
        )
    ));
    assert!(matches!(&acts[1], ServerAction::DisconnectClient(ClientId(7))));
}

/// Handshake, matching version: exactly one `JoinAccept`, no disconnect.
#[test]
fn join_request_with_right_version_is_accepted() {
    let acts = handle_join_request(ClientId(7), ProtocolVersion(PROTOCOL_VER));
    assert_eq!(acts.len(), 1);
    assert!(matches!(
        &acts[0],
        ServerAction::Send(
            ClientId(7),
            Channel::ReliableOrdered,
            Packet::ServerResponse(ServerResponse::JoinAccept),
        )
    ));
}

#[test]
fn connect_without_userdata_is_fatal_for_the_connection() {
    let ids = registry();
    let mut players = Players::new();
    let acts = handle_client_connected(&mut players, ClientId(1), None, &ids);
    assert_eq!(acts.len(), 2);
    assert!(matches!(
        &acts[0],
        ServerAction::Send(
            ClientId(1),
            Channel::ReliableOrdered,
            Packet::ServerMessage(ServerMessage::Disconnect(DisconnectReason::EmptyUserdata)),
        )
    ));
    assert!(matches!(&acts[1], ServerAction::DisconnectClient(ClientId(1))));
    assert!(players.get(ClientId(1)).is_none());
}

#[test]
fn connect_with_userdata_gets_the_registry_snapshot() {
    let ids = registry();
    let mut players = Players::new();
    let acts =
        handle_client_connected(&mut players, ClientId(1), Some(Username("ada".to_string())), &ids);
    assert_eq!(acts.len(), 1);
    match &acts[0] {
        ServerAction::Send(
            ClientId(1),
            Channel::ReliableOrdered,
            Packet::ServerMessage(ServerMessage::RawTileIds(snapshot)),
        ) => {
            assert_eq!(snapshot.len(), 1);
        },
        _ => panic!("expected the registry snapshot"),
    }
    let session = players.get(ClientId(1)).expect("session open");
    assert_eq!(session.data.username.0, "ada");
    assert!(session.world.is_none());
}

fn loaded_worlds(ids: &RawIds) -> ServerGameWorlds {
    let mut worlds = ServerGameWorlds::new();
    ensure_world_loaded(&mut worlds, "home", None, ids).expect("generated");
    worlds
}

/// World entry happy path: accept with the world id, the full tile map,
/// roster membership, and announcements to prior members.
#[test]
fn enter_world_accepts_and_sends_tiles() {
    let ids = registry();
    let mut players = Players::new();
    connected_player(&mut players, &ids, 1, "ada");
    let mut worlds = loaded_worlds(&ids);

    let acts = handle_enter_world_request(&mut worlds, &mut players, ClientId(1), "home", 0);
    assert_eq!(acts.len(), 2);
    match &acts[0] {
        ServerAction::Send(
            ClientId(1),
            Channel::ReliableOrdered,
            Packet::ServerResponse(ServerResponse::EnterWorldAccept(world_id)),
        ) => assert_eq!(world_id.0, "home"),
        _ => panic!("expected acceptance"),
    }
    match &acts[1] {
        ServerAction::Send(
            ClientId(1),
            Channel::ReliableOrdered,
            Packet::ServerMessage(ServerMessage::WorldTiles(tiles)),
        ) => assert_eq!(tiles.len(), 33),
        _ => panic!("expected the world snapshot"),
    }
    let world = worlds.get_world("home").expect("loaded");
    assert!(world.roster_contains(ClientId(1)));
    let session = players.get(ClientId(1)).expect("session");
    assert_eq!(session.world.as_ref().expect("in world").0, "home");
}

#[test]
fn second_player_join_is_announced_to_the_first() {
    let ids = registry();
    let mut players = Players::new();
    connected_player(&mut players, &ids, 1, "ada");
    connected_player(&mut players, &ids, 2, "bob");
    let mut worlds = loaded_worlds(&ids);
    handle_enter_world_request(&mut worlds, &mut players, ClientId(1), "home", 0);

    let acts = handle_enter_world_request(&mut worlds, &mut players, ClientId(2), "home", 0);
    assert_eq!(acts.len(), 3);
    match &acts[2] {
        ServerAction::Send(
            ClientId(1),
            Channel::ReliableOrdered,
            Packet::ServerMessage(ServerMessage::PlayerJoin(ClientId(2), data, _)),
        ) => assert_eq!(data.username.0, "bob"),
        _ => panic!("expected the join announcement to the first player"),
    }
}

/// Sanitization: an empty name and a name that sanitizing would alter
/// are both denied as invalid.
#[test]
fn empty_world_name_is_denied() {
    let ids = registry();
    let mut players = Players::new();
    connected_player(&mut players, &ids, 1, "ada");
    let mut worlds = ServerGameWorlds::new();
    let acts = handle_enter_world_request(&mut worlds, &mut players, ClientId(1), "", 0);
    assert_eq!(acts.len(), 1);
    assert!(matches!(
        &acts[0],
        ServerAction::Send(
            ClientId(1),
            Channel::ReliableOrdered,
            Packet::ServerResponse(ServerResponse::EnterWorldDeny(
                WorldDenyReason::InvalidWorldName
            )),
        )
    ));
}

#[test]
fn path_like_world_name_is_denied() {
    let ids = registry();
    let mut players = Players::new();
    connected_player(&mut players, &ids, 1, "ada");
    let mut worlds = ServerGameWorlds::new();
    let acts = handle_enter_world_request(&mut worlds, &mut players, ClientId(1), "../etc", 0);
    assert_eq!(acts.len(), 1);
    assert!(matches!(
        &acts[0],
        ServerAction::Send(
            ClientId(1),
            Channel::ReliableOrdered,
            Packet::ServerResponse(ServerResponse::EnterWorldDeny(
                WorldDenyReason::InvalidWorldName
            )),
        )
    ));
}

/// Ban enforcement: a banned, unexpired username is denied with the
/// ban's reason and expiry, and is absent from the roster afterward.
#[test]
fn banned_player_is_denied_and_off_the_roster() {
    let ids = registry();
    let mut players = Players::new();
    connected_player(&mut players, &ids, 1, "griefer");
    let mut worlds = ServerGameWorlds::new();
    let mut save = botanica::save::WorldSave::new();
    save.bans.insert(
        Username("griefer".to_string()),
        WorldBan::new("no".to_string(), WorldBanUntil(100)),
    );
    let bytes = save.serialize(&ids).expect("serializable");
    ensure_world_loaded(&mut worlds, "home", Some(bytes), &ids).expect("loaded");

    let acts = handle_enter_world_request(&mut worlds, &mut players, ClientId(1), "home", 50);
    assert_eq!(acts.len(), 1);
    match &acts[0] {
        ServerAction::Send(
            ClientId(1),
            Channel::ReliableOrdered,
            Packet::ServerResponse(ServerResponse::EnterWorldDeny(WorldDenyReason::Banned(
                reason,
                until,
            ))),
        ) => {
            assert_eq!(reason, "no");
            assert_eq!(*until, WorldBanUntil(100));
        },
        _ => panic!("expected the ban denial"),
    }
    let world = worlds.get_world("home").expect("loaded");
    assert!(!world.roster_contains(ClientId(1)));
}

#[test]
fn expired_ban_no_longer_blocks_entry() {
    let ids = registry();
    let mut players = Players::new();
    connected_player(&mut players, &ids, 1, "griefer");
    let mut worlds = ServerGameWorlds::new();
    let mut save = botanica::save::WorldSave::new();
    save.bans.insert(
        Username("griefer".to_string()),
        WorldBan::new("no".to_string(), WorldBanUntil(100)),
    );
    let bytes = save.serialize(&ids).expect("serializable");
    ensure_world_loaded(&mut worlds, "home", Some(bytes), &ids).expect("loaded");

    // At time 100 the ban has run out.
    let acts = handle_enter_world_request(&mut worlds, &mut players, ClientId(1), "home", 100);
    assert!(acts.len() >= 1);
    assert!(matches!(
        &acts[0],
        ServerAction::Send(
            _,
            _,
            Packet::ServerResponse(ServerResponse::EnterWorldAccept(_)),
        )
    ));
}

#[test]
fn disconnect_removes_session_and_roster_entry() {
    let ids = registry();
    let mut players = Players::new();
    connected_player(&mut players, &ids, 1, "ada");
    let mut worlds = loaded_worlds(&ids);
    handle_enter_world_request(&mut worlds, &mut players, ClientId(1), "home", 0);
    assert!(worlds.get_world("home").expect("loaded").roster_contains(ClientId(1)));

    handle_client_disconnected(&mut players, &mut worlds, ClientId(1));
    assert!(players.get(ClientId(1)).is_none());
    assert!(!worlds.get_world("home").expect("loaded").roster_contains(ClientId(1)));
}

#[test]
fn ping_is_acknowledged_and_measured() {
    let mut stats = PlayerNetStats::new();
    let acts = handle_ping(&mut stats, ClientId(3), 1_000, 1_250);
    assert_eq!(acts.len(), 1);
    assert!(matches!(
        &acts[0],
        ServerAction::Send(
            ClientId(3),
            Channel::ReliableUnordered,
            Packet::ServerResponse(ServerResponse::PingAck { timestamp: 1_000 }),
        )
    ));
    assert_eq!(stats.get(ClientId(3)).expect("recorded").ping, 250);

    handle_ping_ack(&mut stats, ClientId(3), 2_000, 2_100);
    assert_eq!(stats.get(ClientId(3)).expect("recorded").ping, 100);
    assert!(stats.remove(ClientId(3)).is_some());
    assert!(stats.get(ClientId(3)).is_none());
}

#[test]
fn position_updates_fan_out_to_the_world() {
    let ids = registry();
    let mut players = Players::new();
    connected_player(&mut players, &ids, 1, "ada");
    connected_player(&mut players, &ids, 2, "bob");
    let mut worlds = loaded_worlds(&ids);
    handle_enter_world_request(&mut worlds, &mut players, ClientId(1), "home", 0);
    handle_enter_world_request(&mut worlds, &mut players, ClientId(2), "home", 0);

    let pos = Position { x_bits: 5, y_bits: 6 };
    let acts = handle_player_position(&players, &worlds, ClientId(1), pos);
    assert_eq!(acts.len(), 2);
    for act in &acts {
        assert!(matches!(
            act,
            ServerAction::Send(
                _,
                Channel::Unreliable,
                Packet::ServerMessage(ServerMessage::PlayerPosition(ClientId(1), _)),
            )
        ));
    }

    // A player in no world produces no traffic.
    connected_player(&mut players, &ids, 9, "idle");
    assert_eq!(handle_player_position(&players, &worlds, ClientId(9), pos).len(), 0);
}

#[test]
fn server_wide_chat_logs_stripped_text_and_broadcasts() {
    let worlds = ServerGameWorlds::new();
    let acts = send_chat(
        &worlds,
        Source::System,
        Target::All,
        "hello `bworld`r!".to_string(),
    );
    assert_eq!(acts.len(), 2);
    match &acts[0] {
        // The line is "<source tag> <message>", stripped; the system's
        // tag is empty.
        ServerAction::Log(line) => assert_eq!(line, " hello world!"),
        _ => panic!("expected the console line first"),
    }
    assert!(matches!(
        &acts[1],
        ServerAction::Broadcast(
            Channel::ReliableOrdered,
            Packet::ServerMessage(ServerMessage::ChatMessage(_)),
        )
    ));
}

#[test]
fn server_wide_chat_log_carries_the_player_tag() {
    let worlds = ServerGameWorlds::new();
    let acts = send_chat(
        &worlds,
        Source::Player(ClientId(42), Some(botanica::world::WorldId("home".to_string()))),
        Target::All,
        "`bhi".to_string(),
    );
    match &acts[0] {
        ServerAction::Log(line) => assert_eq!(line, "%p{42} [in %w{home}] hi"),
        _ => panic!("expected the console line first"),
    }
    let acts = send_chat(&worlds, Source::Unknown, Target::All, "who".to_string());
    match &acts[0] {
        ServerAction::Log(line) => assert_eq!(line, "(anonymous) who"),
        _ => panic!("expected the console line first"),
    }
}

#[test]
fn chat_to_a_player_list_sends_one_message_each() {
    let ids = registry();
    let mut players = Players::new();
    connected_player(&mut players, &ids, 1, "ada");
    let worlds = ServerGameWorlds::new();
    let acts = handle_chat_message(
        &players,
        &worlds,
        ClientId(1),
        Target::Players(vec![ClientId(4), ClientId(5)]),
        "hi".to_string(),
    );
    assert_eq!(acts.len(), 2);
    for (act, want) in acts.iter().zip([ClientId(4), ClientId(5)]) {
        match act {
            ServerAction::Send(
                id,
                Channel::ReliableOrdered,
                Packet::ServerMessage(ServerMessage::ChatMessage(bundle)),
            ) => {
                assert_eq!(*id, want);
                assert_eq!(bundle.content.0, "hi");
                assert!(matches!(bundle.source, Source::Player(ClientId(1), None)));
            },
            _ => panic!("expected a chat send"),
        }
    }
}

#[test]
fn world_chat_reaches_the_roster() {
    let ids = registry();
    let mut players = Players::new();
    connected_player(&mut players, &ids, 1, "ada");
    connected_player(&mut players, &ids, 2, "bob");
    let mut worlds = loaded_worlds(&ids);
    handle_enter_world_request(&mut worlds, &mut players, ClientId(1), "home", 0);
    handle_enter_world_request(&mut worlds, &mut players, ClientId(2), "home", 0);

    let acts =
        handle_chat_message(&players, &worlds, ClientId(1), Target::World, "yo".to_string());
    assert_eq!(acts.len(), 2);
}

#[test]
fn default_config_matches_the_documented_endpoint() {
    let config = ServerConfig::default();
    assert_eq!(config.address.0, "127.0.0.1");
    assert_eq!(config.port.0, 44738);
    assert_eq!(config.max_clients, 16);
}

#[test]
fn world_load_failure_touches_nothing() {
    let ids = registry();
    let mut worlds = ServerGameWorlds::new();
    let r = ensure_world_loaded(&mut worlds, "home", Some(vec![9, 9, 9]), &ids);
    assert!(r.is_err());
    assert!(worlds.get_world("home").is_none());
}
