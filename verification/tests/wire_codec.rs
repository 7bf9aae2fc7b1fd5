//! The wire codec: big-endian layout, round trips for every message
//! category, the channel table, and rejection of malformed buffers.

use botanica::identifier::Identifier;
use botanica::networking::protocol::{channel_of, Channel, ChatMessageBundle, ChatMessageContent,
    ClientId, ClientMessage, ClientResponse, DisconnectReason, Packet, ProtocolVersion,
    ServerMessage, ServerResponse, WorldDenyReason};
use botanica::networking::wire::{decode_packet, encode_packet};
use botanica::networking::Username;
use botanica::player::{Source, Target};
use botanica::raw_id::{RawId, RawIds};
use botanica::tile::{TileData, TilePos, WorldTile};
use botanica::world::{Position, TileMap, WorldBanUntil, WorldId};

fn round_trip(p: Packet) -> Packet {
    let bytes = encode_packet(&p);
    decode_packet(&bytes).expect("own encoding decodes")
}

#[test]
fn join_request_has_the_exact_wire_form() {
    let p = Packet::ClientMessage(ClientMessage::JoinRequest {
        protocol_ver: ProtocolVersion(0x01020304),
    });
    let bytes = encode_packet(&p);
    // client-message tag, join-request tag, version big-endian.
    assert_eq!(bytes, vec![2, 0, 1, 2, 3, 4]);
}

#[test]
fn join_request_round_trips() {
    let back = round_trip(Packet::ClientMessage(ClientMessage::JoinRequest {
        protocol_ver: ProtocolVersion(7),
    }));
    assert!(matches!(
        back,
        Packet::ClientMessage(ClientMessage::JoinRequest { protocol_ver: ProtocolVersion(7) })
    ));
}

#[test]
fn ping_timestamps_keep_all_128_bits() {
    let ts: u128 = 0x0102030405060708090A0B0C0D0E0F10;
    let back = round_trip(Packet::ServerResponse(ServerResponse::PingAck { timestamp: ts }));
    assert!(matches!(
        back,
        Packet::ServerResponse(ServerResponse::PingAck { timestamp }) if timestamp == ts
    ));
}

#[test]
fn join_deny_round_trips_with_its_reason() {
    let back = round_trip(Packet::ServerResponse(ServerResponse::JoinDeny(
        DisconnectReason::ProtocolReject {
            required_protocol_ver: ProtocolVersion(3),
            required_version_string: "0.1.0-alpha.0".to_string(),
        },
    )));
    match back {
        Packet::ServerResponse(ServerResponse::JoinDeny(DisconnectReason::ProtocolReject {
            required_protocol_ver,
            required_version_string,
        })) => {
            assert_eq!(required_protocol_ver, ProtocolVersion(3));
            assert_eq!(required_version_string, "0.1.0-alpha.0");
        },
        _ => panic!("wrong decode"),
    }
}

#[test]
fn world_deny_reasons_round_trip() {
    let back = round_trip(Packet::ServerResponse(ServerResponse::EnterWorldDeny(
        WorldDenyReason::Banned("bad manners".to_string(), WorldBanUntil(777)),
    )));
    match back {
        Packet::ServerResponse(ServerResponse::EnterWorldDeny(WorldDenyReason::Banned(
            reason,
            until,
        ))) => {
            assert_eq!(reason, "bad manners");
            assert_eq!(until, WorldBanUntil(777));
        },
        _ => panic!("wrong decode"),
    }
    let back = round_trip(Packet::ServerResponse(ServerResponse::EnterWorldDeny(
        WorldDenyReason::Other(None),
    )));
    assert!(matches!(
        back,
        Packet::ServerResponse(ServerResponse::EnterWorldDeny(WorldDenyReason::Other(None)))
    ));
}

#[test]
fn chat_bundles_round_trip_with_source_and_target() {
    let p = Packet::ServerMessage(ServerMessage::ChatMessage(ChatMessageBundle {
        content: ChatMessageContent("hej världen".to_string()),
        source: Source::Player(ClientId(11), Some(WorldId("home".to_string()))),
        target: Target::Players(vec![ClientId(1), ClientId(2), ClientId(3)]),
    }));
    match round_trip(p) {
        Packet::ServerMessage(ServerMessage::ChatMessage(bundle)) => {
            assert_eq!(bundle.content.0, "hej världen");
            match bundle.source {
                Source::Player(ClientId(11), Some(w)) => assert_eq!(w.0, "home"),
                _ => panic!("wrong source"),
            }
            match bundle.target {
                Target::Players(ids) => {
                    assert_eq!(ids, vec![ClientId(1), ClientId(2), ClientId(3)])
                },
                _ => panic!("wrong target"),
            }
        },
        _ => panic!("wrong decode"),
    }
}

#[test]
fn registry_snapshot_round_trips_in_order() {
    let mut ids = RawIds::new();
    ids.register(Identifier::from_str("botanica", "grass"));
    ids.register(Identifier::from_str("botanica", "water"));
    match round_trip(Packet::ServerMessage(ServerMessage::RawTileIds(ids))) {
        Packet::ServerMessage(ServerMessage::RawTileIds(back)) => {
            assert_eq!(back.len(), 2);
            assert_eq!(
                back.get_raw_id(&Identifier::from_str("botanica", "water")),
                Some(RawId(1))
            );
            assert_eq!(back.get_id(RawId(0)).expect("assigned").path(), "grass");
        },
        _ => panic!("wrong decode"),
    }
}

#[test]
fn world_tiles_round_trip() {
    let mut tiles = TileMap::new();
    tiles.insert(TilePos { x: -1, y: 2 }, WorldTile(RawId(0), TileData(3)));
    tiles.insert(TilePos { x: 9, y: -9 }, WorldTile(RawId(4), TileData(0)));
    match round_trip(Packet::ServerMessage(ServerMessage::WorldTiles(tiles))) {
        Packet::ServerMessage(ServerMessage::WorldTiles(back)) => {
            assert_eq!(back.len(), 2);
            assert_eq!(
                back.get(TilePos { x: -1, y: 2 }),
                Some(WorldTile(RawId(0), TileData(3)))
            );
            assert_eq!(
                back.get(TilePos { x: 9, y: -9 }),
                Some(WorldTile(RawId(4), TileData(0)))
            );
        },
        _ => panic!("wrong decode"),
    }
}

#[test]
fn player_position_round_trips_bit_exactly() {
    let pos = Position { x_bits: 0x3F800000, y_bits: 0xC0490FDB };
    let back = round_trip(Packet::ClientMessage(ClientMessage::PlayerPosition(pos)));
    assert!(matches!(
        back,
        Packet::ClientMessage(ClientMessage::PlayerPosition(p)) if p == pos
    ));
}

#[test]
fn enter_world_request_round_trips() {
    let back = round_trip(Packet::ClientMessage(ClientMessage::EnterWorldRequest(
        "home-2".to_string(),
    )));
    assert!(matches!(
        back,
        Packet::ClientMessage(ClientMessage::EnterWorldRequest(ref n)) if n == "home-2"
    ));
}

#[test]
fn player_join_round_trips() {
    let back = round_trip(Packet::ServerMessage(ServerMessage::PlayerJoin(
        ClientId(8),
        botanica::networking::protocol::PlayerData { username: Username("ada".to_string()) },
        Position { x_bits: 0, y_bits: 0x3F800000 },
    )));
    match back {
        Packet::ServerMessage(ServerMessage::PlayerJoin(ClientId(8), data, _)) => {
            assert_eq!(data.username.0, "ada");
        },
        _ => panic!("wrong decode"),
    }
}

#[test]
fn client_response_round_trips() {
    let back = round_trip(Packet::ClientResponse(ClientResponse::PingAck { timestamp: 5 }));
    assert!(matches!(
        back,
        Packet::ClientResponse(ClientResponse::PingAck { timestamp: 5 })
    ));
}

#[test]
fn trailing_bytes_are_rejected() {
    let mut bytes = encode_packet(&Packet::ServerResponse(ServerResponse::JoinAccept));
    assert!(decode_packet(&bytes).is_some());
    bytes.push(0);
    assert!(decode_packet(&bytes).is_none());
}

#[test]
fn unknown_tags_and_empty_buffers_are_rejected() {
    assert!(decode_packet(&vec![]).is_none());
    assert!(decode_packet(&vec![9]).is_none());
    assert!(decode_packet(&vec![0, 200]).is_none());
}

#[test]
fn duplicate_tile_positions_never_decode() {
    // A hand-built WorldTiles body with the same position twice.
    let mut tiles = TileMap::new();
    tiles.insert(TilePos { x: 1, y: 1 }, WorldTile(RawId(0), TileData(0)));
    let mut bytes = encode_packet(&Packet::ServerMessage(ServerMessage::WorldTiles(tiles)));
    // Patch the count from 1 to 2 and append a second record for (1, 1).
    let record = &bytes[bytes.len() - 13..].to_vec();
    bytes[9] = 2;
    bytes.extend_from_slice(record);
    assert!(decode_packet(&bytes).is_none());
}

#[test]
fn channel_table_matches_the_delivery_requirements() {
    let ro = Packet::ClientMessage(ClientMessage::JoinRequest {
        protocol_ver: ProtocolVersion(0),
    });
    assert_eq!(channel_of(&ro), Channel::ReliableOrdered);
    let ru = Packet::ClientMessage(ClientMessage::Ping { timestamp: 0 });
    assert_eq!(channel_of(&ru), Channel::ReliableUnordered);
    let un = Packet::ClientMessage(ClientMessage::PlayerPosition(Position {
        x_bits: 0,
        y_bits: 0,
    }));
    assert_eq!(channel_of(&un), Channel::Unreliable);
    let sm = Packet::ServerMessage(ServerMessage::Ping { timestamp: 0 });
    assert_eq!(channel_of(&sm), Channel::ReliableUnordered);
    let sp = Packet::ServerMessage(ServerMessage::PlayerPosition(
        ClientId(0),
        Position { x_bits: 0, y_bits: 0 },
    ));
    assert_eq!(channel_of(&sp), Channel::Unreliable);
    let sr = Packet::ServerResponse(ServerResponse::JoinAccept);
    assert_eq!(channel_of(&sr), Channel::ReliableOrdered);
    let cr = Packet::ClientResponse(ClientResponse::PingAck { timestamp: 0 });
    assert_eq!(channel_of(&cr), Channel::ReliableUnordered);
}
