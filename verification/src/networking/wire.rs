//! The wire form of [`Packet`]: a tagged, fixed-width, big-endian
//! encoding — intentionally distinct from the save codec's little-endian
//! layout, so wire and disk formats can evolve independently.
//!
//! Every constructor gets a one-byte tag followed by its fields in
//! declaration order; counts are 64-bit, characters fixed-width 32-bit
//! scalars, timestamps 128-bit. The spec encoders say what the bytes
//! are; the spec parsers, total over arbitrary bytes, say what decoding
//! yields, and the executable pair is proved against both. A packet with
//! two tile entries for one position never decodes: the tile map is
//! rejected whole.

use vstd::prelude::*;

use crate::assoc::unique_keys;
use crate::codec::{be128, be32, be64, enc_list, enc_str_be, i32_be, parse_i32_be, parse_list,
    parse_str_be, parse_u128_be, parse_u32_be, parse_u64_be, parse_u8, push_i32_be, push_str_be,
    push_u128_be, push_u32_be, push_u64_be, read_i32_be, read_str_be, read_u128_be, read_u32_be,
    read_u64_be, read_u8};
use crate::identifier::{Identifier, IdentifierView};
use crate::networking::protocol::{ChatMessageBundle, ChatMessageBundleView, ChatMessageContent,
    ClientId, ClientMessage, ClientMessageView, ClientResponse, ClientResponseView,
    DisconnectReason, DisconnectReasonView, Packet, PacketView, PlayerData, PlayerDataView,
    ProtocolVersion, ServerMessage, ServerMessageView, ServerResponse, ServerResponseView,
    WorldDenyReason, WorldDenyReasonView};
use crate::player::{Source, SourceView, Target, TargetView};
use crate::world::{TileMap, WorldId};
use crate::networking::Username;
use crate::raw_id::{RawId, RawIds};
use crate::tile::{TileData, TilePos, WorldTile};
use crate::world::{Position, WorldBanUntil};

verus! {

// ---------------------------------------------------------------------
// Spec encoding
// ---------------------------------------------------------------------

pub open spec fn enc_opt_str(o: Option<Seq<char>>) -> Seq<u8> {
    match o {
        None => seq![0u8],
        Some(s) => seq![1u8] + enc_str_be(s),
    }
}

pub open spec fn enc_position(p: Position) -> Seq<u8> {
    be32(p.x_bits) + be32(p.y_bits)
}

pub open spec fn enc_client_id(id: ClientId) -> Seq<u8> {
    be64(id.0)
}

pub open spec fn enc_client_id_fn() -> spec_fn(ClientId) -> Seq<u8> {
    |id: ClientId| enc_client_id(id)
}

pub open spec fn enc_source(s: SourceView) -> Seq<u8> {
    match s {
        SourceView::Player { id, world } => seq![0u8] + enc_client_id(id) + enc_opt_str(world),
        SourceView::System => seq![1u8],
        SourceView::Unknown => seq![2u8],
    }
}

pub open spec fn enc_target(t: TargetView) -> Seq<u8> {
    match t {
        TargetView::Player(id) => seq![0u8] + enc_client_id(id),
        TargetView::Players(ids) => seq![1u8] + be64(ids.len() as u64) + enc_list(
            ids,
            enc_client_id_fn(),
        ),
        TargetView::World => seq![2u8],
        TargetView::All => seq![3u8],
    }
}

pub open spec fn enc_chat_bundle(b: ChatMessageBundleView) -> Seq<u8> {
    enc_str_be(b.content) + enc_source(b.source) + enc_target(b.target)
}

pub open spec fn enc_disconnect_reason(r: DisconnectReasonView) -> Seq<u8> {
    match r {
        DisconnectReasonView::ProtocolReject { required_protocol_ver, required_version_string } =>
            seq![0u8] + be32(required_protocol_ver.0) + enc_str_be(required_version_string),
        DisconnectReasonView::EmptyUserdata => seq![1u8],
        DisconnectReasonView::PlayerNonexistent => seq![2u8],
        DisconnectReasonView::ServerFull(s) => seq![3u8] + enc_str_be(s),
        DisconnectReasonView::Kicked(s) => seq![4u8] + enc_str_be(s),
        DisconnectReasonView::Banned(s) => seq![5u8] + enc_str_be(s),
        DisconnectReasonView::Shutdown(s) => seq![6u8] + enc_str_be(s),
        DisconnectReasonView::Other(o) => seq![7u8] + enc_opt_str(o),
    }
}

pub open spec fn enc_world_deny_reason(r: WorldDenyReasonView) -> Seq<u8> {
    match r {
        WorldDenyReasonView::WorldFull(s) => seq![0u8] + enc_str_be(s),
        WorldDenyReasonView::Banned(s, until) => seq![1u8] + enc_str_be(s) + be64(until.0),
        WorldDenyReasonView::InvalidWorldName => seq![2u8],
        WorldDenyReasonView::Other(o) => seq![3u8] + enc_opt_str(o),
    }
}

pub open spec fn enc_ident_be(id: IdentifierView) -> Seq<u8> {
    enc_str_be(id.namespace) + enc_str_be(id.path)
}

pub open spec fn enc_ident_be_fn() -> spec_fn(IdentifierView) -> Seq<u8> {
    |id: IdentifierView| enc_ident_be(id)
}

pub open spec fn enc_snapshot_be(ids: Seq<IdentifierView>) -> Seq<u8> {
    be64(ids.len() as u64) + enc_list(ids, enc_ident_be_fn())
}

pub open spec fn enc_tile_record_be(e: (TilePos, WorldTile)) -> Seq<u8> {
    i32_be(e.0.x) + i32_be(e.0.y) + i32_be(e.1.0.0) + seq![e.1.1.0]
}

pub open spec fn enc_tile_record_be_fn() -> spec_fn((TilePos, WorldTile)) -> Seq<u8> {
    |e: (TilePos, WorldTile)| enc_tile_record_be(e)
}

pub open spec fn enc_tiles_be(tiles: Seq<(TilePos, WorldTile)>) -> Seq<u8> {
    be64(tiles.len() as u64) + enc_list(tiles, enc_tile_record_be_fn())
}

pub open spec fn enc_server_message(m: ServerMessageView) -> Seq<u8> {
    match m {
        ServerMessageView::Ping { timestamp } => seq![0u8] + be128(timestamp),
        ServerMessageView::Disconnect(r) => seq![1u8] + enc_disconnect_reason(r),
        ServerMessageView::PlayerJoin(id, data, pos) => seq![2u8] + enc_client_id(id) + enc_str_be(
            data.username,
        ) + enc_position(pos),
        ServerMessageView::PlayerLeave(id) => seq![3u8] + enc_client_id(id),
        ServerMessageView::PlayerNick(id, name) => seq![4u8] + enc_client_id(id) + enc_str_be(name),
        ServerMessageView::ChatMessage(b) => seq![5u8] + enc_chat_bundle(b),
        ServerMessageView::PlayerPosition(id, pos) => seq![6u8] + enc_client_id(id) + enc_position(
            pos,
        ),
        ServerMessageView::RawTileIds(ids) => seq![7u8] + enc_snapshot_be(ids),
        ServerMessageView::WorldTiles(tiles) => seq![8u8] + enc_tiles_be(tiles),
    }
}

pub open spec fn enc_server_response(m: ServerResponseView) -> Seq<u8> {
    match m {
        ServerResponseView::JoinDeny(r) => seq![0u8] + enc_disconnect_reason(r),
        ServerResponseView::JoinAccept => seq![1u8],
        ServerResponseView::PingAck { timestamp } => seq![2u8] + be128(timestamp),
        ServerResponseView::EnterWorldDeny(r) => seq![3u8] + enc_world_deny_reason(r),
        ServerResponseView::EnterWorldAccept(id) => seq![4u8] + enc_str_be(id),
    }
}

pub open spec fn enc_client_message(m: ClientMessageView) -> Seq<u8> {
    match m {
        ClientMessageView::JoinRequest { protocol_ver } => seq![0u8] + be32(protocol_ver.0),
        ClientMessageView::Ping { timestamp } => seq![1u8] + be128(timestamp),
        ClientMessageView::ChatMessage(target, text) => seq![2u8] + enc_target(target) + enc_str_be(
            text,
        ),
        ClientMessageView::EnterWorldRequest(name) => seq![3u8] + enc_str_be(name),
        ClientMessageView::PlayerPosition(pos) => seq![4u8] + enc_position(pos),
    }
}

pub open spec fn enc_client_response(m: ClientResponseView) -> Seq<u8> {
    match m {
        ClientResponseView::PingAck { timestamp } => seq![0u8] + be128(timestamp),
    }
}

/// The whole wire form of one packet.
pub open spec fn enc_packet(p: PacketView) -> Seq<u8> {
    match p {
        PacketView::ServerMessage(m) => seq![0u8] + enc_server_message(m),
        PacketView::ServerResponse(m) => seq![1u8] + enc_server_response(m),
        PacketView::ClientMessage(m) => seq![2u8] + enc_client_message(m),
        PacketView::ClientResponse(m) => seq![3u8] + enc_client_response(m),
    }
}

// ---------------------------------------------------------------------
// Spec parsing
// ---------------------------------------------------------------------

pub open spec fn parse_opt_str(b: Seq<u8>, pos: int) -> Option<(Option<Seq<char>>, int)> {
    match parse_u8(b, pos) {
        Some((0u8, p)) => Some((None, p)),
        Some((1u8, p)) => match parse_str_be(b, p) {
            Some((s, p2)) => Some((Some(s), p2)),
            None => None,
        },
        _ => None,
    }
}

pub open spec fn parse_position(b: Seq<u8>, pos: int) -> Option<(Position, int)> {
    match parse_u32_be(b, pos) {
        Some((x_bits, p1)) => match parse_u32_be(b, p1) {
            Some((y_bits, p2)) => Some((Position { x_bits, y_bits }, p2)),
            None => None,
        },
        None => None,
    }
}

pub open spec fn parse_client_id(b: Seq<u8>, pos: int) -> Option<(ClientId, int)> {
    match parse_u64_be(b, pos) {
        Some((v, p)) => Some((ClientId(v), p)),
        None => None,
    }
}

pub open spec fn parse_client_id_fn() -> spec_fn(Seq<u8>, int) -> Option<(ClientId, int)> {
    |b: Seq<u8>, pos: int| parse_client_id(b, pos)
}

pub open spec fn parse_source(b: Seq<u8>, pos: int) -> Option<(SourceView, int)> {
    match parse_u8(b, pos) {
        Some((0u8, p)) => match parse_client_id(b, p) {
            Some((id, p1)) => match parse_opt_str(b, p1) {
                Some((world, p2)) => Some((SourceView::Player { id, world }, p2)),
                None => None,
            },
            None => None,
        },
        Some((1u8, p)) => Some((SourceView::System, p)),
        Some((2u8, p)) => Some((SourceView::Unknown, p)),
        _ => None,
    }
}

pub open spec fn parse_target(b: Seq<u8>, pos: int) -> Option<(TargetView, int)> {
    match parse_u8(b, pos) {
        Some((0u8, p)) => match parse_client_id(b, p) {
            Some((id, p1)) => Some((TargetView::Player(id), p1)),
            None => None,
        },
        Some((1u8, p)) => match parse_u64_be(b, p) {
            Some((n, p1)) => match parse_list(b, p1, n as int, parse_client_id_fn()) {
                Some((ids, p2)) => Some((TargetView::Players(ids), p2)),
                None => None,
            },
            None => None,
        },
        Some((2u8, p)) => Some((TargetView::World, p)),
        Some((3u8, p)) => Some((TargetView::All, p)),
        _ => None,
    }
}

pub open spec fn parse_chat_bundle(b: Seq<u8>, pos: int) -> Option<(ChatMessageBundleView, int)> {
    match parse_str_be(b, pos) {
        Some((content, p1)) => match parse_source(b, p1) {
            Some((source, p2)) => match parse_target(b, p2) {
                Some((target, p3)) => Some((
                    ChatMessageBundleView { content, source, target },
                    p3,
                )),
                None => None,
            },
            None => None,
        },
        None => None,
    }
}

pub open spec fn parse_disconnect_reason(b: Seq<u8>, pos: int) -> Option<(
    DisconnectReasonView,
    int,
)> {
    match parse_u8(b, pos) {
        Some((0u8, p)) => match parse_u32_be(b, p) {
            Some((ver, p1)) => match parse_str_be(b, p1) {
                Some((vs, p2)) => Some((
                    DisconnectReasonView::ProtocolReject {
                        required_protocol_ver: ProtocolVersion(ver),
                        required_version_string: vs,
                    },
                    p2,
                )),
                None => None,
            },
            None => None,
        },
        Some((1u8, p)) => Some((DisconnectReasonView::EmptyUserdata, p)),
        Some((2u8, p)) => Some((DisconnectReasonView::PlayerNonexistent, p)),
        Some((3u8, p)) => match parse_str_be(b, p) {
            Some((s, p1)) => Some((DisconnectReasonView::ServerFull(s), p1)),
            None => None,
        },
        Some((4u8, p)) => match parse_str_be(b, p) {
            Some((s, p1)) => Some((DisconnectReasonView::Kicked(s), p1)),
            None => None,
        },
        Some((5u8, p)) => match parse_str_be(b, p) {
            Some((s, p1)) => Some((DisconnectReasonView::Banned(s), p1)),
            None => None,
        },
        Some((6u8, p)) => match parse_str_be(b, p) {
            Some((s, p1)) => Some((DisconnectReasonView::Shutdown(s), p1)),
            None => None,
        },
        Some((7u8, p)) => match parse_opt_str(b, p) {
            Some((o, p1)) => Some((DisconnectReasonView::Other(o), p1)),
            None => None,
        },
        _ => None,
    }
}

pub open spec fn parse_world_deny_reason(b: Seq<u8>, pos: int) -> Option<(
    WorldDenyReasonView,
    int,
)> {
    match parse_u8(b, pos) {
        Some((0u8, p)) => match parse_str_be(b, p) {
            Some((s, p1)) => Some((WorldDenyReasonView::WorldFull(s), p1)),
            None => None,
        },
        Some((1u8, p)) => match parse_str_be(b, p) {
            Some((s, p1)) => match parse_u64_be(b, p1) {
                Some((until, p2)) => Some((
                    WorldDenyReasonView::Banned(s, WorldBanUntil(until)),
                    p2,
                )),
                None => None,
            },
            None => None,
        },
        Some((2u8, p)) => Some((WorldDenyReasonView::InvalidWorldName, p)),
        Some((3u8, p)) => match parse_opt_str(b, p) {
            Some((o, p1)) => Some((WorldDenyReasonView::Other(o), p1)),
            None => None,
        },
        _ => None,
    }
}

pub open spec fn parse_ident_be(b: Seq<u8>, pos: int) -> Option<(IdentifierView, int)> {
    match parse_str_be(b, pos) {
        Some((namespace, p1)) => match parse_str_be(b, p1) {
            Some((path, p2)) => Some((IdentifierView { namespace, path }, p2)),
            None => None,
        },
        None => None,
    }
}

pub open spec fn parse_ident_be_fn() -> spec_fn(Seq<u8>, int) -> Option<(IdentifierView, int)> {
    |b: Seq<u8>, pos: int| parse_ident_be(b, pos)
}

pub open spec fn parse_snapshot_be(b: Seq<u8>, pos: int) -> Option<(Seq<IdentifierView>, int)> {
    match parse_u64_be(b, pos) {
        Some((n, p)) => parse_list(b, p, n as int, parse_ident_be_fn()),
        None => None,
    }
}

pub open spec fn parse_tile_record_be(b: Seq<u8>, pos: int) -> Option<((TilePos, WorldTile), int)> {
    match parse_i32_be(b, pos) {
        Some((x, p1)) => match parse_i32_be(b, p1) {
            Some((y, p2)) => match parse_i32_be(b, p2) {
                Some((raw, p3)) => match parse_u8(b, p3) {
                    Some((data, p4)) => Some((
                        (TilePos { x, y }, WorldTile(RawId(raw), TileData(data))),
                        p4,
                    )),
                    None => None,
                },
                None => None,
            },
            None => None,
        },
        None => None,
    }
}

pub open spec fn parse_tile_record_be_fn() -> spec_fn(Seq<u8>, int) -> Option<
    ((TilePos, WorldTile), int),
> {
    |b: Seq<u8>, pos: int| parse_tile_record_be(b, pos)
}

/// Parses a tile map; one with two entries for a position is rejected.
pub open spec fn parse_tiles_be(b: Seq<u8>, pos: int) -> Option<(Seq<(TilePos, WorldTile)>, int)> {
    match parse_u64_be(b, pos) {
        Some((n, p)) => match parse_list(b, p, n as int, parse_tile_record_be_fn()) {
            Some((tiles, p1)) => if unique_keys(tiles) {
                Some((tiles, p1))
            } else {
                None
            },
            None => None,
        },
        None => None,
    }
}

pub open spec fn parse_server_message(b: Seq<u8>, pos: int) -> Option<(ServerMessageView, int)> {
    match parse_u8(b, pos) {
        Some((0u8, p)) => match parse_u128_be(b, p) {
            Some((timestamp, p1)) => Some((ServerMessageView::Ping { timestamp }, p1)),
            None => None,
        },
        Some((1u8, p)) => match parse_disconnect_reason(b, p) {
            Some((r, p1)) => Some((ServerMessageView::Disconnect(r), p1)),
            None => None,
        },
        Some((2u8, p)) => match parse_client_id(b, p) {
            Some((id, p1)) => match parse_str_be(b, p1) {
                Some((username, p2)) => match parse_position(b, p2) {
                    Some((pos2, p3)) => Some((
                        ServerMessageView::PlayerJoin(id, PlayerDataView { username }, pos2),
                        p3,
                    )),
                    None => None,
                },
                None => None,
            },
            None => None,
        },
        Some((3u8, p)) => match parse_client_id(b, p) {
            Some((id, p1)) => Some((ServerMessageView::PlayerLeave(id), p1)),
            None => None,
        },
        Some((4u8, p)) => match parse_client_id(b, p) {
            Some((id, p1)) => match parse_str_be(b, p1) {
                Some((name, p2)) => Some((ServerMessageView::PlayerNick(id, name), p2)),
                None => None,
            },
            None => None,
        },
        Some((5u8, p)) => match parse_chat_bundle(b, p) {
            Some((bundle, p1)) => Some((ServerMessageView::ChatMessage(bundle), p1)),
            None => None,
        },
        Some((6u8, p)) => match parse_client_id(b, p) {
            Some((id, p1)) => match parse_position(b, p1) {
                Some((pos2, p2)) => Some((ServerMessageView::PlayerPosition(id, pos2), p2)),
                None => None,
            },
            None => None,
        },
        Some((7u8, p)) => match parse_snapshot_be(b, p) {
            Some((ids, p1)) => Some((ServerMessageView::RawTileIds(ids), p1)),
            None => None,
        },
        Some((8u8, p)) => match parse_tiles_be(b, p) {
            Some((tiles, p1)) => Some((ServerMessageView::WorldTiles(tiles), p1)),
            None => None,
        },
        _ => None,
    }
}

pub open spec fn parse_server_response(b: Seq<u8>, pos: int) -> Option<(ServerResponseView, int)> {
    match parse_u8(b, pos) {
        Some((0u8, p)) => match parse_disconnect_reason(b, p) {
            Some((r, p1)) => Some((ServerResponseView::JoinDeny(r), p1)),
            None => None,
        },
        Some((1u8, p)) => Some((ServerResponseView::JoinAccept, p)),
        Some((2u8, p)) => match parse_u128_be(b, p) {
            Some((timestamp, p1)) => Some((ServerResponseView::PingAck { timestamp }, p1)),
            None => None,
        },
        Some((3u8, p)) => match parse_world_deny_reason(b, p) {
            Some((r, p1)) => Some((ServerResponseView::EnterWorldDeny(r), p1)),
            None => None,
        },
        Some((4u8, p)) => match parse_str_be(b, p) {
            Some((id, p1)) => Some((ServerResponseView::EnterWorldAccept(id), p1)),
            None => None,
        },
        _ => None,
    }
}

pub open spec fn parse_client_message(b: Seq<u8>, pos: int) -> Option<(ClientMessageView, int)> {
    match parse_u8(b, pos) {
        Some((0u8, p)) => match parse_u32_be(b, p) {
            Some((ver, p1)) => Some((
                ClientMessageView::JoinRequest { protocol_ver: ProtocolVersion(ver) },
                p1,
            )),
            None => None,
        },
        Some((1u8, p)) => match parse_u128_be(b, p) {
            Some((timestamp, p1)) => Some((ClientMessageView::Ping { timestamp }, p1)),
            None => None,
        },
        Some((2u8, p)) => match parse_target(b, p) {
            Some((target, p1)) => match parse_str_be(b, p1) {
                Some((text, p2)) => Some((ClientMessageView::ChatMessage(target, text), p2)),
                None => None,
            },
            None => None,
        },
        Some((3u8, p)) => match parse_str_be(b, p) {
            Some((name, p1)) => Some((ClientMessageView::EnterWorldRequest(name), p1)),
            None => None,
        },
        Some((4u8, p)) => match parse_position(b, p) {
            Some((pos2, p1)) => Some((ClientMessageView::PlayerPosition(pos2), p1)),
            None => None,
        },
        _ => None,
    }
}

pub open spec fn parse_client_response(b: Seq<u8>, pos: int) -> Option<(ClientResponseView, int)> {
    match parse_u8(b, pos) {
        Some((0u8, p)) => match parse_u128_be(b, p) {
            Some((timestamp, p1)) => Some((ClientResponseView::PingAck { timestamp }, p1)),
            None => None,
        },
        _ => None,
    }
}

/// What an arbitrary byte buffer decodes to, and how much of it the
/// packet occupied.
pub open spec fn parse_packet(b: Seq<u8>, pos: int) -> Option<(PacketView, int)> {
    match parse_u8(b, pos) {
        Some((0u8, p)) => match parse_server_message(b, p) {
            Some((m, p1)) => Some((PacketView::ServerMessage(m), p1)),
            None => None,
        },
        Some((1u8, p)) => match parse_server_response(b, p) {
            Some((m, p1)) => Some((PacketView::ServerResponse(m), p1)),
            None => None,
        },
        Some((2u8, p)) => match parse_client_message(b, p) {
            Some((m, p1)) => Some((PacketView::ClientMessage(m), p1)),
            None => None,
        },
        Some((3u8, p)) => match parse_client_response(b, p) {
            Some((m, p1)) => Some((PacketView::ClientResponse(m), p1)),
            None => None,
        },
        _ => None,
    }
}

// ---------------------------------------------------------------------
// Executable encoder
// ---------------------------------------------------------------------

fn push_opt_str(out: &mut Vec<u8>, o: &Option<String>)
    ensures
        final(out)@ == old(out)@ + enc_opt_str(match o {
            Some(s) => Some(s@),
            None => None,
        }),
{
    match o {
        None => {
            out.push(0);
            proof {
                assert(out@ =~= old(out)@ + seq![0u8]);
            }
        },
        Some(s) => {
            out.push(1);
            push_str_be(out, s.as_str());
            proof {
                assert(out@ =~= old(out)@ + (seq![1u8] + enc_str_be(s@)));
            }
        },
    }
}

fn push_position(out: &mut Vec<u8>, p: Position)
    ensures
        final(out)@ == old(out)@ + enc_position(p),
{
    push_u32_be(out, p.x_bits);
    push_u32_be(out, p.y_bits);
    proof {
        assert(out@ =~= old(out)@ + enc_position(p));
    }
}

fn push_source(out: &mut Vec<u8>, s: &Source)
    ensures
        final(out)@ == old(out)@ + enc_source(s@),
{
    match s {
        Source::Player(id, world) => {
            out.push(0);
            push_u64_be(out, id.0);
            let name: Option<String> = match world {
                Some(w) => Some(w.0.clone()),
                None => None,
            };
            push_opt_str(out, &name);
            proof {
                assert(out@ =~= old(out)@ + enc_source(s@));
            }
        },
        Source::System => {
            out.push(1);
            proof {
                assert(out@ =~= old(out)@ + enc_source(s@));
            }
        },
        Source::Unknown => {
            out.push(2);
            proof {
                assert(out@ =~= old(out)@ + enc_source(s@));
            }
        },
    }
}

fn push_target(out: &mut Vec<u8>, t: &Target)
    ensures
        final(out)@ == old(out)@ + enc_target(t@),
{
    match t {
        Target::Player(id) => {
            out.push(0);
            push_u64_be(out, id.0);
            proof {
                assert(out@ =~= old(out)@ + enc_target(t@));
            }
        },
        Target::Players(ids) => {
            out.push(1);
            let n = ids.len();
            push_u64_be(out, n as u64);
            let ghost base = out@;
            let mut i: usize = 0;
            while i < n
                invariant
                    n == ids@.len(),
                    i <= n,
                    out@ == base + enc_list(ids@.take(i as int), enc_client_id_fn()),
                decreases n - i,
            {
                push_u64_be(out, ids[i].0);
                proof {
                    assert(ids@.take(i + 1) =~= ids@.take(i as int).push(ids@[i as int]));
                    crate::codec::lemma_enc_list_push(
                        ids@.take(i as int),
                        ids@[i as int],
                        enc_client_id_fn(),
                    );
                    assert(out@ =~= base + enc_list(ids@.take(i + 1), enc_client_id_fn()));
                }
                i += 1;
            }
            proof {
                assert(ids@.take(n as int) =~= ids@);
                assert(out@ =~= old(out)@ + enc_target(t@));
            }
        },
        Target::World => {
            out.push(2);
            proof {
                assert(out@ =~= old(out)@ + enc_target(t@));
            }
        },
        Target::All => {
            out.push(3);
            proof {
                assert(out@ =~= old(out)@ + enc_target(t@));
            }
        },
    }
}

fn push_chat_bundle(out: &mut Vec<u8>, b: &ChatMessageBundle)
    ensures
        final(out)@ == old(out)@ + enc_chat_bundle(b@),
{
    push_str_be(out, b.content.0.as_str());
    push_source(out, &b.source);
    push_target(out, &b.target);
    proof {
        assert(out@ =~= old(out)@ + enc_chat_bundle(b@));
    }
}

fn push_disconnect_reason(out: &mut Vec<u8>, r: &DisconnectReason)
    ensures
        final(out)@ == old(out)@ + enc_disconnect_reason(r@),
{
    match r {
        DisconnectReason::ProtocolReject { required_protocol_ver, required_version_string } => {
            out.push(0);
            push_u32_be(out, required_protocol_ver.0);
            push_str_be(out, required_version_string.as_str());
        },
        DisconnectReason::EmptyUserdata => {
            out.push(1);
        },
        DisconnectReason::PlayerNonexistent => {
            out.push(2);
        },
        DisconnectReason::ServerFull(s) => {
            out.push(3);
            push_str_be(out, s.as_str());
        },
        DisconnectReason::Kicked(s) => {
            out.push(4);
            push_str_be(out, s.as_str());
        },
        DisconnectReason::Banned(s) => {
            out.push(5);
            push_str_be(out, s.as_str());
        },
        DisconnectReason::Shutdown(s) => {
            out.push(6);
            push_str_be(out, s.as_str());
        },
        DisconnectReason::Other(o) => {
            out.push(7);
            push_opt_str(out, o);
        },
    }
    proof {
        assert(out@ =~= old(out)@ + enc_disconnect_reason(r@));
    }
}

fn push_world_deny_reason(out: &mut Vec<u8>, r: &WorldDenyReason)
    ensures
        final(out)@ == old(out)@ + enc_world_deny_reason(r@),
{
    match r {
        WorldDenyReason::WorldFull(s) => {
            out.push(0);
            push_str_be(out, s.as_str());
        },
        WorldDenyReason::Banned(s, until) => {
            out.push(1);
            push_str_be(out, s.as_str());
            push_u64_be(out, until.0);
        },
        WorldDenyReason::InvalidWorldName => {
            out.push(2);
        },
        WorldDenyReason::Other(o) => {
            out.push(3);
            push_opt_str(out, o);
        },
    }
    proof {
        assert(out@ =~= old(out)@ + enc_world_deny_reason(r@));
    }
}

fn push_snapshot_be(out: &mut Vec<u8>, ids: &RawIds)
    ensures
        final(out)@ == old(out)@ + enc_snapshot_be(ids@),
{
    let n = ids.len();
    push_u64_be(out, n as u64);
    let ghost base = out@;
    let mut i: usize = 0;
    while i < n
        invariant
            n == ids@.len(),
            i <= n,
            out@ == base + enc_list(ids@.take(i as int), enc_ident_be_fn()),
        decreases n - i,
    {
        let id = ids.identifier_at(i);
        push_str_be(out, id.namespace());
        push_str_be(out, id.path());
        proof {
            assert(ids@.take(i + 1) =~= ids@.take(i as int).push(ids@[i as int]));
            crate::codec::lemma_enc_list_push(ids@.take(i as int), ids@[i as int],
                enc_ident_be_fn());
            assert(out@ =~= base + enc_list(ids@.take(i + 1), enc_ident_be_fn()));
        }
        i += 1;
    }
    proof {
        assert(ids@.take(n as int) =~= ids@);
        assert(out@ =~= old(out)@ + enc_snapshot_be(ids@));
    }
}

fn push_tiles_be(out: &mut Vec<u8>, tiles: &TileMap)
    ensures
        final(out)@ == old(out)@ + enc_tiles_be(tiles@),
{
    let n = tiles.len();
    push_u64_be(out, n as u64);
    let ghost base = out@;
    let mut i: usize = 0;
    while i < n
        invariant
            n == tiles@.len(),
            i <= n,
            out@ == base + enc_list(tiles@.take(i as int), enc_tile_record_be_fn()),
        decreases n - i,
    {
        let (pos, tile) = tiles.entry_at(i);
        push_i32_be(out, pos.x);
        push_i32_be(out, pos.y);
        push_i32_be(out, tile.0.0);
        out.push(tile.1.0);
        proof {
            assert(tiles@.take(i + 1) =~= tiles@.take(i as int).push(tiles@[i as int]));
            crate::codec::lemma_enc_list_push(tiles@.take(i as int), tiles@[i as int],
                enc_tile_record_be_fn());
            assert(out@ =~= base + enc_list(tiles@.take(i + 1), enc_tile_record_be_fn()));
        }
        i += 1;
    }
    proof {
        assert(tiles@.take(n as int) =~= tiles@);
        assert(out@ =~= old(out)@ + enc_tiles_be(tiles@));
    }
}

fn push_server_message(out: &mut Vec<u8>, m: &ServerMessage)
    ensures
        final(out)@ == old(out)@ + enc_server_message(m@),
{
    match m {
        ServerMessage::Ping { timestamp } => {
            out.push(0);
            push_u128_be(out, *timestamp);
        },
        ServerMessage::Disconnect(r) => {
            out.push(1);
            push_disconnect_reason(out, r);
        },
        ServerMessage::PlayerJoin(id, data, pos) => {
            out.push(2);
            push_u64_be(out, id.0);
            push_str_be(out, data.username.0.as_str());
            push_position(out, *pos);
        },
        ServerMessage::PlayerLeave(id) => {
            out.push(3);
            push_u64_be(out, id.0);
        },
        ServerMessage::PlayerNick(id, name) => {
            out.push(4);
            push_u64_be(out, id.0);
            push_str_be(out, name.as_str());
        },
        ServerMessage::ChatMessage(b) => {
            out.push(5);
            push_chat_bundle(out, b);
        },
        ServerMessage::PlayerPosition(id, pos) => {
            out.push(6);
            push_u64_be(out, id.0);
            push_position(out, *pos);
        },
        ServerMessage::RawTileIds(ids) => {
            out.push(7);
            push_snapshot_be(out, ids);
        },
        ServerMessage::WorldTiles(tiles) => {
            out.push(8);
            push_tiles_be(out, tiles);
        },
    }
    proof {
        assert(out@ =~= old(out)@ + enc_server_message(m@));
    }
}

fn push_server_response(out: &mut Vec<u8>, m: &ServerResponse)
    ensures
        final(out)@ == old(out)@ + enc_server_response(m@),
{
    match m {
        ServerResponse::JoinDeny(r) => {
            out.push(0);
            push_disconnect_reason(out, r);
        },
        ServerResponse::JoinAccept => {
            out.push(1);
        },
        ServerResponse::PingAck { timestamp } => {
            out.push(2);
            push_u128_be(out, *timestamp);
        },
        ServerResponse::EnterWorldDeny(r) => {
            out.push(3);
            push_world_deny_reason(out, r);
        },
        ServerResponse::EnterWorldAccept(id) => {
            out.push(4);
            push_str_be(out, id.0.as_str());
        },
    }
    proof {
        assert(out@ =~= old(out)@ + enc_server_response(m@));
    }
}

fn push_client_message(out: &mut Vec<u8>, m: &ClientMessage)
    ensures
        final(out)@ == old(out)@ + enc_client_message(m@),
{
    match m {
        ClientMessage::JoinRequest { protocol_ver } => {
            out.push(0);
            push_u32_be(out, protocol_ver.0);
        },
        ClientMessage::Ping { timestamp } => {
            out.push(1);
            push_u128_be(out, *timestamp);
        },
        ClientMessage::ChatMessage(target, text) => {
            out.push(2);
            push_target(out, target);
            push_str_be(out, text.as_str());
        },
        ClientMessage::EnterWorldRequest(name) => {
            out.push(3);
            push_str_be(out, name.as_str());
        },
        ClientMessage::PlayerPosition(pos) => {
            out.push(4);
            push_position(out, *pos);
        },
    }
    proof {
        assert(out@ =~= old(out)@ + enc_client_message(m@));
    }
}

fn push_client_response(out: &mut Vec<u8>, m: &ClientResponse)
    ensures
        final(out)@ == old(out)@ + enc_client_response(m@),
{
    match m {
        ClientResponse::PingAck { timestamp } => {
            out.push(0);
            push_u128_be(out, *timestamp);
        },
    }
    proof {
        assert(out@ =~= old(out)@ + enc_client_response(m@));
    }
}

/// Encodes one packet into its exact wire form.
pub fn encode_packet(p: &Packet) -> (r: Vec<u8>)
    ensures
        r@ == enc_packet(p@),
{
    let mut out: Vec<u8> = Vec::new();
    match p {
        Packet::ServerMessage(m) => {
            out.push(0);
            push_server_message(&mut out, m);
        },
        Packet::ServerResponse(m) => {
            out.push(1);
            push_server_response(&mut out, m);
        },
        Packet::ClientMessage(m) => {
            out.push(2);
            push_client_message(&mut out, m);
        },
        Packet::ClientResponse(m) => {
            out.push(3);
            push_client_response(&mut out, m);
        },
    }
    proof {
        assert(out@ =~= enc_packet(p@));
    }
    out
}

// ---------------------------------------------------------------------
// Executable decoder
// ---------------------------------------------------------------------

fn read_opt_str(b: &Vec<u8>, pos: usize) -> (r: Option<(Option<String>, usize)>)
    ensures
        r is Some <==> parse_opt_str(b@, pos as int) is Some,
        r matches Some((v, np)) ==> parse_opt_str(b@, pos as int) == Some((
            match v {
                Some(s) => Some(s@),
                None => None::<Seq<char>>,
            },
            np as int,
        )) && np <= b@.len(),
{
    let (tag, p) = match read_u8(b, pos) {
        Some(x) => x,
        None => {
            return None;
        },
    };
    match tag {
        0 => Some((None, p)),
        1 => match read_str_be(b, p) {
            Some((s, p2)) => Some((Some(s), p2)),
            None => None,
        },
        _ => None,
    }
}

fn read_position(b: &Vec<u8>, pos: usize) -> (r: Option<(Position, usize)>)
    ensures
        r is Some <==> parse_position(b@, pos as int) is Some,
        r matches Some((v, np)) ==> parse_position(b@, pos as int) == Some((v, np as int)) && np
            <= b@.len(),
{
    let (x_bits, p1) = match read_u32_be(b, pos) {
        Some(x) => x,
        None => {
            return None;
        },
    };
    let (y_bits, p2) = match read_u32_be(b, p1) {
        Some(x) => x,
        None => {
            return None;
        },
    };
    Some((Position { x_bits, y_bits }, p2))
}

fn read_source(b: &Vec<u8>, pos: usize) -> (r: Option<(Source, usize)>)
    ensures
        r is Some <==> parse_source(b@, pos as int) is Some,
        r matches Some((v, np)) ==> parse_source(b@, pos as int) == Some((v@, np as int)) && np
            <= b@.len(),
{
    let (tag, p) = match read_u8(b, pos) {
        Some(x) => x,
        None => {
            return None;
        },
    };
    match tag {
        0 => {
            let (id, p1) = match read_u64_be(b, p) {
                Some(x) => x,
                None => {
                    return None;
                },
            };
            let (world, p2) = match read_opt_str(b, p1) {
                Some(x) => x,
                None => {
                    return None;
                },
            };
            let world_id: Option<WorldId> = match world {
                Some(s) => Some(WorldId(s)),
                None => None,
            };
            Some((Source::Player(ClientId(id), world_id), p2))
        },
        1 => Some((Source::System, p)),
        2 => Some((Source::Unknown, p)),
        _ => None,
    }
}

fn read_target(b: &Vec<u8>, pos: usize) -> (r: Option<(Target, usize)>)
    ensures
        r is Some <==> parse_target(b@, pos as int) is Some,
        r matches Some((v, np)) ==> parse_target(b@, pos as int) == Some((v@, np as int)) && np
            <= b@.len(),
{
    let (tag, p) = match read_u8(b, pos) {
        Some(x) => x,
        None => {
            return None;
        },
    };
    match tag {
        0 => {
            let (id, p1) = match read_u64_be(b, p) {
                Some(x) => x,
                None => {
                    return None;
                },
            };
            Some((Target::Player(ClientId(id)), p1))
        },
        1 => {
            let (n, mut cur) = match read_u64_be(b, p) {
                Some(x) => x,
                None => {
                    return None;
                },
            };
            let ghost start = cur as int;
            let mut ids: Vec<ClientId> = Vec::new();
            let mut i: u64 = 0;
            while i < n
                invariant
                    i <= n,
                    cur <= b@.len(),
                    parse_u8(b@, pos as int) == Some((1u8, p as int)),
                    parse_u64_be(b@, p as int) == Some((n, start)),
                    parse_list(b@, start, n as int, parse_client_id_fn()) == (match parse_list(
                        b@,
                        cur as int,
                        n - i,
                        parse_client_id_fn(),
                    ) {
                        Some((rest, end)) => Some((ids@ + rest, end)),
                        None => None::<(Seq<ClientId>, int)>,
                    }),
                decreases n - i,
            {
                let (v, np) = match read_u64_be(b, cur) {
                    Some(x) => x,
                    None => {
                        proof {
                            assert(parse_client_id_fn()(b@, cur as int) is None);
                            assert(parse_list(b@, cur as int, n - i, parse_client_id_fn())
                                is None);
                        }
                        return None;
                    },
                };
                proof {
                    assert(parse_client_id_fn()(b@, cur as int) == Some((
                        ClientId(v),
                        np as int,
                    )));
                    assert forall|rest: Seq<ClientId>| true implies ids@ + (seq![ClientId(v)]
                        + rest) =~= ids@.push(ClientId(v)) + rest by {
                        assert(ids@ + (seq![ClientId(v)] + rest) =~= ids@.push(ClientId(v))
                            + rest);
                    }
                }
                ids.push(ClientId(v));
                cur = np;
                i += 1;
            }
            proof {
                assert(parse_list(b@, cur as int, 0, parse_client_id_fn()) == Some((
                    Seq::<ClientId>::empty(),
                    cur as int,
                )));
                assert(ids@ + Seq::<ClientId>::empty() =~= ids@);
            }
            Some((Target::Players(ids), cur))
        },
        2 => Some((Target::World, p)),
        3 => Some((Target::All, p)),
        _ => None,
    }
}

fn read_chat_bundle(b: &Vec<u8>, pos: usize) -> (r: Option<(ChatMessageBundle, usize)>)
    ensures
        r is Some <==> parse_chat_bundle(b@, pos as int) is Some,
        r matches Some((v, np)) ==> parse_chat_bundle(b@, pos as int) == Some((v@, np as int))
            && np <= b@.len(),
{
    let (content, p1) = match read_str_be(b, pos) {
        Some(x) => x,
        None => {
            return None;
        },
    };
    let (source, p2) = match read_source(b, p1) {
        Some(x) => x,
        None => {
            return None;
        },
    };
    let (target, p3) = match read_target(b, p2) {
        Some(x) => x,
        None => {
            return None;
        },
    };
    Some((ChatMessageBundle { content: ChatMessageContent(content), source, target }, p3))
}

fn read_disconnect_reason(b: &Vec<u8>, pos: usize) -> (r: Option<(DisconnectReason, usize)>)
    ensures
        r is Some <==> parse_disconnect_reason(b@, pos as int) is Some,
        r matches Some((v, np)) ==> parse_disconnect_reason(b@, pos as int) == Some((
            v@,
            np as int,
        )) && np <= b@.len(),
{
    let (tag, p) = match read_u8(b, pos) {
        Some(x) => x,
        None => {
            return None;
        },
    };
    match tag {
        0 => {
            let (ver, p1) = match read_u32_be(b, p) {
                Some(x) => x,
                None => {
                    return None;
                },
            };
            let (vs, p2) = match read_str_be(b, p1) {
                Some(x) => x,
                None => {
                    return None;
                },
            };
            Some((
                DisconnectReason::ProtocolReject {
                    required_protocol_ver: ProtocolVersion(ver),
                    required_version_string: vs,
                },
                p2,
            ))
        },
        1 => Some((DisconnectReason::EmptyUserdata, p)),
        2 => Some((DisconnectReason::PlayerNonexistent, p)),
        3 => match read_str_be(b, p) {
            Some((s, p1)) => Some((DisconnectReason::ServerFull(s), p1)),
            None => None,
        },
        4 => match read_str_be(b, p) {
            Some((s, p1)) => Some((DisconnectReason::Kicked(s), p1)),
            None => None,
        },
        5 => match read_str_be(b, p) {
            Some((s, p1)) => Some((DisconnectReason::Banned(s), p1)),
            None => None,
        },
        6 => match read_str_be(b, p) {
            Some((s, p1)) => Some((DisconnectReason::Shutdown(s), p1)),
            None => None,
        },
        7 => match read_opt_str(b, p) {
            Some((o, p1)) => Some((DisconnectReason::Other(o), p1)),
            None => None,
        },
        _ => None,
    }
}

fn read_world_deny_reason(b: &Vec<u8>, pos: usize) -> (r: Option<(WorldDenyReason, usize)>)
    ensures
        r is Some <==> parse_world_deny_reason(b@, pos as int) is Some,
        r matches Some((v, np)) ==> parse_world_deny_reason(b@, pos as int) == Some((
            v@,
            np as int,
        )) && np <= b@.len(),
{
    let (tag, p) = match read_u8(b, pos) {
        Some(x) => x,
        None => {
            return None;
        },
    };
    match tag {
        0 => match read_str_be(b, p) {
            Some((s, p1)) => Some((WorldDenyReason::WorldFull(s), p1)),
            None => None,
        },
        1 => {
            let (s, p1) = match read_str_be(b, p) {
                Some(x) => x,
                None => {
                    return None;
                },
            };
            let (until, p2) = match read_u64_be(b, p1) {
                Some(x) => x,
                None => {
                    return None;
                },
            };
            Some((WorldDenyReason::Banned(s, WorldBanUntil(until)), p2))
        },
        2 => Some((WorldDenyReason::InvalidWorldName, p)),
        3 => match read_opt_str(b, p) {
            Some((o, p1)) => Some((WorldDenyReason::Other(o), p1)),
            None => None,
        },
        _ => None,
    }
}

fn read_ident_be(b: &Vec<u8>, pos: usize) -> (r: Option<(Identifier, usize)>)
    ensures
        r is Some <==> parse_ident_be(b@, pos as int) is Some,
        r matches Some((id, np)) ==> parse_ident_be(b@, pos as int) == Some((id@, np as int))
            && np <= b@.len(),
{
    let (namespace, p1) = match read_str_be(b, pos) {
        Some(x) => x,
        None => {
            return None;
        },
    };
    let (path, p2) = match read_str_be(b, p1) {
        Some(x) => x,
        None => {
            return None;
        },
    };
    Some((Identifier::new(namespace, path), p2))
}

fn read_snapshot_be(b: &Vec<u8>, pos: usize) -> (r: Option<(RawIds, usize)>)
    ensures
        r is Some <==> parse_snapshot_be(b@, pos as int) is Some,
        r matches Some((ids, np)) ==> parse_snapshot_be(b@, pos as int) == Some((
            ids@,
            np as int,
        )) && np <= b@.len(),
{
    let (n, mut cur) = match read_u64_be(b, pos) {
        Some(x) => x,
        None => {
            return None;
        },
    };
    let ghost start = cur as int;
    let mut out: Vec<Identifier> = Vec::new();
    proof {
        assert(crate::save::idents_view(out@) =~= Seq::<IdentifierView>::empty());
    }
    let mut i: u64 = 0;
    while i < n
        invariant
            i <= n,
            cur <= b@.len(),
            parse_u64_be(b@, pos as int) == Some((n, start)),
            parse_list(b@, start, n as int, parse_ident_be_fn()) == (match parse_list(
                b@,
                cur as int,
                n - i,
                parse_ident_be_fn(),
            ) {
                Some((rest, end)) => Some((crate::save::idents_view(out@) + rest, end)),
                None => None::<(Seq<IdentifierView>, int)>,
            }),
        decreases n - i,
    {
        let (id, np) = match read_ident_be(b, cur) {
            Some(x) => x,
            None => {
                proof {
                    assert(parse_ident_be_fn()(b@, cur as int) is None);
                    assert(parse_list(b@, cur as int, n - i, parse_ident_be_fn()) is None);
                }
                return None;
            },
        };
        proof {
            assert(parse_ident_be_fn()(b@, cur as int) == Some((id@, np as int)));
            assert(crate::save::idents_view(out@.push(id)) =~= crate::save::idents_view(
                out@,
            ).push(id@));
            assert forall|rest: Seq<IdentifierView>| true implies crate::save::idents_view(out@)
                + (seq![id@] + rest) =~= crate::save::idents_view(out@).push(id@) + rest by {
                assert(crate::save::idents_view(out@) + (seq![id@] + rest)
                    =~= crate::save::idents_view(out@).push(id@) + rest);
            }
        }
        out.push(id);
        cur = np;
        i += 1;
    }
    proof {
        assert(parse_list(b@, cur as int, 0, parse_ident_be_fn()) == Some((
            Seq::<IdentifierView>::empty(),
            cur as int,
        )));
        assert(crate::save::idents_view(out@) + Seq::<IdentifierView>::empty()
            =~= crate::save::idents_view(out@));
    }
    let ids = RawIds::from_identifiers(out);
    Some((ids, cur))
}

fn read_tiles_be(b: &Vec<u8>, pos: usize) -> (r: Option<(TileMap, usize)>)
    ensures
        r is Some <==> parse_tiles_be(b@, pos as int) is Some,
        r matches Some((tm, np)) ==> parse_tiles_be(b@, pos as int) == Some((tm@, np as int))
            && tm.wf() && np <= b@.len(),
{
    let (n, mut cur) = match read_u64_be(b, pos) {
        Some(x) => x,
        None => {
            return None;
        },
    };
    let ghost start = cur as int;
    let mut recs: Vec<(TilePos, WorldTile)> = Vec::new();
    let mut i: u64 = 0;
    while i < n
        invariant
            i <= n,
            cur <= b@.len(),
            parse_u64_be(b@, pos as int) == Some((n, start)),
            parse_list(b@, start, n as int, parse_tile_record_be_fn()) == (match parse_list(
                b@,
                cur as int,
                n - i,
                parse_tile_record_be_fn(),
            ) {
                Some((rest, end)) => Some((recs@ + rest, end)),
                None => None::<(Seq<(TilePos, WorldTile)>, int)>,
            }),
        decreases n - i,
    {
        let (x, p1) = match read_i32_be(b, cur) {
            Some(v) => v,
            None => {
                proof {
                    assert(parse_tile_record_be_fn()(b@, cur as int) is None);
                    assert(parse_list(b@, cur as int, n - i, parse_tile_record_be_fn())
                        is None);
                }
                return None;
            },
        };
        let (y, p2) = match read_i32_be(b, p1) {
            Some(v) => v,
            None => {
                proof {
                    assert(parse_tile_record_be_fn()(b@, cur as int) is None);
                    assert(parse_list(b@, cur as int, n - i, parse_tile_record_be_fn())
                        is None);
                }
                return None;
            },
        };
        let (raw, p3) = match read_i32_be(b, p2) {
            Some(v) => v,
            None => {
                proof {
                    assert(parse_tile_record_be_fn()(b@, cur as int) is None);
                    assert(parse_list(b@, cur as int, n - i, parse_tile_record_be_fn())
                        is None);
                }
                return None;
            },
        };
        let (data, p4) = match read_u8(b, p3) {
            Some(v) => v,
            None => {
                proof {
                    assert(parse_tile_record_be_fn()(b@, cur as int) is None);
                    assert(parse_list(b@, cur as int, n - i, parse_tile_record_be_fn())
                        is None);
                }
                return None;
            },
        };
        let e = (TilePos { x, y }, WorldTile(RawId(raw), TileData(data)));
        proof {
            assert(parse_tile_record_be_fn()(b@, cur as int) == Some((e, p4 as int)));
            assert forall|rest: Seq<(TilePos, WorldTile)>| true implies recs@ + (seq![e] + rest)
                =~= recs@.push(e) + rest by {
                assert(recs@ + (seq![e] + rest) =~= recs@.push(e) + rest);
            }
        }
        recs.push(e);
        cur = p4;
        i += 1;
    }
    proof {
        assert(parse_list(b@, cur as int, 0, parse_tile_record_be_fn()) == Some((
            Seq::<(TilePos, WorldTile)>::empty(),
            cur as int,
        )));
        assert(recs@ + Seq::<(TilePos, WorldTile)>::empty() =~= recs@);
    }
    // Reject a map that lists any position twice.
    let mut tm = TileMap::new();
    let m = recs.len();
    let mut k: usize = 0;
    while k < m
        invariant
            m == recs@.len(),
            k <= m,
            parse_u64_be(b@, pos as int) == Some((n, start)),
            parse_list(b@, start, n as int, parse_tile_record_be_fn()) == Some((
                recs@,
                cur as int,
            )),
            tm.wf(),
            tm@ =~= recs@.take(k as int),
            unique_keys(recs@.take(k as int)),
        decreases m - k,
    {
        let (tpos, tile) = recs[k];
        match tm.get(tpos) {
            Some(_) => {
                proof {
                    if !crate::assoc::has_key(tm@, tpos) {
                        crate::assoc::lemma_assoc_map_absent(tm@, tpos);
                    }
                    let j = choose|j: int|
                        0 <= j < tm@.len() && (#[trigger] tm@[j]).0 == tpos;
                    assert(recs@[j] == tm@[j]);
                    assert(recs@[j].0 == recs@[k as int].0);
                    assert(!unique_keys(recs@));
                }
                return None;
            },
            None => {
                proof {
                    if crate::assoc::has_key(tm@, tpos) {
                        let j = choose|j: int|
                            0 <= j < tm@.len() && (#[trigger] tm@[j]).0 == tpos;
                        crate::assoc::lemma_assoc_map_index(tm@, j);
                    }
                    assert(!crate::assoc::has_key(tm@, tpos));
                }
                tm.insert(tpos, tile);
                proof {
                    assert(tm@ =~= recs@.take(k + 1));
                    assert(forall|x: int|
                        0 <= x < k + 1 ==> (#[trigger] recs@.take(k + 1)[x]) == recs@[x]);
                    assert(unique_keys(recs@.take(k + 1)));
                }
            },
        }
        k += 1;
    }
    proof {
        assert(recs@.take(m as int) =~= recs@);
    }
    Some((tm, cur))
}

fn read_server_message(b: &Vec<u8>, pos: usize) -> (r: Option<(ServerMessage, usize)>)
    ensures
        r is Some <==> parse_server_message(b@, pos as int) is Some,
        r matches Some((m, np)) ==> parse_server_message(b@, pos as int) == Some((
            m@,
            np as int,
        )) && np <= b@.len(),
{
    let (tag, p) = match read_u8(b, pos) {
        Some(x) => x,
        None => {
            return None;
        },
    };
    match tag {
        0 => match read_u128_be(b, p) {
            Some((timestamp, p1)) => Some((ServerMessage::Ping { timestamp }, p1)),
            None => None,
        },
        1 => match read_disconnect_reason(b, p) {
            Some((reason, p1)) => Some((ServerMessage::Disconnect(reason), p1)),
            None => None,
        },
        2 => {
            let (id, p1) = match read_u64_be(b, p) {
                Some(x) => x,
                None => {
                    return None;
                },
            };
            let (username, p2) = match read_str_be(b, p1) {
                Some(x) => x,
                None => {
                    return None;
                },
            };
            let (pos2, p3) = match read_position(b, p2) {
                Some(x) => x,
                None => {
                    return None;
                },
            };
            Some((
                ServerMessage::PlayerJoin(
                    ClientId(id),
                    PlayerData { username: Username(username) },
                    pos2,
                ),
                p3,
            ))
        },
        3 => match read_u64_be(b, p) {
            Some((id, p1)) => Some((ServerMessage::PlayerLeave(ClientId(id)), p1)),
            None => None,
        },
        4 => {
            let (id, p1) = match read_u64_be(b, p) {
                Some(x) => x,
                None => {
                    return None;
                },
            };
            let (name, p2) = match read_str_be(b, p1) {
                Some(x) => x,
                None => {
                    return None;
                },
            };
            Some((ServerMessage::PlayerNick(ClientId(id), name), p2))
        },
        5 => match read_chat_bundle(b, p) {
            Some((bundle, p1)) => Some((ServerMessage::ChatMessage(bundle), p1)),
            None => None,
        },
        6 => {
            let (id, p1) = match read_u64_be(b, p) {
                Some(x) => x,
                None => {
                    return None;
                },
            };
            let (pos2, p2) = match read_position(b, p1) {
                Some(x) => x,
                None => {
                    return None;
                },
            };
            Some((ServerMessage::PlayerPosition(ClientId(id), pos2), p2))
        },
        7 => match read_snapshot_be(b, p) {
            Some((ids, p1)) => Some((ServerMessage::RawTileIds(ids), p1)),
            None => None,
        },
        8 => match read_tiles_be(b, p) {
            Some((tiles, p1)) => Some((ServerMessage::WorldTiles(tiles), p1)),
            None => None,
        },
        _ => None,
    }
}

fn read_server_response(b: &Vec<u8>, pos: usize) -> (r: Option<(ServerResponse, usize)>)
    ensures
        r is Some <==> parse_server_response(b@, pos as int) is Some,
        r matches Some((m, np)) ==> parse_server_response(b@, pos as int) == Some((
            m@,
            np as int,
        )) && np <= b@.len(),
{
    let (tag, p) = match read_u8(b, pos) {
        Some(x) => x,
        None => {
            return None;
        },
    };
    match tag {
        0 => match read_disconnect_reason(b, p) {
            Some((reason, p1)) => Some((ServerResponse::JoinDeny(reason), p1)),
            None => None,
        },
        1 => Some((ServerResponse::JoinAccept, p)),
        2 => match read_u128_be(b, p) {
            Some((timestamp, p1)) => Some((ServerResponse::PingAck { timestamp }, p1)),
            None => None,
        },
        3 => match read_world_deny_reason(b, p) {
            Some((reason, p1)) => Some((ServerResponse::EnterWorldDeny(reason), p1)),
            None => None,
        },
        4 => match read_str_be(b, p) {
            Some((id, p1)) => Some((ServerResponse::EnterWorldAccept(WorldId(id)), p1)),
            None => None,
        },
        _ => None,
    }
}

fn read_client_message(b: &Vec<u8>, pos: usize) -> (r: Option<(ClientMessage, usize)>)
    ensures
        r is Some <==> parse_client_message(b@, pos as int) is Some,
        r matches Some((m, np)) ==> parse_client_message(b@, pos as int) == Some((
            m@,
            np as int,
        )) && np <= b@.len(),
{
    let (tag, p) = match read_u8(b, pos) {
        Some(x) => x,
        None => {
            return None;
        },
    };
    match tag {
        0 => match read_u32_be(b, p) {
            Some((ver, p1)) => Some((
                ClientMessage::JoinRequest { protocol_ver: ProtocolVersion(ver) },
                p1,
            )),
            None => None,
        },
        1 => match read_u128_be(b, p) {
            Some((timestamp, p1)) => Some((ClientMessage::Ping { timestamp }, p1)),
            None => None,
        },
        2 => {
            let (target, p1) = match read_target(b, p) {
                Some(x) => x,
                None => {
                    return None;
                },
            };
            let (text, p2) = match read_str_be(b, p1) {
                Some(x) => x,
                None => {
                    return None;
                },
            };
            Some((ClientMessage::ChatMessage(target, text), p2))
        },
        3 => match read_str_be(b, p) {
            Some((name, p1)) => Some((ClientMessage::EnterWorldRequest(name), p1)),
            None => None,
        },
        4 => match read_position(b, p) {
            Some((pos2, p1)) => Some((ClientMessage::PlayerPosition(pos2), p1)),
            None => None,
        },
        _ => None,
    }
}

fn read_client_response(b: &Vec<u8>, pos: usize) -> (r: Option<(ClientResponse, usize)>)
    ensures
        r is Some <==> parse_client_response(b@, pos as int) is Some,
        r matches Some((m, np)) ==> parse_client_response(b@, pos as int) == Some((
            m@,
            np as int,
        )) && np <= b@.len(),
{
    let (tag, p) = match read_u8(b, pos) {
        Some(x) => x,
        None => {
            return None;
        },
    };
    match tag {
        0 => match read_u128_be(b, p) {
            Some((timestamp, p1)) => Some((ClientResponse::PingAck { timestamp }, p1)),
            None => None,
        },
        _ => None,
    }
}

/// Decodes one packet from a whole buffer; trailing bytes are rejected.
/// A buffer decodes to `Some` exactly when it is, in full, the wire form
/// of one packet (see [`parse_packet`]); decode failures are the
/// caller's to log and drop, never to crash on.
pub fn decode_packet(b: &Vec<u8>) -> (r: Option<Packet>)
    ensures
        r is Some <==> (parse_packet(b@, 0) matches Some((pv, end)) && end == b@.len()),
        r matches Some(p) ==> parse_packet(b@, 0) == Some((p@, b@.len() as int)),
{
    let (tag, p) = match read_u8(b, 0) {
        Some(x) => x,
        None => {
            return None;
        },
    };
    let decoded: Option<(Packet, usize)> = match tag {
        0 => match read_server_message(b, p) {
            Some((m, p1)) => Some((Packet::ServerMessage(m), p1)),
            None => None,
        },
        1 => match read_server_response(b, p) {
            Some((m, p1)) => Some((Packet::ServerResponse(m), p1)),
            None => None,
        },
        2 => match read_client_message(b, p) {
            Some((m, p1)) => Some((Packet::ClientMessage(m), p1)),
            None => None,
        },
        3 => match read_client_response(b, p) {
            Some((m, p1)) => Some((Packet::ClientResponse(m), p1)),
            None => None,
        },
        _ => None,
    };
    match decoded {
        Some((packet, end)) => if end == b.len() {
            Some(packet)
        } else {
            None
        },
        None => None,
    }
}

// ---------------------------------------------------------------------
// Round trip
// ---------------------------------------------------------------------

/// Whether a string fits its 64-bit count field; anything an executable
/// process holds does.
pub open spec fn str_fits(s: Seq<char>) -> bool {
    s.len() <= u64::MAX
}

pub open spec fn opt_str_fits(o: Option<Seq<char>>) -> bool {
    match o {
        Some(s) => str_fits(s),
        None => true,
    }
}

pub open spec fn source_fits(s: SourceView) -> bool {
    match s {
        SourceView::Player { id, world } => opt_str_fits(world),
        _ => true,
    }
}

pub open spec fn target_fits(t: TargetView) -> bool {
    match t {
        TargetView::Players(ids) => ids.len() <= u64::MAX,
        _ => true,
    }
}

pub open spec fn bundle_fits(b: ChatMessageBundleView) -> bool {
    str_fits(b.content) && source_fits(b.source) && target_fits(b.target)
}

pub open spec fn disconnect_reason_fits(r: DisconnectReasonView) -> bool {
    match r {
        DisconnectReasonView::ProtocolReject { required_version_string, .. } => str_fits(
            required_version_string,
        ),
        DisconnectReasonView::ServerFull(s) => str_fits(s),
        DisconnectReasonView::Kicked(s) => str_fits(s),
        DisconnectReasonView::Banned(s) => str_fits(s),
        DisconnectReasonView::Shutdown(s) => str_fits(s),
        DisconnectReasonView::Other(o) => opt_str_fits(o),
        _ => true,
    }
}

pub open spec fn world_deny_reason_fits(r: WorldDenyReasonView) -> bool {
    match r {
        WorldDenyReasonView::WorldFull(s) => str_fits(s),
        WorldDenyReasonView::Banned(s, _) => str_fits(s),
        WorldDenyReasonView::Other(o) => opt_str_fits(o),
        _ => true,
    }
}

pub open spec fn snapshot_fits(ids: Seq<IdentifierView>) -> bool {
    ids.len() <= u64::MAX && (forall|i: int|
        0 <= i < ids.len() ==> crate::save::ident_fits(#[trigger] ids[i]))
}

pub open spec fn tiles_fit(tiles: Seq<(TilePos, WorldTile)>) -> bool {
    tiles.len() <= u64::MAX && unique_keys(tiles)
}

pub open spec fn server_message_fits(m: ServerMessageView) -> bool {
    match m {
        ServerMessageView::Disconnect(r) => disconnect_reason_fits(r),
        ServerMessageView::PlayerJoin(_, data, _) => str_fits(data.username),
        ServerMessageView::PlayerNick(_, name) => str_fits(name),
        ServerMessageView::ChatMessage(b) => bundle_fits(b),
        ServerMessageView::RawTileIds(ids) => snapshot_fits(ids),
        ServerMessageView::WorldTiles(tiles) => tiles_fit(tiles),
        _ => true,
    }
}

pub open spec fn server_response_fits(m: ServerResponseView) -> bool {
    match m {
        ServerResponseView::JoinDeny(r) => disconnect_reason_fits(r),
        ServerResponseView::EnterWorldDeny(r) => world_deny_reason_fits(r),
        ServerResponseView::EnterWorldAccept(id) => str_fits(id),
        _ => true,
    }
}

pub open spec fn client_message_fits(m: ClientMessageView) -> bool {
    match m {
        ClientMessageView::ChatMessage(target, text) => target_fits(target) && str_fits(text),
        ClientMessageView::EnterWorldRequest(name) => str_fits(name),
        _ => true,
    }
}

/// Whether every count of a packet fits its field and its tile map, if
/// any, is a map; anything built from executable values is.
pub open spec fn packet_fits(p: PacketView) -> bool {
    match p {
        PacketView::ServerMessage(m) => server_message_fits(m),
        PacketView::ServerResponse(m) => server_response_fits(m),
        PacketView::ClientMessage(m) => client_message_fits(m),
        PacketView::ClientResponse(m) => true,
    }
}

proof fn lemma_tag_at(b: Seq<u8>, pos: int, tag: u8)
    requires
        0 <= pos,
        pos + 1 <= b.len(),
        b.subrange(pos, pos + 1) == seq![tag],
    ensures
        parse_u8(b, pos) == Some((tag, pos + 1)),
{
    assert(b[pos] == b.subrange(pos, pos + 1)[0]);
}

proof fn lemma_parse_opt_str_frame(b: Seq<u8>, pos: int, o: Option<Seq<char>>)
    requires
        0 <= pos,
        opt_str_fits(o),
        pos + enc_opt_str(o).len() <= b.len(),
        b.subrange(pos, pos + enc_opt_str(o).len()) == enc_opt_str(o),
    ensures
        parse_opt_str(b, pos) == Some((o, pos + enc_opt_str(o).len())),
{
    match o {
        None => {
            lemma_tag_at(b, pos, 0);
        },
        Some(s) => {
            crate::codec::lemma_split_at(b, pos, seq![1u8], enc_str_be(s));
            lemma_tag_at(b, pos, 1);
            crate::codec::lemma_parse_str_be(b, pos + 1, s);
        },
    }
}

proof fn lemma_parse_position_frame(b: Seq<u8>, pos: int, p: Position)
    requires
        0 <= pos,
        pos + 8 <= b.len(),
        b.subrange(pos, pos + 8) == enc_position(p),
    ensures
        parse_position(b, pos) == Some((p, pos + 8)),
{
    crate::codec::lemma_split_at(b, pos, be32(p.x_bits), be32(p.y_bits));
    crate::codec::lemma_parse_u32_be(b, pos, p.x_bits);
    crate::codec::lemma_parse_u32_be(b, pos + 4, p.y_bits);
}

proof fn lemma_parse_client_id_frame(b: Seq<u8>, pos: int, id: ClientId)
    requires
        0 <= pos,
        pos + 8 <= b.len(),
        b.subrange(pos, pos + 8) == enc_client_id(id),
    ensures
        parse_client_id(b, pos) == Some((id, pos + 8)),
{
    crate::codec::lemma_parse_u64_be(b, pos, id.0);
}

proof fn lemma_parse_source_frame(b: Seq<u8>, pos: int, s: SourceView)
    requires
        0 <= pos,
        source_fits(s),
        pos + enc_source(s).len() <= b.len(),
        b.subrange(pos, pos + enc_source(s).len()) == enc_source(s),
    ensures
        parse_source(b, pos) == Some((s, pos + enc_source(s).len())),
{
    match s {
        SourceView::Player { id, world } => {
            crate::codec::lemma_split_at(
                b,
                pos,
                seq![0u8] + enc_client_id(id),
                enc_opt_str(world),
            );
            crate::codec::lemma_split_at(b, pos, seq![0u8], enc_client_id(id));
            lemma_tag_at(b, pos, 0);
            lemma_parse_client_id_frame(b, pos + 1, id);
            lemma_parse_opt_str_frame(b, pos + 9, world);
        },
        SourceView::System => {
            lemma_tag_at(b, pos, 1);
        },
        SourceView::Unknown => {
            lemma_tag_at(b, pos, 2);
        },
    }
}

proof fn lemma_parse_target_frame(b: Seq<u8>, pos: int, t: TargetView)
    requires
        0 <= pos,
        target_fits(t),
        pos + enc_target(t).len() <= b.len(),
        b.subrange(pos, pos + enc_target(t).len()) == enc_target(t),
    ensures
        parse_target(b, pos) == Some((t, pos + enc_target(t).len())),
{
    match t {
        TargetView::Player(id) => {
            crate::codec::lemma_split_at(b, pos, seq![0u8], enc_client_id(id));
            lemma_tag_at(b, pos, 0);
            lemma_parse_client_id_frame(b, pos + 1, id);
        },
        TargetView::Players(ids) => {
            let body = enc_list(ids, enc_client_id_fn());
            crate::codec::lemma_split_at(b, pos, seq![1u8] + be64(ids.len() as u64), body);
            crate::codec::lemma_split_at(b, pos, seq![1u8], be64(ids.len() as u64));
            lemma_tag_at(b, pos, 1);
            crate::codec::lemma_parse_u64_be(b, pos + 1, ids.len() as u64);
            assert forall|i: int, pos2: int|
                0 <= i < ids.len() && 0 <= pos2 && pos2 + enc_client_id_fn()(ids[i]).len()
                    <= b.len() && #[trigger] b.subrange(
                    pos2,
                    pos2 + enc_client_id_fn()(ids[i]).len(),
                ) == enc_client_id_fn()(ids[i]) implies parse_client_id_fn()(b, pos2) == Some((
                ids[i],
                pos2 + enc_client_id_fn()(ids[i]).len(),
            )) by {
                lemma_parse_client_id_frame(b, pos2, ids[i]);
            }
            crate::codec::lemma_parse_list(b, pos + 9, ids, enc_client_id_fn(),
                parse_client_id_fn());
            assert((ids.len() as u64) as int == ids.len() as int);
        },
        TargetView::World => {
            lemma_tag_at(b, pos, 2);
        },
        TargetView::All => {
            lemma_tag_at(b, pos, 3);
        },
    }
}

proof fn lemma_parse_chat_bundle_frame(b: Seq<u8>, pos: int, v: ChatMessageBundleView)
    requires
        0 <= pos,
        bundle_fits(v),
        pos + enc_chat_bundle(v).len() <= b.len(),
        b.subrange(pos, pos + enc_chat_bundle(v).len()) == enc_chat_bundle(v),
    ensures
        parse_chat_bundle(b, pos) == Some((v, pos + enc_chat_bundle(v).len())),
{
    let f1 = enc_str_be(v.content);
    let f2 = enc_source(v.source);
    let f3 = enc_target(v.target);
    crate::codec::lemma_split_at(b, pos, f1 + f2, f3);
    crate::codec::lemma_split_at(b, pos, f1, f2);
    crate::codec::lemma_parse_str_be(b, pos, v.content);
    lemma_parse_source_frame(b, pos + f1.len(), v.source);
    lemma_parse_target_frame(b, pos + f1.len() + f2.len(), v.target);
    assert(ChatMessageBundleView { content: v.content, source: v.source, target: v.target } == v);
}

proof fn lemma_parse_disconnect_reason_frame(b: Seq<u8>, pos: int, r: DisconnectReasonView)
    requires
        0 <= pos,
        disconnect_reason_fits(r),
        pos + enc_disconnect_reason(r).len() <= b.len(),
        b.subrange(pos, pos + enc_disconnect_reason(r).len()) == enc_disconnect_reason(r),
    ensures
        parse_disconnect_reason(b, pos) == Some((r, pos + enc_disconnect_reason(r).len())),
{
    match r {
        DisconnectReasonView::ProtocolReject { required_protocol_ver, required_version_string } => {
            crate::codec::lemma_split_at(
                b,
                pos,
                seq![0u8] + be32(required_protocol_ver.0),
                enc_str_be(required_version_string),
            );
            crate::codec::lemma_split_at(b, pos, seq![0u8], be32(required_protocol_ver.0));
            lemma_tag_at(b, pos, 0);
            crate::codec::lemma_parse_u32_be(b, pos + 1, required_protocol_ver.0);
            crate::codec::lemma_parse_str_be(b, pos + 5, required_version_string);
            assert(ProtocolVersion(required_protocol_ver.0) == required_protocol_ver);
        },
        DisconnectReasonView::EmptyUserdata => {
            lemma_tag_at(b, pos, 1);
        },
        DisconnectReasonView::PlayerNonexistent => {
            lemma_tag_at(b, pos, 2);
        },
        DisconnectReasonView::ServerFull(m) => {
            crate::codec::lemma_split_at(b, pos, seq![3u8], enc_str_be(m));
            lemma_tag_at(b, pos, 3);
            crate::codec::lemma_parse_str_be(b, pos + 1, m);
        },
        DisconnectReasonView::Kicked(m) => {
            crate::codec::lemma_split_at(b, pos, seq![4u8], enc_str_be(m));
            lemma_tag_at(b, pos, 4);
            crate::codec::lemma_parse_str_be(b, pos + 1, m);
        },
        DisconnectReasonView::Banned(m) => {
            crate::codec::lemma_split_at(b, pos, seq![5u8], enc_str_be(m));
            lemma_tag_at(b, pos, 5);
            crate::codec::lemma_parse_str_be(b, pos + 1, m);
        },
        DisconnectReasonView::Shutdown(m) => {
            crate::codec::lemma_split_at(b, pos, seq![6u8], enc_str_be(m));
            lemma_tag_at(b, pos, 6);
            crate::codec::lemma_parse_str_be(b, pos + 1, m);
        },
        DisconnectReasonView::Other(o) => {
            crate::codec::lemma_split_at(b, pos, seq![7u8], enc_opt_str(o));
            lemma_tag_at(b, pos, 7);
            lemma_parse_opt_str_frame(b, pos + 1, o);
        },
    }
}

proof fn lemma_parse_world_deny_reason_frame(b: Seq<u8>, pos: int, r: WorldDenyReasonView)
    requires
        0 <= pos,
        world_deny_reason_fits(r),
        pos + enc_world_deny_reason(r).len() <= b.len(),
        b.subrange(pos, pos + enc_world_deny_reason(r).len()) == enc_world_deny_reason(r),
    ensures
        parse_world_deny_reason(b, pos) == Some((r, pos + enc_world_deny_reason(r).len())),
{
    match r {
        WorldDenyReasonView::WorldFull(m) => {
            crate::codec::lemma_split_at(b, pos, seq![0u8], enc_str_be(m));
            lemma_tag_at(b, pos, 0);
            crate::codec::lemma_parse_str_be(b, pos + 1, m);
        },
        WorldDenyReasonView::Banned(m, until) => {
            crate::codec::lemma_split_at(b, pos, seq![1u8] + enc_str_be(m), be64(until.0));
            crate::codec::lemma_split_at(b, pos, seq![1u8], enc_str_be(m));
            lemma_tag_at(b, pos, 1);
            crate::codec::lemma_parse_str_be(b, pos + 1, m);
            crate::codec::lemma_parse_u64_be(b, pos + 1 + enc_str_be(m).len(), until.0);
            assert(WorldBanUntil(until.0) == until);
        },
        WorldDenyReasonView::InvalidWorldName => {
            lemma_tag_at(b, pos, 2);
        },
        WorldDenyReasonView::Other(o) => {
            crate::codec::lemma_split_at(b, pos, seq![3u8], enc_opt_str(o));
            lemma_tag_at(b, pos, 3);
            lemma_parse_opt_str_frame(b, pos + 1, o);
        },
    }
}

proof fn lemma_parse_ident_be_frame(b: Seq<u8>, pos: int, id: IdentifierView)
    requires
        0 <= pos,
        crate::save::ident_fits(id),
        pos + enc_ident_be(id).len() <= b.len(),
        b.subrange(pos, pos + enc_ident_be(id).len()) == enc_ident_be(id),
    ensures
        parse_ident_be(b, pos) == Some((id, pos + enc_ident_be(id).len())),
{
    crate::codec::lemma_split_at(b, pos, enc_str_be(id.namespace), enc_str_be(id.path));
    crate::codec::lemma_parse_str_be(b, pos, id.namespace);
    crate::codec::lemma_parse_str_be(b, pos + enc_str_be(id.namespace).len(), id.path);
    assert(IdentifierView { namespace: id.namespace, path: id.path } == id);
}

proof fn lemma_parse_snapshot_be_frame(b: Seq<u8>, pos: int, ids: Seq<IdentifierView>)
    requires
        0 <= pos,
        snapshot_fits(ids),
        pos + enc_snapshot_be(ids).len() <= b.len(),
        b.subrange(pos, pos + enc_snapshot_be(ids).len()) == enc_snapshot_be(ids),
    ensures
        parse_snapshot_be(b, pos) == Some((ids, pos + enc_snapshot_be(ids).len())),
{
    let body = enc_list(ids, enc_ident_be_fn());
    crate::codec::lemma_split_at(b, pos, be64(ids.len() as u64), body);
    crate::codec::lemma_parse_u64_be(b, pos, ids.len() as u64);
    assert forall|i: int, pos2: int|
        0 <= i < ids.len() && 0 <= pos2 && pos2 + enc_ident_be_fn()(ids[i]).len() <= b.len()
            && #[trigger] b.subrange(pos2, pos2 + enc_ident_be_fn()(ids[i]).len())
            == enc_ident_be_fn()(ids[i]) implies parse_ident_be_fn()(b, pos2) == Some((
        ids[i],
        pos2 + enc_ident_be_fn()(ids[i]).len(),
    )) by {
        lemma_parse_ident_be_frame(b, pos2, ids[i]);
    }
    crate::codec::lemma_parse_list(b, pos + 8, ids, enc_ident_be_fn(), parse_ident_be_fn());
    assert((ids.len() as u64) as int == ids.len() as int);
}

proof fn lemma_parse_tile_record_be_frame(b: Seq<u8>, pos: int, e: (TilePos, WorldTile))
    requires
        0 <= pos,
        pos + 13 <= b.len(),
        b.subrange(pos, pos + 13) == enc_tile_record_be(e),
    ensures
        parse_tile_record_be(b, pos) == Some((e, pos + 13)),
{
    let f1 = i32_be(e.0.x);
    let f2 = i32_be(e.0.y);
    let f3 = i32_be(e.1.0.0);
    let f4 = seq![e.1.1.0];
    crate::codec::lemma_split_at(b, pos, f1 + f2 + f3, f4);
    crate::codec::lemma_split_at(b, pos, f1 + f2, f3);
    crate::codec::lemma_split_at(b, pos, f1, f2);
    crate::codec::lemma_parse_i32_be(b, pos, e.0.x);
    crate::codec::lemma_parse_i32_be(b, pos + 4, e.0.y);
    crate::codec::lemma_parse_i32_be(b, pos + 8, e.1.0.0);
    assert(b[pos + 12] == b.subrange(pos + 12, pos + 13)[0]);
    assert(parse_u8(b, pos + 12) == Some((e.1.1.0, pos + 13)));
    assert((TilePos { x: e.0.x, y: e.0.y }, WorldTile(RawId(e.1.0.0), TileData(e.1.1.0))) == e);
}

proof fn lemma_parse_tiles_be_frame(b: Seq<u8>, pos: int, tiles: Seq<(TilePos, WorldTile)>)
    requires
        0 <= pos,
        tiles_fit(tiles),
        pos + enc_tiles_be(tiles).len() <= b.len(),
        b.subrange(pos, pos + enc_tiles_be(tiles).len()) == enc_tiles_be(tiles),
    ensures
        parse_tiles_be(b, pos) == Some((tiles, pos + enc_tiles_be(tiles).len())),
{
    let body = enc_list(tiles, enc_tile_record_be_fn());
    crate::codec::lemma_split_at(b, pos, be64(tiles.len() as u64), body);
    crate::codec::lemma_parse_u64_be(b, pos, tiles.len() as u64);
    assert forall|i: int, pos2: int|
        0 <= i < tiles.len() && 0 <= pos2 && pos2 + enc_tile_record_be_fn()(tiles[i]).len()
            <= b.len() && #[trigger] b.subrange(
            pos2,
            pos2 + enc_tile_record_be_fn()(tiles[i]).len(),
        ) == enc_tile_record_be_fn()(tiles[i]) implies parse_tile_record_be_fn()(b, pos2) == Some((
        tiles[i],
        pos2 + enc_tile_record_be_fn()(tiles[i]).len(),
    )) by {
        assert(enc_tile_record_be(tiles[i]).len() == 13);
        lemma_parse_tile_record_be_frame(b, pos2, tiles[i]);
    }
    crate::codec::lemma_parse_list(b, pos + 8, tiles, enc_tile_record_be_fn(),
        parse_tile_record_be_fn());
    assert((tiles.len() as u64) as int == tiles.len() as int);
}

#[verifier::rlimit(100)]
#[verifier::spinoff_prover]
proof fn lemma_parse_server_message_frame(b: Seq<u8>, pos: int, m: ServerMessageView)
    requires
        0 <= pos,
        server_message_fits(m),
        pos + enc_server_message(m).len() <= b.len(),
        b.subrange(pos, pos + enc_server_message(m).len()) == enc_server_message(m),
    ensures
        parse_server_message(b, pos) == Some((m, pos + enc_server_message(m).len())),
{
    match m {
        ServerMessageView::Ping { timestamp } => {
            crate::codec::lemma_split_at(b, pos, seq![0u8], be128(timestamp));
            lemma_tag_at(b, pos, 0);
            crate::codec::lemma_parse_u128_be(b, pos + 1, timestamp);
        },
        ServerMessageView::Disconnect(r) => {
            crate::codec::lemma_split_at(b, pos, seq![1u8], enc_disconnect_reason(r));
            lemma_tag_at(b, pos, 1);
            lemma_parse_disconnect_reason_frame(b, pos + 1, r);
        },
        ServerMessageView::PlayerJoin(id, data, position) => {
            crate::codec::lemma_split_at(
                b,
                pos,
                seq![2u8] + enc_client_id(id) + enc_str_be(data.username),
                enc_position(position),
            );
            crate::codec::lemma_split_at(
                b,
                pos,
                seq![2u8] + enc_client_id(id),
                enc_str_be(data.username),
            );
            crate::codec::lemma_split_at(b, pos, seq![2u8], enc_client_id(id));
            lemma_tag_at(b, pos, 2);
            lemma_parse_client_id_frame(b, pos + 1, id);
            crate::codec::lemma_parse_str_be(b, pos + 9, data.username);
            lemma_parse_position_frame(
                b,
                pos + 9 + enc_str_be(data.username).len(),
                position,
            );
            assert(PlayerDataView { username: data.username } == data);
        },
        ServerMessageView::PlayerLeave(id) => {
            crate::codec::lemma_split_at(b, pos, seq![3u8], enc_client_id(id));
            lemma_tag_at(b, pos, 3);
            lemma_parse_client_id_frame(b, pos + 1, id);
        },
        ServerMessageView::PlayerNick(id, name) => {
            crate::codec::lemma_split_at(b, pos, seq![4u8] + enc_client_id(id), enc_str_be(name));
            crate::codec::lemma_split_at(b, pos, seq![4u8], enc_client_id(id));
            lemma_tag_at(b, pos, 4);
            lemma_parse_client_id_frame(b, pos + 1, id);
            crate::codec::lemma_parse_str_be(b, pos + 9, name);
        },
        ServerMessageView::ChatMessage(bundle) => {
            crate::codec::lemma_split_at(b, pos, seq![5u8], enc_chat_bundle(bundle));
            lemma_tag_at(b, pos, 5);
            lemma_parse_chat_bundle_frame(b, pos + 1, bundle);
        },
        ServerMessageView::PlayerPosition(id, position) => {
            crate::codec::lemma_split_at(
                b,
                pos,
                seq![6u8] + enc_client_id(id),
                enc_position(position),
            );
            crate::codec::lemma_split_at(b, pos, seq![6u8], enc_client_id(id));
            lemma_tag_at(b, pos, 6);
            lemma_parse_client_id_frame(b, pos + 1, id);
            lemma_parse_position_frame(b, pos + 9, position);
        },
        ServerMessageView::RawTileIds(ids) => {
            crate::codec::lemma_split_at(b, pos, seq![7u8], enc_snapshot_be(ids));
            lemma_tag_at(b, pos, 7);
            lemma_parse_snapshot_be_frame(b, pos + 1, ids);
        },
        ServerMessageView::WorldTiles(tiles) => {
            crate::codec::lemma_split_at(b, pos, seq![8u8], enc_tiles_be(tiles));
            lemma_tag_at(b, pos, 8);
            lemma_parse_tiles_be_frame(b, pos + 1, tiles);
        },
    }
}

proof fn lemma_parse_server_response_frame(b: Seq<u8>, pos: int, m: ServerResponseView)
    requires
        0 <= pos,
        server_response_fits(m),
        pos + enc_server_response(m).len() <= b.len(),
        b.subrange(pos, pos + enc_server_response(m).len()) == enc_server_response(m),
    ensures
        parse_server_response(b, pos) == Some((m, pos + enc_server_response(m).len())),
{
    match m {
        ServerResponseView::JoinDeny(r) => {
            crate::codec::lemma_split_at(b, pos, seq![0u8], enc_disconnect_reason(r));
            lemma_tag_at(b, pos, 0);
            lemma_parse_disconnect_reason_frame(b, pos + 1, r);
        },
        ServerResponseView::JoinAccept => {
            lemma_tag_at(b, pos, 1);
        },
        ServerResponseView::PingAck { timestamp } => {
            crate::codec::lemma_split_at(b, pos, seq![2u8], be128(timestamp));
            lemma_tag_at(b, pos, 2);
            crate::codec::lemma_parse_u128_be(b, pos + 1, timestamp);
        },
        ServerResponseView::EnterWorldDeny(r) => {
            crate::codec::lemma_split_at(b, pos, seq![3u8], enc_world_deny_reason(r));
            lemma_tag_at(b, pos, 3);
            lemma_parse_world_deny_reason_frame(b, pos + 1, r);
        },
        ServerResponseView::EnterWorldAccept(id) => {
            crate::codec::lemma_split_at(b, pos, seq![4u8], enc_str_be(id));
            lemma_tag_at(b, pos, 4);
            crate::codec::lemma_parse_str_be(b, pos + 1, id);
        },
    }
}

proof fn lemma_parse_client_message_frame(b: Seq<u8>, pos: int, m: ClientMessageView)
    requires
        0 <= pos,
        client_message_fits(m),
        pos + enc_client_message(m).len() <= b.len(),
        b.subrange(pos, pos + enc_client_message(m).len()) == enc_client_message(m),
    ensures
        parse_client_message(b, pos) == Some((m, pos + enc_client_message(m).len())),
{
    match m {
        ClientMessageView::JoinRequest { protocol_ver } => {
            crate::codec::lemma_split_at(b, pos, seq![0u8], be32(protocol_ver.0));
            lemma_tag_at(b, pos, 0);
            crate::codec::lemma_parse_u32_be(b, pos + 1, protocol_ver.0);
            assert(ProtocolVersion(protocol_ver.0) == protocol_ver);
        },
        ClientMessageView::Ping { timestamp } => {
            crate::codec::lemma_split_at(b, pos, seq![1u8], be128(timestamp));
            lemma_tag_at(b, pos, 1);
            crate::codec::lemma_parse_u128_be(b, pos + 1, timestamp);
        },
        ClientMessageView::ChatMessage(target, text) => {
            crate::codec::lemma_split_at(b, pos, seq![2u8] + enc_target(target), enc_str_be(text));
            crate::codec::lemma_split_at(b, pos, seq![2u8], enc_target(target));
            lemma_tag_at(b, pos, 2);
            lemma_parse_target_frame(b, pos + 1, target);
            crate::codec::lemma_parse_str_be(b, pos + 1 + enc_target(target).len(), text);
        },
        ClientMessageView::EnterWorldRequest(name) => {
            crate::codec::lemma_split_at(b, pos, seq![3u8], enc_str_be(name));
            lemma_tag_at(b, pos, 3);
            crate::codec::lemma_parse_str_be(b, pos + 1, name);
        },
        ClientMessageView::PlayerPosition(position) => {
            crate::codec::lemma_split_at(b, pos, seq![4u8], enc_position(position));
            lemma_tag_at(b, pos, 4);
            lemma_parse_position_frame(b, pos + 1, position);
        },
    }
}

proof fn lemma_parse_client_response_frame(b: Seq<u8>, pos: int, m: ClientResponseView)
    requires
        0 <= pos,
        pos + enc_client_response(m).len() <= b.len(),
        b.subrange(pos, pos + enc_client_response(m).len()) == enc_client_response(m),
    ensures
        parse_client_response(b, pos) == Some((m, pos + enc_client_response(m).len())),
{
    match m {
        ClientResponseView::PingAck { timestamp } => {
            crate::codec::lemma_split_at(b, pos, seq![0u8], be128(timestamp));
            lemma_tag_at(b, pos, 0);
            crate::codec::lemma_parse_u128_be(b, pos + 1, timestamp);
        },
    }
}

/// Wire round trip: a packet's own encoding decodes, in full, back to
/// that packet.
pub proof fn lemma_packet_roundtrip(p: PacketView)
    requires
        packet_fits(p),
    ensures
        parse_packet(enc_packet(p), 0) == Some((p, enc_packet(p).len() as int)),
{
    let b = enc_packet(p);
    assert(b.subrange(0, b.len() as int) =~= b);
    match p {
        PacketView::ServerMessage(m) => {
            crate::codec::lemma_split_at(b, 0, seq![0u8], enc_server_message(m));
            lemma_tag_at(b, 0, 0);
            lemma_parse_server_message_frame(b, 1, m);
        },
        PacketView::ServerResponse(m) => {
            crate::codec::lemma_split_at(b, 0, seq![1u8], enc_server_response(m));
            lemma_tag_at(b, 0, 1);
            lemma_parse_server_response_frame(b, 1, m);
        },
        PacketView::ClientMessage(m) => {
            crate::codec::lemma_split_at(b, 0, seq![2u8], enc_client_message(m));
            lemma_tag_at(b, 0, 2);
            lemma_parse_client_message_frame(b, 1, m);
        },
        PacketView::ClientResponse(m) => {
            crate::codec::lemma_split_at(b, 0, seq![3u8], enc_client_response(m));
            lemma_tag_at(b, 0, 3);
            lemma_parse_client_response_frame(b, 1, m);
        },
    }
}

} // verus!
