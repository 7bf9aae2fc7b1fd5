//! The versioned binary save codec.
//!
//! A save blob is, in order: a 4-byte magic constant; a 4-byte
//! little-endian version; a fixed-width offset table (three 64-bit byte
//! offsets, to the snapshot, tile and ban sections); the embedded
//! registry snapshot as it existed at save time; the tile records (13
//! bytes each: x, y, raw id, data byte); and the ban records. All
//! integers are little-endian.
//!
//! Raw ids in tile records are meaningful only against the embedded
//! snapshot: at load time each one is resolved through the snapshot to
//! an identifier and re-resolved against the live registry, so a save
//! stays decodable even when a later process assigned different codes to
//! the same content. Decoding is all-or-nothing: no failure leaves a
//! partially filled tile map behind.

use vstd::prelude::*;

use crate::assoc::{assoc_map, lemma_assoc_map_push};
use crate::codec::{enc_list, enc_str_le, i32_le, le32, le64, lemma_parse_list, lemma_parse_str_le,
    lemma_parse_u32_le, lemma_parse_u64_le, parse_i32_le, parse_list, parse_str_le, parse_u32_le,
    parse_u64_le, parse_u8, push_i32_le, push_str_le, push_u32_le, push_u64_le, read_i32_le,
    read_str_le, read_u32_le, read_u64_le, read_u8};
use crate::identifier::{Identifier, IdentifierView};
use crate::networking::Username;
use crate::raw_id::{RawId, RawIds};
use crate::tile::{TileData, TilePos, WorldTile};
use crate::world::{BanMap, TileMap, WorldBan, WorldBanUntil, WorldBanView};

verus! {

/// The one save version this codec build reads and writes.
pub const SAVE_VERSION: u32 = 0;

/// The header constant that opens every save blob.
pub open spec fn save_magic() -> Seq<u8> {
    seq![0xB0u8, 0x7Au8, 0x21u8, 0xCAu8]
}

/// Mathematical model of a [`SaveError`].
pub enum SaveErrorView {
    MagicMissing(u32),
    InvalidVersion(u32, u32),
    WorldNonexistent,
    RawIdNotFoundInSave(RawId),
    IdNonexistent(IdentifierView),
    Corrupt,
    Oversize,
}

/// Why a save could not be read or written.
#[derive(Debug)]
pub enum SaveError {
    /// The header constant is absent; carries the expected constant.
    MagicMissing(u32),
    /// The version field is not the one this build supports; carries the
    /// found and the supported version.
    InvalidVersion(u32, u32),
    /// No save exists for that world; the file layer reports this so a
    /// caller can choose to generate a new world instead.
    WorldNonexistent,
    /// A tile record's raw id has no entry in the embedded snapshot.
    RawIdNotFoundInSave(RawId),
    /// An identifier from the snapshot is unknown to the live registry.
    IdNonexistent(Identifier),
    /// The blob's body does not parse as the advertised layout.
    Corrupt,
    /// The sections are too long for the fixed-width offset table.
    Oversize,
}

impl View for SaveError {
    type V = SaveErrorView;

    open spec fn view(&self) -> SaveErrorView {
        match self {
            SaveError::MagicMissing(m) => SaveErrorView::MagicMissing(*m),
            SaveError::InvalidVersion(found, supported) => SaveErrorView::InvalidVersion(
                *found,
                *supported,
            ),
            SaveError::WorldNonexistent => SaveErrorView::WorldNonexistent,
            SaveError::RawIdNotFoundInSave(raw) => SaveErrorView::RawIdNotFoundInSave(*raw),
            SaveError::IdNonexistent(id) => SaveErrorView::IdNonexistent(id@),
            SaveError::Corrupt => SaveErrorView::Corrupt,
            SaveError::Oversize => SaveErrorView::Oversize,
        }
    }
}

/// Mathematical model of a [`WorldSave`].
pub struct WorldSaveView {
    pub tiles: Seq<(TilePos, WorldTile)>,
    pub bans: Seq<(Seq<char>, WorldBanView)>,
}

/// A world's persistent state: its tile grid and its ban list.
#[derive(Debug)]
pub struct WorldSave {
    pub tiles: TileMap,
    pub bans: BanMap,
}

impl View for WorldSave {
    type V = WorldSaveView;

    open spec fn view(&self) -> WorldSaveView {
        WorldSaveView { tiles: self.tiles@, bans: self.bans@ }
    }
}

impl WorldSave {
    pub open spec fn wf(&self) -> bool {
        self.tiles.wf() && self.bans.wf()
    }

    pub fn new() -> (r: Self)
        ensures
            r.wf(),
            r@.tiles =~= Seq::<(TilePos, WorldTile)>::empty(),
            r@.bans =~= Seq::<(Seq<char>, WorldBanView)>::empty(),
    {
        WorldSave { tiles: TileMap::new(), bans: BanMap::new() }
    }
}

// ---------------------------------------------------------------------
// Spec encoding
// ---------------------------------------------------------------------

pub open spec fn enc_ident(id: IdentifierView) -> Seq<u8> {
    enc_str_le(id.namespace) + enc_str_le(id.path)
}

pub open spec fn enc_ident_fn() -> spec_fn(IdentifierView) -> Seq<u8> {
    |id: IdentifierView| enc_ident(id)
}

pub open spec fn enc_snapshot(ids: Seq<IdentifierView>) -> Seq<u8> {
    le64(ids.len() as u64) + enc_list(ids, enc_ident_fn())
}

pub open spec fn enc_tile_record(e: (TilePos, WorldTile)) -> Seq<u8> {
    i32_le(e.0.x) + i32_le(e.0.y) + i32_le(e.1.0.0) + seq![e.1.1.0]
}

pub open spec fn enc_tile_record_fn() -> spec_fn((TilePos, WorldTile)) -> Seq<u8> {
    |e: (TilePos, WorldTile)| enc_tile_record(e)
}

/// The tile section is the bare 13-byte records, nothing else: its
/// extent, and hence the record count, comes from the offset table.
pub open spec fn enc_tiles(tiles: Seq<(TilePos, WorldTile)>) -> Seq<u8> {
    enc_list(tiles, enc_tile_record_fn())
}

pub open spec fn enc_ban(e: (Seq<char>, WorldBanView)) -> Seq<u8> {
    enc_str_le(e.0) + enc_str_le(e.1.reason) + le64(e.1.until)
}

pub open spec fn enc_ban_fn() -> spec_fn((Seq<char>, WorldBanView)) -> Seq<u8> {
    |e: (Seq<char>, WorldBanView)| enc_ban(e)
}

pub open spec fn enc_bans(bans: Seq<(Seq<char>, WorldBanView)>) -> Seq<u8> {
    le64(bans.len() as u64) + enc_list(bans, enc_ban_fn())
}

/// Byte length of the fixed header: magic, version, three offsets.
pub open spec fn save_header_len() -> int {
    32
}

/// The save blob for `save` under registry snapshot `ids`, provided the
/// offsets fit their fixed-width fields (see [`save_fits`]).
pub open spec fn save_bytes(save: WorldSaveView, ids: Seq<IdentifierView>) -> Seq<u8> {
    let snap = enc_snapshot(ids);
    let tiles = enc_tiles(save.tiles);
    let bans = enc_bans(save.bans);
    let snap_off = save_header_len();
    let tiles_off = snap_off + snap.len();
    let bans_off = tiles_off + tiles.len();
    save_magic() + le32(SAVE_VERSION) + le64(snap_off as u64) + le64(tiles_off as u64) + le64(
        bans_off as u64,
    ) + snap + tiles + bans
}

/// Whether the whole blob, and hence every offset, fits the 64-bit
/// offset fields.
pub open spec fn save_fits(save: WorldSaveView, ids: Seq<IdentifierView>) -> bool {
    save_header_len() + enc_snapshot(ids).len() + enc_tiles(save.tiles).len() + enc_bans(
        save.bans,
    ).len() <= u64::MAX
}

// ---------------------------------------------------------------------
// Spec parsing
// ---------------------------------------------------------------------

pub open spec fn parse_ident(b: Seq<u8>, pos: int) -> Option<(IdentifierView, int)> {
    match parse_str_le(b, pos) {
        Some((namespace, p1)) => match parse_str_le(b, p1) {
            Some((path, p2)) => Some((IdentifierView { namespace, path }, p2)),
            None => None,
        },
        None => None,
    }
}

pub open spec fn parse_ident_fn() -> spec_fn(Seq<u8>, int) -> Option<(IdentifierView, int)> {
    |b: Seq<u8>, pos: int| parse_ident(b, pos)
}

pub open spec fn parse_snapshot(b: Seq<u8>, pos: int) -> Option<(Seq<IdentifierView>, int)> {
    match parse_u64_le(b, pos) {
        Some((n, p)) => parse_list(b, p, n as int, parse_ident_fn()),
        None => None,
    }
}

pub open spec fn parse_tile_record(b: Seq<u8>, pos: int) -> Option<((TilePos, WorldTile), int)> {
    match parse_i32_le(b, pos) {
        Some((x, p1)) => match parse_i32_le(b, p1) {
            Some((y, p2)) => match parse_i32_le(b, p2) {
                Some((raw, p3)) => match parse_u8(b, p3) {
                    Some((data, p4)) => Some((
                        (TilePos { x, y }, WorldTile(RawId(raw), TileData(data))),
                        p4,
                    )),
                    None => None,
                },
                None => None,
            },
            None => None,
        },
        None => None,
    }
}

pub open spec fn parse_tile_record_fn() -> spec_fn(Seq<u8>, int) -> Option<
    ((TilePos, WorldTile), int),
> {
    |b: Seq<u8>, pos: int| parse_tile_record(b, pos)
}

/// Parses the tile section spanning `pos..end`: it must hold a whole
/// number of 13-byte records and nothing else.
pub open spec fn parse_tiles(b: Seq<u8>, pos: int, end: int) -> Option<(
    Seq<(TilePos, WorldTile)>,
    int,
)> {
    if pos <= end && (end - pos) % 13 == 0 {
        parse_list(b, pos, (end - pos) / 13, parse_tile_record_fn())
    } else {
        None
    }
}

pub open spec fn parse_ban(b: Seq<u8>, pos: int) -> Option<((Seq<char>, WorldBanView), int)> {
    match parse_str_le(b, pos) {
        Some((username, p1)) => match parse_str_le(b, p1) {
            Some((reason, p2)) => match parse_u64_le(b, p2) {
                Some((until, p3)) => Some(((username, WorldBanView { reason, until }), p3)),
                None => None,
            },
            None => None,
        },
        None => None,
    }
}

pub open spec fn parse_ban_fn() -> spec_fn(Seq<u8>, int) -> Option<
    ((Seq<char>, WorldBanView), int),
> {
    |b: Seq<u8>, pos: int| parse_ban(b, pos)
}

pub open spec fn parse_bans(b: Seq<u8>, pos: int) -> Option<(Seq<(Seq<char>, WorldBanView)>, int)> {
    match parse_u64_le(b, pos) {
        Some((n, p)) => parse_list(b, p, n as int, parse_ban_fn()),
        None => None,
    }
}

/// Whether the blob opens with the magic constant.
pub open spec fn magic_ok(b: Seq<u8>) -> bool {
    b.len() >= 8 && b.subrange(0, 4) == save_magic()
}

/// The version field of a blob that is at least 8 bytes long.
pub open spec fn version_of(b: Seq<u8>) -> u32 {
    match parse_u32_le(b, 4) {
        Some((v, _)) => v,
        None => 0,
    }
}

/// The three sections of a well-formed body, parsed from byte 8 on:
/// the offset table must point exactly where the sections in fact begin,
/// and nothing may trail the ban section.
pub open spec fn parse_save_body(b: Seq<u8>) -> Option<
    (Seq<IdentifierView>, Seq<(TilePos, WorldTile)>, Seq<(Seq<char>, WorldBanView)>),
> {
    match (parse_u64_le(b, 8), parse_u64_le(b, 16), parse_u64_le(b, 24)) {
        (Some((snap_off, _)), Some((tiles_off, _)), Some((bans_off, _))) => {
            if snap_off != save_header_len() as u64 {
                None
            } else {
                match parse_snapshot(b, save_header_len()) {
                    Some((snap, p1)) => if tiles_off as int != p1 {
                        None
                    } else {
                        match parse_tiles(b, p1, bans_off as int) {
                            Some((tiles, p2)) => if bans_off as int != p2 {
                                None
                            } else {
                                match parse_bans(b, p2) {
                                    Some((bans, p3)) => if p3 != b.len() {
                                        None
                                    } else {
                                        Some((snap, tiles, bans))
                                    },
                                    None => None,
                                }
                            },
                            None => None,
                        }
                    },
                    None => None,
                }
            }
        },
        _ => None,
    }
}

// ---------------------------------------------------------------------
// Load-time translation of raw ids through the embedded snapshot
// ---------------------------------------------------------------------

/// What one stored tile record becomes against the live registry: its
/// stored raw id is resolved through the embedded snapshot to an
/// identifier, and that identifier re-resolved against the live
/// registry; either step can fail, and the whole load fails with it.
pub open spec fn spec_translate_tile(
    rec: (TilePos, WorldTile),
    snap: Seq<IdentifierView>,
    live: Seq<IdentifierView>,
) -> Result<(TilePos, WorldTile), SaveErrorView> {
    let raw = rec.1.0.0 as int;
    if !(0 <= raw < snap.len()) {
        Err(SaveErrorView::RawIdNotFoundInSave(rec.1.0))
    } else {
        let id = snap[raw];
        if !(exists|i: int| 0 <= i < live.len() && live[i] == id) {
            Err(SaveErrorView::IdNonexistent(id))
        } else {
            let new_raw = choose|i: int| 0 <= i < live.len() && live[i] == id;
            Ok((rec.0, WorldTile(RawId(new_raw as i32), rec.1.1)))
        }
    }
}

/// Translates every stored record, stopping at the first failure.
pub open spec fn spec_translate_all(
    recs: Seq<(TilePos, WorldTile)>,
    snap: Seq<IdentifierView>,
    live: Seq<IdentifierView>,
) -> Result<Seq<(TilePos, WorldTile)>, SaveErrorView>
    decreases recs.len(),
{
    if recs.len() == 0 {
        Ok(Seq::empty())
    } else {
        match spec_translate_tile(recs[0], snap, live) {
            Err(e) => Err(e),
            Ok(t) => match spec_translate_all(recs.skip(1), snap, live) {
                Err(e) => Err(e),
                Ok(rest) => Ok(seq![t] + rest),
            },
        }
    }
}

/// What deserializing `b` against the live registry yields: the header
/// checks, then the parsed body, then the translation; see §`WorldSave`.
pub open spec fn spec_deserialize(b: Seq<u8>, live: Seq<IdentifierView>) -> Result<
    (Seq<(TilePos, WorldTile)>, Seq<(Seq<char>, WorldBanView)>),
    SaveErrorView,
> {
    if !magic_ok(b) {
        Err(SaveErrorView::MagicMissing(0xCA217AB0))
    } else if version_of(b) != SAVE_VERSION {
        Err(SaveErrorView::InvalidVersion(version_of(b), SAVE_VERSION))
    } else {
        match parse_save_body(b) {
            None => Err(SaveErrorView::Corrupt),
            Some((snap, recs, bans)) => match spec_translate_all(recs, snap, live) {
                Err(e) => Err(e),
                Ok(tiles) => Ok((tiles, bans)),
            },
        }
    }
}

// ---------------------------------------------------------------------
// Executable translation
// ---------------------------------------------------------------------

/// Resolves one stored tile record against the live registry through the
/// embedded snapshot; the pure core of loading (see the module doc).
pub fn translate_tile_record(
    pos: TilePos,
    tile: WorldTile,
    snapshot: &RawIds,
    live: &RawIds,
) -> (r: Result<(TilePos, WorldTile), SaveError>)
    requires
        live.wf(),
    ensures
        ({
            let spec_r = spec_translate_tile((pos, tile), snapshot@, live@);
            match r {
                Ok(t) => spec_r == Ok::<(TilePos, WorldTile), SaveErrorView>(t),
                Err(e) => spec_r == Err::<(TilePos, WorldTile), SaveErrorView>(e@),
            }
        }),
{
    match snapshot.get_id(tile.0) {
        None => Err(SaveError::RawIdNotFoundInSave(tile.0)),
        Some(id) => match live.get_raw_id(id) {
            None => Err(SaveError::IdNonexistent(id.clone())),
            Some(new_raw) => {
                proof {
                    let idv = snapshot@[tile.0.0 as int];
                    let w = choose|i: int| 0 <= i < live@.len() && live@[i] == idv;
                    assert(live@[w] == idv && live@[new_raw.0 as int] == idv);
                    if w != new_raw.0 as int {
                        assert(live@[w] != live@[new_raw.0 as int]);
                    }
                }
                Ok((pos, WorldTile(new_raw, tile.1)))
            },
        },
    }
}

// ---------------------------------------------------------------------
// Executable serializer
// ---------------------------------------------------------------------

fn encode_snapshot(ids: &RawIds, out: &mut Vec<u8>)
    ensures
        final(out)@ == old(out)@ + enc_snapshot(ids@),
        ids@.len() <= u64::MAX,
        forall|i: int| 0 <= i < ids@.len() ==> ident_fits(#[trigger] ids@[i]),
{
    let n = ids.len();
    push_u64_le(out, n as u64);
    let mut i: usize = 0;
    while i < n
        invariant
            n == ids@.len(),
            i <= n,
            forall|j: int| 0 <= j < i ==> ident_fits(#[trigger] ids@[j]),
            out@ == old(out)@ + le64(n as u64) + enc_list(ids@.take(i as int), enc_ident_fn()),
        decreases n - i,
    {
        let id = ids.identifier_at(i);
        push_str_le(out, id.namespace());
        push_str_le(out, id.path());
        proof {
            assert(ident_fits(ids@[i as int]));
            assert(ids@.take(i + 1) =~= ids@.take(i as int).push(ids@[i as int]));
            lemma_enc_list_push_save(ids@.take(i as int), ids@[i as int]);
            assert(out@ =~= old(out)@ + le64(n as u64) + enc_list(
                ids@.take(i + 1),
                enc_ident_fn(),
            ));
        }
        i += 1;
    }
    proof {
        assert(ids@.take(n as int) =~= ids@);
        assert(out@ =~= old(out)@ + enc_snapshot(ids@));
    }
}

proof fn lemma_enc_list_push_save(ids: Seq<IdentifierView>, id: IdentifierView)
    ensures
        enc_list(ids.push(id), enc_ident_fn()) == enc_list(ids, enc_ident_fn()) + enc_ident(id),
{
    crate::codec::lemma_enc_list_push(ids, id, enc_ident_fn());
}

fn encode_tiles(tiles: &TileMap, out: &mut Vec<u8>)
    ensures
        final(out)@ == old(out)@ + enc_tiles(tiles@),
        tiles@.len() <= u64::MAX,
{
    let n = tiles.len();
    let mut i: usize = 0;
    while i < n
        invariant
            n == tiles@.len(),
            i <= n,
            out@ == old(out)@ + enc_list(tiles@.take(i as int), enc_tile_record_fn()),
        decreases n - i,
    {
        let (pos, tile) = tiles.entry_at(i);
        push_i32_le(out, pos.x);
        push_i32_le(out, pos.y);
        push_i32_le(out, tile.0.0);
        out.push(tile.1.0);
        proof {
            assert(tiles@.take(i + 1) =~= tiles@.take(i as int).push(tiles@[i as int]));
            crate::codec::lemma_enc_list_push(
                tiles@.take(i as int),
                tiles@[i as int],
                enc_tile_record_fn(),
            );
            assert(out@ =~= old(out)@ + enc_list(tiles@.take(i + 1), enc_tile_record_fn()));
        }
        i += 1;
    }
    proof {
        assert(tiles@.take(n as int) =~= tiles@);
        assert(out@ =~= old(out)@ + enc_tiles(tiles@));
    }
}

fn encode_bans(bans: &BanMap, out: &mut Vec<u8>)
    ensures
        final(out)@ == old(out)@ + enc_bans(bans@),
        bans@.len() <= u64::MAX,
        forall|i: int|
            0 <= i < bans@.len() ==> (#[trigger] bans@[i]).0.len() <= u64::MAX
                && bans@[i].1.reason.len() <= u64::MAX,
{
    let n = bans.len();
    push_u64_le(out, n as u64);
    let mut i: usize = 0;
    while i < n
        invariant
            n == bans@.len(),
            i <= n,
            forall|j: int|
                0 <= j < i ==> (#[trigger] bans@[j]).0.len() <= u64::MAX
                    && bans@[j].1.reason.len() <= u64::MAX,
            out@ == old(out)@ + le64(n as u64) + enc_list(bans@.take(i as int), enc_ban_fn()),
        decreases n - i,
    {
        let username = bans.username_at(i);
        push_str_le(out, username.0.as_str());
        let ban = bans.ban_at(i);
        push_str_le(out, ban.reason());
        push_u64_le(out, ban.until().0);
        proof {
            assert(bans@[i as int].0.len() <= u64::MAX && bans@[i as int].1.reason.len()
                <= u64::MAX);
            assert(bans@.take(i + 1) =~= bans@.take(i as int).push(bans@[i as int]));
            crate::codec::lemma_enc_list_push(bans@.take(i as int), bans@[i as int], enc_ban_fn());
            assert(out@ =~= old(out)@ + le64(n as u64) + enc_list(
                bans@.take(i + 1),
                enc_ban_fn(),
            ));
        }
        i += 1;
    }
    proof {
        assert(bans@.take(n as int) =~= bans@);
        assert(out@ =~= old(out)@ + enc_bans(bans@));
    }
}

impl WorldSave {
    /// Serializes the save under the given registry: magic, version, an
    /// offset table computed from the actual encoded section lengths,
    /// the registry's full snapshot, and the tile and ban records.
    pub fn serialize(&self, raw_tile_ids: &RawIds) -> (r: Result<Vec<u8>, SaveError>)
        ensures
            r is Ok <==> save_fits(self@, raw_tile_ids@),
            r matches Ok(v) ==> v@ == save_bytes(self@, raw_tile_ids@),
            r matches Err(e) ==> e@ == SaveErrorView::Oversize,
            save_bounded(self@, raw_tile_ids@),
    {
        let mut snap: Vec<u8> = Vec::new();
        encode_snapshot(raw_tile_ids, &mut snap);
        let mut tiles: Vec<u8> = Vec::new();
        encode_tiles(&self.tiles, &mut tiles);
        let mut bans: Vec<u8> = Vec::new();
        encode_bans(&self.bans, &mut bans);

        let total: u128 = 32u128 + snap.len() as u128 + tiles.len() as u128 + bans.len() as u128;
        if total > u64::MAX as u128 {
            return Err(SaveError::Oversize);
        }
        let snap_off: u64 = 32;
        let tiles_off: u64 = 32u64 + snap.len() as u64;
        let bans_off: u64 = tiles_off + tiles.len() as u64;

        let mut out: Vec<u8> = Vec::new();
        out.push(0xB0);
        out.push(0x7A);
        out.push(0x21);
        out.push(0xCA);
        proof {
            assert(out@ =~= save_magic());
        }
        push_u32_le(&mut out, SAVE_VERSION);
        push_u64_le(&mut out, snap_off);
        push_u64_le(&mut out, tiles_off);
        push_u64_le(&mut out, bans_off);
        out.append(&mut snap);
        out.append(&mut tiles);
        out.append(&mut bans);
        proof {
            assert(out@ =~= save_bytes(self@, raw_tile_ids@));
        }
        Ok(out)
    }
}

// ---------------------------------------------------------------------
// Executable decoders
// ---------------------------------------------------------------------

/// The identifier views of a decoded identifier list.
pub open spec fn idents_view(v: Seq<Identifier>) -> Seq<IdentifierView> {
    v.map(|i: int, id: Identifier| id@)
}

/// The ban-entry views of a decoded ban list.
pub open spec fn bans_view(v: Seq<(Username, WorldBan)>) -> Seq<(Seq<char>, WorldBanView)> {
    v.map(|i: int, e: (Username, WorldBan)| (e.0@, e.1@))
}

fn read_ident(b: &Vec<u8>, pos: usize) -> (r: Option<(Identifier, usize)>)
    ensures
        r is Some <==> parse_ident(b@, pos as int) is Some,
        r matches Some((id, np)) ==> parse_ident(b@, pos as int) == Some((id@, np as int))
            && np <= b@.len(),
{
    let (namespace, p1) = match read_str_le(b, pos) {
        Some(x) => x,
        None => {
            return None;
        },
    };
    let (path, p2) = match read_str_le(b, p1) {
        Some(x) => x,
        None => {
            return None;
        },
    };
    Some((Identifier::new(namespace, path), p2))
}

fn read_tile_record(b: &Vec<u8>, pos: usize) -> (r: Option<((TilePos, WorldTile), usize)>)
    ensures
        r is Some <==> parse_tile_record(b@, pos as int) is Some,
        r matches Some((e, np)) ==> parse_tile_record(b@, pos as int) == Some((e, np as int)),
{
    let (x, p1) = match read_i32_le(b, pos) {
        Some(v) => v,
        None => {
            return None;
        },
    };
    let (y, p2) = match read_i32_le(b, p1) {
        Some(v) => v,
        None => {
            return None;
        },
    };
    let (raw, p3) = match read_i32_le(b, p2) {
        Some(v) => v,
        None => {
            return None;
        },
    };
    let (data, p4) = match read_u8(b, p3) {
        Some(v) => v,
        None => {
            return None;
        },
    };
    Some(((TilePos { x, y }, WorldTile(RawId(raw), TileData(data))), p4))
}

fn read_ban(b: &Vec<u8>, pos: usize) -> (r: Option<((Username, WorldBan), usize)>)
    ensures
        r is Some <==> parse_ban(b@, pos as int) is Some,
        r matches Some((e, np)) ==> parse_ban(b@, pos as int) == Some(((e.0@, e.1@), np as int))
            && np <= b@.len(),
{
    let (username, p1) = match read_str_le(b, pos) {
        Some(x) => x,
        None => {
            return None;
        },
    };
    let (reason, p2) = match read_str_le(b, p1) {
        Some(x) => x,
        None => {
            return None;
        },
    };
    let (until, p3) = match read_u64_le(b, p2) {
        Some(x) => x,
        None => {
            return None;
        },
    };
    Some(((Username(username), WorldBan::new(reason, WorldBanUntil(until))), p3))
}

fn decode_snapshot_section(b: &Vec<u8>, pos: usize) -> (r: Option<(Vec<Identifier>, usize)>)
    ensures
        r is Some <==> parse_snapshot(b@, pos as int) is Some,
        r matches Some((v, np)) ==> parse_snapshot(b@, pos as int) == Some((
            idents_view(v@),
            np as int,
        )) && np <= b@.len(),
{
    let (n, mut cur) = match read_u64_le(b, pos) {
        Some(x) => x,
        None => {
            return None;
        },
    };
    let ghost start = cur as int;
    let mut out: Vec<Identifier> = Vec::new();
    proof {
        assert(idents_view(out@) =~= Seq::<IdentifierView>::empty());
    }
    let mut i: u64 = 0;
    while i < n
        invariant
            i <= n,
            cur <= b@.len(),
            parse_u64_le(b@, pos as int) == Some((n, start)),
            parse_list(b@, start, n as int, parse_ident_fn()) == (match parse_list(
                b@,
                cur as int,
                n - i,
                parse_ident_fn(),
            ) {
                Some((rest, end)) => Some((idents_view(out@) + rest, end)),
                None => None::<(Seq<IdentifierView>, int)>,
            }),
        decreases n - i,
    {
        let (id, np) = match read_ident(b, cur) {
            Some(x) => x,
            None => {
                proof {
                    assert(parse_ident_fn()(b@, cur as int) is None);
                    assert(parse_list(b@, cur as int, n - i, parse_ident_fn()) is None);
                }
                return None;
            },
        };
        proof {
            assert(parse_ident_fn()(b@, cur as int) == Some((id@, np as int)));
            assert(idents_view(out@.push(id)) =~= idents_view(out@).push(id@));
            assert forall|rest: Seq<IdentifierView>| true implies idents_view(out@) + (seq![id@]
                + rest) =~= idents_view(out@).push(id@) + rest by {
                assert(idents_view(out@) + (seq![id@] + rest) =~= idents_view(out@).push(id@)
                    + rest);
            }
        }
        out.push(id);
        cur = np;
        i += 1;
    }
    proof {
        assert(parse_list(b@, cur as int, 0, parse_ident_fn()) == Some((
            Seq::<IdentifierView>::empty(),
            cur as int,
        )));
        assert(idents_view(out@) + Seq::<IdentifierView>::empty() =~= idents_view(out@));
    }
    Some((out, cur))
}

fn decode_tiles_section(b: &Vec<u8>, pos: usize, end: u64) -> (r: Option<(
    Vec<(TilePos, WorldTile)>,
    usize,
)>)
    requires
        pos <= b@.len(),
    ensures
        r is Some <==> parse_tiles(b@, pos as int, end as int) is Some,
        r matches Some((v, np)) ==> parse_tiles(b@, pos as int, end as int) == Some((
            v@,
            np as int,
        )),
{
    if !(pos as u64 <= end && (end - pos as u64) % 13 == 0) {
        return None;
    }
    let n: u64 = (end - pos as u64) / 13;
    let mut cur = pos;
    let ghost start = cur as int;
    proof {
        assert(n as int == (end as int - pos as int) / 13);
    }
    let mut out: Vec<(TilePos, WorldTile)> = Vec::new();
    let mut i: u64 = 0;
    while i < n
        invariant
            i <= n,
            cur <= b@.len(),
            start == pos as int,
            pos as int <= end as int,
            (end as int - pos as int) % 13 == 0,
            n as int == (end as int - pos as int) / 13,
            parse_list(b@, start, n as int, parse_tile_record_fn()) == (match parse_list(
                b@,
                cur as int,
                n - i,
                parse_tile_record_fn(),
            ) {
                Some((rest, end)) => Some((out@ + rest, end)),
                None => None::<(Seq<(TilePos, WorldTile)>, int)>,
            }),
        decreases n - i,
    {
        let (e, np) = match read_tile_record(b, cur) {
            Some(x) => x,
            None => {
                proof {
                    assert(parse_tile_record_fn()(b@, cur as int) is None);
                    assert(parse_list(b@, cur as int, n - i, parse_tile_record_fn()) is None);
                }
                return None;
            },
        };
        proof {
            assert(parse_tile_record_fn()(b@, cur as int) == Some((e, np as int)));
            assert forall|rest: Seq<(TilePos, WorldTile)>| true implies out@ + (seq![e] + rest)
                =~= out@.push(e) + rest by {
                assert(out@ + (seq![e] + rest) =~= out@.push(e) + rest);
            }
        }
        out.push(e);
        cur = np;
        i += 1;
    }
    proof {
        assert(parse_list(b@, cur as int, 0, parse_tile_record_fn()) == Some((
            Seq::<(TilePos, WorldTile)>::empty(),
            cur as int,
        )));
        assert(out@ + Seq::<(TilePos, WorldTile)>::empty() =~= out@);
    }
    Some((out, cur))
}

fn decode_bans_section(b: &Vec<u8>, pos: usize) -> (r: Option<(Vec<(Username, WorldBan)>, usize)>)
    ensures
        r is Some <==> parse_bans(b@, pos as int) is Some,
        r matches Some((v, np)) ==> parse_bans(b@, pos as int) == Some((bans_view(v@), np as int)),
{
    let (n, mut cur) = match read_u64_le(b, pos) {
        Some(x) => x,
        None => {
            return None;
        },
    };
    let ghost start = cur as int;
    let mut out: Vec<(Username, WorldBan)> = Vec::new();
    proof {
        assert(bans_view(out@) =~= Seq::<(Seq<char>, WorldBanView)>::empty());
    }
    let mut i: u64 = 0;
    while i < n
        invariant
            i <= n,
            cur <= b@.len(),
            parse_u64_le(b@, pos as int) == Some((n, start)),
            parse_list(b@, start, n as int, parse_ban_fn()) == (match parse_list(
                b@,
                cur as int,
                n - i,
                parse_ban_fn(),
            ) {
                Some((rest, end)) => Some((bans_view(out@) + rest, end)),
                None => None::<(Seq<(Seq<char>, WorldBanView)>, int)>,
            }),
        decreases n - i,
    {
        let (e, np) = match read_ban(b, cur) {
            Some(x) => x,
            None => {
                proof {
                    assert(parse_ban_fn()(b@, cur as int) is None);
                    assert(parse_list(b@, cur as int, n - i, parse_ban_fn()) is None);
                }
                return None;
            },
        };
        proof {
            assert(parse_ban_fn()(b@, cur as int) == Some(((e.0@, e.1@), np as int)));
            assert(bans_view(out@.push(e)) =~= bans_view(out@).push((e.0@, e.1@)));
            assert forall|rest: Seq<(Seq<char>, WorldBanView)>| true implies bans_view(out@) + (
            seq![(e.0@, e.1@)] + rest) =~= bans_view(out@).push((e.0@, e.1@)) + rest by {
                assert(bans_view(out@) + (seq![(e.0@, e.1@)] + rest) =~= bans_view(out@).push(
                    (e.0@, e.1@),
                ) + rest);
            }
        }
        out.push(e);
        cur = np;
        i += 1;
    }
    proof {
        assert(parse_list(b@, cur as int, 0, parse_ban_fn()) == Some((
            Seq::<(Seq<char>, WorldBanView)>::empty(),
            cur as int,
        )));
        assert(bans_view(out@) + Seq::<(Seq<char>, WorldBanView)>::empty() =~= bans_view(out@));
    }
    Some((out, cur))
}

impl WorldSave {
    /// Deserializes a save blob against the live registry.
    ///
    /// Fails with `MagicMissing` when the header constant is absent,
    /// with `InvalidVersion` when the version field is not the one this
    /// build supports, with `Corrupt` when the body does not parse, and
    /// with the two translation errors when a stored raw id cannot be
    /// resolved (see [`spec_translate_tile`]). No failure returns a
    /// partially filled save: the result is all-or-nothing.
    pub fn deserialize(bytes: Vec<u8>, raw_tile_ids: &RawIds) -> (r: Result<WorldSave, SaveError>)
        requires
            raw_tile_ids.wf(),
        ensures
            match spec_deserialize(bytes@, raw_tile_ids@) {
                Ok(body) => r matches Ok(s) && s.wf() && s.tiles.as_map() == assoc_map(body.0)
                    && s.bans.as_map() == assoc_map(body.1),
                Err(e) => r matches Err(e2) && e2@ == e,
            },
    {
        // Header: magic and version.
        if bytes.len() < 8 {
            return Err(SaveError::MagicMissing(0xCA217AB0));
        }
        if !(bytes[0] == 0xB0 && bytes[1] == 0x7A && bytes[2] == 0x21 && bytes[3] == 0xCA) {
            proof {
                assert(bytes@.subrange(0, 4)[0] == bytes@[0]);
                assert(bytes@.subrange(0, 4)[1] == bytes@[1]);
                assert(bytes@.subrange(0, 4)[2] == bytes@[2]);
                assert(bytes@.subrange(0, 4)[3] == bytes@[3]);
                assert(!magic_ok(bytes@));
            }
            return Err(SaveError::MagicMissing(0xCA217AB0));
        }
        proof {
            assert(bytes@.subrange(0, 4) =~= save_magic());
        }
        let version = match read_u32_le(&bytes, 4) {
            Some((v, _)) => v,
            None => {
                proof {
                    assert(false);
                }
                0
            },
        };
        if version != SAVE_VERSION {
            return Err(SaveError::InvalidVersion(version, SAVE_VERSION));
        }

        // Offset table.
        let (snap_off, _) = match read_u64_le(&bytes, 8) {
            Some(x) => x,
            None => {
                return Err(SaveError::Corrupt);
            },
        };
        let (tiles_off, _) = match read_u64_le(&bytes, 16) {
            Some(x) => x,
            None => {
                return Err(SaveError::Corrupt);
            },
        };
        let (bans_off, _) = match read_u64_le(&bytes, 24) {
            Some(x) => x,
            None => {
                return Err(SaveError::Corrupt);
            },
        };
        if snap_off != 32 {
            return Err(SaveError::Corrupt);
        }

        // Sections, each beginning exactly where the table says.
        let (snap_vec, p1) = match decode_snapshot_section(&bytes, 32) {
            Some(x) => x,
            None => {
                return Err(SaveError::Corrupt);
            },
        };
        if tiles_off != p1 as u64 {
            return Err(SaveError::Corrupt);
        }
        let (recs, p2) = match decode_tiles_section(&bytes, p1, bans_off) {
            Some(x) => x,
            None => {
                return Err(SaveError::Corrupt);
            },
        };
        if bans_off != p2 as u64 {
            return Err(SaveError::Corrupt);
        }
        let (ban_entries, p3) = match decode_bans_section(&bytes, p2) {
            Some(x) => x,
            None => {
                return Err(SaveError::Corrupt);
            },
        };
        if p3 != bytes.len() {
            return Err(SaveError::Corrupt);
        }
        let ghost snap_view = idents_view(snap_vec@);
        let ghost recs_view = recs@;
        let ghost bans_seq = bans_view(ban_entries@);
        proof {
            assert(parse_save_body(bytes@) == Some((snap_view, recs_view, bans_seq)));
        }

        // Translate every tile record through the embedded snapshot.
        let snapshot = RawIds::from_identifiers(snap_vec);
        let mut tiles_map = TileMap::new();
        let ghost mut tacc: Seq<(TilePos, WorldTile)> = Seq::empty();
        proof {
            assert(recs_view.skip(0) =~= recs_view);
            assert forall|rest: Seq<(TilePos, WorldTile)>| true implies tacc + rest == rest by {
                assert(tacc + rest =~= rest);
            }
        }
        let n = recs.len();
        let mut k: usize = 0;
        while k < n
            invariant
                raw_tile_ids.wf(),
                magic_ok(bytes@),
                version_of(bytes@) == SAVE_VERSION,
                parse_save_body(bytes@) == Some((snap_view, recs_view, bans_seq)),
                n == recs@.len(),
                recs@ == recs_view,
                snapshot@ == snap_view,
                k <= n,
                tiles_map.wf(),
                tiles_map.as_map() == assoc_map(tacc),
                spec_translate_all(recs_view, snap_view, raw_tile_ids@) == (match
                    spec_translate_all(recs_view.skip(k as int), snap_view, raw_tile_ids@) {
                    Ok(rest) => Ok::<Seq<(TilePos, WorldTile)>, SaveErrorView>(tacc + rest),
                    Err(e) => Err::<Seq<(TilePos, WorldTile)>, SaveErrorView>(e),
                }),
            decreases n - k,
        {
            let (pos, tile) = recs[k];
            proof {
                assert(recs_view.skip(k as int)[0] == recs_view[k as int]);
                assert(recs_view.skip(k as int).skip(1) =~= recs_view.skip(k + 1));
            }
            match translate_tile_record(pos, tile, &snapshot, raw_tile_ids) {
                Err(e) => {
                    proof {
                        assert(spec_translate_all(recs_view.skip(k as int), snap_view,
                            raw_tile_ids@) == Err::<Seq<(TilePos, WorldTile)>, SaveErrorView>(e@));
                        assert(spec_translate_all(recs_view, snap_view, raw_tile_ids@)
                            == Err::<Seq<(TilePos, WorldTile)>, SaveErrorView>(e@));
                    }
                    return Err(e);
                },
                Ok((p2, t2)) => {
                    proof {
                        lemma_assoc_map_push(tacc, p2, t2);
                        assert forall|rest: Seq<(TilePos, WorldTile)>| true implies tacc + (seq![
                            (p2, t2),
                        ] + rest) =~= tacc.push((p2, t2)) + rest by {
                            assert(tacc + (seq![(p2, t2)] + rest) =~= tacc.push((p2, t2)) + rest);
                        }
                    }
                    tiles_map.insert(p2, t2);
                    proof {
                        tacc = tacc.push((p2, t2));
                    }
                },
            }
            k += 1;
        }
        proof {
            assert(recs_view.skip(n as int) =~= Seq::<(TilePos, WorldTile)>::empty());
            assert(spec_translate_all(Seq::<(TilePos, WorldTile)>::empty(), snap_view,
                raw_tile_ids@) == Ok::<Seq<(TilePos, WorldTile)>, SaveErrorView>(Seq::empty()));
            assert(tacc + Seq::<(TilePos, WorldTile)>::empty() =~= tacc);
        }

        // Fill the ban map; nothing here can fail.
        let mut ban_map = BanMap::new();
        let m = ban_entries.len();
        let ghost mut bacc: Seq<(Seq<char>, WorldBanView)> = Seq::empty();
        let mut k2: usize = 0;
        while k2 < m
            invariant
                m == ban_entries@.len(),
                bans_view(ban_entries@) == bans_seq,
                k2 <= m,
                ban_map.wf(),
                ban_map.as_map() == assoc_map(bacc),
                bacc =~= bans_seq.take(k2 as int),
            decreases m - k2,
        {
            let u = ban_entries[k2].0.clone();
            let wb = ban_entries[k2].1.clone();
            proof {
                assert(bans_seq[k2 as int] == (ban_entries@[k2 as int].0@,
                    ban_entries@[k2 as int].1@));
                lemma_assoc_map_push(bacc, u@, wb@);
            }
            ban_map.insert(u, wb);
            proof {
                bacc = bacc.push(bans_seq[k2 as int]);
                assert(bacc =~= bans_seq.take(k2 + 1));
            }
            k2 += 1;
        }
        proof {
            assert(bans_seq.take(m as int) =~= bans_seq);
        }
        Ok(WorldSave { tiles: tiles_map, bans: ban_map })
    }
}

// ---------------------------------------------------------------------
// Round-trip laws
// ---------------------------------------------------------------------

/// Whether an identifier's parts fit the string length fields.
pub open spec fn ident_fits(id: IdentifierView) -> bool {
    id.namespace.len() <= u64::MAX && id.path.len() <= u64::MAX
}

/// Whether every count and string of a save fits its fixed-width field;
/// anything an executable process holds does.
pub open spec fn save_bounded(save: WorldSaveView, ids: Seq<IdentifierView>) -> bool {
    &&& ids.len() <= u64::MAX
    &&& forall|i: int| 0 <= i < ids.len() ==> ident_fits(#[trigger] ids[i])
    &&& save.tiles.len() <= u64::MAX
    &&& save.bans.len() <= u64::MAX
    &&& forall|i: int|
        0 <= i < save.bans.len() ==> (#[trigger] save.bans[i]).0.len() <= u64::MAX
            && save.bans[i].1.reason.len() <= u64::MAX
}

proof fn lemma_parse_ident_frame(b: Seq<u8>, pos: int, id: IdentifierView)
    requires
        0 <= pos,
        ident_fits(id),
        pos + enc_ident(id).len() <= b.len(),
        b.subrange(pos, pos + enc_ident(id).len()) == enc_ident(id),
    ensures
        parse_ident(b, pos) == Some((id, pos + enc_ident(id).len())),
{
    let s1 = enc_str_le(id.namespace);
    let s2 = enc_str_le(id.path);
    let k = s1.len() as int;
    let m = s2.len() as int;
    assert(b.subrange(pos, pos + k) =~= s1) by {
        assert(forall|i: int|
            0 <= i < k ==> #[trigger] b.subrange(pos, pos + k)[i] == b.subrange(
                pos,
                pos + k + m,
            )[i]);
    }
    assert(b.subrange(pos + k, pos + k + m) =~= s2) by {
        assert(forall|i: int|
            0 <= i < m ==> #[trigger] b.subrange(pos + k, pos + k + m)[i] == b.subrange(
                pos,
                pos + k + m,
            )[i + k]);
    }
    lemma_parse_str_le(b, pos, id.namespace);
    lemma_parse_str_le(b, pos + k, id.path);
    assert(IdentifierView { namespace: id.namespace, path: id.path } == id);
}

proof fn lemma_parse_tile_record_frame(b: Seq<u8>, pos: int, e: (TilePos, WorldTile))
    requires
        0 <= pos,
        pos + 13 <= b.len(),
        b.subrange(pos, pos + 13) == enc_tile_record(e),
    ensures
        parse_tile_record(b, pos) == Some((e, pos + 13)),
{
    let w = enc_tile_record(e);
    assert(w.len() == 13);
    assert(b.subrange(pos, pos + 4) =~= i32_le(e.0.x)) by {
        assert(forall|i: int|
            0 <= i < 4 ==> #[trigger] b.subrange(pos, pos + 4)[i] == b.subrange(pos, pos + 13)[i]);
    }
    assert(b.subrange(pos + 4, pos + 8) =~= i32_le(e.0.y)) by {
        assert(forall|i: int|
            0 <= i < 4 ==> #[trigger] b.subrange(pos + 4, pos + 8)[i] == b.subrange(
                pos,
                pos + 13,
            )[i + 4]);
    }
    assert(b.subrange(pos + 8, pos + 12) =~= i32_le(e.1.0.0)) by {
        assert(forall|i: int|
            0 <= i < 4 ==> #[trigger] b.subrange(pos + 8, pos + 12)[i] == b.subrange(
                pos,
                pos + 13,
            )[i + 8]);
    }
    crate::codec::lemma_parse_i32_le(b, pos, e.0.x);
    crate::codec::lemma_parse_i32_le(b, pos + 4, e.0.y);
    crate::codec::lemma_parse_i32_le(b, pos + 8, e.1.0.0);
    assert(b[pos + 12] == b.subrange(pos, pos + 13)[12]);
    assert(b[pos + 12] == e.1.1.0);
    assert(parse_u8(b, pos + 12) == Some((e.1.1.0, pos + 13)));
    assert((TilePos { x: e.0.x, y: e.0.y }, WorldTile(RawId(e.1.0.0), TileData(e.1.1.0))) == e);
}

proof fn lemma_parse_ban_frame(b: Seq<u8>, pos: int, e: (Seq<char>, WorldBanView))
    requires
        0 <= pos,
        e.0.len() <= u64::MAX,
        e.1.reason.len() <= u64::MAX,
        pos + enc_ban(e).len() <= b.len(),
        b.subrange(pos, pos + enc_ban(e).len()) == enc_ban(e),
    ensures
        parse_ban(b, pos) == Some((e, pos + enc_ban(e).len())),
{
    let s1 = enc_str_le(e.0);
    let s2 = enc_str_le(e.1.reason);
    let k = s1.len() as int;
    let m = s2.len() as int;
    assert(b.subrange(pos, pos + k) =~= s1) by {
        assert(forall|i: int|
            0 <= i < k ==> #[trigger] b.subrange(pos, pos + k)[i] == b.subrange(
                pos,
                pos + k + m + 8,
            )[i]);
    }
    assert(b.subrange(pos + k, pos + k + m) =~= s2) by {
        assert(forall|i: int|
            0 <= i < m ==> #[trigger] b.subrange(pos + k, pos + k + m)[i] == b.subrange(
                pos,
                pos + k + m + 8,
            )[i + k]);
    }
    assert(b.subrange(pos + k + m, pos + k + m + 8) =~= le64(e.1.until)) by {
        assert(forall|i: int|
            0 <= i < 8 ==> #[trigger] b.subrange(pos + k + m, pos + k + m + 8)[i] == b.subrange(
                pos,
                pos + k + m + 8,
            )[i + k + m]);
    }
    lemma_parse_str_le(b, pos, e.0);
    lemma_parse_str_le(b, pos + k, e.1.reason);
    lemma_parse_u64_le(b, pos + k + m, e.1.until);
    assert((e.0, WorldBanView { reason: e.1.reason, until: e.1.until }) == e);
}

proof fn lemma_parse_snapshot_frame(b: Seq<u8>, pos: int, ids: Seq<IdentifierView>)
    requires
        0 <= pos,
        ids.len() <= u64::MAX,
        forall|i: int| 0 <= i < ids.len() ==> ident_fits(#[trigger] ids[i]),
        pos + enc_snapshot(ids).len() <= b.len(),
        b.subrange(pos, pos + enc_snapshot(ids).len()) == enc_snapshot(ids),
    ensures
        parse_snapshot(b, pos) == Some((ids, pos + enc_snapshot(ids).len())),
{
    let body = enc_list(ids, enc_ident_fn());
    assert(b.subrange(pos, pos + 8) =~= le64(ids.len() as u64)) by {
        assert(forall|i: int|
            0 <= i < 8 ==> #[trigger] b.subrange(pos, pos + 8)[i] == b.subrange(
                pos,
                pos + 8 + body.len(),
            )[i]);
    }
    lemma_parse_u64_le(b, pos, ids.len() as u64);
    assert(b.subrange(pos + 8, pos + 8 + body.len()) =~= body) by {
        assert(forall|i: int|
            0 <= i < body.len() ==> #[trigger] b.subrange(pos + 8, pos + 8 + body.len())[i]
                == b.subrange(pos, pos + 8 + body.len())[i + 8]);
    }
    assert forall|i: int, pos2: int|
        0 <= i < ids.len() && 0 <= pos2 && pos2 + enc_ident_fn()(ids[i]).len() <= b.len()
            && #[trigger] b.subrange(pos2, pos2 + enc_ident_fn()(ids[i]).len()) == enc_ident_fn()(
            ids[i],
        ) implies parse_ident_fn()(b, pos2) == Some((
        ids[i],
        pos2 + enc_ident_fn()(ids[i]).len(),
    )) by {
        lemma_parse_ident_frame(b, pos2, ids[i]);
    }
    lemma_parse_list(b, pos + 8, ids, enc_ident_fn(), parse_ident_fn());
    assert((ids.len() as u64) as int == ids.len() as int);
}

proof fn lemma_parse_tiles_frame(b: Seq<u8>, pos: int, tiles: Seq<(TilePos, WorldTile)>)
    requires
        0 <= pos,
        pos + enc_tiles(tiles).len() <= b.len(),
        b.subrange(pos, pos + enc_tiles(tiles).len()) == enc_tiles(tiles),
    ensures
        enc_tiles(tiles).len() == 13 * tiles.len(),
        parse_tiles(b, pos, pos + enc_tiles(tiles).len()) == Some((
            tiles,
            pos + enc_tiles(tiles).len(),
        )),
{
    assert(forall|e: (TilePos, WorldTile)| (#[trigger] enc_tile_record_fn()(e)).len() == 13);
    crate::codec::lemma_enc_list_fixed_len(tiles, enc_tile_record_fn(), 13);
    let end = pos + enc_tiles(tiles).len();
    assert((end - pos) % 13 == 0 && (end - pos) / 13 == tiles.len()) by {
        assert((13 * tiles.len()) % 13 == 0 && (13 * tiles.len()) / 13 == tiles.len() as int)
            by (nonlinear_arith);
    }
    assert forall|i: int, pos2: int|
        0 <= i < tiles.len() && 0 <= pos2 && pos2 + enc_tile_record_fn()(tiles[i]).len()
            <= b.len() && #[trigger] b.subrange(
            pos2,
            pos2 + enc_tile_record_fn()(tiles[i]).len(),
        ) == enc_tile_record_fn()(tiles[i]) implies parse_tile_record_fn()(b, pos2) == Some((
        tiles[i],
        pos2 + enc_tile_record_fn()(tiles[i]).len(),
    )) by {
        assert(enc_tile_record(tiles[i]).len() == 13);
        lemma_parse_tile_record_frame(b, pos2, tiles[i]);
    }
    lemma_parse_list(b, pos, tiles, enc_tile_record_fn(), parse_tile_record_fn());
}

proof fn lemma_parse_bans_frame(b: Seq<u8>, pos: int, bans: Seq<(Seq<char>, WorldBanView)>)
    requires
        0 <= pos,
        bans.len() <= u64::MAX,
        forall|i: int|
            0 <= i < bans.len() ==> (#[trigger] bans[i]).0.len() <= u64::MAX
                && bans[i].1.reason.len() <= u64::MAX,
        pos + enc_bans(bans).len() <= b.len(),
        b.subrange(pos, pos + enc_bans(bans).len()) == enc_bans(bans),
    ensures
        parse_bans(b, pos) == Some((bans, pos + enc_bans(bans).len())),
{
    let body = enc_list(bans, enc_ban_fn());
    assert(b.subrange(pos, pos + 8) =~= le64(bans.len() as u64)) by {
        assert(forall|i: int|
            0 <= i < 8 ==> #[trigger] b.subrange(pos, pos + 8)[i] == b.subrange(
                pos,
                pos + 8 + body.len(),
            )[i]);
    }
    lemma_parse_u64_le(b, pos, bans.len() as u64);
    assert(b.subrange(pos + 8, pos + 8 + body.len()) =~= body) by {
        assert(forall|i: int|
            0 <= i < body.len() ==> #[trigger] b.subrange(pos + 8, pos + 8 + body.len())[i]
                == b.subrange(pos, pos + 8 + body.len())[i + 8]);
    }
    assert forall|i: int, pos2: int|
        0 <= i < bans.len() && 0 <= pos2 && pos2 + enc_ban_fn()(bans[i]).len() <= b.len()
            && #[trigger] b.subrange(pos2, pos2 + enc_ban_fn()(bans[i]).len()) == enc_ban_fn()(
            bans[i],
        ) implies parse_ban_fn()(b, pos2) == Some((
        bans[i],
        pos2 + enc_ban_fn()(bans[i]).len(),
    )) by {
        lemma_parse_ban_frame(b, pos2, bans[i]);
    }
    lemma_parse_list(b, pos + 8, bans, enc_ban_fn(), parse_ban_fn());
    assert((bans.len() as u64) as int == bans.len() as int);
}

/// The body of a serialized save parses back to exactly its sections.
#[verifier::rlimit(100)]
proof fn lemma_save_body_roundtrip(save: WorldSaveView, ids: Seq<IdentifierView>)
    requires
        save_bounded(save, ids),
        save_fits(save, ids),
    ensures
        magic_ok(save_bytes(save, ids)),
        version_of(save_bytes(save, ids)) == SAVE_VERSION,
        parse_save_body(save_bytes(save, ids)) == Some((ids, save.tiles, save.bans)),
{
    let b = save_bytes(save, ids);
    let snap = enc_snapshot(ids);
    let tiles = enc_tiles(save.tiles);
    let bans = enc_bans(save.bans);
    let so = save_header_len();
    let to = so + snap.len();
    let bo = to + tiles.len();
    let header = save_magic() + le32(SAVE_VERSION) + le64(so as u64) + le64(to as u64) + le64(
        bo as u64,
    );

    assert(b.len() == 32 + snap.len() + tiles.len() + bans.len());

    // Header fields.
    assert(b == Seq::empty() + save_magic() + (le32(SAVE_VERSION) + le64(so as u64) + le64(
        to as u64,
    ) + le64(bo as u64) + snap + tiles + bans)) by {
        assert(b =~= Seq::empty() + save_magic() + (le32(SAVE_VERSION) + le64(so as u64) + le64(
            to as u64,
        ) + le64(bo as u64) + snap + tiles + bans));
    }
    crate::codec::lemma_concat_subrange(
        b,
        Seq::empty(),
        save_magic(),
        le32(SAVE_VERSION) + le64(so as u64) + le64(to as u64) + le64(bo as u64) + snap + tiles
            + bans,
    );
    assert(b.subrange(0, 4) == save_magic());
    assert(magic_ok(b));

    assert(b == save_magic() + le32(SAVE_VERSION) + (le64(so as u64) + le64(to as u64) + le64(
        bo as u64,
    ) + snap + tiles + bans)) by {
        assert(b =~= save_magic() + le32(SAVE_VERSION) + (le64(so as u64) + le64(to as u64) + le64(
            bo as u64,
        ) + snap + tiles + bans));
    }
    crate::codec::lemma_concat_subrange(
        b,
        save_magic(),
        le32(SAVE_VERSION),
        le64(so as u64) + le64(to as u64) + le64(bo as u64) + snap + tiles + bans,
    );
    lemma_parse_u32_le(b, 4, SAVE_VERSION);
    assert(version_of(b) == SAVE_VERSION);

    assert(b == (save_magic() + le32(SAVE_VERSION)) + le64(so as u64) + (le64(to as u64) + le64(
        bo as u64,
    ) + snap + tiles + bans)) by {
        assert(b =~= (save_magic() + le32(SAVE_VERSION)) + le64(so as u64) + (le64(to as u64)
            + le64(bo as u64) + snap + tiles + bans));
    }
    crate::codec::lemma_concat_subrange(
        b,
        save_magic() + le32(SAVE_VERSION),
        le64(so as u64),
        le64(to as u64) + le64(bo as u64) + snap + tiles + bans,
    );
    lemma_parse_u64_le(b, 8, so as u64);

    assert(b == (save_magic() + le32(SAVE_VERSION) + le64(so as u64)) + le64(to as u64) + (le64(
        bo as u64,
    ) + snap + tiles + bans)) by {
        assert(b =~= (save_magic() + le32(SAVE_VERSION) + le64(so as u64)) + le64(to as u64) + (
        le64(bo as u64) + snap + tiles + bans));
    }
    crate::codec::lemma_concat_subrange(
        b,
        save_magic() + le32(SAVE_VERSION) + le64(so as u64),
        le64(to as u64),
        le64(bo as u64) + snap + tiles + bans,
    );
    lemma_parse_u64_le(b, 16, to as u64);

    assert(b == (save_magic() + le32(SAVE_VERSION) + le64(so as u64) + le64(to as u64)) + le64(
        bo as u64,
    ) + (snap + tiles + bans)) by {
        assert(b =~= (save_magic() + le32(SAVE_VERSION) + le64(so as u64) + le64(to as u64)) + le64(
            bo as u64,
        ) + (snap + tiles + bans));
    }
    crate::codec::lemma_concat_subrange(
        b,
        save_magic() + le32(SAVE_VERSION) + le64(so as u64) + le64(to as u64),
        le64(bo as u64),
        snap + tiles + bans,
    );
    lemma_parse_u64_le(b, 24, bo as u64);

    // Sections.
    assert(b == header + snap + (tiles + bans)) by {
        assert(b =~= header + snap + (tiles + bans));
    }
    crate::codec::lemma_concat_subrange(b, header, snap, tiles + bans);
    assert(header.len() == 32);
    lemma_parse_snapshot_frame(b, 32, ids);

    assert(b == (header + snap) + tiles + bans) by {
        assert(b =~= (header + snap) + tiles + bans);
    }
    crate::codec::lemma_concat_subrange(b, header + snap, tiles, bans);
    lemma_parse_tiles_frame(b, to, save.tiles);

    assert(b == (header + snap + tiles) + bans + Seq::empty()) by {
        assert(b =~= (header + snap + tiles) + bans + Seq::empty());
    }
    crate::codec::lemma_concat_subrange(b, header + snap + tiles, bans, Seq::empty());
    lemma_parse_bans_frame(b, bo, save.bans);

    // Offsets fit their fields exactly.
    assert((so as u64) as int == so);
    assert((to as u64) as int == to);
    assert((bo as u64) as int == bo);
}

/// The tile a stored record resolves to when every reference is present:
/// the same position and data, with the raw id the live registry assigns
/// to the identifier the snapshot named.
pub open spec fn spec_resolve_tile(
    rec: (TilePos, WorldTile),
    snap: Seq<IdentifierView>,
    live: Seq<IdentifierView>,
) -> (TilePos, WorldTile) {
    let id = snap[rec.1.0.0 as int];
    let new_raw = choose|i: int| 0 <= i < live.len() && live[i] == id;
    (rec.0, WorldTile(RawId(new_raw as i32), rec.1.1))
}

/// Whether every stored record's raw id is in the snapshot's range and
/// the identifier it names is known to the live registry.
pub open spec fn all_resolvable(
    recs: Seq<(TilePos, WorldTile)>,
    snap: Seq<IdentifierView>,
    live: Seq<IdentifierView>,
) -> bool {
    forall|k: int|
        0 <= k < recs.len() ==> {
            &&& 0 <= (#[trigger] recs[k]).1.0.0 < snap.len()
            &&& exists|i: int| 0 <= i < live.len() && live[i] == snap[recs[k].1.0.0 as int]
        }
}

proof fn lemma_translate_resolves(
    recs: Seq<(TilePos, WorldTile)>,
    snap: Seq<IdentifierView>,
    live: Seq<IdentifierView>,
)
    requires
        all_resolvable(recs, snap, live),
    ensures
        spec_translate_all(recs, snap, live) == Ok::<Seq<(TilePos, WorldTile)>, SaveErrorView>(
            recs.map(|k: int, rec: (TilePos, WorldTile)| spec_resolve_tile(rec, snap, live)),
        ),
    decreases recs.len(),
{
    let f = |k: int, rec: (TilePos, WorldTile)| spec_resolve_tile(rec, snap, live);
    if recs.len() == 0 {
        assert(recs.map(f) =~= Seq::<(TilePos, WorldTile)>::empty());
    } else {
        assert(recs[0] == recs[0]);
        assert(spec_translate_tile(recs[0], snap, live) == Ok::<
            (TilePos, WorldTile),
            SaveErrorView,
        >(spec_resolve_tile(recs[0], snap, live)));
        assert(all_resolvable(recs.skip(1), snap, live)) by {
            assert(forall|k: int|
                0 <= k < recs.skip(1).len() ==> (#[trigger] recs.skip(1)[k]) == recs[k + 1]);
        }
        lemma_translate_resolves(recs.skip(1), snap, live);
        assert(seq![spec_resolve_tile(recs[0], snap, live)] + recs.skip(1).map(
            |k: int, rec: (TilePos, WorldTile)| spec_resolve_tile(rec, snap, live),
        ) =~= recs.map(f)) by {
            assert(forall|k: int|
                0 <= k < recs.skip(1).len() ==> (#[trigger] recs.skip(1)[k]) == recs[k + 1]);
        }
    }
}

/// Registry drift, resolved: a save written under one registry and
/// loaded under another yields, for every stored tile, the same position
/// and data byte, with the raw id re-assigned to whatever the live
/// registry calls the identifier the save's own snapshot recorded —
/// never the stored number itself.
pub proof fn lemma_registry_drift(
    save: WorldSaveView,
    old_ids: Seq<IdentifierView>,
    new_ids: Seq<IdentifierView>,
)
    requires
        save_bounded(save, old_ids),
        save_fits(save, old_ids),
        all_resolvable(save.tiles, old_ids, new_ids),
    ensures
        spec_deserialize(save_bytes(save, old_ids), new_ids) == Ok::<
            (Seq<(TilePos, WorldTile)>, Seq<(Seq<char>, WorldBanView)>),
            SaveErrorView,
        >(
            (
                save.tiles.map(
                    |k: int, rec: (TilePos, WorldTile)| spec_resolve_tile(rec, old_ids, new_ids),
                ),
                save.bans,
            ),
        ),
{
    lemma_save_body_roundtrip(save, old_ids);
    lemma_translate_resolves(save.tiles, old_ids, new_ids);
}

/// Round trip: serializing a save under a registry and deserializing it
/// under that same registry reproduces the save's tile records and ban
/// entries exactly.
pub proof fn lemma_save_roundtrip(save: WorldSaveView, ids: Seq<IdentifierView>)
    requires
        save_bounded(save, ids),
        save_fits(save, ids),
        forall|i: int, j: int| 0 <= i < j < ids.len() ==> ids[i] != ids[j],
        forall|k: int| 0 <= k < save.tiles.len() ==> 0 <= (#[trigger] save.tiles[k]).1.0.0 < ids.len(),
    ensures
        spec_deserialize(save_bytes(save, ids), ids) == Ok::<
            (Seq<(TilePos, WorldTile)>, Seq<(Seq<char>, WorldBanView)>),
            SaveErrorView,
        >((save.tiles, save.bans)),
{
    assert(all_resolvable(save.tiles, ids, ids)) by {
        assert forall|k: int| 0 <= k < save.tiles.len() implies {
            &&& 0 <= (#[trigger] save.tiles[k]).1.0.0 < ids.len()
            &&& exists|i: int| 0 <= i < ids.len() && #[trigger] ids[i] == ids[save.tiles[k].1.0.0 as int]
        } by {
            let raw = save.tiles[k].1.0.0 as int;
            assert(ids[raw] == ids[raw]);
        }
    }
    lemma_registry_drift(save, ids, ids);
    assert(save.tiles.map(
        |k: int, rec: (TilePos, WorldTile)| spec_resolve_tile(rec, ids, ids),
    ) =~= save.tiles) by {
        assert forall|k: int| 0 <= k < save.tiles.len() implies save.tiles.map(
            |k2: int, rec: (TilePos, WorldTile)| spec_resolve_tile(rec, ids, ids),
        )[k] == save.tiles[k] by {
            let rec = save.tiles[k];
            let raw = rec.1.0.0 as int;
            let id = ids[raw];
            let w = choose|i: int| 0 <= i < ids.len() && ids[i] == id;
            assert(ids[raw] == id);
            assert(0 <= w < ids.len() && ids[w] == id);
            if w != raw {
                assert(ids[w] != ids[raw]);
            }
            assert(spec_resolve_tile(rec, ids, ids) == (rec.0, WorldTile(RawId(raw as i32), rec.1.1)));
            assert(RawId(raw as i32) == rec.1.0) by {
                crate::codec::lemma_i32_u32_roundtrip(rec.1.0.0);
                assert((rec.1.0.0 as int) as i32 == rec.1.0.0);
            }
            assert((rec.0, WorldTile(rec.1.0, rec.1.1)) == rec);
        }
    }
}

/// Version gate: a blob whose header constant is right but whose version
/// field is not the supported one always fails with `InvalidVersion`,
/// whatever follows; nothing of it is decoded.
pub proof fn lemma_version_gate(b: Seq<u8>, live: Seq<IdentifierView>)
    requires
        magic_ok(b),
        version_of(b) != SAVE_VERSION,
    ensures
        spec_deserialize(b, live) == Err::<
            (Seq<(TilePos, WorldTile)>, Seq<(Seq<char>, WorldBanView)>),
            SaveErrorView,
        >(SaveErrorView::InvalidVersion(version_of(b), SAVE_VERSION)),
{
}

// ---------------------------------------------------------------------
// Opening or generating a world
// ---------------------------------------------------------------------

/// The default terrain: a short strip of one tile kind at `y == 0`,
/// from `x == -16` through `x == 16`.
pub open spec fn default_tile_strip(raw: RawId) -> Seq<(TilePos, WorldTile)> {
    Seq::new(33, |i: int| (TilePos { x: (i - 16) as i32, y: 0i32 }, WorldTile(raw, TileData(0))))
}

/// The identifier of the tile the default terrain is made of.
pub open spec fn grass_ident() -> IdentifierView {
    IdentifierView { namespace: crate::NAMESPACE@, path: "grass"@ }
}

/// Synthesizes the minimal default world: the grass strip and no bans.
/// Fails exactly when the grass tile is not registered.
pub fn generate_default_save(raw_tile_ids: &RawIds) -> (r: Result<WorldSave, SaveError>)
    requires
        raw_tile_ids.wf(),
    ensures
        r is Ok <==> raw_tile_ids.contains_id(grass_ident()),
        r matches Ok(s) ==> s.wf() && s@.tiles == default_tile_strip(
            RawId(raw_tile_ids.raw_of(grass_ident()) as i32),
        ) && s@.bans == Seq::<(Seq<char>, WorldBanView)>::empty(),
        r matches Err(e) ==> e@ == SaveErrorView::IdNonexistent(grass_ident()),
{
    let grass = Identifier::from_str(crate::NAMESPACE, "grass");
    proof {
        assert(grass@ == grass_ident());
    }
    let raw = match raw_tile_ids.get_raw_id(&grass) {
        Some(raw) => raw,
        None => {
            return Err(SaveError::IdNonexistent(grass));
        },
    };
    let ghost strip = default_tile_strip(raw);
    let mut tiles = TileMap::new();
    proof {
        assert(tiles@ =~= strip.take(0));
    }
    let mut i: usize = 0;
    while i < 33
        invariant
            0 <= i <= 33,
            strip == default_tile_strip(raw),
            tiles.wf(),
            tiles@ =~= strip.take(i as int),
        decreases 33 - i,
    {
        let x: i32 = (i as i32) - 16;
        let pos = TilePos { x, y: 0 };
        proof {
            assert(strip[i as int].0 == pos);
            assert forall|j: int| 0 <= j < i implies (#[trigger] tiles@[j]).0 != pos by {
                assert(tiles@[j] == strip[j]);
                assert(strip[j].0.x == j - 16);
            }
            assert(!crate::assoc::has_key(tiles@, pos));
        }
        tiles.insert(pos, WorldTile(raw, TileData(0)));
        proof {
            assert(tiles@ =~= strip.take(i + 1));
        }
        i += 1;
    }
    proof {
        assert(strip.take(33) =~= strip);
    }
    Ok(WorldSave { tiles, bans: BanMap::new() })
}

/// The pure core of open-or-generate: decodes the save file's contents
/// when one exists, and synthesizes the default world when none does.
/// The file layer only reads the bytes; every decision is here.
pub fn resolve_world_load(file: Option<Vec<u8>>, raw_tile_ids: &RawIds) -> (r: Result<
    WorldSave,
    SaveError,
>)
    requires
        raw_tile_ids.wf(),
    ensures
        match file {
            Some(bytes) => match spec_deserialize(bytes@, raw_tile_ids@) {
                Ok(body) => r matches Ok(s) && s.wf() && s.tiles.as_map() == assoc_map(body.0)
                    && s.bans.as_map() == assoc_map(body.1),
                Err(e) => r matches Err(e2) && e2@ == e,
            },
            None => {
                &&& r is Ok <==> raw_tile_ids.contains_id(grass_ident())
                &&& r matches Ok(s) ==> s.wf() && s@.tiles == default_tile_strip(
                    RawId(raw_tile_ids.raw_of(grass_ident()) as i32),
                ) && s@.bans == Seq::<(Seq<char>, WorldBanView)>::empty()
                &&& r matches Err(e) ==> e@ == SaveErrorView::IdNonexistent(grass_ident())
            },
        },
{
    match file {
        Some(bytes) => WorldSave::deserialize(bytes, raw_tile_ids),
        None => generate_default_save(raw_tile_ids),
    }
}

} // verus!
