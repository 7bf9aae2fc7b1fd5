//! The save codec: round trips, registry drift, the version gate, and
//! the distinct failure modes.

use botanica::identifier::Identifier;
use botanica::networking::Username;
use botanica::raw_id::{RawId, RawIds};
use botanica::save::{generate_default_save, resolve_world_load, translate_tile_record, SaveError,
    WorldSave, SAVE_VERSION};
use botanica::tile::{TileData, TilePos, WorldTile};
use botanica::world::{WorldBan, WorldBanUntil};

fn registry(paths: &[&str]) -> RawIds {
    let mut ids = RawIds::new();
    for p in paths {
        ids.register(Identifier::from_str("ns", p));
    }
    ids
}

#[test]
fn round_trip_reproduces_tiles_and_bans() {
    let ids = registry(&["grass", "water", "stone"]);
    let mut save = WorldSave::new();
    save.tiles.insert(TilePos { x: 0, y: 0 }, WorldTile(RawId(0), TileData(0)));
    save.tiles.insert(TilePos { x: 1, y: 0 }, WorldTile(RawId(1), TileData(9)));
    save.tiles.insert(TilePos { x: -3, y: 7 }, WorldTile(RawId(2), TileData(255)));
    save.bans.insert(
        Username("griefer".to_string()),
        WorldBan::new("for griefing".to_string(), WorldBanUntil(1_000_000)),
    );

    let bytes = save.serialize(&ids).expect("serializable");
    let loaded = WorldSave::deserialize(bytes, &ids).expect("decodable");

    assert_eq!(loaded.tiles.len(), 3);
    assert_eq!(
        loaded.tiles.get(TilePos { x: 0, y: 0 }),
        Some(WorldTile(RawId(0), TileData(0)))
    );
    assert_eq!(
        loaded.tiles.get(TilePos { x: 1, y: 0 }),
        Some(WorldTile(RawId(1), TileData(9)))
    );
    assert_eq!(
        loaded.tiles.get(TilePos { x: -3, y: 7 }),
        Some(WorldTile(RawId(2), TileData(255)))
    );
    assert_eq!(loaded.bans.len(), 1);
    let ban = loaded.bans.get(&Username("griefer".to_string())).expect("banned");
    assert_eq!(ban.reason(), "for griefing");
    assert_eq!(ban.until(), WorldBanUntil(1_000_000));
}

/// The concrete scenario: two tiles, same registry, exactly those two
/// entries come back and no others.
#[test]
fn two_tile_scenario_round_trips_exactly() {
    let mut ids = RawIds::new();
    let grass = ids.register(Identifier::from_str("ns", "grass"));
    let water = ids.register(Identifier::from_str("ns", "water"));
    let mut save = WorldSave::new();
    save.tiles.insert(TilePos { x: 0, y: 0 }, WorldTile(grass, TileData(0)));
    save.tiles.insert(TilePos { x: 1, y: 0 }, WorldTile(water, TileData(0)));

    let bytes = save.serialize(&ids).expect("serializable");
    let loaded = WorldSave::deserialize(bytes, &ids).expect("decodable");

    assert_eq!(loaded.tiles.len(), 2);
    assert_eq!(
        loaded.tiles.get(TilePos { x: 0, y: 0 }),
        Some(WorldTile(grass, TileData(0)))
    );
    assert_eq!(
        loaded.tiles.get(TilePos { x: 1, y: 0 }),
        Some(WorldTile(water, TileData(0)))
    );
    assert_eq!(loaded.tiles.get(TilePos { x: 2, y: 0 }), None);
    assert_eq!(loaded.bans.len(), 0);
}

/// Registry drift: the identifier that was raw id 5 at save time is raw
/// id 9 in the live registry, and loading yields 9 everywhere — never 5.
#[test]
fn drifted_registry_translates_raw_ids() {
    // Save-time registry: "special" is the sixth registration, raw id 5.
    let old_ids = registry(&["a0", "a1", "a2", "a3", "a4", "special"]);
    // Live registry: ten other entries first, so "special" is raw id 9.
    let new_ids = registry(&["b0", "b1", "b2", "b3", "b4", "b5", "b6", "b7", "b8", "special"]);

    let mut save = WorldSave::new();
    save.tiles.insert(TilePos { x: 2, y: 3 }, WorldTile(RawId(5), TileData(1)));
    save.tiles.insert(TilePos { x: 4, y: 5 }, WorldTile(RawId(5), TileData(2)));

    let bytes = save.serialize(&old_ids).expect("serializable");
    let loaded = WorldSave::deserialize(bytes, &new_ids).expect("decodable");

    assert_eq!(
        loaded.tiles.get(TilePos { x: 2, y: 3 }),
        Some(WorldTile(RawId(9), TileData(1)))
    );
    assert_eq!(
        loaded.tiles.get(TilePos { x: 4, y: 5 }),
        Some(WorldTile(RawId(9), TileData(2)))
    );
}

#[test]
fn translate_tile_record_reports_both_failures() {
    let snapshot = registry(&["only"]);
    let live = registry(&["other"]);
    // Raw id absent from the snapshot.
    let r = translate_tile_record(
        TilePos { x: 0, y: 0 },
        WorldTile(RawId(7), TileData(0)),
        &snapshot,
        &live,
    );
    assert!(matches!(r, Err(SaveError::RawIdNotFoundInSave(RawId(7)))));
    // Identifier known to the snapshot but not to the live registry.
    let r = translate_tile_record(
        TilePos { x: 0, y: 0 },
        WorldTile(RawId(0), TileData(0)),
        &snapshot,
        &live,
    );
    assert!(matches!(r, Err(SaveError::IdNonexistent(_))));
}

#[test]
fn version_field_change_fails_with_invalid_version() {
    let ids = registry(&["grass"]);
    let mut save = WorldSave::new();
    save.tiles.insert(TilePos { x: 0, y: 0 }, WorldTile(RawId(0), TileData(0)));
    let mut bytes = save.serialize(&ids).expect("serializable");
    // The version field is the little-endian word right after the magic.
    bytes[4] = bytes[4].wrapping_add(1);
    let r = WorldSave::deserialize(bytes, &ids);
    assert!(matches!(r, Err(SaveError::InvalidVersion(1, SAVE_VERSION))));
}

#[test]
fn bad_magic_fails_with_magic_missing() {
    let ids = registry(&["grass"]);
    let save = WorldSave::new();
    let mut bytes = save.serialize(&ids).expect("serializable");
    bytes[0] = 0;
    assert!(matches!(
        WorldSave::deserialize(bytes, &ids),
        Err(SaveError::MagicMissing(_))
    ));
    assert!(matches!(
        WorldSave::deserialize(vec![1, 2, 3], &ids),
        Err(SaveError::MagicMissing(_))
    ));
}

#[test]
fn truncated_body_fails_with_corrupt() {
    let ids = registry(&["grass"]);
    let save = WorldSave::new();
    let bytes = save.serialize(&ids).expect("serializable");
    let truncated = bytes[..bytes.len() - 1].to_vec();
    assert!(matches!(
        WorldSave::deserialize(truncated, &ids),
        Err(SaveError::Corrupt)
    ));
}

#[test]
fn stored_raw_id_missing_from_snapshot_fails() {
    let ids = registry(&["grass"]);
    let mut save = WorldSave::new();
    // Raw id 3 was never assigned by the one-entry registry.
    save.tiles.insert(TilePos { x: 0, y: 0 }, WorldTile(RawId(3), TileData(0)));
    let bytes = save.serialize(&ids).expect("serializable");
    assert!(matches!(
        WorldSave::deserialize(bytes, &ids),
        Err(SaveError::RawIdNotFoundInSave(RawId(3)))
    ));
}

#[test]
fn resolved_identifier_missing_from_live_registry_fails() {
    let old_ids = registry(&["grass"]);
    let new_ids = registry(&["water"]);
    let mut save = WorldSave::new();
    save.tiles.insert(TilePos { x: 0, y: 0 }, WorldTile(RawId(0), TileData(0)));
    let bytes = save.serialize(&old_ids).expect("serializable");
    assert!(matches!(
        WorldSave::deserialize(bytes, &new_ids),
        Err(SaveError::IdNonexistent(_))
    ));
}

#[test]
fn empty_save_has_exact_byte_layout() {
    let ids = RawIds::new();
    let save = WorldSave::new();
    let bytes = save.serialize(&ids).expect("serializable");
    // Magic, version 0, offsets 32/40/40: the empty tile section is zero
    // bytes — the offsets alone delimit it — while the snapshot and ban
    // sections each open with an eight-byte zero count.
    let mut expected = vec![0xB0, 0x7A, 0x21, 0xCA];
    expected.extend_from_slice(&[0, 0, 0, 0]);
    expected.extend_from_slice(&[32, 0, 0, 0, 0, 0, 0, 0]);
    expected.extend_from_slice(&[40, 0, 0, 0, 0, 0, 0, 0]);
    expected.extend_from_slice(&[40, 0, 0, 0, 0, 0, 0, 0]);
    expected.extend_from_slice(&[0; 8]);
    expected.extend_from_slice(&[0; 8]);
    assert_eq!(bytes, expected);
}

#[test]
fn tile_section_is_exactly_thirteen_bytes_per_record() {
    let ids = registry(&["grass", "water"]);
    let mut save = WorldSave::new();
    save.tiles.insert(TilePos { x: 1, y: 2 }, WorldTile(RawId(0), TileData(7)));
    save.tiles.insert(TilePos { x: -1, y: -2 }, WorldTile(RawId(1), TileData(8)));
    let bytes = save.serialize(&ids).expect("serializable");
    // The offset table delimits the tile section; its length is 13 per
    // record, with no count field inside it.
    let tiles_off = u64::from_le_bytes(bytes[16..24].try_into().unwrap()) as usize;
    let bans_off = u64::from_le_bytes(bytes[24..32].try_into().unwrap()) as usize;
    assert_eq!(bans_off - tiles_off, 2 * 13);
    // First record, little-endian: x=1, y=2, raw id 0, data byte 7.
    let rec = &bytes[tiles_off..tiles_off + 13];
    assert_eq!(rec[0..4], 1i32.to_le_bytes());
    assert_eq!(rec[4..8], 2i32.to_le_bytes());
    assert_eq!(rec[8..12], 0i32.to_le_bytes());
    assert_eq!(rec[12], 7);
}

#[test]
fn torn_tile_record_fails_with_corrupt() {
    let ids = registry(&["grass"]);
    let mut save = WorldSave::new();
    save.tiles.insert(TilePos { x: 0, y: 0 }, WorldTile(RawId(0), TileData(0)));
    let mut bytes = save.serialize(&ids).expect("serializable");
    // Shift the ban offset into the middle of a record: the tile section
    // no longer holds a whole number of 13-byte records.
    let bans_off = u64::from_le_bytes(bytes[24..32].try_into().unwrap());
    bytes[24..32].copy_from_slice(&(bans_off - 1).to_le_bytes());
    assert!(matches!(
        WorldSave::deserialize(bytes, &ids),
        Err(SaveError::Corrupt)
    ));
}

#[test]
fn default_world_is_a_grass_strip() {
    let mut ids = RawIds::new();
    let grass = ids.register(Identifier::from_str("botanica", "grass"));
    let save = generate_default_save(&ids).expect("grass registered");
    assert_eq!(save.tiles.len(), 33);
    for x in -16..=16 {
        assert_eq!(
            save.tiles.get(TilePos { x, y: 0 }),
            Some(WorldTile(grass, TileData(0)))
        );
    }
    assert_eq!(save.bans.len(), 0);

    let missing = RawIds::new();
    assert!(matches!(
        generate_default_save(&missing),
        Err(SaveError::IdNonexistent(_))
    ));
}

#[test]
fn resolve_world_load_prefers_the_file() {
    let mut ids = RawIds::new();
    ids.register(Identifier::from_str("botanica", "grass"));
    let mut save = WorldSave::new();
    save.tiles.insert(TilePos { x: 5, y: 5 }, WorldTile(RawId(0), TileData(3)));
    let bytes = save.serialize(&ids).expect("serializable");

    let from_file = resolve_world_load(Some(bytes), &ids).expect("decodable");
    assert_eq!(from_file.tiles.len(), 1);

    let generated = resolve_world_load(None, &ids).expect("grass registered");
    assert_eq!(generated.tiles.len(), 33);
}
