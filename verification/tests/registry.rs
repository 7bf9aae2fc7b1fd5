//! The identifier registry: sequential assignment, both lookups, and the
//! sentinel raw ids.

use botanica::identifier::Identifier;
use botanica::raw_id::{RawId, RawIds};
use botanica::tile::{TileData, WorldTile};

#[test]
fn register_assigns_sequential_raw_ids() {
    let mut ids = RawIds::new();
    let grass = ids.register(Identifier::from_str("ns", "grass"));
    let water = ids.register(Identifier::from_str("ns", "water"));
    let stone = ids.register(Identifier::from_str("ns", "stone"));
    assert_eq!(grass, RawId(0));
    assert_eq!(water, RawId(1));
    assert_eq!(stone, RawId(2));
    assert_eq!(ids.len(), 3);
}

#[test]
fn forward_then_backward_lookup_is_identity() {
    let mut ids = RawIds::new();
    ids.register(Identifier::from_str("ns", "grass"));
    ids.register(Identifier::from_str("ns", "water"));
    let id = Identifier::from_str("ns", "water");
    let raw = ids.get_raw_id(&id).expect("registered");
    let back = ids.get_id(raw).expect("assigned");
    assert!(*back == id);
}

#[test]
fn unregistered_identifier_has_no_raw_id() {
    let mut ids = RawIds::new();
    ids.register(Identifier::from_str("ns", "grass"));
    assert!(ids.get_raw_id(&Identifier::from_str("ns", "water")).is_none());
    assert!(ids.get_raw_id(&Identifier::from_str("other", "grass")).is_none());
}

#[test]
fn sentinels_have_no_registration_entry() {
    let mut ids = RawIds::new();
    ids.register(Identifier::from_str("ns", "grass"));
    assert!(ids.get_id(RawId(-1)).is_none());
    assert!(ids.get_id(RawId(-2)).is_none());
    assert!(RawId(-1).is_air());
    assert!(RawId(-2).is_missingno());
    assert!(!RawId(0).is_air());
    assert!(!RawId(0).is_missingno());
}

#[test]
fn identifier_parts_are_kept() {
    let id = Identifier::new("botanica".to_string(), "grass".to_string());
    assert_eq!(id.namespace(), "botanica");
    assert_eq!(id.path(), "grass");
    let id2 = id.clone();
    assert!(id == id2);
    assert!(id != Identifier::from_str("botanica", "water"));
}

#[test]
fn world_tile_resolves_through_registry() {
    let mut ids = RawIds::new();
    ids.register(Identifier::from_str("ns", "grass"));
    let tile = WorldTile::new(&Identifier::from_str("ns", "grass"), &ids).expect("registered");
    assert_eq!(tile, WorldTile(RawId(0), TileData(0)));
    let tile2 = WorldTile::new_data(&Identifier::from_str("ns", "grass"), &ids, TileData(7))
        .expect("registered");
    assert_eq!(tile2.1, TileData(7));
    assert!(WorldTile::new(&Identifier::from_str("ns", "water"), &ids).is_none());
    assert!(WorldTile::air().is_air());
    assert!(!tile.is_air());
}
