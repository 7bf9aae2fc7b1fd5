//! Tiles: grid positions, per-tile data, and the pairing of a raw id with
//! that data.

use vstd::prelude::*;

use crate::identifier::Identifier;
use crate::raw_id::{RawId, RawIds};

verus! {

/// A signed 2D grid coordinate.
#[derive(Debug, Copy, Clone, PartialEq, Eq, Hash, Structural)]
pub struct TilePos {
    pub x: i32,
    pub y: i32,
}

/// One auxiliary byte of per-tile state.
#[derive(Debug, Copy, Clone, PartialEq, Eq, Hash, Structural)]
pub struct TileData(pub u8);

/// A placed tile: which content it is (as a raw id) plus its data byte.
#[derive(Debug, Copy, Clone, PartialEq, Eq, Hash, Structural)]
pub struct WorldTile(pub RawId, pub TileData);

impl WorldTile {
    /// Builds a tile for `id` with the given data byte, if `id` is
    /// registered.
    pub fn new_data(id: &Identifier, raw_tile_ids: &RawIds, data: TileData) -> (r: Option<Self>)
        requires
            raw_tile_ids.wf(),
        ensures
            r is Some <==> raw_tile_ids.contains_id(id@),
            r matches Some(tile) ==> {
                &&& raw_tile_ids.in_range(tile.0.0 as int)
                &&& raw_tile_ids@[tile.0.0 as int] == id@
                &&& tile.1 == data
            },
    {
        match raw_tile_ids.get_raw_id(id) {
            Some(raw) => Some(WorldTile(raw, data)),
            None => None,
        }
    }

    /// Builds a tile for `id` with a zero data byte, if `id` is
    /// registered.
    pub fn new(id: &Identifier, raw_tile_ids: &RawIds) -> (r: Option<Self>)
        requires
            raw_tile_ids.wf(),
        ensures
            r is Some <==> raw_tile_ids.contains_id(id@),
            r matches Some(tile) ==> {
                &&& raw_tile_ids.in_range(tile.0.0 as int)
                &&& raw_tile_ids@[tile.0.0 as int] == id@
                &&& tile.1 == TileData(0)
            },
    {
        WorldTile::new_data(id, raw_tile_ids, TileData(0))
    }

    /// True of a tile holding the "air" sentinel.
    pub fn is_air(&self) -> (r: bool)
        ensures
            r == (self.0.0 == -1),
    {
        self.0.is_air()
    }

    /// The empty tile: the "air" sentinel with a zero data byte.
    pub fn air() -> (r: Self)
        ensures
            r == WorldTile(RawId(-1i32), TileData(0)),
    {
        WorldTile(RawId(-1), TileData(0))
    }
}

/// Marker for entities that render one tile; the render layer attaches it,
/// nothing here reads it.
#[derive(Debug, Copy, Clone, PartialEq, Eq, Structural)]
pub struct TileSprite;

/// The salience (foreground-ness/background-ness) of a tile, which decides
/// its render layer.
#[derive(Debug, Copy, Clone, PartialEq, Eq, Structural)]
pub enum TileSalience {
    Invisible,
    Background,
    Foreground,
}

} // verus!
