//! Worlds: the tile grid, the ban list, the per-world player roster, and
//! the store of loaded worlds on the server side.

use vstd::prelude::*;

use crate::assoc::{assoc_map, has_key, lemma_assoc_map_absent, lemma_assoc_map_index,
    lemma_assoc_map_push, lemma_assoc_map_remove, lemma_assoc_map_update, unique_keys};
use crate::identifier::Identifier;
use crate::networking::protocol::ClientId;
use crate::networking::Username;
use crate::raw_id::RawId;
use crate::tile::{TileData, TilePos, WorldTile};

verus! {

/// A 2D position, as the bit patterns of the render layer's 32-bit float
/// coordinates; this crate only stores and transports it.
#[derive(Debug, Copy, Clone, PartialEq, Eq, Hash, Structural)]
pub struct Position {
    pub x_bits: u32,
    pub y_bits: u32,
}

/// When a ban ends, in seconds since the Unix epoch.
#[derive(Debug, Copy, Clone, PartialEq, Eq, Hash, Structural)]
pub struct WorldBanUntil(pub u64);

/// Mathematical model of a [`WorldBan`].
pub struct WorldBanView {
    pub reason: Seq<char>,
    pub until: u64,
}

/// A ban: why, and until when.
#[derive(Debug)]
pub struct WorldBan {
    reason: String,
    until: WorldBanUntil,
}

impl View for WorldBan {
    type V = WorldBanView;

    closed spec fn view(&self) -> WorldBanView {
        WorldBanView { reason: self.reason@, until: self.until.0 }
    }
}

impl WorldBan {
    pub fn new(reason: String, until: WorldBanUntil) -> (r: Self)
        ensures
            r@.reason == reason@,
            r@.until == until.0,
    {
        WorldBan { reason, until }
    }

    pub fn reason(&self) -> (r: &str)
        ensures
            r@ == self@.reason,
    {
        self.reason.as_str()
    }

    pub fn until(&self) -> (r: WorldBanUntil)
        ensures
            r.0 == self@.until,
    {
        self.until
    }

    /// Whether the ban is still in force at time `now` (seconds since
    /// the Unix epoch).
    pub fn is_active(&self, now: u64) -> (r: bool)
        ensures
            r == (now < self@.until),
    {
        now < self.until.0
    }
}

impl Clone for WorldBan {
    fn clone(&self) -> (r: Self)
        ensures
            r@ == self@,
    {
        WorldBan { reason: self.reason.clone(), until: self.until }
    }
}

/// The name a world is addressed by.
#[derive(Debug, Hash)]
pub struct WorldId(pub String);

impl View for WorldId {
    type V = Seq<char>;

    open spec fn view(&self) -> Seq<char> {
        self.0@
    }
}

impl Clone for WorldId {
    fn clone(&self) -> (r: Self)
        ensures
            r@ == self@,
    {
        WorldId(self.0.clone())
    }
}

impl PartialEq for WorldId {
    fn eq(&self, other: &Self) -> (r: bool)
        ensures
            r == (self@ == other@),
    {
        self.0 == other.0
    }
}

impl vstd::std_specs::cmp::PartialEqSpecImpl for WorldId {
    open spec fn obeys_eq_spec() -> bool {
        true
    }

    open spec fn eq_spec(&self, other: &Self) -> bool {
        self@ == other@
    }
}

// ---------------------------------------------------------------------
// Tile map
// ---------------------------------------------------------------------

/// The tile grid of one world: a finite map from positions to tiles,
/// kept in insertion order.
#[derive(Debug)]
pub struct TileMap {
    entries: Vec<(TilePos, WorldTile)>,
}

impl View for TileMap {
    type V = Seq<(TilePos, WorldTile)>;

    closed spec fn view(&self) -> Seq<(TilePos, WorldTile)> {
        self.entries@
    }
}

impl TileMap {
    /// Well-formed: one entry per position.
    pub open spec fn wf(&self) -> bool {
        unique_keys(self@)
    }

    /// The map this tile grid denotes.
    pub open spec fn as_map(&self) -> Map<TilePos, WorldTile> {
        assoc_map(self@)
    }

    pub fn new() -> (r: Self)
        ensures
            r@ =~= Seq::<(TilePos, WorldTile)>::empty(),
            r.wf(),
            r.as_map() =~= Map::<TilePos, WorldTile>::empty(),
    {
        TileMap { entries: Vec::new() }
    }

    pub fn len(&self) -> (r: usize)
        ensures
            r == self@.len(),
    {
        self.entries.len()
    }

    /// The `i`-th entry in insertion order.
    pub fn entry_at(&self, i: usize) -> (r: (TilePos, WorldTile))
        requires
            i < self@.len(),
        ensures
            r == self@[i as int],
    {
        self.entries[i]
    }

    fn find(&self, pos: TilePos) -> (r: Option<usize>)
        ensures
            r is Some <==> has_key(self@, pos),
            r matches Some(i) ==> i < self@.len() && self@[i as int].0 == pos,
    {
        let n = self.entries.len();
        let mut i: usize = 0;
        while i < n
            invariant
                n == self@.len(),
                i <= n,
                forall|j: int| 0 <= j < i ==> (#[trigger] self@[j]).0 != pos,
            decreases n - i,
        {
            if self.entries[i].0 == pos {
                return Some(i);
            }
            i += 1;
        }
        None
    }

    pub fn get(&self, pos: TilePos) -> (r: Option<WorldTile>)
        requires
            self.wf(),
        ensures
            r is Some <==> self.as_map().contains_key(pos),
            r matches Some(t) ==> self.as_map()[pos] == t,
    {
        match self.find(pos) {
            Some(i) => {
                proof {
                    lemma_assoc_map_index(self@, i as int);
                }
                Some(self.entries[i].1)
            },
            None => {
                proof {
                    lemma_assoc_map_absent(self@, pos);
                }
                None
            },
        }
    }

    /// Sets the tile at `pos`, replacing any previous one.
    pub fn insert(&mut self, pos: TilePos, tile: WorldTile)
        requires
            old(self).wf(),
        ensures
            final(self).wf(),
            final(self).as_map() =~= old(self).as_map().insert(pos, tile),
            final(self)@.len() <= old(self)@.len() + 1,
            !has_key(old(self)@, pos) ==> final(self)@ == old(self)@.push((pos, tile)),
    {
        match self.find(pos) {
            Some(i) => {
                proof {
                    lemma_assoc_map_update(self@, i as int, tile);
                }
                self.entries[i] = (pos, tile);
            },
            None => {
                proof {
                    lemma_assoc_map_push(self@, pos, tile);
                    let s2 = self@.push((pos, tile));
                    assert(forall|x: int| 0 <= x < self@.len() ==> s2[x] == self@[x]);
                    assert(unique_keys(s2));
                }
                self.entries.push((pos, tile));
            },
        }
    }

    /// Clears the tile at `pos`, if any.
    pub fn remove(&mut self, pos: TilePos)
        requires
            old(self).wf(),
        ensures
            final(self).wf(),
            final(self).as_map() =~= old(self).as_map().remove(pos),
    {
        match self.find(pos) {
            Some(i) => {
                proof {
                    lemma_assoc_map_remove(self@, i as int);
                }
                self.entries.remove(i);
            },
            None => {
                proof {
                    lemma_assoc_map_absent(self@, pos);
                    assert(self.as_map() =~= self.as_map().remove(pos));
                }
            },
        }
    }
}

impl Clone for TileMap {
    fn clone(&self) -> (r: Self)
        ensures
            r@ == self@,
    {
        let mut entries: Vec<(TilePos, WorldTile)> = Vec::new();
        let n = self.entries.len();
        let mut i: usize = 0;
        while i < n
            invariant
                n == self.entries@.len(),
                i <= n,
                entries@ =~= self.entries@.take(i as int),
            decreases n - i,
        {
            entries.push(self.entries[i]);
            proof {
                assert(entries@ =~= self.entries@.take(i + 1));
            }
            i += 1;
        }
        proof {
            assert(self.entries@.take(n as int) =~= self.entries@);
        }
        TileMap { entries }
    }
}

// ---------------------------------------------------------------------
// Ban map
// ---------------------------------------------------------------------

/// The ban list of one world: a finite map from usernames to bans, kept
/// in insertion order.
#[derive(Debug)]
pub struct BanMap {
    entries: Vec<(Username, WorldBan)>,
}

impl View for BanMap {
    type V = Seq<(Seq<char>, WorldBanView)>;

    closed spec fn view(&self) -> Seq<(Seq<char>, WorldBanView)> {
        self.entries@.map(|i: int, e: (Username, WorldBan)| (e.0@, e.1@))
    }
}

impl BanMap {
    /// Well-formed: one entry per username.
    pub open spec fn wf(&self) -> bool {
        unique_keys(self@)
    }

    /// The map this ban list denotes.
    pub open spec fn as_map(&self) -> Map<Seq<char>, WorldBanView> {
        assoc_map(self@)
    }

    pub fn new() -> (r: Self)
        ensures
            r@ =~= Seq::<(Seq<char>, WorldBanView)>::empty(),
            r.wf(),
            r.as_map() =~= Map::<Seq<char>, WorldBanView>::empty(),
    {
        BanMap { entries: Vec::new() }
    }

    pub fn len(&self) -> (r: usize)
        ensures
            r == self@.len(),
    {
        self.entries.len()
    }

    /// The username of the `i`-th entry in insertion order.
    pub fn username_at(&self, i: usize) -> (r: &Username)
        requires
            i < self@.len(),
        ensures
            r@ == self@[i as int].0,
    {
        &self.entries[i].0
    }

    /// The ban of the `i`-th entry in insertion order.
    pub fn ban_at(&self, i: usize) -> (r: &WorldBan)
        requires
            i < self@.len(),
        ensures
            r@ == self@[i as int].1,
    {
        &self.entries[i].1
    }

    fn find(&self, username: &Username) -> (r: Option<usize>)
        ensures
            r is Some <==> has_key(self@, username@),
            r matches Some(i) ==> i < self@.len() && self@[i as int].0 == username@,
    {
        let n = self.entries.len();
        let mut i: usize = 0;
        while i < n
            invariant
                n == self@.len(),
                i <= n,
                forall|j: int| 0 <= j < i ==> (#[trigger] self@[j]).0 != username@,
            decreases n - i,
        {
            if self.entries[i].0 == *username {
                proof {
                    assert(self@[i as int].0 == username@);
                }
                return Some(i);
            }
            i += 1;
        }
        None
    }

    pub fn contains_key(&self, username: &Username) -> (r: bool)
        requires
            self.wf(),
        ensures
            r == self.as_map().contains_key(username@),
    {
        match self.find(username) {
            Some(i) => {
                proof {
                    lemma_assoc_map_index(self@, i as int);
                }
                true
            },
            None => {
                proof {
                    lemma_assoc_map_absent(self@, username@);
                }
                false
            },
        }
    }

    pub fn get(&self, username: &Username) -> (r: Option<&WorldBan>)
        requires
            self.wf(),
        ensures
            r is Some <==> self.as_map().contains_key(username@),
            r matches Some(b) ==> self.as_map()[username@] == b@,
    {
        match self.find(username) {
            Some(i) => {
                proof {
                    lemma_assoc_map_index(self@, i as int);
                }
                Some(&self.entries[i].1)
            },
            None => {
                proof {
                    lemma_assoc_map_absent(self@, username@);
                }
                None
            },
        }
    }

    /// Bans `username`, replacing any previous ban.
    pub fn insert(&mut self, username: Username, ban: WorldBan)
        requires
            old(self).wf(),
        ensures
            final(self).wf(),
            final(self).as_map() =~= old(self).as_map().insert(username@, ban@),
            !has_key(old(self)@, username@) ==> final(self)@ == old(self)@.push(
                (username@, ban@),
            ),
    {
        let ghost key = username@;
        let ghost value = ban@;
        match self.find(&username) {
            Some(i) => {
                proof {
                    lemma_assoc_map_update(self@, i as int, value);
                }
                self.entries[i] = (username, ban);
                proof {
                    assert(self@ =~= old(self)@.update(i as int, (key, value)));
                }
            },
            None => {
                proof {
                    lemma_assoc_map_push(self@, key, value);
                }
                self.entries.push((username, ban));
                proof {
                    assert(self@ =~= old(self)@.push((key, value)));
                    let s2 = self@;
                    assert(forall|x: int| 0 <= x < old(self)@.len() ==> s2[x] == old(self)@[x]);
                    assert(unique_keys(s2));
                }
            },
        }
    }
}

impl Clone for BanMap {
    fn clone(&self) -> (r: Self)
        ensures
            r@ == self@,
    {
        let mut entries: Vec<(Username, WorldBan)> = Vec::new();
        let n = self.entries.len();
        let mut i: usize = 0;
        while i < n
            invariant
                n == self.entries@.len(),
                i <= n,
                entries@.len() == i as int,
                forall|j: int|
                    0 <= j < i ==> (#[trigger] entries@[j]).0@ == self.entries@[j].0@
                        && entries@[j].1@ == self.entries@[j].1@,
            decreases n - i,
        {
            let u = self.entries[i].0.clone();
            let b = self.entries[i].1.clone();
            entries.push((u, b));
            i += 1;
        }
        let r = BanMap { entries };
        proof {
            assert(r@ =~= self@);
        }
        r
    }
}

// ---------------------------------------------------------------------
// Worlds
// ---------------------------------------------------------------------

/// Mathematical model of a [`ServerGameWorld`].
pub struct ServerGameWorldView {
    pub id: Seq<char>,
    pub tiles: Seq<(TilePos, WorldTile)>,
    pub players: Seq<ClientId>,
    pub bans: Seq<(Seq<char>, WorldBanView)>,
    pub spawnpoint: Position,
}

/// One loaded world on the server: its tile grid, connected-player
/// roster, ban list and spawn point.
pub struct ServerGameWorld {
    pub id: WorldId,
    pub tiles: TileMap,
    pub players: Vec<ClientId>,
    pub bans: BanMap,
    pub spawnpoint: Position,
}

impl View for ServerGameWorld {
    type V = ServerGameWorldView;

    open spec fn view(&self) -> ServerGameWorldView {
        ServerGameWorldView {
            id: self.id@,
            tiles: self.tiles@,
            players: self.players@,
            bans: self.bans@,
            spawnpoint: self.spawnpoint,
        }
    }
}

/// Well-formed world: maps with unique keys, and no player listed twice.
pub open spec fn world_view_wf(w: ServerGameWorldView) -> bool {
    &&& unique_keys(w.tiles)
    &&& unique_keys(w.bans)
    &&& forall|x: int, y: int| 0 <= x < y < w.players.len() ==> w.players[x] != w.players[y]
}

impl ServerGameWorld {
    /// Well-formed: maps with unique keys, and no player listed twice.
    pub open spec fn wf(&self) -> bool {
        world_view_wf(self@)
    }

    /// Whether `player` is on this world's roster.
    pub fn roster_contains(&self, player: ClientId) -> (r: bool)
        ensures
            r == self@.players.contains(player),
    {
        let n = self.players.len();
        let mut i: usize = 0;
        while i < n
            invariant
                n == self.players@.len(),
                i <= n,
                forall|j: int| 0 <= j < i ==> self.players@[j] != player,
            decreases n - i,
        {
            if self.players[i] == player {
                return true;
            }
            i += 1;
        }
        false
    }
}

/// The client's local mirror of the world it is in.
pub struct ClientGameWorld {
    pub id: WorldId,
    pub tiles: TileMap,
}

impl ClientGameWorld {
    pub fn get_tile(&self, pos: &TilePos) -> (r: Option<WorldTile>)
        requires
            self.tiles.wf(),
        ensures
            r is Some <==> self.tiles.as_map().contains_key(*pos),
            r matches Some(t) ==> self.tiles.as_map()[*pos] == t,
    {
        self.tiles.get(*pos)
    }
}

/// Why a tile update could not be applied on the client.
#[derive(Debug)]
pub enum TileEventError {
    /// The identifier has no raw id in the synchronized registry.
    InvalidId(Identifier, TilePos),
    /// No tile definition exists for the identifier.
    TileDefNotFound(Identifier, TilePos),
    /// The raw id resolves to no identifier in the synchronized registry.
    InvalidRawId(RawId, TilePos),
}

/// Mathematical model of a [`TileEventError`].
pub enum TileEventErrorView {
    InvalidId(crate::identifier::IdentifierView, TilePos),
    TileDefNotFound(crate::identifier::IdentifierView, TilePos),
    InvalidRawId(RawId, TilePos),
}

impl View for TileEventError {
    type V = TileEventErrorView;

    open spec fn view(&self) -> TileEventErrorView {
        match self {
            TileEventError::InvalidId(id, pos) => TileEventErrorView::InvalidId(id@, *pos),
            TileEventError::TileDefNotFound(id, pos) => TileEventErrorView::TileDefNotFound(
                id@,
                *pos,
            ),
            TileEventError::InvalidRawId(raw, pos) => TileEventErrorView::InvalidRawId(*raw, *pos),
        }
    }
}

/// The store of loaded worlds on the server, keyed by world name.
pub struct ServerGameWorlds {
    worlds: Vec<ServerGameWorld>,
}

impl View for ServerGameWorlds {
    type V = Seq<ServerGameWorldView>;

    closed spec fn view(&self) -> Seq<ServerGameWorldView> {
        self.worlds@.map(|i: int, w: ServerGameWorld| w@)
    }
}

impl ServerGameWorlds {
    /// The name-to-world association this store denotes.
    pub open spec fn pairs(&self) -> Seq<(Seq<char>, ServerGameWorldView)> {
        self@.map(|i: int, w: ServerGameWorldView| (w.id, w))
    }

    /// The map this store denotes.
    pub open spec fn as_map(&self) -> Map<Seq<char>, ServerGameWorldView> {
        assoc_map(self.pairs())
    }

    /// Well-formed: world names unique, every world well-formed.
    pub open spec fn wf(&self) -> bool {
        &&& unique_keys(self.pairs())
        &&& forall|i: int| 0 <= i < self@.len() ==> world_view_wf(#[trigger] self@[i])
    }

    pub fn new() -> (r: Self)
        ensures
            r@ =~= Seq::<ServerGameWorldView>::empty(),
            r.wf(),
            r.as_map() =~= Map::<Seq<char>, ServerGameWorldView>::empty(),
    {
        let r = ServerGameWorlds { worlds: Vec::new() };
        proof {
            assert(r.pairs() =~= Seq::<(Seq<char>, ServerGameWorldView)>::empty());
        }
        r
    }

    fn find(&self, world_name: &str) -> (r: Option<usize>)
        ensures
            r is Some <==> has_key(self.pairs(), world_name@),
            r matches Some(i) ==> i < self@.len() && self@[i as int].id == world_name@,
    {
        let n = self.worlds.len();
        let mut i: usize = 0;
        while i < n
            invariant
                n == self@.len(),
                i <= n,
                forall|j: int| 0 <= j < i ==> (#[trigger] self.pairs()[j]).0 != world_name@,
            decreases n - i,
        {
            proof {
                assert(self.pairs()[i as int].0 == self@[i as int].id);
            }
            if crate::util::str_eq(self.worlds[i].id.0.as_str(), world_name) {
                proof {
                    assert(self.pairs()[i as int].0 == world_name@);
                }
                return Some(i);
            }
            i += 1;
        }
        None
    }

    /// Whether the world of that name has been loaded.
    pub fn contains_world(&self, world_name: &str) -> (r: bool)
        requires
            self.wf(),
        ensures
            r == self.as_map().contains_key(world_name@),
    {
        match self.find(world_name) {
            Some(i) => {
                proof {
                    lemma_assoc_map_index(self.pairs(), i as int);
                }
                true
            },
            None => {
                proof {
                    lemma_assoc_map_absent(self.pairs(), world_name@);
                }
                false
            },
        }
    }

    /// The loaded world of that name, if any.
    pub fn get_world(&self, world_name: &str) -> (r: Option<&ServerGameWorld>)
        requires
            self.wf(),
        ensures
            r is Some <==> self.as_map().contains_key(world_name@),
            r matches Some(w) ==> self.as_map()[world_name@] == w@ && w.wf(),
    {
        match self.find(world_name) {
            Some(i) => {
                proof {
                    lemma_assoc_map_index(self.pairs(), i as int);
                    assert(self.pairs()[i as int] == (self@[i as int].id, self@[i as int]));
                    assert(self@[i as int] == self.worlds@[i as int]@);
                }
                Some(&self.worlds[i])
            },
            None => {
                proof {
                    lemma_assoc_map_absent(self.pairs(), world_name@);
                }
                None
            },
        }
    }

    /// Adds a freshly loaded or generated world under its own name.
    pub fn add_world(&mut self, world: ServerGameWorld)
        requires
            old(self).wf(),
            world.wf(),
            !old(self).as_map().contains_key(world.id@),
        ensures
            final(self).wf(),
            final(self).as_map() =~= old(self).as_map().insert(world.id@, world@),
            final(self)@ == old(self)@.push(world@),
    {
        let ghost wv = world@;
        proof {
            if has_key(old(self).pairs(), wv.id) {
                let j = choose|j: int|
                    0 <= j < old(self).pairs().len() && (#[trigger] old(self).pairs()[j]).0
                        == wv.id;
                lemma_assoc_map_index(old(self).pairs(), j);
            }
            lemma_assoc_map_push(old(self).pairs(), wv.id, wv);
        }
        self.worlds.push(world);
        proof {
            assert(self@ =~= old(self)@.push(wv));
            assert(self.pairs() =~= old(self).pairs().push((wv.id, wv)));
            let ps = self.pairs();
            assert(forall|x: int|
                0 <= x < old(self).pairs().len() ==> ps[x] == old(self).pairs()[x]);
            assert(unique_keys(ps));
        }
    }

    /// Removes the world of that name, if loaded.
    pub fn remove_world(&mut self, world_name: &str)
        requires
            old(self).wf(),
        ensures
            final(self).wf(),
            final(self).as_map() =~= old(self).as_map().remove(world_name@),
    {
        match self.find(world_name) {
            Some(i) => {
                proof {
                    lemma_assoc_map_remove(old(self).pairs(), i as int);
                }
                self.worlds.remove(i);
                proof {
                    assert(self@ =~= old(self)@.remove(i as int));
                    assert(self.pairs() =~= old(self).pairs().remove(i as int));
                }
            },
            None => {
                proof {
                    lemma_assoc_map_absent(self.pairs(), world_name@);
                    assert(self.as_map() =~= self.as_map().remove(world_name@));
                }
            },
        }
    }

    /// Puts `player` on the roster of the world of that name, if not
    /// already on it.
    pub fn add_player_to_world(&mut self, world_name: &str, player: ClientId)
        requires
            old(self).wf(),
            old(self).as_map().contains_key(world_name@),
        ensures
            final(self).wf(),
            final(self).as_map() =~= old(self).as_map().insert(
                world_name@,
                roster_with(old(self).as_map()[world_name@], player),
            ),
    {
        let i = match self.find(world_name) {
            Some(i) => i,
            None => {
                proof {
                    lemma_assoc_map_absent(self.pairs(), world_name@);
                    assert(false);
                }
                0
            },
        };
        proof {
            lemma_assoc_map_index(self.pairs(), i as int);
            assert(self.pairs()[i as int] == (self@[i as int].id, self@[i as int]));
        }
        let ghost oldw = self@[i as int];
        let already = self.worlds[i].roster_contains(player);
        if !already {
            let w = &mut self.worlds[i];
            w.players.push(player);
            proof {
                assert(self@[i as int] == ServerGameWorldView { players: oldw.players.push(player), ..oldw });
            }
        }
        proof {
            let neww = self@[i as int];
            assert(neww == roster_with(oldw, player));
            assert(self@ =~= old(self)@.update(i as int, neww));
            assert(self.pairs() =~= old(self).pairs().update(i as int, (neww.id, neww)));
            assert(neww.id == oldw.id);
            lemma_assoc_map_update(old(self).pairs(), i as int, neww);
            assert(world_view_wf(neww));
        }
    }

    /// Takes `player` off the roster of the world of that name.
    pub fn remove_player_from_world(&mut self, world_name: &str, player: ClientId)
        requires
            old(self).wf(),
        ensures
            final(self).wf(),
            old(self).as_map().contains_key(world_name@) ==> final(self).as_map() =~= old(
                self,
            ).as_map().insert(
                world_name@,
                roster_without(old(self).as_map()[world_name@], player),
            ),
            !old(self).as_map().contains_key(world_name@) ==> final(self).as_map() == old(
                self,
            ).as_map(),
    {
        let i = match self.find(world_name) {
            Some(i) => i,
            None => {
                proof {
                    lemma_assoc_map_absent(self.pairs(), world_name@);
                }
                return ;
            },
        };
        proof {
            lemma_assoc_map_index(self.pairs(), i as int);
            assert(self.pairs()[i as int] == (self@[i as int].id, self@[i as int]));
        }
        let ghost oldw = self@[i as int];
        let w = &mut self.worlds[i];
        let n = w.players.len();
        let mut k: usize = 0;
        let mut found: bool = false;
        let mut idx: usize = 0;
        while k < n
            invariant
                n == w.players@.len(),
                k <= n,
                found ==> idx < n && w.players@[idx as int] == player,
                !found ==> forall|j: int| 0 <= j < k ==> w.players@[j] != player,
            decreases n - k,
        {
            if !found && w.players[k] == player {
                found = true;
                idx = k;
            }
            k += 1;
        }
        if found {
            w.players.remove(idx);
            proof {
                assert(forall|j: int|
                    0 <= j < w.players@.len() && j < idx ==> #[trigger] w.players@[j]
                        == oldw.players[j]);
                assert(forall|j: int|
                    idx <= j < w.players@.len() ==> #[trigger] w.players@[j] == oldw.players[j + 1]);
                assert(!w.players@.contains(player)) by {
                    assert(forall|x: int, y: int|
                        0 <= x < y < oldw.players.len() ==> oldw.players[x] != oldw.players[y]);
                    assert forall|j: int| 0 <= j < w.players@.len() implies w.players@[j]
                        != player by {
                        if j < idx {
                            assert(oldw.players[j] != oldw.players[idx as int]);
                        } else {
                            assert(oldw.players[j + 1] != oldw.players[idx as int]);
                        }
                    }
                }
            }
        } else {
            proof {
                assert(!oldw.players.contains(player));
                assert(w.players@ =~= oldw.players);
            }
        }
        proof {
            let neww = self@[i as int];
            assert(neww.id == oldw.id);
            assert(!neww.players.contains(player));
            assert(neww.tiles == oldw.tiles && neww.bans == oldw.bans && neww.spawnpoint
                == oldw.spawnpoint);
            assert(world_view_wf(neww)) by {
                if found {
                    assert(forall|x: int, y: int|
                        0 <= x < y < oldw.players.len() ==> oldw.players[x] != oldw.players[y]);
                    assert forall|x: int, y: int|
                        0 <= x < y < neww.players.len() implies neww.players[x]
                        != neww.players[y] by {
                        let px = if x < idx { oldw.players[x] } else { oldw.players[x + 1] };
                        let py = if y < idx { oldw.players[y] } else { oldw.players[y + 1] };
                        assert(neww.players[x] == px && neww.players[y] == py);
                    }
                }
            }
            assert(neww == roster_without(oldw, player)) by {
                roster_without_characterization(oldw, neww, player);
            }
            assert(self@ =~= old(self)@.update(i as int, neww));
            assert(self.pairs() =~= old(self).pairs().update(i as int, (neww.id, neww)));
            lemma_assoc_map_update(old(self).pairs(), i as int, neww);
        }
    }
}

/// `world` with `player` on the roster (appended if absent).
pub open spec fn roster_with(world: ServerGameWorldView, player: ClientId) -> ServerGameWorldView {
    if world.players.contains(player) {
        world
    } else {
        ServerGameWorldView { players: world.players.push(player), ..world }
    }
}

/// `world` with the first roster entry for `player` removed (the roster
/// never lists a player twice, so none remains).
pub open spec fn roster_without(
    world: ServerGameWorldView,
    player: ClientId,
) -> ServerGameWorldView {
    if world.players.contains(player) {
        let i = choose|i: int| 0 <= i < world.players.len() && world.players[i] == player;
        ServerGameWorldView { players: world.players.remove(i), ..world }
    } else {
        world
    }
}

/// Ban enforcement leaves no trace on the roster: with no player listed
/// twice, the roster without a player does not contain that player, and
/// every other player keeps their place.
pub proof fn lemma_roster_without_absent(w: ServerGameWorldView, player: ClientId)
    requires
        forall|x: int, y: int| 0 <= x < y < w.players.len() ==> w.players[x] != w.players[y],
    ensures
        !roster_without(w, player).players.contains(player),
        forall|p2: ClientId|
            p2 != player ==> (roster_without(w, player).players.contains(p2) == w.players.contains(
                p2,
            )),
{
    let after = roster_without(w, player).players;
    if w.players.contains(player) {
        let i = choose|i: int| 0 <= i < w.players.len() && w.players[i] == player;
        assert(after == w.players.remove(i));
        assert(forall|x: int| 0 <= x < i ==> (#[trigger] after[x]) == w.players[x]);
        assert(forall|x: int| i <= x < after.len() ==> (#[trigger] after[x]) == w.players[x + 1]);
        assert forall|j: int| 0 <= j < after.len() implies after[j] != player by {
            if j < i {
                assert(w.players[j] != w.players[i]);
            } else {
                assert(w.players[j + 1] != w.players[i]);
            }
        }
        assert forall|p2: ClientId| p2 != player implies (after.contains(p2) == w.players.contains(
            p2,
        )) by {
            if w.players.contains(p2) {
                let j = choose|j: int| 0 <= j < w.players.len() && w.players[j] == p2;
                if j < i {
                    assert(after[j] == p2);
                } else if j > i {
                    assert(after[j - 1] == p2);
                }
            }
            if after.contains(p2) {
                let j = choose|j: int| 0 <= j < after.len() && after[j] == p2;
                if j < i {
                    assert(w.players[j] == p2);
                } else {
                    assert(w.players[j + 1] == p2);
                }
            }
        }
    }
}

proof fn roster_without_characterization(
    oldw: ServerGameWorldView,
    neww: ServerGameWorldView,
    player: ClientId,
)
    requires
        forall|x: int, y: int|
            0 <= x < y < oldw.players.len() ==> oldw.players[x] != oldw.players[y],
        neww.id == oldw.id,
        neww.tiles == oldw.tiles,
        neww.bans == oldw.bans,
        neww.spawnpoint == oldw.spawnpoint,
        oldw.players.contains(player) ==> exists|i: int|
            0 <= i < oldw.players.len() && oldw.players[i] == player && neww.players
                == oldw.players.remove(i),
        !oldw.players.contains(player) ==> neww.players == oldw.players,
    ensures
        neww == roster_without(oldw, player),
{
    if oldw.players.contains(player) {
        let i = choose|i: int|
            0 <= i < oldw.players.len() && oldw.players[i] == player && neww.players
                == oldw.players.remove(i);
        let j = choose|j: int| 0 <= j < oldw.players.len() && oldw.players[j] == player;
        if i != j {
            assert(oldw.players[i] != oldw.players[j]);
        }
        assert(neww.players == oldw.players.remove(j));
    }
}

} // verus!
