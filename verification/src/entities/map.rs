//! The map: its tiles, kept in square chunks, and the agents on them.

use crate::constants::MAX_VISIBLE_ITEMS;
use crate::entities::agent::{Agent, AgentBody, AgentKey, AgentView, BodyView};
use crate::entities::arena::{arena_agents, is_key, slot_of, AgentArena};
use crate::entities::item::{
    can_place, found_in, has_room_within, holding_in, index_in, index_view, item_views, parent_in,
    places, placing, put_within, removal, removal_within, remove_nested, removes, taken_at, Item,
    ItemView, PlaceError, RemovedItem,
};
use crate::entities::items::{FloorChangeDirection, ItemFlag, ItemGuid};
use crate::entities::player::Player;
use crate::entities::position::{Position, Rect};
use crate::entities::stacking::{lessened, stack_in, stacked, top_up_within, topped};
use crate::entities::tables::{chunks_in, positions_in, ChunkTable, PositionTable};
use crate::entities::tile_lists::{agents_in, items_in, TileAgents, TileItems};
use crate::sharing::{share, to_write};
use std::sync::Arc;
use vstd::prelude::*;

verus! {

/// Why the map refuses something.
#[derive(Debug, Clone, Copy, PartialEq, Eq, Structural)]
pub enum MapError {
    TileDoesNotExist,
    EntityNotInPosition,
    ContainerIsFull,
}

impl MapError {
    /// What is said about it.
    pub fn message(&self) -> (text: &'static str)
        ensures
            text@ == match *self {
                MapError::TileDoesNotExist => "Tile position does not exist"@,
                MapError::EntityNotInPosition => "Entity does not exist at this position"@,
                MapError::ContainerIsFull => "Container is full"@,
            },
    {
        match self {
            MapError::TileDoesNotExist => "Tile position does not exist",
            MapError::EntityNotInPosition => "Entity does not exist at this position",
            MapError::ContainerIsFull => "Container is full",
        }
    }
}

/// The columns and rows of a chunk.
pub const CHUNK_SIDE: u16 = 16;

/// The tiles of a chunk.
pub const CHUNK_AREA: usize = 256;

/// Which chunk of which floor.
#[derive(Debug, Clone, Copy, PartialEq, Eq, Hash, Structural)]
pub struct ChunkCoord {
    pub cx: u16,
    pub cy: u16,
    pub z: u8,
}

impl ChunkCoord {
    /// The chunk that a tile is in.
    pub open spec fn of(pos: Position) -> ChunkCoord {
        ChunkCoord { cx: pos.x / CHUNK_SIDE, cy: pos.y / CHUNK_SIDE, z: pos.z }
    }

    /// The chunk that a tile is in.
    pub fn from_pos(pos: &Position) -> (c: Self)
        ensures
            c == ChunkCoord::of(*pos),
    {
        ChunkCoord { cx: pos.x / CHUNK_SIDE, cy: pos.y / CHUNK_SIDE, z: pos.z }
    }

    /// The chunk is on one of the floors, and its columns and rows meet those of the rectangle.
    pub open spec fn meets(self, rect: Rect, floors: Seq<u8>) -> bool {
        &&& floors.contains(self.z)
        &&& rect.min_x / CHUNK_SIDE <= self.cx <= rect.max_x / CHUNK_SIDE
        &&& rect.min_y / CHUNK_SIDE <= self.cy <= rect.max_y / CHUNK_SIDE
    }

    /// Whether the chunk is on one of the floors, and its columns and rows meet those of the
    /// rectangle.
    pub fn overlaps(&self, rect: &Rect, floors: &[u8]) -> (r: bool)
        ensures
            r == self.meets(*rect, floors@),
    {
        let mut on_floor: bool = false;
        let mut i: usize = 0;
        while i < floors.len()
            invariant
                i <= floors@.len(),
                on_floor == exists|j: int| 0 <= j < i && #[trigger] floors@[j] == self.z,
            decreases floors.len() - i,
        {
            if floors[i] == self.z {
                on_floor = true;
            }
            i += 1;
        }
        assert(on_floor == floors@.contains(self.z));
        on_floor && rect.min_x / CHUNK_SIDE <= self.cx && self.cx <= rect.max_x / CHUNK_SIDE
            && rect.min_y / CHUNK_SIDE <= self.cy && self.cy <= rect.max_y / CHUNK_SIDE
    }

    /// The number under which a chunk is kept.
    pub open spec fn key(self) -> u64 {
        (self.cx * 0x100_0000 + self.cy * 0x100 + self.z) as u64
    }

    pub fn as_key(&self) -> (k: u64)
        ensures
            k == self.key(),
    {
        self.cx as u64 * 0x100_0000 + self.cy as u64 * 0x100 + self.z as u64
    }
}

/// The place in its chunk of the tile at column `lx` and row `ly` of it.
pub open spec fn spec_local_index_of(lx: u16, ly: u16) -> int {
    ly * 16 + lx
}

/// The place in its chunk of the tile at column `lx` and row `ly` of it.
pub fn local_index_of(lx: u16, ly: u16) -> (i: usize)
    ensures
        i == spec_local_index_of(lx, ly),
{
    (ly as u32 * 16 + lx as u32) as usize
}

/// A tile's place in its chunk.
pub open spec fn spec_local_index(pos: Position) -> int {
    spec_local_index_of(pos.x % CHUNK_SIDE, pos.y % CHUNK_SIDE)
}

/// A tile's place in its chunk.
pub fn local_index(pos: &Position) -> (i: usize)
    ensures
        i == spec_local_index(*pos),
        i < CHUNK_AREA,
{
    local_index_of(pos.x % CHUNK_SIDE, pos.y % CHUNK_SIDE)
}

/// No two tiles have the same place in the same chunk.
pub proof fn law_tiles_do_not_alias(a: Position, b: Position)
    requires
        ChunkCoord::of(a).key() == ChunkCoord::of(b).key(),
        spec_local_index(a) == spec_local_index(b),
    ensures
        a == b,
{
    lemma_chunk_keys_differ(ChunkCoord::of(a), ChunkCoord::of(b));
    lemma_local_index_splits(a.x % CHUNK_SIDE, a.y % CHUNK_SIDE, b.x % CHUNK_SIDE, b.y % CHUNK_SIDE);
    assert(a.x == 16 * (a.x / 16) + a.x % 16);
    assert(b.x == 16 * (b.x / 16) + b.x % 16);
    assert(a.y == 16 * (a.y / 16) + a.y % 16);
    assert(b.y == 16 * (b.y / 16) + b.y % 16);
}

/// No two chunks are kept under the same number.
pub proof fn lemma_chunk_keys_differ(a: ChunkCoord, b: ChunkCoord)
    requires
        a.key() == b.key(),
    ensures
        a == b,
{
}

proof fn lemma_local_index_splits(ax: u16, ay: u16, bx: u16, by: u16)
    requires
        ax < 16,
        ay < 16,
        bx < 16,
        by < 16,
        spec_local_index_of(ax, ay) == spec_local_index_of(bx, by),
    ensures
        ax == bx,
        ay == by,
{
}

/// What is on a tile.
#[derive(Debug)]
pub struct MapTile {
    items: TileItems,
    agents: TileAgents,
}

/// What is on a tile: its items from the ground up, and the agents in the order they came.
#[verifier::ext_equal]
pub struct TileView {
    pub items: Seq<ItemView>,
    pub agents: Seq<AgentKey>,
}

impl View for MapTile {
    type V = TileView;

    closed spec fn view(&self) -> TileView {
        TileView { items: item_views(items_in(self.items)), agents: agents_in(self.agents) }
    }
}

impl MapTile {
    pub fn new() -> (t: Self)
        ensures
            t@ == (TileView { items: Seq::empty(), agents: Seq::empty() }),
    {
        let t = MapTile { items: TileItems::new(), agents: TileAgents::new() };
        assert(t@ =~= TileView { items: Seq::empty(), agents: Seq::empty() });
        t
    }

    /// Puts an item on top of the others.
    pub fn push_item(&mut self, item: Item)
        ensures
            final(self)@ == (TileView { items: old(self)@.items.push(item@), ..old(self)@ }),
    {
        self.items.push(item);
        assert(self@ =~= TileView { items: old(self)@.items.push(item@), ..old(self)@ });
    }

    /// How many items are on the tile.
    pub fn item_count(&self) -> (n: usize)
        ensures
            n == self@.items.len(),
    {
        self.items.len()
    }

    /// The item at a place, from the ground up.
    pub fn item(&self, i: usize) -> (item: &Item)
        requires
            i < self@.items.len(),
        ensures
            item@ == self@.items[i as int],
    {
        self.items.at(i)
    }

    /// The items that a client is told of, from the ground up.
    pub fn visible_items(&self) -> (r: Vec<&Item>)
        ensures
            r@.len() == if self@.items.len() < MAX_VISIBLE_ITEMS {
                self@.items.len() as int
            } else {
                MAX_VISIBLE_ITEMS as int
            },
            forall|i: int| 0 <= i < r@.len() ==> (#[trigger] r@[i])@ == self@.items[i],
    {
        let mut r: Vec<&Item> = Vec::new();
        while r.len() < self.items.len() && r.len() < MAX_VISIBLE_ITEMS
            invariant
                r@.len() <= self@.items.len(),
                r@.len() <= MAX_VISIBLE_ITEMS,
                forall|i: int| 0 <= i < r@.len() ==> (#[trigger] r@[i])@ == self@.items[i],
            decreases self@.items.len() - r@.len(),
        {
            r.push(self.items.at(r.len()));
        }
        r
    }

    /// The same tile once more.
    fn copy(&self) -> (t: MapTile)
        ensures
            t@ == self@,
    {
        let mut t = MapTile::new();
        let mut i: usize = 0;
        while i < self.items.len()
            invariant
                i <= self@.items.len(),
                t@.items == self@.items.take(i as int),
                t@.agents == Seq::<AgentKey>::empty(),
            decreases self@.items.len() - i,
        {
            t.push_item(self.items.at(i).copy());
            i += 1;
            assert(t@.items =~= self@.items.take(i as int));
        }
        assert(t@.items =~= self@.items);
        let mut i: usize = 0;
        while i < self.agents.len()
            invariant
                i <= self@.agents.len(),
                t@.items == self@.items,
                t@.agents =~= self@.agents.take(i as int),
            decreases self@.agents.len() - i,
        {
            t.agents.push(self.agents.at(i));
            i += 1;
        }
        assert(t@ =~= self@);
        t
    }
}

impl Clone for MapTile {
    fn clone(&self) -> (t: Self)
        ensures
            t@ == self@,
    {
        self.copy()
    }
}

/// A square of tiles, some of which may not be there.
#[derive(Debug)]
pub struct Chunk {
    tiles: Vec<Option<Arc<MapTile>>>,
}

/// The tiles of a chunk, row by row.
pub open spec fn tile_views(tiles: Seq<Option<Arc<MapTile>>>) -> Seq<Option<TileView>> {
    Seq::new(
        tiles.len(),
        |i: int|
            match tiles[i] {
                Some(tile) => Some(tile@),
                None => None,
            },
    )
}

impl View for Chunk {
    type V = Seq<Option<TileView>>;

    closed spec fn view(&self) -> Seq<Option<TileView>> {
        tile_views(self.tiles@)
    }
}

/// `Arc::strong_count` on a chunk: how many hold it. That depends on which copies of the map are
/// still around.
#[verifier::external_body]
fn chunk_holders(chunk: &Arc<Chunk>) -> (n: usize)
    ensures
        n >= 1,
{
    Arc::strong_count(chunk)
}

impl Chunk {
    /// A chunk without a tile.
    fn new() -> (c: Self)
        ensures
            c@ == Seq::new(CHUNK_AREA as nat, |i: int| None::<TileView>),
    {
        let mut tiles: Vec<Option<Arc<MapTile>>> = Vec::new();
        let mut i: usize = 0;
        while i < CHUNK_AREA
            invariant
                i <= CHUNK_AREA,
                tiles@.len() == i,
                forall|j: int| 0 <= j < i ==> (#[trigger] tiles@[j]) is None,
            decreases CHUNK_AREA - i,
        {
            tiles.push(None);
            i += 1;
        }
        let c = Chunk { tiles };
        assert(c@ =~= Seq::new(CHUNK_AREA as nat, |i: int| None::<TileView>));
        c
    }

    /// The same chunk once more, holding the same tiles.
    fn copy(&self) -> (c: Chunk)
        ensures
            c@ == self@,
    {
        let mut tiles: Vec<Option<Arc<MapTile>>> = Vec::new();
        let mut i: usize = 0;
        while i < self.tiles.len()
            invariant
                i <= self.tiles@.len(),
                tile_views(tiles@) == self@.take(i as int),
            decreases self.tiles.len() - i,
        {
            let tile: Option<Arc<MapTile>> = match &self.tiles[i] {
                Some(tile) => Some(share(tile)),
                None => None,
            };
            let ghost before = tile_views(tiles@);
            let ghost seen = tile_views(seq![tile])[0];
            tiles.push(tile);
            assert(tile_views(tiles@) =~= before.push(seen));
            assert(self@[i as int] == seen);
            assert(self@.take(i + 1) =~= self@.take(i as int).push(self@[i as int]));
            i += 1;
        }
        let c = Chunk { tiles };
        assert(c@ =~= self@);
        c
    }
}

impl Clone for Chunk {
    fn clone(&self) -> (c: Self)
        ensures
            c@ == self@,
    {
        self.copy()
    }
}

/// The map as its tiles, its agents and their places.
#[verifier::ext_equal]
pub struct MapView {
    pub tiles: Map<Position, TileView>,
    /// The agents, by key.
    pub agents: Map<u64, AgentView>,
    /// Where each agent stands, by its key.
    pub positions: Map<u64, Position>,
}

/// Between the two no more than `n` chunks had to be copied. How many were depends on which copies
/// of the map are still around.
pub open spec fn copied_at_most(before: GameMap, after: GameMap, n: int) -> bool {
    before.copies() <= after.copies() <= before.copies() + n
}

pub struct GameMap {
    chunks: ChunkTable,
    agents: AgentArena,
    agent_positions: PositionTable,
    chunk_copies: u64,
}

/// The agents' views.
pub open spec fn agent_views(agents: Map<u64, Agent>) -> Map<u64, AgentView> {
    Map::new(|key: u64| agents.contains_key(key), |key: u64| agents[key]@)
}

impl View for GameMap {
    type V = MapView;

    closed spec fn view(&self) -> MapView {
        MapView {
            tiles: Map::new(|p: Position| self.has(p), |p: Position| self.tile(p)),
            agents: agent_views(arena_agents(self.agents)),
            positions: positions_in(self.agent_positions),
        }
    }
}

/// The map with `tile` at `pos`.
pub open spec fn with_tile(m: MapView, pos: Position, tile: TileView) -> MapView {
    MapView { tiles: m.tiles.insert(pos, tile), ..m }
}

/// The map with an agent changed.
pub open spec fn with_agent(m: MapView, key: AgentKey, agent: AgentView) -> MapView {
    MapView { agents: m.agents.insert(key.0, agent), ..m }
}

/// The list without the first occurrence of `key`.
pub open spec fn left_by(agents: Seq<AgentKey>, key: AgentKey) -> Seq<AgentKey> {
    if agents.contains(key) {
        agents.remove(agents.index_of_first(key)->0)
    } else {
        agents
    }
}

/// The map after an agent left the tile at `pos`.
pub open spec fn tile_left(m: MapView, pos: Position, key: AgentKey) -> MapView {
    if m.tiles.contains_key(pos) {
        with_tile(
            m,
            pos,
            TileView { agents: left_by(m.tiles[pos].agents, key), ..m.tiles[pos] },
        )
    } else {
        m
    }
}

/// The map after an agent came onto the tile at `pos`.
pub open spec fn tile_entered(m: MapView, pos: Position, key: AgentKey) -> MapView {
    with_tile(m, pos, TileView { agents: m.tiles[pos].agents.push(key), ..m.tiles[pos] })
}

impl GameMap {
    spec fn has(&self, p: Position) -> bool {
        &&& chunks_in(self.chunks).contains_key(ChunkCoord::of(p).key())
        &&& chunks_in(self.chunks)[ChunkCoord::of(p).key()]@[spec_local_index(p)] is Some
    }

    spec fn tile(&self, p: Position) -> TileView {
        chunks_in(self.chunks)[ChunkCoord::of(p).key()]@[spec_local_index(p)]->0
    }

    /// Chunks have all their places, and agents keep to their rules and have keys.
    pub closed spec fn wf(&self) -> bool {
        &&& forall|k: u64| #[trigger]
            chunks_in(self.chunks).contains_key(k) ==> chunks_in(self.chunks)[k]@.len()
                == CHUNK_AREA
        &&& forall|k: u64| #[trigger]
            arena_agents(self.agents).contains_key(k) ==> is_key(k) && arena_agents(
                self.agents,
            )[k].wf()
    }

    pub fn new() -> (m: Self)
        ensures
            m.copies() == 0,
            m.wf(),
            m@.tiles =~= Map::empty(),
            m@.agents =~= Map::empty(),
            m@.positions =~= Map::empty(),
    {
        GameMap {
            chunks: ChunkTable::new(),
            agents: AgentArena::new(),
            agent_positions: PositionTable::new(),
            chunk_copies: 0,
        }
    }

    /// Puts a tile on the map, in the place of any that was there.
    pub fn insert_tile(&mut self, pos: Position, tile: MapTile)
        requires
            old(self).wf(),
        ensures
            final(self).copies() == old(self).copies(),
            final(self).wf(),
            final(self)@.tiles =~= old(self)@.tiles.insert(pos, tile@),
            final(self)@.agents == old(self)@.agents,
            final(self)@.positions == old(self)@.positions,
    {
        let key: u64 = ChunkCoord::from_pos(&pos).as_key();
        let idx: usize = local_index(&pos);
        if self.chunks.get(key).is_none() {
            let fresh = Arc::new(Chunk::new());
            assert(fresh@.len() == CHUNK_AREA);
            self.chunks.insert(key, fresh);
            assert forall|p: Position| #[trigger] self.has(p) == old(self).has(p) by {
                if ChunkCoord::of(p).key() == key {
                    assert(fresh@[spec_local_index(p)] is None);
                }
            }
        }
        let ghost before = *self;
        assert(chunks_in(self.chunks)[key]@.len() == CHUNK_AREA);
        if let Some(chunk) = self.chunks.get_mut(key) {
            let chunk = to_write(chunk);
            chunk.tiles[idx] = Some(Arc::new(tile));
        }
        assert forall|p: Position| p != pos implies (#[trigger] self.has(p) == old(self).has(p) && (
        self.has(p) ==> self.tile(p) == old(self).tile(p))) by {
            assert(before.has(p) == old(self).has(p));
            if ChunkCoord::of(p).key() == key && spec_local_index(p) == idx {
                law_tiles_do_not_alias(p, pos);
            }
        }
    }

    /// Whether there is a tile.
    pub fn contains_tile(&self, pos: &Position) -> (r: bool)
        requires
            self.wf(),
        ensures
            r == self@.tiles.contains_key(*pos),
    {
        self.get_tile(pos).is_ok()
    }

    /// How many chunks had to be copied for a change since the last call, because a copy of the
    /// map still held them.
    pub fn take_chunk_copies(&mut self) -> (n: u64)
        requires
            old(self).wf(),
        ensures
            final(self).wf(),
            final(self)@ == old(self)@,
            n == old(self).copies(),
            final(self).copies() == 0,
    {
        let n: u64 = self.chunk_copies;
        self.chunk_copies = 0;
        n
    }

    /// How many chunks had to be copied since that was last asked.
    pub closed spec fn copies(&self) -> u64 {
        self.chunk_copies
    }

    /// The tile at `pos`, to be changed in its place.
    fn get_tile_mut(&mut self, pos: &Position) -> (r: Result<&mut MapTile, MapError>)
        requires
            old(self).wf(),
        ensures
            final(self).wf(),
            copied_at_most(*old(self), *final(self), 1),
            final(self)@.agents == old(self)@.agents,
            final(self)@.positions == old(self)@.positions,
            match r {
                Ok(tile) => {
                    &&& old(self)@.tiles.contains_key(*pos)
                    &&& tile@ == old(self)@.tiles[*pos]
                    &&& final(self)@.tiles =~= old(self)@.tiles.insert(*pos, final(tile)@)
                },
                Err(error) => {
                    &&& error == MapError::TileDoesNotExist
                    &&& !old(self)@.tiles.contains_key(*pos)
                    &&& final(self)@.tiles =~= old(self)@.tiles
                },
            },
    {
        let idx: usize = local_index(pos);
        let key: u64 = ChunkCoord::from_pos(pos).as_key();
        proof {
            assert forall|p: Position|
                #![trigger ChunkCoord::of(p)]
                ChunkCoord::of(p).key() == key && spec_local_index(p) == idx implies p == *pos by {
                law_tiles_do_not_alias(p, *pos);
            }
        }
        match self.chunks.get_mut(key) {
            None => Err(MapError::TileDoesNotExist),
            Some(chunk) => {
                if chunk_holders(chunk) > 1 {
                    self.chunk_copies = self.chunk_copies.saturating_add(1);
                }
                let chunk = to_write(chunk);
                match &mut chunk.tiles[idx] {
                    Some(tile) => Ok(to_write(tile)),
                    None => Err(MapError::TileDoesNotExist),
                }
            },
        }
    }

    /// The tile at `pos`.
    pub fn get_tile(&self, pos: &Position) -> (r: Result<&MapTile, MapError>)
        requires
            self.wf(),
        ensures
            match r {
                Ok(tile) => self@.tiles.contains_key(*pos) && tile@ == self@.tiles[*pos],
                Err(error) => error == MapError::TileDoesNotExist && !self@.tiles.contains_key(*pos),
            },
    {
        let idx: usize = local_index(pos);
        match self.chunks.get(ChunkCoord::from_pos(pos).as_key()) {
            None => Err(MapError::TileDoesNotExist),
            Some(chunk) => match &chunk.tiles[idx] {
                Some(tile) => Ok(tile),
                None => Err(MapError::TileDoesNotExist),
            },
        }
    }
}

/// Where `key` stands in the list.
fn index_of(agents: &TileAgents, key: AgentKey) -> (r: Option<usize>)
    ensures
        match r {
            Some(i) => {
                &&& i < agents_in(*agents).len()
                &&& agents_in(*agents).contains(key)
                &&& agents_in(*agents).index_of_first(key) == Some(i as int)
            },
            None => !agents_in(*agents).contains(key),
        },
{
    let ghost all = agents_in(*agents);
    let mut i: usize = 0;
    while i < agents.len()
        invariant
            i <= all.len(),
            all == agents_in(*agents),
            forall|j: int| 0 <= j < i ==> #[trigger] all[j] != key,
        decreases all.len() - i,
    {
        if agents.at(i) == key {
            proof {
                all.index_of_first_ensures(key);
                let first = all.index_of_first(key)->0;
                assert(all[i as int] == key);
            }
            return Some(i);
        }
        i += 1;
    }
    None
}

impl MapTile {
    /// How many agents are on the tile.
    pub fn agent_count(&self) -> (n: usize)
        ensures
            n == self@.agents.len(),
    {
        self.agents.len()
    }

    /// The agent at a place, in the order they came.
    pub fn agent(&self, i: usize) -> (key: AgentKey)
        requires
            i < self@.agents.len(),
        ensures
            key == self@.agents[i as int],
    {
        self.agents.at(i)
    }

    fn enter(&mut self, key: AgentKey)
        ensures
            final(self)@ == (TileView { agents: old(self)@.agents.push(key), ..old(self)@ }),
    {
        self.agents.push(key);
    }

    fn leave(&mut self, key: AgentKey)
        ensures
            final(self)@ == (TileView { agents: left_by(old(self)@.agents, key), ..old(self)@ }),
    {
        if let Some(i) = index_of(&self.agents, key) {
            let _gone = self.agents.remove(i);
        }
    }

    /// Whether an item on the tile has the flag.
    pub fn any_flagged(&self, flag: ItemFlag) -> (r: bool)
        ensures
            r == any_flagged(self@.items, flag),
    {
        let mut i: usize = 0;
        while i < self.items.len()
            invariant
                i <= self@.items.len(),
                forall|j: int| 0 <= j < i ==> !(#[trigger] self@.items[j]).config.flagged(flag),
            decreases self@.items.len() - i,
        {
            if self.item(i).config.has_flag(flag) {
                return true;
            }
            i += 1;
        }
        false
    }
}

/// An item has the flag.
pub open spec fn any_flagged(items: Seq<ItemView>, flag: ItemFlag) -> bool {
    exists|i: int| 0 <= i < items.len() && (#[trigger] items[i]).config.flagged(flag)
}

/// The friction of the first item from `i` on that has one.
pub open spec fn friction_in(items: Seq<ItemView>, i: int) -> Option<u16>
    decreases items.len() - i,
{
    if i < 0 || i >= items.len() {
        None
    } else if items[i].config.tile_friction() is Some {
        items[i].config.tile_friction()
    } else {
        friction_in(items, i + 1)
    }
}

/// The floor change of the first item from `i` on that has one.
pub open spec fn floor_change_in(items: Seq<ItemView>, i: int) -> Option<FloorChangeDirection>
    decreases items.len() - i,
{
    if i < 0 || i >= items.len() {
        None
    } else if items[i].config.floor_change() is Some {
        items[i].config.floor_change()
    } else {
        floor_change_in(items, i + 1)
    }
}

/// The floor change at a tile.
pub open spec fn floor_change_at(m: MapView, pos: Position) -> Option<FloorChangeDirection> {
    if m.tiles.contains_key(pos) {
        floor_change_in(m.tiles[pos].items, 0)
    } else {
        None
    }
}

/// The agent can step onto the tile: there is ground, nothing is in the way, nobody stands there,
/// and for a creature it leads nowhere and is nothing to keep away from.
pub open spec fn enterable(m: MapView, pos: Position, key: AgentKey) -> bool {
    &&& m.tiles.contains_key(pos)
    &&& any_flagged(m.tiles[pos].items, ItemFlag::Ground)
    &&& !any_flagged(m.tiles[pos].items, ItemFlag::Unpass)
    &&& m.tiles[pos].agents.len() == 0
    &&& (m.agents.contains_key(key.0) && m.agents[key.0].body is Creature) ==> {
        &&& floor_change_at(m, pos) is None
        &&& !any_flagged(m.tiles[pos].items, ItemFlag::Avoid)
    }
}

impl GameMap {
    /// Puts an agent on a tile, and says under which key it is known from now on.
    pub fn insert_agent(&mut self, agent: Agent, pos: &Position) -> (r: Result<AgentKey, MapError>)
        requires
            old(self).wf(),
            agent.wf(),
            old(self)@.agents.dom().len() < 0xFFFF_FFFE,
        ensures
            copied_at_most(*old(self), *final(self), 1),
            r is Err ==> final(self).copies() == old(self).copies(),
            final(self).wf(),
            match r {
                Ok(key) => {
                    &&& old(self)@.tiles.contains_key(*pos)
                    &&& is_key(key.0)
                    &&& !old(self)@.agents.contains_key(key.0)
                    &&& final(self)@.tiles == tile_entered(old(self)@, *pos, key).tiles
                    &&& final(self)@.agents =~= old(self)@.agents.insert(key.0, agent@)
                    &&& final(self)@.positions == old(self)@.positions.insert(key.0, *pos)
                },
                Err(error) => {
                    &&& error == MapError::TileDoesNotExist
                    &&& !old(self)@.tiles.contains_key(*pos)
                    &&& final(self)@ == old(self)@
                },
            },
    {
        if !self.contains_tile(pos) {
            return Err(MapError::TileDoesNotExist);
        }
        assert(agent_views(arena_agents(self.agents)).dom() =~= arena_agents(self.agents).dom());
        let key = AgentKey(self.agents.insert(agent));
        assert(self@.tiles =~= old(self)@.tiles);
        if let Ok(tile) = self.get_tile_mut(pos) {
            tile.enter(key);
        }
        self.agent_positions.insert(key.0, *pos);
        assert(self@.tiles =~= tile_entered(old(self)@, *pos, key).tiles);
        Ok(key)
    }

    /// Takes an agent off the map, with the tile it stood on.
    pub fn remove_agent(&mut self, key: AgentKey) -> (r: Option<(Agent, Position)>)
        requires
            old(self).wf(),
        ensures
            copied_at_most(*old(self), *final(self), 1),
            !old(self)@.positions.contains_key(key.0) ==> final(self).copies() == old(self).copies(),
            final(self).wf(),
            r is Some <==> old(self)@.positions.contains_key(key.0) && old(self)@.agents.contains_key(key.0),
            r matches Some((agent, pos)) ==> agent@ == old(self)@.agents[key.0] && pos == old(self)@.positions[key.0],
            old(self)@.positions.contains_key(key.0) ==> {
                &&& final(self)@.positions == old(self)@.positions.remove(key.0)
                &&& final(self)@.agents =~= old(self)@.agents.remove(key.0)
                &&& final(self)@.tiles =~= tile_left(
                    old(self)@,
                    old(self)@.positions[key.0],
                    key,
                ).tiles
            },
            !old(self)@.positions.contains_key(key.0) ==> final(self)@ =~= old(self)@,
    {
        let pos: Position = match self.agent_positions.remove(key.0) {
            Some(pos) => pos,
            None => {
                assert(self@ =~= old(self)@);
                return None;
            },
        };
        assert(self@.tiles =~= old(self)@.tiles);
        if let Ok(tile) = self.get_tile_mut(&pos) {
            tile.leave(key);
        }
        assert(self@.tiles =~= tile_left(old(self)@, pos, key).tiles);
        let ghost left = *self;
        if !is_arena_key(key.0) {
            assert(!arena_agents(self.agents).contains_key(key.0));
            return None;
        }
        match self.agents.remove(key.0) {
            Some(agent) => {
                assert(self@.tiles =~= left@.tiles);
                Some((agent, pos))
            },
            None => {
                assert(self@.tiles =~= left@.tiles);
                None
            },
        }
    }

    /// Moves an agent to another tile. It has left its tile by the time the other one is looked
    /// for: where that is not there, the agent is on no tile.
    pub fn move_agent(&mut self, key: AgentKey, new_pos: &Position) -> (r: Result<(), MapError>)
        requires
            old(self).wf(),
        ensures
            copied_at_most(*old(self), *final(self), 2),
            !old(self)@.positions.contains_key(key.0) ==> final(self).copies() == old(self).copies(),
            final(self).wf(),
            final(self)@.agents == old(self)@.agents,
            ({
                let m = old(self)@;
                if !m.positions.contains_key(key.0) {
                    &&& r == Err::<(), MapError>(MapError::EntityNotInPosition)
                    &&& final(self)@ == m
                } else if !m.tiles.contains_key(m.positions[key.0]) {
                    &&& r == Err::<(), MapError>(MapError::TileDoesNotExist)
                    &&& final(self)@ =~= m
                } else {
                    let left = tile_left(m, m.positions[key.0], key);
                    if !m.tiles.contains_key(*new_pos) {
                        &&& r == Err::<(), MapError>(MapError::TileDoesNotExist)
                        &&& final(self)@ =~= left
                    } else {
                        &&& r == Ok::<(), MapError>(())
                        &&& final(self)@.tiles =~= tile_entered(left, *new_pos, key).tiles
                        &&& final(self)@.positions == m.positions.insert(key.0, *new_pos)
                    }
                }
            }),
    {
        let old_pos: Position = match self.agent_positions.get(key.0) {
            Some(pos) => *pos,
            None => return Err(MapError::EntityNotInPosition),
        };
        match self.get_tile_mut(&old_pos) {
            Ok(tile) => tile.leave(key),
            Err(error) => return Err(error),
        }
        let ghost left = self@;
        match self.get_tile_mut(new_pos) {
            Ok(tile) => tile.enter(key),
            Err(error) => return Err(error),
        }
        let ghost entered = self@;
        self.agent_positions.insert(key.0, *new_pos);
        assert(self@.tiles =~= entered.tiles);
        Ok(())
    }

    /// Where an agent stands.
    pub fn agent_position(&self, key: AgentKey) -> (r: Option<Position>)
        ensures
            match r {
                Some(pos) => self@.positions.contains_key(key.0) && pos == self@.positions[key.0],
                None => !self@.positions.contains_key(key.0),
            },
    {
        match self.agent_positions.get(key.0) {
            Some(pos) => Some(*pos),
            None => None,
        }
    }

    /// The agent with this key.
    pub fn get_agent(&self, key: AgentKey) -> (r: Option<&Agent>)
        requires
            self.wf(),
        ensures
            match r {
                Some(agent) => {
                    &&& self@.agents.contains_key(key.0)
                    &&& agent@ == self@.agents[key.0]
                    &&& agent.wf()
                },
                None => !self@.agents.contains_key(key.0),
            },
    {
        if !is_arena_key(key.0) {
            return None;
        }
        self.agents.get(key.0)
    }

    /// The agent with this key, to be changed in its place.
    pub fn get_agent_mut(&mut self, key: AgentKey) -> (r: Option<&mut Agent>)
        requires
            old(self).wf(),
        ensures
            final(self).copies() == old(self).copies(),
            final(self)@.tiles == old(self)@.tiles,
            final(self)@.positions == old(self)@.positions,
            match r {
                Some(agent) => {
                    &&& old(self)@.agents.contains_key(key.0)
                    &&& agent@ == old(self)@.agents[key.0]
                    &&& agent.wf()
                    &&& final(self)@.agents =~= old(self)@.agents.insert(key.0, final(agent)@)
                    &&& final(agent).wf() ==> final(self).wf()
                },
                None => {
                    &&& !old(self)@.agents.contains_key(key.0)
                    &&& final(self)@.agents == old(self)@.agents
                    &&& final(self).wf()
                },
            },
    {
        if !is_arena_key(key.0) {
            return None;
        }
        self.agents.get_mut(key.0)
    }

    /// The player with this key.
    pub fn get_player(&self, key: AgentKey) -> (r: Option<&Player>)
        requires
            self.wf(),
        ensures
            match r {
                Some(player) => {
                    &&& self@.agents.contains_key(key.0)
                    &&& self@.agents[key.0].body matches BodyView::Player(p)
                    &&& p == player@
                },
                None => !is_player(self@, key),
            },
    {
        match self.get_agent(key) {
            Some(agent) => agent.get_player(),
            None => None,
        }
    }

    /// The keys of all agents, each once.
    pub fn iter_agents(&self) -> (keys: Vec<AgentKey>)
        requires
            self.wf(),
        ensures
            keys@.no_duplicates(),
            forall|key: AgentKey| keys@.contains(key) <==> self@.agents.contains_key(key.0),
            forall|i: int, j: int|
                0 <= i < j < keys@.len() ==> slot_of((#[trigger] keys@[i]).0) < slot_of(
                    (#[trigger] keys@[j]).0,
                ),
    {
        let raw = self.agents.keys();
        let mut keys: Vec<AgentKey> = Vec::new();
        let mut i: usize = 0;
        while i < raw.len()
            invariant
                i <= raw@.len(),
                keys@.len() == i,
                forall|j: int| 0 <= j < i ==> #[trigger] keys@[j] == AgentKey(raw@[j]),
            decreases raw.len() - i,
        {
            keys.push(AgentKey(raw[i]));
            i += 1;
        }
        assert forall|key: AgentKey| keys@.contains(key) <==> self@.agents.contains_key(key.0) by {
            if raw@.contains(key.0) {
                let j = choose|j: int| 0 <= j < raw@.len() && raw@[j] == key.0;
                assert(keys@[j] == key);
            }
            if keys@.contains(key) {
                let j = choose|j: int| 0 <= j < keys@.len() && keys@[j] == key;
                assert(raw@[j] == key.0);
            }
        }
        keys
    }

    /// Whether an agent can step onto a tile.
    pub fn can_move(&self, pos: &Position, agent_key: AgentKey) -> (r: bool)
        requires
            self.wf(),
        ensures
            r == enterable(self@, *pos, agent_key),
    {
        let tile = match self.get_tile(pos) {
            Ok(tile) => tile,
            Err(_) => return false,
        };
        if !tile.any_flagged(ItemFlag::Ground) {
            return false;
        }
        if tile.any_flagged(ItemFlag::Unpass) {
            return false;
        }
        if tile.agent_count() > 0 {
            return false;
        }
        if let Some(agent) = self.get_agent(agent_key) {
            if agent.is_creature() {
                if self.get_floor_change(pos).is_some() {
                    return false;
                }
                if tile.any_flagged(ItemFlag::Avoid) {
                    return false;
                }
            }
        }
        true
    }

    /// Whether a throw can pass the tile: nothing on it is in the way, or there is no tile.
    pub fn has_sight(&self, pos: &Position) -> (r: bool)
        requires
            self.wf(),
        ensures
            r == (self@.tiles.contains_key(*pos) ==> !any_flagged(
                self@.tiles[*pos].items,
                ItemFlag::Unpass,
            )),
    {
        match self.get_tile(pos) {
            Ok(tile) => !tile.any_flagged(ItemFlag::Unpass),
            Err(_) => true,
        }
    }

    /// How much a tile slows a walker down.
    pub fn tile_friction(&self, pos: &Position) -> (r: Option<u16>)
        requires
            self.wf(),
        ensures
            r == (if self@.tiles.contains_key(*pos) {
                friction_in(self@.tiles[*pos].items, 0)
            } else {
                None
            }),
    {
        let tile = match self.get_tile(pos) {
            Ok(tile) => tile,
            Err(_) => return None,
        };
        let mut i: usize = 0;
        while i < tile.item_count()
            invariant
                i <= tile@.items.len(),
                self@.tiles.contains_key(*pos),
                tile@ == self@.tiles[*pos],
                friction_in(tile@.items, 0) == friction_in(tile@.items, i as int),
            decreases tile@.items.len() - i,
        {
            let friction = tile.item(i).config.attr_tile_friction();
            if friction.is_some() {
                return friction;
            }
            i += 1;
        }
        None
    }

    /// Where stepping on a tile leads.
    pub fn get_floor_change(&self, pos: &Position) -> (r: Option<FloorChangeDirection>)
        requires
            self.wf(),
        ensures
            r == floor_change_at(self@, *pos),
    {
        let tile = match self.get_tile(pos) {
            Ok(tile) => tile,
            Err(_) => return None,
        };
        let mut i: usize = 0;
        while i < tile.item_count()
            invariant
                i <= tile@.items.len(),
                self@.tiles.contains_key(*pos),
                tile@ == self@.tiles[*pos],
                floor_change_in(tile@.items, 0) == floor_change_in(tile@.items, i as int),
            decreases tile@.items.len() - i,
        {
            let change = tile.item(i).config.attr_floor_change();
            if change.is_some() {
                return change;
            }
            i += 1;
        }
        None
    }

    /// The topmost item of a tile.
    pub fn get_top_item(&self, pos: &Position) -> (r: Option<&Item>)
        requires
            self.wf(),
        ensures
            match r {
                Some(item) => {
                    &&& self@.tiles.contains_key(*pos)
                    &&& self@.tiles[*pos].items.len() > 0
                    &&& item@ == self@.tiles[*pos].items.last()
                },
                None => self@.tiles.contains_key(*pos) ==> self@.tiles[*pos].items.len() == 0,
            },
    {
        match self.get_tile(pos) {
            Ok(tile) => {
                let n: usize = tile.item_count();
                if n > 0 {
                    Some(tile.item(n - 1))
                } else {
                    None
                }
            },
            Err(_) => None,
        }
    }

    /// The item at a place of a tile, from the ground up.
    pub fn get_item_at(&self, pos: &Position, index: usize) -> (r: Option<&Item>)
        requires
            self.wf(),
        ensures
            match r {
                Some(item) => {
                    &&& self@.tiles.contains_key(*pos)
                    &&& index < self@.tiles[*pos].items.len()
                    &&& item@ == self@.tiles[*pos].items[index as int]
                },
                None => self@.tiles.contains_key(*pos) ==> index >= self@.tiles[*pos].items.len(),
            },
    {
        match self.get_tile(pos) {
            Ok(tile) => {
                if index < tile.item_count() {
                    Some(tile.item(index))
                } else {
                    None
                }
            },
            Err(_) => None,
        }
    }

    /// Whether an item can be dropped on a tile.
    pub fn can_drop_item(&self, pos: &Position) -> (r: bool)
        requires
            self.wf(),
        ensures
            r == (self@.tiles.contains_key(*pos) && any_flagged(
                self@.tiles[*pos].items,
                ItemFlag::FullBank,
            ) && !any_flagged(self@.tiles[*pos].items, ItemFlag::Bottom)),
    {
        match self.get_tile(pos) {
            Ok(tile) => {
                tile.any_flagged(ItemFlag::FullBank) && !tile.any_flagged(ItemFlag::Bottom)
            },
            Err(_) => false,
        }
    }
}

/// The agent with this key is a player.
pub open spec fn is_player(m: MapView, key: AgentKey) -> bool {
    m.agents.contains_key(key.0) && m.agents[key.0].body is Player
}

fn is_arena_key(n: u64) -> (r: bool)
    ensures
        r == is_key(n),
{
    (n / 0x1_0000_0000) % 2 == 1
}

pub open spec fn lower(a: int, b: int) -> int {
    if a <= b {
        a
    } else {
        b
    }
}

pub open spec fn higher(a: int, b: int) -> int {
    if a >= b {
        a
    } else {
        b
    }
}

/// The columns of a rectangle that lie in chunk column `cx`, from the first to behind the last.
pub open spec fn columns(rect: Rect, cx: int) -> (int, int) {
    (higher(rect.min_x as int, cx * 16), lower(rect.max_x as int, cx * 16 + 15) + 1)
}

/// The rows of a rectangle that lie in chunk row `cy`, from the first to behind the last.
pub open spec fn rows(rect: Rect, cy: int) -> (int, int) {
    (higher(rect.min_y as int, cy * 16), lower(rect.max_y as int, cy * 16 + 15) + 1)
}

/// The tiles of row `y` from column `from` to before column `to`, west to east.
pub open spec fn tiles_of_row(from: int, to: int, y: int, z: u8) -> Seq<Position> {
    Seq::new(
        if to < from {
            0
        } else {
            (to - from) as nat
        },
        |i: int| Position { x: (from + i) as u16, y: y as u16, z },
    )
}

/// The tiles of a rectangle in one chunk, row by row, up to before row `y`.
pub open spec fn tiles_of_chunk(rect: Rect, z: u8, cx: int, cy: int, y: int) -> Seq<Position>
    decreases y - rows(rect, cy).0,
{
    if y <= rows(rect, cy).0 {
        Seq::empty()
    } else {
        tiles_of_chunk(rect, z, cx, cy, y - 1) + tiles_of_row(
            columns(rect, cx).0,
            columns(rect, cx).1,
            y - 1,
            z,
        )
    }
}

/// The tiles of a rectangle in chunk row `cy`, chunk by chunk, up to before chunk column `cx`.
pub open spec fn tiles_of_chunk_row(rect: Rect, z: u8, cy: int, cx: int) -> Seq<Position>
    decreases cx - rect.min_x / 16,
{
    if cx <= rect.min_x / 16 {
        Seq::empty()
    } else {
        tiles_of_chunk_row(rect, z, cy, cx - 1) + tiles_of_chunk(
            rect,
            z,
            cx - 1,
            cy,
            rows(rect, cy).1,
        )
    }
}

/// The tiles of a rectangle, chunk row by chunk row, up to before chunk row `cy`.
pub open spec fn tiles_of_chunk_rows(rect: Rect, z: u8, cy: int) -> Seq<Position>
    decreases cy - rect.min_y / 16,
{
    if cy <= rect.min_y / 16 {
        Seq::empty()
    } else {
        tiles_of_chunk_rows(rect, z, cy - 1) + tiles_of_chunk_row(
            rect,
            z,
            cy - 1,
            rect.max_x / 16 + 1,
        )
    }
}

/// The tiles of a rectangle in the order in which the map is swept.
pub open spec fn sweep(rect: Rect, z: u8) -> Seq<Position> {
    tiles_of_chunk_rows(rect, z, rect.max_y / 16 + 1)
}

proof fn lemma_concat(a: Seq<Position>, b: Seq<Position>)
    requires
        a.no_duplicates(),
        b.no_duplicates(),
        forall|p: Position| !(#[trigger] a.contains(p) && b.contains(p)),
    ensures
        (a + b).no_duplicates(),
        forall|p: Position| #[trigger] (a + b).contains(p) <==> a.contains(p) || b.contains(p),
{
    let c = a + b;
    assert forall|p: Position| #[trigger] c.contains(p) <==> a.contains(p) || b.contains(p) by {
        if a.contains(p) {
            let i = choose|i: int| 0 <= i < a.len() && a[i] == p;
            assert(c[i] == p);
        }
        if b.contains(p) {
            let i = choose|i: int| 0 <= i < b.len() && b[i] == p;
            assert(c[a.len() + i] == p);
        }
        if c.contains(p) {
            let i = choose|i: int| 0 <= i < c.len() && c[i] == p;
            if i < a.len() {
                assert(a[i] == p);
            } else {
                assert(b[i - a.len()] == p);
            }
        }
    }
    assert forall|i: int, j: int| 0 <= i < c.len() && 0 <= j < c.len() && i != j implies c[i]
        != c[j] by {
        if i < a.len() && j < a.len() {
            assert(a[i] != a[j]);
        } else if i >= a.len() && j >= a.len() {
            assert(b[i - a.len()] != b[j - a.len()]);
        } else if i < a.len() {
            assert(a.contains(a[i]));
            assert(b.contains(b[j - a.len()]));
        } else {
            assert(a.contains(a[j]));
            assert(b.contains(b[i - a.len()]));
        }
    }
}

proof fn lemma_tiles_of_row(from: int, to: int, y: int, z: u8)
    requires
        0 <= from,
        to <= 65536,
        0 <= y <= 65535,
    ensures
        tiles_of_row(from, to, y, z).no_duplicates(),
        forall|p: Position| #[trigger]
            tiles_of_row(from, to, y, z).contains(p) <==> p.z == z && p.y == y && from <= p.x < to,
{
    let s = tiles_of_row(from, to, y, z);
    assert forall|p: Position| #[trigger] s.contains(p) <==> p.z == z && p.y == y && from <= p.x
        < to by {
        if p.z == z && p.y == y && from <= p.x < to {
            assert(s[p.x - from] == p);
        }
    }
}

proof fn lemma_tiles_of_chunk(rect: Rect, z: u8, cx: int, cy: int, y: int)
    requires
        0 <= cx <= 4095,
        0 <= cy <= 4095,
        y <= rows(rect, cy).1,
    ensures
        tiles_of_chunk(rect, z, cx, cy, y).no_duplicates(),
        forall|p: Position| #[trigger]
            tiles_of_chunk(rect, z, cx, cy, y).contains(p) <==> p.z == z && rows(rect, cy).0 <= p.y
                < y && columns(rect, cx).0 <= p.x < columns(rect, cx).1,
    decreases y - rows(rect, cy).0,
{
    if y > rows(rect, cy).0 {
        lemma_tiles_of_chunk(rect, z, cx, cy, y - 1);
        lemma_tiles_of_row(columns(rect, cx).0, columns(rect, cx).1, y - 1, z);
        lemma_concat(
            tiles_of_chunk(rect, z, cx, cy, y - 1),
            tiles_of_row(columns(rect, cx).0, columns(rect, cx).1, y - 1, z),
        );
    }
}

proof fn lemma_tiles_of_chunk_row(rect: Rect, z: u8, cy: int, cx: int)
    requires
        0 <= cy <= 4095,
        cx <= rect.max_x / 16 + 1,
    ensures
        tiles_of_chunk_row(rect, z, cy, cx).no_duplicates(),
        forall|p: Position| #[trigger]
            tiles_of_chunk_row(rect, z, cy, cx).contains(p) <==> p.z == z && rows(rect, cy).0 <= p.y
                < rows(rect, cy).1 && rect.min_x <= p.x <= rect.max_x && p.x / 16 < cx,
    decreases cx - rect.min_x / 16,
{
    if cx > rect.min_x / 16 {
        lemma_tiles_of_chunk_row(rect, z, cy, cx - 1);
        lemma_tiles_of_chunk(rect, z, cx - 1, cy, rows(rect, cy).1);
        let a = tiles_of_chunk_row(rect, z, cy, cx - 1);
        let b = tiles_of_chunk(rect, z, cx - 1, cy, rows(rect, cy).1);
        assert forall|p: Position| !(#[trigger] a.contains(p) && b.contains(p)) by {}
        lemma_concat(a, b);
    }
}

proof fn lemma_tiles_of_chunk_rows(rect: Rect, z: u8, cy: int)
    requires
        cy <= rect.max_y / 16 + 1,
    ensures
        tiles_of_chunk_rows(rect, z, cy).no_duplicates(),
        forall|p: Position| #[trigger]
            tiles_of_chunk_rows(rect, z, cy).contains(p) <==> p.z == z && rect.holds(p) && p.y / 16
                < cy,
    decreases cy - rect.min_y / 16,
{
    if cy > rect.min_y / 16 {
        lemma_tiles_of_chunk_rows(rect, z, cy - 1);
        lemma_tiles_of_chunk_row(rect, z, cy - 1, rect.max_x / 16 + 1);
        let a = tiles_of_chunk_rows(rect, z, cy - 1);
        let b = tiles_of_chunk_row(rect, z, cy - 1, rect.max_x / 16 + 1);
        assert forall|p: Position| !(#[trigger] a.contains(p) && b.contains(p)) by {}
        lemma_concat(a, b);
    }
}

/// A sweep of a rectangle comes to each of its tiles on that floor once, and to no other.
pub proof fn law_a_sweep_meets_every_tile_once(rect: Rect, z: u8)
    ensures
        sweep(rect, z).no_duplicates(),
        forall|p: Position| #[trigger] sweep(rect, z).contains(p) <==> p.z == z && rect.holds(p),
{
    lemma_tiles_of_chunk_rows(rect, z, rect.max_y / 16 + 1);
}

/// The agents on the first `n` of these tiles, each with its tile.
pub open spec fn agents_on(m: MapView, tiles: Seq<Position>, n: nat) -> Seq<(AgentKey, Position)>
    decreases n,
{
    if n == 0 {
        Seq::empty()
    } else {
        let p = tiles[n - 1];
        agents_on(m, tiles, (n - 1) as nat) + (if m.tiles.contains_key(p) {
            Seq::new(m.tiles[p].agents.len(), |i: int| (m.tiles[p].agents[i], p))
        } else {
            Seq::empty()
        })
    }
}

fn push_row(out: &mut Vec<Position>, from: u32, to: u32, y: u32, z: u8)
    requires
        to <= 65536,
        y <= 65535,
    ensures
        final(out)@ == old(out)@ + tiles_of_row(from as int, to as int, y as int, z),
{
    let ghost before = out@;
    let mut x: u32 = from;
    assert(out@ =~= before + tiles_of_row(from as int, x as int, y as int, z));
    while x < to
        invariant
            from <= x,
            x <= to || x == from,
            to <= 65536,
            y <= 65535,
            out@ == before + tiles_of_row(from as int, x as int, y as int, z),
        decreases to - x,
    {
        out.push(Position::new(x as u16, y as u16, z));
        x += 1;
        assert(out@ =~= before + tiles_of_row(from as int, x as int, y as int, z));
    }
    assert(out@ =~= before + tiles_of_row(from as int, to as int, y as int, z));
}

fn push_chunk(out: &mut Vec<Position>, rect: &Rect, z: u8, cx: u32, cy: u32)
    requires
        cx <= 4095,
        cy <= 4095,
    ensures
        final(out)@ == old(out)@ + tiles_of_chunk(
            *rect,
            z,
            cx as int,
            cy as int,
            rows(*rect, cy as int).1,
        ),
{
    let ghost before = out@;
    let from_x: u32 = if rect.min_x as u32 >= cx * 16 { rect.min_x as u32 } else { cx * 16 };
    let to_x: u32 = if rect.max_x as u32 <= cx * 16 + 15 {
        rect.max_x as u32 + 1
    } else {
        cx * 16 + 16
    };
    let from_y: u32 = if rect.min_y as u32 >= cy * 16 { rect.min_y as u32 } else { cy * 16 };
    let to_y: u32 = if rect.max_y as u32 <= cy * 16 + 15 {
        rect.max_y as u32 + 1
    } else {
        cy * 16 + 16
    };
    let mut y: u32 = from_y;
    assert(out@ =~= before + tiles_of_chunk(*rect, z, cx as int, cy as int, y as int));
    while y < to_y
        invariant
            from_y == rows(*rect, cy as int).0,
            to_y == rows(*rect, cy as int).1,
            from_x == columns(*rect, cx as int).0,
            to_x == columns(*rect, cx as int).1,
            from_y <= y,
            y <= to_y || y == from_y,
            to_y <= 65536,
            to_x <= 65536,
            out@ == before + tiles_of_chunk(*rect, z, cx as int, cy as int, y as int),
        decreases to_y - y,
    {
        let ghost here = tiles_of_chunk(*rect, z, cx as int, cy as int, y as int);
        push_row(out, from_x, to_x, y, z);
        y += 1;
        assert(out@ =~= before + (here + tiles_of_row(
            from_x as int,
            to_x as int,
            y - 1,
            z,
        )));
    }
    assert(tiles_of_chunk(*rect, z, cx as int, cy as int, y as int) == tiles_of_chunk(
        *rect,
        z,
        cx as int,
        cy as int,
        rows(*rect, cy as int).1,
    ));
}

/// The tiles of a rectangle in the order in which the map is swept: chunk by chunk, and row by
/// row in each.
pub fn sweep_rect(rect: &Rect, z: u8) -> (r: Vec<Position>)
    ensures
        r@ == sweep(*rect, z),
{
    let mut out: Vec<Position> = Vec::new();
    let first_cx: u32 = rect.min_x as u32 / 16;
    let last_cx: u32 = rect.max_x as u32 / 16;
    let last_cy: u32 = rect.max_y as u32 / 16;
    let mut cy: u32 = rect.min_y as u32 / 16;
    assert(out@ =~= tiles_of_chunk_rows(*rect, z, cy as int));
    while cy <= last_cy
        invariant
            rect.min_y / 16 <= cy,
            cy <= last_cy + 1 || cy == rect.min_y / 16,
            first_cx == rect.min_x / 16,
            last_cx == rect.max_x / 16,
            last_cy == rect.max_y / 16,
            out@ == tiles_of_chunk_rows(*rect, z, cy as int),
        decreases last_cy + 1 - cy,
    {
        let ghost above = out@;
        let mut cx: u32 = first_cx;
        assert(out@ =~= above + tiles_of_chunk_row(*rect, z, cy as int, cx as int));
        while cx <= last_cx
            invariant
                first_cx <= cx,
                cx <= last_cx + 1 || cx == first_cx,
                first_cx == rect.min_x / 16,
                last_cx == rect.max_x / 16,
                cy <= last_cy,
                last_cy == rect.max_y / 16,
                out@ == above + tiles_of_chunk_row(*rect, z, cy as int, cx as int),
            decreases last_cx + 1 - cx,
        {
            let ghost west = tiles_of_chunk_row(*rect, z, cy as int, cx as int);
            push_chunk(&mut out, rect, z, cx, cy);
            cx += 1;
            assert(out@ =~= above + (west + tiles_of_chunk(
                *rect,
                z,
                cx - 1,
                cy as int,
                rows(*rect, cy as int).1,
            )));
        }
        assert(tiles_of_chunk_row(*rect, z, cy as int, cx as int) == tiles_of_chunk_row(
            *rect,
            z,
            cy as int,
            last_cx + 1,
        ));
        cy += 1;
    }
    assert(tiles_of_chunk_rows(*rect, z, cy as int) == sweep(*rect, z));
    out
}

impl GameMap {
    /// The tiles of a rectangle, each with what is on it, or nothing where there is no tile.
    pub fn iter_tiles_in_rect(&self, rect: &Rect, z: u8) -> (r: Vec<(Position, Option<&MapTile>)>)
        requires
            self.wf(),
        ensures
            r@.len() == sweep(*rect, z).len(),
            forall|i: int|
                0 <= i < r@.len() ==> {
                    &&& (#[trigger] r@[i]).0 == sweep(*rect, z)[i]
                    &&& r@[i].1 is Some <==> self@.tiles.contains_key(r@[i].0)
                    &&& r@[i].1 matches Some(tile) ==> tile@ == self@.tiles[r@[i].0]
                },
    {
        let positions = sweep_rect(rect, z);
        let mut out: Vec<(Position, Option<&MapTile>)> = Vec::new();
        let mut i: usize = 0;
        while i < positions.len()
            invariant
                i <= positions@.len(),
                self.wf(),
                out@.len() == i,
                forall|j: int|
                    0 <= j < i ==> {
                        &&& (#[trigger] out@[j]).0 == positions@[j]
                        &&& out@[j].1 is Some <==> self@.tiles.contains_key(out@[j].0)
                        &&& out@[j].1 matches Some(tile) ==> tile@ == self@.tiles[out@[j].0]
                    },
            decreases positions.len() - i,
        {
            let tile: Option<&MapTile> = match self.get_tile(&positions[i]) {
                Ok(tile) => Some(tile),
                Err(_) => None,
            };
            out.push((positions[i], tile));
            i += 1;
        }
        out
    }

    /// The agents on the tiles of a rectangle, each with its tile.
    pub fn iter_agents_in_rect(&self, rect: &Rect, z: u8) -> (r: Vec<(AgentKey, Position)>)
        requires
            self.wf(),
        ensures
            r@ == agents_on(self@, sweep(*rect, z), sweep(*rect, z).len()),
    {
        let positions = sweep_rect(rect, z);
        let mut out: Vec<(AgentKey, Position)> = Vec::new();
        let mut i: usize = 0;
        while i < positions.len()
            invariant
                i <= positions@.len(),
                self.wf(),
                out@ == agents_on(self@, positions@, i as nat),
            decreases positions.len() - i,
        {
            let p: Position = positions[i];
            let ghost before = out@;
            if let Ok(tile) = self.get_tile(&p) {
                let mut k: usize = 0;
                assert(out@ =~= before + Seq::new(0, |j: int| (tile@.agents[j], p)));
                while k < tile.agent_count()
                    invariant
                        k <= tile@.agents.len(),
                        out@ == before + Seq::new(k as nat, |j: int| (tile@.agents[j], p)),
                    decreases tile@.agents.len() - k,
                {
                    out.push((tile.agent(k), p));
                    k += 1;
                    assert(out@ =~= before + Seq::new(k as nat, |j: int| (tile@.agents[j], p)));
                }
            } else {
                assert(out@ =~= before + Seq::empty());
            }
            i += 1;
        }
        out
    }
}

/// Every agent that stands on a tile is known to stand there, and the other way round, and stands
/// there once.
pub open spec fn placed(m: MapView) -> bool {
    &&& forall|key: u64| #[trigger] m.positions.contains_key(key) <==> m.agents.contains_key(key)
    &&& forall|key: u64| #[trigger]
        m.positions.contains_key(key) ==> m.tiles.contains_key(m.positions[key])
            && m.tiles[m.positions[key]].agents.contains(AgentKey(key))
    &&& forall|p: Position, i: int|
        m.tiles.contains_key(p) && 0 <= i < m.tiles[p].agents.len() ==> {
            let key = #[trigger] m.tiles[p].agents[i];
            m.positions.contains_key(key.0) && m.positions[key.0] == p
        }
    &&& forall|p: Position| #[trigger] m.tiles.contains_key(p) ==> m.tiles[p].agents.no_duplicates()
}

/// The map after an agent came onto it.
pub open spec fn joined(m: MapView, key: AgentKey, agent: AgentView, pos: Position) -> MapView {
    MapView {
        tiles: tile_entered(m, pos, key).tiles,
        agents: m.agents.insert(key.0, agent),
        positions: m.positions.insert(key.0, pos),
    }
}

/// The map after an agent went off it.
pub open spec fn departed(m: MapView, key: AgentKey) -> MapView {
    MapView {
        tiles: tile_left(m, m.positions[key.0], key).tiles,
        agents: m.agents.remove(key.0),
        positions: m.positions.remove(key.0),
    }
}

/// The map after an agent went to another tile.
pub open spec fn relocated(m: MapView, key: AgentKey, to: Position) -> MapView {
    MapView {
        tiles: tile_entered(tile_left(m, m.positions[key.0], key), to, key).tiles,
        agents: m.agents,
        positions: m.positions.insert(key.0, to),
    }
}

proof fn lemma_left_by(agents: Seq<AgentKey>, key: AgentKey)
    requires
        agents.no_duplicates(),
    ensures
        left_by(agents, key).no_duplicates(),
        !left_by(agents, key).contains(key),
        forall|other: AgentKey|
            other != key ==> (#[trigger] left_by(agents, key).contains(other) <==> agents.contains(
                other,
            )),
{
    let after = left_by(agents, key);
    if agents.contains(key) {
        agents.index_of_first_ensures(key);
        let n = agents.index_of_first(key)->0;
        assert forall|i: int| 0 <= i < after.len() implies #[trigger] after[i] == agents[if i < n {
            i
        } else {
            i + 1
        }] by {}
        assert forall|other: AgentKey| other != key implies (#[trigger] after.contains(other)
            <==> agents.contains(other)) by {
            if agents.contains(other) {
                let i = choose|i: int| 0 <= i < agents.len() && agents[i] == other;
                assert(after[if i < n {
                    i
                } else {
                    i - 1
                }] == other);
            }
            if after.contains(other) {
                let i = choose|i: int| 0 <= i < after.len() && after[i] == other;
                assert(agents.contains(agents[if i < n {
                    i
                } else {
                    i + 1
                }]));
            }
        }
    }
}

proof fn lemma_pushed(agents: Seq<AgentKey>, key: AgentKey)
    requires
        agents.no_duplicates(),
        !agents.contains(key),
    ensures
        agents.push(key).no_duplicates(),
        forall|other: AgentKey| #[trigger]
            agents.push(key).contains(other) <==> agents.contains(other) || other == key,
{
    let after = agents.push(key);
    assert forall|other: AgentKey| #[trigger] after.contains(other) <==> agents.contains(other)
        || other == key by {
        if agents.contains(other) {
            let i = choose|i: int| 0 <= i < agents.len() && agents[i] == other;
            assert(after[i] == other);
        }
        if other == key {
            assert(after[agents.len() as int] == key);
        }
    }
}

/// Tiles and places agree on where each agent is, and an agent that comes, goes or walks to a
/// tile that is there keeps it so.
pub proof fn law_tiles_and_places_agree(m: MapView, key: AgentKey, agent: AgentView, to: Position)
    requires
        placed(m),
        m.tiles.contains_key(to),
    ensures
        !m.agents.contains_key(key.0) ==> placed(joined(m, key, agent, to)),
        m.agents.contains_key(key.0) ==> placed(departed(m, key)),
        m.agents.contains_key(key.0) ==> placed(relocated(m, key, to)),
{
    if !m.agents.contains_key(key.0) {
        lemma_joined(m, key, agent, to);
    } else {
        lemma_departed(m, key);
        lemma_relocated(m, key, to);
    }
}

proof fn lemma_joined(m: MapView, key: AgentKey, agent: AgentView, to: Position)
    requires
        placed(m),
        m.tiles.contains_key(to),
        !m.agents.contains_key(key.0),
    ensures
        placed(joined(m, key, agent, to)),
{
    let n = joined(m, key, agent, to);
    assert(!m.positions.contains_key(key.0));
    assert(!m.tiles[to].agents.contains(key)) by {
        if m.tiles[to].agents.contains(key) {
            let i = choose|i: int|
                0 <= i < m.tiles[to].agents.len() && m.tiles[to].agents[i] == key;
            assert(m.positions.contains_key(m.tiles[to].agents[i].0));
        }
    }
    lemma_pushed(m.tiles[to].agents, key);
    assert forall|p: Position, i: int|
        n.tiles.contains_key(p) && 0 <= i < n.tiles[p].agents.len() implies ({
        let k = #[trigger] n.tiles[p].agents[i];
        n.positions.contains_key(k.0) && n.positions[k.0] == p
    }) by {
        let k = n.tiles[p].agents[i];
        assert(n.tiles[p].agents.contains(k));
        if k != key || p != to {
            if p == to {
                assert(m.tiles[p].agents.contains(k));
                let j = choose|j: int| 0 <= j < m.tiles[p].agents.len() && m.tiles[p].agents[j] == k;
                assert(m.positions.contains_key(m.tiles[p].agents[j].0));
            } else {
                assert(m.positions.contains_key(m.tiles[p].agents[i].0));
            }
        }
    }
    assert forall|k: u64| #[trigger] n.positions.contains_key(k) implies n.tiles.contains_key(
        n.positions[k],
    ) && n.tiles[n.positions[k]].agents.contains(AgentKey(k)) by {
        if k != key.0 {
            assert(m.positions.contains_key(k));
        }
    }
    assert forall|p: Position| #[trigger] n.tiles.contains_key(p) implies n.tiles[p].agents.no_duplicates() by {
        assert(m.tiles.contains_key(p));
    }
    assert forall|k: u64| #[trigger] n.positions.contains_key(k) <==> n.agents.contains_key(k) by {
        assert(m.positions.contains_key(k) <==> m.agents.contains_key(k));
    }
}

proof fn lemma_departed(m: MapView, key: AgentKey)
    requires
        placed(m),
        m.agents.contains_key(key.0),
    ensures
        placed(departed(m, key)),
        forall|p: Position| m.tiles.contains_key(p) ==> !(#[trigger] departed(
            m,
            key,
        ).tiles[p]).agents.contains(key),
        departed(m, key).tiles.dom() == m.tiles.dom(),
{
    let n = departed(m, key);
    let at = m.positions[key.0];
    assert(m.positions.contains_key(key.0));
    assert(m.tiles.contains_key(at));
    lemma_left_by(m.tiles[at].agents, key);
    assert(n.tiles.dom() =~= m.tiles.dom());
    assert forall|p: Position| m.tiles.contains_key(p) implies !(
    #[trigger] n.tiles[p]).agents.contains(key) by {
        if p != at && n.tiles[p].agents.contains(key) {
            let i = choose|i: int| 0 <= i < m.tiles[p].agents.len() && m.tiles[p].agents[i] == key;
            assert(m.positions[m.tiles[p].agents[i].0] == p);
        }
    }
    assert forall|p: Position, i: int|
        n.tiles.contains_key(p) && 0 <= i < n.tiles[p].agents.len() implies ({
        let k = #[trigger] n.tiles[p].agents[i];
        n.positions.contains_key(k.0) && n.positions[k.0] == p
    }) by {
        let k = n.tiles[p].agents[i];
        assert(n.tiles[p].agents.contains(k));
        assert(k != key);
        assert(m.tiles[p].agents.contains(k));
        let j = choose|j: int| 0 <= j < m.tiles[p].agents.len() && m.tiles[p].agents[j] == k;
        assert(m.positions.contains_key(m.tiles[p].agents[j].0));
    }
    assert forall|k: u64| #[trigger] n.positions.contains_key(k) implies n.tiles.contains_key(
        n.positions[k],
    ) && n.tiles[n.positions[k]].agents.contains(AgentKey(k)) by {
        assert(m.positions.contains_key(k));
        assert(AgentKey(k) != key);
    }
    assert forall|p: Position| #[trigger] n.tiles.contains_key(p) implies n.tiles[p].agents.no_duplicates() by {
        assert(m.tiles.contains_key(p));
    }
    assert forall|k: u64| #[trigger] n.positions.contains_key(k) <==> n.agents.contains_key(k) by {
        assert(m.positions.contains_key(k) <==> m.agents.contains_key(k));
    }
}

proof fn lemma_relocated(m: MapView, key: AgentKey, to: Position)
    requires
        placed(m),
        m.tiles.contains_key(to),
        m.agents.contains_key(key.0),
    ensures
        placed(relocated(m, key, to)),
{
    lemma_departed(m, key);
    let gone = departed(m, key);
    assert(!gone.agents.contains_key(key.0));
    assert(gone.tiles.contains_key(to)) by {
        assert(gone.tiles.dom().contains(to));
    }
    lemma_joined(gone, key, m.agents[key.0], to);
    assert(joined(gone, key, m.agents[key.0], to) =~= relocated(m, key, to)) by {
        assert(joined(gone, key, m.agents[key.0], to).agents =~= m.agents);
        assert(joined(gone, key, m.agents[key.0], to).positions =~= m.positions.insert(key.0, to));
    }
}

/// The place of the item with this guid on a tile.
fn position_on_tile(items: &TileItems, guid: ItemGuid) -> (r: Option<usize>)
    ensures
        index_view(r) == index_in(item_views(items_in(*items)), 0, guid),
        r matches Some(i) ==> i < items_in(*items).len(),
{
    let mut i: usize = 0;
    while i < items.len()
        invariant
            i <= items_in(*items).len(),
            index_in(item_views(items_in(*items)), 0, guid) == index_in(
                item_views(items_in(*items)),
                i as int,
                guid,
            ),
        decreases items_in(*items).len() - i,
    {
        if items.at(i).guid == guid {
            return Some(i);
        }
        i += 1;
    }
    None
}

impl MapTile {
    /// Takes `amount` of the item with this guid off the tile or out of what lies on it.
    fn remove_item(&mut self, guid: ItemGuid, amount: u8, fresh: ItemGuid) -> (r: Option<RemovedItem>)
        ensures
            removes(r, old(self)@.items, final(self)@.items, guid, amount, fresh),
            final(self)@.agents == old(self)@.agents,
    {
        let ghost before = self@.items;
        if let Some(i) = position_on_tile(&self.items, guid) {
            let held: u8 = self.items.at(i).amount;
            if held > amount {
                let item = self.items.at_mut(i).split_off(amount, fresh);
                assert(self@.items =~= taken_at(before, i as int, amount, fresh).unwrap().0);
                return Some(RemovedItem { item, index: Some(i), parent: None });
            } else if held == amount {
                let item = self.items.remove(i);
                assert(self@.items =~= taken_at(before, i as int, amount, fresh).unwrap().0);
                return Some(RemovedItem { item, index: Some(i), parent: None });
            } else {
                return None;
            }
        }
        let mut k: usize = 0;
        while k < self.items.len()
            invariant
                k <= self@.items.len(),
                before == old(self)@.items,
                self@.items == before,
                self@.agents == old(self)@.agents,
                removal(before, guid, amount, fresh) == removal_within(
                    before,
                    k as int,
                    guid,
                    amount,
                    fresh,
                ),
            decreases self@.items.len() - k,
        {
            let r = remove_nested(self.items.at_mut(k), guid, amount, fresh);
            if r.is_some() {
                assert(self@.items =~= removal(before, guid, amount, fresh).unwrap().after);
                return r;
            }
            assert(self@.items =~= before);
            k += 1;
        }
        None
    }

    /// Puts an item at a place of the tile, on top where none is named.
    fn put_item(&mut self, index: Option<usize>, item: Item)
        requires
            index matches Some(i) ==> i <= old(self)@.items.len(),
        ensures
            final(self)@ == (TileView {
                items: match index {
                    Some(i) => old(self)@.items.insert(i as int, item@),
                    None => old(self)@.items.push(item@),
                },
                ..old(self)@
            }),
    {
        let ghost before = self@;
        match index {
            Some(i) => self.items.insert(i, item),
            None => self.items.push(item),
        }
        assert(self@.items =~= match index {
            Some(i) => before.items.insert(i as int, item@),
            None => before.items.push(item@),
        });
    }

    /// Puts an item into a container on the tile.
    fn put_item_into(&mut self, target: ItemGuid, slot: usize, item: Item) -> (r: Result<
        (),
        PlaceError,
    >)
        requires
            can_place(old(self)@.items, 0, target, slot as int),
        ensures
            places(r, old(self)@.items, final(self)@.items, target, slot as int, item@),
            final(self)@.agents == old(self)@.agents,
    {
        let ghost before = self@.items;
        let mut i: usize = 0;
        while i < self.items.len()
            invariant
                i <= self@.items.len(),
                before == old(self)@.items,
                self@.items == before,
                self@.agents == old(self)@.agents,
                can_place(before, i as int, target, slot as int),
                placing(before, 0, target, slot as int, item@) == placing(
                    before,
                    i as int,
                    target,
                    slot as int,
                    item@,
                ),
            decreases self@.items.len() - i,
        {
            match has_room_within(self.items.at(i), target) {
                Some(true) => {
                    put_within(self.items.at_mut(i), target, slot, item);
                    assert(self@.items =~= placing(before, 0, target, slot as int, item@)->Ok_0);
                    return Ok(());
                },
                Some(false) => return Err(PlaceError::Full),
                None => {},
            }
            i += 1;
        }
        Err(PlaceError::Missing)
    }
}

impl GameMap {
    /// Takes `amount` of the item with this guid off a tile or out of what lies on it. A part
    /// that is split off gets the guid `fresh`.
    pub fn remove_item_from_tile(
        &mut self,
        pos: &Position,
        guid: ItemGuid,
        amount: u8,
        fresh: ItemGuid,
    ) -> (r: Option<RemovedItem>)
        requires
            old(self).wf(),
        ensures
            copied_at_most(*old(self), *final(self), 1),
            final(self).wf(),
            final(self)@.agents == old(self)@.agents,
            final(self)@.positions == old(self)@.positions,
            if old(self)@.tiles.contains_key(*pos) {
                let tile = old(self)@.tiles[*pos];
                &&& removes(r, tile.items, final(self)@.tiles[*pos].items, guid, amount, fresh)
                &&& final(self)@.tiles =~= old(self)@.tiles.insert(
                    *pos,
                    TileView { items: final(self)@.tiles[*pos].items, ..tile },
                )
            } else {
                r is None && final(self)@.tiles =~= old(self)@.tiles
            },
    {
        match self.get_tile_mut(pos) {
            Ok(tile) => tile.remove_item(guid, amount, fresh),
            Err(_) => None,
        }
    }

    /// Puts an item on a tile, at a place of it or on top, or into a container there.
    pub fn place_item(
        &mut self,
        pos: &Position,
        index: Option<usize>,
        container: Option<(ItemGuid, usize)>,
        item: Item,
    ) -> (r: Result<(), MapError>)
        requires
            old(self).wf(),
            old(self)@.tiles.contains_key(*pos) ==> match container {
                None => index matches Some(i) ==> i <= old(self)@.tiles[*pos].items.len(),
                Some((target, slot)) => can_place(
                    old(self)@.tiles[*pos].items,
                    0,
                    target,
                    slot as int,
                ),
            },
        ensures
            copied_at_most(*old(self), *final(self), 1),
            final(self).wf(),
            final(self)@.agents == old(self)@.agents,
            final(self)@.positions == old(self)@.positions,
            r == placed_on(old(self)@, *pos, index, container, item@).0,
            final(self)@.tiles =~= placed_on(old(self)@, *pos, index, container, item@).1.tiles,
    {
        match self.get_tile_mut(pos) {
            Ok(tile) => match container {
                None => {
                    tile.put_item(index, item);
                    Ok(())
                },
                Some((target, slot)) => match tile.put_item_into(target, slot, item) {
                    Ok(()) => Ok(()),
                    Err(PlaceError::Full) => Err(MapError::ContainerIsFull),
                    Err(PlaceError::Missing) => Err(MapError::EntityNotInPosition),
                },
            },
            Err(error) => Err(error),
        }
    }

    /// The container that an item on a tile lies in.
    pub fn get_parent_container(&self, pos: &Position, guid: ItemGuid) -> (r: Option<ItemGuid>)
        requires
            self.wf(),
        ensures
            r == (if self@.tiles.contains_key(*pos) {
                match parent_in(self@.tiles[*pos].items, 0, guid, None) {
                    Some(parent) => parent,
                    None => None,
                }
            } else {
                None
            }),
    {
        let tile = match self.get_tile(pos) {
            Ok(tile) => tile,
            Err(_) => return None,
        };
        let mut i: usize = 0;
        while i < tile.item_count()
            invariant
                i <= tile@.items.len(),
                self@.tiles.contains_key(*pos),
                tile@ == self@.tiles[*pos],
                parent_in(tile@.items, 0, guid, None) == parent_in(
                    tile@.items,
                    i as int,
                    guid,
                    None,
                ),
            decreases tile@.items.len() - i,
        {
            if let Some(parent) = tile.item(i).find_parent(guid, None) {
                return parent;
            }
            i += 1;
        }
        None
    }

    /// An item on a tile, or one that lies in another there.
    pub fn get_item_by_id(&self, pos: &Position, guid: ItemGuid) -> (r: Option<&Item>)
        requires
            self.wf(),
        ensures
            match r {
                Some(item) => {
                    &&& self@.tiles.contains_key(*pos)
                    &&& found_in(self@.tiles[*pos].items, 0, guid) == Some(item@)
                },
                None => self@.tiles.contains_key(*pos) ==> found_in(
                    self@.tiles[*pos].items,
                    0,
                    guid,
                ) is None,
            },
    {
        let tile = match self.get_tile(pos) {
            Ok(tile) => tile,
            Err(_) => return None,
        };
        let mut i: usize = 0;
        while i < tile.item_count()
            invariant
                i <= tile@.items.len(),
                self@.tiles.contains_key(*pos),
                tile@ == self@.tiles[*pos],
                found_in(tile@.items, 0, guid) == found_in(tile@.items, i as int, guid),
            decreases tile@.items.len() - i,
        {
            if let Some(item) = tile.item(i).find_by_guid(guid) {
                return Some(item);
            }
            i += 1;
        }
        None
    }
}

/// What putting an item on a tile or into a container there comes to.
pub open spec fn placed_on(
    m: MapView,
    pos: Position,
    index: Option<usize>,
    container: Option<(ItemGuid, usize)>,
    item: ItemView,
) -> (Result<(), MapError>, MapView) {
    if !m.tiles.contains_key(pos) {
        (Err(MapError::TileDoesNotExist), m)
    } else {
        let tile = m.tiles[pos];
        match container {
            None => (
                Ok(()),
                with_tile(
                    m,
                    pos,
                    TileView {
                        items: match index {
                            Some(i) => tile.items.insert(i as int, item),
                            None => tile.items.push(item),
                        },
                        ..tile
                    },
                ),
            ),
            Some((target, slot)) => match placing(tile.items, 0, target, slot as int, item) {
                Err(PlaceError::Missing) => (Err(MapError::EntityNotInPosition), m),
                Err(PlaceError::Full) => (Err(MapError::ContainerIsFull), m),
                Ok(after) => (
                    Ok(()),
                    with_tile(m, pos, TileView { items: after, ..tile }),
                ),
            },
        }
    }
}

/// The first item on a tile that is the one with this guid or has it in it.
fn holding_on_tile(items: &TileItems, guid: ItemGuid) -> (r: Option<usize>)
    ensures
        index_view(r) == holding_in(item_views(items_in(*items)), 0, guid),
        r matches Some(k) ==> k < items_in(*items).len(),
{
    let mut k: usize = 0;
    while k < items.len()
        invariant
            k <= items_in(*items).len(),
            holding_in(item_views(items_in(*items)), 0, guid) == holding_in(
                item_views(items_in(*items)),
                k as int,
                guid,
            ),
        decreases items_in(*items).len() - k,
    {
        if items.at(k).find_by_guid(guid).is_some() {
            return Some(k);
        }
        k += 1;
    }
    None
}

impl MapTile {
    /// Puts an item on a stack on the tile, or in a container there, and says how much of it that
    /// took.
    fn stack_item(&mut self, container: Option<ItemGuid>, item: &mut Item) -> (moved: u8)
        ensures
            (final(self)@.items, moved) == stacked(old(self)@.items, container, old(item)@),
            final(self)@.agents == old(self)@.agents,
            final(item)@ == lessened(old(item)@, moved),
    {
        let ghost before = self@.items;
        match container {
            Some(guid) => {
                let k: usize = match holding_on_tile(&self.items, guid) {
                    Some(k) => k,
                    None => return 0,
                };
                let moved: u8 = top_up_within(self.items.at_mut(k), guid, item);
                assert(self@.items =~= stacked(before, container, old(item)@).0);
                moved
            },
            None => {
                let mut i: usize = 0;
                while i < self.items.len()
                    invariant
                        i <= items_in(self.items).len(),
                        container is None,
                        *self == *old(self),
                        *item == *old(item),
                        before == self@.items,
                        stack_in(before, 0, item@) == stack_in(before, i as int, item@),
                    decreases items_in(self.items).len() - i,
                {
                    if self.items.at(i).stacks_with(item) {
                        let moved: u8 = self.items.at_mut(i).top_up_from(item);
                        assert(self@.items =~= topped(before, old(item)@).0);
                        return moved;
                    }
                    i += 1;
                }
                0
            },
        }
    }
}

impl GameMap {
    /// Puts an item on a stack on a tile, or in a container there, and says how much of it that
    /// took.
    pub fn stack_on_tile(&mut self, pos: &Position, container: Option<ItemGuid>, item: &mut Item) -> (moved:
        u8)
        requires
            old(self).wf(),
        ensures
            copied_at_most(*old(self), *final(self), 1),
            final(self).wf(),
            moved == stacked_at(old(self)@, *pos, container, old(item)@).1,
            final(self)@ =~= stacked_at(old(self)@, *pos, container, old(item)@).0,
            final(item)@ == lessened(old(item)@, moved),
    {
        let ghost before = self@;
        match self.get_tile_mut(pos) {
            Ok(tile) => {
                let moved: u8 = tile.stack_item(container, item);
                assert(self@.tiles =~= stacked_at(before, *pos, container, old(item)@).0.tiles);
                moved
            },
            Err(_) => {
                assert(self@.tiles =~= before.tiles);
                0
            },
        }
    }
}

/// What putting an item on a stack on a tile comes to, and how much of it that takes.
pub open spec fn stacked_at(
    m: MapView,
    pos: Position,
    container: Option<ItemGuid>,
    item: ItemView,
) -> (MapView, u8) {
    if m.tiles.contains_key(pos) {
        let tile = m.tiles[pos];
        let (items, moved) = stacked(tile.items, container, item);
        (with_tile(m, pos, TileView { items, ..tile }), moved)
    } else {
        (m, 0)
    }
}

impl GameMap {
    /// The items on a tile, from the ground up.
    pub fn iter_items(&self, pos: &Position) -> (r: Result<Vec<&Item>, MapError>)
        requires
            self.wf(),
        ensures
            match r {
                Ok(items) => {
                    &&& self@.tiles.contains_key(*pos)
                    &&& items@.len() == self@.tiles[*pos].items.len()
                    &&& forall|i: int|
                        0 <= i < items@.len() ==> (#[trigger] items@[i])@
                            == self@.tiles[*pos].items[i]
                },
                Err(error) => error == MapError::TileDoesNotExist && !self@.tiles.contains_key(
                    *pos,
                ),
            },
    {
        let tile = match self.get_tile(pos) {
            Ok(tile) => tile,
            Err(error) => return Err(error),
        };
        let mut r: Vec<&Item> = Vec::new();
        while r.len() < tile.item_count()
            invariant
                r@.len() <= tile@.items.len(),
                forall|i: int| 0 <= i < r@.len() ==> (#[trigger] r@[i])@ == tile@.items[i],
            decreases tile@.items.len() - r@.len(),
        {
            r.push(tile.item(r.len()));
        }
        Ok(r)
    }

    /// The agents on a tile, in the order in which they came.
    pub fn iter_agents_at(&self, pos: &Position) -> (r: Result<Vec<AgentKey>, MapError>)
        requires
            self.wf(),
        ensures
            match r {
                Ok(agents) => self@.tiles.contains_key(*pos) && agents@
                    == self@.tiles[*pos].agents,
                Err(error) => error == MapError::TileDoesNotExist && !self@.tiles.contains_key(
                    *pos,
                ),
            },
    {
        let tile = match self.get_tile(pos) {
            Ok(tile) => tile,
            Err(error) => return Err(error),
        };
        let mut r: Vec<AgentKey> = Vec::new();
        while r.len() < tile.agent_count()
            invariant
                r@.len() <= tile@.agents.len(),
                r@ == tile@.agents.take(r@.len() as int),
            decreases tile@.agents.len() - r@.len(),
        {
            let ghost n = r@.len() as int;
            r.push(tile.agent(r.len()));
            assert(tile@.agents.take(n + 1) =~= tile@.agents.take(n).push(tile@.agents[n]));
        }
        assert(tile@.agents.take(tile@.agents.len() as int) =~= tile@.agents);
        Ok(r)
    }

    /// The player with this key, to be changed in its place.
    pub fn get_player_mut(&mut self, key: AgentKey) -> (r: Option<&mut Player>)
        requires
            old(self).wf(),
        ensures
            final(self).copies() == old(self).copies(),
            final(self).wf(),
            final(self)@.tiles == old(self)@.tiles,
            final(self)@.positions == old(self)@.positions,
            match r {
                Some(player) => {
                    &&& is_player(old(self)@, key)
                    &&& BodyView::Player(player@) == old(self)@.agents[key.0].body
                    &&& final(self)@.agents =~= old(self)@.agents.insert(
                        key.0,
                        AgentView {
                            body: BodyView::Player(final(player)@),
                            ..old(self)@.agents[key.0]
                        },
                    )
                },
                None => !is_player(old(self)@, key) && final(self)@.agents == old(self)@.agents,
            },
    {
        if self.get_player(key).is_none() {
            return None;
        }
        match self.get_agent_mut(key) {
            Some(agent) => match &mut agent.body {
                AgentBody::Player(player) => Some(player),
                AgentBody::Creature(_) => None,
            },
            None => None,
        }
    }
}

impl Clone for GameMap {
    /// A map of its own that is the same now, and that no later change to this one reaches.
    fn clone(&self) -> (m: Self)
        ensures
            m@ == self@,
            m.copies() == self.copies(),
            self.wf() ==> m.wf(),
    {
        let m = GameMap {
            chunks: self.chunks.copy(),
            agents: self.agents.copy(),
            agent_positions: self.agent_positions.copy(),
            chunk_copies: self.chunk_copies,
        };
        assert(agent_views(arena_agents(m.agents)) =~= agent_views(arena_agents(self.agents)));
        assert(m@.tiles =~= self@.tiles);
        m
    }
}

/// An agent can step onto a tile just where there is ground, nothing is in the way and nobody
/// stands there; a creature keeps off stairs and off what it avoids besides.
pub proof fn law_tiles_are_entered_where_nothing_is_in_the_way(
    m: MapView,
    pos: Position,
    key: AgentKey,
    i: int,
)
    requires
        m.tiles.contains_key(pos),
        0 <= i < m.tiles[pos].items.len(),
    ensures
        ({
            let tile = m.tiles[pos];
            let items = tile.items;
            let wary = m.agents.contains_key(key.0) && m.agents[key.0].body is Creature;
            &&& enterable(m, pos, key) ==> {
                &&& tile.agents.len() == 0
                &&& !items[i].config.flagged(ItemFlag::Unpass)
                &&& wary ==> !items[i].config.flagged(ItemFlag::Avoid)
                    && items[i].config.floor_change() is None
                &&& exists|j: int|
                    0 <= j < items.len() && (#[trigger] items[j]).config.flagged(ItemFlag::Ground)
            }
            &&& tile.agents.len() == 0 && items[i].config.flagged(ItemFlag::Ground) && (forall|
                j: int,
            |
                0 <= j < items.len() ==> !(#[trigger] items[j]).config.flagged(ItemFlag::Unpass)
                    && (wary ==> !items[j].config.flagged(ItemFlag::Avoid)
                    && items[j].config.floor_change() is None)) ==> enterable(m, pos, key)
        }),
{
    let items = m.tiles[pos].items;
    lemma_floor_change_in(items, 0);
}

proof fn lemma_floor_change_in(items: Seq<ItemView>, i: int)
    requires
        0 <= i,
    ensures
        floor_change_in(items, i) is None <==> forall|j: int|
            i <= j < items.len() ==> (#[trigger] items[j]).config.floor_change() is None,
    decreases items.len() - i,
{
    if i < items.len() {
        lemma_floor_change_in(items, i + 1);
    }
}

/// The friction of a tile, and where it leads, are those of the lowest item that has them.
pub proof fn law_the_lowest_item_counts(items: Seq<ItemView>, from: int, i: int)
    requires
        0 <= from <= i < items.len(),
    ensures
        items[i].config.tile_friction() is Some && (forall|j: int|
            from <= j < i ==> (#[trigger] items[j]).config.tile_friction() is None) ==> friction_in(
            items,
            from,
        ) == items[i].config.tile_friction(),
        items[i].config.floor_change() is Some && (forall|j: int|
            from <= j < i ==> (#[trigger] items[j]).config.floor_change() is None)
            ==> floor_change_in(items, from) == items[i].config.floor_change(),
        (forall|j: int|
            from <= j < items.len() ==> (#[trigger] items[j]).config.tile_friction() is None)
            ==> friction_in(items, from) is None,
        (forall|j: int|
            from <= j < items.len() ==> (#[trigger] items[j]).config.floor_change() is None)
            ==> floor_change_in(items, from) is None,
    decreases i - from,
{
    lemma_friction_in(items, from);
    lemma_floor_change_in(items, from);
    if from < i {
        law_the_lowest_item_counts(items, from + 1, i);
        assert(items[from] == items[from]);
    }
}

proof fn lemma_friction_in(items: Seq<ItemView>, i: int)
    requires
        0 <= i,
    ensures
        friction_in(items, i) is None <==> forall|j: int|
            i <= j < items.len() ==> (#[trigger] items[j]).config.tile_friction() is None,
    decreases items.len() - i,
{
    if i < items.len() {
        lemma_friction_in(items, i + 1);
    }
}

/// An agent that moves is afterwards where it went and nowhere else. Nobody else moves, and no
/// item does.
pub proof fn law_only_who_moves_changes_place(
    m: MapView,
    key: AgentKey,
    to: Position,
    other: AgentKey,
    p: Position,
)
    requires
        placed(m),
        m.agents.contains_key(key.0),
        m.tiles.contains_key(to),
        other != key,
    ensures
        ({
            let n = relocated(m, key, to);
            &&& n.positions.contains_key(key.0) && n.positions[key.0] == to
            &&& n.tiles[to].agents.contains(key)
            &&& p != to && m.tiles.contains_key(p) ==> !n.tiles[p].agents.contains(key)
            &&& n.positions.contains_key(other.0) == m.positions.contains_key(other.0)
            &&& m.positions.contains_key(other.0) ==> n.positions[other.0] == m.positions[other.0]
            &&& n.tiles.contains_key(p) == m.tiles.contains_key(p)
            &&& m.tiles.contains_key(p) ==> n.tiles[p].items == m.tiles[p].items
            &&& n.agents == m.agents
        }),
{
    let n = relocated(m, key, to);
    lemma_relocated(m, key, to);
    assert(m.positions.contains_key(key.0));
    assert(n.positions.contains_key(key.0));
    assert(n.tiles[to].agents.contains(AgentKey(key.0)));
    assert(other.0 != key.0);
    if p != to && m.tiles.contains_key(p) && n.tiles[p].agents.contains(key) {
        let i = n.tiles[p].agents.index_of(key);
        assert(n.tiles[p].agents[i] == key);
    }
}

/// The agents on some tiles are all that stand on one of them, each with the tile it stands on.
pub proof fn law_agents_are_met_where_they_stand(
    m: MapView,
    tiles: Seq<Position>,
    n: nat,
    key: AgentKey,
    p: Position,
)
    requires
        n <= tiles.len(),
    ensures
        agents_on(m, tiles, n).contains((key, p)) <==> tiles.take(n as int).contains(p)
            && m.tiles.contains_key(p) && m.tiles[p].agents.contains(key),
    decreases n,
{
    if n > 0 {
        law_agents_are_met_where_they_stand(m, tiles, (n - 1) as nat, key, p);
        let before = agents_on(m, tiles, (n - 1) as nat);
        let after = agents_on(m, tiles, n);
        let last = tiles[n - 1];
        assert(tiles.take(n as int) =~= tiles.take(n - 1).push(last));
        if tiles.take(n - 1).contains(p) {
            assert(tiles.take(n as int)[tiles.take(n - 1).index_of(p)] == p);
        }
        assert(tiles.take(n as int)[n - 1] == last);
        if before.contains((key, p)) {
            assert(after[before.index_of((key, p))] == (key, p));
        }
        if last == p && m.tiles.contains_key(p) && m.tiles[p].agents.contains(key) {
            assert(after[before.len() + m.tiles[p].agents.index_of(key)] == (key, p));
        }
        if after.contains((key, p)) {
            let i = after.index_of((key, p));
            if i < before.len() {
                assert(before[i] == (key, p));
            } else {
                assert(m.tiles[last].agents[i - before.len()] == key);
            }
        }
    }
}

/// A chunk meets a rectangle just where one of its tiles lies in it on one of the floors.
pub proof fn law_a_chunk_meets_what_it_holds(
    c: ChunkCoord,
    rect: Rect,
    floors: Seq<u8>,
    p: Position,
)
    requires
        rect.min_x <= rect.max_x,
        rect.min_y <= rect.max_y,
        c.cx <= 4095,
        c.cy <= 4095,
    ensures
        c.cx * 16 <= p.x < c.cx * 16 + 16 && c.cy * 16 <= p.y < c.cy * 16 + 16 && c.z == p.z
            && rect.holds(p) && floors.contains(p.z) ==> c.meets(rect, floors),
        c.meets(rect, floors) ==> exists|q: Position|
            #![trigger rect.holds(q)]
            c.cx * 16 <= q.x < c.cx * 16 + 16 && c.cy * 16 <= q.y < c.cy * 16 + 16 && q.z == c.z
                && rect.holds(q) && floors.contains(q.z),
{
    if c.meets(rect, floors) {
        let x = higher(rect.min_x as int, c.cx * 16);
        let y = higher(rect.min_y as int, c.cy * 16);
        let q = Position { x: x as u16, y: y as u16, z: c.z };
        assert(rect.holds(q));
    }
}

/// An item that is put onto a tile lies there at the place it was put to, or else on top; what lay
/// there keeps its order. No other tile changes.
pub proof fn law_an_item_lies_where_it_was_put(
    m: MapView,
    pos: Position,
    index: Option<usize>,
    item: ItemView,
    k: int,
    other: Position,
)
    requires
        m.tiles.contains_key(pos),
        index matches Some(i) ==> i <= m.tiles[pos].items.len(),
        0 <= k < m.tiles[pos].items.len(),
        other != pos,
    ensures
        ({
            let (r, n) = placed_on(m, pos, index, None, item);
            let before = m.tiles[pos].items;
            let later = n.tiles[pos].items;
            let at: int = match index {
                Some(i) => i as int,
                None => before.len() as int,
            };
            &&& r is Ok
            &&& later.len() == before.len() + 1 && later[at] == item
            &&& k < at ==> later[k] == before[k]
            &&& k >= at ==> later[k + 1] == before[k]
            &&& n.tiles[pos].agents == m.tiles[pos].agents
            &&& n.tiles.contains_key(other) == m.tiles.contains_key(other)
            &&& n.tiles[other] == m.tiles[other]
            &&& n.agents == m.agents && n.positions == m.positions
        }),
{
}

} // verus!
