//! What a bot knows of the world from the messages it was sent.

use crate::clock::{Duration, Instant};
use crate::constants::VIEWPORT_SIZE;
use crate::entities::agent::{AgentId, Pool};
use crate::entities::inventory::InventorySlot;
use crate::entities::items::{ContainerId, ItemConfig, ItemFlag, ItemId};
use crate::entities::position::{Direction, Position};
use crate::entities::spells::{SpellGroup, SpellId};
use crate::loadtest::viewport::{
    describe_map_positions, described, expansion_positions, in_sight, inland,
    law_described_tiles_are_distinct, law_uncovered_tiles_are_distinct, uncovered,
};
use crate::messages::{
    spells_view, stacks_view, strips_view, Equipped, ItemStack, ServerMessage, ServerMessageView,
    SpellListEntry, SpellListEntryView, StackView,
};
use std::collections::HashMap;
use std::sync::Arc;
use vstd::prelude::*;

verus! {

broadcast use vstd::std_specs::hash::group_hash_axioms;

/// What is known of each kind of item, by its number.
pub type ItemCatalogue = Arc<HashMap<u16, Arc<ItemConfig>>>;

/// Another agent that the bot sees.
#[derive(Debug)]
pub struct VisibleAgent {
    pub position: Position,
    pub name: String,
    /// What is left of its life, in hundredths.
    pub life: u32,
}

pub struct VisibleAgentView {
    pub position: Position,
    pub name: Seq<char>,
    pub life: u32,
}

impl View for VisibleAgent {
    type V = VisibleAgentView;

    open spec fn view(&self) -> VisibleAgentView {
        VisibleAgentView { position: self.position, name: self.name@, life: self.life }
    }
}

/// A spell that the bot can cast.
#[derive(Debug)]
pub struct KnownSpell {
    pub words: String,
    pub group: SpellGroup,
}

pub struct KnownSpellView {
    pub words: Seq<char>,
    pub group: SpellGroup,
}

impl View for KnownSpell {
    type V = KnownSpellView;

    open spec fn view(&self) -> KnownSpellView {
        KnownSpellView { words: self.words@, group: self.group }
    }
}

/// A strip of tiles whose length is not what the step uncovers, or one that came without a step.
/// Its tiles are left unwritten rather than guessed at.
#[derive(Debug, Clone, Copy, PartialEq, Eq, Structural)]
pub enum StripMismatch {
    WrongLength { floor: u8, expected: usize, actual: usize },
    NotAStep { from: Position, to: Position },
}

/// Walk acknowledgements between two clearings of tiles far behind.
pub const TILE_PRUNE_INTERVAL: u32 = 64;

/// How far away, on either axis, a tile is still remembered when far ones are cleared.
pub const TILE_MEMORY_RADIUS: i64 = 38;

/// The number under which a tile is remembered.
pub open spec fn tile_key(p: Position) -> u64 {
    (p.x * 0x100_0000 + p.y * 0x100 + p.z) as u64
}

/// No two tiles are remembered under the same number.
pub proof fn lemma_tile_keys_differ(a: Position, b: Position)
    requires
        tile_key(a) == tile_key(b),
    ensures
        a == b,
{
}

fn key_of(p: &Position) -> (k: u64)
    ensures
        k == tile_key(*p),
{
    p.x as u64 * 0x100_0000 + p.y as u64 * 0x100 + p.z as u64
}

/// The number under which a group's cooldown is kept.
pub open spec fn group_key(group: SpellGroup) -> u8 {
    match group {
        SpellGroup::Attack => 0,
        SpellGroup::Healing => 1,
        SpellGroup::Support => 2,
    }
}

fn key_of_group(group: SpellGroup) -> (k: u8)
    ensures
        k == group_key(group),
{
    match group {
        SpellGroup::Attack => 0,
        SpellGroup::Healing => 1,
        SpellGroup::Support => 2,
    }
}

/// What a bot knows, as maps and numbers.
pub struct WorldView {
    pub agent_id: AgentId,
    pub position: Position,
    pub name: Seq<char>,
    pub speed: u16,
    pub life: Pool,
    pub mana: Pool,
    pub agents: Map<u16, VisibleAgentView>,
    pub tiles: Map<u64, StackView>,
    pub equipment: Map<u8, ItemId>,
    pub containers: Map<u16, StackView>,
    pub carried: Option<ContainerId>,
    pub spells: Map<u16, KnownSpellView>,
    pub strip_mismatches: int,
    pub first_strip_mismatch: Option<StripMismatch>,
    pub target_lost_seq: Option<u32>,
    pub spell_cooldowns: Map<u16, Instant>,
    pub group_cooldowns: Map<u8, Instant>,
    pub walk_ack_count: int,
}

pub struct World {
    pub items: ItemCatalogue,
    pub agent_id: AgentId,
    pub position: Position,
    /// The character's own name, empty until it is told.
    pub name: String,
    pub speed: u16,
    pub life: Pool,
    pub mana: Pool,
    /// The other agents in sight, by `AgentId`.
    pub agents: HashMap<u16, VisibleAgent>,
    /// The tiles seen and not yet forgotten, by `tile_key`.
    pub tiles: HashMap<u64, ItemStack>,
    /// What is worn, by the slot's number.
    pub equipment: HashMap<u8, ItemId>,
    /// What is in each open container, by `ContainerId`.
    pub containers: HashMap<u16, Vec<Option<(ItemId, u8)>>>,
    pub carried: Option<ContainerId>,
    /// The spells that can be cast, by `SpellId`.
    pub spells: HashMap<u16, KnownSpell>,
    pub strip_mismatches: u64,
    pub first_strip_mismatch: Option<StripMismatch>,
    pub target_lost_seq: Option<u32>,
    pub spell_cooldowns: HashMap<u16, Instant>,
    pub group_cooldowns: HashMap<u8, Instant>,
    pub walk_ack_count: u32,
}

pub open spec fn tiles_view(tiles: Map<u64, ItemStack>) -> Map<u64, StackView> {
    Map::new(|k: u64| tiles.contains_key(k), |k: u64| tiles[k]@)
}

pub open spec fn agents_view(agents: Map<u16, VisibleAgent>) -> Map<u16, VisibleAgentView> {
    Map::new(|k: u16| agents.contains_key(k), |k: u16| agents[k]@)
}

pub open spec fn containers_view(containers: Map<u16, Vec<Option<(ItemId, u8)>>>) -> Map<
    u16,
    StackView,
> {
    Map::new(|k: u16| containers.contains_key(k), |k: u16| containers[k]@)
}

pub open spec fn known_view(spells: Map<u16, KnownSpell>) -> Map<u16, KnownSpellView> {
    Map::new(|k: u16| spells.contains_key(k), |k: u16| spells[k]@)
}

impl View for World {
    type V = WorldView;

    open spec fn view(&self) -> WorldView {
        WorldView {
            agent_id: self.agent_id,
            position: self.position,
            name: self.name@,
            speed: self.speed,
            life: self.life,
            mana: self.mana,
            agents: agents_view(self.agents@),
            tiles: tiles_view(self.tiles@),
            equipment: self.equipment@,
            containers: containers_view(self.containers@),
            carried: self.carried,
            spells: known_view(self.spells@),
            strip_mismatches: self.strip_mismatches as int,
            first_strip_mismatch: self.first_strip_mismatch,
            target_lost_seq: self.target_lost_seq,
            spell_cooldowns: self.spell_cooldowns@,
            group_cooldowns: self.group_cooldowns@,
            walk_ack_count: self.walk_ack_count as int,
        }
    }
}

/// The tile lies on `floor`.
pub open spec fn on_floor(key: u64, floor: u8) -> bool {
    key % 0x100 == floor
}

/// The tile lies near enough to `center` to be remembered.
pub open spec fn near(key: u64, center: Position) -> bool {
    let x = key / 0x100_0000;
    let y = key / 0x100 % 0x1_0000;
    &&& -TILE_MEMORY_RADIUS <= x - center.x <= TILE_MEMORY_RADIUS
    &&& -TILE_MEMORY_RADIUS <= y - center.y <= TILE_MEMORY_RADIUS
}

/// `near` says of a tile what its name says.
pub proof fn lemma_near(p: Position, center: Position)
    ensures
        near(tile_key(p), center) <==> (-TILE_MEMORY_RADIUS <= p.x - center.x
            <= TILE_MEMORY_RADIUS && -TILE_MEMORY_RADIUS <= p.y - center.y <= TILE_MEMORY_RADIUS),
        forall|floor: u8| on_floor(tile_key(p), floor) <==> p.z == floor,
{
}

/// The tiles whose number meets `keep`.
pub open spec fn only(tiles: Map<u64, StackView>, keep: spec_fn(u64) -> bool) -> Map<
    u64,
    StackView,
> {
    Map::new(|k: u64| tiles.contains_key(k) && keep(k), |k: u64| tiles[k])
}

/// `tiles` with the first `n` slots of a map description written into it.
pub open spec fn with_description(
    tiles: Map<u64, StackView>,
    center: Position,
    floor: u8,
    stacks: Seq<StackView>,
    n: nat,
) -> Map<u64, StackView>
    decreases n,
{
    if n == 0 {
        tiles
    } else {
        let before = with_description(tiles, center, floor, stacks, (n - 1) as nat);
        match described(center, floor, n - 1) {
            Some(p) => before.insert(tile_key(p), stacks[n - 1]),
            None => before,
        }
    }
}

/// `tiles` with the first `n` tiles of a strip written into it.
pub open spec fn with_strip(
    tiles: Map<u64, StackView>,
    places: Seq<Position>,
    strip: Seq<StackView>,
    n: nat,
) -> Map<u64, StackView>
    decreases n,
{
    if n == 0 {
        tiles
    } else {
        with_strip(tiles, places, strip, (n - 1) as nat).insert(
            tile_key(places[n - 1]),
            strip[n - 1],
        )
    }
}

/// A mismatch is counted, and the first one is kept.
pub open spec fn with_mismatch(w: WorldView, mismatch: StripMismatch) -> WorldView {
    WorldView {
        strip_mismatches: w.strip_mismatches + 1,
        first_strip_mismatch: if w.first_strip_mismatch is None {
            Some(mismatch)
        } else {
            w.first_strip_mismatch
        },
        ..w
    }
}

/// The first `n` strips of a walk are written where they belong, or counted as mismatches.
pub open spec fn with_strips(
    w: WorldView,
    to: Position,
    direction: Direction,
    strips: Seq<(u8, Seq<StackView>)>,
    n: nat,
) -> WorldView
    decreases n,
{
    if n == 0 {
        w
    } else {
        let before = with_strips(w, to, direction, strips, (n - 1) as nat);
        let (floor, strip) = strips[n - 1];
        let places = uncovered(to, direction, floor);
        if places.len() == strip.len() {
            WorldView {
                tiles: with_strip(before.tiles, places, strip, strip.len()),
                ..before
            }
        } else {
            with_mismatch(
                before,
                StripMismatch::WrongLength {
                    floor,
                    expected: places.len() as usize,
                    actual: strip.len() as usize,
                },
            )
        }
    }
}

/// The direction of the step from one tile to the other, whatever their floors.
pub open spec fn step_between(from: Position, to: Position) -> Option<Direction> {
    if exists|d: Direction| d.dx() == to.x - from.x && d.dy() == to.y - from.y {
        Some(choose|d: Direction| d.dx() == to.x - from.x && d.dy() == to.y - from.y)
    } else {
        None
    }
}

/// What is known after a walk to `to` was acknowledged with these strips.
pub open spec fn after_walk(
    w: WorldView,
    to: Position,
    strips: Seq<(u8, Seq<StackView>)>,
) -> WorldView {
    let seen = match step_between(w.position, to) {
        Some(direction) => with_strips(w, to, direction, strips, strips.len()),
        None => if strips.len() > 0 {
            with_mismatch(w, StripMismatch::NotAStep { from: w.position, to })
        } else {
            w
        },
    };
    let count = w.walk_ack_count + 1;
    WorldView {
        position: to,
        walk_ack_count: count,
        tiles: if count % (TILE_PRUNE_INTERVAL as int) == 0 {
            only(seen.tiles, |k: u64| near(k, to))
        } else {
            seen.tiles
        },
        ..seen
    }
}

/// What is worn, by the slot's number.
pub open spec fn worn(e: Equipped) -> Map<u8, ItemId> {
    Map::new(
        |id: u8| InventorySlot::spec_from_id(id) is Some && slot_of(e, id) is Some,
        |id: u8| slot_of(e, id)->0,
    )
}

pub open spec fn slot_of(e: Equipped, id: u8) -> Option<ItemId> {
    match InventorySlot::spec_from_id(id) {
        Some(InventorySlot::Head) => e.head,
        Some(InventorySlot::Amulet) => e.amulet,
        Some(InventorySlot::Backpack) => e.backpack,
        Some(InventorySlot::Chest) => e.chest,
        Some(InventorySlot::RightHand) => e.right_hand,
        Some(InventorySlot::LeftHand) => e.left_hand,
        Some(InventorySlot::Legs) => e.legs,
        Some(InventorySlot::Feet) => e.feet,
        Some(InventorySlot::Ring) => e.ring,
        Some(InventorySlot::Trinket) => e.trinket,
        None => None,
    }
}

/// The spells of the first `n` entries of a list, a later entry replacing an earlier one.
pub open spec fn listed(entries: Seq<SpellListEntryView>, n: nat) -> Map<u16, KnownSpellView>
    decreases n,
{
    if n == 0 {
        Map::empty()
    } else {
        let e = entries[n - 1];
        listed(entries, (n - 1) as nat).insert(
            e.id.0,
            KnownSpellView { words: e.words, group: e.group },
        )
    }
}

/// What is known after `message`.
pub open spec fn after(w: WorldView, message: ServerMessageView) -> WorldView {
    match message {
        ServerMessageView::DescribePlayer {
            agent_id,
            position,
            name,
            speed,
            life,
            mana,
            equipped,
            ..
        } => WorldView {
            agent_id,
            position,
            name,
            speed,
            life,
            mana,
            equipment: worn(equipped),
            ..w
        },
        ServerMessageView::DescribeMap { tiles, center, floor } => WorldView {
            tiles: with_description(
                only(w.tiles, |k: u64| !on_floor(k, floor)),
                center,
                floor,
                tiles,
                if tiles.len() <= VIEWPORT_SIZE { tiles.len() } else { VIEWPORT_SIZE as nat },
            ),
            ..w
        },
        ServerMessageView::TileUpdated { position, items } => WorldView {
            tiles: w.tiles.insert(tile_key(position), items),
            ..w
        },
        ServerMessageView::PlayerWalkAck { position, tiles } => after_walk(w, position, tiles),
        ServerMessageView::SpawnAgent { agent_id, position, name, life, .. } => if agent_id
            != w.agent_id {
            WorldView {
                agents: w.agents.insert(agent_id.0, VisibleAgentView { position, name, life }),
                ..w
            }
        } else {
            w
        },
        ServerMessageView::MoveAgent { agent_id, direction, from } => if agent_id != w.agent_id {
            moved(w, agent_id, from.spec_step(direction))
        } else {
            w
        },
        ServerMessageView::TeleportAgent { agent_id, position } => if agent_id == w.agent_id {
            WorldView { position, ..w }
        } else {
            moved(w, agent_id, position)
        },
        ServerMessageView::RemoveAgent { agent_id } => WorldView {
            agents: w.agents.remove(agent_id.0),
            ..w
        },
        ServerMessageView::AgentLifeChanged { agent_id, current, max } => if agent_id
            == w.agent_id {
            WorldView { life: Pool { current, maximum: max }, ..w }
        } else if w.agents.contains_key(agent_id.0) {
            WorldView {
                agents: w.agents.insert(
                    agent_id.0,
                    VisibleAgentView { life: current, ..w.agents[agent_id.0] },
                ),
                ..w
            }
        } else {
            w
        },
        ServerMessageView::AgentManaUpdated { agent_id, current, max } => if agent_id
            == w.agent_id {
            WorldView { mana: Pool { current, maximum: max }, ..w }
        } else {
            w
        },
        ServerMessageView::IventorySlotUpdated { slot, item_id } => WorldView {
            equipment: match item_id {
                Some(id) => w.equipment.insert(slot.id(), id),
                None => w.equipment.remove(slot.id()),
            },
            ..w
        },
        ServerMessageView::AgentSpeedUpdated { agent_id, speed } => if agent_id == w.agent_id {
            WorldView { speed, ..w }
        } else {
            w
        },
        ServerMessageView::OpenContainer { container_id, items, .. } => WorldView {
            containers: w.containers.insert(container_id.0, items),
            ..w
        },
        ServerMessageView::UpdateContainer { container_id, items } => WorldView {
            containers: w.containers.insert(container_id.0, items),
            ..w
        },
        ServerMessageView::ContainerClosed { container_id } => WorldView {
            containers: w.containers.remove(container_id.0),
            carried: if w.carried == Some(container_id) {
                None
            } else {
                w.carried
            },
            ..w
        },
        ServerMessageView::SpellList { spells } => WorldView {
            spells: listed(spells, spells.len()),
            ..w
        },
        ServerMessageView::TargetLost { seq } => WorldView { target_lost_seq: Some(seq), ..w },
        _ => w,
    }
}

/// An agent in sight is at `position` now; one that is not in sight stays unknown.
pub open spec fn moved(w: WorldView, agent_id: AgentId, position: Position) -> WorldView {
    if w.agents.contains_key(agent_id.0) {
        WorldView {
            agents: w.agents.insert(
                agent_id.0,
                VisibleAgentView { position, ..w.agents[agent_id.0] },
            ),
            ..w
        }
    } else {
        w
    }
}

/// The counters have room for what `message` can add to them.
pub open spec fn has_room(w: WorldView, message: ServerMessageView) -> bool {
    message matches ServerMessageView::PlayerWalkAck { tiles, .. } ==> {
        &&& w.walk_ack_count < u32::MAX
        &&& w.strip_mismatches + tiles.len() < u64::MAX
    }
}

/// A copy of a container's places.
fn copy_slots(slots: &Vec<Option<(ItemId, u8)>>) -> (copy: Vec<Option<(ItemId, u8)>>)
    ensures
        copy@ == slots@,
{
    let mut copy: Vec<Option<(ItemId, u8)>> = Vec::new();
    let mut i: usize = 0;
    while i < slots.len()
        invariant
            i <= slots.len(),
            copy@ == slots@.take(i as int),
        decreases slots.len() - i,
    {
        copy.push(slots[i]);
        i += 1;
        assert(copy@ =~= slots@.take(i as int));
    }
    assert(copy@ =~= slots@);
    copy
}

/// Removes the tiles with these numbers.
fn forget(tiles: &mut HashMap<u64, ItemStack>, keys: &Vec<u64>)
    ensures
        tiles_view(final(tiles)@) =~= only(
            tiles_view(old(tiles)@),
            |k: u64| !keys@.contains(k),
        ),
{
    let ghost before = tiles@;
    let mut i: usize = 0;
    while i < keys.len()
        invariant
            i <= keys.len(),
            forall|k: u64| #[trigger]
                tiles@.contains_key(k) <==> before.contains_key(k) && !keys@.take(
                    i as int,
                ).contains(k),
            forall|k: u64| #[trigger] tiles@.contains_key(k) ==> tiles@[k] == before[k],
        decreases keys.len() - i,
    {
        let ghost here = tiles@;
        let key: u64 = keys[i];
        tiles.remove(&key);
        assert forall|k: u64| #[trigger] tiles@.contains_key(k) <==> before.contains_key(k)
            && !keys@.take(i + 1).contains(k) by {
            let next = keys@.take(i + 1);
            assert(next =~= keys@.take(i as int).push(key));
            if keys@.take(i as int).contains(k) {
                let j = choose|j: int| 0 <= j < i && keys@.take(i as int)[j] == k;
                assert(next[j] == k);
            }
            if next.contains(k) && k != key {
                let j = choose|j: int| 0 <= j < next.len() && next[j] == k;
                assert(keys@.take(i as int)[j] == k);
            }
            if k == key {
                assert(next[i as int] == k);
            }
        }
        i += 1;
    }
    assert(keys@.take(i as int) =~= keys@);
}

/// Forgets the tiles of `floor`.
fn forget_floor(tiles: &mut HashMap<u64, ItemStack>, floor: u8)
    ensures
        tiles_view(final(tiles)@) =~= only(tiles_view(old(tiles)@), |k: u64| !on_floor(k, floor)),
{
    let mut doomed: Vec<u64> = Vec::new();
    let ghost before = tiles@;
    for (key, _stack) in it: tiles.iter()
        invariant
            tiles@ == before,
            forall|k: u64| #[trigger]
                before.contains_key(k) ==> exists|i: int|
                    0 <= i < it.seq().len() && *(#[trigger] it.seq()[i]).0 == k,
            forall|k: u64| #[trigger]
                doomed@.contains(k) <==> on_floor(k, floor) && exists|i: int|
                    0 <= i < it.index() && *(#[trigger] it.seq()[i]).0 == k,
    {
        let ghost so_far = doomed@;
        let ghost n = it.index();
        assert(*it.seq()[n].0 == *key);
        if *key % 0x100 == floor as u64 {
            doomed.push(*key);
            assert forall|k: u64| #[trigger] doomed@.contains(k) <==> so_far.contains(k) || k
                == *key by {
                if so_far.contains(k) {
                    let j = choose|j: int| 0 <= j < so_far.len() && so_far[j] == k;
                    assert(doomed@[j] == k);
                }
                if k == *key {
                    assert(doomed@[so_far.len() as int] == k);
                }
            }
        }
    }
    forget(tiles, &doomed);
    assert forall|k: u64| before.contains_key(k) implies (doomed@.contains(k) <==> on_floor(
        k,
        floor,
    )) by {
    }
}

/// Forgets the tiles that are not near `center`.
fn forget_distant(tiles: &mut HashMap<u64, ItemStack>, center: &Position)
    ensures
        tiles_view(final(tiles)@) =~= only(tiles_view(old(tiles)@), |k: u64| near(k, *center)),
{
    let mut doomed: Vec<u64> = Vec::new();
    let ghost before = tiles@;
    for (key, _stack) in it: tiles.iter()
        invariant
            tiles@ == before,
            forall|k: u64| #[trigger]
                before.contains_key(k) ==> exists|i: int|
                    0 <= i < it.seq().len() && *(#[trigger] it.seq()[i]).0 == k,
            forall|k: u64| #[trigger]
                doomed@.contains(k) <==> !near(k, *center) && exists|i: int|
                    0 <= i < it.index() && *(#[trigger] it.seq()[i]).0 == k,
    {
        let ghost so_far = doomed@;
        let ghost n = it.index();
        assert(*it.seq()[n].0 == *key);
        let x: i64 = (*key / 0x100_0000) as i64;
        let y: i64 = (*key / 0x100 % 0x1_0000) as i64;
        let dx: i64 = x - center.x as i64;
        let dy: i64 = y - center.y as i64;
        if dx < -TILE_MEMORY_RADIUS || dx > TILE_MEMORY_RADIUS || dy < -TILE_MEMORY_RADIUS || dy
            > TILE_MEMORY_RADIUS {
            doomed.push(*key);
            assert forall|k: u64| #[trigger] doomed@.contains(k) <==> so_far.contains(k) || k
                == *key by {
                if so_far.contains(k) {
                    let j = choose|j: int| 0 <= j < so_far.len() && so_far[j] == k;
                    assert(doomed@[j] == k);
                }
                if k == *key {
                    assert(doomed@[so_far.len() as int] == k);
                }
            }
        }
    }
    forget(tiles, &doomed);
    assert forall|k: u64| before.contains_key(k) implies (doomed@.contains(k) <==> !near(
        k,
        *center,
    )) by {
    }
}

/// Writes the slots of a map description into `tiles`.
fn write_description(
    tiles: &mut HashMap<u64, ItemStack>,
    center: &Position,
    floor: u8,
    stacks: &Vec<ItemStack>,
)
    ensures
        tiles_view(final(tiles)@) == with_description(
            tiles_view(old(tiles)@),
            *center,
            floor,
            stacks_view(stacks@),
            if stacks@.len() <= VIEWPORT_SIZE { stacks@.len() } else { VIEWPORT_SIZE as nat },
        ),
{
    let positions = describe_map_positions(center, floor);
    let ghost before = tiles_view(tiles@);
    let mut i: usize = 0;
    while i < VIEWPORT_SIZE && i < stacks.len()
        invariant
            i <= VIEWPORT_SIZE,
            i <= stacks.len(),
            positions.len() == VIEWPORT_SIZE,
            forall|j: int| 0 <= j < VIEWPORT_SIZE ==> positions@[j] == described(*center, floor, j),
            tiles_view(tiles@) == with_description(
                before,
                *center,
                floor,
                stacks_view(stacks@),
                i as nat,
            ),
        decreases VIEWPORT_SIZE - i,
    {
        let ghost here = tiles@;
        if let Some(position) = positions[i] {
            let stack: ItemStack = stacks[i];
            let key: u64 = key_of(&position);
            tiles.insert(key, stack);
            assert(tiles_view(tiles@) =~= tiles_view(here).insert(key, stack@));
        }
        i += 1;
    }
}

/// Writes the tiles of a strip into `tiles`.
fn write_strip(tiles: &mut HashMap<u64, ItemStack>, places: &Vec<Position>, strip: &Vec<ItemStack>)
    requires
        places@.len() == strip@.len(),
    ensures
        tiles_view(final(tiles)@) == with_strip(
            tiles_view(old(tiles)@),
            places@,
            stacks_view(strip@),
            strip@.len(),
        ),
{
    let ghost before = tiles_view(tiles@);
    let mut i: usize = 0;
    while i < strip.len()
        invariant
            i <= strip.len(),
            places@.len() == strip@.len(),
            tiles_view(tiles@) == with_strip(before, places@, stacks_view(strip@), i as nat),
        decreases strip.len() - i,
    {
        let ghost here = tiles@;
        let stack: ItemStack = strip[i];
        let key: u64 = key_of(&places[i]);
        tiles.insert(key, stack);
        assert(tiles_view(tiles@) =~= tiles_view(here).insert(key, stack@));
        i += 1;
    }
}

proof fn lemma_step_between(from: Position, to: Position, r: Option<Direction>)
    requires
        r matches Some(d) ==> d.dx() == to.x - from.x && d.dy() == to.y - from.y,
        r is None ==> forall|d: Direction|
            !(#[trigger] d.dx() == to.x - from.x && d.dy() == to.y - from.y),
    ensures
        r == step_between(from, to),
{
    if let Some(d) = r {
        let c = step_between(from, to)->0;
        assert(d.dx() == to.x - from.x && d.dy() == to.y - from.y);
        assert(step_between(from, to) is Some);
        assert(c == d);
    }
}

impl World {
    pub fn new(items: ItemCatalogue) -> (w: Self)
        ensures
            w.items == items,
            w@ == (WorldView {
                agent_id: AgentId(0),
                position: Position { x: 0, y: 0, z: 7 },
                name: Seq::empty(),
                speed: 100,
                life: Pool { current: 1, maximum: 1 },
                mana: Pool { current: 0, maximum: 0 },
                agents: Map::empty(),
                tiles: Map::empty(),
                equipment: Map::empty(),
                containers: Map::empty(),
                carried: None,
                spells: Map::empty(),
                strip_mismatches: 0,
                first_strip_mismatch: None,
                target_lost_seq: None,
                spell_cooldowns: Map::empty(),
                group_cooldowns: Map::empty(),
                walk_ack_count: 0,
            }),
    {
        let w = World {
            items,
            agent_id: AgentId(0),
            position: Position::new(0, 0, 7),
            name: String::new(),
            speed: 100,
            life: Pool { current: 1, maximum: 1 },
            mana: Pool { current: 0, maximum: 0 },
            agents: HashMap::new(),
            tiles: HashMap::new(),
            equipment: HashMap::new(),
            containers: HashMap::new(),
            carried: None,
            spells: HashMap::new(),
            strip_mismatches: 0,
            first_strip_mismatch: None,
            target_lost_seq: None,
            spell_cooldowns: HashMap::new(),
            group_cooldowns: HashMap::new(),
            walk_ack_count: 0,
        };
        assert(w@.agents =~= Map::empty());
        assert(w@.tiles =~= Map::empty());
        assert(w@.containers =~= Map::empty());
        assert(w@.spells =~= Map::empty());
        assert(w@.name =~= Seq::empty());
        w
    }

    fn wear(&mut self, slot: InventorySlot, item: Option<ItemId>)
        ensures
            final(self).equipment@ == match item {
                Some(id) => old(self).equipment@.insert(slot.id(), id),
                None => old(self).equipment@,
            },
            final(self)@ == (WorldView { equipment: final(self).equipment@, ..old(self)@ }),
            final(self).items == old(self).items,
    {
        if let Some(id) = item {
            self.equipment.insert(slot.as_id(), id);
        }
    }

    fn move_visible(&mut self, agent_id: AgentId, position: Position)
        ensures
            final(self)@ == moved(old(self)@, agent_id, position),
            final(self).items == old(self).items,
    {
        let ghost before = self.agents@;
        if let Some(mut agent) = self.agents.remove(&agent_id.0) {
            agent.position = position;
            self.agents.insert(agent_id.0, agent);
            assert(agents_view(self.agents@) =~= moved(old(self)@, agent_id, position).agents);
        } else {
            assert(self.agents@ =~= before);
        }
    }

    fn record_strip_mismatch(&mut self, mismatch: StripMismatch)
        requires
            old(self)@.strip_mismatches < u64::MAX,
        ensures
            final(self)@ == with_mismatch(old(self)@, mismatch),
            final(self).items == old(self).items,
    {
        self.strip_mismatches = self.strip_mismatches + 1;
        if self.first_strip_mismatch.is_none() {
            self.first_strip_mismatch = Some(mismatch);
        }
    }

    fn apply_walk_ack(&mut self, position: &Position, tiles: &Vec<(u8, Vec<ItemStack>)>)
        requires
            old(self)@.walk_ack_count < u32::MAX,
            old(self)@.strip_mismatches + tiles@.len() < u64::MAX,
        ensures
            final(self)@ == after_walk(old(self)@, *position, strips_view(tiles@)),
            final(self).items == old(self).items,
    {
        let ghost w = self@;
        let dx: i32 = position.x as i32 - self.position.x as i32;
        let dy: i32 = position.y as i32 - self.position.y as i32;
        let direction = Direction::from_step(dx, dy);
        proof {
            lemma_step_between(self.position, *position, direction);
        }
        match direction {
            Some(direction) => {
                let mut i: usize = 0;
                while i < tiles.len()
                    invariant
                        i <= tiles.len(),
                        w.strip_mismatches + tiles@.len() < u64::MAX,
                        self@.strip_mismatches <= w.strip_mismatches + i,
                        self@ == with_strips(w, *position, direction, strips_view(tiles@), i as nat),
                        self@.position == w.position,
                        self.items == old(self).items,
                        self@.walk_ack_count == w.walk_ack_count,
                    decreases tiles.len() - i,
                {
                    let floor: u8 = tiles[i].0;
                    let expected = expansion_positions(position, direction, floor);
                    let ghost here = self@;
                    let strip: &Vec<ItemStack> = &tiles[i].1;
                    assert(strips_view(tiles@)[i as int] == (floor, stacks_view(strip@)));
                    if expected.len() == strip.len() {
                        write_strip(&mut self.tiles, &expected, strip);
                    } else {
                        self.record_strip_mismatch(
                            StripMismatch::WrongLength {
                                floor,
                                expected: expected.len(),
                                actual: strip.len(),
                            },
                        );
                    }
                    i += 1;
                }
            },
            None => {
                if tiles.len() > 0 {
                    let from = self.position;
                    self.record_strip_mismatch(StripMismatch::NotAStep { from, to: *position });
                }
            },
        }
        let ghost seen = self@;
        self.position = *position;
        self.walk_ack_count = self.walk_ack_count + 1;
        if self.walk_ack_count % TILE_PRUNE_INTERVAL == 0 {
            forget_distant(&mut self.tiles, position);
        }
    }

    fn learn_spells(&mut self, spells: &Vec<SpellListEntry>)
        ensures
            final(self)@ == (WorldView {
                spells: listed(spells_view(spells@), spells@.len()),
                ..old(self)@
            }),
            final(self).items == old(self).items,
    {
        self.spells.clear();
        assert(known_view(self.spells@) =~= Map::empty());
        let mut i: usize = 0;
        while i < spells.len()
            invariant
                i <= spells.len(),
                self@ == (WorldView { spells: listed(spells_view(spells@), i as nat), ..old(self)@ }),
                self.items == old(self).items,
            decreases spells.len() - i,
        {
            let ghost here = self.spells@;
            let entry = &spells[i];
            let words = entry.words.clone();
            let known = KnownSpell { words, group: entry.group };
            let ghost seen = known@;
            self.spells.insert(entry.id.0, known);
            assert(known_view(self.spells@) =~= known_view(here).insert(entry.id.0, seen));
            i += 1;
        }
    }

    /// Takes in a message from the server.
    pub fn apply(&mut self, message: &ServerMessage)
        requires
            has_room(old(self)@, message@),
        ensures
            final(self)@ == after(old(self)@, message@),
            final(self).items == old(self).items,
    {
        let ghost w = self@;
        match message {
            ServerMessage::DescribePlayer {
                agent_id,
                position,
                name,
                speed,
                life,
                mana,
                inventory_head,
                inventory_amulet,
                inventory_backpack,
                inventory_chest,
                inventory_right_hand,
                inventory_left_hand,
                inventory_legs,
                inventory_feet,
                inventory_ring,
                inventory_trinket,
                ..
            } => {
                self.agent_id = *agent_id;
                self.position = *position;
                self.name = name.clone();
                self.speed = *speed;
                self.life = *life;
                self.mana = *mana;
                self.equipment.clear();
                self.wear(InventorySlot::Head, *inventory_head);
                self.wear(InventorySlot::Amulet, *inventory_amulet);
                self.wear(InventorySlot::Backpack, *inventory_backpack);
                self.wear(InventorySlot::Chest, *inventory_chest);
                self.wear(InventorySlot::RightHand, *inventory_right_hand);
                self.wear(InventorySlot::LeftHand, *inventory_left_hand);
                self.wear(InventorySlot::Legs, *inventory_legs);
                self.wear(InventorySlot::Feet, *inventory_feet);
                self.wear(InventorySlot::Ring, *inventory_ring);
                self.wear(InventorySlot::Trinket, *inventory_trinket);
                assert(self@.equipment =~= after(w, message@).equipment);
            },
            ServerMessage::DescribeMap { tiles, center, floor } => {
                forget_floor(&mut self.tiles, *floor);
                write_description(&mut self.tiles, center, *floor, tiles);
            },
            ServerMessage::TileUpdated { position, items } => {
                let stack: ItemStack = *items;
                self.tiles.insert(key_of(position), stack);
                assert(self@.tiles =~= after(w, message@).tiles);
            },
            ServerMessage::PlayerWalkAck { position, tiles } => {
                self.apply_walk_ack(position, tiles);
            },
            ServerMessage::SpawnAgent { agent_id, position, name, life, .. } => {
                if *agent_id != self.agent_id {
                    let agent = VisibleAgent { position: *position, name: name.clone(), life: *life };
                    self.agents.insert(agent_id.0, agent);
                    assert(self@.agents =~= after(w, message@).agents);
                }
            },
            ServerMessage::MoveAgent { agent_id, direction, from } => {
                if *agent_id != self.agent_id {
                    self.move_visible(*agent_id, from.step(*direction));
                }
            },
            ServerMessage::TeleportAgent { agent_id, position } => {
                if *agent_id == self.agent_id {
                    self.position = *position;
                } else {
                    self.move_visible(*agent_id, *position);
                }
            },
            ServerMessage::RemoveAgent { agent_id } => {
                self.agents.remove(&agent_id.0);
                assert(self@.agents =~= after(w, message@).agents);
            },
            ServerMessage::AgentLifeChanged { agent_id, current, max } => {
                if *agent_id == self.agent_id {
                    self.life = Pool { current: *current, maximum: *max };
                } else if let Some(mut agent) = self.agents.remove(&agent_id.0) {
                    agent.life = *current;
                    self.agents.insert(agent_id.0, agent);
                    assert(self@.agents =~= after(w, message@).agents);
                } else {
                    assert(self@.agents =~= w.agents);
                }
            },
            ServerMessage::AgentManaUpdated { agent_id, current, max } => {
                if *agent_id == self.agent_id {
                    self.mana = Pool { current: *current, maximum: *max };
                }
            },
            ServerMessage::IventorySlotUpdated { slot, item_id } => match item_id {
                Some(id) => {
                    self.equipment.insert(slot.as_id(), *id);
                },
                None => {
                    self.equipment.remove(&slot.as_id());
                },
            },
            ServerMessage::AgentSpeedUpdated { agent_id, speed } => {
                if *agent_id == self.agent_id {
                    self.speed = *speed;
                }
            },
            ServerMessage::OpenContainer { container_id, items, .. }
            | ServerMessage::UpdateContainer { container_id, items } => {
                self.containers.insert(container_id.0, copy_slots(items));
                assert(self@.containers =~= after(w, message@).containers);
            },
            ServerMessage::ContainerClosed { container_id } => {
                self.containers.remove(&container_id.0);
                assert(self@.containers =~= after(w, message@).containers);
                if self.carried == Some(*container_id) {
                    self.carried = None;
                }
            },
            ServerMessage::SpellList { spells } => {
                self.learn_spells(spells);
            },
            ServerMessage::TargetLost { seq } => {
                self.target_lost_seq = Some(*seq);
            },
            _ => {},
        }
    }
}

/// Every item there is known and lets walkers through, and one of them is ground.
pub open spec fn passable(items: Map<u16, Arc<ItemConfig>>, stack: StackView) -> bool {
    &&& forall|i: int|
        0 <= i < stack.len() ==> ((#[trigger] stack[i]) matches Some((id, _)) ==> items.contains_key(
            id.0,
        ) && !items[id.0].flagged(ItemFlag::Unpass))
    &&& exists|i: int|
        0 <= i < stack.len() && ((#[trigger] stack[i]) matches Some((id, _)) && items[id.0].flagged(
            ItemFlag::Ground,
        ))
}

/// The friction of the first item there that has one.
pub open spec fn stack_friction(items: Map<u16, Arc<ItemConfig>>, stack: StackView) -> Option<u16>
    decreases stack.len(),
{
    if stack.len() == 0 {
        None
    } else {
        let here = match stack[0] {
            Some((id, _)) => if items.contains_key(id.0) {
                items[id.0].tile_friction()
            } else {
                None
            },
            None => None,
        };
        if here is Some {
            here
        } else {
            stack_friction(items, stack.drop_first())
        }
    }
}

/// How much of `item` lies in the places.
pub open spec fn total_of(slots: StackView, item: ItemId) -> int
    decreases slots.len(),
{
    if slots.len() == 0 {
        0
    } else {
        total_of(slots.drop_last(), item) + match slots.last() {
            Some((id, amount)) => if id == item {
                amount as int
            } else {
                0
            },
            None => 0,
        }
    }
}

proof fn lemma_total_grows(slots: StackView, item: ItemId, n: int)
    requires
        0 <= n <= slots.len(),
    ensures
        0 <= total_of(slots.take(n), item) <= total_of(slots, item),
    decreases slots.len(),
{
    if n == slots.len() {
        assert(slots.take(n) =~= slots);
        if n > 0 {
            lemma_total_grows(slots.drop_last(), item, n - 1);
            assert(slots.drop_last().take(n - 1) =~= slots.drop_last());
        }
    } else {
        lemma_total_grows(slots.drop_last(), item, n);
        assert(slots.drop_last().take(n) =~= slots.take(n));
    }
}

impl World {
    /// A cast was answered: the spell and its group can be used again only after the times that
    /// the answer names. It carries no group, so the caller, which sent the cast, supplies it
    /// along with the clock that the times run on.
    pub fn apply_at(&mut self, message: &ServerMessage, group: SpellGroup, now: Instant)
        requires
            now.nanos <= u128::MAX / 2,
        ensures
            final(self).items == old(self).items,
            final(self)@ == match message@ {
                ServerMessageView::SpellCast { spell, spell_cooldown_ms, group_cooldown_ms } =>
                    WorldView {
                        spell_cooldowns: old(self)@.spell_cooldowns.insert(
                            spell.0,
                            Instant { nanos: (now.nanos + spell_cooldown_ms * 1_000_000) as u128 },
                        ),
                        group_cooldowns: old(self)@.group_cooldowns.insert(
                            group_key(group),
                            Instant { nanos: (now.nanos + group_cooldown_ms * 1_000_000) as u128 },
                        ),
                        ..old(self)@
                    },
                _ => old(self)@,
            },
    {
        if let ServerMessage::SpellCast { spell, spell_cooldown_ms, group_cooldown_ms } = message {
            self.spell_cooldowns.insert(
                spell.0,
                now.plus(Duration::from_millis(*spell_cooldown_ms as u64)),
            );
            self.group_cooldowns.insert(
                key_of_group(group),
                now.plus(Duration::from_millis(*group_cooldown_ms as u64)),
            );
        }
    }

    /// The bot has seen the tile and can step on it.
    pub open spec fn walkable(&self, position: Position) -> bool {
        self@.tiles.contains_key(tile_key(position)) && passable(
            self.items@,
            self@.tiles[tile_key(position)],
        )
    }

    /// The bot has seen the tile and can step on it.
    pub fn is_walkable(&self, position: Position) -> (r: bool)
        ensures
            r == self.walkable(position),
    {
        let key: u64 = key_of(&position);
        let stack: ItemStack = match self.tiles.get(&key) {
            Some(stack) => *stack,
            None => return false,
        };
        assert(self@.tiles[key] == stack@);
        let mut has_ground: bool = false;
        let mut i: usize = 0;
        while i < 8
            invariant
                i <= 8,
                key == tile_key(position),
                self@.tiles.contains_key(key),
                self@.tiles[key] == stack@,
                forall|j: int|
                    0 <= j < i ==> ((#[trigger] stack@[j]) matches Some((id, _)) ==> self.items@.contains_key(
                        id.0,
                    ) && !self.items@[id.0].flagged(ItemFlag::Unpass)),
                has_ground == exists|j: int|
                    0 <= j < i && ((#[trigger] stack@[j]) matches Some((id, _)) && self.items@[id.0].flagged(
                        ItemFlag::Ground,
                    )),
            decreases 8 - i,
        {
            if let Some((item_id, _)) = stack[i] {
                let config = match self.items.get(&item_id.0) {
                    Some(config) => config,
                    None => return false,
                };
                if config.has_flag(ItemFlag::Unpass) {
                    return false;
                }
                if config.has_flag(ItemFlag::Ground) {
                    has_ground = true;
                }
            }
            i += 1;
        }
        has_ground
    }

    /// How much the tile slows a walker down, `None` where that is not known.
    pub open spec fn friction(&self, position: Position) -> Option<u16> {
        if self@.tiles.contains_key(tile_key(position)) {
            stack_friction(self.items@, self@.tiles[tile_key(position)])
        } else {
            None
        }
    }

    /// How much the tile slows a walker down, `None` where that is not known.
    pub fn friction_at(&self, position: Position) -> (r: Option<u16>)
        ensures
            r == self.friction(position),
    {
        let key: u64 = key_of(&position);
        let stack: ItemStack = match self.tiles.get(&key) {
            Some(stack) => *stack,
            None => return None,
        };
        assert(self@.tiles[key] == stack@);
        let mut i: usize = 0;
        assert(stack@.skip(0) =~= stack@);
        while i < 8
            invariant
                i <= 8,
                self.friction(position) == stack_friction(self.items@, stack@.skip(i as int)),
            decreases 8 - i,
        {
            assert(stack@.skip(i as int).drop_first() =~= stack@.skip(i + 1));
            if let Some((item_id, _)) = stack[i] {
                if let Some(config) = self.items.get(&item_id.0) {
                    let friction = config.attr_tile_friction();
                    if friction.is_some() {
                        return friction;
                    }
                }
            }
            i += 1;
        }
        None
    }

    /// Takes a container to be the bot's own backpack, in place of any other. A container is
    /// never taken to be that by itself: what is said of an open one does not tell where it is.
    pub fn mark_carried(&mut self, id: ContainerId)
        ensures
            final(self)@ == (WorldView { carried: Some(id), ..old(self)@ }),
            final(self).items == old(self).items,
    {
        self.carried = Some(id);
    }

    /// The bot's own backpack, once it is open and marked.
    pub fn backpack(&self) -> (r: Option<ContainerId>)
        ensures
            r == self@.carried,
    {
        self.carried
    }

    /// How much of `item` lies in the marked container.
    pub open spec fn carried_total(&self, item: ItemId) -> int {
        match self@.carried {
            Some(id) => if self@.containers.contains_key(id.0) {
                total_of(self@.containers[id.0], item)
            } else {
                0
            },
            None => 0,
        }
    }

    /// How much of `item` the bot has in its backpack. What it wears is not counted, for want of
    /// an amount, and neither is an open container that is not marked as its own.
    pub fn carried_amount(&self, item: ItemId) -> (r: u32)
        requires
            self.carried_total(item) <= u32::MAX,
        ensures
            r == self.carried_total(item),
    {
        let id: ContainerId = match self.carried {
            Some(id) => id,
            None => return 0,
        };
        let slots = match self.containers.get(&id.0) {
            Some(slots) => slots,
            None => return 0,
        };
        assert(self@.containers[id.0] == slots@);
        let mut total: u32 = 0;
        let mut i: usize = 0;
        while i < slots.len()
            invariant
                i <= slots.len(),
                total == total_of(slots@.take(i as int), item),
                total_of(slots@, item) <= u32::MAX,
            decreases slots.len() - i,
        {
            proof {
                lemma_total_grows(slots@, item, i + 1);
                assert(slots@.take(i + 1).drop_last() =~= slots@.take(i as int));
            }
            if let Some((id, amount)) = slots[i] {
                if id == item {
                    total = total + amount as u32;
                }
            }
            i += 1;
        }
        assert(slots@.take(i as int) =~= slots@);
        total
    }

    /// Neither the spell nor its group is waiting for its time.
    pub open spec fn ready(&self, id: SpellId, group: SpellGroup, now: Instant) -> bool {
        &&& self@.spell_cooldowns.contains_key(id.0) ==> now.nanos
            >= self@.spell_cooldowns[id.0].nanos
        &&& self@.group_cooldowns.contains_key(group_key(group)) ==> now.nanos
            >= self@.group_cooldowns[group_key(group)].nanos
    }

    /// Whether neither the spell nor its group is waiting for its time.
    pub fn spell_ready(&self, id: SpellId, group: SpellGroup, now: Instant) -> (r: bool)
        ensures
            r == self.ready(id, group, now),
    {
        let spell_ready: bool = match self.spell_cooldowns.get(&id.0) {
            Some(ready_at) => now.nanos >= ready_at.nanos,
            None => true,
        };
        let group_ready: bool = match self.group_cooldowns.get(&key_of_group(group)) {
            Some(ready_at) => now.nanos >= ready_at.nanos,
            None => true,
        };
        spell_ready && group_ready
    }
}

/// The bot's own agent is never among those that it sees, once it was told who it is, whatever
/// it is told next.
pub proof fn law_never_sees_itself(w: WorldView, message: ServerMessageView)
    requires
        !w.agents.contains_key(w.agent_id.0),
        !(message is DescribePlayer),
    ensures
        !after(w, message).agents.contains_key(after(w, message).agent_id.0),
{
    if let ServerMessageView::PlayerWalkAck { position, tiles } = message {
        if let Some(direction) = step_between(w.position, position) {
            lemma_strips_touch_only_tiles(w, position, direction, tiles, tiles.len());
        }
    }
}

/// Strips change the tiles and the record of mismatches, and nothing else.
proof fn lemma_strips_touch_only_tiles(
    w: WorldView,
    to: Position,
    direction: Direction,
    strips: Seq<(u8, Seq<StackView>)>,
    n: nat,
)
    ensures
        ({
            let after = with_strips(w, to, direction, strips, n);
            after == WorldView {
                tiles: after.tiles,
                strip_mismatches: after.strip_mismatches,
                first_strip_mismatch: after.first_strip_mismatch,
                ..w
            }
        }),
    decreases n,
{
    if n > 0 {
        lemma_strips_touch_only_tiles(w, to, direction, strips, (n - 1) as nat);
    }
}

/// An acknowledged walk leaves the bot where the server says it is, whatever came with it.
pub proof fn law_a_walk_lands_where_it_was_acknowledged(
    w: WorldView,
    position: Position,
    tiles: Seq<(u8, Seq<StackView>)>,
)
    ensures
        after(w, ServerMessageView::PlayerWalkAck { position, tiles }).position == position,
{
}

/// The description of one floor leaves every tile of every other floor as it was.
pub proof fn law_a_description_keeps_other_floors(
    w: WorldView,
    tiles: Seq<StackView>,
    center: Position,
    floor: u8,
    other: Position,
)
    requires
        other.z != floor,
    ensures
        ({
            let seen = after(w, ServerMessageView::DescribeMap { tiles, center, floor });
            &&& seen.tiles.contains_key(tile_key(other)) == w.tiles.contains_key(tile_key(other))
            &&& w.tiles.contains_key(tile_key(other)) ==> seen.tiles[tile_key(other)]
                == w.tiles[tile_key(other)]
        }),
{
    let kept = only(w.tiles, |k: u64| !on_floor(k, floor));
    let n = if tiles.len() <= VIEWPORT_SIZE { tiles.len() } else { VIEWPORT_SIZE as nat };
    lemma_near(other, other);
    lemma_description_stays_on_its_floor(kept, center, floor, tiles, n, other);
}

proof fn lemma_description_stays_on_its_floor(
    tiles: Map<u64, StackView>,
    center: Position,
    floor: u8,
    stacks: Seq<StackView>,
    n: nat,
    other: Position,
)
    requires
        other.z != floor,
    ensures
        ({
            let seen = with_description(tiles, center, floor, stacks, n);
            &&& seen.contains_key(tile_key(other)) == tiles.contains_key(tile_key(other))
            &&& seen[tile_key(other)] == tiles[tile_key(other)]
        }),
    decreases n,
{
    if n > 0 {
        lemma_description_stays_on_its_floor(tiles, center, floor, stacks, (n - 1) as nat, other);
        if let Some(p) = described(center, floor, n - 1) {
            if tile_key(p) == tile_key(other) {
                lemma_tile_keys_differ(p, other);
            }
        }
    }
}

/// Opening a container that is not marked as the bot's own leaves what it carries as it was.
pub proof fn law_only_the_marked_container_is_carried(
    before: World,
    later: World,
    opened: ContainerId,
    items: StackView,
    item: ItemId,
)
    requires
        before@.carried != Some(opened),
        later@ == (WorldView {
            containers: before@.containers.insert(opened.0, items),
            ..before@
        }),
    ensures
        later.carried_total(item) == before.carried_total(item),
{
}

impl World {
    /// A bot carries no less than nothing of anything.
    pub proof fn lemma_carried(&self, item: ItemId)
        ensures
            self.carried_total(item) >= 0,
    {
        if let Some(id) = self@.carried {
            if self@.containers.contains_key(id.0) {
                lemma_total(self@.containers[id.0], item);
            }
        }
    }
}

proof fn lemma_total(slots: StackView, item: ItemId)
    ensures
        total_of(slots, item) >= 0,
    decreases slots.len(),
{
    if slots.len() > 0 {
        lemma_total(slots.drop_last(), item);
    }
}

/// Two tiles that differ are kept apart, and what is told of one tile changes no other.
pub proof fn law_a_tile_is_what_was_last_told_of_it(
    w: WorldView,
    position: Position,
    items: StackView,
    other: Position,
)
    ensures
        ({
            let seen = after(w, ServerMessageView::TileUpdated { position, items });
            &&& seen.tiles.contains_key(tile_key(position)) && seen.tiles[tile_key(position)]
                == items
            &&& other != position ==> (seen.tiles.contains_key(tile_key(other))
                == w.tiles.contains_key(tile_key(other)) && seen.tiles[tile_key(other)]
                == w.tiles[tile_key(other)])
            &&& seen.position == w.position && seen.agents == w.agents
        }),
{
    if tile_key(position) == tile_key(other) {
        lemma_tile_keys_differ(position, other);
    }
}

/// A description of a floor is taken in tile by tile in the order in which it is sent; tiles of
/// that floor that it does not reach are forgotten.
pub proof fn law_a_description_replaces_its_floor(
    w: WorldView,
    tiles: Seq<StackView>,
    center: Position,
    floor: u8,
    index: int,
    p: Position,
)
    requires
        inland(center, floor),
        0 <= index < tiles.len(),
        index < VIEWPORT_SIZE,
        p.z == floor,
    ensures
        ({
            let seen = after(w, ServerMessageView::DescribeMap { tiles, center, floor });
            &&& described(center, floor, index) matches Some(at) && seen.tiles.contains_key(
                tile_key(at),
            ) && seen.tiles[tile_key(at)] == tiles[index]
            &&& !in_sight(center.x as int, center.y as int, center.z as int, p)
                ==> !seen.tiles.contains_key(tile_key(p))
        }),
{
    let kept = only(w.tiles, |k: u64| !on_floor(k, floor));
    let n = if tiles.len() <= VIEWPORT_SIZE { tiles.len() } else { VIEWPORT_SIZE as nat };
    law_described_tiles_are_distinct(center, floor, index, index);
    lemma_described_there(kept, center, floor, tiles, n, index);
    if !in_sight(center.x as int, center.y as int, center.z as int, p) {
        lemma_near(p, p);
        lemma_not_described(kept, center, floor, tiles, n, p);
    }
}

proof fn lemma_described_there(
    tiles: Map<u64, StackView>,
    center: Position,
    floor: u8,
    stacks: Seq<StackView>,
    n: nat,
    index: int,
)
    requires
        inland(center, floor),
        0 <= index < n <= VIEWPORT_SIZE,
        described(center, floor, index) is Some,
    ensures
        ({
            let seen = with_description(tiles, center, floor, stacks, n);
            let key = tile_key(described(center, floor, index).unwrap());
            seen.contains_key(key) && seen[key] == stacks[index]
        }),
    decreases n,
{
    if index < n - 1 {
        lemma_described_there(tiles, center, floor, stacks, (n - 1) as nat, index);
        if let Some(p) = described(center, floor, n - 1) {
            let at = described(center, floor, index).unwrap();
            if tile_key(p) == tile_key(at) {
                lemma_tile_keys_differ(p, at);
                law_described_tiles_are_distinct(center, floor, index, n - 1);
            }
        }
    }
}

proof fn lemma_not_described(
    tiles: Map<u64, StackView>,
    center: Position,
    floor: u8,
    stacks: Seq<StackView>,
    n: nat,
    p: Position,
)
    requires
        inland(center, floor),
        n <= VIEWPORT_SIZE,
        p.z == floor,
        !in_sight(center.x as int, center.y as int, center.z as int, p),
        !tiles.contains_key(tile_key(p)),
    ensures
        !with_description(tiles, center, floor, stacks, n).contains_key(tile_key(p)),
    decreases n,
{
    if n > 0 {
        lemma_not_described(tiles, center, floor, stacks, (n - 1) as nat, p);
        if let Some(at) = described(center, floor, n - 1) {
            if tile_key(at) == tile_key(p) {
                lemma_tile_keys_differ(at, p);
                assert(0 <= (n - 1) % 19 < 19);
                assert(0 <= (n - 1) / 19 < 15);
            }
        }
    }
}

/// A step takes in the strip of each floor, tile by tile where it has as many as come into view; a
/// strip of another length is counted and changes no tile.
pub proof fn law_a_strip_is_taken_in_where_it_fits(
    w: WorldView,
    to: Position,
    direction: Direction,
    floor: u8,
    strip: Seq<StackView>,
    i: int,
    other: Position,
)
    requires
        inland(to, floor),
        w.position.x == to.x - direction.dx(),
        w.position.y == to.y - direction.dy(),
        (w.walk_ack_count + 1) % 64 != 0,
        0 <= i < strip.len(),
        strip.len() <= usize::MAX,
    ensures
        ({
            let seen = after(
                w,
                ServerMessageView::PlayerWalkAck { position: to, tiles: seq![(floor, strip)] },
            );
            let places = uncovered(to, direction, floor);
            &&& strip.len() == places.len() ==> {
                &&& seen.tiles.contains_key(tile_key(places[i])) && seen.tiles[tile_key(places[i])]
                    == strip[i]
                &&& seen.strip_mismatches == w.strip_mismatches
                &&& !places.contains(other) ==> (seen.tiles.contains_key(tile_key(other))
                    == w.tiles.contains_key(tile_key(other)) && seen.tiles[tile_key(other)]
                    == w.tiles[tile_key(other)])
            }
            &&& strip.len() != places.len() ==> {
                &&& seen.tiles == w.tiles
                &&& seen.strip_mismatches == w.strip_mismatches + 1
            }
        }),
{
    let strips = seq![(floor, strip)];
    let places = uncovered(to, direction, floor);
    lemma_step_between(w.position, to, Some(direction));
    reveal_with_fuel(with_strips, 2);
    assert(with_strips(w, to, direction, strips, 0) == w);
    assert(strips[0] == (floor, strip));
    if strip.len() == places.len() {
        law_uncovered_tiles_are_distinct(to, direction, floor);
        lemma_strip_there(w.tiles, places, strip, strip.len(), i);
        if !places.contains(other) {
            lemma_strip_elsewhere(w.tiles, places, strip, strip.len(), other);
        }
    }
}

proof fn lemma_strip_there(
    tiles: Map<u64, StackView>,
    places: Seq<Position>,
    strip: Seq<StackView>,
    n: nat,
    i: int,
)
    requires
        places.no_duplicates(),
        0 <= i < n <= places.len(),
        places.len() == strip.len(),
    ensures
        with_strip(tiles, places, strip, n).contains_key(tile_key(places[i])),
        with_strip(tiles, places, strip, n)[tile_key(places[i])] == strip[i],
    decreases n,
{
    if i < n - 1 {
        lemma_strip_there(tiles, places, strip, (n - 1) as nat, i);
        if tile_key(places[i]) == tile_key(places[n - 1]) {
            lemma_tile_keys_differ(places[i], places[n - 1]);
        }
    }
}

proof fn lemma_strip_elsewhere(
    tiles: Map<u64, StackView>,
    places: Seq<Position>,
    strip: Seq<StackView>,
    n: nat,
    other: Position,
)
    requires
        !places.contains(other),
        n <= places.len(),
        places.len() == strip.len(),
    ensures
        with_strip(tiles, places, strip, n).contains_key(tile_key(other)) == tiles.contains_key(
            tile_key(other),
        ),
        with_strip(tiles, places, strip, n)[tile_key(other)] == tiles[tile_key(other)],
    decreases n,
{
    if n > 0 {
        lemma_strip_elsewhere(tiles, places, strip, (n - 1) as nat, other);
        if tile_key(places[n - 1]) == tile_key(other) {
            lemma_tile_keys_differ(places[n - 1], other);
        }
    }
}

/// Now and then a step forgets the tiles that lie further off than a bot remembers, and no others.
pub proof fn law_only_distant_tiles_are_forgotten(w: WorldView, to: Position, p: Position)
    requires
        w.tiles.contains_key(tile_key(p)),
    ensures
        ({
            let seen = after(w, ServerMessageView::PlayerWalkAck { position: to, tiles: seq![] });
            let far = p.x - to.x > TILE_MEMORY_RADIUS || to.x - p.x > TILE_MEMORY_RADIUS || p.y
                - to.y > TILE_MEMORY_RADIUS || to.y - p.y > TILE_MEMORY_RADIUS;
            &&& seen.tiles.contains_key(tile_key(p)) <==> !(far && (w.walk_ack_count + 1) % (
            TILE_PRUNE_INTERVAL as int) == 0)
            &&& seen.walk_ack_count == w.walk_ack_count + 1
            &&& seen.strip_mismatches == w.strip_mismatches
        }),
{
    lemma_near(p, to);
}

/// A bot sees another agent where it was last told that it is: where it appeared, on the tile that
/// lies in the direction of its step from where it set out, or where it was taken to. Of one that
/// it does not see, and of itself, a step tells it nothing.
pub proof fn law_agents_are_seen_where_they_were_told(
    w: WorldView,
    agent_id: AgentId,
    from: Position,
    direction: Direction,
    to: Position,
    other: u16,
)
    requires
        other != agent_id.0,
        0 < from.x < u16::MAX,
        0 < from.y < u16::MAX,
        agent_id != w.agent_id,
    ensures
        ({
            let stepped = after(w, ServerMessageView::MoveAgent { agent_id, direction, from });
            let taken = after(w, ServerMessageView::TeleportAgent { agent_id, position: to });
            let gone = after(w, ServerMessageView::RemoveAgent { agent_id });
            &&& w.agents.contains_key(agent_id.0) ==> {
                &&& stepped.agents.contains_key(agent_id.0)
                &&& stepped.agents[agent_id.0].position.x == from.x + direction.dx()
                &&& stepped.agents[agent_id.0].position.y == from.y + direction.dy()
                &&& stepped.agents[agent_id.0].position.z == from.z
                &&& stepped.agents[agent_id.0].name == w.agents[agent_id.0].name
                &&& stepped.agents[agent_id.0].life == w.agents[agent_id.0].life
                &&& taken.agents[agent_id.0].position == to
                &&& taken.agents[agent_id.0].name == w.agents[agent_id.0].name
                &&& taken.agents[agent_id.0].life == w.agents[agent_id.0].life
            }
            &&& !w.agents.contains_key(agent_id.0) ==> stepped == w && taken == w
            &&& stepped.position == w.position && taken.position == w.position
            &&& !gone.agents.contains_key(agent_id.0)
            &&& stepped.agents.contains_key(other) == w.agents.contains_key(other)
            &&& taken.agents.contains_key(other) == w.agents.contains_key(other)
            &&& gone.agents.contains_key(other) == w.agents.contains_key(other)
            &&& w.agents.contains_key(other) ==> stepped.agents[other] == w.agents[other]
                && taken.agents[other] == w.agents[other] && gone.agents[other] == w.agents[other]
        }),
{
}

/// What is told of the bot's own number changes the bot, what is told of another's only how that
/// one is seen.
pub proof fn law_a_bot_tells_itself_from_others(
    w: WorldView,
    agent_id: AgentId,
    current: u32,
    max: u32,
    speed: u16,
    to: Position,
)
    ensures
        ({
            let hurt = after(w, ServerMessageView::AgentLifeChanged { agent_id, current, max });
            let drained = after(w, ServerMessageView::AgentManaUpdated { agent_id, current, max });
            let hasted = after(w, ServerMessageView::AgentSpeedUpdated { agent_id, speed });
            let taken = after(w, ServerMessageView::TeleportAgent { agent_id, position: to });
            if agent_id == w.agent_id {
                &&& hurt.life.current == current && hurt.life.maximum == max && hurt.mana == w.mana
                &&& hurt.agents == w.agents
                &&& drained.mana.current == current && drained.mana.maximum == max && drained.life
                    == w.life
                &&& hasted.speed == speed
                &&& taken.position == to && taken.agents == w.agents
            } else {
                &&& hurt.life == w.life
                &&& w.agents.contains_key(agent_id.0) ==> hurt.agents[agent_id.0].life == current
                    && hurt.agents[agent_id.0].position == w.agents[agent_id.0].position
                &&& !w.agents.contains_key(agent_id.0) ==> hurt == w
                &&& drained == w
                &&& hasted == w
                &&& taken.position == w.position
            }
        }),
{
}

/// A container holds what was last told of it until it is closed; a slot likewise until it is
/// emptied. Other containers and slots stay as they are.
pub proof fn law_things_held_are_what_was_last_told(
    w: WorldView,
    id: ContainerId,
    items: StackView,
    slot: InventorySlot,
    item: ItemId,
    other: u16,
    other_slot: InventorySlot,
)
    requires
        other != id.0,
        other_slot != slot,
    ensures
        ({
            let told = after(
                w,
                ServerMessageView::UpdateContainer { container_id: id, items },
            );
            let closed = after(told, ServerMessageView::ContainerClosed { container_id: id });
            let worn = after(
                w,
                ServerMessageView::IventorySlotUpdated { slot, item_id: Some(item) },
            );
            let bare = after(worn, ServerMessageView::IventorySlotUpdated { slot, item_id: None });
            &&& told.containers.contains_key(id.0) && told.containers[id.0] == items
            &&& told.carried == w.carried
            &&& !closed.containers.contains_key(id.0)
            &&& closed.carried == (if w.carried == Some(id) {
                None
            } else {
                w.carried
            })
            &&& closed.containers.contains_key(other) == w.containers.contains_key(other)
            &&& closed.containers[other] == w.containers[other]
            &&& worn.equipment.contains_key(slot.id()) && worn.equipment[slot.id()] == item
            &&& !bare.equipment.contains_key(slot.id())
            &&& bare.equipment.contains_key(other_slot.id()) == w.equipment.contains_key(
                other_slot.id(),
            )
            &&& bare.equipment[other_slot.id()] == w.equipment[other_slot.id()]
        }),
{
}

/// A bot that is described wears in each slot just what it is told.
pub proof fn law_each_slot_wears_its_own(e: Equipped, slot: InventorySlot)
    ensures
        ({
            let item = match slot {
                InventorySlot::Head => e.head,
                InventorySlot::Amulet => e.amulet,
                InventorySlot::Backpack => e.backpack,
                InventorySlot::Chest => e.chest,
                InventorySlot::RightHand => e.right_hand,
                InventorySlot::LeftHand => e.left_hand,
                InventorySlot::Legs => e.legs,
                InventorySlot::Feet => e.feet,
                InventorySlot::Ring => e.ring,
                InventorySlot::Trinket => e.trinket,
            };
            &&& worn(e).contains_key(slot.id()) <==> item is Some
            &&& item is Some ==> worn(e)[slot.id()] == item.unwrap()
        }),
{
}

/// A bot knows each spell it was last told of by its number, its words and its group.
pub proof fn law_listed_spells_are_known(entries: Seq<SpellListEntryView>, n: nat, i: int)
    requires
        0 <= i < n <= entries.len(),
        forall|j: int| i < j < n ==> (#[trigger] entries[j]).id != entries[i].id,
    ensures
        listed(entries, n).contains_key(entries[i].id.0),
        listed(entries, n)[entries[i].id.0].words == entries[i].words,
        listed(entries, n)[entries[i].id.0].group == entries[i].group,
    decreases n,
{
    if i < n - 1 {
        law_listed_spells_are_known(entries, (n - 1) as nat, i);
        assert(entries[n - 1].id != entries[i].id);
    }
}

/// The friction of a stack is that of the lowest item that has one.
pub proof fn law_the_lowest_friction_counts(
    items: Map<u16, Arc<ItemConfig>>,
    stack: StackView,
    i: int,
)
    requires
        0 <= i < stack.len(),
        stack[i] is Some,
        items.contains_key(stack[i].unwrap().0.0),
        items[stack[i].unwrap().0.0].tile_friction() is Some,
        forall|j: int|
            0 <= j < i ==> ((#[trigger] stack[j]) matches Some((id, _)) ==> (items.contains_key(
                id.0,
            ) ==> items[id.0].tile_friction() is None)),
    ensures
        stack_friction(items, stack) == items[stack[i].unwrap().0.0].tile_friction(),
    decreases stack.len(),
{
    if i > 0 {
        assert(stack[0] == stack[0]);
        let rest = stack.drop_first();
        assert forall|j: int| 0 <= j < i - 1 implies ((#[trigger] rest[j]) matches Some((id, _))
            ==> (items.contains_key(id.0) ==> items[id.0].tile_friction() is None)) by {
            assert(rest[j] == stack[j + 1]);
        }
        law_the_lowest_friction_counts(items, rest, i - 1);
    }
}

/// What is carried of an item is the sum over its slots: one slot more adds as many as lie in it,
/// if they are of that item, wherever the slot is.
pub proof fn law_what_is_carried_adds_up(a: StackView, b: StackView, slot: (ItemId, u8), item: ItemId)
    ensures
        total_of(a + b, item) == total_of(a, item) + total_of(b, item),
        total_of(a.push(Some(slot)), item) == total_of(a, item) + (if slot.0 == item {
            slot.1 as int
        } else {
            0
        }),
        total_of(a.push(None), item) == total_of(a, item),
        total_of(Seq::empty(), item) == 0,
    decreases b.len(),
{
    assert(a.push(Some(slot)).drop_last() =~= a);
    assert(a.push(None).drop_last() =~= a);
    if b.len() == 0 {
        assert(a + b =~= a);
    } else {
        law_what_is_carried_adds_up(a, b.drop_last(), slot, item);
        assert((a + b).drop_last() =~= a + b.drop_last());
    }
}

} // verus!
