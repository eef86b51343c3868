//! What a bot does next.

use crate::clock::{Duration, Instant};
use crate::constants::{CARRIED_SEARCH_FLAG, CONTAINER_COORD_FLAG, INVENTORY_COORD_FLAG};
use crate::entities::agent::AgentId;
use crate::entities::items::{ClientItemRef, ContainerId, ItemConfig, ItemFlag, ItemId};
use crate::entities::position::{
    law_a_step_goes_where_its_name_says, law_distance_counts_steps, lemma_direction_by_step,
    Direction, Position,
};
use crate::entities::spells::{SpellGroup, SpellId, SpellTarget};
use crate::loadtest::config::{Behaviour, Route};
use crate::loadtest::world::{tile_key, World, WorldView};
use crate::messages::{ClientMessage, ClientMessageView, ItemStack, StackView};
use crate::text::starts_with;
use std::sync::Arc;
use vstd::prelude::*;

verus! {

broadcast use vstd::std_specs::hash::group_hash_axioms;

pub const HEALTH_POTION: u16 = 266;

pub const MANA_POTION: u16 = 268;

/// How long a bot waits for a corpse to show, and then for it to open: two seconds.
pub const CORPSE_ABANDON_NANOS: u128 = 2_000_000_000;

/// How often a bot tries to open a corpse.
pub const CORPSE_OPEN_ATTEMPTS: u8 = 2;

/// A potion that a bot needed and had none of.
#[derive(Debug, Clone, Copy, PartialEq, Eq, Structural)]
pub enum DryPotion {
    Health,
    Mana,
}

/// Whether `current` is below `pct` percent of `maximum`.
pub open spec fn below(current: u32, maximum: u32, pct: u32) -> bool {
    maximum > 0 && (current * 100) / (maximum as int) < pct
}

/// Whether `current` is below `pct` percent of `maximum`.
pub fn below_pct(current: u32, maximum: u32, pct: u32) -> (r: bool)
    ensures
        r == below(current, maximum, pct),
{
    maximum > 0 && current as u64 * 100 / (maximum as u64) < pct as u64
}

/// How long a step takes: as many ticks of the server as `walk_ticks` says for a walker of this
/// speed on this ground.
pub fn step_duration<F: Fn(u16, u16, bool) -> u64>(
    walk_ticks: &F,
    tick_ms: u64,
    speed: u16,
    tile_friction: u16,
    diagonal: bool,
) -> (d: Duration)
    requires
        walk_ticks.requires((speed, tile_friction, diagonal)),
        forall|ticks: u64|
            walk_ticks.ensures((speed, tile_friction, diagonal), ticks) ==> ticks * tick_ms
                <= u64::MAX,
    ensures
        exists|ticks: u64| #[trigger]
            walk_ticks.ensures((speed, tile_friction, diagonal), ticks) && d.nanos == ticks
                * tick_ms * 1_000_000,
{
    let ticks: u64 = walk_ticks(speed, tile_friction, diagonal);
    Duration::from_millis(ticks * tick_ms)
}

/// The directions round the compass, clockwise from north.
pub open spec fn compass() -> Seq<Direction> {
    seq![
        Direction::North,
        Direction::NorthEast,
        Direction::East,
        Direction::SouthEast,
        Direction::South,
        Direction::SouthWest,
        Direction::West,
        Direction::NorthWest,
    ]
}

/// A direction's place on the compass.
pub open spec fn bearing(direction: Direction) -> int {
    match direction {
        Direction::North => 0,
        Direction::NorthEast => 1,
        Direction::East => 2,
        Direction::SouthEast => 3,
        Direction::South => 4,
        Direction::SouthWest => 5,
        Direction::West => 6,
        Direction::NorthWest => 7,
    }
}

fn bearing_of(direction: Direction) -> (i: usize)
    ensures
        i == bearing(direction),
        i < 8,
{
    match direction {
        Direction::North => 0,
        Direction::NorthEast => 1,
        Direction::East => 2,
        Direction::SouthEast => 3,
        Direction::South => 4,
        Direction::SouthWest => 5,
        Direction::West => 6,
        Direction::NorthWest => 7,
    }
}

fn at_bearing(i: usize) -> (d: Direction)
    requires
        i < 8,
    ensures
        d == compass()[i as int],
{
    match i {
        0 => Direction::North,
        1 => Direction::NorthEast,
        2 => Direction::East,
        3 => Direction::SouthEast,
        4 => Direction::South,
        5 => Direction::SouthWest,
        6 => Direction::West,
        _ => Direction::NorthWest,
    }
}

/// The two directions on either side of `direction` on the compass.
pub fn adjacent_directions(direction: Direction) -> (r: (Direction, Direction))
    ensures
        r.0 == compass()[(bearing(direction) + 7) % 8],
        r.1 == compass()[(bearing(direction) + 1) % 8],
{
    let index: usize = bearing_of(direction);
    (at_bearing((index + 7) % 8), at_bearing((index + 1) % 8))
}

/// The first direction in which the next tile can be stepped on.
pub open spec fn first_walkable(w: World, tried: Seq<Direction>) -> Option<Direction>
    decreases tried.len(),
{
    if tried.len() == 0 {
        None
    } else if w.walkable(w@.position.spec_step(tried[0])) {
        Some(tried[0])
    } else {
        first_walkable(w, tried.drop_first())
    }
}

pub open spec fn sign(v: int) -> int {
    if v < 0 {
        -1
    } else if v > 0 {
        1
    } else {
        0
    }
}

/// The direction that closes both axes at once.
pub open spec fn toward(from: Position, to: Position) -> Direction {
    choose|d: Direction| d.dx() == sign(to.x - from.x) && d.dy() == sign(to.y - from.y)
}

/// The step that a bot takes to get to `to`: straight there, else to one side of that, else
/// anywhere, as far as the ground lets it. The sides come first because each still makes progress
/// on an axis, where the next best of a fixed order may make none and be taken forever.
pub open spec fn chosen_direction(w: World, to: Position) -> Option<Direction> {
    let from = w@.position;
    if from.z != to.z || from == to {
        None
    } else {
        let preferred = toward(from, to);
        first_walkable(
            w,
            seq![
                preferred,
                compass()[(bearing(preferred) + 7) % 8],
                compass()[(bearing(preferred) + 1) % 8],
            ] + compass(),
        )
    }
}

/// The step that a bot takes to get to `to`.
pub fn choose_direction(world: &World, to: Position) -> (r: Option<Direction>)
    ensures
        r == chosen_direction(*world, to),
{
    let from: Position = world.position;
    if from.z != to.z || from == to {
        return None;
    }
    let dx: i32 = if to.x > from.x { 1 } else if to.x < from.x { -1 } else { 0 };
    let dy: i32 = if to.y > from.y { 1 } else if to.y < from.y { -1 } else { 0 };
    let preferred = match Direction::from_step(dx, dy) {
        Some(preferred) => preferred,
        None => return None,
    };
    assert(preferred == toward(from, to)) by {
        assert(preferred.dx() == sign(to.x - from.x) && preferred.dy() == sign(to.y - from.y));
        lemma_direction_by_step(preferred, toward(from, to));
    }
    let (left, right) = adjacent_directions(preferred);
    let ghost tried = seq![preferred, left, right] + compass();
    proof {
        reveal_with_fuel(first_walkable, 4);
    }
    assert(tried.drop_first() =~= seq![left, right] + compass());
    assert((seq![left, right] + compass()).drop_first() =~= seq![right] + compass());
    assert((seq![right] + compass()).drop_first() =~= compass());
    if world.is_walkable(from.step(preferred)) {
        return Some(preferred);
    }
    if world.is_walkable(from.step(left)) {
        return Some(left);
    }
    if world.is_walkable(from.step(right)) {
        return Some(right);
    }
    let mut i: usize = 0;
    assert(compass().skip(0) =~= compass());
    while i < 8
        invariant
            i <= 8,
            from == world@.position,
            chosen_direction(*world, to) == first_walkable(*world, compass().skip(i as int)),
        decreases 8 - i,
    {
        let direction = at_bearing(i);
        assert(compass().skip(i as int)[0] == direction);
        assert(compass().skip(i as int).drop_first() =~= compass().skip(i + 1));
        if world.is_walkable(from.step(direction)) {
            return Some(direction);
        }
        i += 1;
    }
    None
}

/// The agent that a bot fights, the number of the request that chose it, and where it was last
/// seen.
#[derive(Debug, Clone, Copy, PartialEq, Eq, Structural)]
pub struct TargetState {
    pub id: AgentId,
    pub seq: u32,
    pub last_seen: Position,
}

/// How far a bot has got with what a dead target left.
#[derive(Debug, Clone, Copy, PartialEq, Eq, Structural)]
pub enum LootJob {
    Awaiting { corpse: Position, since: Instant },
    Opening { corpse: Position, since: Instant, attempts: u8 },
    Emptying { container: ContainerId, looted: usize },
}

pub struct Brain {
    behaviour: Behaviour,
    ignore_prefix: String,
    waypoints: Vec<Position>,
    waypoint_index: usize,
    next_step_at: Option<Instant>,
    target: Option<TargetState>,
    next_target_seq: u32,
    loot: Option<LootJob>,
    health_dry_reported: bool,
    mana_dry_reported: bool,
    dry_events: Vec<DryPotion>,
}

/// A bot's settings and its state of mind.
pub struct BrainView {
    pub engage_radius: u16,
    pub health_potion_pct: u32,
    pub heal_spell_pct: u32,
    pub mana_potion_pct: u32,
    pub attack_spell: Seq<char>,
    pub heal_spell: Seq<char>,
    pub loot_items_max: usize,
    pub ignore_prefix: Seq<char>,
    pub waypoints: Seq<Position>,
    pub waypoint_index: int,
    pub next_step_at: Option<Instant>,
    pub target: Option<TargetState>,
    pub next_target_seq: u32,
    pub loot: Option<LootJob>,
    pub health_dry_reported: bool,
    pub mana_dry_reported: bool,
    pub dry_events: Seq<DryPotion>,
}

impl View for Brain {
    type V = BrainView;

    closed spec fn view(&self) -> BrainView {
        BrainView {
            engage_radius: self.behaviour.engage_radius,
            health_potion_pct: self.behaviour.health_potion_pct,
            heal_spell_pct: self.behaviour.heal_spell_pct,
            mana_potion_pct: self.behaviour.mana_potion_pct,
            attack_spell: self.behaviour.attack_spell@,
            heal_spell: self.behaviour.heal_spell@,
            loot_items_max: self.behaviour.loot_items_max,
            ignore_prefix: self.ignore_prefix@,
            waypoints: self.waypoints@,
            waypoint_index: self.waypoint_index as int,
            next_step_at: self.next_step_at,
            target: self.target,
            next_target_seq: self.next_target_seq,
            loot: self.loot,
            health_dry_reported: self.health_dry_reported,
            mana_dry_reported: self.mana_dry_reported,
            dry_events: self.dry_events@,
        }
    }
}

/// A step that a bot has decided on: what decides how long it takes.
#[derive(Debug, Clone, Copy, PartialEq, Eq, Structural)]
pub struct WalkStep {
    pub speed: u16,
    pub friction: u16,
    pub diagonal: bool,
}

/// What a bot has decided: its state after it, what it sends, and the step that it takes.
pub struct Turn {
    pub brain: BrainView,
    pub message: Option<ClientMessageView>,
    pub step: Option<WalkStep>,
}

/// Nothing is sent.
pub open spec fn idle(brain: BrainView) -> Turn {
    Turn { brain, message: None, step: None }
}

/// `message` is sent.
pub open spec fn send(brain: BrainView, message: ClientMessageView) -> Turn {
    Turn { brain, message: Some(message), step: None }
}

/// Goes on with `next` where nothing is sent so far.
pub open spec fn or_else(first: Turn, next: spec_fn(BrainView) -> Turn) -> Turn {
    if first.message is Some {
        first
    } else {
        next(first.brain)
    }
}

/// What becomes of the held target. One that is no longer in sight was killed: its corpse is
/// waited for. One in sight is let go only where the server says that this very request was lost.
pub open spec fn observed(b: BrainView, w: WorldView, now: Instant) -> BrainView {
    match b.target {
        None => b,
        Some(held) => if w.agents.contains_key(held.id.0) {
            if w.target_lost_seq == Some(held.seq) {
                BrainView { target: None, ..b }
            } else {
                BrainView {
                    target: Some(
                        TargetState { last_seen: w.agents[held.id.0].position, ..held },
                    ),
                    ..b
                }
            }
        } else {
            BrainView {
                loot: Some(LootJob::Awaiting { corpse: held.last_seen, since: now }),
                target: None,
                ..b
            }
        },
    }
}

/// The bot drinks `potion` from wherever it carries one.
pub open spec fn drinking(w: WorldView, potion: u16) -> ClientMessageView {
    ClientMessageView::UseItemWith {
        source: ClientItemRef {
            position: Position { x: INVENTORY_COORD_FLAG, y: CARRIED_SEARCH_FLAG, z: 0 },
            item_id: ItemId(potion),
            stack_index: 0,
        },
        target: ClientItemRef { position: w.position, item_id: ItemId(0), stack_index: 0 },
        target_agent: Some(w.agent_id),
    }
}

pub open spec fn health_drunk(b: BrainView, w: World) -> Turn {
    if !below(w@.life.current, w@.life.maximum, b.health_potion_pct) {
        idle(b)
    } else if w.carried_total(ItemId(HEALTH_POTION)) == 0 {
        idle(
            if b.health_dry_reported {
                b
            } else {
                BrainView {
                    health_dry_reported: true,
                    dry_events: b.dry_events.push(DryPotion::Health),
                    ..b
                }
            },
        )
    } else {
        send(b, drinking(w@, HEALTH_POTION))
    }
}

pub open spec fn mana_drunk(b: BrainView, w: World) -> Turn {
    if !below(w@.mana.current, w@.mana.maximum, b.mana_potion_pct) {
        idle(b)
    } else if w.carried_total(ItemId(MANA_POTION)) == 0 {
        idle(
            if b.mana_dry_reported {
                b
            } else {
                BrainView {
                    mana_dry_reported: true,
                    dry_events: b.dry_events.push(DryPotion::Mana),
                    ..b
                }
            },
        )
    } else {
        send(b, drinking(w@, MANA_POTION))
    }
}

/// Spell `id` is cast with these words.
pub open spec fn knows(w: WorldView, words: Seq<char>, id: u16) -> bool {
    w.spells.contains_key(id) && w.spells[id].words == words
}

/// Spell `id` is the first that is cast with these words.
pub open spec fn first_known(w: WorldView, words: Seq<char>, id: u16) -> bool {
    knows(w, words, id) && forall|other: u16| #[trigger] knows(w, words, other) ==> id <= other
}

/// The spell that is cast with these words. Where several are, the one with the lowest number.
pub open spec fn spell_named(w: WorldView, words: Seq<char>) -> Option<(SpellId, SpellGroup)> {
    if exists|id: u16| knows(w, words, id) {
        let id = choose|id: u16| first_known(w, words, id);
        Some((SpellId(id), w.spells[id].group))
    } else {
        None
    }
}

/// The named spell is cast at `target`, where it is known and ready.
pub open spec fn spell_cast(
    b: BrainView,
    w: World,
    words: Seq<char>,
    target: SpellTarget,
    now: Instant,
) -> Turn {
    match spell_named(w@, words) {
        Some((spell_id, group)) => if w.ready(spell_id, group, now) {
            send(b, ClientMessageView::CastSpell { spell_id, target, param: None })
        } else {
            idle(b)
        },
        None => idle(b),
    }
}

pub open spec fn heal_cast(b: BrainView, w: World, now: Instant) -> Turn {
    if below(w@.life.current, w@.life.maximum, b.heal_spell_pct) {
        spell_cast(b, w, b.heal_spell, SpellTarget::NoTarget, now)
    } else {
        idle(b)
    }
}

/// An agent that the bot would fight: near enough, and not named like a bot.
pub open spec fn eligible(b: BrainView, w: WorldView, id: u16) -> bool {
    &&& w.agents.contains_key(id)
    &&& !b.ignore_prefix.is_prefix_of(w.agents[id].name)
    &&& w.position.spec_is_within(w.agents[id].position, b.engage_radius)
}

/// `a` is nearer than `b`, or as near and has the lower number.
pub open spec fn preferred_to(w: WorldView, a: u16, b: u16) -> bool {
    let da = w.position.spec_distance(w.agents[a].position);
    let db = w.position.spec_distance(w.agents[b].position);
    da < db || (da == db && a <= b)
}

/// Agent `id` is the nearest that the bot would fight.
pub open spec fn nearest(b: BrainView, w: WorldView, id: u16) -> bool {
    eligible(b, w, id) && forall|other: u16| #[trigger]
        eligible(b, w, other) ==> preferred_to(w, id, other)
}

pub open spec fn target_acquired(b: BrainView, w: WorldView) -> Turn {
    if b.target is Some || !exists|id: u16| eligible(b, w, id) {
        idle(b)
    } else {
        let id = choose|id: u16| nearest(b, w, id);
        let seq = (b.next_target_seq + 1) as u32;
        send(
            BrainView {
                next_target_seq: seq,
                target: Some(
                    TargetState { id: AgentId(id), seq, last_seen: w.agents[id].position },
                ),
                ..b
            },
            ClientMessageView::SetTarget { agent_id: Some(AgentId(id)), seq },
        )
    }
}

pub open spec fn attack_cast(b: BrainView, w: World, now: Instant) -> Turn {
    match b.target {
        Some(held) => if w@.agents.contains_key(held.id.0) && w@.position.spec_is_within(
            w@.agents[held.id.0].position,
            b.engage_radius,
        ) {
            spell_cast(b, w, b.attack_spell, SpellTarget::Agent(held.id), now)
        } else {
            idle(b)
        },
        None => idle(b),
    }
}

/// A step toward `destination`, unless the last one is still under way.
pub open spec fn stepped(b: BrainView, w: World, now: Instant, destination: Position) -> Turn {
    if b.next_step_at matches Some(at) && now.nanos < at.nanos {
        idle(b)
    } else {
        match chosen_direction(w, destination) {
            None => idle(b),
            Some(direction) => match w.friction(w@.position.spec_step(direction)) {
                None => idle(b),
                Some(friction) => Turn {
                    brain: b,
                    message: Some(ClientMessageView::MovePlayer { direction }),
                    step: Some(
                        WalkStep {
                            speed: w@.speed,
                            friction,
                            diagonal: direction.dx() != 0 && direction.dy() != 0,
                        },
                    ),
                },
            },
        }
    }
}

/// The bot closes in on its target until it stands next to it.
pub open spec fn closed_in(b: BrainView, w: World, now: Instant) -> Turn {
    match b.target {
        Some(held) => if w@.agents.contains_key(held.id.0) && !w@.position.spec_is_within(
            w@.agents[held.id.0].position,
            1,
        ) {
            stepped(b, w, now, w@.agents[held.id.0].position)
        } else {
            idle(b)
        },
        None => idle(b),
    }
}

/// The bot walks its route. It stands still while it holds a target: to walk on between two
/// attacks would drag the fight along or out of sight.
pub open spec fn travelled(b: BrainView, w: World, now: Instant) -> Turn {
    if b.target is Some || b.waypoints.len() == 0 {
        idle(b)
    } else {
        let index = if w@.position == b.waypoints[b.waypoint_index] {
            (b.waypoint_index + 1) % (b.waypoints.len() as int)
        } else {
            b.waypoint_index
        };
        stepped(BrainView { waypoint_index: index, ..b }, w, now, b.waypoints[index])
    }
}

/// The place holds an item that opens.
pub open spec fn opens(items: Map<u16, Arc<ItemConfig>>, slot: Option<(ItemId, u8)>) -> bool {
    slot matches Some((id, _)) && items.contains_key(id.0) && items[id.0].flagged(
        ItemFlag::Container,
    )
}

/// The first place from `from` on that holds an item that opens.
pub open spec fn first_opening(
    items: Map<u16, Arc<ItemConfig>>,
    stack: StackView,
    from: int,
) -> Option<int>
    decreases stack.len() - from,
{
    if from >= stack.len() {
        None
    } else if opens(items, stack[from]) {
        Some(from)
    } else {
        first_opening(items, stack, from + 1)
    }
}

/// How the bot points at the first item on a tile that opens.
pub open spec fn corpse_at(w: World, position: Position) -> Option<ClientItemRef> {
    if w@.tiles.contains_key(tile_key(position)) {
        let stack = w@.tiles[tile_key(position)];
        match first_opening(w.items@, stack, 0) {
            Some(i) => Some(
                ClientItemRef { position, item_id: stack[i].unwrap().0, stack_index: i as u8 },
            ),
            None => None,
        }
    } else {
        None
    }
}

/// The first place from `from` on that is not empty.
pub open spec fn first_filled(slots: StackView, from: int) -> Option<int>
    decreases slots.len() - from,
{
    if from >= slots.len() {
        None
    } else if slots[from] is Some {
        Some(from)
    } else {
        first_filled(slots, from + 1)
    }
}

/// How long ago `since` was.
pub open spec fn elapsed(since: Instant, now: Instant) -> int {
    if now.nanos >= since.nanos {
        now.nanos - since.nanos
    } else {
        0
    }
}

pub open spec fn use_of(item: Option<ClientItemRef>) -> Option<ClientMessageView> {
    match item {
        Some(item) => Some(ClientMessageView::UseItem { item }),
        None => None,
    }
}

/// The first filled place of a container.
pub open spec fn next_loot(w: World, container: ContainerId) -> Option<int> {
    if w@.containers.contains_key(container.0) {
        first_filled(w@.containers[container.0], 0)
    } else {
        None
    }
}

/// What is in the container's first filled place goes to the backpack: the whole of a stack, or
/// the one item.
pub open spec fn loot_move(w: World, backpack: ContainerId, container: ContainerId) -> ClientMessageView {
    let index = next_loot(w, container).unwrap();
    let (item_id, amount) = w@.containers[container.0][index].unwrap();
    let cumulative = w.items@.contains_key(item_id.0) && w.items@[item_id.0].flagged(
        ItemFlag::Cumulative,
    );
    ClientMessageView::MoveItem {
        item: ClientItemRef {
            position: Position {
                x: CONTAINER_COORD_FLAG,
                y: container.0,
                z: (index % 256) as u8,
            },
            item_id,
            stack_index: 0,
        },
        amount: if cumulative {
            amount
        } else {
            1
        },
        to: Position { x: CONTAINER_COORD_FLAG, y: backpack.0, z: 0 },
    }
}

/// The next item of the corpse's container goes to the backpack, until it is empty or enough was
/// taken; then it is closed.
pub open spec fn emptied(
    b: BrainView,
    w: World,
    backpack: ContainerId,
    container: ContainerId,
    looted: usize,
) -> Turn {
    if next_loot(w, container) is Some && looted < b.loot_items_max {
        send(
            BrainView {
                loot: Some(LootJob::Emptying { container, looted: (looted + 1) as usize }),
                ..b
            },
            loot_move(w, backpack, container),
        )
    } else {
        send(
            BrainView { loot: None, ..b },
            ClientMessageView::CloseContainer { container_id: container },
        )
    }
}

/// The bot sees to the corpse of its last target, where it has a backpack to loot into.
pub open spec fn looted(b: BrainView, w: World, now: Instant) -> Turn {
    match (w@.carried, b.loot) {
        (Some(backpack), Some(job)) => match job {
            LootJob::Awaiting { corpse, since } => if corpse_at(w, corpse) is Some {
                Turn {
                    brain: BrainView {
                        loot: Some(LootJob::Opening { corpse, since: now, attempts: 1 }),
                        ..b
                    },
                    message: use_of(corpse_at(w, corpse)),
                    step: None,
                }
            } else if elapsed(since, now) <= CORPSE_ABANDON_NANOS {
                idle(b)
            } else {
                idle(BrainView { loot: None, ..b })
            },
            LootJob::Opening { corpse, since, attempts } => if elapsed(since, now)
                > CORPSE_ABANDON_NANOS {
                idle(BrainView { loot: None, ..b })
            } else if attempts >= CORPSE_OPEN_ATTEMPTS {
                idle(b)
            } else {
                Turn {
                    brain: BrainView {
                        loot: Some(
                            LootJob::Opening { corpse, since, attempts: (attempts + 1) as u8 },
                        ),
                        ..b
                    },
                    message: use_of(corpse_at(w, corpse)),
                    step: None,
                }
            },
            LootJob::Emptying { container, looted } => emptied(b, w, backpack, container, looted),
        },
        _ => idle(b),
    }
}

/// What a bot decides: after a look at its target, the first of these that calls for something
/// to be sent.
pub open spec fn turn(b: BrainView, w: World, now: Instant) -> Turn {
    let t = health_drunk(observed(b, w@, now), w);
    let t = or_else(t, |b: BrainView| heal_cast(b, w, now));
    let t = or_else(t, |b: BrainView| mana_drunk(b, w));
    let t = or_else(t, |b: BrainView| looted(b, w, now));
    let t = or_else(t, |b: BrainView| target_acquired(b, w@));
    let t = or_else(t, |b: BrainView| attack_cast(b, w, now));
    let t = or_else(t, |b: BrainView| closed_in(b, w, now));
    or_else(t, |b: BrainView| travelled(b, w, now))
}

/// The spell that is cast with these words.
fn known_spell(world: &World, words: &String) -> (r: Option<(SpellId, SpellGroup)>)
    ensures
        r == spell_named(world@, words@),
{
    let mut best: Option<(u16, SpellGroup)> = None;
    for (id, spell) in it: world.spells.iter()
        invariant
            forall|k: u16| #[trigger]
                world.spells@.contains_key(k) ==> exists|i: int|
                    0 <= i < it.seq().len() && *(#[trigger] it.seq()[i]).0 == k,
            match best {
                Some((id, group)) => {
                    &&& knows(world@, words@, id)
                    &&& world@.spells[id].group == group
                    &&& forall|i: int|
                        0 <= i < it.index() ==> (knows(
                            world@,
                            words@,
                            *(#[trigger] it.seq()[i]).0,
                        ) ==> id <= *it.seq()[i].0)
                },
                None => forall|i: int|
                    0 <= i < it.index() ==> !knows(world@, words@, *(#[trigger] it.seq()[i]).0),
            },
    {
        let ghost n = it.index();
        assert(*it.seq()[n].0 == *id);
        assert(world@.spells[*id] == spell@);
        if spell.words == *words {
            let better: bool = match best {
                Some((other, _)) => *id < other,
                None => true,
            };
            if better {
                best = Some((*id, spell.group));
            }
        }
    }
    match best {
        Some((id, group)) => {
            assert(first_known(world@, words@, id)) by {
                assert forall|other: u16| #[trigger] knows(world@, words@, other) implies id
                    <= other by {
                    assert(world.spells@.contains_key(other));
                }
            }
            assert(first_known(world@, words@, choose|id: u16| first_known(world@, words@, id)));
            Some((SpellId(id), group))
        },
        None => {
            assert forall|other: u16| !#[trigger] knows(world@, words@, other) by {
                if knows(world@, words@, other) {
                    assert(world.spells@.contains_key(other));
                }
            }
            None
        },
    }
}

fn tile_of(world: &World, position: &Position) -> (r: Option<ItemStack>)
    ensures
        r is Some <==> world@.tiles.contains_key(tile_key(*position)),
        r matches Some(stack) ==> stack@ == world@.tiles[tile_key(*position)],
{
    let key: u64 = position.x as u64 * 0x100_0000 + position.y as u64 * 0x100 + position.z as u64;
    match world.tiles.get(&key) {
        Some(stack) => Some(*stack),
        None => None,
    }
}

/// How the bot points at the first item on a tile that opens.
pub fn corpse_item_ref(world: &World, position: &Position) -> (r: Option<ClientItemRef>)
    ensures
        r == corpse_at(*world, *position),
{
    let stack: ItemStack = match tile_of(world, position) {
        Some(stack) => stack,
        None => return None,
    };
    let mut i: usize = 0;
    while i < 8
        invariant
            i <= 8,
            world@.tiles.contains_key(tile_key(*position)),
            world@.tiles[tile_key(*position)] == stack@,
            first_opening(world.items@, stack@, 0) == first_opening(world.items@, stack@, i as int),
        decreases 8 - i,
    {
        if let Some((item_id, _)) = stack[i] {
            if let Some(config) = world.items.get(&item_id.0) {
                if config.has_flag(ItemFlag::Container) {
                    return Some(
                        ClientItemRef { position: *position, item_id, stack_index: i as u8 },
                    );
                }
            }
        }
        i += 1;
    }
    None
}

fn first_filled_slot(slots: &Vec<Option<(ItemId, u8)>>) -> (r: Option<(usize, ItemId, u8)>)
    ensures
        match r {
            Some((i, id, amount)) => {
                &&& first_filled(slots@, 0) == Some(i as int)
                &&& i < slots@.len()
                &&& slots@[i as int] == Some((id, amount))
            },
            None => first_filled(slots@, 0) is None,
        },
{
    let mut i: usize = 0;
    while i < slots.len()
        invariant
            i <= slots.len(),
            first_filled(slots@, 0) == first_filled(slots@, i as int),
        decreases slots.len() - i,
    {
        if let Some((id, amount)) = slots[i] {
            return Some((i, id, amount));
        }
        i += 1;
    }
    None
}

/// What is sent, or that nothing is, has this view.
spec fn shows(message: Option<ClientMessage>, view: Option<ClientMessageView>) -> bool {
    match message {
        Some(m) => view == Some(m@),
        None => view is None,
    }
}

/// The state and the message are those of `t`, which takes no step.
spec fn settles(b: Brain, message: Option<ClientMessage>, t: Turn) -> bool {
    b@ == t.brain && shows(message, t.message) && t.step is None
}

/// The state, the message and the step are those of `t`.
spec fn takes(b: Brain, message: Option<ClientMessage>, step: Option<WalkStep>, t: Turn) -> bool {
    b@ == t.brain && shows(message, t.message) && step == t.step
}

impl Brain {
    /// The waypoint that the bot walks to is one of its route.
    pub closed spec fn wf(&self) -> bool {
        self.waypoints.len() == 0 || self.waypoint_index < self.waypoints.len()
    }

    /// The settings that a brain was made with.
    pub closed spec fn settings(&self) -> Behaviour {
        self.behaviour
    }

    /// A bot that walks `route`. Coordinates are cut to the range of the map's.
    pub fn new(route: Route, behaviour: Behaviour, ignore_prefix: String) -> (b: Self)
        ensures
            b.wf(),
            b.settings() == behaviour,
            b@ == (BrainView {
                engage_radius: behaviour.engage_radius,
                health_potion_pct: behaviour.health_potion_pct,
                heal_spell_pct: behaviour.heal_spell_pct,
                mana_potion_pct: behaviour.mana_potion_pct,
                attack_spell: behaviour.attack_spell@,
                heal_spell: behaviour.heal_spell@,
                loot_items_max: behaviour.loot_items_max,
                ignore_prefix: ignore_prefix@,
                waypoints: Seq::new(
                    route.waypoints@.len(),
                    |i: int|
                        Position {
                            x: (route.waypoints@[i].x % 0x1_0000) as u16,
                            y: (route.waypoints@[i].y % 0x1_0000) as u16,
                            z: (route.waypoints@[i].z % 0x100) as u8,
                        },
                ),
                waypoint_index: 0,
                next_step_at: None,
                target: None,
                next_target_seq: 0,
                loot: None,
                health_dry_reported: false,
                mana_dry_reported: false,
                dry_events: Seq::empty(),
            }),
    {
        let mut waypoints: Vec<Position> = Vec::new();
        let mut i: usize = 0;
        while i < route.waypoints.len()
            invariant
                i <= route.waypoints.len(),
                waypoints@ == Seq::new(
                    i as nat,
                    |i: int|
                        Position {
                            x: (route.waypoints@[i].x % 0x1_0000) as u16,
                            y: (route.waypoints@[i].y % 0x1_0000) as u16,
                            z: (route.waypoints@[i].z % 0x100) as u8,
                        },
                ),
            decreases route.waypoints.len() - i,
        {
            let c = route.waypoints[i];
            let x: u16 = wrap_u16(c.x);
            let y: u16 = wrap_u16(c.y);
            let z: u8 = wrap_u8(c.z);
            waypoints.push(Position::new(x, y, z));
            i += 1;
            assert(waypoints@ =~= Seq::new(
                i as nat,
                |i: int|
                    Position {
                        x: (route.waypoints@[i].x % 0x1_0000) as u16,
                        y: (route.waypoints@[i].y % 0x1_0000) as u16,
                        z: (route.waypoints@[i].z % 0x100) as u8,
                    },
            ));
        }
        let b = Brain {
            behaviour,
            ignore_prefix,
            waypoints,
            waypoint_index: 0,
            next_step_at: None,
            target: None,
            next_target_seq: 0,
            loot: None,
            health_dry_reported: false,
            mana_dry_reported: false,
            dry_events: Vec::new(),
        };
        assert(b@.dry_events =~= Seq::empty());
        b
    }

    /// The waypoint that the bot walks to.
    pub fn waypoint_index(&self) -> (i: usize)
        ensures
            i == self@.waypoint_index,
    {
        self.waypoint_index
    }

    /// The settings that the brain was made with. When to decide and when to ping is not up to
    /// the brain: it only paces the steps that it takes.
    pub fn behaviour(&self) -> (b: &Behaviour)
        ensures
            *b == self.settings(),
    {
        &self.behaviour
    }

    /// The configured spells that the bot cannot cast: without them it would silently never heal
    /// or never attack.
    pub fn missing_spells(&self, world: &World) -> (missing: Vec<String>)
        ensures
            missing@.len() == (if spell_named(world@, self@.heal_spell) is None { 1int } else { 0 })
                + (if spell_named(world@, self@.attack_spell) is None { 1int } else { 0 }),
            spell_named(world@, self@.heal_spell) is None ==> missing@[0]@ == self@.heal_spell,
            spell_named(world@, self@.attack_spell) is None ==> missing@.last()@
                == self@.attack_spell,
    {
        let mut missing: Vec<String> = Vec::new();
        if known_spell(world, &self.behaviour.heal_spell).is_none() {
            missing.push(self.behaviour.heal_spell.clone());
        }
        if known_spell(world, &self.behaviour.attack_spell).is_none() {
            missing.push(self.behaviour.attack_spell.clone());
        }
        missing
    }

    /// The potions found missing since the last call.
    pub fn take_dry_events(&mut self) -> (events: Vec<DryPotion>)
        ensures
            events@ == old(self)@.dry_events,
            final(self)@ == (BrainView { dry_events: Seq::empty(), ..old(self)@ }),
            old(self).wf() ==> final(self).wf(),
            final(self).settings() == old(self).settings(),
    {
        let mut events: Vec<DryPotion> = Vec::new();
        events.append(&mut self.dry_events);
        assert(events@ =~= old(self)@.dry_events);
        assert(self.dry_events@ =~= Seq::empty());
        events
    }

    fn observe_target(&mut self, world: &World, now: Instant)
        ensures
            final(self)@ == observed(old(self)@, world@, now),
            old(self).wf() ==> final(self).wf(),
            final(self).settings() == old(self).settings(),
    {
        let held: TargetState = match self.target {
            Some(held) => held,
            None => return,
        };
        match world.agents.get(&held.id.0) {
            Some(agent) => {
                assert(world@.agents[held.id.0] == agent@);
                if world.target_lost_seq == Some(held.seq) {
                    self.target = None;
                } else {
                    self.target = Some(
                        TargetState { id: held.id, seq: held.seq, last_seen: agent.position },
                    );
                }
            },
            None => {
                self.loot = Some(LootJob::Awaiting { corpse: held.last_seen, since: now });
                self.target = None;
            },
        }
    }

    fn drink_health(&mut self, world: &World) -> (r: Option<ClientMessage>)
        requires
            world.carried_total(ItemId(HEALTH_POTION)) <= u32::MAX,
        ensures
            settles(*final(self), r, health_drunk(old(self)@, *world)),
            old(self).wf() ==> final(self).wf(),
            final(self).settings() == old(self).settings(),
    {
        if !below_pct(
            world.life.current,
            world.life.maximum,
            self.behaviour.health_potion_pct,
        ) {
            return None;
        }
        if world.carried_amount(ItemId(HEALTH_POTION)) == 0 {
            if !self.health_dry_reported {
                self.health_dry_reported = true;
                self.dry_events.push(DryPotion::Health);
            }
            return None;
        }
        Some(drink(world, ItemId(HEALTH_POTION)))
    }

    fn cast_heal(&self, world: &World, now: Instant) -> (r: Option<ClientMessage>)
        ensures
            settles(*self, r, heal_cast(self@, *world, now)),
    {
        if !below_pct(world.life.current, world.life.maximum, self.behaviour.heal_spell_pct) {
            return None;
        }
        let (id, group) = match known_spell(world, &self.behaviour.heal_spell) {
            Some(known) => known,
            None => return None,
        };
        if !world.spell_ready(id, group, now) {
            return None;
        }
        Some(
            ClientMessage::CastSpell { spell_id: id, target: SpellTarget::NoTarget, param: None },
        )
    }

    fn drink_mana(&mut self, world: &World) -> (r: Option<ClientMessage>)
        requires
            world.carried_total(ItemId(MANA_POTION)) <= u32::MAX,
        ensures
            settles(*final(self), r, mana_drunk(old(self)@, *world)),
            old(self).wf() ==> final(self).wf(),
            final(self).settings() == old(self).settings(),
    {
        if !below_pct(world.mana.current, world.mana.maximum, self.behaviour.mana_potion_pct) {
            return None;
        }
        if world.carried_amount(ItemId(MANA_POTION)) == 0 {
            if !self.mana_dry_reported {
                self.mana_dry_reported = true;
                self.dry_events.push(DryPotion::Mana);
            }
            return None;
        }
        Some(drink(world, ItemId(MANA_POTION)))
    }

    /// The nearest agent that the bot would fight.
    fn nearest_target(&self, world: &World) -> (r: Option<(u16, Position)>)
        ensures
            match r {
                Some((id, position)) => {
                    &&& nearest(self@, world@, id)
                    &&& position == world@.agents[id].position
                },
                None => forall|id: u16| !#[trigger] eligible(self@, world@, id),
            },
    {
        let mut best: Option<(u16, Position)> = None;
        for (id, agent) in it: world.agents.iter()
            invariant
                forall|k: u16| #[trigger]
                    world.agents@.contains_key(k) ==> exists|i: int|
                        0 <= i < it.seq().len() && *(#[trigger] it.seq()[i]).0 == k,
                match best {
                    Some((id, position)) => {
                        &&& eligible(self@, world@, id)
                        &&& position == world@.agents[id].position
                        &&& forall|i: int|
                            0 <= i < it.index() ==> (eligible(
                                self@,
                                world@,
                                *(#[trigger] it.seq()[i]).0,
                            ) ==> preferred_to(world@, id, *it.seq()[i].0))
                    },
                    None => forall|i: int|
                        0 <= i < it.index() ==> !eligible(
                            self@,
                            world@,
                            *(#[trigger] it.seq()[i]).0,
                        ),
                },
        {
            let ghost n = it.index();
            assert(*it.seq()[n].0 == *id);
            assert(world@.agents[*id] == agent@);
            if !starts_with(agent.name.as_str(), self.ignore_prefix.as_str())
                && world.position.is_within(&agent.position, self.behaviour.engage_radius) {
                let distance: u16 = world.position.distance(&agent.position);
                let better: bool = match best {
                    Some((other, at)) => {
                        let least: u16 = world.position.distance(&at);
                        distance < least || (distance == least && *id <= other)
                    },
                    None => true,
                };
                if better {
                    best = Some((*id, agent.position));
                }
            }
        }
        proof {
            assert forall|other: u16| #[trigger] eligible(self@, world@, other) implies (
            best matches Some((id, _)) && preferred_to(world@, id, other)) by {
                assert(world.agents@.contains_key(other));
            }
        }
        best
    }

    fn acquire_target(&mut self, world: &World) -> (r: Option<ClientMessage>)
        requires
            old(self)@.next_target_seq < u32::MAX,
        ensures
            settles(*final(self), r, target_acquired(old(self)@, world@)),
            old(self).wf() ==> final(self).wf(),
            final(self).settings() == old(self).settings(),
    {
        if self.target.is_some() {
            return None;
        }
        let (id, position) = match self.nearest_target(world) {
            Some(found) => found,
            None => return None,
        };
        proof {
            let chosen = choose|id: u16| nearest(self@, world@, id);
            assert(nearest(self@, world@, chosen));
            assert(preferred_to(world@, id, chosen) && preferred_to(world@, chosen, id));
        }
        self.next_target_seq = self.next_target_seq + 1;
        let seq: u32 = self.next_target_seq;
        self.target = Some(TargetState { id: AgentId(id), seq, last_seen: position });
        Some(ClientMessage::SetTarget { agent_id: Some(AgentId(id)), seq })
    }

    fn cast_attack(&self, world: &World, now: Instant) -> (r: Option<ClientMessage>)
        ensures
            settles(*self, r, attack_cast(self@, *world, now)),
    {
        let held: TargetState = match self.target {
            Some(held) => held,
            None => return None,
        };
        let at: Position = match world.agents.get(&held.id.0) {
            Some(agent) => {
                assert(world@.agents[held.id.0] == agent@);
                agent.position
            },
            None => return None,
        };
        if !world.position.is_within(&at, self.behaviour.engage_radius) {
            return None;
        }
        let (id, group) = match known_spell(world, &self.behaviour.attack_spell) {
            Some(known) => known,
            None => return None,
        };
        if !world.spell_ready(id, group, now) {
            return None;
        }
        Some(
            ClientMessage::CastSpell {
                spell_id: id,
                target: SpellTarget::Agent(held.id),
                param: None,
            },
        )
    }

    fn step_toward(&self, world: &World, now: Instant, destination: Position) -> (r: Option<
        (ClientMessage, WalkStep),
    >)
        ensures
            match r {
                Some((message, step)) => takes(
                    *self,
                    Some(message),
                    Some(step),
                    stepped(self@, *world, now, destination),
                ),
                None => takes(*self, None, None, stepped(self@, *world, now, destination)),
            },
    {
        if let Some(at) = self.next_step_at {
            if now.nanos < at.nanos {
                return None;
            }
        }
        let direction = match choose_direction(world, destination) {
            Some(direction) => direction,
            None => return None,
        };
        let landing: Position = world.position.step(direction);
        match world.friction_at(landing) {
            Some(friction) => Some(
                (
                    ClientMessage::MovePlayer { direction },
                    WalkStep { speed: world.speed, friction, diagonal: direction.is_diagonal() },
                ),
            ),
            None => None,
        }
    }

    fn close(&self, world: &World, now: Instant) -> (r: Option<(ClientMessage, WalkStep)>)
        ensures
            match r {
                Some((message, step)) => takes(
                    *self,
                    Some(message),
                    Some(step),
                    closed_in(self@, *world, now),
                ),
                None => takes(*self, None, None, closed_in(self@, *world, now)),
            },
    {
        let held: TargetState = match self.target {
            Some(held) => held,
            None => return None,
        };
        let at: Position = match world.agents.get(&held.id.0) {
            Some(agent) => {
                assert(world@.agents[held.id.0] == agent@);
                agent.position
            },
            None => return None,
        };
        if world.position.is_within(&at, 1) {
            return None;
        }
        self.step_toward(world, now, at)
    }

    fn travel(&mut self, world: &World, now: Instant) -> (r: Option<(ClientMessage, WalkStep)>)
        requires
            old(self).wf(),
        ensures
            match r {
                Some((message, step)) => takes(
                    *final(self),
                    Some(message),
                    Some(step),
                    travelled(old(self)@, *world, now),
                ),
                None => takes(*final(self), None, None, travelled(old(self)@, *world, now)),
            },
            final(self).wf(),
            final(self).settings() == old(self).settings(),
    {
        if self.target.is_some() || self.waypoints.len() == 0 {
            return None;
        }
        let waypoint: Position = self.waypoints[self.waypoint_index];
        if world.position == waypoint {
            self.waypoint_index = (self.waypoint_index + 1) % self.waypoints.len();
        }
        let destination: Position = self.waypoints[self.waypoint_index];
        self.step_toward(world, now, destination)
    }

    fn empty(
        &mut self,
        world: &World,
        backpack: ContainerId,
        container: ContainerId,
        looted: usize,
    ) -> (r: Option<ClientMessage>)
        ensures
            settles(*final(self), r, emptied(old(self)@, *world, backpack, container, looted)),
            old(self).wf() ==> final(self).wf(),
            final(self).settings() == old(self).settings(),
    {
        let next: Option<(usize, ItemId, u8)> = match world.containers.get(&container.0) {
            Some(slots) => {
                assert(world@.containers[container.0] == slots@);
                first_filled_slot(slots)
            },
            None => None,
        };
        match next {
            Some((index, item_id, amount)) if looted < self.behaviour.loot_items_max => {
                self.loot = Some(LootJob::Emptying { container, looted: looted + 1 });
                let cumulative: bool = match world.items.get(&item_id.0) {
                    Some(config) => config.has_flag(ItemFlag::Cumulative),
                    None => false,
                };
                Some(
                    ClientMessage::MoveItem {
                        item: ClientItemRef {
                            position: Position::new(
                                CONTAINER_COORD_FLAG,
                                container.0,
                                (index % 256) as u8,
                            ),
                            item_id,
                            stack_index: 0,
                        },
                        amount: if cumulative {
                            amount
                        } else {
                            1
                        },
                        to: backpack_destination(backpack),
                    },
                )
            },
            _ => {
                self.loot = None;
                Some(ClientMessage::CloseContainer { container_id: container })
            },
        }
    }

    fn loot(&mut self, world: &World, now: Instant) -> (r: Option<ClientMessage>)
        ensures
            settles(*final(self), r, looted(old(self)@, *world, now)),
            old(self).wf() ==> final(self).wf(),
            final(self).settings() == old(self).settings(),
    {
        let backpack: ContainerId = match world.backpack() {
            Some(backpack) => backpack,
            None => return None,
        };
        let job: LootJob = match self.loot {
            Some(job) => job,
            None => return None,
        };
        match job {
            LootJob::Awaiting { corpse, since } => {
                let item = corpse_item_ref(world, &corpse);
                if item.is_some() {
                    self.loot = Some(LootJob::Opening { corpse, since: now, attempts: 1 });
                    use_item(item)
                } else {
                    if now.duration_since(since).nanos > CORPSE_ABANDON_NANOS {
                        self.loot = None;
                    }
                    None
                }
            },
            LootJob::Opening { corpse, since, attempts } => {
                if now.duration_since(since).nanos > CORPSE_ABANDON_NANOS {
                    self.loot = None;
                    None
                } else if attempts >= CORPSE_OPEN_ATTEMPTS {
                    None
                } else {
                    let item = corpse_item_ref(world, &corpse);
                    self.loot = Some(LootJob::Opening { corpse, since, attempts: attempts + 1 });
                    use_item(item)
                }
            },
            LootJob::Emptying { container, looted } => {
                self.empty(world, backpack, container, looted)
            },
        }
    }

    /// What the bot decides, and the step that it takes, whose time is not counted yet.
    fn plan(&mut self, world: &World, now: Instant) -> (r: (Option<ClientMessage>, Option<WalkStep>))
        requires
            old(self).wf(),
            old(self)@.next_target_seq < u32::MAX,
            world.carried_total(ItemId(HEALTH_POTION)) <= u32::MAX,
            world.carried_total(ItemId(MANA_POTION)) <= u32::MAX,
        ensures
            takes(*final(self), r.0, r.1, turn(old(self)@, *world, now)),
            final(self).wf(),
            final(self).settings() == old(self).settings(),
    {
        self.observe_target(world, now);
        let message = self.drink_health(world);
        if message.is_some() {
            return (message, None);
        }
        let message = self.cast_heal(world, now);
        if message.is_some() {
            return (message, None);
        }
        let message = self.drink_mana(world);
        if message.is_some() {
            return (message, None);
        }
        let message = self.loot(world, now);
        if message.is_some() {
            return (message, None);
        }
        let message = self.acquire_target(world);
        if message.is_some() {
            return (message, None);
        }
        let message = self.cast_attack(world, now);
        if message.is_some() {
            return (message, None);
        }
        if let Some((message, step)) = self.close(world, now) {
            return (Some(message), Some(step));
        }
        match self.travel(world, now) {
            Some((message, step)) => (Some(message), Some(step)),
            None => (None, None),
        }
    }

    /// What the bot does next. A step that it takes is under way until the time is over that
    /// `walk_ticks` gives it.
    pub fn decide<F: Fn(u16, u16, bool) -> u64>(
        &mut self,
        world: &World,
        now: Instant,
        walk_ticks: &F,
        tick_ms: u64,
    ) -> (r: Option<ClientMessage>)
        requires
            old(self).wf(),
            old(self)@.next_target_seq < u32::MAX,
            world.carried_total(ItemId(HEALTH_POTION)) <= u32::MAX,
            world.carried_total(ItemId(MANA_POTION)) <= u32::MAX,
            now.nanos <= u128::MAX / 2,
            turn(old(self)@, *world, now).step matches Some(step) ==> {
                &&& walk_ticks.requires((step.speed, step.friction, step.diagonal))
                &&& forall|ticks: u64|
                    walk_ticks.ensures((step.speed, step.friction, step.diagonal), ticks) ==> ticks
                        * tick_ms <= u64::MAX
            },
        ensures
            final(self).wf(),
            final(self).settings() == old(self).settings(),
            ({
                let t = turn(old(self)@, *world, now);
                &&& match r {
                    Some(message) => t.message == Some(message@),
                    None => t.message is None,
                }
                &&& match t.step {
                    None => final(self)@ == t.brain,
                    Some(step) => exists|ticks: u64| #[trigger]
                        walk_ticks.ensures((step.speed, step.friction, step.diagonal), ticks)
                            && final(self)@ == (BrainView {
                            next_step_at: Some(
                                Instant { nanos: (now.nanos + ticks * tick_ms * 1_000_000) as u128 },
                            ),
                            ..t.brain
                        }),
                }
            }),
    {
        let (message, step) = self.plan(world, now);
        if let Some(step) = step {
            let lasts = step_duration(
                walk_ticks,
                tick_ms,
                step.speed,
                step.friction,
                step.diagonal,
            );
            assert(lasts.nanos <= u64::MAX * 1_000_000);
            self.next_step_at = Some(now.plus(lasts));
        }
        message
    }

    /// A container has opened: where the bot was opening a corpse, it is this one.
    pub fn corpse_opened(&mut self, container: ContainerId)
        ensures
            final(self)@ == match old(self)@.loot {
                Some(LootJob::Opening { .. }) => BrainView {
                    loot: Some(LootJob::Emptying { container, looted: 0 }),
                    ..old(self)@
                },
                _ => old(self)@,
            },
            old(self).wf() ==> final(self).wf(),
            final(self).settings() == old(self).settings(),
    {
        if let Some(LootJob::Opening { .. }) = self.loot {
            self.loot = Some(LootJob::Emptying { container, looted: 0 });
        }
    }

    /// Makes the bot fight `id`, as if it had chosen it with its very first request.
    pub fn set_target(&mut self, id: AgentId)
        ensures
            final(self)@ == (BrainView {
                target: Some(
                    TargetState { id, seq: 0, last_seen: Position { x: 0, y: 0, z: 0 } },
                ),
                ..old(self)@
            }),
            old(self).wf() ==> final(self).wf(),
            final(self).settings() == old(self).settings(),
    {
        self.target = Some(TargetState { id, seq: 0, last_seen: Position::new(0, 0, 0) });
    }

    /// Makes the bot empty `container`, as if it had opened it itself.
    pub fn opened_corpse(&mut self, container: ContainerId)
        ensures
            final(self)@ == (BrainView {
                loot: Some(LootJob::Emptying { container, looted: 0 }),
                ..old(self)@
            }),
            old(self).wf() ==> final(self).wf(),
            final(self).settings() == old(self).settings(),
    {
        self.loot = Some(LootJob::Emptying { container, looted: 0 });
    }
}

/// `v` cut to its low two bytes.
fn wrap_u16(v: i32) -> (r: u16)
    ensures
        r == v % 0x1_0000,
{
    let wide: i64 = v as i64;
    let low: i64 = if wide >= 0 { wide % 0x1_0000 } else { (wide + 0x8000_0000) % 0x1_0000 };
    low as u16
}

/// `v` cut to its low byte.
fn wrap_u8(v: i16) -> (r: u8)
    ensures
        r == v % 0x100,
{
    let wide: i64 = v as i64;
    let low: i64 = if wide >= 0 { wide % 0x100 } else { (wide + 0x8000) % 0x100 };
    low as u8
}

fn use_item(item: Option<ClientItemRef>) -> (r: Option<ClientMessage>)
    ensures
        shows(r, use_of(item)),
{
    match item {
        Some(item) => Some(ClientMessage::UseItem { item }),
        None => None,
    }
}

/// How the bot names the first place of a container as a destination.
fn backpack_destination(backpack: ContainerId) -> (p: Position)
    ensures
        p == (Position { x: CONTAINER_COORD_FLAG, y: backpack.0, z: 0 }),
{
    Position::new(CONTAINER_COORD_FLAG, backpack.0, 0)
}

fn drink(world: &World, potion: ItemId) -> (r: ClientMessage)
    ensures
        r@ == drinking(world@, potion.0),
{
    ClientMessage::UseItemWith {
        source: ClientItemRef {
            position: Position::new(INVENTORY_COORD_FLAG, CARRIED_SEARCH_FLAG, 0),
            item_id: potion,
            stack_index: 0,
        },
        target: ClientItemRef { position: world.position, item_id: ItemId(0), stack_index: 0 },
        target_agent: Some(world.agent_id),
    }
}

/// The health potion is found missing at most once: after that no decision reports it again.
pub proof fn law_a_dry_health_potion_is_reported_once(b: BrainView, w: World, now: Instant)
    requires
        b.health_dry_reported,
    ensures
        turn(b, w, now).brain.health_dry_reported,
        turn(b, w, now).brain.dry_events == b.dry_events || turn(b, w, now).brain.dry_events
            == b.dry_events.push(DryPotion::Mana),
{
}

/// The mana potion is found missing at most once: after that no decision reports it again.
pub proof fn law_a_dry_mana_potion_is_reported_once(b: BrainView, w: World, now: Instant)
    requires
        b.mana_dry_reported,
    ensures
        turn(b, w, now).brain.mana_dry_reported,
        turn(b, w, now).brain.dry_events == b.dry_events || turn(b, w, now).brain.dry_events
            == b.dry_events.push(DryPotion::Health),
{
}

/// Low life is met with a potion before anything else, where there is one.
pub proof fn law_a_potion_comes_first(b: BrainView, w: World, now: Instant)
    requires
        below(w@.life.current, w@.life.maximum, b.health_potion_pct),
        w.carried_total(ItemId(HEALTH_POTION)) != 0,
    ensures
        turn(b, w, now).message == Some(drinking(w@, HEALTH_POTION)),
{
}

/// A loss that the server reports for another request leaves a target in sight as it was held.
pub proof fn law_a_stale_loss_keeps_the_target(
    b: BrainView,
    w: WorldView,
    now: Instant,
    held: TargetState,
)
    requires
        b.target == Some(held),
        w.agents.contains_key(held.id.0),
        w.target_lost_seq != Some(held.seq),
    ensures
        observed(b, w, now).target matches Some(still) && still.id == held.id && still.seq
            == held.seq,
        observed(b, w, now).loot == b.loot,
{
}

/// A target that is gone from sight is taken for dead where it was last seen, whatever the server
/// said of its loss.
pub proof fn law_a_vanished_target_is_looted(
    b: BrainView,
    w: WorldView,
    now: Instant,
    held: TargetState,
)
    requires
        b.target == Some(held),
        !w.agents.contains_key(held.id.0),
    ensures
        observed(b, w, now).target is None,
        observed(b, w, now).loot == Some(
            LootJob::Awaiting { corpse: held.last_seen, since: now },
        ),
{
}

/// Every request for a target has a number of its own, one above the last.
pub proof fn law_target_requests_are_numbered(b: BrainView, w: World, now: Instant)
    requires
        b.next_target_seq < u32::MAX,
    ensures
        match turn(b, w, now).message {
            Some(ClientMessageView::SetTarget { seq, .. }) => seq == b.next_target_seq + 1
                && turn(b, w, now).brain.next_target_seq == seq,
            _ => turn(b, w, now).brain.next_target_seq == b.next_target_seq,
        },
{
}

/// Of the agents that the bot would fight, one is the nearest.
proof fn lemma_one_is_nearest(b: BrainView, w: WorldView, id: u16)
    requires
        eligible(b, w, id),
    ensures
        exists|best: u16| nearest(b, w, best),
    decreases w.position.spec_distance(w.agents[id].position), id,
{
    if !nearest(b, w, id) {
        let other = choose|other: u16| #[trigger]
            eligible(b, w, other) && !preferred_to(w, id, other);
        lemma_one_is_nearest(b, w, other);
    }
}

proof fn lemma_acquired_is_eligible(b: BrainView, w: WorldView)
    ensures
        target_acquired(b, w).message matches Some(message) ==> {
            &&& message matches ClientMessageView::SetTarget { agent_id: Some(id), .. }
            &&& eligible(b, w, id.0)
        },
{
    if exists|id: u16| eligible(b, w, id) {
        lemma_one_is_nearest(b, w, choose|id: u16| eligible(b, w, id));
    }
}

/// An agent that is named like a bot is never chosen as a target, nor one out of range.
pub proof fn law_only_eligible_agents_are_targeted(b: BrainView, w: World, now: Instant)
    ensures
        turn(b, w, now).message matches Some(
            ClientMessageView::SetTarget { agent_id: Some(id), .. },
        ) ==> eligible(b, w@, id.0),
{
    let t = health_drunk(observed(b, w@, now), w);
    let t = or_else(t, |b: BrainView| heal_cast(b, w, now));
    let t = or_else(t, |b: BrainView| mana_drunk(b, w));
    let t = or_else(t, |b: BrainView| looted(b, w, now));
    assert(t.brain.ignore_prefix == b.ignore_prefix && t.brain.engage_radius == b.engage_radius);
    lemma_acquired_is_eligible(t.brain, w@);
    assert forall|id: u16| eligible(t.brain, w@, id) == eligible(b, w@, id) by {}
}

/// While a step is under way no other is taken.
pub proof fn law_steps_do_not_overlap(b: BrainView, w: World, now: Instant, at: Instant)
    requires
        b.next_step_at == Some(at),
        now.nanos < at.nanos,
    ensures
        turn(b, w, now).step is None,
        !(turn(b, w, now).message is Some && turn(b, w, now).message->0 is MovePlayer),
{
}

/// No more attempts were made at opening a corpse than are allowed.
pub open spec fn attempts_bounded(b: BrainView) -> bool {
    b.loot matches Some(LootJob::Opening { attempts, .. }) ==> attempts <= CORPSE_OPEN_ATTEMPTS
}

/// A corpse is never asked to open more often than `CORPSE_OPEN_ATTEMPTS` allows: the count stays
/// within it, and once it is reached the corpse is left alone until it opens.
pub proof fn law_a_corpse_is_retried_at_most_once(b: BrainView, w: World, now: Instant)
    requires
        attempts_bounded(b),
    ensures
        attempts_bounded(turn(b, w, now).brain),
        (b.loot matches Some(LootJob::Opening { attempts, .. }) && attempts
            == CORPSE_OPEN_ATTEMPTS) ==> looted(b, w, now).message is None,
{
    let seen = observed(b, w@, now);
    assert(attempts_bounded(seen));
    let t1 = health_drunk(seen, w);
    let t2 = or_else(t1, |b: BrainView| heal_cast(b, w, now));
    let t3 = or_else(t2, |b: BrainView| mana_drunk(b, w));
    assert(t3.brain.loot == seen.loot);
    let t4 = or_else(t3, |b: BrainView| looted(b, w, now));
    assert(attempts_bounded(t4.brain)) by {
        assert(attempts_bounded(looted(t3.brain, w, now).brain));
    }
    let t5 = or_else(t4, |b: BrainView| target_acquired(b, w@));
    let t6 = or_else(t5, |b: BrainView| attack_cast(b, w, now));
    assert(t6.brain.loot == t4.brain.loot);
    let t7 = or_else(t6, |b: BrainView| closed_in(b, w, now));
    assert(t7.brain.loot == t4.brain.loot);
}

/// What a bot knows after it saw to a corpse `n` times.
pub open spec fn after_looting(b: BrainView, worlds: Seq<World>, nows: Seq<Instant>, n: nat) -> BrainView
    decreases n,
{
    if n == 0 {
        b
    } else {
        looted(after_looting(b, worlds, nows, (n - 1) as nat), worlds[n - 1], nows[n - 1]).brain
    }
}

/// However much a corpse holds, no more items are taken out of it than a bot is set to take, one
/// at a time; then its container is closed, and nothing more is done about it.
pub proof fn law_looting_stops_at_its_limit(
    b: BrainView,
    container: ContainerId,
    worlds: Seq<World>,
    nows: Seq<Instant>,
    n: nat,
)
    requires
        b.loot == Some(LootJob::Emptying { container, looted: 0 }),
        nows.len() == worlds.len(),
        n < worlds.len(),
        forall|i: int|
            0 <= i < worlds.len() ==> (#[trigger] worlds[i])@.carried is Some && next_loot(
                worlds[i],
                container,
            ) is Some,
    ensures
        ({
            let t = looted(after_looting(b, worlds, nows, n), worlds[n as int], nows[n as int]);
            let w = worlds[n as int];
            &&& n < b.loot_items_max ==> t.message == Some(
                loot_move(w, w@.carried.unwrap(), container),
            )
            &&& n == b.loot_items_max ==> t.message == Some(
                ClientMessageView::CloseContainer { container_id: container },
            )
            &&& n > b.loot_items_max ==> t.message is None
            &&& t.brain == (BrainView {
                loot: if n < b.loot_items_max {
                    Some(LootJob::Emptying { container, looted: (n + 1) as usize })
                } else {
                    None
                },
                ..b
            })
        }),
    decreases n,
{
    assert(worlds[n as int]@.carried is Some);
    if n > 0 {
        law_looting_stops_at_its_limit(b, container, worlds, nows, (n - 1) as nat);
    }
}

/// Without a backpack nothing is looted.
pub proof fn law_no_loot_without_a_backpack(b: BrainView, w: World, now: Instant)
    requires
        w@.carried is None,
    ensures
        match turn(b, w, now).message {
            Some(ClientMessageView::UseItem { .. }) => false,
            Some(ClientMessageView::MoveItem { .. }) => false,
            Some(ClientMessageView::CloseContainer { .. }) => false,
            _ => true,
        },
{
}

/// A sidestep to the direction on either side still crosses a row or a column that the straight
/// way crosses too.
pub proof fn law_a_sidestep_makes_progress(preferred: Direction)
    ensures
        ({
            let left = compass()[(bearing(preferred) + 7) % 8];
            let right = compass()[(bearing(preferred) + 1) % 8];
            &&& (left.dx() == preferred.dx() && left.dx() != 0) || (left.dy() == preferred.dy()
                && left.dy() != 0)
            &&& (right.dx() == preferred.dx() && right.dx() != 0) || (right.dy() == preferred.dy()
                && right.dy() != 0)
        }),
{
}

/// The columns or rows between two coordinates.
pub open spec fn apart(a: u16, b: u16) -> int {
    if a >= b {
        a - b
    } else {
        b - a
    }
}

/// The direction leads from `from` to a tile that is nearer to `to` in its column, or in its row.
pub open spec fn closes_in(from: Position, to: Position, direction: Direction) -> bool {
    let there = from.spec_step(direction);
    apart(there.x, to.x) < apart(from.x, to.x) || apart(there.y, to.y) < apart(from.y, to.y)
}

/// The tile straight ahead on the way from `from` to `to`: one column and one row nearer, but for
/// what is the same already.
pub open spec fn ahead(from: Position, to: Position) -> Position {
    Position {
        x: if to.x > from.x {
            (from.x + 1) as u16
        } else if to.x < from.x {
            (from.x - 1) as u16
        } else {
            from.x
        },
        y: if to.y > from.y {
            (from.y + 1) as u16
        } else if to.y < from.y {
            (from.y - 1) as u16
        } else {
            from.y
        },
        z: from.z,
    }
}

/// The direction leads to a tile next to the one straight ahead: the same row or the same column
/// on a diagonal way, and off to a side on a straight one.
pub open spec fn leads_beside(from: Position, to: Position, direction: Direction) -> bool {
    let there = from.spec_step(direction);
    let straight = ahead(from, to);
    if from.x != to.x && from.y != to.y {
        (there.x == straight.x && there.y == from.y) || (there.x == from.x && there.y == straight.y)
    } else if from.x == to.x {
        there.y == straight.y && there.x != from.x
    } else {
        there.x == straight.x && there.y != from.y
    }
}

proof fn lemma_first_walkable(w: World, tried: Seq<Direction>)
    ensures
        match first_walkable(w, tried) {
            Some(d) => exists|i: int|
                {
                    &&& 0 <= i < tried.len()
                    &&& #[trigger] tried[i] == d
                    &&& w.walkable(w@.position.spec_step(d))
                    &&& forall|j: int|
                        0 <= j < i ==> !w.walkable(w@.position.spec_step(#[trigger] tried[j]))
                },
            None => forall|j: int|
                0 <= j < tried.len() ==> !w.walkable(w@.position.spec_step(#[trigger] tried[j])),
        },
    decreases tried.len(),
{
    if tried.len() > 0 && !w.walkable(w@.position.spec_step(tried[0])) {
        let rest = tried.drop_first();
        lemma_first_walkable(w, rest);
        match first_walkable(w, rest) {
            Some(d) => {
                let i = choose|i: int|
                    {
                        &&& 0 <= i < rest.len()
                        &&& #[trigger] rest[i] == d
                        &&& w.walkable(w@.position.spec_step(d))
                        &&& forall|j: int|
                            0 <= j < i ==> !w.walkable(w@.position.spec_step(#[trigger] rest[j]))
                    };
                assert(tried[i + 1] == d);
                assert forall|j: int| 0 <= j < i + 1 implies !w.walkable(
                    w@.position.spec_step(#[trigger] tried[j]),
                ) by {
                    if j > 0 {
                        assert(rest[j - 1] == tried[j]);
                    }
                }
            },
            None => {
                assert forall|j: int| 0 <= j < tried.len() implies !w.walkable(
                    w@.position.spec_step(#[trigger] tried[j]),
                ) by {
                    if j > 0 {
                        assert(rest[j - 1] == tried[j]);
                    }
                }
            },
        }
    }
}

proof fn lemma_toward(from: Position, to: Position)
    requires
        from.x != to.x || from.y != to.y,
    ensures
        toward(from, to).dx() == sign(to.x - from.x),
        toward(from, to).dy() == sign(to.y - from.y),
{
    let (x, y) = (sign(to.x - from.x), sign(to.y - from.y));
    let d = if x == 0 {
        if y < 0 { Direction::North } else { Direction::South }
    } else if x > 0 {
        if y < 0 { Direction::NorthEast } else if y == 0 { Direction::East } else { Direction::SouthEast }
    } else {
        if y < 0 { Direction::NorthWest } else if y == 0 { Direction::West } else { Direction::SouthWest }
    };
    assert(d.dx() == x && d.dy() == y);
}

/// A bot steps straight toward where it goes wherever it can: one nearer in column and row. Where
/// it cannot, it steps to a side of that, which is still nearer in one of them; and only where it
/// cannot do that either, anywhere that it can step at all. It stays only where it has arrived,
/// is on another floor, or can step nowhere.
pub proof fn law_a_bot_steps_toward_where_it_goes(w: World, to: Position, other: Direction)
    requires
        w@.position.z == to.z,
        w@.position != to,
    ensures
        ({
            let from = w@.position;
            let open = w.walkable(from.spec_step(other));
            let straight = ahead(from, to);
            &&& apart(straight.x, to.x) == (if from.x == to.x {
                0
            } else {
                apart(from.x, to.x) - 1
            })
            &&& apart(straight.y, to.y) == (if from.y == to.y {
                0
            } else {
                apart(from.y, to.y) - 1
            })
            &&& match chosen_direction(w, to) {
                None => !open && !w.walkable(straight),
                Some(d) => {
                    &&& w.walkable(from.spec_step(d))
                    &&& w.walkable(straight) ==> from.spec_step(d) == straight
                    &&& open && leads_beside(from, to, other) ==> (from.spec_step(d) == straight
                        || leads_beside(from, to, d))
                    &&& from.spec_step(d) == straight || leads_beside(from, to, d) ==> closes_in(
                        from,
                        to,
                        d,
                    )
                },
            }
        }),
{
    let from = w@.position;
    let preferred = toward(from, to);
    lemma_toward(from, to);
    let left = compass()[(bearing(preferred) + 7) % 8];
    let right = compass()[(bearing(preferred) + 1) % 8];
    let tried = seq![preferred, left, right] + compass();
    lemma_first_walkable(w, tried);
    law_a_step_goes_where_its_name_says(from, preferred);
    law_a_step_goes_where_its_name_says(from, left);
    law_a_step_goes_where_its_name_says(from, right);
    law_a_step_goes_where_its_name_says(from, other);
    assert(tried[0] == preferred && tried[1] == left && tried[2] == right);
    assert(tried[3 + bearing(other)] == other);
    assert(from.spec_step(preferred) == ahead(from, to));
    assert(leads_beside(from, to, left));
    assert(leads_beside(from, to, right));
    if leads_beside(from, to, other) {
        lemma_beside(from, to, other);
    }
    if let Some(d) = chosen_direction(w, to) {
        law_a_step_goes_where_its_name_says(from, d);
    }
}

proof fn lemma_beside(from: Position, to: Position, other: Direction)
    requires
        from.z == to.z,
        from != to,
        leads_beside(from, to, other),
    ensures
        ({
            let preferred = toward(from, to);
            other == compass()[(bearing(preferred) + 7) % 8] || other == compass()[(bearing(
                preferred,
            ) + 1) % 8]
        }),
{
    lemma_toward(from, to);
    law_a_step_goes_where_its_name_says(from, other);
}

/// A bot does not step where it stands, nor toward another floor.
pub proof fn law_a_bot_that_has_arrived_stays(w: World, to: Position)
    ensures
        w@.position == to ==> chosen_direction(w, to) is None,
        w@.position.z != to.z ==> chosen_direction(w, to) is None,
{
}

/// A share is below a percentage just where a hundred times it is less than that many times the
/// whole; nothing is below any percentage of nothing.
pub proof fn law_a_share_is_below_its_percentage(current: u32, maximum: u32, pct: u32)
    ensures
        below(current, maximum, pct) <==> maximum > 0 && current * 100 < pct * maximum,
{
    if maximum > 0 {
        let share = (current * 100) / (maximum as int);
        assert((share < pct) == (current * 100 < pct * maximum)) by (nonlinear_arith)
            requires
                share == (current * 100) / (maximum as int),
                maximum > 0,
        ;
    }
}

proof fn lemma_spell_named(w: WorldView, words: Seq<char>, id: u16)
    requires
        knows(w, words, id),
    ensures
        spell_named(w, words) matches Some((spell, group)) && w.spells.contains_key(spell.0)
            && w.spells[spell.0].words == words && w.spells[spell.0].group == group,
    decreases id,
{
    if exists|other: u16| knows(w, words, other) && other < id {
        lemma_spell_named(w, words, choose|other: u16| knows(w, words, other) && other < id);
    } else {
        assert(first_known(w, words, id)) by {
            assert forall|other: u16| #[trigger] knows(w, words, other) implies id <= other by {}
        }
        let best = choose|id: u16| first_known(w, words, id);
        assert(first_known(w, words, best));
    }
}

/// A bot in need helps itself before it does anything else: it drinks where its life or its mana
/// is low and it carries a potion for that, and heals itself where it can.
pub proof fn law_a_bot_helps_itself_when_low(b: BrainView, w: World, now: Instant)
    ensures
        ({
            let hurt = w@.life.maximum > 0 && w@.life.current * 100 < b.health_potion_pct
                * w@.life.maximum;
            let weak = w@.life.maximum > 0 && w@.life.current * 100 < b.heal_spell_pct
                * w@.life.maximum;
            let spent = w@.mana.maximum > 0 && w@.mana.current * 100 < b.mana_potion_pct
                * w@.mana.maximum;
            let heals = weak && (spell_named(w@, b.heal_spell) matches Some((id, group)) && w.ready(
                id,
                group,
                now,
            ));
            let message = turn(b, w, now).message;
            if hurt && w.carried_total(ItemId(266)) > 0 {
                message matches Some(
                    ClientMessageView::UseItemWith { source, target_agent, .. },
                ) && source.item_id == ItemId(266) && target_agent == Some(w@.agent_id)
            } else if heals {
                message matches Some(ClientMessageView::CastSpell { spell_id, target, param })
                    && target == SpellTarget::NoTarget && param is None && spell_named(
                    w@,
                    b.heal_spell,
                ).unwrap().0 == spell_id
            } else if spent && w.carried_total(ItemId(268)) > 0 {
                message matches Some(
                    ClientMessageView::UseItemWith { source, target_agent, .. },
                ) && source.item_id == ItemId(268) && target_agent == Some(w@.agent_id)
            } else {
                !(message matches Some(ClientMessageView::UseItemWith { .. }))
            }
        }),
{
    law_a_share_is_below_its_percentage(
        w@.life.current,
        w@.life.maximum,
        b.health_potion_pct,
    );
    law_a_share_is_below_its_percentage(w@.life.current, w@.life.maximum, b.heal_spell_pct);
    law_a_share_is_below_its_percentage(w@.mana.current, w@.mana.maximum, b.mana_potion_pct);
    w.lemma_carried(ItemId(266));
    w.lemma_carried(ItemId(268));
}

/// A bot casts its attack only at the agent it fights, and only while that is in sight and near
/// enough; what it casts has the words it was given for that, and neither that spell nor its group
/// has to wait.
pub proof fn law_a_bot_attacks_whom_it_fights(b: BrainView, w: World, now: Instant)
    ensures
        attack_cast(b, w, now).message matches Some(message) ==> {
            &&& message matches ClientMessageView::CastSpell { spell_id, target, param }
            &&& b.target matches Some(held) && target == SpellTarget::Agent(held.id)
                && w@.agents.contains_key(held.id.0) && {
                let at = w@.agents[held.id.0].position;
                &&& at.z == w@.position.z
                &&& apart(at.x, w@.position.x) <= b.engage_radius
                &&& apart(at.y, w@.position.y) <= b.engage_radius
            }
            &&& w@.spells.contains_key(spell_id.0) && w@.spells[spell_id.0].words
                == b.attack_spell && param is None
            &&& w@.spell_cooldowns.contains_key(spell_id.0) ==> now.nanos
                >= w@.spell_cooldowns[spell_id.0].nanos
        },
{
    if exists|id: u16| knows(w@, b.attack_spell, id) {
        lemma_spell_named(w@, b.attack_spell, choose|id: u16| knows(w@, b.attack_spell, id));
    }
}

/// A bot that fights nobody picks the nearest of those it would fight: nobody else who is on its
/// floor, near enough and not named like a bot is nearer. It holds on to whom it fights.
pub proof fn law_a_bot_picks_the_nearest(b: BrainView, w: WorldView, other: u16)
    ensures
        ({
            let t = target_acquired(b, w);
            let fit = w.agents.contains_key(other) && !b.ignore_prefix.is_prefix_of(
                w.agents[other].name,
            ) && w.agents[other].position.z == w.position.z && apart(
                w.agents[other].position.x,
                w.position.x,
            ) <= b.engage_radius && apart(w.agents[other].position.y, w.position.y)
                <= b.engage_radius;
            &&& b.target is Some ==> t.message is None && t.brain == b
            &&& b.target is None && fit ==> t.message is Some
            &&& t.message matches Some(message) ==> {
                &&& message matches ClientMessageView::SetTarget { agent_id: Some(id), seq }
                &&& w.agents.contains_key(id.0)
                &&& !b.ignore_prefix.is_prefix_of(w.agents[id.0].name)
                &&& w.agents[id.0].position.z == w.position.z
                &&& fit ==> w.position.spec_distance(w.agents[id.0].position)
                    <= w.position.spec_distance(w.agents[other].position)
                &&& t.brain.target == Some(
                    TargetState { id, seq, last_seen: w.agents[id.0].position },
                )
            }
        }),
{
    if w.agents.contains_key(other) {
        law_distance_counts_steps(
            w.position,
            w.agents[other].position,
            Direction::North,
            b.engage_radius as nat,
        );
    }
    let fit = w.agents.contains_key(other) && !b.ignore_prefix.is_prefix_of(w.agents[other].name)
        && w.position.spec_is_within(w.agents[other].position, b.engage_radius);
    assert(fit == eligible(b, w, other));
    if exists|id: u16| eligible(b, w, id) {
        lemma_one_is_nearest(b, w, choose|id: u16| eligible(b, w, id));
        let best = choose|id: u16| nearest(b, w, id);
        assert(nearest(b, w, best));
        assert(eligible(b, w, other) ==> preferred_to(w, best, other));
    }
}

/// A bot walks its route round: at a waypoint it turns to the next, after the last to the first,
/// and until then it keeps to the one it is after. While it fights it does not walk on.
pub proof fn law_a_route_is_walked_round(b: BrainView, w: World, now: Instant)
    requires
        b.waypoints.len() > 0,
        0 <= b.waypoint_index < b.waypoints.len(),
    ensures
        ({
            let t = travelled(b, w, now);
            let next = t.brain.waypoint_index;
            &&& 0 <= next < b.waypoints.len()
            &&& b.target is Some ==> t.message is None && next == b.waypoint_index
            &&& b.target is None ==> {
                &&& w@.position != b.waypoints[b.waypoint_index] ==> next == b.waypoint_index
                &&& w@.position == b.waypoints[b.waypoint_index] ==> next == (if b.waypoint_index
                    + 1 == b.waypoints.len() {
                    0
                } else {
                    b.waypoint_index + 1
                })
                &&& t.message matches Some(message) ==> (message matches ClientMessageView::MovePlayer {
                    direction,
                } && chosen_direction(w, b.waypoints[next]) == Some(direction))
            }
        }),
{
    let i = b.waypoint_index;
    let n = b.waypoints.len() as int;
    assert((i + 1) % n == (if i + 1 == n { 0 } else { i + 1 })) by (nonlinear_arith)
        requires
            0 <= i < n,
    ;
}

/// A bot closes in on whom it fights until it stands next to it, and then stands.
pub proof fn law_a_bot_closes_in_until_beside(b: BrainView, w: World, now: Instant, held: TargetState)
    requires
        b.target == Some(held),
        w@.agents.contains_key(held.id.0),
    ensures
        ({
            let at = w@.agents[held.id.0].position;
            let t = closed_in(b, w, now);
            let beside = at.z == w@.position.z && apart(at.x, w@.position.x) <= 1 && apart(
                at.y,
                w@.position.y,
            ) <= 1;
            &&& t.brain == b
            &&& beside ==> t.message is None
            &&& t.message matches Some(message) ==> (message matches ClientMessageView::MovePlayer {
                direction,
            } && chosen_direction(w, at) == Some(direction))
            &&& !beside && b.next_step_at is None && chosen_direction(w, at) is Some && w.friction(
                w@.position.spec_step(chosen_direction(w, at).unwrap()),
            ) is Some ==> t.message is Some
        }),
{
    law_distance_counts_steps(
        w@.position,
        w@.agents[held.id.0].position,
        Direction::North,
        1,
    );
}

/// What a bot takes out of a corpse is in the first place of it that is not empty; it takes a whole
/// stack, or the one item, and puts it to the front of its backpack.
pub proof fn law_loot_is_taken_from_the_front(
    w: World,
    backpack: ContainerId,
    container: ContainerId,
    i: int,
)
    requires
        next_loot(w, container) is Some,
        w@.containers.contains_key(container.0),
        0 <= i < w@.containers[container.0].len(),
    ensures
        ({
            let slots = w@.containers[container.0];
            &&& loot_move(w, backpack, container) matches ClientMessageView::MoveItem {
                item,
                amount,
                to,
            } && exists|k: int|
                {
                    &&& 0 <= k < slots.len()
                    &&& #[trigger] slots[k] is Some
                    &&& i < k ==> slots[i] is None
                    &&& item.position.y == container.0 && item.position.z == (k % 256) as u8
                    &&& item.item_id == slots[k].unwrap().0
                    &&& amount == slots[k].unwrap().1 || amount == 1
                    &&& w.items@.contains_key(item.item_id.0) && w.items@[item.item_id.0].flagged(
                        ItemFlag::Cumulative,
                    ) ==> amount == slots[k].unwrap().1
                    &&& to.y == backpack.0 && to.z == 0 && to.x == item.position.x
                }
        }),
{
    let slots = w@.containers[container.0];
    lemma_first_filled(slots, 0, i);
    let k = next_loot(w, container).unwrap();
    assert(slots[k] is Some);
}

proof fn lemma_first_filled(slots: StackView, from: int, i: int)
    requires
        0 <= from <= slots.len(),
    ensures
        first_filled(slots, from) matches Some(k) ==> from <= k < slots.len() && slots[k] is Some
            && (from <= i < k ==> slots[i] is None),
    decreases slots.len() - from,
{
    if from < slots.len() && slots[from] is None {
        lemma_first_filled(slots, from + 1, i);
    }
}

/// A corpse is opened where its owner was last seen: a bot uses the first thing there that opens.
pub proof fn law_a_corpse_is_opened_where_it_lies(b: BrainView, w: World, now: Instant, corpse: Position, since: Instant)
    requires
        w@.carried is Some,
        b.loot == Some(LootJob::Awaiting { corpse, since }),
    ensures
        looted(b, w, now).message matches Some(message) ==> {
            &&& message matches ClientMessageView::UseItem { item }
            &&& item.position == corpse
            &&& w.items@.contains_key(item.item_id.0) && w.items@[item.item_id.0].flagged(
                ItemFlag::Container,
            )
            &&& looted(b, w, now).brain.loot == Some(
                LootJob::Opening { corpse, since: now, attempts: 1 },
            )
        },
        looted(b, w, now).message is None ==> looted(b, w, now).brain.loot == b.loot || (looted(
            b,
            w,
            now,
        ).brain.loot is None && now.nanos > since.nanos + 2_000_000_000),
{
    if w@.tiles.contains_key(tile_key(corpse)) {
        lemma_first_opening(w.items@, w@.tiles[tile_key(corpse)], 0);
    }
}

proof fn lemma_first_opening(items: Map<u16, Arc<ItemConfig>>, stack: StackView, from: int)
    requires
        0 <= from,
    ensures
        first_opening(items, stack, from) matches Some(k) ==> from <= k < stack.len() && opens(
            items,
            stack[k],
        ),
    decreases stack.len() - from,
{
    if from < stack.len() {
        lemma_first_opening(items, stack, from + 1);
    }
}

/// A step is paced by the bot's speed and by the friction of the tile it leads to, and as a
/// diagonal one just where it leads to another column and another row.
pub proof fn law_a_step_is_paced_by_where_it_leads(
    b: BrainView,
    w: World,
    now: Instant,
    destination: Position,
)
    ensures
        ({
            let t = stepped(b, w, now, destination);
            &&& t.brain == b
            &&& t.step is Some <==> t.message is Some
            &&& t.message matches Some(message) ==> (message matches ClientMessageView::MovePlayer {
                direction,
            } && (t.step matches Some(step) && step.speed == w@.speed && Some(step.friction)
                == w.friction(w@.position.spec_step(direction)) && (step.diagonal <==> direction
                is NorthEast || direction is NorthWest || direction is SouthEast || direction
                is SouthWest)))
            &&& (b.next_step_at matches Some(at) && now.nanos < at.nanos) ==> t.message is None
        }),
{
}

/// Of several spells with the same words the one with the lowest number is meant; words that no
/// known spell has mean none.
pub proof fn law_words_mean_the_first_spell_that_has_them(w: WorldView, words: Seq<char>, id: u16)
    requires
        w.spells.contains_key(id),
        w.spells[id].words == words,
    ensures
        spell_named(w, words) matches Some((spell, group)) && spell.0 <= id
            && w.spells.contains_key(spell.0) && w.spells[spell.0].words == words && group
            == w.spells[spell.0].group,
        forall|other: Seq<char>|
            (forall|k: u16| w.spells.contains_key(k) ==> (#[trigger] w.spells[k]).words != other)
                ==> #[trigger] spell_named(w, other) is None,
{
    assert(knows(w, words, id));
    lemma_lowest(w, words, id);
    let first = choose|k: u16| first_known(w, words, k);
    assert(first_known(w, words, first));
    assert forall|other: Seq<char>|
        (forall|k: u16|
            w.spells.contains_key(k) ==> (#[trigger] w.spells[k]).words != other) implies #[trigger] spell_named(
        w,
        other,
    ) is None by {
        if exists|k: u16| knows(w, other, k) {
            let k = choose|k: u16| knows(w, other, k);
            assert(w.spells[k].words == other);
        }
    }
}

proof fn lemma_lowest(w: WorldView, words: Seq<char>, id: u16)
    requires
        knows(w, words, id),
    ensures
        exists|k: u16| first_known(w, words, k),
    decreases id,
{
    if exists|k: u16| knows(w, words, k) && k < id {
        let k = choose|k: u16| knows(w, words, k) && k < id;
        lemma_lowest(w, words, k);
    } else {
        assert(first_known(w, words, id));
    }
}

/// A corpse that does not show, or does not open, is given up when two seconds have passed, and not
/// before.
pub proof fn law_a_corpse_is_given_up_in_time(
    b: BrainView,
    w: World,
    corpse: Position,
    since: Instant,
    attempts: u8,
    now: Instant,
)
    requires
        w@.carried is Some,
        since.nanos <= now.nanos,
        corpse_at(w, corpse) is None,
    ensures
        ({
            let waits = looted(
                BrainView { loot: Some(LootJob::Awaiting { corpse, since }), ..b },
                w,
                now,
            );
            let opens = looted(
                BrainView { loot: Some(LootJob::Opening { corpse, since, attempts }), ..b },
                w,
                now,
            );
            let late = now.nanos - since.nanos > 2_000_000_000;
            &&& waits.message is None && opens.message is None
            &&& late ==> waits.brain.loot is None && opens.brain.loot is None
            &&& !late ==> waits.brain.loot == Some(LootJob::Awaiting { corpse, since })
            &&& !late ==> (opens.brain.loot matches Some(LootJob::Opening {
                corpse: c,
                since: s,
                ..
            }) && c == corpse && s == since)
        }),
{
}

} // verus!
