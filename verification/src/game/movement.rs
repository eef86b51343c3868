//! Walking, and what the tiles do to those who step on them.

use crate::entities::agent::{speed_of_agent, AgentKey, AgentView, Facing};
use crate::entities::conditions::ConditionSpec;
use crate::entities::item::ItemView;
use crate::entities::items::{FloorChangeDirection, ItemFlag};
use crate::entities::map::{
    enterable, floor_change_at, floor_change_in, friction_in, with_agent, GameMap, MapView,
};
use crate::entities::position::{law_a_step_goes_where_its_name_says, Direction, Position};
use crate::entities::world_delta::{agent_marked, AgentFlag};
use crate::entities::world_map::{moved_to, stepped, WorldMapView};
use crate::game::conditions::{agent_of, agent_written};
use crate::game::ctx::{carries_on, told, TickCtx, TickView};
use crate::game::events::{BroadcastMessage, EventView};
use crate::game::tick::{Tick, TickDelta};
use vstd::prelude::*;

verus! {

/// How many floor changes in a row a single step may lead through.
pub const MAX_STEP_CHAIN: u8 = 4;

/// What a tile does to whoever steps on it.
#[derive(Debug, Clone, Copy, PartialEq, Eq, Structural)]
pub enum StepEffect {
    Condition { spec: ConditionSpec, owner: Option<AgentKey> },
    FloorChange(FloorChangeDirection),
}

/// The fields among the first `n` items, from the ground up.
pub open spec fn fields_among(items: Seq<ItemView>, n: nat) -> Seq<StepEffect>
    decreases n,
{
    if n == 0 {
        Seq::empty()
    } else {
        let before = fields_among(items, (n - 1) as nat);
        match items[n - 1].config.field() {
            Some(spec) => before.push(StepEffect::Condition { spec, owner: items[n - 1].owner }),
            None => before,
        }
    }
}

/// What a tile does to whoever steps on it: all its fields first, and then its floor change.
pub open spec fn effects_at(m: MapView, pos: Position) -> Seq<StepEffect> {
    if m.tiles.contains_key(pos) {
        let items = m.tiles[pos].items;
        let fields = fields_among(items, items.len());
        match floor_change_in(items, 0) {
            Some(direction) => fields.push(StepEffect::FloorChange(direction)),
            None => fields,
        }
    } else {
        Seq::empty()
    }
}

/// What a tile does to whoever steps on it.
pub fn step_effects(map: &GameMap, pos: &Position) -> (effects: Vec<StepEffect>)
    requires
        map.wf(),
    ensures
        effects@ == effects_at(map@, *pos),
{
    let mut effects: Vec<StepEffect> = Vec::new();
    let tile = match map.get_tile(pos) {
        Ok(tile) => tile,
        Err(_) => return effects,
    };
    let mut change: Option<FloorChangeDirection> = None;
    let mut i: usize = 0;
    while i < tile.item_count()
        invariant
            i <= tile@.items.len(),
            effects@ == fields_among(tile@.items, i as nat),
            match change {
                Some(direction) => floor_change_in(tile@.items, 0) == Some(direction),
                None => floor_change_in(tile@.items, 0) == floor_change_in(tile@.items, i as int),
            },
        decreases tile@.items.len() - i,
    {
        let item = tile.item(i);
        if let Some(spec) = item.config.attr_field() {
            effects.push(StepEffect::Condition { spec, owner: item.owner });
        }
        if change.is_none() {
            change = item.config.attr_floor_change();
        }
        i += 1;
    }
    if let Some(direction) = change {
        effects.push(StepEffect::FloorChange(direction));
    }
    effects
}

/// The tile below `pos`.
pub open spec fn below(pos: Position) -> Position {
    Position { z: (pos.z + 1) as u8, ..pos }
}

/// How far to the side a floor change leads. A way down ends beside the stairs that lead back up,
/// on the side they are climbed from.
pub open spec fn sideways(m: MapView, pos: Position, direction: FloorChangeDirection) -> (int, int) {
    match direction {
        FloorChangeDirection::Up => (0, 0),
        FloorChangeDirection::North => (0, -1),
        FloorChangeDirection::East => (1, 0),
        FloorChangeDirection::South => (0, 1),
        FloorChangeDirection::West => (-1, 0),
        FloorChangeDirection::Down => match floor_change_at(m, below(pos)) {
            Some(FloorChangeDirection::North) => (0, 1),
            Some(FloorChangeDirection::East) => (-1, 0),
            Some(FloorChangeDirection::South) => (0, -1),
            Some(FloorChangeDirection::West) => (1, 0),
            _ => (0, 0),
        },
    }
}

/// How many floors down a floor change leads.
pub open spec fn downward(direction: FloorChangeDirection) -> int {
    match direction {
        FloorChangeDirection::Down => 1,
        _ => -1,
    }
}

/// Where a floor change leads is on the map's grid.
pub open spec fn leads_somewhere(m: MapView, pos: Position, direction: FloorChangeDirection) -> bool {
    let (dx, dy) = sideways(m, pos, direction);
    &&& 0 <= pos.z + downward(direction) <= u8::MAX
    &&& 0 <= pos.x + dx <= u16::MAX
    &&& 0 <= pos.y + dy <= u16::MAX
}

/// Where a floor change leads.
pub open spec fn destination(m: MapView, pos: Position, direction: FloorChangeDirection) -> Position {
    let (dx, dy) = sideways(m, pos, direction);
    Position {
        x: (pos.x + dx) as u16,
        y: (pos.y + dy) as u16,
        z: (pos.z + downward(direction)) as u8,
    }
}

/// Where a floor change leads.
pub fn floor_change_destination(map: &GameMap, pos: &Position, direction: FloorChangeDirection) -> (to:
    Position)
    requires
        map.wf(),
        leads_somewhere(map@, *pos, direction),
    ensures
        to == destination(map@, *pos, direction),
{
    match direction {
        FloorChangeDirection::Up => Position { x: pos.x, y: pos.y, z: pos.z - 1 },
        FloorChangeDirection::Down => {
            let under = Position { x: pos.x, y: pos.y, z: pos.z + 1 };
            match map.get_floor_change(&under) {
                Some(FloorChangeDirection::North) => Position {
                    x: pos.x,
                    y: pos.y + 1,
                    z: pos.z + 1,
                },
                Some(FloorChangeDirection::East) => Position {
                    x: pos.x - 1,
                    y: pos.y,
                    z: pos.z + 1,
                },
                Some(FloorChangeDirection::South) => Position {
                    x: pos.x,
                    y: pos.y - 1,
                    z: pos.z + 1,
                },
                Some(FloorChangeDirection::West) => Position {
                    x: pos.x + 1,
                    y: pos.y,
                    z: pos.z + 1,
                },
                _ => under,
            }
        },
        FloorChangeDirection::North => Position { x: pos.x, y: pos.y - 1, z: pos.z - 1 },
        FloorChangeDirection::East => Position { x: pos.x + 1, y: pos.y, z: pos.z - 1 },
        FloorChangeDirection::South => Position { x: pos.x, y: pos.y + 1, z: pos.z - 1 },
        FloorChangeDirection::West => Position { x: pos.x - 1, y: pos.y, z: pos.z - 1 },
    }
}

/// Every floor change of the map leads to a place on its grid.
pub open spec fn stairs_lead_somewhere(m: MapView) -> bool {
    forall|p: Position|
        (#[trigger] floor_change_at(m, p)) matches Some(direction) ==> leads_somewhere(
            m,
            p,
            direction,
        )
}

/// The same tiles are there with the same items on them.
pub open spec fn same_ground(m: MapView, n: MapView) -> bool {
    &&& m.tiles.dom() == n.tiles.dom()
    &&& forall|p: Position| #[trigger] n.tiles.contains_key(p) ==> n.tiles[p].items
        == m.tiles[p].items
}

proof fn lemma_same_ground(m: MapView, n: MapView)
    requires
        same_ground(m, n),
    ensures
        forall|p: Position| #[trigger] floor_change_at(n, p) == floor_change_at(m, p),
        stairs_lead_somewhere(m) ==> stairs_lead_somewhere(n),
{
    assert forall|p: Position| #[trigger] floor_change_at(n, p) == floor_change_at(m, p) by {
        assert(n.tiles.contains_key(p) == n.tiles.dom().contains(p));
        assert(m.tiles.contains_key(p) == m.tiles.dom().contains(p));
    }
    if stairs_lead_somewhere(m) {
        assert forall|p: Position|
            (#[trigger] floor_change_at(n, p)) matches Some(direction) implies leads_somewhere(
            n,
            p,
            floor_change_at(n, p).unwrap(),
        ) by {
            assert(floor_change_at(m, p) == floor_change_at(n, p));
            assert(floor_change_at(m, below(p)) == floor_change_at(n, below(p)));
        }
    }
}

/// What is still to be done to an agent that stepped on a tile.
#[derive(Debug)]
pub struct Steps {
    pub agent: AgentKey,
    pub pos: Position,
    pub effects: Vec<StepEffect>,
    pub next: usize,
    pub depth: u8,
}

pub struct StepsView {
    pub agent: AgentKey,
    pub pos: Position,
    pub effects: Seq<StepEffect>,
    pub next: int,
    pub depth: int,
}

impl View for Steps {
    type V = StepsView;

    open spec fn view(&self) -> StepsView {
        StepsView {
            agent: self.agent,
            pos: self.pos,
            effects: self.effects@,
            next: self.next as int,
            depth: self.depth as int,
        }
    }
}

/// All that a tile does to an agent that stepped on it after `depth` floor changes.
pub open spec fn steps_at(m: MapView, agent: AgentKey, pos: Position, depth: int) -> StepsView {
    StepsView { agent, pos, effects: effects_at(m, pos), next: 0, depth }
}

/// Nothing is left to be done.
pub open spec fn done(s: StepsView) -> StepsView {
    StepsView { next: s.effects.len() as int, ..s }
}

/// The effects of the tile are still those that the map has there.
pub open spec fn steps_current(w: TickView, s: StepsView) -> bool {
    &&& 0 <= s.next <= s.effects.len()
    &&& forall|i: int|
        s.next <= i < s.effects.len() && (#[trigger] s.effects[i]) is FloorChange
            ==> leads_somewhere(w.world.map, s.pos, s.effects[i]->FloorChange_0)
}

/// What a step comes to up to the next condition that it brings: the world then, what is left to
/// be done, and that condition with whoever it is owed to.
pub open spec fn stepping(w: TickView, s: StepsView) -> (
    TickView,
    StepsView,
    Option<(ConditionSpec, Option<AgentKey>)>,
)
    decreases MAX_STEP_CHAIN - s.depth,
{
    if s.next >= s.effects.len() || !w.world.map.agents.contains_key(s.agent.0) {
        (w, done(s), None)
    } else {
        match s.effects[s.next] {
            StepEffect::Condition { spec, owner } => (
                w,
                StepsView { next: s.next + 1, ..s },
                Some((spec, owner)),
            ),
            StepEffect::FloorChange(direction) => if s.depth >= MAX_STEP_CHAIN {
                (w, done(s), None)
            } else {
                let to = destination(w.world.map, s.pos, direction);
                let (r, map) = moved_to(w.world.map, s.agent, to);
                let moved = TickView { world: WorldMapView { map, ..w.world }, ..w };
                if r is Err {
                    (moved, done(s), None)
                } else {
                    stepping(
                        told(
                            moved,
                            EventView::AgentTeleported {
                                agent_key: s.agent,
                                from_position: s.pos,
                                to_position: to,
                            },
                        ),
                        steps_at(map, s.agent, to, s.depth + 1),
                    )
                }
            },
        }
    }
}

/// What a tile will do to an agent that has stepped on it. `step_onto` does it.
pub fn begin_step(ctx: &TickCtx, agent_key: AgentKey, pos: &Position) -> (steps: Steps)
    requires
        ctx.wf(),
    ensures
        steps@ == steps_at(ctx@.world.map, agent_key, *pos, 0),
        stairs_lead_somewhere(ctx@.world.map) ==> steps_current(ctx@, steps@),
{
    let steps = Steps {
        agent: agent_key,
        pos: *pos,
        effects: step_effects(ctx.map.map(), pos),
        next: 0,
        depth: 0,
    };
    proof {
        if stairs_lead_somewhere(ctx@.world.map) {
            lemma_effects_lead(ctx@.world.map, *pos);
        }
    }
    steps
}

proof fn lemma_no_stairs_among_fields(items: Seq<ItemView>, n: nat)
    ensures
        forall|i: int| 0 <= i < fields_among(items, n).len() ==> !((#[trigger] fields_among(
            items,
            n,
        )[i]) is FloorChange),
    decreases n,
{
    if n > 0 {
        lemma_no_stairs_among_fields(items, (n - 1) as nat);
    }
}

proof fn lemma_effects_lead(m: MapView, pos: Position)
    requires
        stairs_lead_somewhere(m),
    ensures
        forall|i: int|
            0 <= i < effects_at(m, pos).len() && (#[trigger] effects_at(m, pos)[i]) is FloorChange
                ==> leads_somewhere(m, pos, effects_at(m, pos)[i]->FloorChange_0),
{
    if m.tiles.contains_key(pos) {
        let items = m.tiles[pos].items;
        lemma_no_stairs_among_fields(items, items.len());
        assert(floor_change_at(m, pos) == floor_change_in(items, 0));
        assert forall|i: int|
            0 <= i < effects_at(m, pos).len() && (#[trigger] effects_at(m, pos)[i]) is FloorChange implies leads_somewhere(
            m,
            pos,
            effects_at(m, pos)[i]->FloorChange_0,
        ) by {
            let fields = fields_among(items, items.len());
            if i < fields.len() {
                assert(effects_at(m, pos)[i] == fields[i]);
            }
        }
    }
}

proof fn lemma_moved_ground(m: MapView, key: AgentKey, to: Position)
    ensures
        same_ground(m, moved_to(m, key, to).1),
{
    let n = moved_to(m, key, to).1;
    assert(m.tiles.dom() =~= n.tiles.dom());
}

/// Does what is left to be done of a step, up to the next condition. That one is handed back, to
/// be applied before this is called again; where there is none the step is over.
pub fn step_onto(ctx: &mut TickCtx, steps: &mut Steps) -> (r: Option<
    (ConditionSpec, Option<AgentKey>),
>)
    requires
        old(ctx).wf(),
        stairs_lead_somewhere(old(ctx)@.world.map),
        steps_current(old(ctx)@, old(steps)@),
    ensures
        final(ctx).wf(),
        stairs_lead_somewhere(final(ctx)@.world.map),
        steps_current(final(ctx)@, final(steps)@),
        (final(ctx)@, final(steps)@, r) == stepping(old(ctx)@, old(steps)@),
    decreases MAX_STEP_CHAIN - old(steps).depth,
{
    if steps.next >= steps.effects.len() || ctx.map.map().get_agent(steps.agent).is_none() {
        steps.next = steps.effects.len();
        return None;
    }
    match steps.effects[steps.next] {
        StepEffect::Condition { spec, owner } => {
            steps.next = steps.next + 1;
            Some((spec, owner))
        },
        StepEffect::FloorChange(direction) => {
            if steps.depth >= MAX_STEP_CHAIN {
                steps.next = steps.effects.len();
                return None;
            }
            let to: Position = floor_change_destination(ctx.map.map(), &steps.pos, direction);
            let ghost before = ctx@.world.map;
            let moved = ctx.map.move_agent(steps.agent, &to);
            proof {
                lemma_moved_ground(before, steps.agent, to);
                lemma_same_ground(before, ctx@.world.map);
            }
            if moved.is_err() {
                steps.next = steps.effects.len();
                return None;
            }
            ctx.tell(
                BroadcastMessage::AgentTeleported {
                    agent_key: steps.agent,
                    from_position: steps.pos,
                    to_position: to,
                },
            );
            proof {
                lemma_effects_lead(ctx@.world.map, to);
            }
            steps.pos = to;
            steps.effects = step_effects(ctx.map.map(), &to);
            steps.next = 0;
            steps.depth = steps.depth + 1;
            step_onto(ctx, steps)
        },
    }
}

proof fn lemma_stepping(w: TickView, s: StepsView)
    requires
        0 <= s.next <= s.effects.len(),
    ensures
        ({
            let (later, t, r) = stepping(w, s);
            &&& t.agent == s.agent
            &&& later.tick == w.tick
            &&& later.events.len() >= w.events.len()
            &&& later.scheduled == w.scheduled
            &&& 0 <= t.next <= t.effects.len()
            &&& r is Some ==> (t.depth == s.depth && t.effects.len() - t.next < s.effects.len()
                - s.next) || s.depth < t.depth <= MAX_STEP_CHAIN
        }),
    decreases MAX_STEP_CHAIN - s.depth,
{
    if s.next < s.effects.len() && w.world.map.agents.contains_key(s.agent.0) {
        if let StepEffect::FloorChange(direction) = s.effects[s.next] {
            if s.depth < MAX_STEP_CHAIN {
                let to = destination(w.world.map, s.pos, direction);
                let (r, map) = moved_to(w.world.map, s.agent, to);
                let moved = TickView { world: WorldMapView { map, ..w.world }, ..w };
                if r is Ok {
                    lemma_stepping(
                        told(
                            moved,
                            EventView::AgentTeleported {
                                agent_key: s.agent,
                                from_position: s.pos,
                                to_position: to,
                            },
                        ),
                        steps_at(map, s.agent, to, s.depth + 1),
                    );
                }
            }
        }
    }
}

/// A condition that a tile brings: who comes under it, what it is, and whoever it is owed to.
pub type TileCondition = (AgentKey, ConditionSpec, Option<AgentKey>);

/// Whatever becomes of those who come under a condition, every floor change still leads somewhere.
pub open spec fn keeps_stairs<X: Fn(TickCtx, TileCondition) -> TickCtx>(apply: X) -> bool {
    forall|c: TickCtx, condition: TileCondition, r: TickCtx|
        c.wf() && #[trigger] apply.ensures((c, condition), r) ==> {
            &&& stairs_lead_somewhere(c@.world.map) ==> stairs_lead_somewhere(r@.world.map)
            &&& forall|p: Position, direction: FloorChangeDirection|
                leads_somewhere(c@.world.map, p, direction) ==> #[trigger] leads_somewhere(
                    r@.world.map,
                    p,
                    direction,
                )
        }
}

/// From `before` to `after` a step went on up to a condition and that was applied, and from `s` to
/// `t` what is left to be done of it.
pub open spec fn stepped_on<X: Fn(TickCtx, TileCondition) -> TickCtx>(
    before: TickCtx,
    s: StepsView,
    after: TickCtx,
    t: StepsView,
    apply: X,
) -> bool {
    exists|mid: TickCtx, spec: ConditionSpec, owner: Option<AgentKey>|
        {
            &&& stepping(before@, s) == (mid@, t, Some((spec, owner)))
            &&& #[trigger] apply.ensures((mid, (s.agent, spec, owner)), after)
        }
}

/// `states` are the states of a step at each condition that it brings, and `left` what is left to
/// be done of it then.
pub open spec fn steps_through<X: Fn(TickCtx, TileCondition) -> TickCtx>(
    states: Seq<TickCtx>,
    left: Seq<StepsView>,
    apply: X,
) -> bool {
    &&& states.len() == left.len()
    &&& states.len() > 0
    &&& forall|i: int|
        0 <= i < states.len() - 1 ==> stepped_on(
            #[trigger] states[i],
            left[i],
            states[i + 1],
            left[i + 1],
            apply,
        )
}

/// From `before` to `after` a step was taken to its end.
pub open spec fn step_taken<X: Fn(TickCtx, TileCondition) -> TickCtx>(
    before: TickView,
    s: StepsView,
    after: TickView,
    apply: X,
) -> bool {
    exists|states: Seq<TickCtx>, left: Seq<StepsView>|
        {
            &&& #[trigger] steps_through(states, left, apply)
            &&& states.first()@ == before
            &&& left.first() == s
            &&& stepping(states.last()@, left.last()).0 == after
            &&& stepping(states.last()@, left.last()).2 is None
        }
}

/// Takes a step to its end. `apply` puts the agent under each condition that the step brings.
fn take_steps<X: Fn(TickCtx, TileCondition) -> TickCtx>(ctx: TickCtx, steps: Steps, apply: &X) -> (after:
    TickCtx)
    requires
        ctx.wf(),
        stairs_lead_somewhere(ctx@.world.map),
        steps_current(ctx@, steps@),
        carries_on(*apply),
        keeps_stairs(*apply),
    ensures
        after.wf(),
        after.tick == ctx.tick,
        step_taken(ctx@, steps@, after@, *apply),
{
    let ghost first = ctx;
    let ghost start = steps@;
    let ghost mut states: Seq<TickCtx> = seq![ctx];
    let ghost mut left: Seq<StepsView> = seq![steps@];
    let mut ctx: TickCtx = ctx;
    let mut steps: Steps = steps;
    #[verifier::loop_isolation(false)]
    loop
        invariant
            ctx.wf(),
            ctx.tick == first.tick,
            stairs_lead_somewhere(ctx@.world.map),
            steps_current(ctx@, steps@),
            carries_on(*apply),
            keeps_stairs(*apply),
            steps_through(states, left, *apply),
            states.first()@ == first@,
            left.first() == start,
            states.last() == ctx,
            left.last() == steps@,
        decreases 0xFF - steps.depth, steps.effects@.len() - steps.next,
    {
        let ghost before = ctx;
        let ghost s = steps@;
        proof {
            lemma_stepping(before@, s);
        }
        let next = step_onto(&mut ctx, &mut steps);
        let (spec, owner): (ConditionSpec, Option<AgentKey>) = match next {
            Some(condition) => condition,
            None => return ctx,
        };
        let agent: AgentKey = steps.agent;
        ctx = apply(ctx, (agent, spec, owner));
        proof {
            assert(stepped_on(before, s, ctx, steps@, *apply));
            let all = states.push(ctx);
            let rest = left.push(steps@);
            assert forall|i: int| 0 <= i < all.len() - 1 implies stepped_on(
                #[trigger] all[i],
                rest[i],
                all[i + 1],
                rest[i + 1],
                *apply,
            ) by {
                if i < states.len() - 1 {
                    assert(states[i] == all[i]);
                    assert(stepped_on(states[i], left[i], states[i + 1], left[i + 1], *apply));
                }
            }
            states = all;
            left = rest;
        }
    }
}

/// What a tile does to an agent that has stepped on it. `apply` puts the agent under each
/// condition that the tile brings.
pub fn on_step<X: Fn(TickCtx, TileCondition) -> TickCtx>(
    ctx: TickCtx,
    agent_key: AgentKey,
    pos: &Position,
    apply: &X,
) -> (after: TickCtx)
    requires
        ctx.wf(),
        stairs_lead_somewhere(ctx@.world.map),
        carries_on(*apply),
        keeps_stairs(*apply),
    ensures
        after.wf(),
        after.tick == ctx.tick,
        step_taken(ctx@, steps_at(ctx@.world.map, agent_key, *pos, 0), after@, *apply),
{
    let steps = begin_step(&ctx, agent_key, pos);
    take_steps(ctx, steps, apply)
}

/// The side that a walker looks to.
pub open spec fn facing_of(direction: Direction) -> Facing {
    match direction {
        Direction::North => Facing::North,
        Direction::South => Facing::South,
        Direction::East | Direction::NorthEast | Direction::SouthEast => Facing::East,
        Direction::West | Direction::NorthWest | Direction::SouthWest => Facing::West,
    }
}

/// The side that a walker looks to.
pub fn direction_to_facing(direction: &Direction) -> (facing: Facing)
    ensures
        facing == facing_of(*direction),
{
    match direction {
        Direction::North => Facing::North,
        Direction::South => Facing::South,
        Direction::East | Direction::NorthEast | Direction::SouthEast => Facing::East,
        Direction::West | Direction::NorthWest | Direction::SouthWest => Facing::West,
    }
}

/// With an agent turned, of which clients are told where it did not face that way yet.
pub open spec fn turned_to(w: TickView, key: AgentKey, facing: Facing) -> TickView {
    match agent_of(w, key) {
        Some(a) => agent_written(
            w,
            key,
            AgentView { facing, ..a },
            if a.facing != facing {
                agent_marked(w.world.delta, key, AgentFlag::Facing)
            } else {
                w.world.delta
            },
        ),
        None => w,
    }
}

/// Turns an agent.
pub fn change_direction(ctx: &mut TickCtx, agent_key: AgentKey, facing: Facing)
    requires
        old(ctx).wf(),
    ensures
        final(ctx).wf(),
        final(ctx)@ == turned_to(old(ctx)@, agent_key, facing),
{
    if let Some(mut agent) = ctx.map.agent_mut(agent_key) {
        agent.set_facing(facing);
    }
}

/// The walk is not taken.
pub open spec fn walk_denied(w: TickView, key: AgentKey) -> TickView {
    told(w, EventView::AgentWalkDenied { agent_key: key })
}

/// Where a walk leads.
pub open spec fn walk_target(w: TickView, direction: Direction, key: AgentKey) -> Position {
    w.world.map.positions[key.0].spec_step(direction)
}

/// The walk is taken: the walker is there and rested, and can enter the tile, whose friction is
/// known.
pub open spec fn walk_taken(w: TickView, direction: Direction, key: AgentKey) -> bool {
    let m = w.world.map;
    let to = walk_target(w, direction, key);
    &&& m.agents.contains_key(key.0)
    &&& m.positions.contains_key(key.0)
    &&& m.agents[key.0].next_walk_tick.0 <= w.tick.0
    &&& enterable(m, to, key)
    &&& friction_in(m.tiles[to].items, 0) is Some
}

/// What a walk comes to, where a step takes as long as `pause`, and whether the walker steps on
/// the tile.
pub open spec fn walked(w: TickView, direction: Direction, key: AgentKey, pause: TickDelta) -> (
    TickView,
    bool,
) {
    let m = w.world.map;
    if !m.agents.contains_key(key.0) || !m.positions.contains_key(key.0) {
        (w, false)
    } else if m.agents[key.0].next_walk_tick.0 > w.tick.0 {
        (walk_denied(w, key), false)
    } else {
        let to = walk_target(w, direction, key);
        if !enterable(m, to, key) {
            (walk_denied(turned_to(w, key, facing_of(direction)), key), false)
        } else if friction_in(m.tiles[to].items, 0) is None {
            (walk_denied(w, key), false)
        } else {
            let rested = with_agent(
                m,
                key,
                AgentView {
                    next_walk_tick: Tick((w.tick.0 + pause.0) as u64),
                    ..m.agents[key.0]
                },
            );
            let moved = TickView {
                world: WorldMapView {
                    map: stepped(rested, key, to, facing_of(direction)),
                    ..w.world
                },
                ..w
            };
            if moved_to(rested, key, to).0 is Err {
                (moved, false)
            } else {
                (
                    told(
                        moved,
                        EventView::AgentMoved {
                            agent_key: key,
                            direction,
                            from_position: m.positions[key.0],
                            to_position: to,
                        },
                    ),
                    true,
                )
            }
        }
    }
}

/// From `before` to `after` an agent walked, as far as that goes before the tile does anything to
/// it, and `steps` on it or does not.
pub open spec fn walks<F: Fn(u16, u16, bool) -> u64>(
    before: TickView,
    direction: Direction,
    key: AgentKey,
    walk_ticks: F,
    after: TickView,
    steps: bool,
) -> bool {
    if walk_taken(before, direction, key) {
        exists|ticks: u64|
            {
                &&& walk_ticks.ensures(
                    (
                        speed_of_agent(before.world.map.agents[key.0]) as u16,
                        friction_in(
                            before.world.map.tiles[walk_target(before, direction, key)].items,
                            0,
                        ).unwrap(),
                        direction.dx() != 0 && direction.dy() != 0,
                    ),
                    ticks,
                )
                &&& (after, steps) == #[trigger] walked(before, direction, key, TickDelta(ticks))
            }
    } else {
        !steps && after == walked(before, direction, key, TickDelta(0)).0
    }
}

/// Walks an agent one tile, or says why not. A step takes as many ticks as `walk_ticks` gives for
/// the walker's speed, the friction of the tile, and a diagonal. What the tile does to the walker
/// is handed back, for `step_onto`.
pub fn begin_walk<F: Fn(u16, u16, bool) -> u64>(
    ctx: &mut TickCtx,
    direction: Direction,
    agent_key: AgentKey,
    walk_ticks: &F,
) -> (steps: Option<Steps>)
    requires
        old(ctx).wf(),
        forall|speed: u16, friction: u16, diagonal: bool|
            walk_ticks.requires((speed, friction, diagonal)),
        forall|speed: u16, friction: u16, diagonal: bool, ticks: u64|
            walk_ticks.ensures((speed, friction, diagonal), ticks) ==> old(ctx).tick.0 + ticks
                <= u64::MAX,
    ensures
        final(ctx).wf(),
        final(ctx).tick == old(ctx).tick,
        walks(old(ctx)@, direction, agent_key, *walk_ticks, final(ctx)@, steps is Some),
        steps matches Some(steps) ==> steps@ == steps_at(
            final(ctx)@.world.map,
            agent_key,
            walk_target(old(ctx)@, direction, agent_key),
            0,
        ),
{
    let (next_walk_tick, speed): (Tick, u16) = match ctx.map.map().get_agent(agent_key) {
        Some(agent) => (agent.next_walk_tick, agent.speed()),
        None => return None,
    };
    let current: Position = match ctx.map.map().agent_position(agent_key) {
        Some(pos) => pos,
        None => return None,
    };
    if next_walk_tick.0 > ctx.tick.0 {
        ctx.tell(BroadcastMessage::AgentWalkDenied { agent_key });
        return None;
    }
    let to: Position = current.step(direction);
    if !ctx.map.map().can_move(&to, agent_key) {
        change_direction(ctx, agent_key, direction_to_facing(&direction));
        ctx.tell(BroadcastMessage::AgentWalkDenied { agent_key });
        return None;
    }
    let friction: u16 = match ctx.map.map().tile_friction(&to) {
        Some(friction) => friction,
        None => {
            ctx.tell(BroadcastMessage::AgentWalkDenied { agent_key });
            return None;
        },
    };
    let ticks: u64 = walk_ticks(speed, friction, direction.is_diagonal());
    let rested: Tick = ctx.tick.plus(TickDelta(ticks));
    if let Some(mut agent) = ctx.map.agent_mut(agent_key) {
        agent.stamp_walk(rested);
    }
    let moved = ctx.map.step_agent(agent_key, &to, direction_to_facing(&direction));
    if moved.is_err() {
        assert(ctx@ == walked(old(ctx)@, direction, agent_key, TickDelta(ticks)).0);
        return None;
    }
    ctx.tell(
        BroadcastMessage::AgentMoved {
            agent_key,
            direction,
            from_position: current,
            to_position: to,
        },
    );
    assert(ctx@ == walked(old(ctx)@, direction, agent_key, TickDelta(ticks)).0);
    Some(begin_step(ctx, agent_key, &to))
}

/// Walks an agent one tile, or says why not, and does to it what the tile does to whoever steps on
/// it.
pub fn walk<F: Fn(u16, u16, bool) -> u64, X: Fn(TickCtx, TileCondition) -> TickCtx>(
    ctx: TickCtx,
    direction: Direction,
    agent_key: AgentKey,
    walk_ticks: &F,
    apply: &X,
) -> (after: TickCtx)
    requires
        ctx.wf(),
        stairs_lead_somewhere(ctx@.world.map),
        carries_on(*apply),
        keeps_stairs(*apply),
        forall|speed: u16, friction: u16, diagonal: bool|
            walk_ticks.requires((speed, friction, diagonal)),
        forall|speed: u16, friction: u16, diagonal: bool, ticks: u64|
            walk_ticks.ensures((speed, friction, diagonal), ticks) ==> ctx.tick.0 + ticks
                <= u64::MAX,
    ensures
        after.wf(),
        exists|there: TickView, steps: bool|
            {
                &&& #[trigger] walks(ctx@, direction, agent_key, *walk_ticks, there, steps)
                &&& if steps {
                    step_taken(
                        there,
                        steps_at(
                            there.world.map,
                            agent_key,
                            walk_target(ctx@, direction, agent_key),
                            0,
                        ),
                        after@,
                        *apply,
                    )
                } else {
                    after@ == there
                }
            },
{
    let ghost before = ctx@;
    let mut ctx: TickCtx = ctx;
    let begun = begin_walk(&mut ctx, direction, agent_key, walk_ticks);
    let ghost there = ctx@;
    match begun {
        None => ctx,
        Some(steps) => {
            proof {
                lemma_walked_ground(before, direction, agent_key, *walk_ticks, there);
                lemma_same_ground(before.world.map, there.world.map);
                lemma_effects_lead(
                    there.world.map,
                    walk_target(before, direction, agent_key),
                );
            }
            take_steps(ctx, steps, apply)
        },
    }
}

/// A walk leaves what lies on the tiles as it is.
proof fn lemma_walked_ground<F: Fn(u16, u16, bool) -> u64>(
    before: TickView,
    direction: Direction,
    key: AgentKey,
    walk_ticks: F,
    after: TickView,
)
    requires
        walks(before, direction, key, walk_ticks, after, true),
    ensures
        same_ground(before.world.map, after.world.map),
{
    let m = before.world.map;
    let to = walk_target(before, direction, key);
    let ticks = choose|ticks: u64|
        (after, true) == #[trigger] walked(before, direction, key, TickDelta(ticks));
    let rested = with_agent(
        m,
        key,
        AgentView {
            next_walk_tick: Tick((before.tick.0 + ticks) as u64),
            ..m.agents[key.0]
        },
    );
    lemma_moved_ground(rested, key, to);
    assert(same_ground(m, moved_to(rested, key, to).1));
}

/// A burning stair burns before it moves: the one floor change of a tile comes after all its
/// fields.
pub proof fn law_fields_come_before_the_floor_change(m: MapView, pos: Position, i: int)
    requires
        0 <= i < effects_at(m, pos).len(),
        effects_at(m, pos)[i] is FloorChange,
    ensures
        i == effects_at(m, pos).len() - 1,
{
    let items = m.tiles[pos].items;
    lemma_no_stairs_among_fields(items, items.len());
    let fields = fields_among(items, items.len());
    if i < fields.len() {
        assert(effects_at(m, pos)[i] == fields[i]);
    }
}

/// Floor changes that lead into each other come to an end: a step moves its walker at most as
/// often as the chain is long.
pub proof fn law_floor_changes_end(w: TickView, s: StepsView)
    requires
        0 <= s.depth <= MAX_STEP_CHAIN,
    ensures
        ({
            let (after, left, _) = stepping(w, s);
            &&& s.depth <= left.depth <= MAX_STEP_CHAIN
            &&& after.events.len() == w.events.len() + (left.depth - s.depth)
        }),
    decreases MAX_STEP_CHAIN - s.depth,
{
    if s.next < s.effects.len() && w.world.map.agents.contains_key(s.agent.0) {
        if let StepEffect::FloorChange(direction) = s.effects[s.next] {
            if s.depth < MAX_STEP_CHAIN {
                let to = destination(w.world.map, s.pos, direction);
                let (r, map) = moved_to(w.world.map, s.agent, to);
                if r is Ok {
                    let moved = told(
                        TickView { world: WorldMapView { map, ..w.world }, ..w },
                        EventView::AgentTeleported {
                            agent_key: s.agent,
                            from_position: s.pos,
                            to_position: to,
                        },
                    );
                    law_floor_changes_end(moved, steps_at(map, s.agent, to, s.depth + 1));
                }
            }
        }
    }
}

/// A walk that is refused moves nobody, and one that is taken marks nothing: the step itself tells
/// of the turn.
pub proof fn law_a_walk_moves_or_is_refused(
    w: TickView,
    direction: Direction,
    key: AgentKey,
    pause: TickDelta,
)
    ensures
        ({
            let (after, stepped_on) = walked(w, direction, key, pause);
            if stepped_on {
                &&& after.world.delta == w.world.delta
                &&& after.world.map.positions[key.0] == walk_target(w, direction, key)
                &&& after.world.map.agents[key.0].facing == facing_of(direction)
            } else {
                !walk_taken(w, direction, key) ==> after.world.map.positions
                    == w.world.map.positions && after.world.map.tiles == w.world.map.tiles
            }
        }),
{
}

/// Stairs lead one floor up and one tile the way they are named, a ladder straight up. A way down
/// leads one floor down: onto the tile below, or, where that has stairs, beside them, so that a
/// step the way they are named leads onto them again.
pub proof fn law_stairs_lead_where_they_are_named(
    m: MapView,
    pos: Position,
    direction: FloorChangeDirection,
)
    requires
        leads_somewhere(m, pos, direction),
    ensures
        ({
            let to = destination(m, pos, direction);
            let under = Position { x: pos.x, y: pos.y, z: to.z };
            match direction {
                FloorChangeDirection::Up => to.x == pos.x && to.y == pos.y && to.z == pos.z - 1,
                FloorChangeDirection::North => to.x == pos.x && to.y == pos.y - 1 && to.z == pos.z
                    - 1,
                FloorChangeDirection::East => to.x == pos.x + 1 && to.y == pos.y && to.z == pos.z
                    - 1,
                FloorChangeDirection::South => to.x == pos.x && to.y == pos.y + 1 && to.z == pos.z
                    - 1,
                FloorChangeDirection::West => to.x == pos.x - 1 && to.y == pos.y && to.z == pos.z
                    - 1,
                FloorChangeDirection::Down => to.z == pos.z + 1 && match floor_change_at(m, under) {
                    Some(FloorChangeDirection::North) => to.spec_step(Direction::North) == under,
                    Some(FloorChangeDirection::East) => to.spec_step(Direction::East) == under,
                    Some(FloorChangeDirection::South) => to.spec_step(Direction::South) == under,
                    Some(FloorChangeDirection::West) => to.spec_step(Direction::West) == under,
                    _ => to == under,
                },
            }
        }),
{
    let to = destination(m, pos, direction);
    law_a_step_goes_where_its_name_says(to, Direction::North);
    law_a_step_goes_where_its_name_says(to, Direction::East);
    law_a_step_goes_where_its_name_says(to, Direction::South);
    law_a_step_goes_where_its_name_says(to, Direction::West);
}

/// A floor change moves whoever takes it from the stairs to where they lead and nobody else, and
/// those who see either place are told of it.
pub proof fn law_a_floor_change_is_told_from_end_to_end(
    w: TickView,
    s: StepsView,
    direction: FloorChangeDirection,
    other: AgentKey,
)
    requires
        0 <= s.next < s.effects.len(),
        0 <= s.depth < MAX_STEP_CHAIN,
        s.effects[s.next] == StepEffect::FloorChange(direction),
        agent_of(w, s.agent) is Some,
        w.world.map.positions.contains_key(s.agent.0),
        w.world.map.tiles.contains_key(w.world.map.positions[s.agent.0]),
        w.world.map.tiles.contains_key(destination(w.world.map, s.pos, direction)),
        effects_at(
            moved_to(w.world.map, s.agent, destination(w.world.map, s.pos, direction)).1,
            destination(w.world.map, s.pos, direction),
        ).len() == 0,
        other != s.agent,
    ensures
        ({
            let (later, _, condition) = stepping(w, s);
            let to = destination(w.world.map, s.pos, direction);
            &&& condition is None
            &&& later.world.map.positions[s.agent.0] == to
            &&& later.world.map.positions.contains_key(other.0)
                == w.world.map.positions.contains_key(other.0)
            &&& w.world.map.positions.contains_key(other.0)
                ==> later.world.map.positions[other.0] == w.world.map.positions[other.0]
            &&& later.events == w.events.push(
                EventView::AgentTeleported {
                    agent_key: s.agent,
                    from_position: s.pos,
                    to_position: to,
                },
            )
        }),
{
    reveal_with_fuel(stepping, 3);
}

/// Every field on a tile takes hold of whoever steps there, in the name of its owner; and nothing
/// else does.
pub proof fn law_every_field_takes_hold(m: MapView, pos: Position, i: int)
    requires
        m.tiles.contains_key(pos),
        0 <= i < m.tiles[pos].items.len(),
    ensures
        m.tiles[pos].items[i].config.field() matches Some(spec) ==> effects_at(m, pos).contains(
            StepEffect::Condition { spec, owner: m.tiles[pos].items[i].owner },
        ),
        forall|j: int|
            0 <= j < effects_at(m, pos).len() && (#[trigger] effects_at(m, pos)[j]) is Condition
                ==> exists|k: int|
                0 <= k < m.tiles[pos].items.len() && (
                #[trigger] m.tiles[pos].items[k]).config.field() == Some(
                    effects_at(m, pos)[j]->spec,
                ) && m.tiles[pos].items[k].owner == effects_at(m, pos)[j]->owner,
{
    let items = m.tiles[pos].items;
    let fields = fields_among(items, items.len());
    lemma_fields_among(items, items.len(), i);
    if let Some(spec) = items[i].config.field() {
        let j = fields.index_of(StepEffect::Condition { spec, owner: items[i].owner });
        assert(effects_at(m, pos)[j] == fields[j]);
    }
    assert forall|j: int|
        0 <= j < effects_at(m, pos).len() && (#[trigger] effects_at(m, pos)[j]) is Condition implies exists|
        k: int,
    |
        0 <= k < items.len() && (#[trigger] items[k]).config.field() == Some(
            effects_at(m, pos)[j]->spec,
        ) && items[k].owner == effects_at(m, pos)[j]->owner by {
        assert(effects_at(m, pos)[j] == fields[j]);
    }
}

proof fn lemma_fields_among(items: Seq<ItemView>, n: nat, i: int)
    requires
        n <= items.len(),
    ensures
        0 <= i < n ==> (items[i].config.field() matches Some(spec) ==> fields_among(
            items,
            n,
        ).contains(StepEffect::Condition { spec, owner: items[i].owner })),
        forall|j: int|
            0 <= j < fields_among(items, n).len() ==> {
                &&& (#[trigger] fields_among(items, n)[j]) is Condition
                &&& exists|k: int|
                    0 <= k < n && (#[trigger] items[k]).config.field() == Some(
                        fields_among(items, n)[j]->spec,
                    ) && items[k].owner == fields_among(items, n)[j]->owner
            },
    decreases n,
{
    if n > 0 {
        lemma_fields_among(items, (n - 1) as nat, i);
        let before = fields_among(items, (n - 1) as nat);
        let after = fields_among(items, n);
        if 0 <= i < n - 1 {
            if let Some(spec) = items[i].config.field() {
                let j = before.index_of(StepEffect::Condition { spec, owner: items[i].owner });
                assert(after[j] == before[j]);
            }
        } else if i == n - 1 {
            if let Some(spec) = items[i].config.field() {
                assert(after[before.len() as int] == StepEffect::Condition {
                    spec,
                    owner: items[i].owner,
                });
            }
        }
        assert forall|j: int| 0 <= j < after.len() implies {
            &&& (#[trigger] after[j]) is Condition
            &&& exists|k: int|
                0 <= k < n && (#[trigger] items[k]).config.field() == Some(after[j]->spec)
                    && items[k].owner == after[j]->owner
        } by {
            if j < before.len() {
                assert(after[j] == before[j]);
                let k = choose|k: int|
                    0 <= k < n - 1 && (#[trigger] items[k]).config.field() == Some(
                        before[j]->spec,
                    ) && items[k].owner == before[j]->owner;
                assert(items[k].config.field() == Some(after[j]->spec));
            } else {
                assert(items[n - 1].config.field() == Some(after[j]->spec));
            }
        }
    }
}

/// Somebody who is rested walks onto the next tile the way they go wherever there is ground,
/// nothing in the way and nobody on it, a creature only off the stairs and off what it avoids:
/// they stand there then, look the way they went, and have to rest. Anybody else stays where they
/// are and is told so. No one else moves.
pub proof fn law_a_walk_leads_to_the_next_tile(
    w: TickView,
    direction: Direction,
    key: AgentKey,
    pause: TickDelta,
    other: AgentKey,
)
    requires
        agent_of(w, key) is Some,
        w.world.map.positions.contains_key(key.0),
        w.world.map.tiles.contains_key(w.world.map.positions[key.0]),
        w.tick.0 + pause.0 <= u64::MAX,
        other != key,
    ensures
        ({
            let (later, steps) = walked(w, direction, key, pause);
            let from = w.world.map.positions[key.0];
            let to = from.spec_step(direction);
            let before = agent_of(w, key).unwrap();
            let tile = w.world.map.tiles[to];
            let open = before.next_walk_tick.0 <= w.tick.0 && w.world.map.tiles.contains_key(to) && (
            exists|i: int|
                0 <= i < tile.items.len() && (#[trigger] tile.items[i]).config.flagged(
                    ItemFlag::Ground,
                )) && (forall|i: int|
                0 <= i < tile.items.len() ==> !(#[trigger] tile.items[i]).config.flagged(
                    ItemFlag::Unpass,
                )) && tile.agents.len() == 0 && friction_in(tile.items, 0) is Some && (
            before.body is Creature ==> floor_change_in(tile.items, 0) is None && forall|i: int|
                0 <= i < tile.items.len() ==> !(#[trigger] tile.items[i]).config.flagged(
                    ItemFlag::Avoid,
                ));
            &&& steps == open
            &&& agent_of(later, other) == agent_of(w, other)
            &&& later.world.map.positions.contains_key(other.0)
                == w.world.map.positions.contains_key(other.0)
            &&& w.world.map.positions.contains_key(other.0)
                ==> later.world.map.positions[other.0] == w.world.map.positions[other.0]
            &&& agent_of(later, key) matches Some(after) && after.life == before.life && if steps {
                &&& later.world.map.positions[key.0] == to
                &&& after.next_walk_tick.0 == w.tick.0 + pause.0
                &&& match after.facing {
                    Facing::North => to.x == from.x && direction == Direction::North,
                    Facing::South => to.x == from.x && direction == Direction::South,
                    Facing::East => direction == Direction::East || direction
                        == Direction::NorthEast || direction == Direction::SouthEast,
                    Facing::West => direction == Direction::West || direction
                        == Direction::NorthWest || direction == Direction::SouthWest,
                }
                &&& later.events == w.events.push(
                    EventView::AgentMoved {
                        agent_key: key,
                        direction,
                        from_position: from,
                        to_position: to,
                    },
                )
            } else {
                &&& later.world.map.positions[key.0] == from
                &&& after.next_walk_tick == before.next_walk_tick
                &&& later.events == w.events.push(EventView::AgentWalkDenied { agent_key: key })
            }
            &&& later.scheduled == w.scheduled
        }),
{
    law_a_step_goes_where_its_name_says(w.world.map.positions[key.0], direction);
}

/// An agent that turns faces that way, and clients are told where it did not before; it does not
/// move.
pub proof fn law_a_turn_changes_only_the_facing(
    w: TickView,
    key: AgentKey,
    facing: Facing,
    other: u64,
)
    requires
        agent_of(w, key) is Some,
        other != key.0,
    ensures
        ({
            let before = agent_of(w, key).unwrap();
            let later = turned_to(w, key, facing);
            &&& agent_of(later, key) matches Some(after) && after.facing == facing && after.life
                == before.life && after.next_walk_tick == before.next_walk_tick
            &&& later.world.map.positions == w.world.map.positions
            &&& later.world.map.tiles == w.world.map.tiles
            &&& later.world.map.agents[other] == w.world.map.agents[other]
            &&& before.facing == facing ==> later.world.delta == w.world.delta
            &&& before.facing != facing ==> later.world.delta == agent_marked(
                w.world.delta,
                key,
                AgentFlag::Facing,
            )
            &&& later.events == w.events && later.scheduled == w.scheduled
        }),
{
}

} // verus!
