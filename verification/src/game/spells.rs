//! Casting spells: who may cast, whom a cast reaches, and attacks that leap from one to the next.

use crate::actors::world::{CommandView, ScheduledView, WorldCommand};
use crate::entities::agent::{
    drained, group_pause, group_ready, spell_ready, spell_stamped, Agent, AgentKey, AgentView,
    BodyView,
};
use crate::entities::combat::{AttackPlan, CombatDamage};
use crate::entities::conditions::status_of;
use crate::entities::effects::{single_effect, AreaEffect, AreaShape, EffectId, Missile};
use crate::entities::map::{
    agents_on, is_player, law_a_sweep_meets_every_tile_once, placed, sweep, GameMap, MapView,
};
use crate::entities::player::{level_of, Player, PlayerView};
use crate::entities::position::{
    law_a_rect_holds_what_it_reaches, law_an_offset_moves_by_what_it_says,
    law_distance_counts_steps, Direction, Position, Rect,
};
use crate::entities::skills::SkillType;
use crate::entities::spells::{ChainAttack, Spell, SpellAttack, SpellDelivery, SpellGroup, SpellId};
use crate::entities::targeting::{AreaOrigin, AreaTarget, TargetFilter, TargetMode};
use crate::entities::world_delta::{
    agent_marked, dirt_of, flagged, law_marks_are_independent, AgentFlag, DeltaView,
};
use crate::entities::world_map::auto_attack_stamped;
use crate::game::conditions::{agent_of, agent_written};
use crate::game::config::GameConfig;
use crate::game::ctx::{
    booked, carries_on, marks, rolled_back, told, Mark, TickCtx, TickView,
};
use crate::game::events::{BroadcastMessage, EventView};
use crate::game::tick::Tick;
use crate::messages::optional_view;
use crate::text::{decimal, to_decimal};
use std::sync::Arc;
use vstd::prelude::*;

verus! {

/// Why a spell is not cast.
#[derive(Debug, Clone, Copy, PartialEq, Eq, Structural)]
pub enum SpellCastingDenyReason {
    /// Someone is not there who should be.
    InvalidState(AgentKey, Absent),
    IdNotFound,
    NoMana,
    RequirementFailed,
    InvalidTarget,
    OutOfReach,
    StillInCooldown,
    NoWeapon,
}

/// Who is not there.
#[derive(Debug, Clone, Copy, PartialEq, Eq, Structural)]
pub enum Absent {
    Caster,
    Target,
    CasterAfterwards,
}

impl Absent {
    pub open spec fn text(self) -> Seq<char> {
        match self {
            Absent::Caster => "spell caster not found"@,
            Absent::Target => "spell target not found"@,
            Absent::CasterAfterwards => "missing after casting spell sucessfully"@,
        }
    }

    pub fn message(&self) -> (text: &'static str)
        ensures
            text@ == self.text(),
    {
        match self {
            Absent::Caster => "spell caster not found",
            Absent::Target => "spell target not found",
            Absent::CasterAfterwards => "missing after casting spell sucessfully",
        }
    }
}

/// A key as it is written in messages: its place and the version of that.
pub open spec fn key_text(key: AgentKey) -> Seq<char> {
    "AgentKey("@ + decimal((key.0 % 0x1_0000_0000) as nat) + "v"@ + decimal(
        (key.0 / 0x1_0000_0000) as nat,
    ) + ")"@
}

impl SpellCastingDenyReason {
    pub open spec fn text(self) -> Seq<char> {
        match self {
            SpellCastingDenyReason::InvalidState(key, absent) => "Invalid State: "@ + key_text(key)
                + " "@ + absent.text(),
            SpellCastingDenyReason::IdNotFound => "Invalid spell"@,
            SpellCastingDenyReason::NoMana => "Not enough mana"@,
            SpellCastingDenyReason::RequirementFailed => "You can't cast that spell"@,
            SpellCastingDenyReason::InvalidTarget => "No target"@,
            SpellCastingDenyReason::OutOfReach => "Target out of reach"@,
            SpellCastingDenyReason::StillInCooldown => "You're exausted"@,
            SpellCastingDenyReason::NoWeapon => "You need a weapon"@,
        }
    }

    /// What a player is told.
    pub fn message(&self) -> (text: String)
        ensures
            text@ == self.text(),
    {
        match self {
            SpellCastingDenyReason::InvalidState(key, absent) => {
                let mut text: String = "Invalid State: ".to_owned();
                text.append("AgentKey(");
                text.append(to_decimal(key.0 % 0x1_0000_0000).as_str());
                text.append("v");
                text.append(to_decimal(key.0 / 0x1_0000_0000).as_str());
                text.append(")");
                text.append(" ");
                text.append(absent.message());
                assert(text@ =~= self.text());
                text
            },
            SpellCastingDenyReason::IdNotFound => "Invalid spell".to_owned(),
            SpellCastingDenyReason::NoMana => "Not enough mana".to_owned(),
            SpellCastingDenyReason::RequirementFailed => "You can't cast that spell".to_owned(),
            SpellCastingDenyReason::InvalidTarget => "No target".to_owned(),
            SpellCastingDenyReason::OutOfReach => "Target out of reach".to_owned(),
            SpellCastingDenyReason::StillInCooldown => "You're exausted".to_owned(),
            SpellCastingDenyReason::NoWeapon => "You need a weapon".to_owned(),
        }
    }
}

/// Whom a cast reaches.
#[derive(Debug)]
pub struct ResolvedTargets {
    /// Includes the caster where an area covers it.
    pub keys: Vec<AgentKey>,
    /// The single target's tile, or an area's centre. `None` for a cast on the caster.
    pub aim: Option<Position>,
    pub delta: Option<Vec<(i8, i8)>>,
}

pub struct TargetsView {
    pub keys: Seq<AgentKey>,
    pub aim: Option<Position>,
    pub delta: Option<Seq<(i8, i8)>>,
}

impl View for ResolvedTargets {
    type V = TargetsView;

    open spec fn view(&self) -> TargetsView {
        TargetsView {
            keys: self.keys@,
            aim: self.aim,
            delta: match self.delta {
                Some(delta) => Some(delta@),
                None => None,
            },
        }
    }
}

/// The function answers for any two tiles, and always the same.
pub open spec fn decides<F: Fn(Position, Position) -> bool>(f: F) -> bool {
    &&& forall|a: Position, b: Position| #[trigger] f.requires((a, b))
    &&& forall|a: Position, b: Position|
        !(#[trigger] f.ensures((a, b), true) && f.ensures((a, b), false))
}

/// The function says yes.
pub open spec fn says_yes<F: Fn(Position, Position) -> bool>(f: F, a: Position, b: Position) -> bool {
    f.ensures((a, b), true)
}

/// The filter lets a cast reach the agent.
pub open spec fn let_through(m: MapView, key: AgentKey, filter: TargetFilter) -> bool {
    match filter {
        TargetFilter::Any => true,
        TargetFilter::Players => is_player(m, key),
    }
}

/// Whether the filter lets a cast reach the agent.
pub fn passes(map: &GameMap, key: AgentKey, filter: TargetFilter) -> (r: bool)
    requires
        map.wf(),
    ensures
        r == let_through(map@, key, filter),
{
    match filter {
        TargetFilter::Any => true,
        TargetFilter::Players => map.get_player(key).is_some(),
    }
}

/// The centre of an area.
pub open spec fn area_origin<
    F: Fn(Position, Position) -> bool,
    G: Fn(Position, Position) -> bool,
>(
    m: MapView,
    origin: AreaOrigin,
    caster_pos: Position,
    area_target: AreaTarget,
    can_throw: F,
    can_target: G,
) -> Option<Position> {
    match origin {
        AreaOrigin::Caster => Some(caster_pos),
        AreaOrigin::Target => {
            let candidate = match area_target {
                AreaTarget::Agent(key) => if m.positions.contains_key(key.0) {
                    Some(m.positions[key.0])
                } else {
                    None
                },
                AreaTarget::Position(pos) => Some(pos),
                AreaTarget::NoTarget => None,
            };
            match candidate {
                Some(pos) => if says_yes(can_target, caster_pos, pos) && says_yes(
                    can_throw,
                    caster_pos,
                    pos,
                ) {
                    Some(pos)
                } else {
                    None
                },
                None => None,
            }
        },
    }
}

/// The centre of an area: the caster's tile, or what the cast is aimed at, where that can be
/// aimed at and thrown to.
pub fn resolve_area_origin<F: Fn(Position, Position) -> bool, G: Fn(Position, Position) -> bool>(
    map: &GameMap,
    origin: &AreaOrigin,
    caster_pos: Position,
    area_target: &AreaTarget,
    can_throw: &F,
    can_target: &G,
) -> (r: Option<Position>)
    requires
        map.wf(),
        decides(*can_throw),
        decides(*can_target),
    ensures
        r == area_origin(map@, *origin, caster_pos, *area_target, *can_throw, *can_target),
{
    match origin {
        AreaOrigin::Caster => Some(caster_pos),
        AreaOrigin::Target => {
            let candidate: Option<Position> = match area_target {
                AreaTarget::Agent(key) => map.agent_position(*key),
                AreaTarget::Position(pos) => Some(*pos),
                AreaTarget::NoTarget => None,
            };
            match candidate {
                Some(pos) => {
                    let aimed: bool = can_target(caster_pos, pos);
                    let thrown: bool = can_throw(caster_pos, pos);
                    if aimed && thrown {
                        Some(pos)
                    } else {
                        None
                    }
                },
                None => None,
            }
        },
    }
}

/// The tile of an area lies on the map's grid and can be thrown to from the centre.
pub open spec fn covered<F: Fn(Position, Position) -> bool>(
    origin: Position,
    offset: (i8, i8),
    can_throw: F,
) -> bool {
    origin.offset_by(offset.0 as int, offset.1 as int) matches Some(pos) && says_yes(
        can_throw,
        origin,
        pos,
    )
}

/// Those of the first `n` offsets of a shape that the area covers.
pub open spec fn covered_among<F: Fn(Position, Position) -> bool>(
    origin: Position,
    shape: Seq<(i8, i8)>,
    can_throw: F,
    n: nat,
) -> Seq<(i8, i8)>
    decreases n,
{
    if n == 0 {
        Seq::empty()
    } else {
        let before = covered_among(origin, shape, can_throw, (n - 1) as nat);
        if covered(origin, shape[n - 1], can_throw) {
            before.push(shape[n - 1])
        } else {
            before
        }
    }
}

/// The agents on the first `n` of these offsets from a centre.
pub open spec fn agents_at_offsets(m: MapView, origin: Position, offsets: Seq<(i8, i8)>, n: nat) -> Seq<
    AgentKey,
>
    decreases n,
{
    if n == 0 {
        Seq::empty()
    } else {
        let pos = origin.offset_by(offsets[n - 1].0 as int, offsets[n - 1].1 as int).unwrap();
        agents_at_offsets(m, origin, offsets, (n - 1) as nat) + (if m.tiles.contains_key(pos) {
            m.tiles[pos].agents
        } else {
            Seq::empty()
        })
    }
}

/// Everybody in an area, and the offsets that it covers.
pub open spec fn area_of<F: Fn(Position, Position) -> bool>(
    m: MapView,
    origin: Position,
    shape: Seq<(i8, i8)>,
    can_throw: F,
) -> (Seq<AgentKey>, Seq<(i8, i8)>) {
    let offsets = covered_among(origin, shape, can_throw, shape.len());
    (agents_at_offsets(m, origin, offsets, offsets.len()), offsets)
}

proof fn lemma_agents_at_prefix(m: MapView, origin: Position, a: Seq<(i8, i8)>, x: (i8, i8), n: nat)
    requires
        n <= a.len(),
    ensures
        agents_at_offsets(m, origin, a.push(x), n) == agents_at_offsets(m, origin, a, n),
    decreases n,
{
    if n > 0 {
        lemma_agents_at_prefix(m, origin, a, x, (n - 1) as nat);
        assert(a.push(x)[n - 1] == a[n - 1]);
    }
}

/// Everybody in an area, and the offsets that it covers.
pub fn resolve_area<F: Fn(Position, Position) -> bool>(
    map: &GameMap,
    origin: &Position,
    shape: &Vec<(i8, i8)>,
    can_throw: &F,
) -> (r: (Vec<AgentKey>, Vec<(i8, i8)>))
    requires
        map.wf(),
        decides(*can_throw),
    ensures
        (r.0@, r.1@) == area_of(map@, *origin, shape@, *can_throw),
{
    let mut keys: Vec<AgentKey> = Vec::new();
    let mut delta: Vec<(i8, i8)> = Vec::new();
    let mut i: usize = 0;
    while i < shape.len()
        invariant
            i <= shape@.len(),
            map.wf(),
            decides(*can_throw),
            delta@ == covered_among(*origin, shape@, *can_throw, i as nat),
            keys@ == agents_at_offsets(map@, *origin, delta@, delta@.len()),
        decreases shape.len() - i,
    {
        let (dx, dy): (i8, i8) = (shape[i].0, shape[i].1);
        if let Some(pos) = origin.checked_offset(dx as i32, dy as i32) {
            let reached: bool = can_throw(*origin, pos);
            if reached {
                let ghost before = delta@;
                let ghost found = keys@;
                if let Ok(tile) = map.get_tile(&pos) {
                    let mut k: usize = 0;
                    while k < tile.agent_count()
                        invariant
                            k <= tile@.agents.len(),
                            keys@ == found + tile@.agents.take(k as int),
                        decreases tile@.agents.len() - k,
                    {
                        keys.push(tile.agent(k));
                        assert(tile@.agents.take(k + 1) =~= tile@.agents.take(k as int).push(
                            tile@.agents[k as int],
                        ));
                        assert(keys@ =~= found + tile@.agents.take(k + 1));
                        k += 1;
                    }
                    assert(tile@.agents.take(tile@.agents.len() as int) =~= tile@.agents);
                }
                delta.push((dx, dy));
                proof {
                    lemma_agents_at_prefix(map@, *origin, before, (dx, dy), before.len());
                    assert(keys@ =~= agents_at_offsets(map@, *origin, delta@, delta@.len()));
                }
            }
        }
        i += 1;
    }
    (keys, delta)
}

/// Those of the first `n` agents that the filter lets through.
pub open spec fn passing_among(m: MapView, keys: Seq<AgentKey>, filter: TargetFilter, n: nat) -> Seq<
    AgentKey,
>
    decreases n,
{
    if n == 0 {
        Seq::empty()
    } else {
        let before = passing_among(m, keys, filter, (n - 1) as nat);
        if let_through(m, keys[n - 1], filter) {
            before.push(keys[n - 1])
        } else {
            before
        }
    }
}

/// The player of this name.
pub open spec fn named(m: MapView, key: AgentKey, name: Seq<char>) -> bool {
    is_player(m, key) && m.agents[key.0].body->Player_0.name == name
}

/// The first of these agents, from the `i`th on, that is the player of this name.
pub open spec fn named_among(m: MapView, agents: Seq<(AgentKey, Position)>, name: Seq<char>, i: int) -> Option<
    (AgentKey, Position),
>
    decreases agents.len() - i,
{
    if i < 0 || i >= agents.len() {
        None
    } else if named(m, agents[i].0, name) {
        Some(agents[i])
    } else {
        named_among(m, agents, name, i + 1)
    }
}

/// A cast on one agent.
pub open spec fn single_target(key: AgentKey, pos: Position) -> TargetsView {
    TargetsView { keys: seq![key], aim: Some(pos), delta: Some(seq![(0i8, 0i8)]) }
}

/// The agents up to `range` columns and rows away.
pub open spec fn agents_around(m: MapView, pos: Position, range: u16) -> Seq<(AgentKey, Position)> {
    let tiles = sweep(Rect::around(pos, (range, range)), pos.z);
    agents_on(m, tiles, tiles.len())
}

/// Whom a cast reaches, or why it reaches nobody.
pub open spec fn targets_of<F: Fn(Position, Position) -> bool, G: Fn(Position, Position) -> bool>(
    m: MapView,
    caster: AgentKey,
    mode: TargetMode,
    area_target: AreaTarget,
    param: Option<Seq<char>>,
    filter: TargetFilter,
    can_throw: F,
    can_target: G,
) -> Result<TargetsView, SpellCastingDenyReason> {
    if !m.agents.contains_key(caster.0) || !m.positions.contains_key(caster.0) {
        Err(SpellCastingDenyReason::InvalidState(caster, Absent::Caster))
    } else {
        let agent = m.agents[caster.0];
        let pos = m.positions[caster.0];
        match mode {
            TargetMode::Caster => Ok(TargetsView { keys: seq![caster], aim: None, delta: None }),
            TargetMode::Target { range } => match agent.target {
                None => Err(SpellCastingDenyReason::InvalidTarget),
                Some(target) => if !m.positions.contains_key(target.0) {
                    Err(SpellCastingDenyReason::InvalidState(target, Absent::Target))
                } else {
                    let at = m.positions[target.0];
                    if pos.spec_distance(at) > range || !says_yes(can_throw, pos, at) {
                        Err(SpellCastingDenyReason::OutOfReach)
                    } else if !let_through(m, target, filter) {
                        Err(SpellCastingDenyReason::InvalidTarget)
                    } else {
                        Ok(single_target(target, at))
                    }
                },
            },
            TargetMode::Named { range } => match param {
                None => Err(SpellCastingDenyReason::InvalidTarget),
                Some(name) => match named_among(m, agents_around(m, pos, range), name, 0) {
                    None => Err(SpellCastingDenyReason::InvalidTarget),
                    Some((key, at)) => if pos.spec_distance(at) > range || !says_yes(
                        can_throw,
                        pos,
                        at,
                    ) {
                        Err(SpellCastingDenyReason::OutOfReach)
                    } else {
                        Ok(single_target(key, at))
                    },
                },
            },
            TargetMode::Area { origin, shape } => match area_origin(
                m,
                origin,
                pos,
                area_target,
                can_throw,
                can_target,
            ) {
                None => Err(SpellCastingDenyReason::InvalidTarget),
                Some(center) => {
                    let (keys, delta) = area_of(
                        m,
                        center,
                        shape.delta.side(agent.facing),
                        can_throw,
                    );
                    Ok(
                        TargetsView {
                            keys: passing_among(m, keys, filter, keys.len()),
                            aim: Some(center),
                            delta: Some(delta),
                        },
                    )
                },
            },
            TargetMode::Aimed => match area_target {
                AreaTarget::Agent(target) => if !m.positions.contains_key(target.0) {
                    Err(SpellCastingDenyReason::InvalidState(target, Absent::Target))
                } else {
                    let at = m.positions[target.0];
                    if !says_yes(can_target, pos, at) || !says_yes(can_throw, pos, at) {
                        Err(SpellCastingDenyReason::OutOfReach)
                    } else if !let_through(m, target, filter) {
                        Err(SpellCastingDenyReason::InvalidTarget)
                    } else {
                        Ok(single_target(target, at))
                    }
                },
                _ => Err(SpellCastingDenyReason::InvalidTarget),
            },
        }
    }
}

/// What came out is what was to be found.
pub open spec fn resolves(
    r: Result<ResolvedTargets, SpellCastingDenyReason>,
    expected: Result<TargetsView, SpellCastingDenyReason>,
) -> bool {
    match r {
        Ok(targets) => expected == Ok::<TargetsView, SpellCastingDenyReason>(targets@),
        Err(reason) => expected == Err::<TargetsView, SpellCastingDenyReason>(reason),
    }
}

fn one_target(key: AgentKey, pos: Position) -> (t: ResolvedTargets)
    ensures
        t@ == single_target(key, pos),
{
    let mut keys: Vec<AgentKey> = Vec::new();
    keys.push(key);
    let mut delta: Vec<(i8, i8)> = Vec::new();
    delta.push((0, 0));
    assert(keys@ =~= seq![key]);
    assert(delta@ =~= seq![(0i8, 0i8)]);
    ResolvedTargets { keys, aim: Some(pos), delta: Some(delta) }
}

fn find_named(map: &GameMap, agents: &Vec<(AgentKey, Position)>, name: &String) -> (r: Option<
    (AgentKey, Position),
>)
    requires
        map.wf(),
    ensures
        r == named_among(map@, agents@, name@, 0),
{
    let mut i: usize = 0;
    while i < agents.len()
        invariant
            i <= agents@.len(),
            map.wf(),
            named_among(map@, agents@, name@, 0) == named_among(map@, agents@, name@, i as int),
        decreases agents.len() - i,
    {
        if let Some(player) = map.get_player(agents[i].0) {
            if player.name == *name {
                return Some((agents[i].0, agents[i].1));
            }
        }
        i += 1;
    }
    None
}

/// Whom a cast reaches, or why it reaches nobody. `can_throw` says whether something can be thrown
/// from one tile to another, and `can_target` whether a tile can be aimed at from another.
pub fn resolve_targets<F: Fn(Position, Position) -> bool, G: Fn(Position, Position) -> bool>(
    map: &GameMap,
    caster: AgentKey,
    mode: &TargetMode,
    area_target: &AreaTarget,
    param: &Option<String>,
    filter: TargetFilter,
    can_throw: &F,
    can_target: &G,
) -> (r: Result<ResolvedTargets, SpellCastingDenyReason>)
    requires
        map.wf(),
        decides(*can_throw),
        decides(*can_target),
    ensures
        resolves(
            r,
            targets_of(
                map@,
                caster,
                *mode,
                *area_target,
                optional_view(*param),
                filter,
                *can_throw,
                *can_target,
            ),
        ),
{
    let agent = match map.get_agent(caster) {
        Some(agent) => agent,
        None => return Err(SpellCastingDenyReason::InvalidState(caster, Absent::Caster)),
    };
    let pos: Position = match map.agent_position(caster) {
        Some(pos) => pos,
        None => return Err(SpellCastingDenyReason::InvalidState(caster, Absent::Caster)),
    };
    match mode {
        TargetMode::Caster => {
            let mut keys: Vec<AgentKey> = Vec::new();
            keys.push(caster);
            assert(keys@ =~= seq![caster]);
            Ok(ResolvedTargets { keys, aim: None, delta: None })
        },
        TargetMode::Target { range } => {
            let target: AgentKey = match agent.target {
                Some(target) => target,
                None => return Err(SpellCastingDenyReason::InvalidTarget),
            };
            let at: Position = match map.agent_position(target) {
                Some(at) => at,
                None => return Err(SpellCastingDenyReason::InvalidState(target, Absent::Target)),
            };
            let thrown: bool = can_throw(pos, at);
            if pos.distance(&at) > *range || !thrown {
                return Err(SpellCastingDenyReason::OutOfReach);
            }
            if !passes(map, target, filter) {
                return Err(SpellCastingDenyReason::InvalidTarget);
            }
            Ok(one_target(target, at))
        },
        TargetMode::Named { range } => {
            let name: &String = match param {
                Some(name) => name,
                None => return Err(SpellCastingDenyReason::InvalidTarget),
            };
            let near = map.iter_agents_in_rect(&Rect::radius(&pos, (*range, *range)), pos.z);
            let (key, at): (AgentKey, Position) = match find_named(map, &near, name) {
                Some(found) => found,
                None => return Err(SpellCastingDenyReason::InvalidTarget),
            };
            let thrown: bool = can_throw(pos, at);
            if pos.distance(&at) > *range || !thrown {
                return Err(SpellCastingDenyReason::OutOfReach);
            }
            Ok(one_target(key, at))
        },
        TargetMode::Area { origin, shape } => {
            let center: Position = match resolve_area_origin(
                map,
                origin,
                pos,
                area_target,
                can_throw,
                can_target,
            ) {
                Some(center) => center,
                None => return Err(SpellCastingDenyReason::InvalidTarget),
            };
            let (all, delta): (Vec<AgentKey>, Vec<(i8, i8)>) = resolve_area(
                map,
                &center,
                shape.get_delta_facing(agent.facing),
                can_throw,
            );
            let mut keys: Vec<AgentKey> = Vec::new();
            let mut i: usize = 0;
            while i < all.len()
                invariant
                    i <= all@.len(),
                    map.wf(),
                    keys@ == passing_among(map@, all@, filter, i as nat),
                decreases all.len() - i,
            {
                if passes(map, all[i], filter) {
                    keys.push(all[i]);
                }
                i += 1;
            }
            Ok(ResolvedTargets { keys, aim: Some(center), delta: Some(delta) })
        },
        TargetMode::Aimed => {
            let target: AgentKey = match area_target {
                AreaTarget::Agent(target) => *target,
                _ => return Err(SpellCastingDenyReason::InvalidTarget),
            };
            let at: Position = match map.agent_position(target) {
                Some(at) => at,
                None => return Err(SpellCastingDenyReason::InvalidState(target, Absent::Target)),
            };
            let aimed: bool = can_target(pos, at);
            let thrown: bool = can_throw(pos, at);
            if !aimed || !thrown {
                return Err(SpellCastingDenyReason::OutOfReach);
            }
            if !passes(map, target, filter) {
                return Err(SpellCastingDenyReason::InvalidTarget);
            }
            Ok(one_target(target, at))
        },
    }
}

/// The player is of a level and a vocation that may cast the spell.
pub open spec fn meets_requirements(spell: Spell, player: PlayerView) -> bool {
    spell.level <= level_of(player.skills) && spell.vocations@.contains(player.vocation)
}

/// Whether the player is of a level and a vocation that may cast the spell.
pub fn has_spell_requirements(spell: &Spell, player: &Player) -> (r: bool)
    ensures
        r == meets_requirements(*spell, player@),
{
    if spell.level > player.level() {
        return false;
    }
    let mut i: usize = 0;
    while i < spell.vocations.len()
        invariant
            i <= spell.vocations@.len(),
            spell.level <= level_of(player@.skills),
            forall|j: int| 0 <= j < i ==> #[trigger] spell.vocations@[j] != player.vocation,
        decreases spell.vocations.len() - i,
    {
        if spell.vocations[i] == player.vocation {
            assert(spell.vocations@.contains(player.vocation));
            return true;
        }
        i += 1;
    }
    false
}

/// Neither the spell nor its group has to wait any longer.
pub open spec fn castable(a: AgentView, spell: Spell, now: Tick) -> bool {
    group_ready(a, spell.group).0 <= now.0 && spell_ready(a, spell.id).0 <= now.0
}

/// Whether neither the spell nor its group has to wait any longer.
pub fn can_cast_spell(agent: &Agent, spell: &Spell, current_tick: Tick) -> (r: bool)
    ensures
        r == castable(agent@, *spell, current_tick),
{
    agent.next_spell_group_tick(spell.group).0 <= current_tick.0 && agent.next_spell_tick(
        spell.id,
    ).0 <= current_tick.0
}

/// Why a player may not cast a spell, where it may not. What is wrong with the spell comes before
/// what the player lacks, and that before what it has to wait for.
pub open spec fn cast_refusal(a: AgentView, spell: Option<Spell>, now: Tick) -> Option<
    SpellCastingDenyReason,
> {
    match (spell, a.body) {
        (None, _) => Some(SpellCastingDenyReason::IdNotFound),
        (Some(spell), BodyView::Player(player)) => if !meets_requirements(spell, player) {
            Some(SpellCastingDenyReason::RequirementFailed)
        } else if a.mana.current < spell.mana {
            Some(SpellCastingDenyReason::NoMana)
        } else if !castable(a, spell, now) {
            Some(SpellCastingDenyReason::StillInCooldown)
        } else {
            None
        },
        _ => Some(SpellCastingDenyReason::RequirementFailed),
    }
}

/// A cast whose effect has yet to be done: where the caster was, and what was reported and booked
/// before it.
#[derive(Debug, Clone, Copy, PartialEq, Eq, Structural)]
pub struct Casting {
    pub position: Position,
    pub mark: Mark,
}

/// A cast that is denied.
pub open spec fn cast_denied(
    w: TickView,
    key: AgentKey,
    position: Position,
    reason: SpellCastingDenyReason,
    delivery: SpellDelivery,
) -> TickView {
    told(w, EventView::SpellDenied { agent_key: key, position, reason, delivery })
}

/// What a spell is cast with; one that nobody knows can only have been spoken.
pub open spec fn delivery_of(spell: Option<Spell>) -> SpellDelivery {
    match spell {
        Some(spell) => spell.delivery,
        None => SpellDelivery::Words,
    }
}

/// Who casts is a player on the map.
pub open spec fn casts(w: TickView, key: AgentKey) -> bool {
    w.world.map.positions.contains_key(key.0) && is_player(w.world.map, key)
}

/// Begins a cast, or denies it. What the spell does is done next, and `settle_cast` told of it.
pub fn begin_cast(ctx: &mut TickCtx, agent_key: AgentKey, spell: Option<&Spell>) -> (r: Option<
    Casting,
>)
    requires
        old(ctx).wf(),
    ensures
        final(ctx).wf(),
        ({
            let w = old(ctx)@;
            if !casts(w, agent_key) {
                r is None && final(ctx)@ == w
            } else {
                let position = w.world.map.positions[agent_key.0];
                let known = match spell {
                    Some(spell) => Some(*spell),
                    None => None,
                };
                match cast_refusal(w.world.map.agents[agent_key.0], known, w.tick) {
                    Some(reason) => r is None && final(ctx)@ == cast_denied(
                        w,
                        agent_key,
                        position,
                        reason,
                        delivery_of(known),
                    ),
                    None => {
                        &&& final(ctx)@ == w
                        &&& r matches Some(casting)
                        &&& casting.position == position
                        &&& marks(w, casting.mark)
                        &&& rolled_back(w, casting.mark) == w
                    },
                }
            }
        }),
{
    let position: Position = match ctx.map.map().agent_position(agent_key) {
        Some(position) => position,
        None => return None,
    };
    let agent = match ctx.map.map().get_agent(agent_key) {
        Some(agent) => agent,
        None => return None,
    };
    let player = match agent.get_player() {
        Some(player) => player,
        None => return None,
    };
    let refusal: Option<SpellCastingDenyReason> = match spell {
        None => Some(SpellCastingDenyReason::IdNotFound),
        Some(spell) => if !has_spell_requirements(spell, player) {
            Some(SpellCastingDenyReason::RequirementFailed)
        } else if !agent.mana.can_afford(spell.mana) {
            Some(SpellCastingDenyReason::NoMana)
        } else if !can_cast_spell(agent, spell, ctx.tick) {
            Some(SpellCastingDenyReason::StillInCooldown)
        } else {
            None
        },
    };
    match refusal {
        Some(reason) => {
            let delivery: SpellDelivery = match spell {
                Some(spell) => spell.delivery,
                None => SpellDelivery::Words,
            };
            ctx.tell(BroadcastMessage::SpellDenied { agent_key, position, reason, delivery });
            None
        },
        None => Some(Casting { position, mark: ctx.mark() }),
    }
}

/// What a loss of mana marks: the mana, and the status where a shield went with the last of it.
pub open spec fn drain_marked(d: DeltaView, key: AgentKey, a: AgentView, amount: u32) -> DeltaView {
    let marked = agent_marked(d, key, AgentFlag::Mana);
    if status_of(drained(a, amount).conditions) != status_of(a.conditions) {
        agent_marked(marked, key, AgentFlag::Status)
    } else {
        marked
    }
}

/// The world after mana was spent.
pub open spec fn mana_consumed(w: TickView, key: AgentKey, amount: u32) -> TickView {
    match agent_of(w, key) {
        Some(a) => told(
            agent_written(
                w,
                key,
                drained(a, amount),
                drain_marked(w.world.delta, key, a, amount),
            ),
            EventView::PlayerManaUpdated { agent_key: key },
        ),
        None => w,
    }
}

/// Spends an agent's mana, and says by how much that trains its magic.
pub fn consume_mana(ctx: &mut TickCtx, agent_key: AgentKey, mana_cost: u32) -> (training: Option<u64>)
    requires
        old(ctx).wf(),
    ensures
        final(ctx).wf(),
        final(ctx)@ == mana_consumed(old(ctx)@, agent_key, mana_cost),
        training == (if agent_of(old(ctx)@, agent_key) is Some {
            Some(mana_cost as u64)
        } else {
            None
        }),
{
    match ctx.map.agent_mut(agent_key) {
        Some(mut agent) => {
            agent.remove_mana(mana_cost);
        },
        None => return None,
    }
    ctx.tell(BroadcastMessage::PlayerManaUpdated { agent_key });
    Some(mana_cost as u64)
}

/// The caster after a cast: the spell and its group have to wait, and an attack counts as a blow.
pub open spec fn cast_stamped(a: AgentView, spell: Spell, now: Tick, config: GameConfig) -> AgentView {
    let stamped = spell_stamped(a, now, spell, config);
    if spell.group is Attack {
        auto_attack_stamped(stamped, now, config)
    } else {
        stamped
    }
}

/// What a cast comes to once its effect is done, or was not.
pub open spec fn cast_settled(
    w: TickView,
    key: AgentKey,
    spell: Spell,
    casting: Casting,
    outcome: Result<(), SpellCastingDenyReason>,
    config: GameConfig,
) -> TickView {
    match (outcome, agent_of(w, key)) {
        (Err(reason), _) => cast_denied(
            rolled_back(w, casting.mark),
            key,
            casting.position,
            reason,
            spell.delivery,
        ),
        (Ok(_), None) => cast_denied(
            rolled_back(w, casting.mark),
            key,
            casting.position,
            SpellCastingDenyReason::InvalidState(key, Absent::CasterAfterwards),
            spell.delivery,
        ),
        (Ok(_), Some(a)) => mana_consumed(
            agent_written(w, key, cast_stamped(a, spell, w.tick, config), w.world.delta),
            key,
            spell.mana,
        ),
    }
}

/// The pauses after a cast do not reach beyond the end of time.
pub open spec fn pauses_in_time(spell: Spell, now: Tick, config: GameConfig) -> bool {
    &&& now.0 + spell.cooldown.0 <= u64::MAX
    &&& now.0 + group_pause(spell.group, spell.group_cooldown, config) <= u64::MAX
    &&& now.0 + config.combat.auto_attack_ticks.0 <= u64::MAX
}

/// Settles a cast. Where its effect was done, the caster pays for it and has to wait, and it is
/// said by how much that trains its magic; `announce_cast` reports it then. Where it was not, all
/// that was reported and booked for it is taken back and the denial reported in its place.
pub fn settle_cast(
    ctx: &mut TickCtx,
    agent_key: AgentKey,
    spell: &Spell,
    casting: &Casting,
    outcome: Result<(), SpellCastingDenyReason>,
    config: &GameConfig,
) -> (training: Option<u64>)
    requires
        old(ctx).wf(),
        marks(old(ctx)@, casting.mark),
        pauses_in_time(*spell, old(ctx).tick, *config),
    ensures
        final(ctx).wf(),
        final(ctx)@ == cast_settled(
            old(ctx)@,
            agent_key,
            *spell,
            *casting,
            outcome,
            *config,
        ),
        training == (if outcome is Ok && agent_of(old(ctx)@, agent_key) is Some {
            Some(spell.mana as u64)
        } else {
            None
        }),
{
    let tick: Tick = ctx.tick;
    let reason: SpellCastingDenyReason = match outcome {
        Ok(()) => match ctx.map.agent_mut(agent_key) {
            Some(mut agent) => {
                agent.stamp_spell(tick, spell, config);
                if let SpellGroup::Attack = spell.group {
                    agent.stamp_auto_attack(tick, config);
                }
                return consume_mana(ctx, agent_key, spell.mana);
            },
            None => SpellCastingDenyReason::InvalidState(agent_key, Absent::CasterAfterwards),
        },
        Err(reason) => reason,
    };
    ctx.rollback_to(casting.mark);
    ctx.tell(
        BroadcastMessage::SpellDenied {
            agent_key,
            position: casting.position,
            reason,
            delivery: spell.delivery,
        },
    );
    None
}

/// Reports a cast.
pub fn announce_cast(ctx: &mut TickCtx, agent_key: AgentKey, casting: &Casting, spell_id: SpellId)
    requires
        old(ctx).wf(),
    ensures
        final(ctx).wf(),
        final(ctx)@ == told(
            old(ctx)@,
            EventView::SpellCast { agent_key, position: casting.position, spell_id },
        ),
{
    ctx.tell(BroadcastMessage::SpellCast { agent_key, position: casting.position, spell_id });
}

/// The effect of any spell can be tried at any time, and takes no time. What was reported and
/// booked before it stays so.
pub open spec fn can_try<X: Fn(TickCtx, &Spell) -> (TickCtx, Result<(), SpellCastingDenyReason>)>(
    effect: X,
) -> bool {
    &&& forall|c: TickCtx, spell: &Spell| c.wf() ==> #[trigger] effect.requires((c, spell))
    &&& forall|c: TickCtx, spell: &Spell, r: (TickCtx, Result<(), SpellCastingDenyReason>)|
        c.wf() && #[trigger] effect.ensures((c, spell), r) ==> {
            &&& r.0.wf()
            &&& r.0.tick == c.tick
            &&& r.0.events@.len() >= c.events@.len()
            &&& r.0.scheduled@.len() >= c.scheduled@.len()
        }
}

/// How a cast ends that was `tried` and `paid` for: where it was done, its caster's magic is
/// trained by what it cost and the cast is reported.
pub open spec fn cast_closed<R: Fn(TickCtx, u64) -> TickCtx>(
    tried: TickCtx,
    outcome: Result<(), SpellCastingDenyReason>,
    paid: TickCtx,
    key: AgentKey,
    position: Position,
    spell: Spell,
    train: R,
    after: TickView,
) -> bool {
    if outcome is Ok && agent_of(tried@, key) is Some {
        exists|trained: TickCtx| #[trigger]
            train.ensures((paid, spell.mana as u64), trained) && after == told(
                trained@,
                EventView::SpellCast { agent_key: key, position, spell_id: spell.id },
            )
    } else {
        after == paid@
    }
}

/// From `before` to `after` a spell was cast that nothing forbade: its effect was tried, and the
/// cast settled by how that went.
pub open spec fn cast_through<
    X: Fn(TickCtx, &Spell) -> (TickCtx, Result<(), SpellCastingDenyReason>),
    R: Fn(TickCtx, u64) -> TickCtx,
>(
    before: TickView,
    after: TickView,
    key: AgentKey,
    spell: Spell,
    effect: X,
    train: R,
    config: GameConfig,
) -> bool {
    let casting = Casting {
        position: before.world.map.positions[key.0],
        mark: Mark {
            events: before.events.len() as usize,
            scheduled: before.scheduled.len() as usize,
        },
    };
    exists|begun: TickCtx, tried: TickCtx, outcome: Result<(), SpellCastingDenyReason>, paid: TickCtx|
        {
            &&& begun@ == before
            &&& #[trigger] effect.ensures((begun, &spell), (tried, outcome))
            &&& paid@ == cast_settled(tried@, key, spell, casting, outcome, config)
            &&& #[trigger] cast_closed(
                tried,
                outcome,
                paid,
                key,
                casting.position,
                spell,
                train,
                after,
            )
        }
}

/// Casts a spell. `effect` tries what the spell does, and `train` trains the caster's magic by
/// what the spell costs.
pub fn cast_spell<
    X: Fn(TickCtx, &Spell) -> (TickCtx, Result<(), SpellCastingDenyReason>),
    R: Fn(TickCtx, u64) -> TickCtx,
>(
    ctx: TickCtx,
    agent_key: AgentKey,
    spell: Option<&Spell>,
    effect: &X,
    train: &R,
    config: &GameConfig,
) -> (after: TickCtx)
    requires
        ctx.wf(),
        can_try(*effect),
        carries_on(*train),
        spell matches Some(spell) ==> pauses_in_time(*spell, ctx.tick, *config),
    ensures
        after.wf(),
        ({
            let w = ctx@;
            let known = match spell {
                Some(spell) => Some(*spell),
                None => None,
            };
            if !casts(w, agent_key) {
                after@ == w
            } else {
                match cast_refusal(w.world.map.agents[agent_key.0], known, w.tick) {
                    Some(reason) => after@ == cast_denied(
                        w,
                        agent_key,
                        w.world.map.positions[agent_key.0],
                        reason,
                        delivery_of(known),
                    ),
                    None => cast_through(
                        w,
                        after@,
                        agent_key,
                        known->0,
                        *effect,
                        *train,
                        *config,
                    ),
                }
            }
        }),
{
    let ghost w = ctx@;
    let mut ctx: TickCtx = ctx;
    let casting: Casting = match begin_cast(&mut ctx, agent_key, spell) {
        Some(casting) => casting,
        None => return ctx,
    };
    let spell: &Spell = match spell {
        Some(spell) => spell,
        None => return ctx,
    };
    let ghost begun = ctx;
    let (tried, outcome): (TickCtx, Result<(), SpellCastingDenyReason>) = effect(ctx, spell);
    let ghost shown = tried;
    let mut ctx: TickCtx = tried;
    let training = settle_cast(&mut ctx, agent_key, spell, &casting, outcome, config);
    let ghost paid = ctx;
    if let Some(amount) = training {
        ctx = train(ctx, amount);
        announce_cast(&mut ctx, agent_key, &casting, spell.id);
    }
    assert(cast_closed(
        shown,
        outcome,
        paid,
        agent_key,
        casting.position,
        *spell,
        *train,
        ctx@,
    ));
    ctx
}

/// With a first leap of an attack booked, where it leaps and hit somebody who is on the map.
pub open spec fn chain_booked(
    w: TickView,
    key: AgentKey,
    attack: SpellAttack,
    first: Option<(AgentKey, CombatDamage)>,
) -> TickView {
    match (attack.chain, first) {
        (Some(chain), Some((target, damage))) => if w.world.map.positions.contains_key(target.0) {
            booked(
                w,
                ScheduledView {
                    at_tick: Tick((w.tick.0 + chain.delay_ticks.0) as u64),
                    command: CommandView::ChainAttack {
                        attacker: key,
                        sources: seq![(w.world.map.positions[target.0], damage)],
                        chain,
                        targeted: seq![target],
                    },
                },
            )
        } else {
            w
        },
        _ => w,
    }
}

/// Books the first leap of an attack from the `first` that it hits, before the hits are dealt.
pub fn attack_spell(
    ctx: &mut TickCtx,
    agent_key: AgentKey,
    attack: &SpellAttack,
    first: Option<(AgentKey, CombatDamage)>,
)
    requires
        old(ctx).wf(),
        attack.chain matches Some(chain) ==> old(ctx).tick.0 + chain.delay_ticks.0 <= u64::MAX,
    ensures
        final(ctx).wf(),
        final(ctx)@ == chain_booked(old(ctx)@, agent_key, *attack, first),
{
    if let Some(chain) = &attack.chain {
        if let Some((target, damage)) = first {
            if let Some(pos) = ctx.map.map().agent_position(target) {
                let mut sources: Vec<(Position, CombatDamage)> = Vec::new();
                sources.push((pos, damage));
                let mut targeted: Vec<AgentKey> = Vec::new();
                targeted.push(target);
                assert(sources@ =~= seq![(pos, damage)]);
                assert(targeted@ =~= seq![target]);
                let at_tick: Tick = ctx.tick.plus(chain.delay_ticks);
                ctx.book(
                    at_tick,
                    WorldCommand::ChainAttack {
                        attacker: agent_key,
                        sources,
                        chain: chain.copy(),
                        targeted,
                    },
                );
            }
        }
    }
}

/// Those of the first `n` agents that an attack may leap to.
pub open spec fn untouched_among(
    agents: Seq<(AgentKey, Position)>,
    attacker: AgentKey,
    targeted: Seq<AgentKey>,
    n: nat,
) -> Seq<(AgentKey, Position)>
    decreases n,
{
    if n == 0 {
        Seq::empty()
    } else {
        let before = untouched_among(agents, attacker, targeted, (n - 1) as nat);
        if agents[n - 1].0 != attacker && !targeted.contains(agents[n - 1].0) {
            before.push(agents[n - 1])
        } else {
            before
        }
    }
}

/// Where something at this distance goes among agents that are ordered by theirs: behind all that
/// are no farther.
pub open spec fn place_by_distance(agents: Seq<(AgentKey, Position)>, from: Position, distance: int, i: int) -> int
    decreases i,
{
    if i <= 0 {
        0
    } else if agents[i - 1].1.spec_distance(from) <= distance {
        i
    } else {
        place_by_distance(agents, from, distance, i - 1)
    }
}

/// The first `n` agents, the closest first, and those at one distance in the order they came in.
pub open spec fn by_distance(agents: Seq<(AgentKey, Position)>, from: Position, n: nat) -> Seq<
    (AgentKey, Position),
>
    decreases n,
{
    if n == 0 {
        Seq::empty()
    } else {
        let before = by_distance(agents, from, (n - 1) as nat);
        before.insert(
            place_by_distance(
                before,
                from,
                agents[n - 1].1.spec_distance(from),
                before.len() as int,
            ),
            agents[n - 1],
        )
    }
}

/// No more than the first `n`.
pub open spec fn at_most(agents: Seq<(AgentKey, Position)>, n: nat) -> Seq<(AgentKey, Position)> {
    if agents.len() <= n {
        agents
    } else {
        agents.take(n as int)
    }
}

/// Whom an attack leaps to from a tile: the closest that it has not hit yet.
pub open spec fn leaps_from(
    m: MapView,
    from: Position,
    chain: ChainAttack,
    attacker: AgentKey,
    targeted: Seq<AgentKey>,
) -> Seq<(AgentKey, Position)> {
    let near = agents_around(m, from, chain.max_range);
    let candidates = untouched_among(near, attacker, targeted, near.len());
    at_most(by_distance(candidates, from, candidates.len()), chain.num_targets as nat)
}

fn contains_key(keys: &Vec<AgentKey>, key: AgentKey) -> (r: bool)
    ensures
        r == keys@.contains(key),
{
    let mut i: usize = 0;
    while i < keys.len()
        invariant
            i <= keys@.len(),
            forall|j: int| 0 <= j < i ==> #[trigger] keys@[j] != key,
        decreases keys.len() - i,
    {
        if keys[i] == key {
            return true;
        }
        i += 1;
    }
    false
}

/// Whom an attack leaps to from a tile.
fn leap_targets(
    map: &GameMap,
    from: &Position,
    chain: &ChainAttack,
    attacker: AgentKey,
    targeted: &Vec<AgentKey>,
) -> (r: Vec<(AgentKey, Position)>)
    requires
        map.wf(),
    ensures
        r@ == leaps_from(map@, *from, *chain, attacker, targeted@),
{
    let near = map.iter_agents_in_rect(
        &Rect::radius(from, (chain.max_range, chain.max_range)),
        from.z,
    );
    let mut candidates: Vec<(AgentKey, Position)> = Vec::new();
    let mut i: usize = 0;
    while i < near.len()
        invariant
            i <= near@.len(),
            candidates@ == untouched_among(near@, attacker, targeted@, i as nat),
        decreases near.len() - i,
    {
        if near[i].0 != attacker && !contains_key(targeted, near[i].0) {
            candidates.push((near[i].0, near[i].1));
        }
        i += 1;
    }
    let mut sorted: Vec<(AgentKey, Position)> = Vec::new();
    let mut i: usize = 0;
    while i < candidates.len()
        invariant
            i <= candidates@.len(),
            sorted@ == by_distance(candidates@, *from, i as nat),
        decreases candidates.len() - i,
    {
        let distance: u16 = candidates[i].1.distance(from);
        let mut place: usize = sorted.len();
        while place > 0 && sorted[place - 1].1.distance(from) > distance
            invariant
                place <= sorted@.len(),
                place_by_distance(sorted@, *from, distance as int, sorted@.len() as int)
                    == place_by_distance(sorted@, *from, distance as int, place as int),
            decreases place,
        {
            place -= 1;
        }
        sorted.insert(place, (candidates[i].0, candidates[i].1));
        i += 1;
    }
    if sorted.len() > chain.num_targets as usize {
        sorted.truncate(chain.num_targets as usize);
    }
    sorted
}

/// What an attack has hit on its way so far: the hits, where they landed, and everybody that was
/// hit before or is now.
#[verifier::ext_equal]
pub struct Leaps {
    pub hits: Seq<(AgentKey, CombatDamage)>,
    pub positions: Seq<Position>,
    pub targeted: Seq<AgentKey>,
    pub events: Seq<EventView>,
}

/// With the first `n` of these hit from a tile.
pub open spec fn leapt(
    before: Leaps,
    from: Position,
    leaps: Seq<(AgentKey, Position)>,
    damage: CombatDamage,
    chain: ChainAttack,
    n: nat,
) -> Leaps
    decreases n,
{
    if n == 0 {
        before
    } else {
        let so_far = leapt(before, from, leaps, damage, chain, (n - 1) as nat);
        let (key, to) = leaps[n - 1];
        Leaps {
            hits: so_far.hits.push((key, damage)),
            positions: so_far.positions.push(to),
            targeted: so_far.targeted.push(key),
            events: so_far.events.push(
                EventView::MissileLaunched {
                    missile: Missile { missile_id: chain.missile_id, from, to },
                },
            ),
        }
    }
}

/// With the leaps from the first `n` sources made. A hit from the `i`th deals `scaled[i]`.
pub open spec fn leapt_from_all(
    w: TickView,
    attacker: AgentKey,
    sources: Seq<(Position, CombatDamage)>,
    scaled: Seq<u32>,
    chain: ChainAttack,
    targeted: Seq<AgentKey>,
    n: nat,
) -> Leaps
    decreases n,
{
    if n == 0 {
        Leaps { hits: Seq::empty(), positions: Seq::empty(), targeted, events: w.events }
    } else {
        let before = leapt_from_all(
            w,
            attacker,
            sources,
            scaled,
            chain,
            targeted,
            (n - 1) as nat,
        );
        let (from, damage) = sources[n - 1];
        let leaps = leaps_from(w.world.map, from, chain, attacker, before.targeted);
        leapt(
            before,
            from,
            leaps,
            CombatDamage::plain(damage.element, scaled[n - 1]),
            chain,
            leaps.len(),
        )
    }
}

/// An attack that has leapt.
#[derive(Debug)]
pub struct ChainHits {
    pub hits: Vec<(AgentKey, CombatDamage)>,
    pub positions: Vec<Position>,
    pub targeted: Vec<AgentKey>,
}

/// Makes an attack leap from each tile that it came to on to the closest around it that it has
/// not hit yet. The hits from the `i`th source are of `scaled[i]`, and have yet to be dealt;
/// `follow_chain` goes on after that.
pub fn leap(
    ctx: &mut TickCtx,
    attacker: AgentKey,
    sources: &Vec<(Position, CombatDamage)>,
    scaled: &Vec<u32>,
    chain: &ChainAttack,
    targeted: Vec<AgentKey>,
) -> (r: ChainHits)
    requires
        old(ctx).wf(),
        scaled@.len() == sources@.len(),
    ensures
        final(ctx).wf(),
        ({
            let leaps = leapt_from_all(
                old(ctx)@,
                attacker,
                sources@,
                scaled@,
                *chain,
                targeted@,
                sources@.len(),
            );
            &&& final(ctx)@ == (TickView { events: leaps.events, ..old(ctx)@ })
            &&& r.hits@ == leaps.hits
            &&& r.positions@ == leaps.positions
            &&& r.targeted@ == leaps.targeted
        }),
{
    let mut targeted: Vec<AgentKey> = targeted;
    let mut hits: Vec<(AgentKey, CombatDamage)> = Vec::new();
    let mut positions: Vec<Position> = Vec::new();
    let ghost start = targeted@;
    let ghost w = ctx@;
    let mut i: usize = 0;
    while i < sources.len()
        invariant
            i <= sources@.len(),
            scaled@.len() == sources@.len(),
            ctx.wf(),
            ctx@ == (TickView { events: ctx@.events, ..w }),
            (Leaps {
                hits: hits@,
                positions: positions@,
                targeted: targeted@,
                events: ctx@.events,
            }) == leapt_from_all(w, attacker, sources@, scaled@, *chain, start, i as nat),
        decreases sources.len() - i,
    {
        let (from, damage): (Position, CombatDamage) = (sources[i].0, sources[i].1);
        let ghost before = Leaps {
            hits: hits@,
            positions: positions@,
            targeted: targeted@,
            events: ctx@.events,
        };
        let leaps = leap_targets(ctx.map.map(), &from, chain, attacker, &targeted);
        let hit: CombatDamage = CombatDamage::unblocked(damage.element, scaled[i]);
        let mut k: usize = 0;
        while k < leaps.len()
            invariant
                k <= leaps@.len(),
                ctx.wf(),
                ctx@ == (TickView { events: ctx@.events, ..w }),
                (Leaps {
                    hits: hits@,
                    positions: positions@,
                    targeted: targeted@,
                    events: ctx@.events,
                }) == leapt(before, from, leaps@, hit, *chain, k as nat),
            decreases leaps.len() - k,
        {
            let (key, to): (AgentKey, Position) = (leaps[k].0, leaps[k].1);
            ctx.tell(
                BroadcastMessage::MissileLaunched {
                    missile: Missile { missile_id: chain.missile_id, from, to },
                },
            );
            hits.push((key, hit));
            positions.push(to);
            targeted.push(key);
            k += 1;
        }
        i += 1;
    }
    ChainHits { hits, positions, targeted }
}

/// The effects of an attack on the first `n` tiles.
pub open spec fn effects_shown(events: Seq<EventView>, effect_id: EffectId, positions: Seq<Position>, n: nat) -> Seq<
    EventView,
>
    decreases n,
{
    if n == 0 {
        events
    } else {
        effects_shown(events, effect_id, positions, (n - 1) as nat).push(
            EventView::AreaEffectAppeared {
                area_effect: single_effect(effect_id, positions[n - 1]),
            },
        )
    }
}

/// Where each hit landed, with the hit.
pub open spec fn next_sources(hits: Seq<(AgentKey, CombatDamage)>, positions: Seq<Position>) -> Seq<
    (Position, CombatDamage),
> {
    Seq::new(hits.len(), |i: int| (positions[i], hits[i].1))
}

/// The world once the hits of a leap were dealt: they show, and the next leap is booked from where
/// they landed.
pub open spec fn chain_followed(
    w: TickView,
    attacker: AgentKey,
    chain: ChainAttack,
    hits: Seq<(AgentKey, CombatDamage)>,
    positions: Seq<Position>,
    targeted: Seq<AgentKey>,
) -> TickView {
    let shown = match chain.effect_id {
        Some(effect_id) => TickView {
            events: effects_shown(w.events, effect_id, positions, positions.len()),
            ..w
        },
        None => w,
    };
    match chain.chain {
        Some(next) => booked(
            shown,
            ScheduledView {
                at_tick: Tick((w.tick.0 + next.delay_ticks.0) as u64),
                command: CommandView::ChainAttack {
                    attacker,
                    sources: next_sources(hits, positions),
                    chain: *next,
                    targeted,
                },
            },
        ),
        None => shown,
    }
}

/// Shows the hits of a leap once they were dealt, and books the next leap from where they landed.
pub fn follow_chain(ctx: &mut TickCtx, attacker: AgentKey, chain: &ChainAttack, leap: ChainHits)
    requires
        old(ctx).wf(),
        leap.hits@.len() == leap.positions@.len(),
        chain.chain matches Some(next) ==> old(ctx).tick.0 + next.delay_ticks.0 <= u64::MAX,
    ensures
        final(ctx).wf(),
        final(ctx)@ == chain_followed(
            old(ctx)@,
            attacker,
            *chain,
            leap.hits@,
            leap.positions@,
            leap.targeted@,
        ),
{
    let ghost w = ctx@;
    if let Some(effect_id) = chain.effect_id {
        let mut i: usize = 0;
        while i < leap.positions.len()
            invariant
                i <= leap.positions@.len(),
                ctx.wf(),
                ctx@ == (TickView {
                    events: effects_shown(w.events, effect_id, leap.positions@, i as nat),
                    ..w
                }),
            decreases leap.positions.len() - i,
        {
            ctx.tell(
                BroadcastMessage::AreaEffectAppeared {
                    area_effect: AreaEffect::single(effect_id, leap.positions[i]),
                },
            );
            i += 1;
        }
    }
    if let Some(next) = &chain.chain {
        let mut sources: Vec<(Position, CombatDamage)> = Vec::new();
        let mut i: usize = 0;
        while i < leap.hits.len()
            invariant
                i <= leap.hits@.len(),
                leap.hits@.len() == leap.positions@.len(),
                sources@ == next_sources(leap.hits@, leap.positions@).take(i as int),
            decreases leap.hits.len() - i,
        {
            let ghost all = next_sources(leap.hits@, leap.positions@);
            sources.push((leap.positions[i], leap.hits[i].1));
            assert(all.take(i + 1) =~= all.take(i as int).push(all[i as int]));
            i += 1;
        }
        assert(sources@ =~= next_sources(leap.hits@, leap.positions@));
        let at_tick: Tick = ctx.tick.plus(next.delay_ticks);
        ctx.book(
            at_tick,
            WorldCommand::ChainAttack {
                attacker,
                sources,
                chain: next.copy(),
                targeted: leap.targeted,
            },
        );
    }
}

/// What a leap of an attack deals: the hits and nothing else.
pub open spec fn leap_plan(plan: AttackPlan, attacker: AgentKey, hits: Seq<(AgentKey, CombatDamage)>) -> bool {
    &&& plan.attacker == attacker
    &&& plan.damage@ == hits
    &&& plan.missile is None
    &&& plan.area_effect is None
    &&& !plan.missed
    &&& plan.condition is None
}

/// Makes an attack leap on from each tile that it came to: the leaps are found, their hits dealt
/// with `deal`, shown, and the next leap booked.
pub fn chain_attack<X: Fn(TickCtx, AttackPlan) -> TickCtx>(
    ctx: TickCtx,
    attacker: AgentKey,
    sources: &Vec<(Position, CombatDamage)>,
    scaled: &Vec<u32>,
    chain: &ChainAttack,
    targeted: Vec<AgentKey>,
    deal: &X,
) -> (after: TickCtx)
    requires
        ctx.wf(),
        scaled@.len() == sources@.len(),
        carries_on(*deal),
        chain.chain matches Some(next) ==> ctx.tick.0 + next.delay_ticks.0 <= u64::MAX,
    ensures
        after.wf(),
        ({
            let leaps = leapt_from_all(
                ctx@,
                attacker,
                sources@,
                scaled@,
                *chain,
                targeted@,
                sources@.len(),
            );
            exists|leapt: TickCtx, plan: AttackPlan, dealt: TickCtx|
                {
                    &&& leapt@ == (TickView { events: leaps.events, ..ctx@ })
                    &&& leap_plan(plan, attacker, leaps.hits)
                    &&& #[trigger] deal.ensures((leapt, plan), dealt)
                    &&& after@ == chain_followed(
                        dealt@,
                        attacker,
                        *chain,
                        leaps.hits,
                        leaps.positions,
                        leaps.targeted,
                    )
                }
        }),
{
    let ghost first = ctx;
    let ghost hit_before = targeted@;
    let mut ctx: TickCtx = ctx;
    let hits = leap(&mut ctx, attacker, sources, scaled, chain, targeted);
    proof {
        lemma_leapt_lengths(
            first@,
            attacker,
            sources@,
            scaled@,
            *chain,
            hit_before,
            sources@.len(),
        );
    }
    let mut damage: Vec<(AgentKey, CombatDamage)> = Vec::new();
    let mut i: usize = 0;
    while i < hits.hits.len()
        invariant
            i <= hits.hits@.len(),
            damage@ == hits.hits@.take(i as int),
        decreases hits.hits.len() - i,
    {
        damage.push((hits.hits[i].0, hits.hits[i].1));
        assert(hits.hits@.take(i + 1) =~= hits.hits@.take(i as int).push(hits.hits@[i as int]));
        i += 1;
    }
    assert(damage@ =~= hits.hits@);
    let plan = AttackPlan {
        attacker,
        damage,
        missile: None,
        area_effect: None,
        missed: false,
        condition: None,
    };
    let ghost leapt = ctx;
    let ghost planned = plan;
    assert(leapt.tick == first.tick);
    ctx = deal(ctx, plan);
    let ghost dealt = ctx;
    follow_chain(&mut ctx, attacker, chain, hits);
    assert(deal.ensures((leapt, planned), dealt));
    ctx
}

proof fn lemma_leapt_hits(
    before: Leaps,
    from: Position,
    leaps: Seq<(AgentKey, Position)>,
    damage: CombatDamage,
    chain: ChainAttack,
    n: nat,
)
    requires
        before.hits.len() == before.positions.len(),
    ensures
        leapt(before, from, leaps, damage, chain, n).hits.len() == leapt(
            before,
            from,
            leaps,
            damage,
            chain,
            n,
        ).positions.len(),
    decreases n,
{
    if n > 0 {
        lemma_leapt_hits(before, from, leaps, damage, chain, (n - 1) as nat);
    }
}

/// Every hit has its tile.
proof fn lemma_leapt_lengths(
    w: TickView,
    attacker: AgentKey,
    sources: Seq<(Position, CombatDamage)>,
    scaled: Seq<u32>,
    chain: ChainAttack,
    targeted: Seq<AgentKey>,
    n: nat,
)
    ensures
        ({
            let leaps = leapt_from_all(w, attacker, sources, scaled, chain, targeted, n);
            leaps.hits.len() == leaps.positions.len()
        }),
    decreases n,
{
    if n > 0 {
        lemma_leapt_lengths(w, attacker, sources, scaled, chain, targeted, (n - 1) as nat);
        let before = leapt_from_all(
            w,
            attacker,
            sources,
            scaled,
            chain,
            targeted,
            (n - 1) as nat,
        );
        let (from, damage) = sources[n - 1];
        let leaps = leaps_from(w.world.map, from, chain, attacker, before.targeted);
        lemma_leapt_hits(
            before,
            from,
            leaps,
            CombatDamage::plain(damage.element, scaled[n - 1]),
            chain,
            leaps.len(),
        );
    }
}

/// A cast that is denied costs nothing: neither mana nor time, and of all that was reported and
/// booked for it only the denial stays.
pub proof fn law_a_denied_cast_costs_nothing(
    w: TickView,
    key: AgentKey,
    spell: Spell,
    casting: Casting,
    reason: SpellCastingDenyReason,
    config: GameConfig,
)
    requires
        marks(w, casting.mark),
    ensures
        ({
            let after = cast_settled(w, key, spell, casting, Err(reason), config);
            &&& after.world == w.world
            &&& after.scheduled == w.scheduled.take(casting.mark.scheduled as int)
            &&& after.events == w.events.take(casting.mark.events as int).push(
                EventView::SpellDenied {
                    agent_key: key,
                    position: casting.position,
                    reason,
                    delivery: spell.delivery,
                },
            )
        }),
{
}

/// A cast that is paid for cannot be cast again before its pause is over.
pub proof fn law_a_cast_makes_its_spell_wait(
    w: TickView,
    key: AgentKey,
    spell: Spell,
    casting: Casting,
    config: GameConfig,
    now: Tick,
)
    requires
        agent_of(w, key) is Some,
        pauses_in_time(spell, w.tick, config),
        now.0 < w.tick.0 + spell.cooldown.0 || now.0 < w.tick.0 + group_pause(
            spell.group,
            spell.group_cooldown,
            config,
        ),
    ensures
        ({
            let after = cast_settled(w, key, spell, casting, Ok(()), config);
            agent_of(after, key) matches Some(a) && !castable(a, spell, now)
        }),
{
}

/// A cast for players only leaves the creatures in its area alone, and reaches every player there.
pub proof fn law_a_players_only_area_reaches_players_only(m: MapView, keys: Seq<AgentKey>, key: AgentKey)
    ensures
        passing_among(m, keys, TargetFilter::Players, keys.len()).contains(key) <==> keys.contains(
            key,
        ) && is_player(m, key),
{
    lemma_passing(m, keys, TargetFilter::Players, keys.len(), key);
    assert(keys.take(keys.len() as int) =~= keys);
}

proof fn lemma_passing(m: MapView, keys: Seq<AgentKey>, filter: TargetFilter, n: nat, key: AgentKey)
    requires
        n <= keys.len(),
    ensures
        passing_among(m, keys, filter, n).contains(key) <==> keys.take(n as int).contains(key)
            && let_through(m, key, filter),
    decreases n,
{
    if n > 0 {
        lemma_passing(m, keys, filter, (n - 1) as nat, key);
        let before = passing_among(m, keys, filter, (n - 1) as nat);
        assert(keys.take(n as int) =~= keys.take(n - 1).push(keys[n - 1]));
        lemma_contains_push(keys.take(n - 1), keys[n - 1], key);
        lemma_contains_push(before, keys[n - 1], key);
    }
}

proof fn lemma_contains_push(s: Seq<AgentKey>, x: AgentKey, y: AgentKey)
    ensures
        s.push(x).contains(y) <==> s.contains(y) || x == y,
{
    let t = s.push(x);
    assert(t[s.len() as int] == x);
    if s.contains(y) {
        let i = s.index_of(y);
        assert(t[i] == y);
    }
}

/// No agent occurs twice.
pub open spec fn all_different(agents: Seq<(AgentKey, Position)>) -> bool {
    forall|i: int, j: int|
        0 <= i < agents.len() && 0 <= j < agents.len() && (#[trigger] agents[i]).0 == (
        #[trigger] agents[j]).0 ==> i == j
}

proof fn lemma_agents_on(m: MapView, tiles: Seq<Position>, n: nat)
    requires
        placed(m),
        tiles.no_duplicates(),
        n <= tiles.len(),
    ensures
        all_different(agents_on(m, tiles, n)),
        forall|i: int|
            0 <= i < agents_on(m, tiles, n).len() ==> {
                let (key, p) = #[trigger] agents_on(m, tiles, n)[i];
                m.positions[key.0] == p && tiles.take(n as int).contains(p)
            },
    decreases n,
{
    if n > 0 {
        lemma_agents_on(m, tiles, (n - 1) as nat);
        let a = agents_on(m, tiles, (n - 1) as nat);
        let p = tiles[n - 1];
        let all = agents_on(m, tiles, n);
        assert(!tiles.take(n - 1).contains(p)) by {
            if tiles.take(n - 1).contains(p) {
                let j = tiles.take(n - 1).index_of(p);
                assert(tiles[j] == tiles[n - 1]);
            }
        }
        assert(tiles.take(n as int)[n - 1] == p);
        assert forall|i: int| 0 <= i < all.len() implies ({
            let (key, q) = #[trigger] all[i];
            m.positions[key.0] == q && tiles.take(n as int).contains(q) && (i < a.len() ==> q
                != p) && (i >= a.len() ==> q == p)
        }) by {
            if i < a.len() {
                assert(all[i] == a[i]);
                let q = a[i].1;
                let j = tiles.take(n - 1).index_of(q);
                assert(tiles.take(n as int)[j] == q);
            } else {
                assert(all[i] == (m.tiles[p].agents[i - a.len()], p));
            }
        }
        assert forall|i: int, j: int|
            0 <= i < all.len() && 0 <= j < all.len() && (#[trigger] all[i]).0 == (
            #[trigger] all[j]).0 implies i == j by {
            if i < a.len() && j < a.len() {
                assert(a[i].0 == a[j].0);
            } else if i >= a.len() && j >= a.len() {
                assert(m.tiles[p].agents.no_duplicates());
                assert(m.tiles[p].agents[i - a.len()] == m.tiles[p].agents[j - a.len()]);
            }
        }
    }
}

proof fn lemma_untouched(
    agents: Seq<(AgentKey, Position)>,
    attacker: AgentKey,
    targeted: Seq<AgentKey>,
    n: nat,
)
    requires
        all_different(agents),
        n <= agents.len(),
    ensures
        all_different(untouched_among(agents, attacker, targeted, n)),
        forall|i: int|
            0 <= i < untouched_among(agents, attacker, targeted, n).len() ==> {
                let x = #[trigger] untouched_among(agents, attacker, targeted, n)[i];
                &&& x.0 != attacker
                &&& !targeted.contains(x.0)
                &&& agents.take(n as int).contains(x)
            },
    decreases n,
{
    if n > 0 {
        lemma_untouched(agents, attacker, targeted, (n - 1) as nat);
        let before = untouched_among(agents, attacker, targeted, (n - 1) as nat);
        let after = untouched_among(agents, attacker, targeted, n);
        assert(agents.take(n as int) =~= agents.take(n - 1).push(agents[n - 1]));
        assert(agents.take(n as int)[n - 1] == agents[n - 1]);
        assert forall|i: int| 0 <= i < after.len() implies ({
            let x = #[trigger] after[i];
            &&& x.0 != attacker
            &&& !targeted.contains(x.0)
            &&& agents.take(n as int).contains(x)
            &&& i < before.len() ==> x.0 != agents[n - 1].0
        }) by {
            if i < before.len() {
                assert(after[i] == before[i]);
                let k = agents.take(n - 1).index_of(before[i]);
                assert(agents.take(n as int)[k] == before[i]);
                assert(agents[k].0 == before[i].0);
            }
        }
        assert forall|i: int, j: int|
            0 <= i < after.len() && 0 <= j < after.len() && (#[trigger] after[i]).0 == (
            #[trigger] after[j]).0 implies i == j by {
            if i < before.len() && j < before.len() {
                assert(before[i].0 == before[j].0);
            }
        }
    }
}

/// The closest come first.
pub open spec fn ordered(agents: Seq<(AgentKey, Position)>, from: Position) -> bool {
    forall|i: int, j: int|
        0 <= i <= j < agents.len() ==> (#[trigger] agents[i]).1.spec_distance(from) <= (
        #[trigger] agents[j]).1.spec_distance(from)
}

proof fn lemma_place_orders(agents: Seq<(AgentKey, Position)>, from: Position, distance: int, i: int)
    requires
        ordered(agents, from),
        0 <= i <= agents.len(),
        forall|j: int| i <= j < agents.len() ==> (#[trigger] agents[j]).1.spec_distance(from)
            > distance,
    ensures
        ({
            let place = place_by_distance(agents, from, distance, i);
            &&& 0 <= place <= i
            &&& forall|j: int| 0 <= j < place ==> (#[trigger] agents[j]).1.spec_distance(from)
                <= distance
            &&& forall|j: int| place <= j < agents.len() ==> (
            #[trigger] agents[j]).1.spec_distance(from) > distance
        }),
    decreases i,
{
    if i > 0 && agents[i - 1].1.spec_distance(from) > distance {
        lemma_place_orders(agents, from, distance, i - 1);
    }
}

proof fn lemma_by_distance(agents: Seq<(AgentKey, Position)>, from: Position, n: nat)
    requires
        all_different(agents),
        n <= agents.len(),
    ensures
        all_different(by_distance(agents, from, n)),
        ordered(by_distance(agents, from, n), from),
        by_distance(agents, from, n).len() == n,
        forall|i: int| 0 <= i < n ==> agents.take(n as int).contains(
            #[trigger] by_distance(agents, from, n)[i],
        ),
    decreases n,
{
    if n > 0 {
        lemma_by_distance(agents, from, (n - 1) as nat);
        let before = by_distance(agents, from, (n - 1) as nat);
        let x = agents[n - 1];
        let d = x.1.spec_distance(from);
        lemma_place_orders(before, from, d, before.len() as int);
        let place = place_by_distance(before, from, d, before.len() as int);
        let after = by_distance(agents, from, n);
        assert(agents.take(n as int) =~= agents.take(n - 1).push(x));
        assert(agents.take(n as int)[n - 1] == x);
        assert forall|i: int| 0 <= i < after.len() implies ({
            let y = #[trigger] after[i];
            &&& y == (if i < place {
                before[i]
            } else if i == place {
                x
            } else {
                before[i - 1]
            })
            &&& agents.take(n as int).contains(y)
            &&& i != place ==> y.0 != x.0
        }) by {
            if i != place {
                let k = if i < place {
                    i
                } else {
                    i - 1
                };
                assert(after[i] == before[k]);
                let q = agents.take(n - 1).index_of(before[k]);
                assert(agents.take(n as int)[q] == before[k]);
                assert(agents[q].0 == before[k].0);
            }
        }
        assert forall|i: int, j: int|
            0 <= i < after.len() && 0 <= j < after.len() && (#[trigger] after[i]).0 == (
            #[trigger] after[j]).0 implies i == j by {
            if i != place && j != place {
                let k = if i < place {
                    i
                } else {
                    i - 1
                };
                let l = if j < place {
                    j
                } else {
                    j - 1
                };
                assert(before[k].0 == before[l].0);
            }
        }
    }
}

proof fn lemma_leaps_from(
    m: MapView,
    from: Position,
    chain: ChainAttack,
    attacker: AgentKey,
    targeted: Seq<AgentKey>,
)
    requires
        placed(m),
    ensures
        ({
            let leaps = leaps_from(m, from, chain, attacker, targeted);
            &&& leaps.len() <= chain.num_targets
            &&& all_different(leaps)
            &&& ordered(leaps, from)
            &&& forall|i: int|
                0 <= i < leaps.len() ==> (#[trigger] leaps[i]).0 != attacker && !targeted.contains(
                    leaps[i].0,
                )
        }),
{
    let tiles = sweep(Rect::around(from, (chain.max_range, chain.max_range)), from.z);
    law_a_sweep_meets_every_tile_once(
        Rect::around(from, (chain.max_range, chain.max_range)),
        from.z,
    );
    lemma_agents_on(m, tiles, tiles.len());
    let near = agents_around(m, from, chain.max_range);
    lemma_untouched(near, attacker, targeted, near.len());
    let candidates = untouched_among(near, attacker, targeted, near.len());
    lemma_by_distance(candidates, from, candidates.len());
    let sorted = by_distance(candidates, from, candidates.len());
    let leaps = leaps_from(m, from, chain, attacker, targeted);
    assert forall|i: int| 0 <= i < leaps.len() implies (#[trigger] leaps[i]).0 != attacker
        && !targeted.contains(leaps[i].0) by {
        assert(leaps[i] == sorted[i]);
        let k = candidates.take(candidates.len() as int).index_of(sorted[i]);
        assert(candidates[k] == sorted[i]);
    }
    assert forall|i: int, j: int|
        0 <= i < leaps.len() && 0 <= j < leaps.len() && (#[trigger] leaps[i]).0 == (
        #[trigger] leaps[j]).0 implies i == j by {
        assert(sorted[i].0 == sorted[j].0);
    }
}

proof fn lemma_untouched_stays(
    agents: Seq<(AgentKey, Position)>,
    attacker: AgentKey,
    targeted: Seq<AgentKey>,
    n: nat,
    k: int,
)
    requires
        0 <= k < n <= agents.len(),
        agents[k].0 != attacker,
        !targeted.contains(agents[k].0),
    ensures
        untouched_among(agents, attacker, targeted, n).contains(agents[k]),
    decreases n,
{
    let before = untouched_among(agents, attacker, targeted, (n - 1) as nat);
    let after = untouched_among(agents, attacker, targeted, n);
    if k < n - 1 {
        lemma_untouched_stays(agents, attacker, targeted, (n - 1) as nat, k);
        let i = before.index_of(agents[k]);
        assert(after[i] == agents[k]);
    } else {
        assert(after[before.len() as int] == agents[k]);
    }
}

proof fn lemma_by_distance_keeps(agents: Seq<(AgentKey, Position)>, from: Position, n: nat, k: int)
    requires
        all_different(agents),
        0 <= k < n <= agents.len(),
    ensures
        by_distance(agents, from, n).contains(agents[k]),
    decreases n,
{
    lemma_by_distance(agents, from, (n - 1) as nat);
    let before = by_distance(agents, from, (n - 1) as nat);
    let d = agents[n - 1].1.spec_distance(from);
    lemma_place_orders(before, from, d, before.len() as int);
    let place = place_by_distance(before, from, d, before.len() as int);
    let after = by_distance(agents, from, n);
    if k < n - 1 {
        lemma_by_distance_keeps(agents, from, (n - 1) as nat, k);
        let i = before.index_of(agents[k]);
        assert(after[if i < place { i } else { i + 1 }] == agents[k]);
    } else {
        assert(after[place] == agents[k]);
    }
}

/// An attack leaps from a tile to the closest around it, each at most as far as the next: to no
/// more of them than it may, and never to its attacker or to anybody it has hit before. Whoever
/// else is around is leapt to as well, unless it leaps to as many as it may and none of them is
/// farther.
pub proof fn law_an_attack_leaps_to_the_closest_once(
    m: MapView,
    from: Position,
    chain: ChainAttack,
    attacker: AgentKey,
    targeted: Seq<AgentKey>,
    other: (AgentKey, Position),
)
    requires
        placed(m),
    ensures
        ({
            let leaps = leaps_from(m, from, chain, attacker, targeted);
            let near = agents_around(m, from, chain.max_range);
            &&& leaps.len() <= chain.num_targets
            &&& all_different(leaps)
            &&& ordered(leaps, from)
            &&& forall|i: int|
                0 <= i < leaps.len() ==> (#[trigger] leaps[i]).0 != attacker && !targeted.contains(
                    leaps[i].0,
                ) && near.contains(leaps[i])
            &&& near.contains(other) && other.0 != attacker && !targeted.contains(other.0)
                && !leaps.contains(other) ==> {
                &&& leaps.len() == chain.num_targets
                &&& forall|i: int|
                    0 <= i < leaps.len() ==> (#[trigger] leaps[i]).1.spec_distance(from)
                        <= other.1.spec_distance(from)
            }
        }),
{
    lemma_leaps_from(m, from, chain, attacker, targeted);
    let tiles = sweep(Rect::around(from, (chain.max_range, chain.max_range)), from.z);
    law_a_sweep_meets_every_tile_once(
        Rect::around(from, (chain.max_range, chain.max_range)),
        from.z,
    );
    lemma_agents_on(m, tiles, tiles.len());
    let near = agents_around(m, from, chain.max_range);
    lemma_untouched(near, attacker, targeted, near.len());
    let candidates = untouched_among(near, attacker, targeted, near.len());
    lemma_by_distance(candidates, from, candidates.len());
    let sorted = by_distance(candidates, from, candidates.len());
    let leaps = leaps_from(m, from, chain, attacker, targeted);
    assert forall|i: int| 0 <= i < leaps.len() implies near.contains(#[trigger] leaps[i]) by {
        assert(leaps[i] == sorted[i]);
        let k = candidates.take(candidates.len() as int).index_of(sorted[i]);
        assert(candidates[k] == sorted[i]);
        let j = near.take(near.len() as int).index_of(candidates[k]);
        assert(near[j] == leaps[i]);
    }
    if near.contains(other) && other.0 != attacker && !targeted.contains(other.0)
        && !leaps.contains(other) {
        lemma_untouched_stays(near, attacker, targeted, near.len(), near.index_of(other));
        lemma_by_distance_keeps(
            candidates,
            from,
            candidates.len(),
            candidates.index_of(other),
        );
        let place = sorted.index_of(other);
        assert(sorted[place] == other);
        if place < leaps.len() {
            assert(leaps[place] == other);
        }
        assert forall|i: int| 0 <= i < leaps.len() implies (#[trigger] leaps[i]).1.spec_distance(
            from,
        ) <= other.1.spec_distance(from) by {
            assert(leaps[i] == sorted[i]);
        }
    }
}

proof fn lemma_leapt(
    before: Leaps,
    from: Position,
    leaps: Seq<(AgentKey, Position)>,
    damage: CombatDamage,
    chain: ChainAttack,
    n: nat,
)
    requires
        before.targeted.no_duplicates(),
        before.hits.len() == before.positions.len(),
        all_different(leaps),
        forall|i: int|
            0 <= i < leaps.len() ==> !before.targeted.contains((#[trigger] leaps[i]).0),
        n <= leaps.len(),
    ensures
        ({
            let after = leapt(before, from, leaps, damage, chain, n);
            &&& after.targeted.no_duplicates()
            &&& after.hits.len() == after.positions.len()
            &&& after.hits.len() == before.hits.len() + n
            &&& after.targeted.len() == before.targeted.len() + n
            &&& forall|i: int| 0 <= i < before.targeted.len() ==> #[trigger] after.targeted[i]
                == before.targeted[i]
            &&& forall|i: int| 0 <= i < n ==> (#[trigger] leaps[i]).0 == after.targeted[
                before.targeted.len() + i]
        }),
    decreases n,
{
    if n > 0 {
        lemma_leapt(before, from, leaps, damage, chain, (n - 1) as nat);
        let so_far = leapt(before, from, leaps, damage, chain, (n - 1) as nat);
        let after = leapt(before, from, leaps, damage, chain, n);
        let key = leaps[n - 1].0;
        assert(!so_far.targeted.contains(key)) by {
            if so_far.targeted.contains(key) {
                let i = so_far.targeted.index_of(key);
                if i < before.targeted.len() {
                    assert(before.targeted[i] == key);
                    assert(before.targeted.contains(key));
                } else {
                    let k = i - before.targeted.len();
                    assert(leaps[k].0 == key);
                    assert(leaps[k].0 == leaps[n - 1].0);
                }
            }
        }
        assert forall|i: int| 0 <= i < n implies (#[trigger] leaps[i]).0 == after.targeted[
            before.targeted.len() + i] by {
            if i < n - 1 {
                assert(after.targeted[before.targeted.len() + i] == so_far.targeted[
                    before.targeted.len() + i]);
            }
        }
        assert forall|i: int, j: int|
            0 <= i < after.targeted.len() && 0 <= j < after.targeted.len() && i != j implies after.targeted[i]
            != after.targeted[j] by {
            if i < so_far.targeted.len() && j < so_far.targeted.len() {
                assert(so_far.targeted[i] != so_far.targeted[j]);
            } else if i < so_far.targeted.len() {
                assert(so_far.targeted.contains(so_far.targeted[i]));
            } else {
                assert(so_far.targeted.contains(so_far.targeted[j]));
            }
        }
    }
}

/// However many sources an attack leaps from, it hits nobody twice, and nobody that it had hit
/// before: those it has hit in the end are all different, and begin with those it had.
pub proof fn law_a_chain_hits_nobody_twice(
    w: TickView,
    attacker: AgentKey,
    sources: Seq<(Position, CombatDamage)>,
    scaled: Seq<u32>,
    chain: ChainAttack,
    targeted: Seq<AgentKey>,
    n: nat,
)
    requires
        placed(w.world.map),
        targeted.no_duplicates(),
        n <= sources.len(),
    ensures
        ({
            let leaps = leapt_from_all(w, attacker, sources, scaled, chain, targeted, n);
            &&& leaps.targeted.no_duplicates()
            &&& leaps.hits.len() == leaps.positions.len()
            &&& leaps.targeted.len() == targeted.len() + leaps.hits.len()
            &&& forall|i: int| 0 <= i < targeted.len() ==> #[trigger] leaps.targeted[i]
                == targeted[i]
        }),
    decreases n,
{
    if n > 0 {
        law_a_chain_hits_nobody_twice(
            w,
            attacker,
            sources,
            scaled,
            chain,
            targeted,
            (n - 1) as nat,
        );
        let before = leapt_from_all(
            w,
            attacker,
            sources,
            scaled,
            chain,
            targeted,
            (n - 1) as nat,
        );
        let (from, damage) = sources[n - 1];
        lemma_leaps_from(w.world.map, from, chain, attacker, before.targeted);
        let leaps = leaps_from(w.world.map, from, chain, attacker, before.targeted);
        lemma_leapt(
            before,
            from,
            leaps,
            CombatDamage::plain(damage.element, scaled[n - 1]),
            chain,
            leaps.len(),
        );
    }
}

/// An area lies around whoever casts it, or just where it is aimed: on the tile that was named or
/// the one that the agent stands on, where the caster can aim and throw there.
pub proof fn law_an_area_lies_where_it_is_aimed<
    F: Fn(Position, Position) -> bool,
    G: Fn(Position, Position) -> bool,
>(
    m: MapView,
    caster_pos: Position,
    key: AgentKey,
    pos: Position,
    can_throw: F,
    can_target: G,
)
    ensures
        area_origin(
            m,
            AreaOrigin::Caster,
            caster_pos,
            AreaTarget::Agent(key),
            can_throw,
            can_target,
        ) == Some(caster_pos),
        match area_origin(
            m,
            AreaOrigin::Target,
            caster_pos,
            AreaTarget::Agent(key),
            can_throw,
            can_target,
        ) {
            Some(center) => m.positions.contains_key(key.0) && center == m.positions[key.0]
                && can_target.ensures((caster_pos, center), true) && can_throw.ensures(
                (caster_pos, center),
                true,
            ),
            None => !m.positions.contains_key(key.0) || !can_target.ensures(
                (caster_pos, m.positions[key.0]),
                true,
            ) || !can_throw.ensures((caster_pos, m.positions[key.0]), true),
        },
        match area_origin(
            m,
            AreaOrigin::Target,
            caster_pos,
            AreaTarget::Position(pos),
            can_throw,
            can_target,
        ) {
            Some(center) => center == pos && can_target.ensures((caster_pos, pos), true)
                && can_throw.ensures((caster_pos, pos), true),
            None => !can_target.ensures((caster_pos, pos), true) || !can_throw.ensures(
                (caster_pos, pos),
                true,
            ),
        },
        area_origin(
            m,
            AreaOrigin::Target,
            caster_pos,
            AreaTarget::NoTarget,
            can_throw,
            can_target,
        ) is None,
{
}

/// Why one agent cannot be reached from `pos`: it is on no map, it is out of reach, or the cast is
/// not for its like.
pub open spec fn out_of_reach(
    m: MapView,
    target: AgentKey,
    in_reach: bool,
    filter: TargetFilter,
) -> Option<SpellCastingDenyReason> {
    if !m.positions.contains_key(target.0) {
        Some(SpellCastingDenyReason::InvalidState(target, Absent::Target))
    } else if !in_reach {
        Some(SpellCastingDenyReason::OutOfReach)
    } else if filter == TargetFilter::Players && !(m.agents.contains_key(target.0)
        && m.agents[target.0].body is Player) {
        Some(SpellCastingDenyReason::InvalidTarget)
    } else {
        None
    }
}

/// A cast at one agent reaches that one and nobody else, and shows on its tile: the caster itself,
/// whom it fights, or whom it aims at. It is denied where there is no such agent, where that is
/// off the map, too far, out of sight or not whom the cast is for.
pub proof fn law_a_cast_at_one_reaches_just_that_one<
    F: Fn(Position, Position) -> bool,
    G: Fn(Position, Position) -> bool,
>(
    m: MapView,
    caster: AgentKey,
    range: u16,
    area_target: AreaTarget,
    param: Option<Seq<char>>,
    filter: TargetFilter,
    can_throw: F,
    can_target: G,
)
    requires
        m.agents.contains_key(caster.0),
        m.positions.contains_key(caster.0),
    ensures
        ({
            let own = targets_of(
                m,
                caster,
                TargetMode::Caster,
                area_target,
                param,
                filter,
                can_throw,
                can_target,
            );
            own matches Ok(t) && t.keys == seq![caster] && t.aim is None && t.delta is None
        }),
        ({
            let r = targets_of(
                m,
                caster,
                TargetMode::Target { range },
                area_target,
                param,
                filter,
                can_throw,
                can_target,
            );
            let pos = m.positions[caster.0];
            match m.agents[caster.0].target {
                None => r == Err::<TargetsView, SpellCastingDenyReason>(
                    SpellCastingDenyReason::InvalidTarget,
                ),
                Some(target) => {
                    let at = m.positions[target.0];
                    let in_reach = -(range as int) <= at.x - pos.x <= range && -(range as int)
                        <= at.y - pos.y <= range && can_throw.ensures((pos, at), true);
                    match out_of_reach(m, target, in_reach, filter) {
                        Some(reason) => r == Err::<TargetsView, SpellCastingDenyReason>(reason),
                        None => r matches Ok(t) && t.keys == seq![target] && t.aim == Some(at)
                            && t.delta == Some(seq![(0i8, 0i8)]),
                    }
                },
            }
        }),
        ({
            let r = targets_of(
                m,
                caster,
                TargetMode::Aimed,
                area_target,
                param,
                filter,
                can_throw,
                can_target,
            );
            let pos = m.positions[caster.0];
            match area_target {
                AreaTarget::Agent(target) => {
                    let at = m.positions[target.0];
                    let in_reach = can_target.ensures((pos, at), true) && can_throw.ensures(
                        (pos, at),
                        true,
                    );
                    match out_of_reach(m, target, in_reach, filter) {
                        Some(reason) => r == Err::<TargetsView, SpellCastingDenyReason>(reason),
                        None => r matches Ok(t) && t.keys == seq![target] && t.aim == Some(at)
                            && t.delta == Some(seq![(0i8, 0i8)]),
                    }
                },
                _ => r == Err::<TargetsView, SpellCastingDenyReason>(
                    SpellCastingDenyReason::InvalidTarget,
                ),
            }
        }),
{
    if let Some(target) = m.agents[caster.0].target {
        law_distance_counts_steps(
            m.positions[caster.0],
            m.positions[target.0],
            Direction::North,
            range as nat,
        );
    }
}

proof fn lemma_named_among(m: MapView, agents: Seq<(AgentKey, Position)>, name: Seq<char>, i: int)
    requires
        0 <= i,
    ensures
        match named_among(m, agents, name, i) {
            Some(found) => exists|j: int|
                i <= j < agents.len() && #[trigger] agents[j] == found && named(m, found.0, name),
            None => forall|j: int|
                i <= j < agents.len() ==> !named(m, (#[trigger] agents[j]).0, name),
        },
    decreases agents.len() - i,
{
    if i < agents.len() {
        lemma_named_among(m, agents, name, i + 1);
    }
}

proof fn lemma_agents_on_all(m: MapView, tiles: Seq<Position>, n: nat, p: Position, key: AgentKey)
    requires
        n <= tiles.len(),
    ensures
        agents_on(m, tiles, n).contains((key, p)) <==> tiles.take(n as int).contains(p)
            && m.tiles.contains_key(p) && m.tiles[p].agents.contains(key),
    decreases n,
{
    if n > 0 {
        lemma_agents_on_all(m, tiles, (n - 1) as nat, p, key);
        let before = agents_on(m, tiles, (n - 1) as nat);
        let after = agents_on(m, tiles, n);
        let q = tiles[n - 1];
        assert(tiles.take(n as int) =~= tiles.take(n - 1).push(q));
        assert(tiles.take(n as int).contains(p) <==> tiles.take(n - 1).contains(p) || p == q) by {
            if tiles.take(n - 1).contains(p) {
                assert(tiles.take(n as int)[tiles.take(n - 1).index_of(p)] == p);
            }
            assert(tiles.take(n as int)[n - 1] == q);
        }
        if before.contains((key, p)) {
            assert(after[before.index_of((key, p))] == (key, p));
        }
        if p == q && m.tiles.contains_key(p) && m.tiles[p].agents.contains(key) {
            let i = m.tiles[p].agents.index_of(key);
            assert(after[before.len() + i] == (key, p));
        }
        if after.contains((key, p)) {
            let i = after.index_of((key, p));
            if i < before.len() {
                assert(before[i] == (key, p));
            } else {
                assert(m.tiles[q].agents[i - before.len()] == key);
            }
        }
    }
}

/// The agents around a tile are just those who stand on its floor no farther than that.
pub proof fn law_agents_around_stand_within_range(m: MapView, pos: Position, range: u16, key: AgentKey)
    requires
        placed(m),
        m.positions.contains_key(key.0),
    ensures
        ({
            let at = m.positions[key.0];
            agents_around(m, pos, range).contains((key, at)) <==> at.z == pos.z && -(range as int)
                <= at.x - pos.x <= range && -(range as int) <= at.y - pos.y <= range
        }),
{
    let at = m.positions[key.0];
    let rect = Rect::around(pos, (range, range));
    let tiles = sweep(rect, pos.z);
    law_a_sweep_meets_every_tile_once(rect, pos.z);
    law_a_rect_holds_what_it_reaches(pos, (range, range), at);
    lemma_agents_on_all(m, tiles, tiles.len(), at, key);
    assert(tiles.take(tiles.len() as int) =~= tiles);
    assert(AgentKey(key.0) == key);
}

/// A cast by name reaches a player of that name who stands on the caster's floor, within range and
/// in sight, and nobody else. Where no player of the name is within range there is no target.
pub proof fn law_a_cast_by_name_reaches_whom_it_names<
    F: Fn(Position, Position) -> bool,
    G: Fn(Position, Position) -> bool,
>(
    m: MapView,
    caster: AgentKey,
    range: u16,
    area_target: AreaTarget,
    name: Seq<char>,
    filter: TargetFilter,
    can_throw: F,
    can_target: G,
    other: AgentKey,
)
    requires
        placed(m),
        m.positions.contains_key(caster.0),
        m.positions.contains_key(other.0),
    ensures
        ({
            let pos = m.positions[caster.0];
            let at = m.positions[other.0];
            let r = targets_of(
                m,
                caster,
                TargetMode::Named { range },
                area_target,
                Some(name),
                filter,
                can_throw,
                can_target,
            );
            &&& targets_of(
                m,
                caster,
                TargetMode::Named { range },
                area_target,
                None,
                filter,
                can_throw,
                can_target,
            ) == Err::<TargetsView, SpellCastingDenyReason>(SpellCastingDenyReason::InvalidTarget)
            &&& r matches Ok(t) ==> t.keys.len() == 1 && m.positions.contains_key(t.keys[0].0)
                && t.aim == Some(m.positions[t.keys[0].0]) && {
                let there = m.positions[t.keys[0].0];
                &&& m.agents[t.keys[0].0].body is Player
                &&& m.agents[t.keys[0].0].body->Player_0.name == name
                &&& there.z == pos.z
                &&& -(range as int) <= there.x - pos.x <= range
                &&& -(range as int) <= there.y - pos.y <= range
                &&& can_throw.ensures((pos, there), true)
            }
            &&& r == Err::<TargetsView, SpellCastingDenyReason>(
                SpellCastingDenyReason::InvalidTarget,
            ) ==> !(m.agents[other.0].body is Player && m.agents[other.0].body->Player_0.name
                == name && at.z == pos.z && -(range as int) <= at.x - pos.x <= range && -(
            range as int) <= at.y - pos.y <= range)
        }),
{
    let pos = m.positions[caster.0];
    let near = agents_around(m, pos, range);
    lemma_named_among(m, near, name, 0);
    law_agents_around_stand_within_range(m, pos, range, other);
    if near.contains((other, m.positions[other.0])) {
        let i = near.index_of((other, m.positions[other.0]));
        assert(near[i].0 == other);
    }
    if let Some((key, at)) = named_among(m, near, name, 0) {
        let tiles = sweep(Rect::around(pos, (range, range)), pos.z);
        law_a_sweep_meets_every_tile_once(Rect::around(pos, (range, range)), pos.z);
        lemma_agents_on(m, tiles, tiles.len());
        let j = choose|j: int| 0 <= j < near.len() && #[trigger] near[j] == (key, at);
        assert(near[j] == (key, at));
        assert(m.positions[key.0] == at);
        assert(tiles.take(tiles.len() as int) =~= tiles);
        law_a_rect_holds_what_it_reaches(pos, (range, range), at);
    }
}

proof fn lemma_covered_among<F: Fn(Position, Position) -> bool>(
    origin: Position,
    shape: Seq<(i8, i8)>,
    can_throw: F,
    n: nat,
    offset: (i8, i8),
)
    requires
        n <= shape.len(),
    ensures
        covered_among(origin, shape, can_throw, n).contains(offset) <==> shape.take(
            n as int,
        ).contains(offset) && covered(origin, offset, can_throw),
    decreases n,
{
    if n > 0 {
        lemma_covered_among(origin, shape, can_throw, (n - 1) as nat, offset);
        let before = covered_among(origin, shape, can_throw, (n - 1) as nat);
        let after = covered_among(origin, shape, can_throw, n);
        let last = shape[n - 1];
        assert(shape.take(n as int) =~= shape.take(n - 1).push(last));
        if shape.take(n - 1).contains(offset) {
            assert(shape.take(n as int)[shape.take(n - 1).index_of(offset)] == offset);
        }
        assert(shape.take(n as int)[n - 1] == last);
        if before.contains(offset) {
            assert(after[before.index_of(offset)] == offset);
        }
        if after.contains(offset) {
            let i = after.index_of(offset);
            if i < before.len() {
                assert(before[i] == offset);
            }
        }
        if covered(origin, last, can_throw) {
            assert(after[before.len() as int] == last);
        }
    }
}

proof fn lemma_agents_at_offsets(
    m: MapView,
    origin: Position,
    offsets: Seq<(i8, i8)>,
    n: nat,
    key: AgentKey,
)
    requires
        n <= offsets.len(),
    ensures
        agents_at_offsets(m, origin, offsets, n).contains(key) <==> exists|i: int|
            0 <= i < n && stands_at(m, origin, #[trigger] offsets[i], key),
    decreases n,
{
    if n > 0 {
        lemma_agents_at_offsets(m, origin, offsets, (n - 1) as nat, key);
        let before = agents_at_offsets(m, origin, offsets, (n - 1) as nat);
        let after = agents_at_offsets(m, origin, offsets, n);
        if before.contains(key) {
            assert(after[before.index_of(key)] == key);
        }
        if stands_at(m, origin, offsets[n - 1], key) {
            let pos = origin.offset_by(
                offsets[n - 1].0 as int,
                offsets[n - 1].1 as int,
            ).unwrap();
            let i = m.tiles[pos].agents.index_of(key);
            assert(after[before.len() + i] == key);
        }
        if after.contains(key) {
            let i = after.index_of(key);
            if i < before.len() {
                assert(before[i] == key);
            } else {
                let pos = origin.offset_by(
                    offsets[n - 1].0 as int,
                    offsets[n - 1].1 as int,
                ).unwrap();
                assert(m.tiles[pos].agents[i - before.len()] == key);
                assert(stands_at(m, origin, offsets[n - 1], key));
            }
        }
    }
}

/// The agent stands on the tile at this offset from a centre.
pub open spec fn stands_at(m: MapView, origin: Position, offset: (i8, i8), key: AgentKey) -> bool {
    let pos = origin.offset_by(offset.0 as int, offset.1 as int).unwrap();
    m.tiles.contains_key(pos) && m.tiles[pos].agents.contains(key)
}

proof fn lemma_passing_among(m: MapView, keys: Seq<AgentKey>, filter: TargetFilter, n: nat, key: AgentKey)
    requires
        n <= keys.len(),
    ensures
        passing_among(m, keys, filter, n).contains(key) <==> keys.take(n as int).contains(key)
            && let_through(m, key, filter),
    decreases n,
{
    if n > 0 {
        lemma_passing_among(m, keys, filter, (n - 1) as nat, key);
        let before = passing_among(m, keys, filter, (n - 1) as nat);
        let after = passing_among(m, keys, filter, n);
        let last = keys[n - 1];
        assert(keys.take(n as int) =~= keys.take(n - 1).push(last));
        if keys.take(n - 1).contains(key) {
            assert(keys.take(n as int)[keys.take(n - 1).index_of(key)] == key);
        }
        assert(keys.take(n as int)[n - 1] == last);
        if before.contains(key) {
            assert(after[before.index_of(key)] == key);
        }
        if after.contains(key) {
            let i = after.index_of(key);
            if i < before.len() {
                assert(before[i] == key);
            }
        }
        if let_through(m, last, filter) {
            assert(after[before.len() as int] == last);
        }
    }
}

/// A cast at an area reaches just those it is for who stand on one of the tiles that the shape,
/// turned the way its caster faces, covers around its centre and that can be thrown to from
/// there; and it shows on just those tiles.
pub proof fn law_an_area_reaches_everybody_in_it<
    F: Fn(Position, Position) -> bool,
    G: Fn(Position, Position) -> bool,
>(
    m: MapView,
    caster: AgentKey,
    origin: AreaOrigin,
    shape: Arc<AreaShape>,
    area_target: AreaTarget,
    param: Option<Seq<char>>,
    filter: TargetFilter,
    can_throw: F,
    can_target: G,
    key: AgentKey,
    offset: (i8, i8),
)
    requires
        placed(m),
        m.positions.contains_key(caster.0),
        m.positions.contains_key(key.0),
    ensures
        ({
            let r = targets_of(
                m,
                caster,
                TargetMode::Area { origin, shape },
                area_target,
                param,
                filter,
                can_throw,
                can_target,
            );
            let tiles = shape.delta.side(m.agents[caster.0].facing);
            match area_origin(
                m,
                origin,
                m.positions[caster.0],
                area_target,
                can_throw,
                can_target,
            ) {
                None => r == Err::<TargetsView, SpellCastingDenyReason>(
                    SpellCastingDenyReason::InvalidTarget,
                ),
                Some(center) => {
                    let at = m.positions[key.0];
                    &&& r matches Ok(t) && t.aim == Some(center) && (t.delta matches Some(delta) && (
                    delta.contains(offset) <==> tiles.contains(offset) && 0 <= center.x + offset.0
                        <= 65535 && 0 <= center.y + offset.1 <= 65535 && can_throw.ensures(
                        (
                            center,
                            Position {
                                x: (center.x + offset.0) as u16,
                                y: (center.y + offset.1) as u16,
                                z: center.z,
                            },
                        ),
                        true,
                    )) && (t.keys.contains(key) ==> at.z == center.z && can_throw.ensures(
                        (center, at),
                        true,
                    ) && (filter == TargetFilter::Players ==> m.agents[key.0].body is Player)
                        && exists|i: int|
                        0 <= i < tiles.len() && (#[trigger] tiles[i]).0 == at.x - center.x
                            && tiles[i].1 == at.y - center.y) && (tiles.contains(offset) && at.x
                        == center.x + offset.0 && at.y == center.y + offset.1 && at.z == center.z
                        && can_throw.ensures((center, at), true) && (filter
                        == TargetFilter::Players ==> m.agents[key.0].body is Player)
                        ==> t.keys.contains(key)))
                },
            }
        }),
{
    let tiles = shape.delta.side(m.agents[caster.0].facing);
    let origin_at = area_origin(
        m,
        origin,
        m.positions[caster.0],
        area_target,
        can_throw,
        can_target,
    );
    if let Some(center) = origin_at {
        let at = m.positions[key.0];
        let offsets = covered_among(center, tiles, can_throw, tiles.len());
        let keys = agents_at_offsets(m, center, offsets, offsets.len());
        assert(tiles.take(tiles.len() as int) =~= tiles);
        assert(keys.take(keys.len() as int) =~= keys);
        assert(AgentKey(key.0) == key);
        lemma_covered_among(center, tiles, can_throw, tiles.len(), offset);
        lemma_agents_at_offsets(m, center, offsets, offsets.len(), key);
        lemma_passing_among(m, keys, filter, keys.len(), key);
        law_an_offset_moves_by_what_it_says(center, offset.0 as int, offset.1 as int);
        if keys.contains(key) {
            let i = choose|i: int|
                0 <= i < offsets.len() && stands_at(m, center, #[trigger] offsets[i], key);
            let found = offsets[i];
            assert(offsets.contains(found));
            lemma_covered_among(center, tiles, can_throw, tiles.len(), found);
            law_an_offset_moves_by_what_it_says(center, found.0 as int, found.1 as int);
            let pos = center.offset_by(found.0 as int, found.1 as int).unwrap();
            let k = m.tiles[pos].agents.index_of(key);
            assert(m.tiles[pos].agents[k] == key);
            assert(at == pos);
            let j = tiles.index_of(found);
            assert(tiles[j].0 == at.x - center.x && tiles[j].1 == at.y - center.y);
        }
        if tiles.contains(offset) && at.x == center.x + offset.0 && at.y == center.y + offset.1
            && at.z == center.z && can_throw.ensures((center, at), true) {
            assert(center.offset_by(offset.0 as int, offset.1 as int) == Some(at));
            assert(offsets.contains(offset));
            let i = offsets.index_of(offset);
            assert(stands_at(m, center, offsets[i], key));
        }
    }
}

/// A spell may be cast just by a player who is of the level and the vocation for it, has the mana,
/// and has waited long enough since casting it and since casting from its group. Of what forbids a
/// cast the player is told the first: that there is no such spell, that it is not for them, that
/// they lack the mana, that they have to wait.
pub proof fn law_a_cast_needs_all_that_it_asks(a: AgentView, spell: Spell, now: Tick)
    requires
        a.body is Player,
    ensures
        ({
            let player = a.body->Player_0;
            let able = spell.level <= level_of(player.skills) && (exists|i: int|
                0 <= i < spell.vocations@.len() && #[trigger] spell.vocations@[i]
                    == player.vocation);
            let waited = (a.group_ticks.contains_key(spell.group.id())
                ==> a.group_ticks[spell.group.id()].0 <= now.0) && (a.spell_ticks.contains_key(
                spell.id.0,
            ) ==> a.spell_ticks[spell.id.0].0 <= now.0);
            &&& cast_refusal(a, None, now) == Some(SpellCastingDenyReason::IdNotFound)
            &&& cast_refusal(a, Some(spell), now) is None <==> able && spell.mana
                <= a.mana.current && waited
            &&& cast_refusal(a, Some(spell), now) == Some(SpellCastingDenyReason::RequirementFailed)
                <==> !able
            &&& cast_refusal(a, Some(spell), now) == Some(SpellCastingDenyReason::NoMana) <==> able
                && a.mana.current < spell.mana
            &&& cast_refusal(a, Some(spell), now) == Some(SpellCastingDenyReason::StillInCooldown)
                <==> able && spell.mana <= a.mana.current && !waited
        }),
{
}

/// A cast that was done costs its caster just the spell's mana, makes the spell and its group wait,
/// and counts as a blow where it was an attack; its caster's client is told of the mana. One whose
/// effect failed costs nothing, and of all that was reported and booked for it only the denial
/// stays, with the reason for which it failed.
pub proof fn law_a_cast_is_settled_by_its_outcome(
    w: TickView,
    key: AgentKey,
    spell: Spell,
    casting: Casting,
    reason: SpellCastingDenyReason,
    config: GameConfig,
)
    requires
        agent_of(w, key) matches Some(a) && spell.mana <= a.mana.current <= a.mana.maximum,
        marks(w, casting.mark),
        pauses_in_time(spell, w.tick, config),
    ensures
        ({
            let later = cast_settled(w, key, spell, casting, Ok(()), config);
            let before = agent_of(w, key).unwrap();
            &&& agent_of(later, key) matches Some(after) && {
                &&& after.mana.current == before.mana.current - spell.mana
                &&& after.life == before.life
                &&& spell_ready(after, spell.id).0 == w.tick.0 + spell.cooldown.0
                &&& group_ready(after, spell.group).0 == w.tick.0 + group_pause(
                    spell.group,
                    spell.group_cooldown,
                    config,
                )
                &&& after.next_auto_attack_tick.0 == (if spell.group is Attack {
                    (w.tick.0 + config.combat.auto_attack_ticks.0) as u64
                } else {
                    before.next_auto_attack_tick.0
                })
            }
            &&& later.events == w.events.push(EventView::PlayerManaUpdated { agent_key: key })
            &&& later.scheduled == w.scheduled
            &&& later.world.map.positions == w.world.map.positions
        }),
        ({
            let later = cast_settled(w, key, spell, casting, Err(reason), config);
            &&& later.world == w.world
            &&& later.events == w.events.take(casting.mark.events as int).push(
                EventView::SpellDenied {
                    agent_key: key,
                    position: casting.position,
                    reason,
                    delivery: spell.delivery,
                },
            )
            &&& later.scheduled == w.scheduled.take(casting.mark.scheduled as int)
        }),
{
}

/// An attack that leaps leaps on from where the first it hits stands, once its delay is over, and
/// not back to that one. One that hits nobody, or nobody on the map, does not leap.
pub proof fn law_an_attack_leaps_from_the_first_it_hits(
    w: TickView,
    key: AgentKey,
    attack: SpellAttack,
    first: Option<(AgentKey, CombatDamage)>,
)
    requires
        attack.chain matches Some(chain) ==> w.tick.0 + chain.delay_ticks.0 <= u64::MAX,
    ensures
        ({
            let later = chain_booked(w, key, attack, first);
            let leaps = attack.chain is Some && first is Some && w.world.map.positions.contains_key(
                first.unwrap().0.0,
            );
            &&& later.world == w.world && later.events == w.events
            &&& !leaps ==> later.scheduled == w.scheduled
            &&& leaps ==> {
                let (target, damage) = first.unwrap();
                let chain = attack.chain.unwrap();
                &&& later.scheduled.len() == w.scheduled.len() + 1
                &&& forall|i: int|
                    0 <= i < w.scheduled.len() ==> #[trigger] later.scheduled[i] == w.scheduled[i]
                &&& later.scheduled.last().at_tick.0 == w.tick.0 + chain.delay_ticks.0
                &&& later.scheduled.last().command matches CommandView::ChainAttack {
                    attacker,
                    sources,
                    chain: next,
                    targeted,
                } && attacker == key && next == chain && targeted.len() == 1 && targeted[0]
                    == target && sources.len() == 1 && sources[0].0
                    == w.world.map.positions[target.0] && sources[0].1 == damage
            }
        }),
{
}

/// After a leap the next one goes on from just the tiles where this one hit, each with what it hit
/// with, to nobody who was hit; and where there is no next leap the attack is over.
pub proof fn law_a_leap_goes_on_from_where_it_hit(
    w: TickView,
    attacker: AgentKey,
    chain: ChainAttack,
    hits: Seq<(AgentKey, CombatDamage)>,
    positions: Seq<Position>,
    targeted: Seq<AgentKey>,
    i: int,
)
    requires
        hits.len() == positions.len(),
        chain.chain matches Some(next) ==> w.tick.0 + next.delay_ticks.0 <= u64::MAX,
        0 <= i < hits.len(),
    ensures
        ({
            let later = chain_followed(w, attacker, chain, hits, positions, targeted);
            &&& later.world == w.world
            &&& match chain.chain {
                None => later.scheduled == w.scheduled,
                Some(next) => {
                    &&& later.scheduled.len() == w.scheduled.len() + 1
                    &&& later.scheduled.last().at_tick.0 == w.tick.0 + next.delay_ticks.0
                    &&& later.scheduled.last().command matches CommandView::ChainAttack {
                        attacker: by,
                        sources,
                        chain: on,
                        targeted: hit,
                    } && by == attacker && on == *next && hit == targeted && sources.len()
                        == hits.len() && sources[i].0 == positions[i] && sources[i].1 == hits[i].1
                },
            }
            &&& match chain.effect_id {
                None => later.events == w.events,
                Some(effect_id) => {
                    &&& later.events.len() == w.events.len() + positions.len()
                    &&& later.events[w.events.len() + i] matches EventView::AreaEffectAppeared {
                        area_effect,
                    } && area_effect.effect_id == effect_id && area_effect.origin == positions[i]
                },
            }
        }),
{
    if let Some(effect_id) = chain.effect_id {
        lemma_effects_shown(w.events, effect_id, positions, positions.len(), i);
    }
}

proof fn lemma_effects_shown(
    events: Seq<EventView>,
    effect_id: EffectId,
    positions: Seq<Position>,
    n: nat,
    i: int,
)
    requires
        n <= positions.len(),
    ensures
        effects_shown(events, effect_id, positions, n).len() == events.len() + n,
        0 <= i < n ==> (effects_shown(events, effect_id, positions, n)[events.len() + i] matches EventView::AreaEffectAppeared {
            area_effect,
        } && area_effect.effect_id == effect_id && area_effect.origin == positions[i]),
    decreases n,
{
    if n > 0 {
        lemma_effects_shown(events, effect_id, positions, (n - 1) as nat, i);
    }
}

/// Mana that is spent is gone from the pool, as far as there was some; clients are told of it, and
/// of the status just where a shield went with the last of it.
pub proof fn law_spent_mana_is_gone(w: TickView, key: AgentKey, amount: u32, flag: AgentFlag)
    requires
        agent_of(w, key) is Some,
    ensures
        ({
            let before = agent_of(w, key).unwrap();
            let later = mana_consumed(w, key, amount);
            &&& agent_of(later, key) matches Some(after) && after.mana.maximum
                == before.mana.maximum && after.life == before.life && (amount
                <= before.mana.current ==> after.mana.current + amount == before.mana.current) && (
            amount > before.mana.current ==> after.mana.current == 0) && (flagged(
                dirt_of(later.world.delta, key),
                flag,
            ) <==> flagged(dirt_of(w.world.delta, key), flag) || flag is Mana || (flag is Status
                && status_of(after.conditions) != status_of(before.conditions)))
            &&& later.events == w.events.push(EventView::PlayerManaUpdated { agent_key: key })
            &&& later.scheduled == w.scheduled
        }),
{
    law_marks_are_independent(
        dirt_of(w.world.delta, key),
        AgentFlag::Mana,
        flag,
        SkillType::Level,
    );
    law_marks_are_independent(
        dirt_of(agent_marked(w.world.delta, key, AgentFlag::Mana), key),
        AgentFlag::Status,
        flag,
        SkillType::Level,
    );
}

/// An attack that is cast counts as a blow; a spell of another group does not.
pub proof fn law_a_cast_attack_counts_as_a_blow(
    a: AgentView,
    spell: Spell,
    now: Tick,
    config: GameConfig,
)
    requires
        now.0 + config.combat.auto_attack_ticks.0 <= u64::MAX,
    ensures
        spell.group is Attack ==> cast_stamped(a, spell, now, config).next_auto_attack_tick.0
            == now.0 + config.combat.auto_attack_ticks.0,
        !(spell.group is Attack) ==> cast_stamped(a, spell, now, config).next_auto_attack_tick
            == a.next_auto_attack_tick,
{
}

/// Each leap hits whom it leaps to, with the same damage, and is seen to fly from the tile it
/// leaps from to the tile where it hits. Whoever is hit counts as hit from then on.
pub proof fn law_a_leap_flies_from_where_it_starts(
    before: Leaps,
    from: Position,
    leaps: Seq<(AgentKey, Position)>,
    damage: CombatDamage,
    chain: ChainAttack,
    n: nat,
    i: int,
)
    requires
        0 <= i < n <= leaps.len(),
    ensures
        ({
            let after = leapt(before, from, leaps, damage, chain, n);
            &&& after.hits.len() == before.hits.len() + n
            &&& after.positions.len() == before.positions.len() + n
            &&& after.targeted.len() == before.targeted.len() + n
            &&& after.events.len() == before.events.len() + n
            &&& after.hits[before.hits.len() + i] == (leaps[i].0, damage)
            &&& after.positions[before.positions.len() + i] == leaps[i].1
            &&& after.targeted[before.targeted.len() + i] == leaps[i].0
            &&& after.events[before.events.len() + i] matches EventView::MissileLaunched { missile }
                && missile.from == from && missile.to == leaps[i].1 && missile.missile_id
                == chain.missile_id
        }),
    decreases n,
{
    if n > 1 {
        law_a_leap_flies_from_where_it_starts(
            before,
            from,
            leaps,
            damage,
            chain,
            (n - 1) as nat,
            if i < n - 1 {
                i
            } else {
                0
            },
        );
    } else {
        assert(leapt(before, from, leaps, damage, chain, 0) == before);
    }
}

/// A player can tell from what it is told why it may not cast: no two reasons read the same.
pub proof fn law_refusals_read_differently(a: SpellCastingDenyReason, b: SpellCastingDenyReason)
    requires
        !(a is InvalidState),
        !(b is InvalidState),
        a.text() == b.text(),
    ensures
        a == b,
{
    reveal_strlit("Invalid spell");
    reveal_strlit("Not enough mana");
    reveal_strlit("You can't cast that spell");
    reveal_strlit("No target");
    reveal_strlit("Target out of reach");
    reveal_strlit("You're exausted");
    reveal_strlit("You need a weapon");
    assert("Invalid spell"@.len() == 13);
    assert("Not enough mana"@.len() == 15);
    assert("You can't cast that spell"@.len() == 25);
    assert("No target"@.len() == 9);
    assert("Target out of reach"@.len() == 19);
    assert("You're exausted"@.len() == 15);
    assert("You need a weapon"@.len() == 17);
    assert("Not enough mana"@[0] == 'N');
    assert("You're exausted"@[0] == 'Y');
    assert(a.text().len() == b.text().len());
    assert(a.text()[0] == b.text()[0]);
}

} // verus!
