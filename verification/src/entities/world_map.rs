//! The map together with a record of what has changed on it. Whoever writes through it need not
//! think of the record: every write that clients are told of marks what it changed.

use crate::entities::agent::{
    drained, group_pause, group_stamped, speed_of_agent, spell_stamped, Agent, AgentBody, AgentKey,
    AgentView, BodyView, Facing,
};
use crate::entities::arena::is_key;
use crate::entities::combat::CombatElement;
use crate::entities::conditions::{
    after_hit, condition_of, generation_of, hit_of, law_conditions_do_not_disturb_each_other, left,
    lemma_with, one_of_each, sound, status_of, under, until_of, with, without, Condition,
    ConditionKind, Conditions, DamageHit, DamageOverTime, SpeedEffect, TimedCondition,
};
use crate::entities::inventory::InventorySlot;
use crate::entities::item::{
    can_place, found, moved_onto, removes, Item, ItemView, RemovedItem,
};
use crate::entities::items::{site_of, ItemGuid, ItemPlacement, PlacementSite};
use crate::entities::map::{
    departed, is_player, joined, placed_on, relocated, stacked_at, tile_left, with_agent,
    with_tile, GameMap, MapError, MapTile, MapView, TileView,
};
use crate::entities::player::{
    lemma_slot_in, skill_in, slot_in, Inventory, InventoryView, Player, PlayerView, SkillValue,
};
use crate::entities::position::Position;
use crate::entities::skills::SkillType;
use crate::entities::spells::{Spell, SpellGroup};
use crate::entities::stacking::{
    heightened, law_stacking_takes_what_there_is, lemma_topped_within, lessened, stackable, top_up_within, topped_within,
};
use crate::entities::world_delta::{
    agent_marked, container_marked, dirt_of, flagged, law_marks_are_independent, skill_marked,
    slot_marked, tile_marked, unchanged, AgentFlag, DeltaView, WorldDelta,
};
use crate::game::config::GameConfig;
use crate::game::item_action::ItemMovementError;
use crate::game::tick::{Tick, TickDelta};
use vstd::prelude::*;

verus! {

/// What a change of an agent's conditions marks: its status and its speed, where they changed.
pub open spec fn noted(d: DeltaView, key: AgentKey, before: AgentView, after: AgentView) -> DeltaView {
    let status = if status_of(after.conditions) != status_of(before.conditions) {
        agent_marked(d, key, AgentFlag::Status)
    } else {
        d
    };
    if speed_of_agent(after) != speed_of_agent(before) {
        agent_marked(status, key, AgentFlag::Speed)
    } else {
        status
    }
}

/// The agent cannot strike again until its pause from `tick` on is over.
pub open spec fn auto_attack_stamped(a: AgentView, tick: Tick, config: GameConfig) -> AgentView {
    AgentView {
        next_auto_attack_tick: Tick((tick.0 + config.combat.auto_attack_ticks.0) as u64),
        ..a
    }
}

/// The agent after a meal, and the generation of it.
pub open spec fn fed_more(a: AgentView, now: Tick, delta: TickDelta) -> (AgentView, u32) {
    match condition_of(a.conditions, ConditionKind::Fed) {
        Some(Condition::Fed { until, generation }) if until.0 > now.0 => (
            AgentView {
                conditions: with(
                    a.conditions,
                    Condition::Fed { until: Tick((until.0 + delta.0) as u64), generation },
                ),
                ..a
            },
            generation,
        ),
        _ => (
            AgentView {
                conditions: without(a.conditions, ConditionKind::Fed).push(
                    Condition::Fed {
                        until: Tick((now.0 + delta.0) as u64),
                        generation: a.next_generation,
                    },
                ),
                next_generation: (a.next_generation + 1) as u32,
                ..a
            },
            a.next_generation,
        ),
    }
}

/// The conditions with a shield until a tick, or with the one there was where it lasts longer.
pub open spec fn shielded(s: Seq<Condition>, until: Tick) -> Seq<Condition> {
    with(
        s,
        Condition::MagicShield {
            until: match until_of(condition_of(s, ConditionKind::MagicShield)) {
                Some(existing) => if existing.0 >= until.0 {
                    existing
                } else {
                    until
                },
                None => until,
            },
        },
    )
}

/// The agent after it was wounded, and the generation of the wound, where it took.
pub open spec fn wounded(a: AgentView, incoming: DamageOverTime) -> (AgentView, Option<u32>) {
    let kept = match condition_of(a.conditions, ConditionKind::Damage(incoming.element)) {
        Some(Condition::DamageOverTime(current)) => left(incoming.schedule) <= left(
            current.schedule,
        ),
        _ => false,
    };
    if kept {
        (a, None)
    } else {
        (
            AgentView {
                conditions: with(
                    a.conditions,
                    Condition::DamageOverTime(
                        DamageOverTime { generation: a.next_generation, ..incoming },
                    ),
                ),
                next_generation: (a.next_generation + 1) as u32,
                ..a
            },
            Some(a.next_generation),
        )
    }
}

/// The agent after the next hit of a wound, and the hit, where the wound is still there.
pub open spec fn struck(a: AgentView, element: CombatElement, generation: u32) -> (
    AgentView,
    Option<DamageHit>,
) {
    match condition_of(a.conditions, ConditionKind::Damage(element)) {
        Some(Condition::DamageOverTime(dot)) => match hit_of(dot.schedule) {
            Some(value) => if dot.generation == generation {
                let later = DamageOverTime { schedule: after_hit(dot.schedule), ..dot };
                let exhausted = left(later.schedule) == 0;
                (
                    AgentView {
                        conditions: if exhausted {
                            without(a.conditions, ConditionKind::Damage(element))
                        } else {
                            with(a.conditions, Condition::DamageOverTime(later))
                        },
                        ..a
                    },
                    Some(
                        DamageHit {
                            value,
                            source: dot.source,
                            interval: dot.interval,
                            exhausted,
                        },
                    ),
                )
            } else {
                (a, None)
            },
            None => (a, None),
        },
        _ => (a, None),
    }
}

/// An agent that is being written to.
pub struct AgentMut<'a> {
    pub agent: &'a mut Agent,
    pub key: AgentKey,
    pub delta: &'a mut WorldDelta,
}

impl<'a> AgentMut<'a> {
    fn mark(&mut self, flag: AgentFlag)
        requires
            old(self).delta.wf(),
        ensures
            final(self).delta.wf(),
            final(self).key == old(self).key,
            *final(final(self).agent) == *final(old(self).agent),
            *final(final(self).delta) == *final(old(self).delta),
            *final(self).agent == *old(self).agent,
            final(self).delta@ == agent_marked(old(self).delta@, old(self).key, flag),
    {
        self.delta.mark_agent(self.key, flag);
    }

    /// Marks the status and the speed, where they are no longer what they were.
    fn note(&mut self, status: u32, speed: u16)
        requires
            old(self).agent.wf(),
            old(self).delta.wf(),
        ensures
            final(self).delta.wf(),
            final(self).key == old(self).key,
            *final(final(self).agent) == *final(old(self).agent),
            *final(final(self).delta) == *final(old(self).delta),
            *final(self).agent == *old(self).agent,
            final(self).delta@ == ({
                let a = old(self).agent@;
                let d = old(self).delta@;
                let marked = if status_of(a.conditions) != status {
                    agent_marked(d, old(self).key, AgentFlag::Status)
                } else {
                    d
                };
                if speed_of_agent(a) != speed {
                    agent_marked(marked, old(self).key, AgentFlag::Speed)
                } else {
                    marked
                }
            }),
    {
        if self.agent.conditions.status() != status {
            self.mark(AgentFlag::Status);
        }
        if self.agent.speed() != speed {
            self.mark(AgentFlag::Speed);
        }
    }

    /// Takes life away.
    pub fn remove_life(&mut self, amount: u32)
        requires
            old(self).agent.wf(),
            old(self).delta.wf(),
        ensures
            final(self).agent.wf(),
            final(self).delta.wf(),
            final(self).key == old(self).key,
            *final(final(self).agent) == *final(old(self).agent),
            *final(final(self).delta) == *final(old(self).delta),
            final(self).agent@ == (AgentView { life: old(self).agent@.life.less(amount), ..old(self).agent@ }),
            final(self).delta@ == agent_marked(old(self).delta@, old(self).key, AgentFlag::Life),
    {
        self.agent.remove_life(amount);
        self.mark(AgentFlag::Life);
    }

    /// Gives life back.
    pub fn restore_life(&mut self, amount: u32)
        requires
            old(self).agent.wf(),
            old(self).delta.wf(),
        ensures
            final(self).agent.wf(),
            final(self).delta.wf(),
            final(self).key == old(self).key,
            *final(final(self).agent) == *final(old(self).agent),
            *final(final(self).delta) == *final(old(self).delta),
            final(self).agent@ == (AgentView { life: old(self).agent@.life.more(amount), ..old(self).agent@ }),
            final(self).delta@ == agent_marked(old(self).delta@, old(self).key, AgentFlag::Life),
    {
        self.agent.restore_life(amount);
        self.mark(AgentFlag::Life);
    }

    /// Changes how much life there can be.
    pub fn change_max_life(&mut self, amount: i32)
        requires
            old(self).agent.wf(),
            old(self).delta.wf(),
        ensures
            final(self).agent.wf(),
            final(self).delta.wf(),
            final(self).key == old(self).key,
            *final(final(self).agent) == *final(old(self).agent),
            *final(final(self).delta) == *final(old(self).delta),
            final(self).agent@ == (AgentView { life: old(self).agent@.life.resized(amount), ..old(self).agent@ }),
            final(self).delta@ == agent_marked(old(self).delta@, old(self).key, AgentFlag::Life),
    {
        self.agent.change_max_life(amount);
        self.mark(AgentFlag::Life);
    }

    /// Gives mana back.
    pub fn restore_mana(&mut self, amount: u32)
        requires
            old(self).agent.wf(),
            old(self).delta.wf(),
        ensures
            final(self).agent.wf(),
            final(self).delta.wf(),
            final(self).key == old(self).key,
            *final(final(self).agent) == *final(old(self).agent),
            *final(final(self).delta) == *final(old(self).delta),
            final(self).agent@ == (AgentView { mana: old(self).agent@.mana.more(amount), ..old(self).agent@ }),
            final(self).delta@ == agent_marked(old(self).delta@, old(self).key, AgentFlag::Mana),
    {
        self.agent.restore_mana(amount);
        self.mark(AgentFlag::Mana);
    }

    /// Changes how much mana there can be.
    pub fn change_max_mana(&mut self, amount: i32)
        requires
            old(self).agent.wf(),
            old(self).delta.wf(),
        ensures
            final(self).agent.wf(),
            final(self).delta.wf(),
            final(self).key == old(self).key,
            *final(final(self).agent) == *final(old(self).agent),
            *final(final(self).delta) == *final(old(self).delta),
            final(self).agent@ == (AgentView { mana: old(self).agent@.mana.resized(amount), ..old(self).agent@ }),
            final(self).delta@ == agent_marked(old(self).delta@, old(self).key, AgentFlag::Mana),
    {
        self.agent.change_max_mana(amount);
        self.mark(AgentFlag::Mana);
    }

    /// Changes the speed that everything else adds to.
    pub fn set_base_speed(&mut self, speed: u16)
        requires
            old(self).agent.wf(),
            old(self).delta.wf(),
        ensures
            final(self).agent.wf(),
            final(self).delta.wf(),
            final(self).key == old(self).key,
            *final(final(self).agent) == *final(old(self).agent),
            *final(final(self).delta) == *final(old(self).delta),
            final(self).agent@ == (AgentView { base_speed: speed, ..old(self).agent@ }),
            final(self).delta@ == agent_marked(old(self).delta@, old(self).key, AgentFlag::Speed),
    {
        self.agent.base_speed = speed;
        self.mark(AgentFlag::Speed);
    }

    /// Takes mana away. With the last of it goes the shield that it fed, and clients are told of that too.
    pub fn remove_mana(&mut self, amount: u32)
        requires
            old(self).agent.wf(),
            old(self).delta.wf(),
        ensures
            final(self).agent.wf(),
            final(self).delta.wf(),
            final(self).key == old(self).key,
            *final(final(self).agent) == *final(old(self).agent),
            *final(final(self).delta) == *final(old(self).delta),
            final(self).agent@ == drained(old(self).agent@, amount),
            final(self).delta@ == ({
                let marked = agent_marked(old(self).delta@, old(self).key, AgentFlag::Mana);
                if status_of(drained(old(self).agent@, amount).conditions) != status_of(old(self).agent@.conditions) {
                    agent_marked(marked, old(self).key, AgentFlag::Status)
                } else {
                    marked
                }
            }),
    {
        let status: u32 = self.agent.conditions.status();
        self.agent.remove_mana(amount);
        self.mark(AgentFlag::Mana);
        if self.agent.conditions.status() != status {
            self.mark(AgentFlag::Status);
        }
    }

    /// Turns the agent. Facing the way it already faces is no change.
    pub fn set_facing(&mut self, facing: Facing)
        requires
            old(self).agent.wf(),
            old(self).delta.wf(),
        ensures
            final(self).agent.wf(),
            final(self).delta.wf(),
            final(self).key == old(self).key,
            *final(final(self).agent) == *final(old(self).agent),
            *final(final(self).delta) == *final(old(self).delta),
            final(self).agent@ == (AgentView { facing, ..old(self).agent@ }),
            final(self).delta@ == (if old(self).agent@.facing != facing {
                agent_marked(old(self).delta@, old(self).key, AgentFlag::Facing)
            } else {
                old(self).delta@
            }),
    {
        if self.agent.facing != facing {
            self.agent.facing = facing;
            self.mark(AgentFlag::Facing);
        }
    }

    /// Keeps the agent from walking until a tick.
    pub fn stamp_walk(&mut self, until: Tick)
        requires
            old(self).agent.wf(),
            old(self).delta.wf(),
        ensures
            final(self).agent.wf(),
            final(self).delta.wf(),
            final(self).key == old(self).key,
            *final(final(self).agent) == *final(old(self).agent),
            *final(final(self).delta) == *final(old(self).delta),
            final(self).agent@ == (AgentView { next_walk_tick: until, ..old(self).agent@ }),
            final(self).delta@ == old(self).delta@,
    {
        self.agent.next_walk_tick = until;
    }

    /// Keeps the agent from using an item until a tick.
    pub fn stamp_use(&mut self, until: Tick)
        requires
            old(self).agent.wf(),
            old(self).delta.wf(),
        ensures
            final(self).agent.wf(),
            final(self).delta.wf(),
            final(self).key == old(self).key,
            *final(final(self).agent) == *final(old(self).agent),
            *final(final(self).delta) == *final(old(self).delta),
            final(self).agent@ == (AgentView { next_use_tick: until, ..old(self).agent@ }),
            final(self).delta@ == old(self).delta@,
    {
        self.agent.next_use_tick = until;
    }

    /// Keeps the agent from striking again until its pause from a tick on is over.
    pub fn stamp_auto_attack(&mut self, tick: Tick, config: &GameConfig)
        requires
            old(self).agent.wf(),
            old(self).delta.wf(),
            tick.0 + config.combat.auto_attack_ticks.0 <= u64::MAX,
        ensures
            final(self).agent.wf(),
            final(self).delta.wf(),
            final(self).key == old(self).key,
            *final(final(self).agent) == *final(old(self).agent),
            *final(final(self).delta) == *final(old(self).delta),
            final(self).agent@ == auto_attack_stamped(old(self).agent@, tick, *config),
            final(self).delta@ == old(self).delta@,
    {
        self.agent.next_auto_attack_tick = tick.plus(config.combat.auto_attack_ticks);
    }

    /// Makes the agent fight another, by the request of this number.
    pub fn set_target(&mut self, target: Option<AgentKey>, seq: u32)
        requires
            old(self).agent.wf(),
            old(self).delta.wf(),
        ensures
            final(self).agent.wf(),
            final(self).delta.wf(),
            final(self).key == old(self).key,
            *final(final(self).agent) == *final(old(self).agent),
            *final(final(self).delta) == *final(old(self).delta),
            final(self).agent@ == (AgentView { target, target_seq: seq, ..old(self).agent@ }),
            final(self).delta@ == old(self).delta@,
    {
        self.agent.target = target;
        self.agent.target_seq = seq;
    }

    /// Notes who has hurt the agent by how much.
    pub fn record_damage(&mut self, attacker: AgentKey, damage: u32)
        requires
            old(self).agent.wf(),
            old(self).delta.wf(),
        ensures
            final(self).agent.wf(),
            final(self).delta.wf(),
            final(self).key == old(self).key,
            *final(final(self).agent) == *final(old(self).agent),
            *final(final(self).delta) == *final(old(self).delta),
            final(self).agent@ == (AgentView { wounds: old(self).agent@.wounds.push((attacker, damage)), ..old(self).agent@ }),
            final(self).delta@ == old(self).delta@,
    {
        self.agent.wounds.push((attacker, damage));
    }

    /// Makes a spell and its group wait from a tick on.
    pub fn stamp_spell(&mut self, tick: Tick, spell: &Spell, config: &GameConfig)
        requires
            old(self).agent.wf(),
            old(self).delta.wf(),
            tick.0 + spell.cooldown.0 <= u64::MAX,
            tick.0 + group_pause(spell.group, spell.group_cooldown, *config) <= u64::MAX,
        ensures
            final(self).agent.wf(),
            final(self).delta.wf(),
            final(self).key == old(self).key,
            *final(final(self).agent) == *final(old(self).agent),
            *final(final(self).delta) == *final(old(self).delta),
            final(self).agent@ == spell_stamped(old(self).agent@, tick, *spell, *config),
            final(self).delta@ == old(self).delta@,
    {
        self.agent.stamp_spell(tick, spell, config);
    }

    /// Makes a group wait from a tick on.
    pub fn stamp_spell_group(&mut self, tick: Tick, group: SpellGroup, cooldown: Option<TickDelta>, config: &GameConfig)
        requires
            old(self).agent.wf(),
            old(self).delta.wf(),
            tick.0 + group_pause(group, cooldown, *config) <= u64::MAX,
        ensures
            final(self).agent.wf(),
            final(self).delta.wf(),
            final(self).key == old(self).key,
            *final(final(self).agent) == *final(old(self).agent),
            *final(final(self).delta) == *final(old(self).delta),
            final(self).agent@ == group_stamped(old(self).agent@, tick, group, cooldown, *config),
            final(self).delta@ == old(self).delta@,
    {
        self.agent.stamp_spell_group(tick, group, cooldown, config);
    }

    /// Changes the agent's conditions by way of `change`, and marks the status and the speed where
    /// they are no longer what they were.
    pub fn conditions<R, F: FnOnce(&mut Conditions) -> R>(&mut self, change: F) -> (r: R)
        requires
            old(self).agent.wf(),
            old(self).delta.wf(),
            forall|c: &mut Conditions| c.wf() ==> #[trigger] change.requires((c,)),
            forall|c: &mut Conditions, r: R|
                c.wf() && #[trigger] change.ensures((c,), r) ==> final(c).wf(),
        ensures
            final(self).agent.wf(),
            final(self).delta.wf(),
            final(self).key == old(self).key,
            *final(final(self).agent) == *final(old(self).agent),
            *final(final(self).delta) == *final(old(self).delta),
            exists|c: &mut Conditions|
                {
                    &&& *c == old(self).agent.conditions
                    &&& *final(self).agent == (Agent {
                        conditions: *final(c),
                        ..*old(self).agent
                    })
                    &&& #[trigger] change.ensures((c,), r)
                },
            final(self).delta@ == noted(
                old(self).delta@,
                old(self).key,
                old(self).agent@,
                final(self).agent@,
            ),
    {
        let status: u32 = self.agent.conditions.status();
        let speed: u16 = self.agent.speed();
        let r = change(&mut self.agent.conditions);
        self.note(status, speed);
        r
    }

    /// The agent is no longer fed.
    pub fn remove_fed(&mut self)
        requires
            old(self).agent.wf(),
            old(self).delta.wf(),
        ensures
            final(self).agent.wf(),
            final(self).delta.wf(),
            final(self).key == old(self).key,
            *final(final(self).agent) == *final(old(self).agent),
            *final(final(self).delta) == *final(old(self).delta),
            final(self).agent@ == (AgentView {
                conditions: without(old(self).agent.conditions@, ConditionKind::Fed),
                next_generation: old(self).agent@.next_generation,
                ..old(self).agent@
            }),
            final(self).delta@ == noted(old(self).delta@, old(self).key, old(self).agent@, final(self).agent@),
    {
        let status: u32 = self.agent.conditions.status();
        let speed: u16 = self.agent.speed();
        self.agent.conditions.remove_fed();
        self.note(status, speed);
    }

    /// Feeds the agent, and says of which generation its meal is.
    pub fn add_fed_ticks(&mut self, current_tick: Tick, delta: TickDelta) -> (generation: u32)
        requires
            old(self).agent.wf(),
            old(self).delta.wf(),
            old(self).agent.conditions.next() < u32::MAX,
            current_tick.0 + delta.0 <= u64::MAX,
            until_of(condition_of(old(self).agent.conditions@, ConditionKind::Fed)) matches Some(until) ==> until.0
                + delta.0 <= u64::MAX,
        ensures
            final(self).agent.wf(),
            final(self).delta.wf(),
            final(self).key == old(self).key,
            *final(final(self).agent) == *final(old(self).agent),
            *final(final(self).delta) == *final(old(self).delta),
            final(self).agent@ == fed_more(old(self).agent@, current_tick, delta).0,
            generation == fed_more(old(self).agent@, current_tick, delta).1,
            final(self).delta@ == noted(old(self).delta@, old(self).key, old(self).agent@, final(self).agent@),
    {
        let status: u32 = self.agent.conditions.status();
        let speed: u16 = self.agent.speed();
        let generation: u32 = self.agent.conditions.add_fed_ticks(current_tick, delta);
        self.note(status, speed);
        generation
    }

    /// Keeps the agent from logging out for a while, and says whether it was free to until now.
    pub fn reset_logout_block(&mut self, current_tick: Tick, config: &GameConfig) -> (created: bool)
        requires
            old(self).agent.wf(),
            old(self).delta.wf(),
            current_tick.0 + config.logout_block_ticks.0 <= u64::MAX,
        ensures
            final(self).agent.wf(),
            final(self).delta.wf(),
            final(self).key == old(self).key,
            *final(final(self).agent) == *final(old(self).agent),
            *final(final(self).delta) == *final(old(self).delta),
            created == !under(old(self).agent.conditions@, ConditionKind::LogoutBlock),
            final(self).agent@ == (AgentView {
                conditions: with(
                    old(self).agent.conditions@,
                    Condition::LogoutBlock {
                        until: Tick((current_tick.0 + config.logout_block_ticks.0) as u64),
                    },
                ),
                next_generation: old(self).agent@.next_generation,
                ..old(self).agent@
            }),
            final(self).delta@ == noted(old(self).delta@, old(self).key, old(self).agent@, final(self).agent@),
    {
        let status: u32 = self.agent.conditions.status();
        let speed: u16 = self.agent.speed();
        let created: bool = self.agent.conditions.reset_logout_block(current_tick, config);
        self.note(status, speed);
        created
    }

    /// Changes the agent's speed, in place of any change before.
    pub fn apply_speed(&mut self, effect: SpeedEffect, change: i16) -> (generation: u32)
        requires
            old(self).agent.wf(),
            old(self).delta.wf(),
            old(self).agent.conditions.next() < u32::MAX,
        ensures
            final(self).agent.wf(),
            final(self).delta.wf(),
            final(self).key == old(self).key,
            *final(final(self).agent) == *final(old(self).agent),
            *final(final(self).delta) == *final(old(self).delta),
            generation == old(self).agent@.next_generation,
            final(self).agent@ == (AgentView {
                conditions: without(old(self).agent.conditions@, ConditionKind::Speed).push(
                    Condition::Speed { effect, change, generation },
                ),
                next_generation: (old(self).agent@.next_generation + 1) as u32,
                ..old(self).agent@
            }),
            final(self).delta@ == noted(old(self).delta@, old(self).key, old(self).agent@, final(self).agent@),
    {
        let status: u32 = self.agent.conditions.status();
        let speed: u16 = self.agent.speed();
        let generation: u32 = self.agent.conditions.apply_speed(effect, change);
        self.note(status, speed);
        generation
    }

    /// Ends the change of speed of this generation, and says whether it was still there.
    pub fn expire_speed(&mut self, generation: u32) -> (r: bool)
        requires
            old(self).agent.wf(),
            old(self).delta.wf(),
        ensures
            final(self).agent.wf(),
            final(self).delta.wf(),
            final(self).key == old(self).key,
            *final(final(self).agent) == *final(old(self).agent),
            *final(final(self).delta) == *final(old(self).delta),
            r == (condition_of(old(self).agent.conditions@, ConditionKind::Speed) matches Some(c) && generation_of(c)
                == Some(generation)),
            final(self).agent@ == (AgentView {
                conditions: (if r {
                    without(old(self).agent.conditions@, ConditionKind::Speed)
                } else {
                    old(self).agent.conditions@
                }),
                next_generation: old(self).agent@.next_generation,
                ..old(self).agent@
            }),
            final(self).delta@ == noted(old(self).delta@, old(self).key, old(self).agent@, final(self).agent@),
    {
        let status: u32 = self.agent.conditions.status();
        let speed: u16 = self.agent.speed();
        let r: bool = self.agent.conditions.expire_speed(generation);
        self.note(status, speed);
        r
    }

    /// Shields the agent until a tick, or leaves it with a shield that lasts longer.
    pub fn extend_magic_shield(&mut self, until: Tick) -> (created: bool)
        requires
            old(self).agent.wf(),
            old(self).delta.wf(),
        ensures
            final(self).agent.wf(),
            final(self).delta.wf(),
            final(self).key == old(self).key,
            *final(final(self).agent) == *final(old(self).agent),
            *final(final(self).delta) == *final(old(self).delta),
            created == !under(old(self).agent.conditions@, ConditionKind::MagicShield),
            final(self).agent@ == (AgentView {
                conditions: shielded(old(self).agent.conditions@, until),
                next_generation: old(self).agent@.next_generation,
                ..old(self).agent@
            }),
            final(self).delta@ == noted(old(self).delta@, old(self).key, old(self).agent@, final(self).agent@),
    {
        let status: u32 = self.agent.conditions.status();
        let speed: u16 = self.agent.speed();
        let created: bool = self.agent.conditions.extend_magic_shield(until);
        self.note(status, speed);
        created
    }

    /// Ends a timed condition.
    pub fn remove_timed(&mut self, kind: TimedCondition)
        requires
            old(self).agent.wf(),
            old(self).delta.wf(),
        ensures
            final(self).agent.wf(),
            final(self).delta.wf(),
            final(self).key == old(self).key,
            *final(final(self).agent) == *final(old(self).agent),
            *final(final(self).delta) == *final(old(self).delta),
            final(self).agent@ == (AgentView {
                conditions: without(old(self).agent.conditions@, kind.spec_kind()),
                next_generation: old(self).agent@.next_generation,
                ..old(self).agent@
            }),
            final(self).delta@ == noted(old(self).delta@, old(self).key, old(self).agent@, final(self).agent@),
    {
        let status: u32 = self.agent.conditions.status();
        let speed: u16 = self.agent.speed();
        self.agent.conditions.remove_timed(kind);
        self.note(status, speed);
    }

    /// Ends the wound of an element, and says whether there was one.
    pub fn cure(&mut self, element: CombatElement) -> (r: bool)
        requires
            old(self).agent.wf(),
            old(self).delta.wf(),
        ensures
            final(self).agent.wf(),
            final(self).delta.wf(),
            final(self).key == old(self).key,
            *final(final(self).agent) == *final(old(self).agent),
            *final(final(self).delta) == *final(old(self).delta),
            r == under(old(self).agent.conditions@, ConditionKind::Damage(element)),
            final(self).agent@ == (AgentView {
                conditions: without(old(self).agent.conditions@, ConditionKind::Damage(element)),
                next_generation: old(self).agent@.next_generation,
                ..old(self).agent@
            }),
            final(self).delta@ == noted(old(self).delta@, old(self).key, old(self).agent@, final(self).agent@),
    {
        let status: u32 = self.agent.conditions.status();
        let speed: u16 = self.agent.speed();
        let r: bool = self.agent.conditions.cure(element);
        self.note(status, speed);
        r
    }

    /// Wounds the agent, unless it has a worse wound of the same element.
    pub fn apply_damage_over_time(&mut self, incoming: DamageOverTime) -> (r: Option<u32>)
        requires
            old(self).agent.wf(),
            old(self).delta.wf(),
            old(self).agent.conditions.next() < u32::MAX,
            sound(incoming.schedule),
            left(incoming.schedule) <= u32::MAX,
        ensures
            final(self).agent.wf(),
            final(self).delta.wf(),
            final(self).key == old(self).key,
            *final(final(self).agent) == *final(old(self).agent),
            *final(final(self).delta) == *final(old(self).delta),
            final(self).agent@ == wounded(old(self).agent@, incoming).0,
            r == wounded(old(self).agent@, incoming).1,
            final(self).delta@ == noted(old(self).delta@, old(self).key, old(self).agent@, final(self).agent@),
    {
        let status: u32 = self.agent.conditions.status();
        let speed: u16 = self.agent.speed();
        let r = self.agent.conditions.apply_damage_over_time(incoming);
        self.note(status, speed);
        r
    }

    /// The next hit of the wound of this element and generation, where it is still there.
    pub fn next_damage_hit(&mut self, element: CombatElement, generation: u32) -> (r: Option<DamageHit>)
        requires
            old(self).agent.wf(),
            old(self).delta.wf(),
        ensures
            final(self).agent.wf(),
            final(self).delta.wf(),
            final(self).key == old(self).key,
            *final(final(self).agent) == *final(old(self).agent),
            *final(final(self).delta) == *final(old(self).delta),
            final(self).agent@ == struck(old(self).agent@, element, generation).0,
            r == struck(old(self).agent@, element, generation).1,
            final(self).delta@ == noted(old(self).delta@, old(self).key, old(self).agent@, final(self).agent@),
    {
        let status: u32 = self.agent.conditions.status();
        let speed: u16 = self.agent.speed();
        let r = self.agent.conditions.next_damage_hit(element, generation);
        self.note(status, speed);
        r
    }

    /// The player that the agent is, to be written to.
    pub fn player_mut<'b>(&'b mut self) -> (r: Option<PlayerMut<'b>>)
        requires
            old(self).agent.wf(),
            old(self).delta.wf(),
        ensures
            final(self).agent.wf(),
            final(self).key == old(self).key,
            *final(final(self).agent) == *final(old(self).agent),
            *final(final(self).delta) == *final(old(self).delta),
            match r {
                Some(player) => {
                    &&& old(self).agent@.body == BodyView::Player(player.player@)
                    &&& player.key == old(self).key
                    &&& *player.delta == *old(self).delta
                    &&& final(self).agent@ == (AgentView {
                        body: BodyView::Player(final(player.player)@),
                        ..old(self).agent@
                    })
                    &&& *final(self).delta == *final(player.delta)
                },
                None => {
                    &&& old(self).agent@.body is Creature
                    &&& final(self).agent@ == old(self).agent@
                    &&& *final(self).delta == *old(self).delta
                },
            },
    {
        match &mut self.agent.body {
            AgentBody::Player(player) => Some(
                PlayerMut { player, key: self.key, delta: &mut *self.delta },
            ),
            AgentBody::Creature(_) => None,
        }
    }
}

/// A player that is being written to.
pub struct PlayerMut<'a> {
    pub player: &'a mut Player,
    pub key: AgentKey,
    pub delta: &'a mut WorldDelta,
}

/// The player with a skill at another value.
pub open spec fn skilled(p: PlayerView, i: int, value: SkillValue) -> PlayerView {
    PlayerView { skills: p.skills.update(i, (p.skills[i].0, value)), ..p }
}

impl<'a> PlayerMut<'a> {
    /// A skill that the player has, to be changed.
    pub fn skill_mut<'b>(&'b mut self, skill: SkillType) -> (r: Option<&'b mut SkillValue>)
        requires
            old(self).delta.wf(),
        ensures
            final(self).delta.wf(),
            final(self).key == old(self).key,
            *final(final(self).player) == *final(old(self).player),
            *final(final(self).delta) == *final(old(self).delta),
            match skill_in(old(self).player@.skills, 0, skill) {
                Some(i) => {
                    &&& r matches Some(value)
                    &&& *value == old(self).player@.skills[i].1
                    &&& final(self).player@ == skilled(old(self).player@, i, *final(value))
                    &&& final(self).delta@ == skill_marked(old(self).delta@, old(self).key, skill)
                },
                None => {
                    &&& r is None
                    &&& final(self).player@ == old(self).player@
                    &&& final(self).delta@ == old(self).delta@
                },
            },
    {
        match self.player.skill_index(skill) {
            Some(i) => {
                self.delta.mark_skill(self.key, skill);
                Some(&mut self.player.skills[i].1)
            },
            None => None,
        }
    }

    /// Changes how much the player can carry.
    pub fn set_capacity(&mut self, capacity: u32)
        requires
            old(self).delta.wf(),
        ensures
            final(self).delta.wf(),
            final(self).key == old(self).key,
            *final(final(self).player) == *final(old(self).player),
            *final(final(self).delta) == *final(old(self).delta),
            final(self).player@ == (PlayerView { capacity, ..old(self).player@ }),
            final(self).delta@ == agent_marked(
                old(self).delta@,
                old(self).key,
                AgentFlag::Capacity,
            ),
    {
        self.player.capacity = capacity;
        self.delta.mark_agent(self.key, AgentFlag::Capacity);
    }

    /// What the player carries, to be written to.
    pub fn inventory_mut<'b>(&'b mut self) -> (r: InventoryMut<'b>)
        ensures
            r.inventory@ == old(self).player@.inventory,
            *r.delta == *old(self).delta,
            r.key == old(self).key,
            final(self).key == old(self).key,
            final(self).player@ == (PlayerView {
                inventory: final(r.inventory)@,
                ..old(self).player@
            }),
            *final(self).delta == *final(r.delta),
            *final(final(self).player) == *final(old(self).player),
            *final(final(self).delta) == *final(old(self).delta),
    {
        InventoryMut {
            inventory: self.player.inventory_mut(),
            key: self.key,
            delta: &mut *self.delta,
        }
    }
}

/// What a player carries, while it is being written to.
pub struct InventoryMut<'a> {
    pub inventory: &'a mut Inventory,
    pub key: AgentKey,
    pub delta: &'a mut WorldDelta,
}

/// What a write to an inventory marks: the container it went into, or else the slot, how much can
/// still be carried, and the speed where it is no longer `speed_before`.
pub open spec fn carrying_marked(
    d: DeltaView,
    key: AgentKey,
    slot: InventorySlot,
    container: Option<ItemGuid>,
    speed_before: i16,
    speed: i16,
) -> DeltaView {
    let place = match container {
        Some(guid) => container_marked(d, guid),
        None => slot_marked(d, key, slot),
    };
    let weighed = agent_marked(place, key, AgentFlag::Capacity);
    if speed != speed_before {
        agent_marked(weighed, key, AgentFlag::Speed)
    } else {
        weighed
    }
}

/// What putting an item on a stack in a slot, or in a container there, comes to.
pub open spec fn slot_stacked(item: ItemView, container: Option<ItemGuid>, new: ItemView) -> (
    ItemView,
    u8,
) {
    match container {
        Some(guid) => if found(item, guid) is Some {
            topped_within(item, guid, new)
        } else {
            (item, 0)
        },
        None => if stackable(item, new) {
            (heightened(item, new), moved_onto(item.amount, new.amount))
        } else {
            (item, 0)
        },
    }
}

/// The inventory after an item was put on a stack in a slot or in a container there, and how much
/// of it that took.
pub open spec fn inventory_stacked(
    inventory: InventoryView,
    slot: InventorySlot,
    container: Option<ItemGuid>,
    new: ItemView,
) -> (InventoryView, u8) {
    match slot_in(inventory.slots, 0, slot) {
        Some(i) => {
            let (item, moved) = slot_stacked(inventory.slots[i].1, container, new);
            (
                InventoryView {
                    slots: inventory.slots.update(i, (inventory.slots[i].0, item)),
                    carried_weight: (inventory.carried_weight + unit_weight(new) * moved) as u32,
                    ..inventory
                },
                moved,
            )
        },
        None => (inventory, 0),
    }
}

/// What one of an item weighs.
pub open spec fn unit_weight(item: ItemView) -> int {
    match item.config.weight() {
        Some(weight) => weight as int,
        None => 0,
    }
}

impl<'a> InventoryMut<'a> {
    /// Marks what a write to the inventory has changed.
    pub fn record_write(&mut self, slot: InventorySlot, container: Option<ItemGuid>, speed_before: i16)
        requires
            old(self).delta.wf(),
        ensures
            final(self).delta.wf(),
            final(self).key == old(self).key,
            *final(self).inventory == *old(self).inventory,
            *final(final(self).inventory) == *final(old(self).inventory),
            *final(final(self).delta) == *final(old(self).delta),
            final(self).delta@ == carrying_marked(
                old(self).delta@,
                old(self).key,
                slot,
                container,
                speed_before,
                old(self).inventory.speed,
            ),
    {
        match container {
            Some(guid) => self.delta.mark_container(guid),
            None => self.delta.mark_slot(self.key, slot),
        }
        self.delta.mark_agent(self.key, AgentFlag::Capacity);
        if self.inventory.speed != speed_before {
            self.delta.mark_agent(self.key, AgentFlag::Speed);
        }
    }

    /// Puts an item into a slot or a container there, by way of `place`, and marks what that has
    /// changed where it went well.
    pub fn insert<F: FnOnce(&mut Inventory) -> Result<Option<Item>, ItemMovementError>>(
        &mut self,
        slot: InventorySlot,
        container: Option<(ItemGuid, usize)>,
        place: F,
    ) -> (r: Result<Option<Item>, ItemMovementError>)
        requires
            old(self).delta.wf(),
            forall|inventory: &mut Inventory| #[trigger] place.requires((inventory,)),
        ensures
            final(self).delta.wf(),
            final(self).key == old(self).key,
            *final(final(self).inventory) == *final(old(self).inventory),
            *final(final(self).delta) == *final(old(self).delta),
            exists|inventory: &mut Inventory|
                {
                    &&& *inventory == *old(self).inventory
                    &&& *final(inventory) == *final(self).inventory
                    &&& #[trigger] place.ensures((inventory,), r)
                },
            final(self).delta@ == (if r is Ok {
                carrying_marked(
                    old(self).delta@,
                    old(self).key,
                    slot,
                    container_guid(container),
                    old(self).inventory.speed,
                    final(self).inventory.speed,
                )
            } else {
                old(self).delta@
            }),
    {
        let speed: i16 = self.inventory.speed;
        let r = place(&mut *self.inventory);
        if r.is_ok() {
            let container: Option<ItemGuid> = match container {
                Some((guid, _)) => Some(guid),
                None => None,
            };
            self.record_write(slot, container, speed);
        }
        r
    }

    /// Takes an item out of a slot or a container there, by way of `take`, and marks what that has
    /// changed where something was taken: the container that it lay in, or else the slot.
    pub fn remove<F: FnOnce(&mut Inventory) -> Option<(Item, Option<(ItemGuid, usize)>)>>(
        &mut self,
        slot: InventorySlot,
        take: F,
    ) -> (r: Option<(Item, Option<(ItemGuid, usize)>)>)
        requires
            old(self).delta.wf(),
            forall|inventory: &mut Inventory| #[trigger] take.requires((inventory,)),
        ensures
            final(self).delta.wf(),
            final(self).key == old(self).key,
            *final(final(self).inventory) == *final(old(self).inventory),
            *final(final(self).delta) == *final(old(self).delta),
            exists|inventory: &mut Inventory|
                {
                    &&& *inventory == *old(self).inventory
                    &&& *final(inventory) == *final(self).inventory
                    &&& #[trigger] take.ensures((inventory,), r)
                },
            final(self).delta@ == (match r {
                Some((_, parent)) => carrying_marked(
                    old(self).delta@,
                    old(self).key,
                    slot,
                    container_guid(parent),
                    old(self).inventory.speed,
                    final(self).inventory.speed,
                ),
                None => old(self).delta@,
            }),
    {
        let speed: i16 = self.inventory.speed;
        let r = take(&mut *self.inventory);
        if let Some((_, parent)) = &r {
            let container: Option<ItemGuid> = match parent {
                Some((guid, _)) => Some(*guid),
                None => None,
            };
            self.record_write(slot, container, speed);
        }
        r
    }

    /// Takes what is in a slot, by way of `take`, and marks what that has changed where something
    /// was there.
    pub fn take_slot<F: FnOnce(&mut Inventory) -> Option<Item>>(
        &mut self,
        slot: InventorySlot,
        take: F,
    ) -> (r: Option<Item>)
        requires
            old(self).delta.wf(),
            forall|inventory: &mut Inventory| #[trigger] take.requires((inventory,)),
        ensures
            final(self).delta.wf(),
            final(self).key == old(self).key,
            *final(final(self).inventory) == *final(old(self).inventory),
            *final(final(self).delta) == *final(old(self).delta),
            exists|inventory: &mut Inventory|
                {
                    &&& *inventory == *old(self).inventory
                    &&& *final(inventory) == *final(self).inventory
                    &&& #[trigger] take.ensures((inventory,), r)
                },
            final(self).delta@ == (if r is Some {
                carrying_marked(
                    old(self).delta@,
                    old(self).key,
                    slot,
                    None,
                    old(self).inventory.speed,
                    final(self).inventory.speed,
                )
            } else {
                old(self).delta@
            }),
    {
        let speed: i16 = self.inventory.speed;
        let r = take(&mut *self.inventory);
        if r.is_some() {
            self.record_write(slot, None, speed);
        }
        r
    }

    /// Puts an item on a stack in a slot, or in a container there, and says how much of it that
    /// took.
    pub fn stack_onto(&mut self, slot: InventorySlot, container: Option<ItemGuid>, item: &mut Item) -> (moved:
        u8)
        requires
            old(self).delta.wf(),
            old(self).inventory.carried_weight + unit_weight(old(item)@) * old(item)@.amount
                <= u32::MAX,
        ensures
            final(self).delta.wf(),
            final(self).key == old(self).key,
            *final(final(self).inventory) == *final(old(self).inventory),
            *final(final(self).delta) == *final(old(self).delta),
            moved == inventory_stacked(old(self).inventory@, slot, container, old(item)@).1,
            final(self).inventory@ == inventory_stacked(
                old(self).inventory@,
                slot,
                container,
                old(item)@,
            ).0,
            final(self).delta@ == (if moved > 0 {
                carrying_marked(
                    old(self).delta@,
                    old(self).key,
                    slot,
                    container,
                    old(self).inventory.speed,
                    old(self).inventory.speed,
                )
            } else {
                old(self).delta@
            }),
            final(item)@ == lessened(old(item)@, moved),
    {
        let unit: u32 = match item.config.attr_weight() {
            Some(weight) => weight,
            None => 0,
        };
        let speed: i16 = self.inventory.speed;
        let ghost offered = item.amount;
        let ghost before = self.inventory@;
        let i: usize = match self.inventory.index_of(slot) {
            Some(i) => i,
            None => return 0,
        };
        proof {
            lemma_slot_in(before.slots, 0, slot);
            if let Some(guid) = container {
                lemma_topped_within(before.slots[i as int].1, guid, item@);
            }
        }
        let held = &mut self.inventory.slots[i].1;
        let moved: u8 = match container {
            Some(guid) => if held.find_by_guid(guid).is_some() {
                top_up_within(held, guid, item)
            } else {
                0
            },
            None => if held.stacks_with(item) {
                held.top_up_from(item)
            } else {
                0
            },
        };
        proof {
            assert(self.inventory@.slots =~= inventory_stacked(
                before,
                slot,
                container,
                old(item)@,
            ).0.slots);
        }
        if moved == 0 {
            assert(unit * moved == 0) by (nonlinear_arith)
                requires
                    moved == 0,
            ;
            return 0;
        }
        assert(unit * moved <= unit * offered) by (nonlinear_arith)
            requires
                moved <= offered,
        ;
        self.inventory.carried_weight = self.inventory.carried_weight + unit * moved as u32;
        self.record_write(slot, container, speed);
        moved
    }
}

/// The map, and what has changed on it.
pub struct WorldMap {
    map: GameMap,
    delta: WorldDelta,
}

#[verifier::ext_equal]
pub struct WorldMapView {
    pub map: MapView,
    pub delta: DeltaView,
}

impl View for WorldMap {
    type V = WorldMapView;

    closed spec fn view(&self) -> WorldMapView {
        WorldMapView { map: self.map@, delta: self.delta@ }
    }
}

/// What a write to a tile marks: the container it went into, or else the tile.
pub open spec fn place_marked(d: DeltaView, pos: Position, container: Option<ItemGuid>) -> DeltaView {
    match container {
        Some(guid) => container_marked(d, guid),
        None => tile_marked(d, pos),
    }
}

/// The guid of a container and not its place.
pub open spec fn container_guid(container: Option<(ItemGuid, usize)>) -> Option<ItemGuid> {
    match container {
        Some((guid, _)) => Some(guid),
        None => None,
    }
}

/// The container that something was taken out of, where it was in one.
pub open spec fn parent_guid(removed: RemovedItem) -> Option<ItemGuid> {
    container_guid(removed.parent)
}

impl WorldMap {
    pub closed spec fn wf(&self) -> bool {
        self.map.wf() && self.delta.wf()
    }

    /// A map on which nothing has changed yet.
    pub fn new(map: GameMap) -> (w: Self)
        requires
            map.wf(),
        ensures
            w.copies() == map.copies(),
            w.wf(),
            w@ == (WorldMapView { map: map@, delta: unchanged() }),
    {
        WorldMap { map, delta: WorldDelta::default() }
    }

    /// The map itself, to be read.
    pub fn map(&self) -> (m: &GameMap)
        requires
            self.wf(),
        ensures
            m.copies() == self.copies(),
            m@ == self@.map,
            m.wf(),
    {
        &self.map
    }

    /// The map as it is now, for others to read while this one changes on.
    pub fn snapshot(&self) -> (m: GameMap)
        requires
            self.wf(),
        ensures
            m.copies() == self.copies(),
            m@ == self@.map,
            m.wf(),
    {
        self.map.clone()
    }

    /// What has changed since this was last asked for. It is forgotten then.
    pub fn take_delta(&mut self) -> (d: WorldDelta)
        requires
            old(self).wf(),
        ensures
            final(self).copies() == old(self).copies(),
            final(self).wf(),
            d.wf(),
            d@ == old(self)@.delta,
            final(self)@ == (WorldMapView { delta: unchanged(), ..old(self)@ }),
    {
        let mut fresh = WorldDelta::default();
        std::mem::swap(&mut self.delta, &mut fresh);
        fresh
    }

    /// How many chunks had to be copied since this was last asked for.
    pub fn take_chunk_copies(&mut self) -> (n: u64)
        requires
            old(self).wf(),
        ensures
            final(self).wf(),
            final(self)@ == old(self)@,
            n == old(self).copies(),
            final(self).copies() == 0,
    {
        self.map.take_chunk_copies()
    }

    pub closed spec fn copies(&self) -> u64 {
        self.map.copies()
    }

    /// What has changed since `take_delta` was last called.
    pub fn delta(&self) -> (d: &WorldDelta)
        requires
            self.wf(),
        ensures
            d@ == self@.delta,
            d.wf(),
    {
        &self.delta
    }

    /// The map itself, to be changed without marking anything.
    pub fn inner_mut(&mut self) -> (m: &mut GameMap)
        requires
            old(self).wf(),
        ensures
            m.copies() == old(self).copies(),
            final(self).copies() == final(m).copies(),
            m@ == old(self)@.map,
            m.wf(),
            final(self)@ == (WorldMapView { map: final(m)@, ..old(self)@ }),
            final(m).wf() ==> final(self).wf(),
    {
        &mut self.map
    }

    /// Puts a tile on the map, in place of any that was there.
    pub fn insert_tile(&mut self, pos: Position, tile: MapTile)
        requires
            old(self).wf(),
        ensures
            final(self).copies() == old(self).copies(),
            final(self).wf(),
            final(self)@ == (WorldMapView {
                map: with_tile(old(self)@.map, pos, tile@),
                delta: tile_marked(old(self)@.delta, pos),
            }),
    {
        self.delta.mark_tile(&pos);
        self.map.insert_tile(pos, tile);
        assert(self.map@ =~= with_tile(old(self).map@, pos, tile@));
    }

    /// Puts an item on a tile, at a place of it or on top, or into a container there.
    pub fn place_item(
        &mut self,
        pos: &Position,
        index: Option<usize>,
        container: Option<(ItemGuid, usize)>,
        item: Item,
    ) -> (r: Result<(), MapError>)
        requires
            old(self).wf(),
            placeable(old(self)@.map, *pos, index, container),
        ensures
            old(self).copies() <= final(self).copies() <= old(self).copies() + 1,
            final(self).wf(),
            r == placed_on(old(self)@.map, *pos, index, container, item@).0,
            final(self)@.map == placed_on(old(self)@.map, *pos, index, container, item@).1,
            final(self)@.delta == (if r is Ok {
                place_marked(old(self)@.delta, *pos, container_guid(container))
            } else {
                old(self)@.delta
            }),
    {
        let r = self.map.place_item(pos, index, container, item);
        assert(self.map@ =~= placed_on(old(self).map@, *pos, index, container, item@).1);
        if r.is_ok() {
            match container {
                Some((guid, _)) => self.delta.mark_container(guid),
                None => self.delta.mark_tile(pos),
            }
        }
        r
    }

    /// Takes `amount` of the item with this guid off a tile or out of what lies on it. A part
    /// that is split off gets the guid `fresh`.
    pub fn remove_item_from_tile(
        &mut self,
        pos: &Position,
        guid: ItemGuid,
        amount: u8,
        fresh: ItemGuid,
    ) -> (r: Option<RemovedItem>)
        requires
            old(self).wf(),
        ensures
            old(self).copies() <= final(self).copies() <= old(self).copies() + 1,
            final(self).wf(),
            takes(r, old(self)@.map, final(self)@.map, *pos, guid, amount, fresh),
            final(self)@.delta == match r {
                Some(removed) => place_marked(old(self)@.delta, *pos, parent_guid(removed)),
                None => old(self)@.delta,
            },
    {
        let r = self.map.remove_item_from_tile(pos, guid, amount, fresh);
        proof {
            if r is None {
                assert(self.map@ =~= old(self).map@);
            }
        }
        if let Some(removed) = &r {
            match removed.parent {
                Some((parent, _)) => self.delta.mark_container(parent),
                None => self.delta.mark_tile(pos),
            }
        }
        r
    }

    /// Puts an agent on a tile, and says under which key it is known from now on.
    pub fn insert_agent(&mut self, agent: Agent, pos: &Position) -> (r: Result<AgentKey, MapError>)
        requires
            old(self).wf(),
            agent.wf(),
            old(self)@.map.agents.dom().len() < 0xFFFF_FFFE,
        ensures
            old(self).copies() <= final(self).copies() <= old(self).copies() + 1,
            r is Err ==> final(self).copies() == old(self).copies(),
            final(self).wf(),
            final(self)@.delta == old(self)@.delta,
            match r {
                Ok(key) => {
                    &&& old(self)@.map.tiles.contains_key(*pos)
                    &&& is_key(key.0)
                    &&& !old(self)@.map.agents.contains_key(key.0)
                    &&& final(self)@.map == joined(old(self)@.map, key, agent@, *pos)
                },
                Err(error) => {
                    &&& error == MapError::TileDoesNotExist
                    &&& !old(self)@.map.tiles.contains_key(*pos)
                    &&& final(self)@.map == old(self)@.map
                },
            },
    {
        let r = self.map.insert_agent(agent, pos);
        proof {
            if let Ok(key) = r {
                assert(self.map@ =~= joined(old(self).map@, key, agent@, *pos));
            }
        }
        r
    }

    /// Takes an agent off the map, with the tile it stood on.
    pub fn remove_agent(&mut self, key: AgentKey) -> (r: Option<(Agent, Position)>)
        requires
            old(self).wf(),
        ensures
            old(self).copies() <= final(self).copies() <= old(self).copies() + 1,
            !old(self)@.map.positions.contains_key(key.0) ==> final(self).copies() == old(self).copies(),
            final(self).wf(),
            final(self)@.delta == old(self)@.delta,
            r is Some <==> old(self)@.map.positions.contains_key(key.0)
                && old(self)@.map.agents.contains_key(key.0),
            r matches Some((agent, pos)) ==> agent@ == old(self)@.map.agents[key.0] && pos
                == old(self)@.map.positions[key.0],
            final(self)@.map == (if old(self)@.map.positions.contains_key(key.0) {
                departed(old(self)@.map, key)
            } else {
                old(self)@.map
            }),
    {
        let r = self.map.remove_agent(key);
        proof {
            if old(self).map@.positions.contains_key(key.0) {
                assert(self.map@ =~= departed(old(self).map@, key));
            }
        }
        r
    }

    /// Moves an agent to another tile.
    pub fn move_agent(&mut self, key: AgentKey, new_pos: &Position) -> (r: Result<(), MapError>)
        requires
            old(self).wf(),
        ensures
            old(self).copies() <= final(self).copies() <= old(self).copies() + 2,
            !old(self)@.map.positions.contains_key(key.0) ==> final(self).copies() == old(self).copies(),
            final(self).wf(),
            final(self)@.delta == old(self)@.delta,
            r == moved_to(old(self)@.map, key, *new_pos).0,
            final(self)@.map == moved_to(old(self)@.map, key, *new_pos).1,
    {
        let r = self.map.move_agent(key, new_pos);
        assert(self.map@ =~= moved_to(old(self).map@, key, *new_pos).1);
        r
    }

    /// The agent with this key, to be written to.
    pub fn agent_mut<'a>(&'a mut self, key: AgentKey) -> (r: Option<AgentMut<'a>>)
        requires
            old(self).wf(),
        ensures
            final(self).copies() == old(self).copies(),
            match r {
                Some(guard) => {
                    &&& old(self)@.map.agents.contains_key(key.0)
                    &&& guard.key == key
                    &&& guard.agent.wf()
                    &&& guard.delta.wf()
                    &&& guard.agent@ == old(self)@.map.agents[key.0]
                    &&& guard.delta@ == old(self)@.delta
                    &&& final(self)@.map == with_agent(old(self)@.map, key, final(guard.agent)@)
                    &&& final(self)@.delta == final(guard.delta)@
                    &&& final(guard.agent).wf() && final(guard.delta).wf() ==> final(self).wf()
                },
                None => {
                    &&& !old(self)@.map.agents.contains_key(key.0)
                    &&& final(self)@ == old(self)@
                    &&& final(self).wf()
                },
            },
    {
        match self.map.get_agent_mut(key) {
            Some(agent) => Some(AgentMut { agent, key, delta: &mut self.delta }),
            None => None,
        }
    }

    /// The player with this key, to be written to.
    pub fn player_mut<'a>(&'a mut self, key: AgentKey) -> (r: Option<PlayerMut<'a>>)
        requires
            old(self).wf(),
        ensures
            final(self).copies() == old(self).copies(),
            match r {
                Some(guard) => {
                    &&& is_player(old(self)@.map, key)
                    &&& guard.key == key
                    &&& guard.delta.wf()
                    &&& guard.player@ == old(self)@.map.agents[key.0].body->Player_0
                    &&& guard.delta@ == old(self)@.delta
                    &&& final(self)@.map == with_player(
                        old(self)@.map,
                        key,
                        final(guard.player)@,
                    )
                    &&& final(self)@.delta == final(guard.delta)@
                    &&& final(guard.delta).wf() ==> final(self).wf()
                },
                None => {
                    &&& !is_player(old(self)@.map, key)
                    &&& final(self)@ == old(self)@
                    &&& final(self).wf()
                },
            },
    {
        match self.map.get_player_mut(key) {
            Some(player) => Some(PlayerMut { player, key, delta: &mut self.delta }),
            None => None,
        }
    }

    /// Puts an item on a stack at a placement, and says how much of it that took.
    pub fn stack_onto(&mut self, placement: &ItemPlacement, item: &mut Item) -> (moved: u8)
        requires
            old(self).wf(),
            site_of(*placement) matches PlacementSite::Slot(_, key) ==> (is_player(
                old(self)@.map,
                key,
            ) ==> old(self)@.map.agents[key.0].body->Player_0.inventory.carried_weight
                + unit_weight(old(item)@) * old(item)@.amount <= u32::MAX),
        ensures
            old(self).copies() <= final(self).copies() <= old(self).copies() + 1,
            final(self).wf(),
            moved == stacked_into(old(self)@, *placement, old(item)@).1,
            final(self)@ == stacked_into(old(self)@, *placement, old(item)@).0,
            final(item)@ == lessened(old(item)@, moved),
    {
        let container: Option<ItemGuid> = match placement.container() {
            Some((guid, _)) => Some(guid),
            None => None,
        };
        match placement.site() {
            PlacementSite::Tile(pos) => {
                let moved: u8 = self.map.stack_on_tile(&pos, container, item);
                if moved > 0 {
                    match container {
                        Some(guid) => self.delta.mark_container(guid),
                        None => self.delta.mark_tile(&pos),
                    }
                }
                moved
            },
            PlacementSite::Slot(slot, key) => match self.player_mut(key) {
                Some(mut player) => {
                    let mut inventory = player.inventory_mut();
                    inventory.stack_onto(slot, container, item)
                },
                None => 0,
            },
        }
    }

    /// Moves an agent to another tile and turns it, of which the step itself tells clients.
    pub fn step_agent(&mut self, key: AgentKey, new_pos: &Position, facing: Facing) -> (r: Result<
        (),
        MapError,
    >)
        requires
            old(self).wf(),
        ensures
            old(self).copies() <= final(self).copies() <= old(self).copies() + 2,
            final(self).wf(),
            final(self)@.delta == old(self)@.delta,
            r == moved_to(old(self)@.map, key, *new_pos).0,
            final(self)@.map == stepped(old(self)@.map, key, *new_pos, facing),
    {
        match self.move_agent(key, new_pos) {
            Ok(()) => {},
            Err(error) => return Err(error),
        }
        let ghost moved = self@.map;
        if let Some(agent) = self.map.get_agent_mut(key) {
            agent.facing = facing;
        }
        assert(self@.map =~= stepped(old(self)@.map, key, *new_pos, facing));
        Ok(())
    }
}

/// The place that an item is to be put at is there.
pub open spec fn placeable(
    m: MapView,
    pos: Position,
    index: Option<usize>,
    container: Option<(ItemGuid, usize)>,
) -> bool {
    m.tiles.contains_key(pos) ==> match container {
        None => index matches Some(i) ==> i <= m.tiles[pos].items.len(),
        Some((target, slot)) => can_place(m.tiles[pos].items, 0, target, slot as int),
    }
}

/// Taking something off a tile came to this.
pub open spec fn takes(
    r: Option<RemovedItem>,
    before: MapView,
    after: MapView,
    pos: Position,
    guid: ItemGuid,
    amount: u8,
    fresh: ItemGuid,
) -> bool {
    if before.tiles.contains_key(pos) {
        let tile = before.tiles[pos];
        &&& removes(r, tile.items, after.tiles[pos].items, guid, amount, fresh)
        &&& after == with_tile(before, pos, TileView { items: after.tiles[pos].items, ..tile })
    } else {
        r is None && after == before
    }
}

/// What moving an agent to another tile comes to. It has left its tile by the time the other one
/// is looked for.
pub open spec fn moved_to(m: MapView, key: AgentKey, to: Position) -> (Result<(), MapError>, MapView) {
    if !m.positions.contains_key(key.0) {
        (Err(MapError::EntityNotInPosition), m)
    } else if !m.tiles.contains_key(m.positions[key.0]) {
        (Err(MapError::TileDoesNotExist), m)
    } else if !m.tiles.contains_key(to) {
        (Err(MapError::TileDoesNotExist), tile_left(m, m.positions[key.0], key))
    } else {
        (Ok(()), relocated(m, key, to))
    }
}

/// The map after an agent stepped to another tile.
pub open spec fn stepped(m: MapView, key: AgentKey, to: Position, facing: Facing) -> MapView {
    let (r, moved) = moved_to(m, key, to);
    if r is Ok && moved.agents.contains_key(key.0) {
        with_agent(moved, key, AgentView { facing, ..moved.agents[key.0] })
    } else {
        moved
    }
}

/// The map with a player changed.
pub open spec fn with_player(m: MapView, key: AgentKey, player: PlayerView) -> MapView {
    with_agent(m, key, AgentView { body: BodyView::Player(player), ..m.agents[key.0] })
}

/// What putting an item on a stack at a placement comes to, and how much of it that takes.
pub open spec fn stacked_into(w: WorldMapView, placement: ItemPlacement, item: ItemView) -> (
    WorldMapView,
    u8,
) {
    let container = match placement {
        ItemPlacement::Container { guid, .. } => Some(guid),
        _ => None,
    };
    match site_of(placement) {
        PlacementSite::Tile(pos) => {
            let (map, moved) = stacked_at(w.map, pos, container, item);
            (
                WorldMapView {
                    map,
                    delta: if moved > 0 {
                        place_marked(w.delta, pos, container)
                    } else {
                        w.delta
                    },
                },
                moved,
            )
        },
        PlacementSite::Slot(slot, key) => if is_player(w.map, key) {
            let player = w.map.agents[key.0].body->Player_0;
            let (inventory, moved) = inventory_stacked(
                player.inventory,
                slot,
                container,
                item,
            );
            (
                WorldMapView {
                    map: with_player(w.map, key, PlayerView { inventory, ..player }),
                    delta: if moved > 0 {
                        carrying_marked(
                            w.delta,
                            key,
                            slot,
                            container,
                            inventory.speed,
                            inventory.speed,
                        )
                    } else {
                        w.delta
                    },
                },
                moved,
            )
        } else {
            (w, 0)
        },
    }
}

/// A placement that is refused changes nothing.
pub proof fn law_a_refused_placement_changes_nothing(
    m: MapView,
    pos: Position,
    index: Option<usize>,
    container: Option<(ItemGuid, usize)>,
    item: ItemView,
)
    ensures
        placed_on(m, pos, index, container, item).0 is Err ==> placed_on(
            m,
            pos,
            index,
            container,
            item,
        ).1 == m,
{
}

/// Where nothing is put on a stack, nothing changes and nothing is marked.
pub proof fn law_stacking_nothing_changes_nothing(w: WorldMapView, placement: ItemPlacement, item: ItemView)
    requires
        stacked_into(w, placement, item).1 == 0,
    ensures
        stacked_into(w, placement, item).0 == w,
{
    let container = match placement {
        ItemPlacement::Container { guid, .. } => Some(guid),
        _ => None,
    };
    match site_of(placement) {
        PlacementSite::Tile(pos) => {
            if w.map.tiles.contains_key(pos) {
                law_stacking_takes_what_there_is(w.map.tiles[pos].items, container, item);
                assert(stacked_at(w.map, pos, container, item).0.tiles =~= w.map.tiles);
            }
        },
        PlacementSite::Slot(slot, key) => {
            if is_player(w.map, key) {
                let player = w.map.agents[key.0].body->Player_0;
                let inventory = player.inventory;
                let after = inventory_stacked(inventory, slot, container, item).0;
                if let Some(i) = slot_in(inventory.slots, 0, slot) {
                    lemma_slot_in(inventory.slots, 0, slot);
                    if let Some(guid) = container {
                        lemma_topped_within(inventory.slots[i].1, guid, item);
                    }
                    assert(after.slots =~= inventory.slots);
                    assert(unit_weight(item) * 0 == 0) by (nonlinear_arith);
                }
                assert(after == inventory);
                assert(with_player(w.map, key, player).agents =~= w.map.agents);
            }
        },
    }
}

/// The agent's other half: what is written to a player is marked for the same agent, and touches
/// nothing else of it.
pub proof fn law_a_player_write_keeps_the_agent(m: MapView, key: AgentKey, player: PlayerView)
    requires
        is_player(m, key),
    ensures
        ({
            let after = with_player(m, key, player).agents[key.0];
            &&& after.body == BodyView::Player(player)
            &&& after.life == m.agents[key.0].life
            &&& after.mana == m.agents[key.0].mana
            &&& after.conditions == m.agents[key.0].conditions
        }),
{
}

/// A meal feeds for as long as it says from when the last one ends, or from now on where there is
/// none left, and as the same meal just where there was one left.
pub proof fn lemma_fed_more(a: AgentView, now: Tick, delta: TickDelta)
    requires
        one_of_each(a.conditions),
    ensures
        ({
            let (after, generation) = fed_more(a, now, delta);
            &&& one_of_each(after.conditions)
            &&& condition_of(after.conditions, ConditionKind::Fed) matches Some(
                Condition::Fed { until, generation: live },
            ) && live == generation && match condition_of(a.conditions, ConditionKind::Fed) {
                Some(Condition::Fed { until: before, generation: old }) if before.0 > now.0 => until.0
                    == (before.0 + delta.0) as u64 && generation == old,
                _ => until.0 == (now.0 + delta.0) as u64 && generation == a.next_generation,
            }
        }),
{
    match condition_of(a.conditions, ConditionKind::Fed) {
        Some(Condition::Fed { until, generation }) if until.0 > now.0 => {
            lemma_with(
                a.conditions,
                Condition::Fed { until: Tick((until.0 + delta.0) as u64), generation },
            );
        },
        _ => {
            let c = Condition::Fed {
                until: Tick((now.0 + delta.0) as u64),
                generation: a.next_generation,
            };
            law_conditions_do_not_disturb_each_other(
                a.conditions,
                c,
                ConditionKind::LogoutBlock,
            );
            let rest = without(a.conditions, ConditionKind::Fed);
            lemma_with(rest, c);
            assert(with(rest, c) == rest.push(c)) by {
                assert(condition_of(rest, ConditionKind::Fed) is None);
            }
        },
    }
}

/// Clients are told of an agent's status just where it changed, and of its speed just where that
/// did; nothing else is marked.
pub proof fn law_changed_conditions_are_marked(
    d: DeltaView,
    key: AgentKey,
    before: AgentView,
    after: AgentView,
    flag: AgentFlag,
)
    ensures
        ({
            let marked = noted(d, key, before, after);
            let told = (flag is Status && status_of(after.conditions) != status_of(
                before.conditions,
            )) || (flag is Speed && speed_of_agent(after) != speed_of_agent(before));
            &&& flagged(dirt_of(marked, key), flag) <==> flagged(dirt_of(d, key), flag) || told
            &&& marked.tiles == d.tiles && marked.slots == d.slots && marked.containers
                == d.containers
        }),
{
    law_marks_are_independent(dirt_of(d, key), AgentFlag::Status, flag, SkillType::Level);
    law_marks_are_independent(dirt_of(d, key), AgentFlag::Speed, flag, SkillType::Level);
    law_marks_are_independent(
        dirt_of(agent_marked(d, key, AgentFlag::Status), key),
        AgentFlag::Speed,
        flag,
        SkillType::Level,
    );
}

/// A write to what a player carries marks the container it went into, or else the slot, and the
/// load; the speed is marked just where it changed.
pub proof fn law_what_is_carried_is_marked_where_it_lies(
    d: DeltaView,
    key: AgentKey,
    slot: InventorySlot,
    container: Option<ItemGuid>,
    speed_before: i16,
    speed: i16,
    flag: AgentFlag,
)
    ensures
        ({
            let marked = carrying_marked(d, key, slot, container, speed_before, speed);
            &&& container matches Some(guid) ==> marked.containers == d.containers.insert(guid.0)
                && marked.slots == d.slots
            &&& container is None ==> marked.slots == d.slots.insert((key, slot))
                && marked.containers == d.containers
            &&& flagged(dirt_of(marked, key), flag) <==> flagged(dirt_of(d, key), flag)
                || flag is Capacity || (flag is Speed && speed != speed_before)
            &&& marked.tiles == d.tiles
        }),
{
    law_marks_are_independent(dirt_of(d, key), AgentFlag::Capacity, flag, SkillType::Level);
    law_marks_are_independent(
        dirt_of(agent_marked(d, key, AgentFlag::Capacity), key),
        AgentFlag::Speed,
        flag,
        SkillType::Level,
    );
}

/// What is stacked onto what a player carries weighs as much as it did: the load grows by the
/// weight of each that was moved. Only the slot it goes to changes, and there are as many more of
/// that item in it as were moved.
pub proof fn law_the_load_grows_by_what_is_stacked(
    inventory: InventoryView,
    slot: InventorySlot,
    container: Option<ItemGuid>,
    new: ItemView,
    i: int,
)
    requires
        0 <= i < inventory.slots.len(),
        inventory.carried_weight + unit_weight(new) * new.amount <= u32::MAX,
    ensures
        ({
            let (later, moved) = inventory_stacked(inventory, slot, container, new);
            let each: int = match new.config.weight() {
                Some(weight) => weight as int,
                None => 0,
            };
            &&& moved <= new.amount
            &&& later.carried_weight == inventory.carried_weight + each * moved
            &&& later.speed == inventory.speed
            &&& later.slots.len() == inventory.slots.len()
            &&& later.slots[i].0 == inventory.slots[i].0
            &&& inventory.slots[i].0 != slot ==> later.slots[i] == inventory.slots[i]
        }),
{
    let (later, moved) = inventory_stacked(inventory, slot, container, new);
    lemma_slot_in(inventory.slots, 0, slot);
    if let Some(k) = slot_in(inventory.slots, 0, slot) {
        if let Some(guid) = container {
            lemma_topped_within(inventory.slots[k].1, guid, new);
        }
    }
    let each = unit_weight(new);
    assert(0 <= each * moved <= each * new.amount) by (nonlinear_arith)
        requires
            0 <= each,
            0 <= moved <= new.amount,
    ;
}

/// What is stacked anywhere marks where it went: the container, or else the tile or the slot. No
/// other tile changes, and nobody moves.
pub proof fn law_stacking_marks_where_it_goes(
    w: WorldMapView,
    placement: ItemPlacement,
    item: ItemView,
    p: Position,
)
    requires
        stacked_into(w, placement, item).1 > 0,
    ensures
        ({
            let (later, _) = stacked_into(w, placement, item);
            &&& placement matches ItemPlacement::Tile(pos) ==> later.delta.tiles
                == w.delta.tiles.insert(pos) && (p != pos ==> later.map.tiles[p]
                == w.map.tiles[p])
            &&& placement matches ItemPlacement::Inventory(slot, key) ==> later.delta.slots
                == w.delta.slots.insert((key, slot)) && later.map.tiles == w.map.tiles
            &&& placement matches ItemPlacement::Container { guid, .. }
                ==> later.delta.containers == w.delta.containers.insert(guid.0)
                && later.delta.tiles == w.delta.tiles && later.delta.slots == w.delta.slots
            &&& later.map.positions == w.map.positions
        }),
{
}

/// A step takes the agent to its tile and turns it the way it went; where the tile is not there it
/// stays where it is said to be, and is not turned.
pub proof fn law_a_step_turns_the_agent_its_way(
    m: MapView,
    key: AgentKey,
    to: Position,
    facing: Facing,
    other: u64,
)
    requires
        m.positions.contains_key(key.0),
        m.agents.contains_key(key.0),
        m.tiles.contains_key(m.positions[key.0]),
        other != key.0,
    ensures
        ({
            let n = stepped(m, key, to, facing);
            &&& m.tiles.contains_key(to) ==> n.positions[key.0] == to && n.agents[key.0].facing
                == facing && n.agents[key.0].life == m.agents[key.0].life
                && n.tiles[to].agents.contains(key) && moved_to(m, key, to).0 is Ok
            &&& !m.tiles.contains_key(to) ==> n.positions == m.positions && n.agents == m.agents
                && moved_to(m, key, to).0 is Err
            &&& n.agents.contains_key(other) == m.agents.contains_key(other)
            &&& n.agents[other] == m.agents[other]
            &&& n.positions[other] == m.positions[other]
        }),
{
    if m.tiles.contains_key(to) {
        let left = tile_left(m, m.positions[key.0], key).tiles[to].agents;
        assert(left.push(key)[left.len() as int] == key);
    }
}

/// A wound takes the place of one of its element just where it has more left to deal; it is then
/// live under a generation of its own.
pub proof fn law_the_stronger_wound_stays(a: AgentView, incoming: DamageOverTime)
    requires
        one_of_each(a.conditions),
    ensures
        ({
            let (after, generation) = wounded(a, incoming);
            let kind = ConditionKind::Damage(incoming.element);
            let kept = condition_of(a.conditions, kind) matches Some(
                Condition::DamageOverTime(current),
            ) && left(current.schedule) >= left(incoming.schedule);
            &&& kept ==> after == a && generation is None
            &&& !kept ==> generation == Some(a.next_generation) && (condition_of(
                after.conditions,
                kind,
            ) matches Some(Condition::DamageOverTime(live)) && live.generation == a.next_generation
                && live.schedule == incoming.schedule && live.source == incoming.source
                && live.interval == incoming.interval)
            &&& after.life == a.life
        }),
{
    lemma_with(
        a.conditions,
        Condition::DamageOverTime(DamageOverTime { generation: a.next_generation, ..incoming }),
    );
}

/// Who strikes has to wait for the next blow as long as blows take.
pub proof fn law_blows_come_at_their_pace(a: AgentView, tick: Tick, config: GameConfig)
    requires
        tick.0 + config.combat.auto_attack_ticks.0 <= u64::MAX,
    ensures
        auto_attack_stamped(a, tick, config).next_auto_attack_tick.0 == tick.0
            + config.combat.auto_attack_ticks.0,
        auto_attack_stamped(a, tick, config).life == a.life,
{
}

} // verus!
