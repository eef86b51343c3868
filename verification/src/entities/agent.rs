//! The creatures and players of the world.

use crate::entities::conditions::{
    condition_of, law_conditions_do_not_disturb_each_other, one_of_each, speed_of, under, without,
    Condition, ConditionKind, Conditions,
};
use crate::entities::creature::CreatureKind;
use crate::entities::player::{Player, PlayerView};
use crate::entities::spells::{Spell, SpellGroup, SpellId};
use crate::game::config::GameConfig;
use crate::game::tick::{Tick, TickDelta};
use crate::sharing::share;
use std::collections::HashMap;
use std::sync::Arc;
use vstd::prelude::*;

verus! {

broadcast use vstd::std_specs::hash::group_hash_axioms;

/// The number by which one client knows an agent.
#[derive(Debug, Clone, Copy, PartialEq, Eq, PartialOrd, Ord, Hash, Structural)]
pub struct AgentId(pub u16);

/// The number by which the server knows an agent.
#[derive(Debug, Clone, Copy, PartialEq, Eq, PartialOrd, Ord, Hash, Structural)]
pub struct AgentKey(pub u64);

/// The side an agent looks to.
#[derive(Debug, Clone, Copy, PartialEq, Eq, Hash, Structural)]
pub enum Facing {
    North,
    East,
    South,
    West,
}

/// What an agent looks like.
#[derive(Debug, Clone, Copy, PartialEq, Eq, Hash, Structural)]
pub struct OutfitId(pub u16);

/// The colours of an outfit.
#[derive(Debug, Clone, Copy, PartialEq, Eq, Hash, Structural)]
pub struct OutfitColors {
    pub head: u8,
    pub body: u8,
    pub legs: u8,
    pub feet: u8,
}

impl OutfitColors {
    pub fn new(head: u8, body: u8, legs: u8, feet: u8) -> (c: OutfitColors)
        ensures
            c == (OutfitColors { head, body, legs, feet }),
    {
        OutfitColors { head, body, legs, feet }
    }
}

/// A quantity that is spent and refilled, such as life or mana.
#[derive(Debug, Clone, Copy, PartialEq, Eq, Hash, Structural)]
pub struct Pool {
    pub current: u32,
    pub maximum: u32,
}

impl Pool {
    /// What is spent of it.
    pub open spec fn spent(self) -> int {
        if self.current >= self.maximum {
            0
        } else {
            self.maximum - self.current
        }
    }

    /// What is spent of it.
    pub fn missing(&self) -> (r: u32)
        ensures
            r == self.spent(),
    {
        self.maximum.saturating_sub(self.current)
    }

    /// Whether so much is there to spend.
    pub fn can_afford(&self, cost: u32) -> (r: bool)
        ensures
            r == (self.current >= cost),
    {
        self.current >= cost
    }

    /// With `amount` spent, as far as it goes.
    pub open spec fn less(self, amount: u32) -> Pool {
        Pool {
            current: if self.current >= amount {
                (self.current - amount) as u32
            } else {
                0
            },
            ..self
        }
    }

    /// With `amount` refilled, as far as there is room.
    pub open spec fn more(self, amount: u32) -> Pool {
        Pool {
            current: if amount >= self.spent() {
                if self.current >= self.maximum {
                    self.current
                } else {
                    self.maximum
                }
            } else {
                (self.current + amount) as u32
            },
            ..self
        }
    }

    /// With its maximum changed by `amount`, and no more in it than that.
    pub open spec fn resized(self, amount: i32) -> Pool {
        let wanted = self.maximum + amount;
        let maximum = if wanted < 0 {
            0
        } else if wanted > u32::MAX {
            u32::MAX as int
        } else {
            wanted
        };
        Pool {
            current: if self.current > maximum {
                maximum as u32
            } else {
                self.current
            },
            maximum: maximum as u32,
        }
    }

    fn spend(&mut self, amount: u32)
        ensures
            *final(self) == old(self).less(amount),
    {
        self.current = self.current.saturating_sub(amount);
    }

    fn refill(&mut self, amount: u32)
        ensures
            *final(self) == old(self).more(amount),
    {
        let room: u32 = self.missing();
        if amount >= room {
            if self.current < self.maximum {
                self.current = self.maximum;
            }
        } else {
            self.current = self.current + amount;
        }
    }

    fn resize(&mut self, amount: i32)
        ensures
            *final(self) == old(self).resized(amount),
    {
        let wanted: i64 = self.maximum as i64 + amount as i64;
        self.maximum = if wanted < 0 {
            0
        } else if wanted > u32::MAX as i64 {
            u32::MAX
        } else {
            wanted as u32
        };
        if self.current > self.maximum {
            self.current = self.maximum;
        }
    }
}

/// What an agent is besides being an agent.
#[derive(Debug)]
pub enum AgentBody {
    Player(Player),
    Creature(Arc<CreatureKind>),
}

pub enum BodyView {
    Player(PlayerView),
    Creature(CreatureKind),
}

/// A player or a creature.
#[derive(Debug)]
pub struct Agent {
    pub life: Pool,
    pub mana: Pool,
    pub base_speed: u16,
    pub facing: Facing,
    pub conditions: Conditions,
    pub next_walk_tick: Tick,
    pub next_use_tick: Tick,
    pub next_auto_attack_tick: Tick,
    /// When each spell can be cast again, by `SpellId`.
    pub spell_ticks: HashMap<u16, Tick>,
    /// When each group can be cast from again, by the group's number.
    pub group_ticks: HashMap<u8, Tick>,
    pub target: Option<AgentKey>,
    pub target_seq: u32,
    /// Who has hurt it by how much, the last one last.
    pub wounds: Vec<(AgentKey, u32)>,
    pub body: AgentBody,
}

#[verifier::ext_equal]
pub struct AgentView {
    pub life: Pool,
    pub mana: Pool,
    pub base_speed: u16,
    pub facing: Facing,
    pub conditions: Seq<Condition>,
    pub next_generation: u32,
    pub next_walk_tick: Tick,
    pub next_use_tick: Tick,
    pub next_auto_attack_tick: Tick,
    pub spell_ticks: Map<u16, Tick>,
    pub group_ticks: Map<u8, Tick>,
    pub target: Option<AgentKey>,
    pub target_seq: u32,
    pub wounds: Seq<(AgentKey, u32)>,
    pub body: BodyView,
}

impl View for Agent {
    type V = AgentView;

    open spec fn view(&self) -> AgentView {
        AgentView {
            life: self.life,
            mana: self.mana,
            base_speed: self.base_speed,
            facing: self.facing,
            conditions: self.conditions@,
            next_generation: self.conditions.next(),
            next_walk_tick: self.next_walk_tick,
            next_use_tick: self.next_use_tick,
            next_auto_attack_tick: self.next_auto_attack_tick,
            spell_ticks: self.spell_ticks@,
            group_ticks: self.group_ticks@,
            target: self.target,
            target_seq: self.target_seq,
            wounds: self.wounds@,
            body: match self.body {
                AgentBody::Player(player) => BodyView::Player(player@),
                AgentBody::Creature(kind) => BodyView::Creature(*kind),
            },
        }
    }
}

/// The speed that what is worn and what the agent is under leave it with.
pub open spec fn speed_of_agent(a: AgentView) -> int {
    let worn = match a.body {
        BodyView::Player(player) => player.inventory.speed as int,
        BodyView::Creature(_) => 0,
    };
    let speed = a.base_speed + speed_of(a.conditions) + worn;
    if speed < 0 {
        0
    } else if speed > u16::MAX {
        u16::MAX as int
    } else {
        speed
    }
}

/// The mana is spent, and with the last of it goes the shield that it fed.
pub open spec fn drained(a: AgentView, amount: u32) -> AgentView {
    let mana = a.mana.less(amount);
    AgentView {
        mana,
        conditions: if mana.current == 0 {
            without(a.conditions, ConditionKind::MagicShield)
        } else {
            a.conditions
        },
        ..a
    }
}

/// From when on a group can be cast from again.
pub open spec fn group_ready(a: AgentView, group: SpellGroup) -> Tick {
    if a.group_ticks.contains_key(group.id()) {
        a.group_ticks[group.id()]
    } else {
        Tick(0)
    }
}

/// From when on a spell can be cast again.
pub open spec fn spell_ready(a: AgentView, id: SpellId) -> Tick {
    if a.spell_ticks.contains_key(id.0) {
        a.spell_ticks[id.0]
    } else {
        Tick(0)
    }
}

/// How long a group cannot be cast from.
pub open spec fn group_pause(group: SpellGroup, cooldown: Option<TickDelta>, config: GameConfig) -> int {
    match cooldown {
        Some(cooldown) => cooldown.0 as int,
        None => group.spec_cooldown(config).0 as int,
    }
}

/// The group waits from `tick` on.
pub open spec fn group_stamped(
    a: AgentView,
    tick: Tick,
    group: SpellGroup,
    cooldown: Option<TickDelta>,
    config: GameConfig,
) -> AgentView {
    AgentView {
        group_ticks: a.group_ticks.insert(
            group.id(),
            Tick((tick.0 + group_pause(group, cooldown, config)) as u64),
        ),
        ..a
    }
}

/// The spell and its group wait from `tick` on.
pub open spec fn spell_stamped(a: AgentView, tick: Tick, spell: Spell, config: GameConfig) -> AgentView {
    let grouped = group_stamped(a, tick, spell.group, spell.group_cooldown, config);
    AgentView {
        spell_ticks: grouped.spell_ticks.insert(
            spell.id.0,
            Tick((tick.0 + spell.cooldown.0) as u64),
        ),
        ..grouped
    }
}

impl Agent {
    /// The agent's conditions keep to their rules.
    pub open spec fn wf(&self) -> bool {
        self.conditions.wf()
    }

    pub fn is_creature(&self) -> (r: bool)
        ensures
            r == (self@.body is Creature),
    {
        match self.body {
            AgentBody::Player(_) => false,
            AgentBody::Creature(_) => true,
        }
    }

    pub fn get_player(&self) -> (r: Option<&Player>)
        ensures
            match r {
                Some(player) => self.body matches AgentBody::Player(p) && *player == p,
                None => self.body is Creature,
            },
    {
        match &self.body {
            AgentBody::Player(player) => Some(player),
            AgentBody::Creature(_) => None,
        }
    }

    pub fn speed(&self) -> (r: u16)
        requires
            self.wf(),
        ensures
            r == speed_of_agent(self@),
    {
        let worn: i32 = match &self.body {
            AgentBody::Player(player) => player.inventory.speed as i32,
            AgentBody::Creature(_) => 0,
        };
        let speed: i32 = self.base_speed as i32 + self.conditions.speed_change() as i32 + worn;
        if speed < 0 {
            0
        } else if speed > u16::MAX as i32 {
            u16::MAX
        } else {
            speed as u16
        }
    }

    pub fn remove_life(&mut self, amount: u32)
        ensures
            final(self)@ == (AgentView { life: old(self)@.life.less(amount), ..old(self)@ }),
            final(self).conditions == old(self).conditions,
    {
        self.life.spend(amount);
    }

    pub fn restore_life(&mut self, amount: u32)
        ensures
            final(self)@ == (AgentView { life: old(self)@.life.more(amount), ..old(self)@ }),
            final(self).conditions == old(self).conditions,
    {
        self.life.refill(amount);
    }

    pub fn change_max_life(&mut self, amount: i32)
        ensures
            final(self)@ == (AgentView { life: old(self)@.life.resized(amount), ..old(self)@ }),
            final(self).conditions == old(self).conditions,
    {
        self.life.resize(amount);
    }

    /// Spends mana; with the last of it goes the shield that it fed.
    pub fn remove_mana(&mut self, amount: u32)
        requires
            old(self).wf(),
        ensures
            final(self).wf(),
            final(self)@ == drained(old(self)@, amount),
    {
        self.mana.spend(amount);
        if self.mana.current == 0 {
            self.conditions.remove_magic_shield();
        }
    }

    pub fn restore_mana(&mut self, amount: u32)
        ensures
            final(self)@ == (AgentView { mana: old(self)@.mana.more(amount), ..old(self)@ }),
            final(self).conditions == old(self).conditions,
    {
        self.mana.refill(amount);
    }

    pub fn change_max_mana(&mut self, amount: i32)
        ensures
            final(self)@ == (AgentView { mana: old(self)@.mana.resized(amount), ..old(self)@ }),
            final(self).conditions == old(self).conditions,
    {
        self.mana.resize(amount);
    }

    /// From when on a group can be cast from again.
    pub fn next_spell_group_tick(&self, group: SpellGroup) -> (t: Tick)
        ensures
            t == group_ready(self@, group),
    {
        match self.group_ticks.get(&group.as_id()) {
            Some(tick) => *tick,
            None => Tick(0),
        }
    }

    /// From when on a spell can be cast again.
    pub fn next_spell_tick(&self, id: SpellId) -> (t: Tick)
        ensures
            t == spell_ready(self@, id),
    {
        match self.spell_ticks.get(&id.0) {
            Some(tick) => *tick,
            None => Tick(0),
        }
    }

    /// Makes a group wait from `tick` on.
    pub fn stamp_spell_group(
        &mut self,
        tick: Tick,
        group: SpellGroup,
        cooldown: Option<TickDelta>,
        config: &GameConfig,
    )
        requires
            tick.0 + group_pause(group, cooldown, *config) <= u64::MAX,
        ensures
            final(self)@ == group_stamped(old(self)@, tick, group, cooldown, *config),
            final(self).conditions == old(self).conditions,
    {
        let pause: TickDelta = match cooldown {
            Some(cooldown) => cooldown,
            None => group.cooldown(config),
        };
        self.group_ticks.insert(group.as_id(), tick.plus(pause));
    }

    /// Makes a spell and its group wait from `tick` on.
    pub fn stamp_spell(&mut self, tick: Tick, spell: &Spell, config: &GameConfig)
        requires
            tick.0 + spell.cooldown.0 <= u64::MAX,
            tick.0 + group_pause(spell.group, spell.group_cooldown, *config) <= u64::MAX,
        ensures
            final(self)@ == spell_stamped(old(self)@, tick, *spell, *config),
            final(self).conditions == old(self).conditions,
    {
        self.stamp_spell_group(tick, spell.group, spell.group_cooldown, config);
        self.spell_ticks.insert(spell.id.0, tick.plus(spell.cooldown));
    }

    /// The kind of a creature.
    pub fn creature_kind(&self) -> (r: Option<&CreatureKind>)
        ensures
            match r {
                Some(kind) => self@.body == BodyView::Creature(*kind),
                None => self@.body is Player,
            },
    {
        match &self.body {
            AgentBody::Player(_) => None,
            AgentBody::Creature(kind) => Some(kind),
        }
    }
}

/// What is spent is not spent twice over: nothing is left below zero, nor above the maximum that
/// it was filled to.
pub proof fn law_pools_stay_within_bounds(pool: Pool, amount: u32)
    requires
        pool.current <= pool.maximum,
    ensures
        pool.less(amount).current <= pool.maximum,
        pool.more(amount).current <= pool.maximum,
        pool.more(amount).current >= pool.current,
        pool.less(amount).current <= pool.current,
{
}

impl Clone for Agent {
    fn clone(&self) -> (agent: Self)
        ensures
            agent@ == self@,
            agent.wf() == self.wf(),
    {
        let mut wounds: Vec<(AgentKey, u32)> = Vec::new();
        let mut i: usize = 0;
        while i < self.wounds.len()
            invariant
                i <= self.wounds@.len(),
                wounds@ == self.wounds@.take(i as int),
            decreases self.wounds.len() - i,
        {
            wounds.push((self.wounds[i].0, self.wounds[i].1));
            assert(self.wounds@.take(i + 1) =~= self.wounds@.take(i as int).push(
                self.wounds@[i as int],
            ));
            i += 1;
        }
        assert(wounds@ =~= self.wounds@);
        Agent {
            life: self.life,
            mana: self.mana,
            base_speed: self.base_speed,
            facing: self.facing,
            conditions: self.conditions.copy(),
            next_walk_tick: self.next_walk_tick,
            next_use_tick: self.next_use_tick,
            next_auto_attack_tick: self.next_auto_attack_tick,
            spell_ticks: self.spell_ticks.clone(),
            group_ticks: self.group_ticks.clone(),
            target: self.target,
            target_seq: self.target_seq,
            wounds,
            body: match &self.body {
                AgentBody::Player(player) => AgentBody::Player(player.copy()),
                AgentBody::Creature(kind) => AgentBody::Creature(share(kind)),
            },
        }
    }
}

/// A pool that is drawn on loses just as much as it has to give, and one that is filled gains just
/// as much as it lacks; how much it can hold does not change.
pub proof fn law_pools_give_and_take_what_they_can(pool: Pool, amount: u32)
    requires
        pool.current <= pool.maximum,
    ensures
        pool.less(amount).current == (if amount <= pool.current {
            pool.current - amount
        } else {
            0
        }),
        pool.more(amount).current == (if pool.current + amount <= pool.maximum {
            pool.current + amount
        } else {
            pool.maximum as int
        }),
        pool.less(amount).maximum == pool.maximum && pool.more(amount).maximum == pool.maximum,
        pool.spent() == pool.maximum - pool.current,
{
}

/// What is worn, what the agent is under and what it is by nature add up to its speed, which is
/// never less than none.
pub proof fn law_speed_adds_up(a: AgentView)
    ensures
        ({
            let change = match condition_of(a.conditions, ConditionKind::Speed) {
                Some(Condition::Speed { change, .. }) => change as int,
                _ => 0,
            };
            let worn = match a.body {
                BodyView::Player(player) => player.inventory.speed as int,
                BodyView::Creature(_) => 0,
            };
            let all = a.base_speed + change + worn;
            &&& 0 <= speed_of_agent(a) <= 65535
            &&& 0 <= all <= 65535 ==> speed_of_agent(a) == all
            &&& all < 0 ==> speed_of_agent(a) == 0
            &&& all > 65535 ==> speed_of_agent(a) == 65535
        }),
{
}

/// Mana that is spent is gone, and the shield that it feeds goes with the last of it and not before;
/// life and every other condition stay.
pub proof fn law_a_shield_goes_with_the_last_mana(a: AgentView, amount: u32, kind: ConditionKind)
    requires
        a.mana.current <= a.mana.maximum,
        one_of_each(a.conditions),
        kind != ConditionKind::MagicShield,
    ensures
        ({
            let after = drained(a, amount);
            &&& after.mana.current == (if amount <= a.mana.current {
                a.mana.current - amount
            } else {
                0
            })
            &&& after.life == a.life
            &&& condition_of(after.conditions, kind) == condition_of(a.conditions, kind)
            &&& under(after.conditions, ConditionKind::MagicShield) <==> under(
                a.conditions,
                ConditionKind::MagicShield,
            ) && amount < a.mana.current
        }),
{
    law_conditions_do_not_disturb_each_other(
        a.conditions,
        Condition::MagicShield { until: Tick(0) },
        kind,
    );
}

/// Casting a spell makes that spell and its group wait, each for its own time from now on, and
/// nothing else: other spells and other groups can be cast from as before.
pub proof fn law_a_cast_stamps_its_spell_and_group(
    a: AgentView,
    now: Tick,
    spell: Spell,
    config: GameConfig,
    other: SpellId,
    group: SpellGroup,
)
    requires
        now.0 + spell.cooldown.0 <= u64::MAX,
        spell.group_cooldown matches Some(c) ==> now.0 + c.0 <= u64::MAX,
        spell.group_cooldown is None ==> now.0 + config.combat.attack_group_cooldown.0 <= u64::MAX
            && now.0 + config.combat.healing_group_cooldown.0 <= u64::MAX && now.0
            + config.combat.support_group_cooldown.0 <= u64::MAX,
        other != spell.id,
        group != spell.group,
    ensures
        ({
            let after = spell_stamped(a, now, spell, config);
            let pause = match spell.group_cooldown {
                Some(c) => c,
                None => match spell.group {
                    SpellGroup::Attack => config.combat.attack_group_cooldown,
                    SpellGroup::Healing => config.combat.healing_group_cooldown,
                    SpellGroup::Support => config.combat.support_group_cooldown,
                },
            };
            &&& spell_ready(after, spell.id).0 == now.0 + spell.cooldown.0
            &&& group_ready(after, spell.group).0 == now.0 + pause.0
            &&& spell_ready(after, other) == spell_ready(a, other)
            &&& group_ready(after, group) == group_ready(a, group)
            &&& after.mana == a.mana && after.life == a.life && after.next_auto_attack_tick
                == a.next_auto_attack_tick
        }),
{
}

/// A pool that grows or shrinks has so much more or less room, within what can be counted, and
/// keeps what fits into it.
pub proof fn law_a_resized_pool_keeps_what_fits(pool: Pool, amount: i32)
    ensures
        ({
            let later = pool.resized(amount);
            &&& 0 <= pool.maximum + amount <= u32::MAX ==> later.maximum == pool.maximum + amount
            &&& pool.maximum + amount < 0 ==> later.maximum == 0
            &&& pool.maximum + amount > u32::MAX ==> later.maximum == u32::MAX
            &&& later.current <= later.maximum
            &&& pool.current <= later.maximum ==> later.current == pool.current
            &&& pool.current > later.maximum ==> later.current == later.maximum
        }),
{
}

} // verus!
