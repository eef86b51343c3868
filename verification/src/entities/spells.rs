//! Spells and the groups that share a cooldown.

use crate::entities::agent::AgentId;
use crate::entities::combat::CombatElement;
use crate::entities::effects::{EffectId, MissileId};
use crate::entities::position::Position;
use crate::entities::support::{FloatBits, SupportCast};
use crate::entities::targeting::{AreaOrigin, TargetMode};
use crate::entities::vocation::Vocation;
use crate::game::config::GameConfig;
use crate::game::tick::TickDelta;
use vstd::prelude::*;

verus! {

#[derive(Debug, Clone, Copy, PartialEq, Eq, PartialOrd, Ord, Hash, Structural)]
pub struct SpellId(pub u16);

/// The spells that share one cooldown.
#[derive(Debug, Clone, Copy, PartialEq, Eq, Hash, Structural)]
pub enum SpellGroup {
    Attack,
    Healing,
    Support,
}

impl SpellGroup {
    /// The group's number on the wire.
    pub open spec fn id(self) -> u8 {
        match self {
            SpellGroup::Attack => 0,
            SpellGroup::Healing => 1,
            SpellGroup::Support => 2,
        }
    }

    /// The group's place in a list of all groups.
    pub fn index(&self) -> (i: usize)
        ensures
            i == self.id(),
    {
        match self {
            SpellGroup::Attack => 0,
            SpellGroup::Healing => 1,
            SpellGroup::Support => 2,
        }
    }

    /// The group's number on the wire.
    pub fn as_id(&self) -> (id: u8)
        ensures
            id == self.id(),
    {
        match self {
            SpellGroup::Attack => 0,
            SpellGroup::Healing => 1,
            SpellGroup::Support => 2,
        }
    }

    pub open spec fn spec_cooldown(self, config: GameConfig) -> TickDelta {
        match self {
            SpellGroup::Attack => config.combat.attack_group_cooldown,
            SpellGroup::Healing => config.combat.healing_group_cooldown,
            SpellGroup::Support => config.combat.support_group_cooldown,
        }
    }

    /// How long no other spell of the group can be cast, where the spell itself does not say.
    pub fn cooldown(&self, config: &GameConfig) -> (d: TickDelta)
        ensures
            d == self.spec_cooldown(*config),
    {
        match self {
            SpellGroup::Attack => config.combat.attack_group_cooldown,
            SpellGroup::Healing => config.combat.healing_group_cooldown,
            SpellGroup::Support => config.combat.support_group_cooldown,
        }
    }
}

/// How a spell's power grows. The factors of magic and melee are percentages of `base_power`,
/// that of the level is power per level, and `flat` is added to the centre; the spreads are the
/// fractions below and above the centre that a roll spans.
#[derive(Debug, Clone, Copy, PartialEq, Eq, Structural)]
pub struct PowerCurve {
    pub base_power: FloatBits,
    pub level_factor: FloatBits,
    pub magic_factor: FloatBits,
    pub melee_factor: FloatBits,
    pub spread_min: FloatBits,
    pub spread_max: FloatBits,
    pub flat: FloatBits,
}

#[derive(Debug, Clone, Copy, PartialEq, Eq, Structural)]
pub enum ChainSorting {
    Closest,
}

/// An attack that leaps from those it hit to others near them.
#[derive(Debug, PartialEq, Eq)]
pub struct ChainAttack {
    pub num_targets: u16,
    pub damage_factor: FloatBits,
    pub delay_ticks: TickDelta,
    pub max_range: u16,
    pub sorting: ChainSorting,
    pub missile_id: MissileId,
    pub effect_id: Option<EffectId>,
    pub chain: Option<Box<ChainAttack>>,
}

impl ChainAttack {
    /// The same chain once more.
    pub fn copy(&self) -> (r: ChainAttack)
        ensures
            r == *self,
        decreases *self,
    {
        let chain: Option<Box<ChainAttack>> = match &self.chain {
            Some(next) => Some(Box::new(next.copy())),
            None => None,
        };
        ChainAttack {
            num_targets: self.num_targets,
            damage_factor: self.damage_factor,
            delay_ticks: self.delay_ticks,
            max_range: self.max_range,
            sorting: self.sorting,
            missile_id: self.missile_id,
            effect_id: self.effect_id,
            chain,
        }
    }
}

#[derive(Debug)]
pub struct SpellAttack {
    pub target: TargetMode,
    pub element: CombatElement,
    pub power: PowerCurve,
    pub effect_id: EffectId,
    pub missile_id: Option<MissileId>,
    pub chain: Option<ChainAttack>,
    pub weapon_required: bool,
}

#[derive(Debug)]
pub struct SpellHealing {
    pub target: TargetMode,
    pub power: PowerCurve,
}

#[derive(Debug)]
pub enum SpellEffect {
    Attack(SpellAttack),
    Healing(SpellHealing),
    Support(SupportCast),
}

#[derive(Debug)]
pub struct Spell {
    pub id: SpellId,
    pub name: String,
    pub words: String,
    pub group: SpellGroup,
    pub group_cooldown: Option<TickDelta>,
    pub cooldown: TickDelta,
    pub mana: u32,
    pub level: u16,
    pub icon: u16,
    pub vocations: Vec<Vocation>,
    pub effect: SpellEffect,
    pub delivery: SpellDelivery,
}

impl Spell {
    pub open spec fn target_mode(&self) -> TargetMode {
        match self.effect {
            SpellEffect::Attack(attack) => attack.target,
            SpellEffect::Healing(healing) => healing.target,
            SpellEffect::Support(cast) => cast.target,
        }
    }

    /// Whether a cast needs an agent or a tile to aim at.
    pub fn is_aimable(&self) -> (r: bool)
        ensures
            r == (self.target_mode() matches TargetMode::Area { origin: AreaOrigin::Target, .. }),
    {
        let target: &TargetMode = match &self.effect {
            SpellEffect::Attack(attack) => &attack.target,
            SpellEffect::Healing(healing) => &healing.target,
            SpellEffect::Support(cast) => &cast.target,
        };
        match target {
            TargetMode::Area { origin: AreaOrigin::Target, .. } => true,
            _ => false,
        }
    }
}

/// What a spell is cast with.
#[derive(Debug, Clone, Copy, PartialEq, Eq, Structural)]
pub enum SpellDelivery {
    Words,
    Rune,
}

/// What a client aims a spell at.
#[derive(Debug, Clone, Copy, PartialEq, Eq, Structural)]
pub enum SpellTarget {
    NoTarget,
    Agent(AgentId),
    Position(Position),
}

} // verus!
