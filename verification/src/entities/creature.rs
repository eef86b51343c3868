//! The kinds of creatures and what they can do.

use crate::entities::combat::{Bounds, CombatElement};
use crate::entities::conditions::ConditionSpec;
use crate::entities::effects::{EffectId, MissileId};
use crate::entities::spells::SpellGroup;
use crate::entities::support::SupportCast;
use crate::entities::targeting::TargetMode;
use vstd::prelude::*;

verus! {

/// The place of an ability among those of its kind.
#[derive(Debug, Clone, Copy, PartialEq, Eq, Structural)]
pub struct CreatureAbilityId(pub u8);

#[derive(Debug, Clone, Copy, PartialEq, Eq, Structural)]
pub enum BloodType {
    Blood,
    Slime,
    Bones,
}

/// What an attack does: how much with which element, and what it leaves behind.
#[derive(Debug, Clone, Copy, PartialEq, Eq, Structural)]
pub struct CreatureDamage {
    pub element: CombatElement,
    pub value: Bounds,
    pub condition: Option<ConditionSpec>,
}

#[derive(Debug)]
pub struct CreatureAttack {
    pub target: TargetMode,
    pub damage: CreatureDamage,
    pub effect_id: Option<EffectId>,
    pub missile_id: Option<MissileId>,
}

#[derive(Debug)]
pub struct ConditionAttack {
    pub target: TargetMode,
    pub condition: ConditionSpec,
    pub effect_id: Option<EffectId>,
    pub missile_id: Option<MissileId>,
}

#[derive(Debug)]
pub enum AbilityEffect {
    Attack(CreatureAttack),
    Heal(Bounds),
    Support(SupportCast),
    Condition(ConditionAttack),
}

impl AbilityEffect {
    /// The group whose cooldown an ability starts.
    pub open spec fn group(&self) -> SpellGroup {
        match self {
            AbilityEffect::Attack(_) => SpellGroup::Attack,
            AbilityEffect::Heal(_) => SpellGroup::Healing,
            AbilityEffect::Support(_) => SpellGroup::Support,
            AbilityEffect::Condition(_) => SpellGroup::Attack,
        }
    }

    /// The group whose cooldown an ability starts.
    pub fn cooldown_group(&self) -> (g: SpellGroup)
        ensures
            g == self.group(),
    {
        match self {
            AbilityEffect::Attack(_) => SpellGroup::Attack,
            AbilityEffect::Heal(_) => SpellGroup::Healing,
            AbilityEffect::Support(_) => SpellGroup::Support,
            AbilityEffect::Condition(_) => SpellGroup::Attack,
        }
    }
}

#[derive(Debug)]
pub struct CreatureKind {
    pub name: String,
    pub immune_to_paralysis: bool,
    pub abilities: Vec<AbilityEffect>,
}

impl CreatureKind {
    /// What an ability does, where the kind has it.
    pub fn get_ability_effect(&self, id: CreatureAbilityId) -> (r: Option<&AbilityEffect>)
        ensures
            match r {
                Some(effect) => id.0 < self.abilities@.len() && *effect
                    == self.abilities@[id.0 as int],
                None => id.0 >= self.abilities@.len(),
            },
    {
        if (id.0 as usize) < self.abilities.len() {
            Some(&self.abilities[id.0 as usize])
        } else {
            None
        }
    }
}

/// What a creature does holds up the group it belongs to: a wounding is an attack as a blow is.
pub proof fn law_abilities_belong_to_their_groups(effect: AbilityEffect)
    ensures
        effect.group() is Attack <==> effect is Attack || effect is Condition,
        effect.group() is Healing <==> effect is Heal,
        effect.group() is Support <==> effect is Support,
{
}

} // verus!
