//! What harms an agent.

use crate::entities::agent::AgentKey;
use crate::entities::conditions::ConditionSpec;
use crate::entities::effects::{AreaEffect, Missile};
use vstd::prelude::*;

verus! {

#[derive(Debug, Clone, Copy, PartialEq, Eq, Hash, Structural)]
pub enum CombatElement {
    Physical,
    Fire,
    Earth,
    Energy,
    Mana,
}

/// What a roll may come out as, both ends counted.
#[derive(Debug, Clone, Copy, PartialEq, Eq, Structural)]
pub struct Bounds {
    pub min: u32,
    pub max: u32,
}

/// A hit, and what was already kept from it.
#[derive(Debug, Clone, Copy, PartialEq, Eq, Structural)]
pub struct CombatDamage {
    pub element: CombatElement,
    pub value: u32,
    pub blocked_shield: bool,
    pub blocked_armor: bool,
}

impl CombatDamage {
    /// A hit of which nothing was blocked.
    pub open spec fn plain(element: CombatElement, value: u32) -> CombatDamage {
        CombatDamage { element, value, blocked_shield: false, blocked_armor: false }
    }

    /// A hit of which nothing was blocked.
    pub fn unblocked(element: CombatElement, value: u32) -> (d: CombatDamage)
        ensures
            d == CombatDamage::plain(element, value),
    {
        CombatDamage { element, value, blocked_shield: false, blocked_armor: false }
    }
}

/// An attack that was worked out and has yet to be dealt. It costs its attacker nothing and trains
/// nothing.
#[derive(Debug)]
pub struct AttackPlan {
    pub attacker: AgentKey,
    pub damage: Vec<(AgentKey, CombatDamage)>,
    pub missile: Option<Missile>,
    pub area_effect: Option<AreaEffect>,
    pub missed: bool,
    /// What it leaves behind on whoever it hits.
    pub condition: Option<ConditionSpec>,
}

} // verus!
