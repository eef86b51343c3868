//! What supporting spells and abilities do.

use crate::entities::combat::CombatElement;
use crate::entities::conditions::SpeedEffect;
use crate::entities::effects::{EffectId, MissileId};
use crate::entities::targeting::TargetMode;
use crate::game::tick::TickDelta;
use vstd::prelude::*;

verus! {

/// A single-precision number, by its bits.
#[derive(Debug, Clone, Copy, PartialEq, Eq, Structural)]
pub struct FloatBits(pub u32);

/// One end of a speed roll: `factor` times the target's base speed, and `flat` on top.
#[derive(Debug, Clone, Copy, PartialEq, Eq, Structural)]
pub struct SpeedTerm {
    pub factor: FloatBits,
    pub flat: i16,
}

#[derive(Debug, Clone, Copy, PartialEq, Eq, Structural)]
pub struct SpeedFormula {
    pub min: SpeedTerm,
    pub max: SpeedTerm,
}

#[derive(Debug, Clone, Copy, PartialEq, Eq, Structural)]
pub enum SupportEffect {
    Speed { effect: SpeedEffect, formula: SpeedFormula, duration: TickDelta },
    MagicShield { duration: TickDelta },
    Cure { element: CombatElement },
}

#[derive(Debug)]
pub struct SupportCast {
    pub target: TargetMode,
    pub effect: SupportEffect,
    pub effect_id: Option<EffectId>,
    pub missile_id: Option<MissileId>,
}

} // verus!
