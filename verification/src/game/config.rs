//! The numbers that the rules are tuned with.

use crate::entities::effects::EffectId;
use crate::game::tick::TickDelta;
use crate::messages::Color;
use vstd::prelude::*;

verus! {

#[derive(Debug, Clone, Copy, PartialEq, Eq, Structural)]
pub struct CombatConfig {
    pub attack_group_cooldown: TickDelta,
    pub healing_group_cooldown: TickDelta,
    pub support_group_cooldown: TickDelta,
    pub auto_attack_ticks: TickDelta,
}

#[derive(Debug, Clone, Copy, PartialEq, Eq, Structural)]
pub struct EffectIds {
    pub healing_spell: EffectId,
    pub mana_hit: EffectId,
    pub miss: EffectId,
    pub puff: EffectId,
}

#[derive(Debug, Clone, Copy, PartialEq, Eq, Structural)]
pub struct TextColors {
    pub blue: Color,
    pub palepink: Color,
}

#[derive(Debug, Clone, Copy, PartialEq, Eq, Structural)]
pub struct GameConfig {
    pub max_fed_ticks: TickDelta,
    pub logout_block_ticks: TickDelta,
    pub regen_ticks: TickDelta,
    pub use_item_cooldown_ticks: TickDelta,
    pub combat: CombatConfig,
    pub effect_ids: EffectIds,
    pub text_colors: TextColors,
}

} // verus!
