//! What gives life and mana back.

use crate::entities::agent::AgentKey;
use vstd::prelude::*;

verus! {

#[derive(Debug, Clone, Copy, PartialEq, Eq, Structural)]
pub enum RestoreType {
    Life,
    Mana,
}

/// How much is given back of what.
#[derive(Debug, Clone, Copy, PartialEq, Eq, Structural)]
pub struct Restore {
    pub life: Option<u32>,
    pub mana: Option<u32>,
}

/// A healing that was worked out and has yet to be done.
#[derive(Debug)]
pub struct HealPlan {
    pub caster: AgentKey,
    pub restores: Vec<(AgentKey, Restore)>,
}

} // verus!
