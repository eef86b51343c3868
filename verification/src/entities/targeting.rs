//! Whom a spell or an ability reaches.

use crate::entities::agent::AgentKey;
use crate::entities::effects::AreaShape;
use crate::entities::position::Position;
use std::sync::Arc;
use vstd::prelude::*;

verus! {

#[derive(Debug)]
pub enum TargetMode {
    Caster,
    /// The caster's own combat target, refused beyond `range`.
    Target { range: u16 },
    Area { origin: AreaOrigin, shape: Arc<AreaShape> },
    /// The player the cast names, refused beyond `range`.
    Named { range: u16 },
    /// The agent the cast aims at, refused when it aims at a tile or at nothing.
    Aimed,
}

/// Which agents a resolved cast may reach: a heal must not land on what a wave is for.
#[derive(Debug, Clone, Copy, PartialEq, Eq, Structural)]
pub enum TargetFilter {
    Any,
    Players,
}

#[derive(Debug, Clone, Copy, PartialEq, Eq, Structural)]
pub enum AreaOrigin {
    Caster,
    Target,
}

/// What a cast is aimed at.
#[derive(Debug, Clone, Copy, PartialEq, Eq, Structural)]
pub enum AreaTarget {
    NoTarget,
    Agent(AgentKey),
    Position(Position),
}

} // verus!
