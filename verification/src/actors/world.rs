//! What the world is asked to do.

use crate::entities::agent::AgentKey;
use crate::entities::combat::{CombatDamage, CombatElement};
use crate::entities::conditions::TimedCondition;
use crate::entities::items::{ItemPlacement, ItemRef};
use crate::entities::position::Position;
use crate::entities::spells::{ChainAttack, SpellId};
use crate::entities::targeting::AreaTarget;
use crate::game::tick::Tick;
use crate::messages::optional_view;
use vstd::prelude::*;

verus! {

/// What an item is used on.
#[derive(Debug, PartialEq, Eq)]
pub struct UseTarget {
    pub item: Option<ItemRef>,
    pub agent: Option<AgentKey>,
    pub position: Option<Position>,
}

#[derive(Debug)]
pub enum WorldCommand {
    RegeneratePlayer { agent_key: AgentKey, generation: u32 },
    ConditionExpired { agent_key: AgentKey, kind: TimedCondition },
    DamageOverTimeTick { agent_key: AgentKey, element: CombatElement, generation: u32 },
    SpeedExpired { agent_key: AgentKey, generation: u32 },
    DecayItem { item: ItemRef },
    ChainAttack {
        attacker: AgentKey,
        sources: Vec<(Position, CombatDamage)>,
        chain: ChainAttack,
        targeted: Vec<AgentKey>,
    },
    SetTarget { agent_key: AgentKey, target: Option<AgentKey>, seq: u32 },
    CastSpell { agent_key: AgentKey, spell: SpellId, target: AreaTarget, param: Option<String> },
    MoveItem { agent: AgentKey, source: ItemRef, amount: u8, to: ItemPlacement },
    UseItem { agent: AgentKey, item: ItemRef },
    UseItemWith { agent: AgentKey, source: ItemRef, target: UseTarget },
}

/// A command, with its lists and texts as sequences.
pub enum CommandView {
    RegeneratePlayer { agent_key: AgentKey, generation: u32 },
    ConditionExpired { agent_key: AgentKey, kind: TimedCondition },
    DamageOverTimeTick { agent_key: AgentKey, element: CombatElement, generation: u32 },
    SpeedExpired { agent_key: AgentKey, generation: u32 },
    DecayItem { item: ItemRef },
    ChainAttack {
        attacker: AgentKey,
        sources: Seq<(Position, CombatDamage)>,
        chain: ChainAttack,
        targeted: Seq<AgentKey>,
    },
    SetTarget { agent_key: AgentKey, target: Option<AgentKey>, seq: u32 },
    CastSpell { agent_key: AgentKey, spell: SpellId, target: AreaTarget, param: Option<Seq<char>> },
    MoveItem { agent: AgentKey, source: ItemRef, amount: u8, to: ItemPlacement },
    UseItem { agent: AgentKey, item: ItemRef },
    UseItemWith { agent: AgentKey, source: ItemRef, target: UseTarget },
}

impl View for WorldCommand {
    type V = CommandView;

    open spec fn view(&self) -> CommandView {
        match *self {
            WorldCommand::RegeneratePlayer { agent_key, generation } => {
                CommandView::RegeneratePlayer { agent_key, generation }
            },
            WorldCommand::ConditionExpired { agent_key, kind } => CommandView::ConditionExpired {
                agent_key,
                kind,
            },
            WorldCommand::DamageOverTimeTick { agent_key, element, generation } => {
                CommandView::DamageOverTimeTick { agent_key, element, generation }
            },
            WorldCommand::SpeedExpired { agent_key, generation } => CommandView::SpeedExpired {
                agent_key,
                generation,
            },
            WorldCommand::DecayItem { item } => CommandView::DecayItem { item },
            WorldCommand::ChainAttack { attacker, sources, chain, targeted } => {
                CommandView::ChainAttack {
                    attacker,
                    sources: sources@,
                    chain,
                    targeted: targeted@,
                }
            },
            WorldCommand::SetTarget { agent_key, target, seq } => CommandView::SetTarget {
                agent_key,
                target,
                seq,
            },
            WorldCommand::CastSpell { agent_key, spell, target, param } => CommandView::CastSpell {
                agent_key,
                spell,
                target,
                param: optional_view(param),
            },
            WorldCommand::MoveItem { agent, source, amount, to } => CommandView::MoveItem {
                agent,
                source,
                amount,
                to,
            },
            WorldCommand::UseItem { agent, item } => CommandView::UseItem { agent, item },
            WorldCommand::UseItemWith { agent, source, target } => CommandView::UseItemWith {
                agent,
                source,
                target,
            },
        }
    }
}

/// A command that the world is given at a tick.
#[derive(Debug)]
pub struct ScheduledCommand {
    pub at_tick: Tick,
    pub command: WorldCommand,
}

pub struct ScheduledView {
    pub at_tick: Tick,
    pub command: CommandView,
}

/// Commands in the order in which they were booked.
pub open spec fn scheduled_views(commands: Seq<ScheduledCommand>) -> Seq<ScheduledView> {
    Seq::new(
        commands.len(),
        |i: int| ScheduledView { at_tick: commands[i].at_tick, command: commands[i].command@ },
    )
}

} // verus!
