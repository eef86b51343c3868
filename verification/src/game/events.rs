//! What happens in the world that sessions are told of, and which of them each event reaches.

use crate::entities::agent::AgentKey;
use crate::entities::combat::CombatDamage;
use crate::entities::creature::BloodType;
use crate::entities::effects::{AreaEffect, AreaEffectView, Missile};
use crate::entities::healing::RestoreType;
use crate::entities::items::ItemRef;
use crate::entities::player::{Player, PlayerView};
use crate::entities::position::{Direction, Position};
use crate::entities::skills::SkillType;
use crate::entities::spells::{SpellDelivery, SpellId};
use crate::game::spells::SpellCastingDenyReason;
use vstd::prelude::*;

verus! {

#[derive(Debug)]
pub enum BroadcastMessage {
    PlayerSpawned { agent_key: AgentKey, position: Position },
    AgentMoved { agent_key: AgentKey, direction: Direction, from_position: Position, to_position: Position },
    MoveItemDenied { agent_key: AgentKey, message: String },
    OpenContainer { agent_key: AgentKey, item: ItemRef },
    UseItemDenied { agent_key: AgentKey, message: String },
    AgentWalkDenied { agent_key: AgentKey },
    AgentTeleported { agent_key: AgentKey, from_position: Position, to_position: Position },
    AgentDespawned { agent_key: AgentKey, position: Position, snapshot: Option<Box<Player>> },
    LogoutDenied { agent_key: AgentKey },
    AgentSaid { agent_key: AgentKey, position: Position, message: String },
    AgentLostTarget { agent_key: AgentKey, seq: u32 },
    DamageTaken { source: Option<AgentKey>, target: AgentKey, position: Position, blood_type: Option<BloodType>, damage: CombatDamage },
    MissileLaunched { missile: Missile },
    AttackMissed { position: Position },
    ExperienceGained { agent_key: AgentKey, amount: u64 },
    SkillUpgraded { agent_key: AgentKey, skill_type: SkillType, gained: u16 },
    PotionDrunk { target: AgentKey, position: Position },
    AreaEffectAppeared { area_effect: AreaEffect },
    SpellCast { agent_key: AgentKey, position: Position, spell_id: SpellId },
    SpellDenied { agent_key: AgentKey, position: Position, reason: SpellCastingDenyReason, delivery: SpellDelivery },
    AgentHealed { agent_key: AgentKey, position: Position, amount: u32, restore_type: RestoreType },
    AgentActionMessage { position: Position, message: String },
    AgentSpeedChanged { agent_key: AgentKey, position: Position },
    PlayerManaUpdated { agent_key: AgentKey },
}

/// An event, with its texts as sequences.
pub enum EventView {
    PlayerSpawned { agent_key: AgentKey, position: Position },
    AgentMoved { agent_key: AgentKey, direction: Direction, from_position: Position, to_position: Position },
    MoveItemDenied { agent_key: AgentKey, message: Seq<char> },
    OpenContainer { agent_key: AgentKey, item: ItemRef },
    UseItemDenied { agent_key: AgentKey, message: Seq<char> },
    AgentWalkDenied { agent_key: AgentKey },
    AgentTeleported { agent_key: AgentKey, from_position: Position, to_position: Position },
    AgentDespawned { agent_key: AgentKey, position: Position, snapshot: Option<PlayerView> },
    LogoutDenied { agent_key: AgentKey },
    AgentSaid { agent_key: AgentKey, position: Position, message: Seq<char> },
    AgentLostTarget { agent_key: AgentKey, seq: u32 },
    DamageTaken { source: Option<AgentKey>, target: AgentKey, position: Position, blood_type: Option<BloodType>, damage: CombatDamage },
    MissileLaunched { missile: Missile },
    AttackMissed { position: Position },
    ExperienceGained { agent_key: AgentKey, amount: u64 },
    SkillUpgraded { agent_key: AgentKey, skill_type: SkillType, gained: u16 },
    PotionDrunk { target: AgentKey, position: Position },
    AreaEffectAppeared { area_effect: AreaEffectView },
    SpellCast { agent_key: AgentKey, position: Position, spell_id: SpellId },
    SpellDenied { agent_key: AgentKey, position: Position, reason: SpellCastingDenyReason, delivery: SpellDelivery },
    AgentHealed { agent_key: AgentKey, position: Position, amount: u32, restore_type: RestoreType },
    AgentActionMessage { position: Position, message: Seq<char> },
    AgentSpeedChanged { agent_key: AgentKey, position: Position },
    PlayerManaUpdated { agent_key: AgentKey },
}

impl View for BroadcastMessage {
    type V = EventView;

    open spec fn view(&self) -> EventView {
        match *self {
            BroadcastMessage::PlayerSpawned { agent_key, position } => EventView::PlayerSpawned { agent_key, position },
            BroadcastMessage::AgentMoved { agent_key, direction, from_position, to_position } => EventView::AgentMoved { agent_key, direction, from_position, to_position },
            BroadcastMessage::MoveItemDenied { agent_key, message } => EventView::MoveItemDenied { agent_key, message: message@ },
            BroadcastMessage::OpenContainer { agent_key, item } => EventView::OpenContainer { agent_key, item },
            BroadcastMessage::UseItemDenied { agent_key, message } => EventView::UseItemDenied { agent_key, message: message@ },
            BroadcastMessage::AgentWalkDenied { agent_key } => EventView::AgentWalkDenied { agent_key },
            BroadcastMessage::AgentTeleported { agent_key, from_position, to_position } => EventView::AgentTeleported { agent_key, from_position, to_position },
            BroadcastMessage::AgentDespawned { agent_key, position, snapshot } => EventView::AgentDespawned { agent_key, position, snapshot: match snapshot {
                    Some(player) => Some(player@),
                    None => None,
                } },
            BroadcastMessage::LogoutDenied { agent_key } => EventView::LogoutDenied { agent_key },
            BroadcastMessage::AgentSaid { agent_key, position, message } => EventView::AgentSaid { agent_key, position, message: message@ },
            BroadcastMessage::AgentLostTarget { agent_key, seq } => EventView::AgentLostTarget { agent_key, seq },
            BroadcastMessage::DamageTaken { source, target, position, blood_type, damage } => EventView::DamageTaken { source, target, position, blood_type, damage },
            BroadcastMessage::MissileLaunched { missile } => EventView::MissileLaunched { missile },
            BroadcastMessage::AttackMissed { position } => EventView::AttackMissed { position },
            BroadcastMessage::ExperienceGained { agent_key, amount } => EventView::ExperienceGained { agent_key, amount },
            BroadcastMessage::SkillUpgraded { agent_key, skill_type, gained } => EventView::SkillUpgraded { agent_key, skill_type, gained },
            BroadcastMessage::PotionDrunk { target, position } => EventView::PotionDrunk { target, position },
            BroadcastMessage::AreaEffectAppeared { area_effect } => EventView::AreaEffectAppeared { area_effect: area_effect@ },
            BroadcastMessage::SpellCast { agent_key, position, spell_id } => EventView::SpellCast { agent_key, position, spell_id },
            BroadcastMessage::SpellDenied { agent_key, position, reason, delivery } => EventView::SpellDenied { agent_key, position, reason, delivery },
            BroadcastMessage::AgentHealed { agent_key, position, amount, restore_type } => EventView::AgentHealed { agent_key, position, amount, restore_type },
            BroadcastMessage::AgentActionMessage { position, message } => EventView::AgentActionMessage { position, message: message@ },
            BroadcastMessage::AgentSpeedChanged { agent_key, position } => EventView::AgentSpeedChanged { agent_key, position },
            BroadcastMessage::PlayerManaUpdated { agent_key } => EventView::PlayerManaUpdated { agent_key },
        }
    }
}

/// Events in the order in which they came.
pub open spec fn event_views(events: Seq<BroadcastMessage>) -> Seq<EventView> {
    Seq::new(events.len(), |i: int| events[i]@)
}

/// Who a broadcast reaches.
#[derive(Debug, Clone, Copy, PartialEq, Eq, Structural)]
pub enum Routing {
    Agent(AgentKey),
    /// Those who see a tile, on its own floor only or from others too.
    Viewport { at: Position, same_floor: bool },
    /// Those who see one tile or the other.
    EitherViewport(Position, Position),
    ViewportAndAgent { at: Position, agent: AgentKey },
    /// Those who see where a walker came from or went to, and the walker.
    Move { from: Position, to: Position, mover: AgentKey },
}

/// Who an event reaches.
pub open spec fn route_of(event: EventView) -> Routing {
    match event {
        EventView::PlayerSpawned { position, .. } => Routing::Viewport {
            at: position,
            same_floor: false,
        },
        EventView::DamageTaken { position, .. } => Routing::Viewport {
            at: position,
            same_floor: false,
        },
        EventView::AttackMissed { position } => Routing::Viewport {
            at: position,
            same_floor: false,
        },
        EventView::AreaEffectAppeared { area_effect } => Routing::Viewport {
            at: area_effect.origin,
            same_floor: false,
        },
        EventView::AgentSpeedChanged { position, .. } => Routing::Viewport {
            at: position,
            same_floor: false,
        },
        EventView::PotionDrunk { position, .. } => Routing::Viewport {
            at: position,
            same_floor: true,
        },
        EventView::SpellCast { position, .. } => Routing::Viewport {
            at: position,
            same_floor: true,
        },
        EventView::SpellDenied { position, .. } => Routing::Viewport {
            at: position,
            same_floor: true,
        },
        EventView::AgentSaid { position, .. } => Routing::Viewport {
            at: position,
            same_floor: true,
        },
        EventView::AgentActionMessage { position, .. } => Routing::Viewport {
            at: position,
            same_floor: true,
        },
        EventView::MoveItemDenied { agent_key, .. } => Routing::Agent(agent_key),
        EventView::OpenContainer { agent_key, .. } => Routing::Agent(agent_key),
        EventView::AgentWalkDenied { agent_key } => Routing::Agent(agent_key),
        EventView::AgentLostTarget { agent_key, .. } => Routing::Agent(agent_key),
        EventView::UseItemDenied { agent_key, .. } => Routing::Agent(agent_key),
        EventView::LogoutDenied { agent_key } => Routing::Agent(agent_key),
        EventView::ExperienceGained { agent_key, .. } => Routing::Agent(agent_key),
        EventView::SkillUpgraded { agent_key, .. } => Routing::Agent(agent_key),
        EventView::PlayerManaUpdated { agent_key } => Routing::Agent(agent_key),
        EventView::AgentMoved { agent_key, from_position, to_position, .. } => Routing::Move {
            from: from_position,
            to: to_position,
            mover: agent_key,
        },
        EventView::AgentTeleported { from_position, to_position, .. } => Routing::EitherViewport(
            from_position,
            to_position,
        ),
        EventView::MissileLaunched { missile } => Routing::EitherViewport(missile.from, missile.to),
        EventView::AgentDespawned { agent_key, position, .. } => Routing::ViewportAndAgent {
            at: position,
            agent: agent_key,
        },
        EventView::AgentHealed { agent_key, position, restore_type, .. } => match restore_type {
            RestoreType::Life => Routing::Viewport { at: position, same_floor: false },
            RestoreType::Mana => Routing::Agent(agent_key),
        },
    }
}

impl BroadcastMessage {
    /// Who the event reaches.
    pub fn routing(&self) -> (r: Routing)
        ensures
            r == route_of(self@),
    {
        match self {
            BroadcastMessage::PlayerSpawned { position, .. }
            | BroadcastMessage::DamageTaken { position, .. }
            | BroadcastMessage::AttackMissed { position }
            | BroadcastMessage::AgentSpeedChanged { position, .. } => Routing::Viewport {
                at: *position,
                same_floor: false,
            },
            BroadcastMessage::PotionDrunk { position, .. }
            | BroadcastMessage::SpellCast { position, .. }
            | BroadcastMessage::SpellDenied { position, .. }
            | BroadcastMessage::AgentSaid { position, .. }
            | BroadcastMessage::AgentActionMessage { position, .. } => Routing::Viewport {
                at: *position,
                same_floor: true,
            },
            BroadcastMessage::AreaEffectAppeared { area_effect } => Routing::Viewport {
                at: area_effect.origin,
                same_floor: false,
            },
            BroadcastMessage::MoveItemDenied { agent_key, .. }
            | BroadcastMessage::OpenContainer { agent_key, .. }
            | BroadcastMessage::AgentWalkDenied { agent_key }
            | BroadcastMessage::AgentLostTarget { agent_key, .. }
            | BroadcastMessage::UseItemDenied { agent_key, .. }
            | BroadcastMessage::LogoutDenied { agent_key }
            | BroadcastMessage::ExperienceGained { agent_key, .. }
            | BroadcastMessage::SkillUpgraded { agent_key, .. }
            | BroadcastMessage::PlayerManaUpdated { agent_key } => Routing::Agent(*agent_key),
            BroadcastMessage::AgentMoved { agent_key, from_position, to_position, .. } => {
                Routing::Move { from: *from_position, to: *to_position, mover: *agent_key }
            },
            BroadcastMessage::AgentTeleported { from_position, to_position, .. } => {
                Routing::EitherViewport(*from_position, *to_position)
            },
            BroadcastMessage::MissileLaunched { missile } => Routing::EitherViewport(
                missile.from,
                missile.to,
            ),
            BroadcastMessage::AgentDespawned { agent_key, position, .. } => {
                Routing::ViewportAndAgent { at: *position, agent: *agent_key }
            },
            BroadcastMessage::AgentHealed { agent_key, position, restore_type, .. } => {
                match restore_type {
                    RestoreType::Life => Routing::Viewport { at: *position, same_floor: false },
                    RestoreType::Mana => Routing::Agent(*agent_key),
                }
            },
        }
    }
}

} // verus!
