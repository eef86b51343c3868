//! Whom each event reaches.

use rustibia::entities::agent::{Agent, AgentKey};
use rustibia::entities::combat::{CombatDamage, CombatElement};
use rustibia::entities::creature::BloodType;
use rustibia::entities::effects::{AreaEffect, EffectId, Missile, MissileId};
use rustibia::entities::healing::RestoreType;
use rustibia::entities::position::{Direction, Position};
use rustibia::entities::spells::{SpellDelivery, SpellId};
use rustibia::game::events::{BroadcastMessage, Routing};
use rustibia::game::spells::SpellCastingDenyReason;


fn key(n: u64) -> AgentKey {
    AgentKey((1 << 32) | n)
}

fn hit(agent_key: AgentKey, value: u32) -> BroadcastMessage {
    BroadcastMessage::DamageTaken {
        source: None,
        target: agent_key,
        position: Position::new(10, 10, 7),
        blood_type: Some(BloodType::Blood),
        damage: CombatDamage {
            element: CombatElement::Physical,
            value,
            blocked_shield: false,
            blocked_armor: false,
        },
    }
}

fn at() -> Position {
    Position::new(10, 10, 7)
}

fn same_floor(m: BroadcastMessage) -> bool {
    match m.routing() {
        Routing::Viewport { same_floor, .. } => same_floor,
        other => panic!("expected a viewport routing, got {:?}", other),
    }
}

#[test]
fn only_the_local_messages_are_limited_to_the_speakers_floor() {
    assert!(same_floor(BroadcastMessage::AgentSaid {
        agent_key: key(1),
        position: at(),
        message: "hello".to_owned()
    }));

    assert!(same_floor(BroadcastMessage::PotionDrunk { target: key(1), position: at() }));
    assert!(same_floor(BroadcastMessage::SpellCast {
        agent_key: key(1),
        position: at(),
        spell_id: SpellId(1)
    }));
    assert!(same_floor(BroadcastMessage::SpellDenied {
        agent_key: key(1),
        position: at(),
        reason: SpellCastingDenyReason::NoMana,
        delivery: SpellDelivery::Words
    }));

    assert!(!same_floor(hit(key(1), 5)));
    assert!(!same_floor(BroadcastMessage::AttackMissed { position: at() }));
    assert!(!same_floor(BroadcastMessage::PlayerSpawned { agent_key: key(1), position: at() }));
    assert!(!same_floor(BroadcastMessage::AreaEffectAppeared {
        area_effect: AreaEffect::single(EffectId(1), at())
    }));
    assert!(!same_floor(BroadcastMessage::AgentHealed {
        agent_key: key(1),
        position: at(),
        amount: 5,
        restore_type: RestoreType::Life,
    }));
}

#[test]
fn a_despawn_reaches_the_viewport_as_well_as_the_agent_it_removed() {
    let message = BroadcastMessage::AgentDespawned {
        agent_key: key(1),
        position: at(),
        snapshot: None,
    };

    assert!(matches!(
        message.routing(),
        Routing::ViewportAndAgent { agent, .. } if agent == key(1)
    ));
}

#[test]
fn speech_routes_from_the_tile_it_carries() {
    let message = BroadcastMessage::AgentSaid {
        agent_key: key(1),
        position: Position::new(42, 43, 5),
        message: "hello".to_owned(),
    };

    assert!(matches!(
        message.routing(),
        Routing::Viewport { at, .. } if at == Position::new(42, 43, 5)
    ));
}

#[test]
fn mana_is_its_owners_own_business() {
    let message = BroadcastMessage::AgentHealed {
        agent_key: key(1),
        position: at(),
        amount: 5,
        restore_type: RestoreType::Mana,
    };
    assert_eq!(message.routing(), Routing::Agent(key(1)));
    assert_eq!(
        BroadcastMessage::PlayerManaUpdated { agent_key: key(2) }.routing(),
        Routing::Agent(key(2))
    );
}

#[test]
fn what_flies_is_seen_from_both_its_ends() {
    let missile =
        Missile { missile_id: MissileId(3), from: at(), to: Position::new(20, 10, 7) };
    assert_eq!(
        BroadcastMessage::MissileLaunched { missile }.routing(),
        Routing::EitherViewport(at(), Position::new(20, 10, 7))
    );
    let walk = BroadcastMessage::AgentMoved {
        agent_key: key(1),
        direction: Direction::East,
        from_position: at(),
        to_position: Position::new(11, 10, 7),
    };
    assert_eq!(
        walk.routing(),
        Routing::Move { from: at(), to: Position::new(11, 10, 7), mover: key(1) }
    );
}
