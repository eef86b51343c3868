//! What a bot decides to do.

use rustibia::clock::{Duration, Instant};
use rustibia::constants::{CARRIED_SEARCH_FLAG, INVENTORY_COORD_FLAG};
use rustibia::entities::agent::{AgentId, Pool};
use rustibia::entities::items::{
    ClientItemRef, ContainerId, ItemAttribute, ItemConfig, ItemFlag, ItemId,
};
use rustibia::entities::position::{Direction, Position};
use rustibia::entities::spells::{SpellGroup, SpellId, SpellTarget};
use rustibia::loadtest::brain::{
    Brain, DryPotion, adjacent_directions, below_pct, choose_direction, corpse_item_ref,
    step_duration,
};
use rustibia::loadtest::config::{Behaviour, Coords, Route};
use rustibia::loadtest::world::{ItemCatalogue, KnownSpell, VisibleAgent, World};
use rustibia::messages::{ClientMessage, ItemStack, ServerMessage};
use std::collections::HashMap;
use std::sync::Arc;

fn a_kind(id: u16, name: &str, flag: ItemFlag, attributes: Vec<ItemAttribute>) -> (u16, Arc<ItemConfig>) {
    (id, Arc::new(ItemConfig::new(ItemId(id), name.to_string(), vec![flag], attributes)))
}

const CORPSE_ID: u16 = 4;
const STACKABLE_ID: u16 = 5;

fn catalogue() -> ItemCatalogue {
    Arc::new(HashMap::from([
        a_kind(1, "ground", ItemFlag::Ground, vec![ItemAttribute::TileFriction(150)]),
        a_kind(2, "ground", ItemFlag::Ground, vec![ItemAttribute::TileFriction(260)]),
        a_kind(3, "wall", ItemFlag::Unpass, Vec::new()),
        a_kind(CORPSE_ID, "container", ItemFlag::Container, vec![ItemAttribute::Capacity(20)]),
        a_kind(STACKABLE_ID, "stackable", ItemFlag::Cumulative, Vec::new()),
    ]))
}

fn stack(ids: &[ItemId]) -> ItemStack {
    let mut stack: ItemStack = Default::default();
    for (slot, id) in ids.iter().enumerate() {
        stack[slot] = Some((*id, 1));
    }
    stack
}

fn tile_key(p: &Position) -> u64 {
    p.x as u64 * 0x100_0000 + p.y as u64 * 0x100 + p.z as u64
}

fn set_tile(world: &mut World, position: Position, items: ItemStack) {
    world.tiles.insert(tile_key(&position), items);
}

fn block(world: &mut World, position: Position) {
    set_tile(world, position, stack(&[ItemId(1), ItemId(3)]));
}

fn see_named_creature(world: &mut World, id: AgentId, position: Position, name: &str) {
    world.agents.insert(id.0, VisibleAgent { position, name: name.to_string(), life: 100 });
}

fn see_creature(world: &mut World, id: AgentId, position: Position) {
    see_named_creature(world, id, position, "");
}

fn set_life(world: &mut World, current: u32, maximum: u32) {
    world.life = Pool { current, maximum };
}

fn set_mana(world: &mut World, current: u32, maximum: u32) {
    world.mana = Pool { current, maximum };
}

fn carry(world: &mut World, item: ItemId, amount: u8) {
    let carried = ContainerId(u16::MAX);
    world.mark_carried(carried);
    let content = world.containers.entry(carried.0).or_default();
    content.retain(|slot| !matches!(slot, Some((id, _)) if *id == item));
    if amount > 0 {
        content.push(Some((item, amount)));
    }
}

fn place_self(world: &mut World, id: AgentId, position: Position, speed: u16) {
    world.agent_id = id;
    world.position = position;
    world.speed = speed;
}

const TICK_MS: u64 = 50;

/// A pace that grows with the friction and is three times as slow on a diagonal.
fn pace(speed: u16, friction: u16, diagonal: bool) -> u64 {
    let ticks = friction as u64 * 10 / speed.max(1) as u64;
    if diagonal {
        ticks * 3
    } else {
        ticks
    }
}

fn now() -> Instant {
    Instant { nanos: 5_000_000_000 }
}

const CORPSE_ABANDON: Duration = Duration { nanos: 2_000_000_000 };

fn decide(brain: &mut Brain, world: &World, at: Instant) -> Option<ClientMessage> {
    brain.decide(world, at, &pace, TICK_MS)
}

fn a_world_on_open_ground() -> World {
    let mut world = World::new(catalogue());
    set_life(&mut world, 500, 500);
    set_mana(&mut world, 400, 400);
    for dx in -2i32..=2 {
        for dy in -2i32..=2 {
            set_tile(
                &mut world,
                Position::new((100 + dx) as u16, (100 + dy) as u16, 7),
                stack(&[ItemId(1)]),
            );
        }
    }
    place_self(&mut world, AgentId(1), Position::new(100, 100, 7), 100);
    world
}

fn engaged_world() -> World {
    let mut world = a_world_on_open_ground();
    see_creature(&mut world, AgentId(3), Position::new(101, 100, 7));
    world
}

fn remove_agent(world: &mut World, id: AgentId) {
    world.agents.remove(&id.0);
}

fn open_container(world: &mut World, id: ContainerId, items: &[Option<(ItemId, u8)>]) {
    world.containers.insert(id.0, items.to_vec());
}

fn knows_spell(world: &mut World, id: SpellId, words: &str, group: SpellGroup) {
    world.spells.insert(id.0, KnownSpell { words: words.to_string(), group });
}

fn start_cooldown(
    world: &mut World,
    id: SpellId,
    group: SpellGroup,
    at: Instant,
    spell_ms: u64,
    group_ms: u64,
) {
    world.spell_cooldowns.insert(id.0, at.plus(Duration::from_millis(spell_ms)));
    world.group_cooldowns.insert(group.as_id(), at.plus(Duration::from_millis(group_ms)));
}

const A_BACKPACK: ContainerId = ContainerId(16);

fn a_brain() -> Brain {
    Brain::new(
        Route {
            name: "test".to_string(),
            waypoints: vec![Coords {
                x: 102,
                y: 100,
                z: 7,
            }],
        },
        Behaviour::test_default(),
        "Loadbot ".to_string(),
    )
}

#[test]
fn travel_steps_toward_the_waypoint() {
    let world = a_world_on_open_ground();
    let mut brain = a_brain();

    let action = decide(&mut brain, &world, now());

    assert_eq!(
        action,
        Some(ClientMessage::MovePlayer {
            direction: Direction::East
        })
    );
}

#[test]
fn a_multi_waypoint_route_advances_to_the_next_one() {
    let mut world = a_world_on_open_ground();
    place_self(&mut world, AgentId(1), Position::new(102, 100, 7), 100);
    let mut brain = Brain::new(
        Route {
            name: "test".to_string(),
            waypoints: vec![
                Coords {
                    x: 102,
                    y: 100,
                    z: 7,
                },
                Coords {
                    x: 100,
                    y: 100,
                    z: 7,
                },
            ],
        },
        Behaviour::test_default(),
        "Loadbot ".to_string(),
    );

    let action = decide(&mut brain, &world, now());

    assert_eq!(brain.waypoint_index(), 1);
    assert_eq!(
        action,
        Some(ClientMessage::MovePlayer {
            direction: Direction::West
        })
    );
}

#[test]
fn no_step_is_sent_before_the_previous_one_has_had_time_to_land() {
    let world = a_world_on_open_ground();
    let mut brain = a_brain();
    let now = now();

    decide(&mut brain, &world, now);

    assert_eq!(decide(&mut brain, &world, now.plus(Duration::from_millis(10))), None);
}

#[test]
fn a_step_is_sent_once_the_walk_duration_has_elapsed() {
    let world = a_world_on_open_ground();
    let mut brain = a_brain();
    let now = now();
    let destination_friction = world.friction_at(Position::new(101, 100, 7)).unwrap();

    decide(&mut brain, &world, now);

    let landed = now
        .plus(step_duration(&pace, TICK_MS, world.speed, destination_friction, false))
        .plus(Duration::from_millis(1));

    assert!(decide(&mut brain, &world, landed).is_some());
}

#[test]
fn pacing_uses_the_destination_tiles_friction_not_the_origins() {
    let mut world = a_world_on_open_ground();
    set_tile(&mut world, Position::new(101, 100, 7), stack(&[ItemId(2)]));
    let mut brain = a_brain();
    let now = now();

    let origin_friction = world.friction_at(world.position).unwrap();
    let destination_friction = world.friction_at(Position::new(101, 100, 7)).unwrap();
    assert_ne!(origin_friction, destination_friction);

    let action = decide(&mut brain, &world, now);
    assert_eq!(
        action,
        Some(ClientMessage::MovePlayer {
            direction: Direction::East
        })
    );

    let using_origin =
        now
        .plus(step_duration(&pace, TICK_MS, world.speed, origin_friction, false))
        .plus(Duration::from_millis(1));
    assert_eq!(
        decide(&mut brain, &world, using_origin),
        None,
        "the origin's cheaper friction must not gate the wait"
    );

    let using_destination = now
        .plus(step_duration(&pace, TICK_MS, world.speed, destination_friction, false))
        .plus(Duration::from_millis(1));
    assert!(decide(&mut brain, &world, using_destination).is_some());
}

#[test]
fn a_blocked_direction_is_sidestepped_toward_the_waypoint() {
    let mut world = a_world_on_open_ground();
    block(&mut world, Position::new(101, 100, 7));
    let mut brain = a_brain();
    let before = world.position;
    let waypoint = Position::new(102, 100, 7);

    let Some(ClientMessage::MovePlayer { direction }) = decide(&mut brain, &world, now())
    else {
        panic!("expected a step");
    };

    let after = before.step(direction);
    assert!(
        after.distance(&waypoint) < before.distance(&waypoint),
        "the sidestep must still make progress toward the waypoint"
    );
}

#[test]
fn standing_on_the_only_waypoint_sends_no_step() {
    let mut world = a_world_on_open_ground();
    place_self(&mut world, AgentId(1), Position::new(102, 100, 7), 100);
    let mut brain = a_brain();

    assert_eq!(decide(&mut brain, &world, now()), None);
    assert_eq!(
        brain.waypoint_index(),
        0,
        "a one-waypoint route wraps to itself"
    );
}

#[test]
fn the_nearest_creature_in_range_is_targeted() {
    let mut world = a_world_on_open_ground();
    see_creature(&mut world, AgentId(2), Position::new(104, 100, 7));
    see_creature(&mut world, AgentId(3), Position::new(101, 100, 7));
    let mut brain = a_brain();

    assert_eq!(
        decide(&mut brain, &world, now()),
        Some(ClientMessage::SetTarget {
            agent_id: Some(AgentId(3)),
            seq: 1
        })
    );
}

#[test]
fn engage_radius_is_inclusive_at_its_boundary() {
    let mut world = a_world_on_open_ground();
    see_creature(&mut world, AgentId(2), Position::new(105, 100, 7));
    let mut brain = a_brain();

    assert!(matches!(
        decide(&mut brain, &world, now()),
        Some(ClientMessage::SetTarget {
            agent_id: Some(AgentId(2)),
            ..
        })
    ));
}

#[test]
fn one_tile_past_the_engage_radius_is_ignored() {
    let mut world = a_world_on_open_ground();
    see_creature(&mut world, AgentId(2), Position::new(106, 100, 7));
    let mut brain = a_brain();

    assert!(matches!(
        decide(&mut brain, &world, now()),
        Some(ClientMessage::MovePlayer { .. })
    ));
}

#[test]
fn a_bot_shaped_name_is_never_targeted() {
    let mut world = a_world_on_open_ground();
    see_named_creature(&mut world, AgentId(9), Position::new(101, 100, 7), "Loadbot Zzz");
    let mut brain = a_brain();

    assert!(matches!(
        decide(&mut brain, &world, now()),
        Some(ClientMessage::MovePlayer { .. })
    ));
}

#[test]
fn a_held_target_out_of_melee_range_is_approached() {
    let mut world = a_world_on_open_ground();
    see_creature(&mut world, AgentId(3), Position::new(100, 102, 7));
    let mut brain = a_brain();
    brain.set_target(AgentId(3));

    let action = decide(&mut brain, &world, now());

    assert_eq!(
        action,
        Some(ClientMessage::MovePlayer {
            direction: Direction::South
        })
    );
}

#[test]
fn a_bot_stands_and_fights_rather_than_travel_while_a_target_is_held() {
    let world = engaged_world();
    let mut brain = a_brain();
    brain.set_target(AgentId(3));

    assert_eq!(
        decide(&mut brain, &world, now()),
        None,
        "adjacent to its target, with no attack spell known, the bot must stand still"
    );
}

#[test]
fn an_in_range_target_is_attacked_with_the_configured_spell() {
    let mut world = engaged_world();
    knows_spell(&mut world, SpellId(9), "exori flam", SpellGroup::Attack);
    let mut brain = a_brain();
    brain.set_target(AgentId(3));

    assert_eq!(
        decide(&mut brain, &world, now()),
        Some(ClientMessage::CastSpell {
            spell_id: SpellId(9),
            target: SpellTarget::Agent(AgentId(3)),
            param: None,
        })
    );
}

#[test]
fn a_heal_spell_targets_no_one() {
    let mut world = engaged_world();
    set_life(&mut world, 100, 500);
    knows_spell(&mut world, SpellId(1), "exura", SpellGroup::Healing);
    let mut brain = a_brain();

    assert_eq!(
        decide(&mut brain, &world, now()),
        Some(ClientMessage::CastSpell {
            spell_id: SpellId(1),
            target: SpellTarget::NoTarget,
            param: None,
        })
    );
}

#[test]
fn low_life_drinks_a_health_potion_before_anything_else() {
    let mut world = engaged_world();
    set_life(&mut world, 100, 500);
    carry(&mut world, ItemId(266), 5);
    let mut brain = a_brain();

    let action = decide(&mut brain, &world, now()).unwrap();

    assert!(matches!(
        action,
        ClientMessage::UseItemWith { ref source, target_agent: Some(id), .. }
            if source.item_id == ItemId(266) && id == world.agent_id
    ));
}

#[test]
fn drinking_beats_healing_when_both_are_available() {
    let mut world = engaged_world();
    set_life(&mut world, 100, 500);
    carry(&mut world, ItemId(266), 5);
    knows_spell(&mut world, SpellId(1), "exura", SpellGroup::Healing);
    let mut brain = a_brain();

    let action = decide(&mut brain, &world, now()).unwrap();

    assert!(
        matches!(action, ClientMessage::UseItemWith { .. }),
        "the potion must win over the spell when both remedies are available: {action:?}"
    );
}

#[test]
fn a_potion_is_addressed_by_the_carried_search_coordinate() {
    let mut world = engaged_world();
    set_life(&mut world, 100, 500);
    carry(&mut world, ItemId(266), 5);
    let mut brain = a_brain();

    let Some(ClientMessage::UseItemWith { source, .. }) = decide(&mut brain, &world, now())
    else {
        panic!("expected a drink")
    };

    assert_eq!(source.position.x, INVENTORY_COORD_FLAG);
    assert_eq!(source.position.y, CARRIED_SEARCH_FLAG);
}

#[test]
fn an_empty_bag_falls_through_to_the_heal_spell() {
    let mut world = engaged_world();
    set_life(&mut world, 100, 500);
    carry(&mut world, ItemId(266), 0);
    knows_spell(&mut world, SpellId(1), "exura", SpellGroup::Healing);
    let mut brain = a_brain();

    assert!(matches!(
        decide(&mut brain, &world, now()),
        Some(ClientMessage::CastSpell {
            spell_id: SpellId(1),
            ..
        })
    ));
}

#[test]
fn a_dry_health_potion_is_reported_once_per_bot() {
    let mut world = engaged_world();
    set_life(&mut world, 100, 500);
    let mut brain = a_brain();

    decide(&mut brain, &world, now());
    decide(&mut brain, &world, now());
    assert_eq!(brain.take_dry_events(), vec![DryPotion::Health]);

    decide(&mut brain, &world, now());
    assert_eq!(brain.take_dry_events(), vec![]);
}

#[test]
fn low_mana_drinks_a_mana_potion_when_life_is_fine() {
    let mut world = engaged_world();
    set_mana(&mut world, 50, 400);
    carry(&mut world, ItemId(268), 5);
    let mut brain = a_brain();

    assert!(matches!(
        decide(&mut brain, &world, now()).unwrap(),
        ClientMessage::UseItemWith { ref source, .. } if source.item_id == ItemId(268)
    ));
}

#[test]
fn a_spell_on_cooldown_is_not_cast() {
    let mut world = engaged_world();
    knows_spell(&mut world, SpellId(5), "exori flam", SpellGroup::Attack);
    let now = now();
    start_cooldown(&mut world, SpellId(5), SpellGroup::Attack, now, 2000, 2000);
    let mut brain = a_brain();
    brain.set_target(AgentId(3));

    assert_eq!(
        decide(&mut brain, &world, now.plus(Duration::from_millis(500))),
        None,
        "adjacent, on cooldown, no route to travel while a target is held: nothing to do"
    );
}

#[test]
fn missing_spells_names_what_the_bot_cannot_cast() {
    let world = a_world_on_open_ground();
    let brain = a_brain();

    let missing = brain.missing_spells(&world);
    assert_eq!(missing.len(), 2);
    assert!(missing.contains(&"exura".to_string()));
    assert!(missing.contains(&"exori flam".to_string()));
}

#[test]
fn a_known_spell_is_not_reported_missing() {
    let mut world = a_world_on_open_ground();
    knows_spell(&mut world, SpellId(1), "exura", SpellGroup::Healing);
    knows_spell(&mut world, SpellId(2), "exori flam", SpellGroup::Attack);
    let brain = a_brain();

    assert!(brain.missing_spells(&world).is_empty());
}

#[test]
fn a_target_lost_for_the_current_target_is_immediately_reacquired_with_a_new_seq() {
    let mut world = engaged_world();
    let mut brain = a_brain();

    let first = decide(&mut brain, &world, now());
    assert_eq!(
        first,
        Some(ClientMessage::SetTarget {
            agent_id: Some(AgentId(3)),
            seq: 1
        })
    );

    world.apply(&ServerMessage::TargetLost { seq: 1 });

    let second = decide(&mut brain, &world, now());
    assert_eq!(
        second,
        Some(ClientMessage::SetTarget {
            agent_id: Some(AgentId(3)),
            seq: 2
        })
    );
}

#[test]
fn a_stale_target_lost_does_not_cancel_a_newer_target() {
    let mut world = engaged_world();
    knows_spell(&mut world, SpellId(9), "exori flam", SpellGroup::Attack);
    let mut brain = a_brain();

    decide(&mut brain, &world, now()); // seq 1 -> AgentId(3)

    remove_agent(&mut world, AgentId(3));
    see_creature(&mut world, AgentId(4), Position::new(101, 100, 7));
    decide(&mut brain, &world, now()); // (3) is gone; (4) acquired as seq 2

    world.apply(&ServerMessage::TargetLost { seq: 1 }); // stale: names the old target

    assert_eq!(
        decide(&mut brain, &world, now()),
        Some(ClientMessage::CastSpell {
            spell_id: SpellId(9),
            target: SpellTarget::Agent(AgentId(4)),
            param: None,
        })
    );
}

#[test]
fn a_dead_targets_kill_is_reported_as_target_lost_then_remove_agent() {
    let mut world = engaged_world();
    world.mark_carried(A_BACKPACK);
    let mut brain = a_brain();

    decide(&mut brain, &world, now()); // seq 1 -> AgentId(3)

    // the server's own order: TargetLost for the killer, then RemoveAgent
    world.apply(&ServerMessage::TargetLost { seq: 1 });
    remove_agent(&mut world, AgentId(3));
    let corpse = Position::new(101, 100, 7);
    set_tile(&mut world, corpse, stack(&[ItemId(1), ItemId(CORPSE_ID)]));

    assert!(matches!(
        decide(&mut brain, &world, now()),
        Some(ClientMessage::UseItem { ref item }) if item.position == corpse
    ));
}

#[test]
fn a_corpse_that_appears_a_tick_later_is_still_looted() {
    let mut world = engaged_world();
    world.mark_carried(A_BACKPACK);
    let mut brain = a_brain();
    brain.set_target(AgentId(3));
    decide(&mut brain, &world, now());

    remove_agent(&mut world, AgentId(3));
    let before_the_tile_updates = decide(&mut brain, &world, now());
    assert!(!matches!(
        before_the_tile_updates,
        Some(ClientMessage::UseItem { .. })
    ));

    let corpse = Position::new(101, 100, 7);
    set_tile(&mut world, corpse, stack(&[ItemId(1), ItemId(CORPSE_ID)]));

    assert!(matches!(
        decide(&mut brain, &world, now()),
        Some(ClientMessage::UseItem { ref item }) if item.position == corpse
    ));
}

#[test]
fn a_corpse_confirmed_after_the_grace_window_is_not_looted() {
    let mut world = engaged_world();
    world.mark_carried(A_BACKPACK);
    let mut brain = a_brain();
    brain.set_target(AgentId(3));
    let now = now();
    decide(&mut brain, &world, now);

    remove_agent(&mut world, AgentId(3));
    let death_detected_at = now.plus(Duration::from_millis(1));
    decide(&mut brain, &world, death_detected_at); // Awaiting starts its own clock here

    let too_late = death_detected_at.plus(CORPSE_ABANDON).plus(Duration::from_millis(1));
    decide(&mut brain, &world, too_late); // abandoned: no container ever confirmed in time; may also send an unrelated travel step, which paces the next one

    set_tile(&mut world, Position::new(101, 100, 7),
        stack(&[ItemId(1), ItemId(CORPSE_ID)]),
    );

    assert!(matches!(
        decide(&mut brain, &world, too_late.plus(Duration::from_secs(1))),
        Some(ClientMessage::MovePlayer { .. })
    ));
}

#[test]
fn without_a_backpack_a_dead_targets_corpse_is_left_alone() {
    let mut world = engaged_world();
    let mut brain = a_brain();
    brain.set_target(AgentId(3));
    decide(&mut brain, &world, now());

    remove_agent(&mut world, AgentId(3));
    set_tile(&mut world, Position::new(101, 100, 7),
        stack(&[ItemId(1), ItemId(CORPSE_ID)]),
    );

    assert_eq!(world.backpack(), None);
    assert_eq!(
        decide(&mut brain, &world, now()),
        Some(ClientMessage::MovePlayer {
            direction: Direction::East
        }),
        "no backpack means no loot at all; the bot falls through to travel"
    );
}

#[test]
fn a_container_that_was_never_the_targets_corpse_is_not_looted() {
    let mut world = a_world_on_open_ground();
    world.mark_carried(A_BACKPACK);
    set_tile(&mut world, Position::new(101, 100, 7),
        stack(&[ItemId(1), ItemId(CORPSE_ID)]),
    );
    let mut brain = a_brain();

    assert!(!matches!(
        decide(&mut brain, &world, now()),
        Some(ClientMessage::UseItem { .. })
    ));
}

#[test]
fn the_corpse_use_item_is_retried_at_most_once() {
    let mut world = engaged_world();
    world.mark_carried(A_BACKPACK);
    let mut brain = a_brain();
    brain.set_target(AgentId(3));
    decide(&mut brain, &world, now());

    remove_agent(&mut world, AgentId(3));
    let corpse = Position::new(101, 100, 7);
    set_tile(&mut world, corpse, stack(&[ItemId(1), ItemId(CORPSE_ID)]));

    let first = decide(&mut brain, &world, now());
    assert!(matches!(first, Some(ClientMessage::UseItem { .. })));

    let second = decide(&mut brain, &world, now());
    assert!(
        matches!(second, Some(ClientMessage::UseItem { .. })),
        "one retry is allowed"
    );

    let third = decide(&mut brain, &world, now());
    assert!(
        !matches!(third, Some(ClientMessage::UseItem { .. })),
        "no further resends until corpse_opened or the deadline: {third:?}"
    );
}

#[test]
fn the_use_item_open_container_chain_leads_to_looting() {
    let mut world = engaged_world();
    world.mark_carried(A_BACKPACK);
    let mut brain = a_brain();
    brain.set_target(AgentId(3));
    decide(&mut brain, &world, now());

    let corpse = Position::new(101, 100, 7);
    remove_agent(&mut world, AgentId(3));
    set_tile(&mut world, corpse, stack(&[ItemId(1), ItemId(CORPSE_ID)]));

    let opened = decide(&mut brain, &world, now());
    assert!(matches!(opened, Some(ClientMessage::UseItem { .. })));

    world.apply(&ServerMessage::OpenContainer {
        container_id: ContainerId(7),
        capacity: 20,
        has_parent: false,
        title: "a corpse".to_string(),
        items: vec![Some((ItemId(3031), 1))],
    });
    brain.corpse_opened(ContainerId(7));

    assert!(matches!(
        decide(&mut brain, &world, now()),
        Some(ClientMessage::MoveItem { .. })
    ));
}

#[test]
fn an_emptied_corpse_is_closed() {
    let mut world = engaged_world();
    world.mark_carried(A_BACKPACK);
    let mut brain = a_brain();
    brain.opened_corpse(ContainerId(1));
    open_container(&mut world, ContainerId(1),
        &[Some((ItemId(3031), 20)), Some((ItemId(3264), 1))],
    );

    let first = decide(&mut brain, &world, now());
    assert!(matches!(first, Some(ClientMessage::MoveItem { .. })));

    open_container(&mut world, ContainerId(1), &[]);
    assert_eq!(
        decide(&mut brain, &world, now()),
        Some(ClientMessage::CloseContainer {
            container_id: ContainerId(1)
        })
    );
}

#[test]
fn looting_stops_at_the_configured_limit_even_with_items_left() {
    let mut world = engaged_world();
    world.mark_carried(A_BACKPACK);
    let mut brain = a_brain();
    brain.opened_corpse(ContainerId(1));
    open_container(&mut world, ContainerId(1),
        &[
            Some((ItemId(3031), 1)),
            Some((ItemId(3032), 1)),
            Some((ItemId(3033), 1)),
            Some((ItemId(3034), 1)),
            Some((ItemId(3035), 1)),
        ],
    );

    for _ in 0..Behaviour::test_default().loot_items_max {
        assert!(matches!(
            decide(&mut brain, &world, now()),
            Some(ClientMessage::MoveItem { .. })
        ));
    }

    assert_eq!(
        decide(&mut brain, &world, now()),
        Some(ClientMessage::CloseContainer {
            container_id: ContainerId(1)
        }),
        "the container still has an item left, but the limit was reached"
    );
}

#[test]
fn a_non_cumulative_item_is_looted_as_a_single_unit() {
    let mut world = engaged_world();
    world.mark_carried(A_BACKPACK);
    let mut brain = a_brain();
    brain.opened_corpse(ContainerId(1));
    open_container(&mut world, ContainerId(1), &[Some((ItemId(9999), 5))]);

    let Some(ClientMessage::MoveItem { amount, .. }) = decide(&mut brain, &world, now())
    else {
        panic!("expected a loot move");
    };

    assert_eq!(
        amount, 1,
        "the byte in the container slot may be a fluid id, not a count"
    );
}

#[test]
fn a_cumulative_item_keeps_its_real_amount() {
    let mut world = engaged_world();
    world.mark_carried(A_BACKPACK);
    let mut brain = a_brain();
    brain.opened_corpse(ContainerId(1));
    open_container(&mut world, ContainerId(1), &[Some((ItemId(STACKABLE_ID), 20))]);

    let Some(ClientMessage::MoveItem { amount, .. }) = decide(&mut brain, &world, now())
    else {
        panic!("expected a loot move");
    };

    assert_eq!(amount, 20);
}

#[test]
fn a_share_of_nothing_is_never_low() {
    assert!(!below_pct(0, 0, 50));
    assert!(below_pct(49, 100, 50));
    assert!(!below_pct(50, 100, 50));
    assert!(!below_pct(u32::MAX, u32::MAX, 100));
}

#[test]
fn the_directions_beside_one_are_its_neighbours_on_the_compass() {
    assert_eq!(
        adjacent_directions(Direction::North),
        (Direction::NorthWest, Direction::NorthEast)
    );
    assert_eq!(
        adjacent_directions(Direction::SouthEast),
        (Direction::East, Direction::South)
    );
}

#[test]
fn no_direction_leads_to_another_floor_or_to_where_one_is() {
    let world = a_world_on_open_ground();
    assert_eq!(choose_direction(&world, Position::new(100, 100, 7)), None);
    assert_eq!(choose_direction(&world, Position::new(102, 100, 6)), None);
    assert_eq!(
        choose_direction(&world, Position::new(102, 102, 7)),
        Some(Direction::SouthEast)
    );
}

#[test]
fn a_corpse_is_pointed_at_by_its_place_on_the_tile() {
    let mut world = a_world_on_open_ground();
    let at = Position::new(101, 101, 7);
    assert_eq!(corpse_item_ref(&world, &at), None);
    set_tile(&mut world, at, stack(&[ItemId(1), ItemId(STACKABLE_ID), ItemId(CORPSE_ID)]));
    assert_eq!(
        corpse_item_ref(&world, &at),
        Some(ClientItemRef { position: at, item_id: ItemId(CORPSE_ID), stack_index: 2 })
    );
}
