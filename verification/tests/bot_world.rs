//! What a bot knows of the world from what the server tells it.

use rustibia::clock::{Duration, Instant};
use rustibia::constants::{PLAYER_VIEWPORT_HEIGHT, PLAYER_VIEWPORT_WIDTH, VIEWPORT_SIZE};
use rustibia::entities::agent::{AgentId, Facing, OutfitColors, OutfitId, Pool};
use rustibia::entities::inventory::InventorySlot;
use rustibia::entities::items::{ContainerId, ItemAttribute, ItemConfig, ItemFlag, ItemId};
use rustibia::entities::position::{Direction, Position};
use rustibia::entities::spells::{SpellGroup, SpellId};
use rustibia::loadtest::world::{ItemCatalogue, StripMismatch, VisibleAgent, World};
use rustibia::messages::{ItemStack, ServerMessage, SpellListEntry};
use std::collections::HashMap;
use std::sync::Arc;

fn describe_player() -> ServerMessage {
    ServerMessage::DescribePlayer {
        agent_id: AgentId(1),
        position: Position::new(100, 100, 7),
        facing: Facing::South,
        name: "Loadbot Aab".to_string(),
        level: 20,
        life: Pool { current: 500, maximum: 500 },
        mana: Pool { current: 400, maximum: 400 },
        outfit: (OutfitId(128), OutfitColors::new(78, 69, 58, 76)),
        speed: 100,
        capacity: 60000,
        inventory_head: None,
        inventory_amulet: None,
        inventory_backpack: Some(ItemId(2854)),
        inventory_chest: None,
        inventory_right_hand: Some(ItemId(3264)),
        inventory_left_hand: None,
        inventory_legs: None,
        inventory_feet: None,
        inventory_ring: None,
        inventory_trinket: None,
    }
}

fn a_kind(id: u16, name: &str, flag: ItemFlag, attributes: Vec<ItemAttribute>) -> (u16, Arc<ItemConfig>) {
    (id, Arc::new(ItemConfig::new(ItemId(id), name.to_string(), vec![flag], attributes)))
}

const CORPSE_ID: u16 = 4;
const STACKABLE_ID: u16 = 5;

fn catalogue() -> ItemCatalogue {
    Arc::new(HashMap::from([
        a_kind(1, "ground", ItemFlag::Ground, vec![ItemAttribute::TileFriction(150)]),
        a_kind(2, "ground", ItemFlag::Ground, vec![ItemAttribute::TileFriction(260)]),
        a_kind(3, "wall", ItemFlag::Unpass, Vec::new()),
        a_kind(CORPSE_ID, "container", ItemFlag::Container, vec![ItemAttribute::Capacity(20)]),
        a_kind(STACKABLE_ID, "stackable", ItemFlag::Cumulative, Vec::new()),
    ]))
}

fn stack(ids: &[ItemId]) -> ItemStack {
    let mut stack: ItemStack = Default::default();
    for (slot, id) in ids.iter().enumerate() {
        stack[slot] = Some((*id, 1));
    }
    stack
}

fn tile_key(p: &Position) -> u64 {
    p.x as u64 * 0x100_0000 + p.y as u64 * 0x100 + p.z as u64
}

fn set_tile(world: &mut World, position: Position, items: ItemStack) {
    world.tiles.insert(tile_key(&position), items);
}

fn block(world: &mut World, position: Position) {
    set_tile(world, position, stack(&[ItemId(1), ItemId(3)]));
}

fn see_named_creature(world: &mut World, id: AgentId, position: Position, name: &str) {
    world.agents.insert(id.0, VisibleAgent { position, name: name.to_string(), life: 100 });
}

fn see_creature(world: &mut World, id: AgentId, position: Position) {
    see_named_creature(world, id, position, "");
}

fn set_life(world: &mut World, current: u32, maximum: u32) {
    world.life = Pool { current, maximum };
}

fn set_mana(world: &mut World, current: u32, maximum: u32) {
    world.mana = Pool { current, maximum };
}

fn carry(world: &mut World, item: ItemId, amount: u8) {
    let carried = ContainerId(u16::MAX);
    world.mark_carried(carried);
    let content = world.containers.entry(carried.0).or_default();
    content.retain(|slot| !matches!(slot, Some((id, _)) if *id == item));
    if amount > 0 {
        content.push(Some((item, amount)));
    }
}

fn place_self(world: &mut World, id: AgentId, position: Position, speed: u16) {
    world.agent_id = id;
    world.position = position;
    world.speed = speed;
}

fn a_world() -> World {
    World::new(Arc::new(HashMap::new()))
}

#[test]
fn describe_player_seeds_the_bot() {
    let mut world = a_world();
    world.apply(&describe_player());

    assert_eq!(world.position, Position::new(100, 100, 7));
    assert_eq!(world.speed, 100);
    assert_eq!(world.life.current, 500);
    assert_eq!(world.agent_id, AgentId(1));
    assert_eq!(world.name, "Loadbot Aab");
}

#[test]
fn a_walk_ack_moves_the_bot() {
    let mut world = a_world();
    world.apply(&describe_player());

    world.apply(&ServerMessage::PlayerWalkAck {
        position: Position::new(101, 100, 7),
        tiles: vec![],
    });

    assert_eq!(world.position, Position::new(101, 100, 7));
}

#[test]
fn a_spawned_creature_is_visible_and_a_removed_one_is_not() {
    let mut world = a_world();
    world.apply(&describe_player());

    world.apply(&ServerMessage::SpawnAgent {
        agent_id: AgentId(2),
        outfit: (OutfitId(21), OutfitColors::new(0, 0, 0, 0)),
        position: Position::new(103, 100, 7),
        facing: Facing::North,
        name: "Rat".to_string(),
        life: 100,
        speed: 100,
    });

    assert_eq!(
        world.agents[&2].position,
        Position::new(103, 100, 7)
    );

    world.apply(&ServerMessage::RemoveAgent {
        agent_id: AgentId(2),
    });

    assert!(!world.agents.contains_key(&2));
}

#[test]
fn the_bots_own_spawn_is_not_a_target() {
    let mut world = a_world();
    world.apply(&describe_player());

    world.apply(&ServerMessage::SpawnAgent {
        agent_id: AgentId(1),
        outfit: (OutfitId(128), OutfitColors::new(0, 0, 0, 0)),
        position: Position::new(100, 100, 7),
        facing: Facing::South,
        name: "Loadbot Aab".to_string(),
        life: 100,
        speed: 100,
    });

    assert!(!world.agents.contains_key(&1));
}

#[test]
fn a_move_agent_lands_at_from_plus_direction() {
    let mut world = a_world();
    world.apply(&describe_player());
    see_creature(&mut world, AgentId(2), Position::new(103, 100, 7));

    world.apply(&ServerMessage::MoveAgent {
        agent_id: AgentId(2),
        direction: Direction::East,
        from: Position::new(103, 100, 7),
    });

    assert_eq!(
        world.agents[&2].position,
        Position::new(104, 100, 7)
    );
}

#[test]
fn own_teleport_updates_position_but_never_becomes_a_target() {
    let mut world = a_world();
    world.apply(&describe_player());

    world.apply(&ServerMessage::TeleportAgent {
        agent_id: AgentId(1),
        position: Position::new(200, 200, 7),
    });

    assert_eq!(world.position, Position::new(200, 200, 7));
    assert!(!world.agents.contains_key(&1));
}

#[test]
fn agent_life_changed_updates_self_absolutely_and_others_as_a_percentage() {
    let mut world = a_world();
    world.apply(&describe_player());
    see_creature(&mut world, AgentId(2), Position::new(103, 100, 7));

    world.apply(&ServerMessage::AgentLifeChanged {
        agent_id: AgentId(1),
        current: 250,
        max: 500,
    });
    assert_eq!(
        world.life,
        Pool {
            current: 250,
            maximum: 500
        }
    );

    world.apply(&ServerMessage::AgentLifeChanged {
        agent_id: AgentId(2),
        current: 40,
        max: 100,
    });
    assert_eq!(world.agents[&2].life, 40);
}

#[test]
fn agent_mana_updated_only_ever_touches_the_bots_own_pool() {
    let mut world = a_world();
    world.apply(&describe_player());

    world.apply(&ServerMessage::AgentManaUpdated {
        agent_id: AgentId(2),
        current: 999,
        max: 999,
    });
    assert_eq!(
        world.mana,
        Pool {
            current: 400,
            maximum: 400
        }
    );

    world.apply(&ServerMessage::AgentManaUpdated {
        agent_id: AgentId(1),
        current: 100,
        max: 400,
    });
    assert_eq!(
        world.mana,
        Pool {
            current: 100,
            maximum: 400
        }
    );
}

// Asymmetric fixture: item id = tile index, so a transposed or offset
// placement fails instead of accidentally matching.
fn a_describe_map(center: Position, floor: u8) -> ServerMessage {
    let mut tiles: Vec<ItemStack> = vec![[None; 8]; VIEWPORT_SIZE];
    for (i, tile) in tiles.iter_mut().enumerate() {
        tile[0] = Some((ItemId(i as u16), 1));
    }
    ServerMessage::DescribeMap {
        tiles,
        center,
        floor,
    }
}

fn item_at(world: &World, position: Position) -> u16 {
    (world.tiles[&tile_key(&position)][0].unwrap().0).0
}

#[test]
fn a_describe_map_for_one_floor_does_not_erase_another() {
    let mut world = a_world();
    let center = Position::new(200, 200, 6); // the bot stands at z=6
    let center_index = ((PLAYER_VIEWPORT_HEIGHT / 2) * PLAYER_VIEWPORT_WIDTH
        + PLAYER_VIEWPORT_WIDTH / 2) as u16;

    for floor in [5_u8, 6, 7] {
        world.apply(&a_describe_map(center, floor));
    }

    for floor in [5_u8, 6, 7] {
        let offset = center.z as i32 - floor as i32;
        let position = Position::new((200 + offset) as u16, (200 + offset) as u16, floor);
        assert_eq!(item_at(&world, position), center_index);
    }
}

fn an_expansion_strip(floor: u8, len: usize) -> Vec<(u8, Vec<ItemStack>)> {
    let tiles: Vec<ItemStack> = (0..len)
        .map(|i| {
            let mut tile: ItemStack = Default::default();
            tile[0] = Some((ItemId(i as u16), 1));
            tile
        })
        .collect();
    vec![(floor, tiles)]
}

#[test]
fn a_matching_length_strip_is_written_into_tiles() {
    let mut world = a_world();
    world.apply(&describe_player()); // position (100, 100, 7)

    world.apply(&ServerMessage::PlayerWalkAck {
        position: Position::new(101, 100, 7),
        tiles: an_expansion_strip(7, PLAYER_VIEWPORT_HEIGHT),
    });

    // The strip is centred on the ack's new position (101, 100), not the one
    // the bot walked from — the east step moves x_end with it.
    let x_end = 101 + (PLAYER_VIEWPORT_WIDTH / 2) as u16;
    let y_start = 100 - (PLAYER_VIEWPORT_HEIGHT / 2) as u16;
    assert_eq!(item_at(&world, Position::new(x_end, y_start, 7)), 0);
}

#[test]
fn a_strip_of_the_wrong_length_is_recorded_as_a_mismatch_not_guessed_at() {
    let mut world = a_world();
    world.apply(&describe_player());

    world.apply(&ServerMessage::PlayerWalkAck {
        position: Position::new(101, 100, 7),
        tiles: an_expansion_strip(7, 3), // East expects PLAYER_VIEWPORT_HEIGHT (15)
    });

    assert_eq!(world.strip_mismatches, 1);
    assert_eq!(
        world.first_strip_mismatch,
        Some(StripMismatch::WrongLength {
            floor: 7,
            expected: PLAYER_VIEWPORT_HEIGHT,
            actual: 3,
        })
    );
    assert_eq!(world.position, Position::new(101, 100, 7));
}

#[test]
fn tiles_far_behind_the_bot_are_pruned_every_64th_walk_ack() {
    let mut world = a_world();
    place_self(&mut world, AgentId(1), Position::new(1000, 1000, 7), 100);

    let radius = (2 * PLAYER_VIEWPORT_WIDTH) as u16;
    let far = Position::new(1000 - radius - 1, 1000, 7);
    let near = Position::new(1000 + 1, 1000, 7);
    set_tile(&mut world, far, Default::default());
    set_tile(&mut world, near, Default::default());

    for i in 0..64 {
        world.apply(&ServerMessage::PlayerWalkAck {
            position: Position::new(1000, 1000, 7),
            tiles: vec![],
        });
        if i == 62 {
            assert!(world.tiles.contains_key(&tile_key(&far)), "pruned before the 64th ack");
        }
    }

    assert!(!world.tiles.contains_key(&tile_key(&far)));
    assert!(world.tiles.contains_key(&tile_key(&near)));
}

#[test]
fn a_tile_with_a_blocking_item_is_not_walkable() {
    let mut world = World::new(catalogue());
    set_tile(&mut world, Position::new(1, 1, 7), stack(&[ItemId(1), ItemId(3)]));

    assert!(!world.is_walkable(Position::new(1, 1, 7)));
}

#[test]
fn a_tile_with_ground_alone_is_walkable_and_carries_its_friction() {
    let mut world = World::new(catalogue());
    set_tile(&mut world, Position::new(1, 1, 7), stack(&[ItemId(2)]));

    assert!(world.is_walkable(Position::new(1, 1, 7)));
    assert_eq!(world.friction_at(Position::new(1, 1, 7)), Some(260));
}

#[test]
fn an_unseen_tile_is_not_walkable() {
    let world = World::new(catalogue());

    assert!(!world.is_walkable(Position::new(9, 9, 7)));
}

#[test]
fn an_unresolvable_item_makes_a_tile_unwalkable() {
    let mut world = World::new(catalogue());
    set_tile(&mut world, Position::new(1, 1, 7), stack(&[ItemId(2), ItemId(999)]));

    assert!(!world.is_walkable(Position::new(1, 1, 7)));
}

#[test]
fn block_makes_a_tile_unwalkable() {
    let mut world = World::new(catalogue());
    block(&mut world, Position::new(5, 5, 7));

    assert!(!world.is_walkable(Position::new(5, 5, 7)));
}

#[test]
fn a_container_update_tracks_what_is_left_in_the_bag() {
    let mut world = World::new(catalogue());
    world.apply(&ServerMessage::OpenContainer {
        container_id: ContainerId(0),
        capacity: 20,
        has_parent: false,
        title: "backpack".to_string(),
        items: vec![Some((ItemId(266), 3)), Some((ItemId(268), 1))],
    });
    world.mark_carried(ContainerId(0));

    assert_eq!(world.carried_amount(ItemId(266)), 3);
    assert_eq!(world.carried_amount(ItemId(268)), 1);
    assert_eq!(world.carried_amount(ItemId(999)), 0);

    world.apply(&ServerMessage::UpdateContainer {
        container_id: ContainerId(0),
        items: vec![Some((ItemId(266), 2))],
    });
    assert_eq!(world.carried_amount(ItemId(266)), 2);
    assert_eq!(world.carried_amount(ItemId(268)), 0);
}

#[test]
fn an_opened_container_does_not_count_until_marked_as_carried() {
    let mut world = World::new(catalogue());
    world.apply(&ServerMessage::OpenContainer {
        container_id: ContainerId(1),
        capacity: 20,
        has_parent: false,
        title: "a corpse".to_string(),
        items: vec![Some((ItemId(266), 5))],
    });

    assert_eq!(world.carried_amount(ItemId(266)), 0);

    world.mark_carried(ContainerId(1));
    assert_eq!(world.carried_amount(ItemId(266)), 5);
}

#[test]
fn closing_a_carried_container_forgets_it() {
    let mut world = World::new(catalogue());
    world.apply(&ServerMessage::OpenContainer {
        container_id: ContainerId(1),
        capacity: 20,
        has_parent: false,
        title: "backpack".to_string(),
        items: vec![Some((ItemId(266), 5))],
    });
    world.mark_carried(ContainerId(1));
    assert_eq!(world.carried_amount(ItemId(266)), 5);

    world.apply(&ServerMessage::ContainerClosed {
        container_id: ContainerId(1),
    });

    assert_eq!(world.carried_amount(ItemId(266)), 0);
    assert!(!world.containers.contains_key(&1));
    assert_eq!(world.carried, None);
}

#[test]
fn equipped_items_do_not_count_toward_carried_amount() {
    let mut world = World::new(catalogue());
    world.apply(&describe_player()); // equips a backpack (2854) and a weapon (3264)

    assert_eq!(world.carried_amount(ItemId(2854)), 0);
    assert_eq!(world.carried_amount(ItemId(3264)), 0);
}

#[test]
fn inventory_slot_updated_tracks_equipment_with_none_clearing_the_slot() {
    let mut world = a_world();
    world.apply(&describe_player()); // right hand starts as Some(ItemId(3264))

    world.apply(&ServerMessage::IventorySlotUpdated {
        slot: InventorySlot::RightHand,
        item_id: Some(ItemId(3265)),
    });
    assert_eq!(world.equipment[&InventorySlot::RightHand.as_id()], ItemId(3265));

    world.apply(&ServerMessage::IventorySlotUpdated {
        slot: InventorySlot::RightHand,
        item_id: None,
    });
    assert!(!world.equipment.contains_key(&InventorySlot::RightHand.as_id()));
}

#[test]
fn the_carry_fixture_can_empty_a_tracked_stack() {
    let mut world = World::new(catalogue());
    carry(&mut world, ItemId(266), 5);
    assert_eq!(world.carried_amount(ItemId(266)), 5);

    carry(&mut world, ItemId(266), 0);
    assert_eq!(world.carried_amount(ItemId(266)), 0);
}

#[test]
fn a_cast_reply_starts_both_cooldowns() {
    let mut world = World::new(catalogue());
    let now = Instant { nanos: 5_000_000_000 };

    world.apply_at(
        &ServerMessage::SpellCast {
            spell: SpellId(1),
            spell_cooldown_ms: 1000,
            group_cooldown_ms: 2000,
        },
        SpellGroup::Healing,
        now,
    );

    assert!(!world.spell_ready(SpellId(1), SpellGroup::Healing, now));
    assert!(!world.spell_ready(
        SpellId(2),
        SpellGroup::Healing,
        now.plus(Duration::from_millis(1500))
    ));
    assert!(world.spell_ready(
        SpellId(1),
        SpellGroup::Healing,
        now.plus(Duration::from_millis(2500))
    ));
}

#[test]
fn spell_list_populates_known_spells() {
    let mut world = a_world();
    world.apply(&ServerMessage::SpellList {
        spells: vec![SpellListEntry {
            id: SpellId(7),
            name: "Light Healing".to_string(),
            words: "exura".to_string(),
            level: 8,
            icon: 1,
            aimable: false,
            group: SpellGroup::Healing,
        }],
    });

    assert_eq!(world.spells[&7].words, "exura");
    assert_eq!(world.spells[&7].group, SpellGroup::Healing);
}
