//! The map and the record of what has changed on it.

use rustibia::entities::agent::{Agent, AgentBody, AgentKey, Facing, Pool};
use rustibia::entities::combat::CombatElement;
use rustibia::entities::conditions::{Conditions, SpeedEffect};
use rustibia::entities::effects::EffectId;
use rustibia::entities::inventory::InventorySlot;
use rustibia::entities::item::{has_room_within, put_within, remove_nested, Item};
use rustibia::entities::items::{
    ItemAttribute, ItemConfig, ItemFlag, ItemGuid, ItemId, ItemPlacement,
};
use rustibia::entities::map::{GameMap, MapTile};
use rustibia::entities::player::{Inventory, Player, SkillValue};
use rustibia::entities::position::{Position, Rect};
use rustibia::entities::skills::SkillType;
use rustibia::entities::vocation::Vocation;
use rustibia::entities::world_delta::{AgentDirty, AgentFlag, WorldDelta};
use rustibia::entities::world_map::WorldMap;
use rustibia::game::config::{CombatConfig, EffectIds, GameConfig, TextColors};
use rustibia::game::item_action::ItemMovementError;
use rustibia::game::tick::{Tick, TickDelta};
use rustibia::messages::Color;
use std::collections::HashMap;
use std::sync::Arc;

fn game_config() -> GameConfig {
    GameConfig {
        max_fed_ticks: TickDelta(24000),
        logout_block_ticks: TickDelta(1200),
        regen_ticks: TickDelta(120),
        use_item_cooldown_ticks: TickDelta(4),
        combat: CombatConfig {
            attack_group_cooldown: TickDelta(40),
            healing_group_cooldown: TickDelta(20),
            support_group_cooldown: TickDelta(40),
            auto_attack_ticks: TickDelta(40),
        },
        effect_ids: EffectIds {
            healing_spell: EffectId(1),
            mana_hit: EffectId(2),
            miss: EffectId(3),
            puff: EffectId(4),
        },
        text_colors: TextColors { blue: Color(0, 0, 255), palepink: Color(255, 200, 200) },
    }
}

fn config(id: u16, flags: Vec<ItemFlag>, attributes: Vec<ItemAttribute>) -> Arc<ItemConfig> {
    Arc::new(ItemConfig::new(ItemId(id), format!("item {id}"), flags, attributes))
}

fn a_bag(guid: u64) -> Item {
    Item::new(
        config(1987, vec![ItemFlag::Container], vec![ItemAttribute::Capacity(8)]),
        1,
        ItemGuid(guid),
    )
}

fn coins(amount: u8, guid: u64) -> Item {
    Item::new(
        config(
            2148,
            vec![ItemFlag::Cumulative, ItemFlag::Take],
            vec![ItemAttribute::Weight(1)],
        ),
        amount,
        ItemGuid(guid),
    )
}

const FRESH: ItemGuid = ItemGuid(9000);

fn one_tile() -> (WorldMap, Position) {
    let pos = Position::new(10, 10, 7);
    let mut map = GameMap::new();
    map.insert_tile(pos, MapTile::new());
    (WorldMap::new(map), pos)
}

#[test]
fn placing_on_a_tile_marks_the_tile() {
    let (mut map, pos) = one_tile();

    map.place_item(&pos, None, None, coins(1, 1)).unwrap();

    assert!(map.delta().tile_dirty(&pos));
}

#[test]
fn placing_into_a_container_marks_the_container_and_not_the_tile() {
    let (mut map, pos) = one_tile();
    let bag = a_bag(1);
    let guid = bag.guid;
    map.inner_mut().place_item(&pos, None, None, bag).unwrap();

    map.place_item(&pos, None, Some((guid, 0)), coins(1, 2)).unwrap();

    assert!(map.delta().container_dirty(guid));
    assert!(!map.delta().tile_dirty(&pos));
}

#[test]
fn a_failed_placement_marks_nothing() {
    let (mut map, _) = one_tile();

    assert!(map.place_item(&Position::new(50, 50, 7), None, None, coins(1, 1)).is_err());

    assert!(map.delta().is_empty());
}

#[test]
fn removing_from_a_container_on_a_tile_marks_the_container() {
    let (mut map, pos) = one_tile();
    let mut bag = a_bag(1);
    let coin = coins(1, 2);
    let coin_guid = coin.guid;
    bag.content.as_mut().unwrap().push(coin);
    let bag_guid = bag.guid;
    map.inner_mut().place_item(&pos, None, None, bag).unwrap();

    map.remove_item_from_tile(&pos, coin_guid, 1, FRESH).unwrap();

    assert!(map.delta().container_dirty(bag_guid));
    assert!(!map.delta().tile_dirty(&pos));
}

#[test]
fn removing_from_the_tile_marks_the_tile() {
    let (mut map, pos) = one_tile();
    let coin = coins(1, 1);
    let guid = coin.guid;
    map.inner_mut().place_item(&pos, None, None, coin).unwrap();

    map.remove_item_from_tile(&pos, guid, 1, FRESH).unwrap();

    assert!(map.delta().tile_dirty(&pos));
}

fn a_player(inventory: Inventory) -> Agent {
    Agent {
        life: Pool { current: 100, maximum: 100 },
        mana: Pool { current: 100, maximum: 100 },
        base_speed: 120,
        facing: Facing::South,
        conditions: Conditions::new(),
        next_walk_tick: Tick(0),
        next_use_tick: Tick(0),
        next_auto_attack_tick: Tick(0),
        spell_ticks: HashMap::new(),
        group_ticks: HashMap::new(),
        target: None,
        target_seq: 0,
        wounds: Vec::new(),
        body: AgentBody::Player(Player {
            name: "Rizael".to_string(),
            vocation: Vocation::Sorcerer,
            life_regen: 5,
            mana_regen: 10,
            capacity: 400,
            skills: vec![(SkillType::Level, SkillValue { value: 1, current_ticks: 0 })],
            inventory: Arc::new(inventory),
        }),
    }
}

fn nothing_carried() -> Inventory {
    Inventory { slots: Vec::new(), carried_weight: 0, speed: 0 }
}

#[test]
fn a_step_sets_the_facing_and_marks_nothing() {
    let (here, there) = (Position::new(10, 10, 7), Position::new(11, 10, 7));
    let mut map = GameMap::new();
    map.insert_tile(here, MapTile::new());
    map.insert_tile(there, MapTile::new());
    let key = map.insert_agent(a_player(nothing_carried()), &here).unwrap();
    let mut map = WorldMap::new(map);

    map.step_agent(key, &there, Facing::East).unwrap();

    assert_eq!(map.map().agent_position(key), Some(there));
    assert_eq!(map.map().get_agent(key).unwrap().facing, Facing::East);
    assert!(map.delta().is_empty());
}

#[test]
fn taking_the_delta_leaves_an_empty_one_behind() {
    let (mut map, pos) = one_tile();
    map.place_item(&pos, None, None, coins(1, 1)).unwrap();

    let taken = map.take_delta();

    assert!(taken.tile_dirty(&pos));
    assert!(map.delta().is_empty());
}

#[test]
fn the_snapshot_does_not_see_later_writes() {
    let (mut map, pos) = one_tile();
    let snapshot = map.snapshot();

    map.place_item(&pos, None, None, coins(1, 1)).unwrap();

    assert_eq!(snapshot.iter_items(&pos).unwrap().len(), 0);
    assert_eq!(map.take_chunk_copies(), 1);
}

fn a_player_alone() -> (WorldMap, AgentKey) {
    let pos = Position::new(10, 10, 7);
    let mut map = GameMap::new();
    map.insert_tile(pos, MapTile::new());
    let key = map.insert_agent(a_player(nothing_carried()), &pos).unwrap();
    (WorldMap::new(map), key)
}

#[test]
fn life_writes_mark_life() {
    let (mut map, key) = a_player_alone();

    let mut agent = map.agent_mut(key).unwrap();
    agent.remove_life(10);
    agent.restore_life(5);
    agent.change_max_life(10);

    let dirty = map.delta().agent(key);
    assert!(dirty.life());
    assert!(!dirty.mana() && !dirty.status());
    let life = map.map().get_agent(key).unwrap().life;
    assert_eq!(life, Pool { current: 95, maximum: 110 });
}

#[test]
fn mana_writes_mark_mana_only_while_no_shield_breaks() {
    let (mut map, key) = a_player_alone();

    map.agent_mut(key).unwrap().remove_mana(10);

    let dirty = map.delta().agent(key);
    assert!(dirty.mana());
    assert!(!dirty.status());
}

#[test]
fn emptying_a_shielded_pool_marks_the_status_too() {
    let (mut map, key) = a_player_alone();
    map.inner_mut().get_agent_mut(key).unwrap().conditions.extend_magic_shield(Tick(1000));

    map.agent_mut(key).unwrap().remove_mana(100);

    let dirty = map.delta().agent(key);
    assert!(dirty.mana() && dirty.status());
}

#[test]
fn a_turn_marks_facing_and_facing_the_same_way_does_not() {
    let (mut map, key) = a_player_alone();

    map.agent_mut(key).unwrap().set_facing(Facing::South);
    assert!(!map.delta().agent(key).facing());

    map.agent_mut(key).unwrap().set_facing(Facing::North);
    assert!(map.delta().agent(key).facing());
}

#[test]
fn base_speed_marks_speed() {
    let (mut map, key) = a_player_alone();

    map.agent_mut(key).unwrap().set_base_speed(300);

    assert!(map.delta().agent(key).speed());
}

#[test]
fn a_condition_that_changes_status_and_speed_marks_both() {
    let (mut map, key) = a_player_alone();

    map.agent_mut(key).unwrap().conditions(|c: &mut Conditions| {
        c.apply_speed(SpeedEffect::Haste, 30)
    });

    let dirty = map.delta().agent(key);
    assert!(dirty.status() && dirty.speed());
}

#[test]
fn a_condition_write_that_changes_nothing_marks_nothing() {
    let (mut map, key) = a_player_alone();

    let cured =
        map.agent_mut(key).unwrap().conditions(|c: &mut Conditions| c.cure(CombatElement::Fire));

    assert!(!cured);
    assert!(map.delta().is_empty());
}

#[test]
fn the_writes_of_single_conditions_mark_as_the_general_one_does() {
    let (mut map, key) = a_player_alone();

    let generation = map.agent_mut(key).unwrap().apply_speed(SpeedEffect::Paralysis, -20);
    assert!(map.delta().agent(key).status() && map.delta().agent(key).speed());

    map.take_delta();
    assert!(!map.agent_mut(key).unwrap().expire_speed(generation + 1));
    assert!(map.delta().is_empty());
    assert!(map.agent_mut(key).unwrap().expire_speed(generation));
    assert_eq!(map.map().get_agent(key).unwrap().speed(), 120);
    assert!(map.delta().agent(key).speed());
}

#[test]
fn bookkeeping_writes_mark_nothing() {
    let (mut map, key) = a_player_alone();
    let config = game_config();

    let mut agent = map.agent_mut(key).unwrap();
    agent.stamp_walk(Tick(5));
    agent.stamp_use(Tick(5));
    agent.stamp_auto_attack(Tick(5), &config);
    agent.set_target(None, 0);
    agent.record_damage(key, 3);

    assert!(map.delta().is_empty());
    assert_eq!(map.map().get_agent(key).unwrap().next_walk_tick, Tick(5));
    assert_eq!(map.map().get_agent(key).unwrap().next_use_tick, Tick(5));
}

/// A backpack with two pouches, each with ten coins in it.
fn a_player_with_a_backpack() -> (WorldMap, AgentKey) {
    let mut pouch = a_bag(101);
    pouch.content.as_mut().unwrap().push(coins(10, 102));
    let mut other = a_bag(103);
    other.content.as_mut().unwrap().push(coins(10, 104));
    let mut backpack = a_bag(100);
    backpack.content = Some(vec![pouch, other]);
    let pos = Position::new(10, 10, 7);
    let mut map = GameMap::new();
    map.insert_tile(pos, MapTile::new());
    let key = map
        .insert_agent(
            a_player(Inventory {
                slots: vec![(InventorySlot::Backpack, backpack)],
                carried_weight: 20,
                speed: 0,
            }),
            &pos,
        )
        .unwrap();
    (WorldMap::new(map), key)
}

fn boots(speed: i16) -> Item {
    Item::new(config(3079, Vec::new(), vec![ItemAttribute::Speed(speed)]), 1, ItemGuid(300))
}

/// Wears an item, whatever it adds to the speed.
fn wear(
    inventory: &mut Inventory,
    slot: InventorySlot,
    item: Item,
) -> Result<Option<Item>, ItemMovementError> {
    inventory.speed += item.config.attr_speed();
    inventory.slots.push((slot, item));
    Ok(None)
}

#[test]
fn a_skill_write_marks_that_skill_only() {
    let (mut map, key) = a_player_alone();

    map.player_mut(key).unwrap().skill_mut(SkillType::Level).unwrap().current_ticks += 1;

    assert_eq!(map.delta().agent(key).skills(), vec![SkillType::Level]);
    assert_eq!(map.map().get_player(key).unwrap().skills[0].1.current_ticks, 1);
}

#[test]
fn a_skill_the_player_lacks_marks_nothing() {
    let (mut map, key) = a_player_alone();

    assert!(map.player_mut(key).unwrap().skill_mut(SkillType::Axe).is_none());

    assert!(map.delta().is_empty());
}

#[test]
fn capacity_marks_capacity() {
    let (mut map, key) = a_player_alone();

    map.player_mut(key).unwrap().set_capacity(50000);

    assert!(map.delta().agent(key).capacity());
}

#[test]
fn equipping_a_slot_marks_the_slot_and_capacity() {
    let (mut map, key) = a_player_alone();

    map.player_mut(key)
        .unwrap()
        .inventory_mut()
        .insert(InventorySlot::Head, None, |inventory: &mut Inventory| {
            wear(inventory, InventorySlot::Head, coins(1, 1))
        })
        .unwrap();

    assert_eq!(map.delta().slots_of(key), vec![InventorySlot::Head]);
    assert!(map.delta().agent(key).capacity());
    assert!(!map.delta().agent(key).speed());
}

#[test]
fn equipment_that_changes_speed_marks_speed() {
    let (mut map, key) = a_player_alone();

    map.player_mut(key)
        .unwrap()
        .inventory_mut()
        .insert(InventorySlot::Feet, None, |inventory: &mut Inventory| {
            wear(inventory, InventorySlot::Feet, boots(20))
        })
        .unwrap();

    assert!(map.delta().agent(key).speed());
}

#[test]
fn inserting_into_a_carried_container_marks_the_container_not_the_slot() {
    let (mut map, key) = a_player_with_a_backpack();
    let guid = ItemGuid(100);

    map.player_mut(key)
        .unwrap()
        .inventory_mut()
        .insert(InventorySlot::Backpack, Some((guid, 0)), |inventory: &mut Inventory| {
            inventory.slots[0].1.content.as_mut().unwrap().insert(0, coins(1, 1));
            Ok(None)
        })
        .unwrap();

    assert!(map.delta().container_dirty(guid));
    assert_eq!(map.delta().slots_of(key).len(), 0);
    assert!(map.delta().agent(key).capacity());
}

#[test]
fn removing_a_nested_item_marks_the_container_it_came_out_of() {
    let (mut map, key) = a_player_with_a_backpack();
    let (pouch_guid, coin_guid) = (ItemGuid(101), ItemGuid(102));

    map.player_mut(key)
        .unwrap()
        .inventory_mut()
        .remove(InventorySlot::Backpack, |inventory: &mut Inventory| {
            remove_nested(&mut inventory.slots[0].1, coin_guid, 1, FRESH)
                .map(|removed| (removed.item, removed.parent))
        })
        .unwrap();

    assert!(map.delta().container_dirty(pouch_guid));
    assert_eq!(map.delta().slots_of(key).len(), 0);
}

#[test]
fn taking_a_slot_marks_the_slot() {
    let (mut map, key) = a_player_with_a_backpack();

    map.player_mut(key)
        .unwrap()
        .inventory_mut()
        .take_slot(InventorySlot::Backpack, |inventory: &mut Inventory| {
            inventory.slots.pop().map(|(_, item)| item)
        })
        .unwrap();

    assert_eq!(map.delta().slots_of(key), vec![InventorySlot::Backpack]);
}

#[test]
fn a_failed_insert_marks_nothing() {
    let (mut map, key) = a_player_with_a_backpack();
    let missing = ItemGuid(u64::MAX);

    let result = map.player_mut(key).unwrap().inventory_mut().insert(
        InventorySlot::Backpack,
        Some((missing, 0)),
        |inventory: &mut Inventory| {
            let backpack = &mut inventory.slots[0].1;
            if has_room_within(backpack, missing) != Some(true) {
                return Err(ItemMovementError::Refused);
            }
            put_within(backpack, missing, 0, coins(1, 1));
            Ok(None)
        },
    );

    assert!(result.is_err());
    assert!(map.delta().is_empty());
}

#[test]
fn the_player_half_of_an_agent_guard_marks_the_same_agent() {
    let (mut map, key) = a_player_alone();

    let mut agent = map.agent_mut(key).unwrap();
    agent.player_mut().unwrap().set_capacity(1);
    agent.set_base_speed(300);

    let dirty = map.delta().agent(key);
    assert!(dirty.capacity() && dirty.speed());
}

#[test]
fn stacking_onto_a_tile_marks_the_tile() {
    let (mut map, pos) = one_tile();
    map.inner_mut().place_item(&pos, None, None, coins(10, 1)).unwrap();
    let mut incoming = coins(5, 2);

    let moved = map.stack_onto(&ItemPlacement::Tile(pos), &mut incoming);

    assert_eq!((moved, incoming.amount), (5, 0));
    assert_eq!(map.map().get_top_item(&pos).unwrap().amount, 15);
    assert!(map.delta().tile_dirty(&pos));
}

#[test]
fn stacking_into_a_container_on_a_tile_marks_the_container() {
    let (mut map, pos) = one_tile();
    let mut bag = a_bag(1);
    bag.content.as_mut().unwrap().push(coins(10, 2));
    let bag_guid = bag.guid;
    map.inner_mut().place_item(&pos, None, None, bag).unwrap();
    let placement = ItemPlacement::Container {
        guid: bag_guid,
        within: Box::new(ItemPlacement::Tile(pos)),
        index: 0,
    };

    let moved = map.stack_onto(&placement, &mut coins(5, 3));

    assert_eq!(moved, 5);
    assert!(map.delta().container_dirty(bag_guid));
    assert!(!map.delta().tile_dirty(&pos));
}

#[test]
fn stacking_into_a_carried_container_marks_it_and_carries_the_weight() {
    let (mut map, key) = a_player_with_a_backpack();
    let pouch_guid = ItemGuid(101);
    let weight = map.map().get_player(key).unwrap().inventory().carried_weight;
    let placement = ItemPlacement::Container {
        guid: pouch_guid,
        within: Box::new(ItemPlacement::Inventory(InventorySlot::Backpack, key)),
        index: 0,
    };

    let moved = map.stack_onto(&placement, &mut coins(5, 1));

    assert_eq!(moved, 5);
    assert_eq!(map.map().get_player(key).unwrap().inventory().carried_weight, weight + 5);
    assert!(map.delta().container_dirty(pouch_guid));
    assert!(map.delta().agent(key).capacity());
}

#[test]
fn nothing_to_stack_onto_moves_nothing_and_marks_nothing() {
    let (mut map, pos) = one_tile();

    let moved = map.stack_onto(&ItemPlacement::Tile(pos), &mut coins(5, 1));

    assert_eq!(moved, 0);
    assert!(map.delta().is_empty());
}

#[test]
fn a_stack_tops_up_to_its_maximum_and_no_further() {
    let mut stack = coins(98, 1);
    let mut incoming = coins(5, 2);

    assert!(stack.stacks_with(&incoming));
    assert_eq!(stack.top_up_from(&mut incoming), 2);
    assert_eq!((stack.amount, incoming.amount), (100, 3));
    assert!(!stack.stacks_with(&incoming));
}

fn key(n: u64) -> AgentKey {
    AgentKey((1 << 32) | n)
}

#[test]
fn a_tile_marked_twice_is_listed_once() {
    let mut delta = WorldDelta::default();
    let pos = Position::new(10, 10, 7);

    delta.mark_tile(&pos);
    delta.mark_tile(&pos);

    let rect = Rect::player_viewport(&pos);
    assert_eq!(delta.tiles_in(&rect, &[7]).len(), 1);
}

#[test]
fn tiles_in_keeps_only_the_rect_and_the_floors_asked_for() {
    let mut delta = WorldDelta::default();
    let centre = Position::new(100, 100, 7);
    let inside = Position::new(101, 100, 7);
    let outside = Position::new(140, 100, 7);
    let other_floor = Position::new(101, 100, 10);
    for pos in [&inside, &outside, &other_floor] {
        delta.mark_tile(pos);
    }

    let rect = Rect::player_viewport(&centre);

    assert_eq!(delta.tiles_in(&rect, &[7]), vec![inside]);
}

#[test]
fn agent_flags_and_skills_accumulate_independently() {
    let mut delta = WorldDelta::default();

    delta.mark_agent(key(1), AgentFlag::Life);
    delta.mark_agent(key(1), AgentFlag::Facing);
    delta.mark_skill(key(1), SkillType::Sword);
    delta.mark_agent(key(2), AgentFlag::Mana);

    let first = delta.agent(key(1));
    assert!(first.life() && first.facing());
    assert!(!first.mana() && !first.speed() && !first.status() && !first.capacity());
    assert_eq!(first.skills(), vec![SkillType::Sword]);
    assert!(delta.agent(key(2)).mana());
    assert_eq!(delta.agent(key(3)), AgentDirty::default());
}

#[test]
fn slots_of_lists_only_that_agents_slots() {
    let mut delta = WorldDelta::default();

    delta.mark_slot(key(1), InventorySlot::Head);
    delta.mark_slot(key(2), InventorySlot::Feet);

    assert_eq!(delta.slots_of(key(1)), vec![InventorySlot::Head]);
}

#[test]
fn a_fresh_delta_is_empty_and_a_marked_one_is_not() {
    let mut delta = WorldDelta::default();
    assert!(delta.is_empty());

    delta.mark_container(ItemGuid(7));

    assert!(!delta.is_empty());
    assert!(delta.container_dirty(ItemGuid(7)));
}
