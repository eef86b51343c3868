//! The map: its tiles, agents and items, and copies of it.

use rustibia::entities::agent::{Agent, AgentBody, AgentKey, Facing, Pool};
use rustibia::entities::conditions::Conditions;
use rustibia::entities::creature::CreatureKind;
use rustibia::entities::inventory::InventorySlot;
use rustibia::entities::item::Item;
use rustibia::entities::items::{ItemAttribute, ItemConfig, ItemFlag, ItemGuid, ItemId};
use rustibia::entities::map::{GameMap, MapError, MapTile, CHUNK_SIDE};
use rustibia::entities::player::{Inventory, Player, SkillValue};
use rustibia::entities::position::{Position, Rect};
use rustibia::entities::skills::SkillType;
use rustibia::entities::vocation::Vocation;
use rustibia::game::tick::Tick;
use std::collections::HashMap;
use std::sync::Arc;

fn an_agent(body: AgentBody) -> Agent {
    Agent {
        life: Pool { current: 100, maximum: 100 },
        mana: Pool { current: 100, maximum: 100 },
        base_speed: 100,
        facing: Facing::South,
        conditions: Conditions::new(),
        next_walk_tick: Tick(0),
        next_use_tick: Tick(0),
        next_auto_attack_tick: Tick(0),
        spell_ticks: HashMap::new(),
        group_ticks: HashMap::new(),
        target: None,
        target_seq: 0,
        wounds: Vec::new(),
        body,
    }
}

fn new_creature() -> Agent {
    an_agent(AgentBody::Creature(Arc::new(CreatureKind {
        name: "Creature".to_string(),
        immune_to_paralysis: false,
        abilities: Vec::new(),
    })))
}

fn map_with_one_tile(pos: &Position) -> GameMap {
    let mut map = GameMap::new();
    map.insert_tile(*pos, MapTile::new());
    map
}

fn a_stack_of(amount: u8, guid: u64) -> Item {
    Item::new(
        Arc::new(ItemConfig::new(
            ItemId(2148),
            "gold coin".to_string(),
            vec![ItemFlag::Cumulative, ItemFlag::Take],
            Vec::new(),
        )),
        amount,
        ItemGuid(guid),
    )
}

fn a_bag(guid: u64) -> Item {
    Item::new(
        Arc::new(ItemConfig::new(
            ItemId(1987),
            "bag".to_string(),
            vec![ItemFlag::Container],
            vec![ItemAttribute::Capacity(8)],
        )),
        1,
        ItemGuid(guid),
    )
}

const FRESH: ItemGuid = ItemGuid(9000);

#[test]
fn removing_part_of_a_stack_names_the_container_it_came_from() {
    let pos = Position::new(10, 10, 7);
    let mut map = map_with_one_tile(&pos);
    let bag = a_bag(1);
    let bag_guid = bag.guid;
    map.place_item(&pos, None, None, bag).unwrap();
    let stack = a_stack_of(50, 2);
    let stack_guid = stack.guid;
    map.place_item(&pos, None, Some((bag_guid, 0)), stack).unwrap();

    let removed = map.remove_item_from_tile(&pos, stack_guid, 20, FRESH).unwrap();

    assert_eq!(removed.item.amount, 20);
    assert_eq!(removed.index, None, "the stack was in the bag, not on the tile");
    assert_eq!(removed.parent, Some((bag_guid, 0)));
}

#[test]
fn removing_a_whole_stack_names_the_same_container() {
    let pos = Position::new(10, 10, 7);
    let mut map = map_with_one_tile(&pos);
    let bag = a_bag(1);
    let bag_guid = bag.guid;
    map.place_item(&pos, None, None, bag).unwrap();
    let stack = a_stack_of(20, 2);
    let stack_guid = stack.guid;
    map.place_item(&pos, None, Some((bag_guid, 0)), stack).unwrap();

    let removed = map.remove_item_from_tile(&pos, stack_guid, 20, FRESH).unwrap();

    assert_eq!(removed.parent, Some((bag_guid, 0)));
}

#[test]
fn removing_from_a_bag_inside_a_bag_names_the_inner_one() {
    let pos = Position::new(10, 10, 7);
    let mut map = map_with_one_tile(&pos);
    let outer = a_bag(1);
    let outer_guid = outer.guid;
    map.place_item(&pos, None, None, outer).unwrap();
    let inner = a_bag(2);
    let inner_guid = inner.guid;
    map.place_item(&pos, None, Some((outer_guid, 0)), inner).unwrap();
    let stack = a_stack_of(50, 3);
    let stack_guid = stack.guid;
    map.place_item(&pos, None, Some((inner_guid, 0)), stack).unwrap();

    let removed = map.remove_item_from_tile(&pos, stack_guid, 20, FRESH).unwrap();

    assert_eq!(removed.item.amount, 20);
    assert_eq!(removed.index, None);
    assert_eq!(removed.parent, Some((inner_guid, 0)));
}

#[test]
fn removing_more_than_a_stack_holds_removes_nothing() {
    let pos = Position::new(10, 10, 7);
    let mut map = map_with_one_tile(&pos);
    let stack = a_stack_of(5, 1);
    let stack_guid = stack.guid;
    map.place_item(&pos, None, None, stack).unwrap();

    assert!(map.remove_item_from_tile(&pos, stack_guid, 20, FRESH).is_none());
    assert_eq!(
        map.get_item_by_id(&pos, stack_guid).unwrap().amount,
        5,
        "a refused removal must leave the stack untouched"
    );
}

#[test]
fn a_split_stack_adds_up_to_what_it_was() {
    let pos = Position::new(10, 10, 7);
    let mut map = map_with_one_tile(&pos);
    map.place_item(&pos, None, None, a_stack_of(50, 1)).unwrap();

    let removed = map.remove_item_from_tile(&pos, ItemGuid(1), 20, FRESH).unwrap();

    assert_eq!(removed.item.guid, FRESH);
    assert_eq!(removed.index, Some(0));
    assert_eq!(map.get_item_by_id(&pos, ItemGuid(1)).unwrap().amount + removed.item.amount, 50);
}

#[test]
fn a_full_bag_and_a_missing_one_refuse_an_item() {
    let pos = Position::new(10, 10, 7);
    let mut map = map_with_one_tile(&pos);
    map.place_item(&pos, None, None, a_bag(1)).unwrap();
    for i in 0..8 {
        map.place_item(&pos, None, Some((ItemGuid(1), 0)), a_stack_of(1, 10 + i)).unwrap();
    }

    assert_eq!(
        map.place_item(&pos, None, Some((ItemGuid(1), 0)), a_stack_of(1, 30)),
        Err(MapError::ContainerIsFull)
    );
    assert_eq!(
        map.place_item(&pos, None, Some((ItemGuid(77), 0)), a_stack_of(1, 31)),
        Err(MapError::EntityNotInPosition)
    );
    assert_eq!(
        map.place_item(&Position::new(1, 1, 1), None, None, a_stack_of(1, 32)),
        Err(MapError::TileDoesNotExist)
    );
    assert_eq!(map.get_parent_container(&pos, ItemGuid(10)), Some(ItemGuid(1)));
}

#[test]
fn each_item_is_searched_whole_before_the_next() {
    let pos = Position::new(10, 10, 7);
    let mut map = map_with_one_tile(&pos);
    map.place_item(&pos, None, None, a_bag(1)).unwrap();
    map.place_item(&pos, None, Some((ItemGuid(1), 0)), a_bag(5)).unwrap();
    map.place_item(&pos, None, None, a_bag(5)).unwrap();

    map.place_item(&pos, None, Some((ItemGuid(5), 0)), a_stack_of(3, 9)).unwrap();

    assert_eq!(map.get_parent_container(&pos, ItemGuid(9)), Some(ItemGuid(5)));
    assert_eq!(map.get_parent_container(&pos, ItemGuid(5)), Some(ItemGuid(1)));
    let tile = map.get_tile(&pos).unwrap();
    assert!(tile.item(0).find_by_guid(ItemGuid(9)).is_some());
    assert!(tile.item(1).find_by_guid(ItemGuid(9)).is_none());
}

#[test]
fn a_nested_stack_that_is_too_small_is_passed_over() {
    let pos = Position::new(10, 10, 7);
    let mut map = map_with_one_tile(&pos);
    for bag in [1, 2] {
        map.place_item(&pos, None, None, a_bag(bag)).unwrap();
    }
    map.place_item(&pos, None, Some((ItemGuid(1), 0)), a_stack_of(3, 9)).unwrap();
    map.place_item(&pos, None, Some((ItemGuid(2), 0)), a_stack_of(30, 9)).unwrap();

    let removed = map.remove_item_from_tile(&pos, ItemGuid(9), 20, ItemGuid(50)).unwrap();

    assert_eq!(removed.item.amount, 20);
    assert_eq!(removed.parent, Some((ItemGuid(2), 0)));
}

#[test]
fn a_full_bag_refuses_an_item_at_any_place() {
    let pos = Position::new(10, 10, 7);
    let mut map = map_with_one_tile(&pos);
    let bag = a_bag(1);
    let capacity = u64::from(bag.config.attr_capacity().unwrap());
    map.place_item(&pos, None, None, bag).unwrap();
    for i in 0..capacity {
        map.place_item(&pos, None, Some((ItemGuid(1), 0)), a_stack_of(1, 10 + i)).unwrap();
    }

    assert_eq!(
        map.place_item(&pos, None, Some((ItemGuid(1), 200)), a_stack_of(1, 100)),
        Err(MapError::ContainerIsFull)
    );
}

#[test]
fn a_write_copies_a_chunk_that_a_snapshot_holds() {
    let pos = Position::new(10, 10, 7);
    let mut map = map_with_one_tile(&pos);
    map.place_item(&pos, None, None, a_stack_of(1, 1)).unwrap();
    assert_eq!(map.take_chunk_copies(), 0);

    let snapshot = map.clone();
    map.place_item(&pos, None, None, a_stack_of(1, 2)).unwrap();
    map.place_item(&pos, None, None, a_stack_of(1, 3)).unwrap();

    assert_eq!(map.take_chunk_copies(), 1);
    assert_eq!(map.take_chunk_copies(), 0);
    assert_eq!(snapshot.get_tile(&pos).unwrap().item_count(), 1);
}

fn a_player_with_a_full_backpack() -> Agent {
    let mut backpack = a_bag(100);
    backpack.content = Some(vec![a_stack_of(100, 101), a_stack_of(100, 102)]);
    an_agent(AgentBody::Player(Player {
        name: "Rizael".to_string(),
        vocation: Vocation::Sorcerer,
        life_regen: 5,
        mana_regen: 10,
        capacity: 400,
        skills: vec![(SkillType::Level, SkillValue { value: 1, current_ticks: 0 })],
        inventory: Arc::new(Inventory {
            slots: vec![(InventorySlot::Backpack, backpack)],
            carried_weight: 0,
            speed: 0,
        }),
    }))
}

fn map_with_players(count: u16) -> (GameMap, Vec<AgentKey>) {
    let mut map = GameMap::new();
    let mut keys = Vec::new();
    for i in 0..count {
        let pos = Position::new(100 + i, 100, 7);
        map.insert_tile(pos, MapTile::new());
        keys.push(map.insert_agent(a_player_with_a_full_backpack(), &pos).unwrap());
    }
    (map, keys)
}

#[test]
fn a_map_clone_shares_the_inventories_no_one_wrote_to() {
    let (mut map, keys) = map_with_players(2);
    let snapshot = map.clone();

    map.get_player_mut(keys[0]).unwrap().inventory_mut().slots.clear();

    assert!(!std::ptr::eq(
        map.get_player(keys[0]).unwrap().inventory(),
        snapshot.get_player(keys[0]).unwrap().inventory()
    ));
    assert!(std::ptr::eq(
        map.get_player(keys[1]).unwrap().inventory(),
        snapshot.get_player(keys[1]).unwrap().inventory()
    ));
}

#[test]
fn a_map_clone_does_not_see_later_inventory_writes() {
    let (mut map, keys) = map_with_players(1);
    let snapshot = map.clone();

    map.get_player_mut(keys[0]).unwrap().inventory_mut().slots.clear();

    assert!(
        snapshot
            .get_player(keys[0])
            .unwrap()
            .inventory()
            .index_of(InventorySlot::Backpack)
            .is_some(),
        "the snapshot lost the backpack the live map removed"
    );
    assert!(map
        .get_player(keys[0])
        .unwrap()
        .inventory()
        .index_of(InventorySlot::Backpack)
        .is_none());
}

#[test]
fn a_map_clone_does_not_see_later_player_field_writes() {
    let (mut map, keys) = map_with_players(1);
    let snapshot = map.clone();

    map.get_player_mut(keys[0]).unwrap().skills[0].1 = SkillValue { value: 7, current_ticks: 0 };

    assert_eq!(snapshot.get_player(keys[0]).unwrap().level(), 1);
    assert_eq!(map.get_player(keys[0]).unwrap().level(), 7);
}

#[test]
fn a_tile_stays_small_enough_to_hold_nineteen_million_of() {
    let size = std::mem::size_of::<MapTile>();
    assert!(
        size <= 128,
        "MapTile is {size} bytes; at {} slots that is {:.1} GB",
        18_887_168u64,
        (size as f64 * 18_887_168.0) / 1024.0 / 1024.0 / 1024.0
    );
}

#[test]
fn iter_agents_yields_each_inserted_agent() {
    let pos = Position::new(100, 100, 7);
    let mut map = map_with_one_tile(&pos);
    let k1 = map.insert_agent(new_creature(), &pos).unwrap();
    let k2 = map.insert_agent(new_creature(), &pos).unwrap();
    let keys = map.iter_agents();
    assert!(keys.contains(&k1));
    assert!(keys.contains(&k2));
    assert_eq!(keys.len(), 2);
}

#[test]
fn insert_agent_fails_when_tile_does_not_exist() {
    let mut map = GameMap::new();
    let pos = Position::new(5, 5, 7);
    assert!(matches!(map.insert_agent(new_creature(), &pos), Err(MapError::TileDoesNotExist)));
}

#[test]
fn tiles_sharing_a_local_index_across_chunks_do_not_alias() {
    let a = Position::new(0, 0, 7);
    let b = Position::new(CHUNK_SIDE, 0, 7);
    let mut map = GameMap::new();
    map.insert_tile(a, MapTile::new());
    map.insert_tile(b, MapTile::new());

    let key = map.insert_agent(new_creature(), &a).unwrap();
    assert_eq!(map.iter_agents_at(&a).unwrap(), vec![key]);
    assert_eq!(map.iter_agents_at(&b).unwrap().len(), 0);
}

#[test]
fn move_agent_across_chunk_boundary() {
    let from = Position::new(CHUNK_SIDE - 1, 10, 7);
    let to = Position::new(CHUNK_SIDE, 10, 7);
    let mut map = GameMap::new();
    map.insert_tile(from, MapTile::new());
    map.insert_tile(to, MapTile::new());

    let key = map.insert_agent(new_creature(), &from).unwrap();
    map.move_agent(key, &to).unwrap();

    assert_eq!(map.agent_position(key), Some(to));
    assert_eq!(map.iter_agents_at(&from).unwrap().len(), 0);
    assert_eq!(map.iter_agents_at(&to).unwrap().len(), 1);
}

#[test]
fn an_agent_that_was_removed_is_nowhere() {
    let pos = Position::new(3, 3, 7);
    let mut map = map_with_one_tile(&pos);
    let key = map.insert_agent(new_creature(), &pos).unwrap();

    let (_, stood_on) = map.remove_agent(key).unwrap();

    assert_eq!(stood_on, pos);
    assert!(map.get_agent(key).is_none());
    assert_eq!(map.agent_position(key), None);
    assert_eq!(map.iter_agents_at(&pos).unwrap().len(), 0);
    assert!(map.remove_agent(key).is_none());
    assert_eq!(map.move_agent(key, &pos), Err(MapError::EntityNotInPosition));
    let next = map.insert_agent(new_creature(), &pos).unwrap();
    assert_ne!(next, key, "a key is not given out twice");
}

#[test]
fn mutation_after_clone_does_not_affect_snapshot() {
    let pos = Position::new(3, 3, 7);
    let mut map = map_with_one_tile(&pos);

    let snapshot = map.clone();
    map.insert_agent(new_creature(), &pos).unwrap();

    assert_eq!(snapshot.iter_agents_at(&pos).unwrap().len(), 0);
    assert_eq!(map.iter_agents_at(&pos).unwrap().len(), 1);
}

#[test]
fn an_item_added_after_a_clone_is_not_in_the_snapshot() {
    let pos = Position::new(3, 3, 7);
    let mut map = map_with_one_tile(&pos);

    let snapshot = map.clone();
    map.place_item(&pos, None, None, a_stack_of(1, 1)).unwrap();

    assert_eq!(snapshot.iter_items(&pos).unwrap().len(), 0);
    assert_eq!(map.iter_items(&pos).unwrap().len(), 1);
    assert_eq!(map.take_chunk_copies(), 1, "the chunk was shared and had to be copied");
    assert_eq!(map.take_chunk_copies(), 0);
}

#[test]
fn a_chunk_added_after_a_clone_is_not_in_the_snapshot() {
    let here = Position::new(3, 3, 7);
    let far = Position::new(300, 300, 7);
    let mut map = map_with_one_tile(&here);

    let snapshot = map.clone();
    map.insert_tile(far, MapTile::new());

    assert!(!snapshot.contains_tile(&far), "the snapshot gained a chunk");
    assert!(map.contains_tile(&far));
    assert!(snapshot.contains_tile(&here), "and kept the one it had");
}

#[test]
fn get_agents_at_rect_collects_across_chunks_and_excludes_outside() {
    let mut map = GameMap::new();
    let a = Position::new(2, 2, 7);
    let b = Position::new(18, 3, 7);
    let outside = Position::new(40, 40, 7);
    for p in [&a, &b, &outside] {
        map.insert_tile(*p, MapTile::new());
    }
    let ka = map.insert_agent(new_creature(), &a).unwrap();
    let kb = map.insert_agent(new_creature(), &b).unwrap();
    let ko = map.insert_agent(new_creature(), &outside).unwrap();

    let rect = Rect::new(0, 0, 20, 10);
    let found: Vec<AgentKey> =
        map.iter_agents_in_rect(&rect, 7).into_iter().map(|(k, _)| k).collect();

    assert_eq!(found.len(), 2);
    assert!(found.contains(&ka));
    assert!(found.contains(&kb));
    assert!(!found.contains(&ko));
}

#[test]
fn get_agents_at_rect_is_floor_scoped() {
    let mut map = GameMap::new();
    let pos = Position::new(5, 5, 7);
    map.insert_tile(pos, MapTile::new());
    map.insert_agent(new_creature(), &pos).unwrap();

    let rect = Rect::new(0, 0, 15, 15);
    assert_eq!(map.iter_agents_in_rect(&rect, 7).len(), 1);
    assert_eq!(map.iter_agents_in_rect(&rect, 6).len(), 0);
}

#[test]
fn get_agents_at_rect_over_void_is_empty() {
    let map = GameMap::new();
    let rect = Rect::new(0, 0, 100, 100);
    assert_eq!(map.iter_agents_in_rect(&rect, 7).len(), 0);
}

#[test]
fn iter_tiles_in_rect_yields_existing_tiles_with_positions() {
    let mut map = GameMap::new();
    let a = Position::new(2, 2, 7);
    let b = Position::new(18, 3, 7);
    let outside = Position::new(40, 40, 7);
    for p in [&a, &b, &outside] {
        map.insert_tile(*p, MapTile::new());
    }

    let rect = Rect::new(0, 0, 20, 10);

    assert_eq!(map.iter_tiles_in_rect(&rect, 7).len(), 21 * 11);

    let mut found: Vec<Position> = map
        .iter_tiles_in_rect(&rect, 7)
        .into_iter()
        .filter_map(|(pos, tile)| tile.map(|_| pos))
        .collect();
    found.sort();

    assert_eq!(found, vec![a, b]);
}

#[test]
fn iter_tiles_in_rect_is_floor_scoped() {
    let mut map = GameMap::new();
    let pos = Position::new(5, 5, 7);
    map.insert_tile(pos, MapTile::new());

    let rect = Rect::new(0, 0, 15, 15);

    assert_eq!(map.iter_tiles_in_rect(&rect, 7).len(), 16 * 16);
    assert_eq!(map.iter_tiles_in_rect(&rect, 6).len(), 16 * 16);

    let some_on_7 =
        map.iter_tiles_in_rect(&rect, 7).iter().filter(|(_, tile)| tile.is_some()).count();
    let some_on_6 =
        map.iter_tiles_in_rect(&rect, 6).iter().filter(|(_, tile)| tile.is_some()).count();
    assert_eq!(some_on_7, 1);
    assert_eq!(some_on_6, 0);
}

#[test]
fn get_agents_at_rect_respects_inclusive_bounds_within_a_chunk() {
    let mut map = GameMap::new();
    let inside = Position::new(10, 10, 7);
    let just_outside = Position::new(11, 10, 7);
    map.insert_tile(inside, MapTile::new());
    map.insert_tile(just_outside, MapTile::new());
    let ki = map.insert_agent(new_creature(), &inside).unwrap();
    map.insert_agent(new_creature(), &just_outside).unwrap();

    let rect = Rect::new(0, 0, 10, 10);
    let found: Vec<AgentKey> =
        map.iter_agents_in_rect(&rect, 7).into_iter().map(|(k, _)| k).collect();
    assert_eq!(found, vec![ki]);
}

#[test]
fn a_tile_shows_at_most_eight_items() {
    let mut tile = MapTile::new();
    for i in 0..10 {
        tile.push_item(a_stack_of(1, i));
    }

    let seen: Vec<ItemGuid> = tile.visible_items().into_iter().map(|item| item.guid).collect();

    assert_eq!(seen, (0..8).map(ItemGuid).collect::<Vec<ItemGuid>>());
    assert_eq!(tile.item_count(), 10);
}

#[test]
fn a_map_error_says_what_is_wrong() {
    assert_eq!(MapError::ContainerIsFull.message(), "Container is full");
}
