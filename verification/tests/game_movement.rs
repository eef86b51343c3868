//! Walking, fields and stairs.

use rustibia::entities::agent::{Agent, AgentBody, AgentKey, Facing, Pool};
use rustibia::entities::combat::{Bounds, CombatElement};
use rustibia::entities::conditions::{ConditionSpec, Conditions, SpecSchedule};
use rustibia::entities::item::Item;
use rustibia::entities::items::{
    FloorChangeDirection, ItemAttribute, ItemConfig, ItemFlag, ItemGuid, ItemId,
};
use rustibia::entities::map::{GameMap, MapTile};
use rustibia::entities::player::{Inventory, Player, SkillValue};
use rustibia::entities::position::{Direction, Position};
use rustibia::entities::skills::SkillType;
use rustibia::entities::vocation::Vocation;
use rustibia::entities::world_map::WorldMap;
use rustibia::game::conditions::{DueHit, apply_condition, book_next_hit};
use rustibia::game::ctx::TickCtx;
use rustibia::game::events::BroadcastMessage;
use rustibia::game::movement::{
    MAX_STEP_CHAIN, TileCondition, change_direction, direction_to_facing,
    floor_change_destination, on_step, walk,
};
use rustibia::game::tick::{Tick, TickDelta};
use std::collections::HashMap;
use std::sync::Arc;

fn an_agent(base_speed: u16, body: AgentBody) -> Agent {
    Agent {
        life: Pool { current: 100, maximum: 100 },
        mana: Pool { current: 100, maximum: 100 },
        base_speed,
        facing: Facing::South,
        conditions: Conditions::new(),
        next_walk_tick: Tick(0),
        next_use_tick: Tick(0),
        next_auto_attack_tick: Tick(0),
        spell_ticks: HashMap::new(),
        group_ticks: HashMap::new(),
        target: None,
        target_seq: 0,
        wounds: Vec::new(),
        body,
    }
}

fn a_named_player(name: &str) -> Agent {
    an_agent(
        120,
        AgentBody::Player(Player {
            name: name.to_string(),
            vocation: Vocation::Sorcerer,
            life_regen: 5,
            mana_regen: 10,
            capacity: 400,
            skills: vec![(SkillType::Level, SkillValue { value: 1, current_ticks: 0 })],
            inventory: Arc::new(Inventory { slots: Vec::new(), carried_weight: 0, speed: 0 }),
        }),
    )
}

fn a_player() -> Agent {
    a_named_player("Rizael")
}

/// Deals a hit as far as its number goes, and goes on with the wound.
fn deal(ctx: &mut TickCtx, due: Option<DueHit>) {
    if let Some(hit) = due {
        let position = ctx.map.map().agent_position(hit.target).unwrap();
        ctx.map.agent_mut(hit.target).unwrap().remove_life(hit.damage.value);
        ctx.tell(BroadcastMessage::DamageTaken {
            source: hit.source,
            target: hit.target,
            position,
            blood_type: None,
            damage: hit.damage,
        });
        book_next_hit(ctx, &hit);
    }
}

fn a_floor_tile() -> MapTile {
    let mut tile = MapTile::new();
    tile.push_item(Item::new(
        Arc::new(ItemConfig::new(
            ItemId(1),
            "ground".to_string(),
            vec![ItemFlag::Ground],
            vec![ItemAttribute::TileFriction(100)],
        )),
        1,
        ItemGuid(1),
    ));
    tile
}

fn a_player_on(tiles: &[Position]) -> (WorldMap, AgentKey) {
    let mut map = GameMap::new();
    for pos in tiles {
        map.insert_tile(*pos, a_floor_tile());
    }
    let key = map.insert_agent(a_player(), &tiles[0]).unwrap();
    (WorldMap::new(map), key)
}

/// Takes a step to its end: every condition is rolled at its lower bound, applied and dealt.
fn take_step(ctx: &mut TickCtx, direction: Direction, player: AgentKey) {
    let pace = |_: u16, friction: u16, diagonal: bool| -> u64 {
        if diagonal {
            friction as u64 * 3
        } else {
            friction as u64
        }
    };
    let held = TickCtx::new(WorldMap::new(GameMap::new()), ctx.tick);
    let before = std::mem::replace(ctx, held);
    let apply = |mut ctx: TickCtx, (agent, spec, owner): TileCondition| {
        let due = apply_condition(&mut ctx, agent, &spec, spec.damage.min, owner);
        deal(&mut ctx, due);
        ctx
    };
    *ctx = walk(before, direction, player, &pace, &apply);
}

#[test]
fn a_walk_into_nothing_turns_the_walker_and_marks_the_turn() {
    let (map, player) = a_player_on(&[Position::new(10, 10, 7)]);
    let mut ctx = TickCtx::new(map, Tick(0));

    take_step(&mut ctx, Direction::North, player);

    assert_eq!(ctx.map.map().get_agent(player).unwrap().facing, Facing::North);
    assert!(ctx.map.delta().agent(player).facing());
    assert!(matches!(ctx.events.as_slice(), [BroadcastMessage::AgentWalkDenied { .. }]));
}

#[test]
fn a_step_turns_the_walker_without_marking_a_turn() {
    let (here, east) = (Position::new(10, 10, 7), Position::new(11, 10, 7));
    let (map, player) = a_player_on(&[here, east]);
    let mut ctx = TickCtx::new(map, Tick(0));

    take_step(&mut ctx, Direction::East, player);

    assert_eq!(ctx.map.map().agent_position(player), Some(east));
    assert_eq!(ctx.map.map().get_agent(player).unwrap().facing, Facing::East);
    assert!(!ctx.map.delta().agent(player).facing());
}

#[test]
fn a_walker_rests_as_long_as_its_step_takes() {
    let (map, player) = a_player_on(&[HERE, EAST, Position::new(12, 9, 7)]);
    let mut ctx = TickCtx::new(map, Tick(0));

    take_step(&mut ctx, Direction::East, player);
    assert_eq!(ctx.map.map().get_agent(player).unwrap().next_walk_tick, Tick(100));

    ctx.tick = Tick(99);
    take_step(&mut ctx, Direction::NorthEast, player);
    assert_eq!(ctx.map.map().agent_position(player), Some(EAST));

    ctx.tick = Tick(100);
    take_step(&mut ctx, Direction::NorthEast, player);
    assert_eq!(ctx.map.map().agent_position(player), Some(Position::new(12, 9, 7)));
    assert_eq!(ctx.map.map().get_agent(player).unwrap().next_walk_tick, Tick(400));
}

fn an_item_with(guid: u64, attributes: Vec<ItemAttribute>) -> Item {
    Item::new(
        Arc::new(ItemConfig::new(ItemId(2), "thing".to_string(), Vec::new(), attributes)),
        1,
        ItemGuid(guid),
    )
}

fn a_field(damage: u32) -> Item {
    an_item_with(
        2,
        vec![ItemAttribute::Field(ConditionSpec {
            element: CombatElement::Fire,
            damage: Bounds { min: damage, max: damage },
            interval: TickDelta(200),
            schedule: SpecSchedule::Flat { count: 7 },
            delayed: false,
        })],
    )
}

fn a_floor_change(direction: FloorChangeDirection) -> Item {
    an_item_with(3, vec![ItemAttribute::FloorChange(direction)])
}

const HERE: Position = Position { x: 10, y: 10, z: 7 };
const EAST: Position = Position { x: 11, y: 10, z: 7 };

/// A player on `HERE`, floor tiles at `HERE`, `EAST` and every position in `more`, and `items`
/// placed on the tiles they name.
fn a_walk(more: &[Position], items: Vec<(Position, Item)>) -> (GameMap, AgentKey) {
    let mut map = GameMap::new();
    for pos in [HERE, EAST].iter().chain(more) {
        map.insert_tile(*pos, a_floor_tile());
    }
    for (pos, item) in items {
        map.place_item(&pos, None, None, item).unwrap();
    }
    let key = map.insert_agent(a_player(), &HERE).unwrap();
    (map, key)
}

fn life(ctx: &TickCtx, key: AgentKey) -> u32 {
    ctx.map.map().get_agent(key).unwrap().life.current
}

fn teleports(ctx: &TickCtx) -> usize {
    ctx.events.iter().filter(|e| matches!(e, BroadcastMessage::AgentTeleported { .. })).count()
}

#[test]
fn stepping_into_a_field_hits_at_once_and_credits_its_owner() {
    let elsewhere = Position::new(20, 20, 7);
    let (mut map, player) = a_walk(&[elsewhere], Vec::new());
    let owner = map.insert_agent(a_named_player("Owner"), &elsewhere).unwrap();
    let mut field = a_field(20);
    field.owner = Some(owner);
    map.place_item(&EAST, None, None, field).unwrap();
    let mut ctx = TickCtx::new(WorldMap::new(map), Tick(0));
    let before = life(&ctx, player);

    take_step(&mut ctx, Direction::East, player);

    assert_eq!(life(&ctx, player), before - 20);
    assert!(ctx.events.iter().any(|e| matches!(
        e,
        BroadcastMessage::DamageTaken { source: Some(s), target, .. }
            if *s == owner && *target == player
    )));
    assert!(ctx.scheduled.iter().any(|s| s.at_tick == Tick(200)));
}

#[test]
fn a_spent_field_does_nothing() {
    let (map, player) = a_walk(&[], vec![(EAST, a_field(0))]);
    let mut ctx = TickCtx::new(WorldMap::new(map), Tick(0));
    let before = life(&ctx, player);

    take_step(&mut ctx, Direction::East, player);

    assert_eq!(life(&ctx, player), before);
    assert!(ctx.scheduled.is_empty());
}

#[test]
fn a_floor_change_moves_the_walker_and_reports_it() {
    let below = Position::new(11, 10, 8);
    let (map, player) =
        a_walk(&[below], vec![(EAST, a_floor_change(FloorChangeDirection::Down))]);
    let mut ctx = TickCtx::new(WorldMap::new(map), Tick(0));

    take_step(&mut ctx, Direction::East, player);

    assert_eq!(ctx.map.map().agent_position(player), Some(below));
    assert_eq!(teleports(&ctx), 1);
}

#[test]
fn a_burning_stair_burns_before_it_moves() {
    let below = Position::new(11, 10, 8);
    let (map, player) = a_walk(
        &[below],
        vec![
            (EAST, a_floor_change(FloorChangeDirection::Down)),
            (EAST, a_field(20)),
        ],
    );
    let mut ctx = TickCtx::new(WorldMap::new(map), Tick(0));
    let before = life(&ctx, player);

    take_step(&mut ctx, Direction::East, player);

    assert_eq!(ctx.map.map().agent_position(player), Some(below));
    assert_eq!(life(&ctx, player), before - 20);
    let hit = ctx
        .events
        .iter()
        .position(|e| matches!(e, BroadcastMessage::DamageTaken { .. }))
        .unwrap();
    let moved = ctx
        .events
        .iter()
        .position(|e| matches!(e, BroadcastMessage::AgentTeleported { .. }))
        .unwrap();
    assert!(hit < moved);
}

#[test]
fn a_field_where_a_floor_change_lands_applies_too() {
    let below = Position::new(11, 10, 8);
    let (map, player) = a_walk(
        &[below],
        vec![
            (EAST, a_floor_change(FloorChangeDirection::Down)),
            (below, a_field(20)),
        ],
    );
    let mut ctx = TickCtx::new(WorldMap::new(map), Tick(0));
    let before = life(&ctx, player);

    take_step(&mut ctx, Direction::East, player);

    assert_eq!(ctx.map.map().agent_position(player), Some(below));
    assert_eq!(life(&ctx, player), before - 20);
}

#[test]
fn floor_changes_that_lead_into_each_other_stop_at_the_cap() {
    let above = Position::new(11, 10, 6);
    let (map, player) = a_walk(
        &[above],
        vec![
            (EAST, a_floor_change(FloorChangeDirection::Up)),
            (above, a_floor_change(FloorChangeDirection::Down)),
        ],
    );
    let mut ctx = TickCtx::new(WorldMap::new(map), Tick(0));

    take_step(&mut ctx, Direction::East, player);

    assert_eq!(teleports(&ctx), MAX_STEP_CHAIN as usize);
}

#[test]
fn a_way_down_ends_beside_the_stairs_that_lead_back_up() {
    let below = Position::new(11, 10, 8);
    let (map, _) =
        a_walk(&[below], vec![(below, a_floor_change(FloorChangeDirection::North))]);

    assert_eq!(
        floor_change_destination(&map, &EAST, FloorChangeDirection::Down),
        Position::new(11, 11, 8)
    );
    assert_eq!(
        floor_change_destination(&map, &EAST, FloorChangeDirection::West),
        Position::new(10, 10, 6)
    );
}

#[test]
fn a_diagonal_walker_looks_to_its_side() {
    assert_eq!(direction_to_facing(&Direction::NorthEast), Facing::East);
    assert_eq!(direction_to_facing(&Direction::SouthWest), Facing::West);
    assert_eq!(direction_to_facing(&Direction::South), Facing::South);

    let (map, player) = a_player_on(&[HERE]);
    let mut ctx = TickCtx::new(map, Tick(0));
    change_direction(&mut ctx, player, Facing::West);
    assert_eq!(ctx.map.map().get_agent(player).unwrap().facing, Facing::West);
    assert!(ctx.map.delta().agent(player).facing());
}

#[test]
fn a_tile_does_nothing_to_somebody_who_is_gone() {
    let (map, player) = a_walk(&[], vec![(EAST, a_field(0))]);
    let mut ctx = TickCtx::new(WorldMap::new(map), Tick(0));
    ctx.map.remove_agent(player);

    let ctx = on_step(ctx, player, &EAST, &|_: TickCtx, _: TileCondition| -> TickCtx {
        panic!("nobody is there")
    });

    assert!(ctx.events.is_empty());
}
