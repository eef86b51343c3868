//! Fields that lie on tiles and wound who stands there.

use rustibia::entities::agent::{Agent, AgentBody, AgentKey, Facing, Pool};
use rustibia::entities::combat::{Bounds, CombatElement};
use rustibia::entities::conditions::{ConditionSpec, Conditions, SpecSchedule};
use rustibia::entities::creature::CreatureKind;
use rustibia::entities::item::Item;
use rustibia::entities::items::{ItemAttribute, ItemConfig, ItemFlag, ItemGuid, ItemId};
use rustibia::entities::map::{GameMap, MapTile};
use rustibia::entities::player::{Inventory, Player, SkillValue};
use rustibia::entities::position::Position;
use rustibia::entities::skills::SkillType;
use rustibia::entities::vocation::Vocation;
use rustibia::entities::world_map::WorldMap;
use rustibia::game::conditions::{DueHit, apply_condition, book_next_hit};
use rustibia::game::ctx::TickCtx;
use rustibia::game::events::BroadcastMessage;
use rustibia::game::fields::{can_hold_field, create_fields};
use rustibia::game::tick::{Tick, TickDelta};
use std::collections::HashMap;
use std::sync::Arc;

fn an_agent(base_speed: u16, body: AgentBody) -> Agent {
    Agent {
        life: Pool { current: 100, maximum: 100 },
        mana: Pool { current: 100, maximum: 100 },
        base_speed,
        facing: Facing::South,
        conditions: Conditions::new(),
        next_walk_tick: Tick(0),
        next_use_tick: Tick(0),
        next_auto_attack_tick: Tick(0),
        spell_ticks: HashMap::new(),
        group_ticks: HashMap::new(),
        target: None,
        target_seq: 0,
        wounds: Vec::new(),
        body,
    }
}

fn a_named_player(name: &str) -> Agent {
    an_agent(
        120,
        AgentBody::Player(Player {
            name: name.to_string(),
            vocation: Vocation::Sorcerer,
            life_regen: 5,
            mana_regen: 10,
            capacity: 400,
            skills: vec![(SkillType::Level, SkillValue { value: 1, current_ticks: 0 })],
            inventory: Arc::new(Inventory { slots: Vec::new(), carried_weight: 0, speed: 0 }),
        }),
    )
}

fn a_player() -> Agent {
    a_named_player("Rizael")
}

fn a_creature(name: &str) -> Agent {
    an_agent(
        100,
        AgentBody::Creature(Arc::new(CreatureKind {
            name: name.to_string(),
            immune_to_paralysis: false,
            abilities: Vec::new(),
        })),
    )
}

/// Deals a hit as far as its number goes, and goes on with the wound.
fn deal(ctx: &mut TickCtx, due: Option<DueHit>) {
    if let Some(hit) = due {
        let position = ctx.map.map().agent_position(hit.target).unwrap();
        ctx.map.agent_mut(hit.target).unwrap().remove_life(hit.damage.value);
        ctx.tell(BroadcastMessage::DamageTaken {
            source: hit.source,
            target: hit.target,
            position,
            blood_type: None,
            damage: hit.damage,
        });
        book_next_hit(ctx, &hit);
    }
}

fn a_config(id: u16, flags: Vec<ItemFlag>, attributes: Vec<ItemAttribute>) -> Arc<ItemConfig> {
    Arc::new(ItemConfig::new(ItemId(id), "thing".to_string(), flags, attributes))
}

fn a_burn() -> ConditionSpec {
    ConditionSpec {
        element: CombatElement::Fire,
        damage: Bounds { min: 20, max: 20 },
        interval: TickDelta(200),
        schedule: SpecSchedule::Flat { count: 7 },
        delayed: false,
    }
}

fn a_field_config(id: u16, flags: Vec<ItemFlag>) -> Arc<ItemConfig> {
    a_config(
        id,
        flags,
        vec![
            ItemAttribute::Field(a_burn()),
            ItemAttribute::Decay(TickDelta(100), ItemId(0)),
        ],
    )
}

fn a_tile(extra: Vec<Arc<ItemConfig>>) -> MapTile {
    let mut tile = MapTile::new();
    tile.push_item(Item::new(a_config(1, vec![ItemFlag::Ground], Vec::new()), 1, ItemGuid(1)));
    let mut guid = 2;
    for config in extra {
        tile.push_item(Item::new(config, 1, ItemGuid(guid)));
        guid += 1;
    }
    tile
}

const AT: Position = Position { x: 10, y: 10, z: 7 };

/// A caster standing off to the side, and a tile at `AT` holding `extra` over its ground.
fn a_map(extra: Vec<Arc<ItemConfig>>) -> (GameMap, AgentKey) {
    let aside = Position::new(20, 20, 7);
    let mut map = GameMap::new();
    map.insert_tile(AT, a_tile(extra));
    map.insert_tile(aside, MapTile::new());
    let caster = map.insert_agent(a_player(), &aside).unwrap();
    (map, caster)
}

fn ids_at(map: &WorldMap, pos: &Position) -> Vec<ItemId> {
    map.map().iter_items(pos).unwrap().into_iter().map(|item| item.config.id).collect()
}

/// Lays fields on an area and wounds everybody who stands there, tile by tile.
fn lay(ctx: &mut TickCtx, caster: AgentKey, field: &Arc<ItemConfig>, area: Vec<Position>) {
    let guids: Vec<ItemGuid> = (0..area.len() as u64).map(|i| ItemGuid(100 + i)).collect();
    let mut from = 0;
    while from < area.len() {
        let (next, standing) = create_fields(ctx, caster, field, &area, &guids, from);
        for agent in standing {
            let spec = a_burn();
            let due = apply_condition(ctx, agent, &spec, spec.damage.min, Some(caster));
            deal(ctx, due);
        }
        from = next;
    }
}

#[test]
fn a_field_lands_on_top_of_everything_with_its_owner_and_its_decay() {
    let (map, caster) = a_map(vec![a_config(3, Vec::new(), Vec::new())]);
    let mut ctx = TickCtx::new(WorldMap::new(map), Tick(0));

    lay(&mut ctx, caster, &a_field_config(5, Vec::new()), vec![AT]);

    assert_eq!(ids_at(&ctx.map, &AT), vec![ItemId(1), ItemId(3), ItemId(5)]);
    assert_eq!(ctx.map.map().get_item_at(&AT, 2).unwrap().owner, Some(caster));
    assert!(ctx.scheduled.iter().any(|s| s.at_tick == Tick(100)));
    assert!(ctx.map.delta().tile_dirty(&AT));
}

#[test]
fn a_new_field_replaces_a_replaceable_one_and_stays_on_top() {
    let (map, caster) =
        a_map(vec![a_field_config(4, Vec::new()), a_config(3, Vec::new(), Vec::new())]);
    let mut ctx = TickCtx::new(WorldMap::new(map), Tick(0));

    lay(&mut ctx, caster, &a_field_config(5, Vec::new()), vec![AT]);

    assert_eq!(ids_at(&ctx.map, &AT), vec![ItemId(1), ItemId(3), ItemId(5)]);
}

#[test]
fn an_unreplaceable_field_or_a_wall_keeps_the_field_out() {
    for blocker in [
        a_field_config(4, vec![ItemFlag::Unreplaceable]),
        a_config(4, vec![ItemFlag::Unpass], Vec::new()),
    ] {
        let (map, caster) = a_map(vec![blocker]);
        let mut ctx = TickCtx::new(WorldMap::new(map), Tick(0));

        assert!(!can_hold_field(ctx.map.map(), &AT));
        lay(&mut ctx, caster, &a_field_config(5, Vec::new()), vec![AT]);

        assert_eq!(ids_at(&ctx.map, &AT), vec![ItemId(1), ItemId(4)]);
        assert!(ctx.map.delta().is_empty());
    }
}

#[test]
fn a_tile_without_ground_cannot_hold_a_field() {
    let mut map = GameMap::new();
    map.insert_tile(AT, MapTile::new());

    assert!(!can_hold_field(&map, &AT));
}

#[test]
fn someone_already_standing_there_is_hit_at_once_and_the_caster_is_credited() {
    let (mut map, caster) = a_map(Vec::new());
    let rat = map.insert_agent(a_creature("Rat"), &AT).unwrap();
    let mut ctx = TickCtx::new(WorldMap::new(map), Tick(0));

    lay(&mut ctx, caster, &a_field_config(5, Vec::new()), vec![AT]);

    assert_eq!(ctx.map.map().get_agent(rat).unwrap().life.current, 80);
    assert!(ctx.events.iter().any(|e| matches!(
        e,
        BroadcastMessage::DamageTaken { source: Some(s), target, .. }
            if *s == caster && *target == rat
    )));
}

#[test]
fn an_area_is_laid_tile_by_tile_up_to_the_first_that_is_stood_on() {
    let (mut map, caster) = a_map(Vec::new());
    let second = Position::new(11, 10, 7);
    let third = Position::new(12, 10, 7);
    map.insert_tile(second, a_tile(Vec::new()));
    map.insert_tile(third, a_tile(Vec::new()));
    let rat = map.insert_agent(a_creature("Rat"), &second).unwrap();
    let mut ctx = TickCtx::new(WorldMap::new(map), Tick(0));
    let area = vec![AT, second, third];
    let guids = vec![ItemGuid(100), ItemGuid(101), ItemGuid(102)];
    let field = a_field_config(5, Vec::new());

    let (next, standing) = create_fields(&mut ctx, caster, &field, &area, &guids, 0);

    assert_eq!((next, standing), (2, vec![rat]));
    assert_eq!(ids_at(&ctx.map, &third), vec![ItemId(1)]);
    let (next, standing) = create_fields(&mut ctx, caster, &field, &area, &guids, next);
    assert_eq!((next, standing), (3, Vec::new()));
    assert_eq!(ids_at(&ctx.map, &third), vec![ItemId(1), ItemId(5)]);
}
