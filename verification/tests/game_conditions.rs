//! Regeneration, wounds over time, and conditions that run out.

use rustibia::actors::world::{ScheduledCommand, WorldCommand};
use rustibia::entities::agent::{Agent, AgentBody, AgentKey, Facing, Pool};
use rustibia::entities::combat::{Bounds, CombatElement};
use rustibia::entities::conditions::{
    ConditionSpec, Conditions, DamageOverTime, SpecSchedule, TimedCondition,
};
use rustibia::entities::creature::CreatureKind;
use rustibia::entities::effects::EffectId;
use rustibia::entities::map::{GameMap, MapTile};
use rustibia::entities::player::{Inventory, Player, SkillValue};
use rustibia::entities::position::Position;
use rustibia::entities::skills::SkillType;
use rustibia::entities::vocation::Vocation;
use rustibia::entities::world_map::WorldMap;
use rustibia::game::conditions::{
    DueHit, apply_condition, book_next_hit, expire_condition, regenerate_life_mana, schedule_expiry,
    tick_damage_over_time,
};
use rustibia::game::config::{CombatConfig, EffectIds, GameConfig, TextColors};
use rustibia::game::ctx::TickCtx;
use rustibia::game::events::BroadcastMessage;
use rustibia::game::tick::{Tick, TickDelta};
use rustibia::messages::Color;
use std::collections::HashMap;
use std::sync::Arc;

fn game_config() -> GameConfig {
    GameConfig {
        max_fed_ticks: TickDelta(24000),
        logout_block_ticks: TickDelta(1200),
        regen_ticks: TickDelta(120),
        use_item_cooldown_ticks: TickDelta(4),
        combat: CombatConfig {
            attack_group_cooldown: TickDelta(40),
            healing_group_cooldown: TickDelta(20),
            support_group_cooldown: TickDelta(30),
            auto_attack_ticks: TickDelta(40),
        },
        effect_ids: EffectIds {
            healing_spell: EffectId(1),
            mana_hit: EffectId(2),
            miss: EffectId(3),
            puff: EffectId(4),
        },
        text_colors: TextColors { blue: Color(0, 0, 255), palepink: Color(255, 200, 200) },
    }
}

fn an_agent(base_speed: u16, body: AgentBody) -> Agent {
    Agent {
        life: Pool { current: 100, maximum: 100 },
        mana: Pool { current: 100, maximum: 100 },
        base_speed,
        facing: Facing::South,
        conditions: Conditions::new(),
        next_walk_tick: Tick(0),
        next_use_tick: Tick(0),
        next_auto_attack_tick: Tick(0),
        spell_ticks: HashMap::new(),
        group_ticks: HashMap::new(),
        target: None,
        target_seq: 0,
        wounds: Vec::new(),
        body,
    }
}

fn a_named_player(name: &str) -> Agent {
    an_agent(
        120,
        AgentBody::Player(Player {
            name: name.to_string(),
            vocation: Vocation::Sorcerer,
            life_regen: 5,
            mana_regen: 10,
            capacity: 400,
            skills: vec![(SkillType::Level, SkillValue { value: 1, current_ticks: 0 })],
            inventory: Arc::new(Inventory { slots: Vec::new(), carried_weight: 0, speed: 0 }),
        }),
    )
}

fn a_player() -> Agent {
    a_named_player("Rizael")
}

fn a_creature(name: &str) -> Agent {
    an_agent(
        100,
        AgentBody::Creature(Arc::new(CreatureKind {
            name: name.to_string(),
            immune_to_paralysis: false,
            abilities: Vec::new(),
        })),
    )
}

/// Deals a hit as far as its number goes, and goes on with the wound.
fn deal(ctx: &mut TickCtx, due: Option<DueHit>) {
    if let Some(hit) = due {
        let position = ctx.map.map().agent_position(hit.target).unwrap();
        ctx.map.agent_mut(hit.target).unwrap().remove_life(hit.damage.value);
        ctx.tell(BroadcastMessage::DamageTaken {
            source: hit.source,
            target: hit.target,
            position,
            blood_type: None,
            damage: hit.damage,
        });
        book_next_hit(ctx, &hit);
    }
}

fn a_fed_player(fed_for: u64) -> (GameMap, AgentKey, u32) {
    let position = Position::new(10, 10, 7);
    let mut map = GameMap::new();
    map.insert_tile(position, MapTile::new());
    let key = map.insert_agent(a_player(), &position).unwrap();
    let generation = map
        .get_agent_mut(key)
        .unwrap()
        .conditions
        .add_fed_ticks(Tick(0), TickDelta(fed_for));
    (map, key, generation)
}

#[test]
fn a_full_pool_does_not_end_the_chain() {
    let (mut map, key, generation) = a_fed_player(1000);
    map.get_agent_mut(key).unwrap().remove_mana(50);
    let config = game_config();

    let mut ctx = TickCtx::new(WorldMap::new(map), Tick(120));
    regenerate_life_mana(&mut ctx, key, generation, &config);

    let mana = ctx.map.map().get_agent(key).unwrap().mana.current;
    assert_eq!(mana, 50 + 10);
    assert_eq!(ctx.scheduled.len(), 1);
    assert_eq!(ctx.scheduled[0].at_tick, Tick(120).plus(config.regen_ticks));
    assert!(ctx.map.delta().agent(key).mana());
    assert!(!ctx.map.delta().agent(key).life());
}

#[test]
fn the_chain_ends_and_clears_fed_when_the_food_runs_out() {
    let (map, key, generation) = a_fed_player(100);

    let mut ctx = TickCtx::new(WorldMap::new(map), Tick(100));
    regenerate_life_mana(&mut ctx, key, generation, &game_config());

    assert!(ctx.map.map().get_agent(key).unwrap().conditions.fed().is_none());
    assert!(ctx.scheduled.is_empty());
}

#[test]
fn a_stale_generation_regenerates_nothing() {
    let (mut map, key, generation) = a_fed_player(1000);
    map.get_agent_mut(key).unwrap().remove_life(50);

    let mut ctx = TickCtx::new(WorldMap::new(map), Tick(120));
    regenerate_life_mana(&mut ctx, key, generation + 7, &game_config());

    assert_eq!(ctx.map.map().get_agent(key).unwrap().life.current, 50);
    assert!(ctx.scheduled.is_empty());
}

#[test]
fn a_damage_tick_hits_and_books_the_next_one() {
    let position = Position::new(10, 10, 7);
    let mut map = GameMap::new();
    map.insert_tile(position, MapTile::new());
    let key = map.insert_agent(a_creature("Rat"), &position).unwrap();
    let generation = map
        .get_agent_mut(key)
        .unwrap()
        .conditions
        .apply_damage_over_time(DamageOverTime::decaying(
            CombatElement::Earth,
            None,
            TickDelta(80),
            100,
            None,
        ))
        .unwrap();

    let mut ctx = TickCtx::new(WorldMap::new(map), Tick(80));
    let due = tick_damage_over_time(&mut ctx, key, CombatElement::Earth, generation);
    deal(&mut ctx, due);

    assert_eq!(ctx.map.map().get_agent(key).unwrap().life.current, 95);
    assert_eq!(ctx.scheduled.len(), 1);
    assert_eq!(ctx.scheduled[0].at_tick, Tick(160));
}

#[test]
fn a_stale_damage_generation_does_nothing() {
    let position = Position::new(10, 10, 7);
    let mut map = GameMap::new();
    map.insert_tile(position, MapTile::new());
    let key = map.insert_agent(a_creature("Rat"), &position).unwrap();
    let generation = map
        .get_agent_mut(key)
        .unwrap()
        .conditions
        .apply_damage_over_time(DamageOverTime::flat(
            CombatElement::Fire,
            None,
            TickDelta(200),
            10,
            7,
        ))
        .unwrap();

    let mut ctx = TickCtx::new(WorldMap::new(map), Tick(200));
    let due = tick_damage_over_time(&mut ctx, key, CombatElement::Fire, generation + 1);
    deal(&mut ctx, due);

    assert_eq!(due, None);
    assert_eq!(ctx.map.map().get_agent(key).unwrap().life.current, 100);
    assert!(ctx.scheduled.is_empty());
}

#[test]
fn a_wound_whose_bearer_died_of_its_hit_books_no_more() {
    let (mut map, rat) = a_rat_at(&Position::new(10, 10, 7));
    let generation = map
        .inner_mut()
        .get_agent_mut(rat)
        .unwrap()
        .conditions
        .apply_damage_over_time(DamageOverTime::flat(
            CombatElement::Fire,
            None,
            TickDelta(200),
            10,
            7,
        ))
        .unwrap();
    let mut ctx = TickCtx::new(map, Tick(0));

    let due = tick_damage_over_time(&mut ctx, rat, CombatElement::Fire, generation).unwrap();
    ctx.map.remove_agent(rat).unwrap();
    book_next_hit(&mut ctx, &due);

    assert_eq!(due.next_in, Some(TickDelta(200)));
    assert!(ctx.scheduled.is_empty());
}

#[test]
fn a_source_that_left_the_world_is_not_blamed() {
    let pos = Position::new(10, 10, 7);
    let (mut map, rat) = a_rat_at(&pos);
    let source = map.insert_agent(a_player(), &pos).unwrap();
    let mut ctx = TickCtx::new(map, Tick(0));
    let due = apply_condition(&mut ctx, rat, &a_burn(20, false), 20, Some(source)).unwrap();
    assert_eq!(due.source, Some(source));

    ctx.map.remove_agent(source);
    let next =
        tick_damage_over_time(&mut ctx, rat, CombatElement::Fire, due.generation).unwrap();

    assert_eq!(next.source, None);
    assert_eq!(next.damage.value, 20);
}

fn a_blocked_player(at: Tick) -> (WorldMap, AgentKey) {
    let pos = Position::new(10, 10, 7);
    let mut map = GameMap::new();
    map.insert_tile(pos, MapTile::new());
    let key = map.insert_agent(a_player(), &pos).unwrap();
    map.get_agent_mut(key).unwrap().conditions.reset_logout_block(at, &game_config());
    (WorldMap::new(map), key)
}

#[test]
fn a_due_condition_is_removed_and_marks_the_status() {
    let (map, player) = a_blocked_player(Tick(0));
    let mut ctx = TickCtx::new(map, Tick(0).plus(game_config().logout_block_ticks));

    expire_condition(&mut ctx, player, TimedCondition::LogoutBlock);

    let conditions = &ctx.map.map().get_agent(player).unwrap().conditions;
    assert_eq!(conditions.until(TimedCondition::LogoutBlock), None);
    assert!(ctx.map.delta().agent(player).status());
}

#[test]
fn an_extended_condition_reschedules_instead_of_expiring() {
    let (mut map, player) = a_blocked_player(Tick(0));
    let config = game_config();
    map.inner_mut()
        .get_agent_mut(player)
        .unwrap()
        .conditions
        .reset_logout_block(Tick(10), &config);
    let mut ctx = TickCtx::new(map, Tick(0).plus(config.logout_block_ticks));

    expire_condition(&mut ctx, player, TimedCondition::LogoutBlock);

    assert!(ctx.map.delta().is_empty());
    assert!(matches!(
        ctx.scheduled.as_slice(),
        [ScheduledCommand {
            at_tick,
            command: WorldCommand::ConditionExpired { kind: TimedCondition::LogoutBlock, .. },
        }] if *at_tick == Tick(10).plus(config.logout_block_ticks)
    ));
}

#[test]
fn an_expiry_for_a_condition_already_gone_does_nothing() {
    let (map, player) = a_blocked_player(Tick(0));
    let mut ctx = TickCtx::new(map, Tick(0));

    expire_condition(&mut ctx, player, TimedCondition::MagicShield);
    schedule_expiry(&mut ctx, player, TimedCondition::MagicShield);

    assert!(ctx.map.delta().is_empty());
    assert!(ctx.scheduled.is_empty());
}

fn a_rat_at(position: &Position) -> (WorldMap, AgentKey) {
    let mut map = GameMap::new();
    map.insert_tile(*position, MapTile::new());
    let key = map.insert_agent(a_creature("Rat"), position).unwrap();
    (WorldMap::new(map), key)
}

fn a_burn(damage: u32, delayed: bool) -> ConditionSpec {
    ConditionSpec {
        element: CombatElement::Fire,
        damage: Bounds { min: damage, max: damage },
        interval: TickDelta(200),
        schedule: SpecSchedule::Flat { count: 7 },
        delayed,
    }
}

#[test]
fn an_undelayed_condition_hits_at_once_and_books_the_next_hit() {
    let (map, rat) = a_rat_at(&Position::new(10, 10, 7));
    let mut ctx = TickCtx::new(map, Tick(50));

    let due = apply_condition(&mut ctx, rat, &a_burn(20, false), 20, None);
    deal(&mut ctx, due);

    assert_eq!(ctx.map.map().get_agent(rat).unwrap().life.current, 80);
    assert_eq!(ctx.scheduled.len(), 1);
    assert_eq!(ctx.scheduled[0].at_tick, Tick(250));
}

#[test]
fn a_delayed_condition_waits_an_interval_for_its_first_hit() {
    let (map, rat) = a_rat_at(&Position::new(10, 10, 7));
    let mut ctx = TickCtx::new(map, Tick(50));

    let due = apply_condition(&mut ctx, rat, &a_burn(20, true), 20, None);
    deal(&mut ctx, due);

    assert_eq!(ctx.map.map().get_agent(rat).unwrap().life.current, 100);
    assert_eq!(ctx.scheduled.len(), 1);
    assert_eq!(ctx.scheduled[0].at_tick, Tick(250));
}

#[test]
fn a_condition_that_deals_nothing_is_not_applied() {
    let (map, rat) = a_rat_at(&Position::new(10, 10, 7));
    let status = map.map().get_agent(rat).unwrap().conditions.status();
    let mut ctx = TickCtx::new(map, Tick(0));

    let due = apply_condition(&mut ctx, rat, &a_burn(0, false), 0, None);
    deal(&mut ctx, due);

    let rat = ctx.map.map().get_agent(rat).unwrap();
    assert_eq!(rat.life.current, 100);
    assert_eq!(rat.conditions.status(), status);
    assert!(ctx.scheduled.is_empty());
}

#[test]
fn a_rollback_takes_back_what_came_after_its_mark() {
    let (map, rat) = a_rat_at(&Position::new(10, 10, 7));
    let mut ctx = TickCtx::new(map, Tick(0));
    ctx.tell(BroadcastMessage::LogoutDenied { agent_key: rat });
    let mark = ctx.mark();
    ctx.tell(BroadcastMessage::AgentWalkDenied { agent_key: rat });
    ctx.book(Tick(9), WorldCommand::SpeedExpired { agent_key: rat, generation: 1 });

    ctx.rollback_to(mark);

    assert!(matches!(ctx.events.as_slice(), [BroadcastMessage::LogoutDenied { .. }]));
    assert!(ctx.scheduled.is_empty());
}
