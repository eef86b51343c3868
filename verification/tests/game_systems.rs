//! What happens in every tick.

use rustibia::actors::world::WorldCommand;
use rustibia::entities::agent::{Agent, AgentBody, AgentKey, Facing, Pool};
use rustibia::entities::conditions::{Conditions, TimedCondition};
use rustibia::entities::creature::CreatureKind;
use rustibia::entities::effects::EffectId;
use rustibia::entities::map::{GameMap, MapTile};
use rustibia::entities::player::{Inventory, Player, SkillValue};
use rustibia::entities::position::Position;
use rustibia::entities::skills::SkillType;
use rustibia::entities::vocation::Vocation;
use rustibia::entities::world_map::WorldMap;
use rustibia::game::config::{CombatConfig, EffectIds, GameConfig, TextColors};
use rustibia::game::ctx::TickCtx;
use rustibia::game::systems::{agents_with_targets, combat_system, engage};
use rustibia::game::tick::{Tick, TickDelta};
use rustibia::messages::Color;
use std::cell::RefCell;
use std::collections::HashMap;
use std::sync::Arc;

fn game_config() -> GameConfig {
    GameConfig {
        max_fed_ticks: TickDelta(24000),
        logout_block_ticks: TickDelta(1200),
        regen_ticks: TickDelta(120),
        use_item_cooldown_ticks: TickDelta(4),
        combat: CombatConfig {
            attack_group_cooldown: TickDelta(40),
            healing_group_cooldown: TickDelta(20),
            support_group_cooldown: TickDelta(30),
            auto_attack_ticks: TickDelta(40),
        },
        effect_ids: EffectIds {
            healing_spell: EffectId(1),
            mana_hit: EffectId(2),
            miss: EffectId(3),
            puff: EffectId(4),
        },
        text_colors: TextColors { blue: Color(0, 0, 255), palepink: Color(255, 200, 200) },
    }
}

fn an_agent(base_speed: u16, body: AgentBody) -> Agent {
    Agent {
        life: Pool { current: 100, maximum: 100 },
        mana: Pool { current: 100, maximum: 100 },
        base_speed,
        facing: Facing::South,
        conditions: Conditions::new(),
        next_walk_tick: Tick(0),
        next_use_tick: Tick(0),
        next_auto_attack_tick: Tick(0),
        spell_ticks: HashMap::new(),
        group_ticks: HashMap::new(),
        target: None,
        target_seq: 0,
        wounds: Vec::new(),
        body,
    }
}

fn a_named_player(name: &str) -> Agent {
    an_agent(
        120,
        AgentBody::Player(Player {
            name: name.to_string(),
            vocation: Vocation::Sorcerer,
            life_regen: 5,
            mana_regen: 10,
            capacity: 400,
            skills: vec![(SkillType::Level, SkillValue { value: 1, current_ticks: 0 })],
            inventory: Arc::new(Inventory { slots: Vec::new(), carried_weight: 0, speed: 0 }),
        }),
    )
}

fn a_player() -> Agent {
    a_named_player("Rizael")
}

fn a_creature(name: &str) -> Agent {
    an_agent(
        100,
        AgentBody::Creature(Arc::new(CreatureKind {
            name: name.to_string(),
            immune_to_paralysis: false,
            abilities: Vec::new(),
        })),
    )
}

/// A round of fighting in which everybody keeps its target and strikes.
fn round(ctx: TickCtx) -> TickCtx {
    combat_system(
        ctx,
        &|ctx: TickCtx, _: AgentKey| (ctx, false),
        &|_: &TickCtx, key: AgentKey| Some((key, ())),
        &|ctx: TickCtx, _: ()| ctx,
        &game_config(),
    )
}

#[test]
fn everybody_has_one_turn_in_the_order_of_their_slots() {
    let mut map = GameMap::new();
    let mut keys = Vec::new();
    for x in 0..4 {
        let pos = Position::new(x, 10, 7);
        map.insert_tile(pos, MapTile::new());
        keys.push(map.insert_agent(a_creature("Rat"), &pos).unwrap());
    }
    for i in [3, 0, 2] {
        map.get_agent_mut(keys[i]).unwrap().target = Some(keys[1]);
    }
    let fighters = agents_with_targets(&map);
    assert_eq!(fighters, vec![(keys[0], keys[1]), (keys[2], keys[1]), (keys[3], keys[1])]);

    let looked = RefCell::new(Vec::new());
    let struck = RefCell::new(Vec::new());
    let ctx = combat_system(
        TickCtx::new(WorldMap::new(map), Tick(7)),
        &|ctx: TickCtx, key: AgentKey| {
            looked.borrow_mut().push(key);
            (ctx, key == keys[2])
        },
        &|_: &TickCtx, key: AgentKey| if key == keys[0] { Some((key, 12)) } else { None },
        &|ctx: TickCtx, blow: i32| {
            struck.borrow_mut().push(blow);
            ctx
        },
        &game_config(),
    );

    assert_eq!(*looked.borrow(), vec![keys[0], keys[2], keys[3]]);
    assert_eq!(*struck.borrow(), vec![12]);
    let waits = |key: AgentKey| ctx.map.map().get_agent(key).unwrap().next_auto_attack_tick;
    assert_eq!(waits(keys[0]), Tick(7).plus(game_config().combat.auto_attack_ticks));
    assert_eq!(waits(keys[3]), Tick(0));
}

#[test]
fn a_swing_stamps_the_auto_attack_cooldown() {
    let (a, b) = (Position::new(10, 10, 7), Position::new(11, 10, 7));
    let mut map = GameMap::new();
    map.insert_tile(a, MapTile::new());
    map.insert_tile(b, MapTile::new());
    let attacker = map.insert_agent(a_player(), &a).unwrap();
    let target = map.insert_agent(a_creature("Rat"), &b).unwrap();
    map.get_agent_mut(attacker).unwrap().target = Some(target);

    let ctx = round(TickCtx::new(WorldMap::new(map), Tick(7)));

    assert_eq!(
        ctx.map.map().get_agent(attacker).unwrap().next_auto_attack_tick,
        Tick(7).plus(game_config().combat.auto_attack_ticks)
    );
}

#[test]
fn a_player_under_attack_keeps_one_logout_expiry_pending() {
    let (a, b) = (Position::new(10, 10, 7), Position::new(11, 10, 7));
    let mut map = GameMap::new();
    map.insert_tile(a, MapTile::new());
    map.insert_tile(b, MapTile::new());
    let rat = map.insert_agent(a_creature("Rat"), &a).unwrap();
    let player = map.insert_agent(a_player(), &b).unwrap();
    map.get_agent_mut(rat).unwrap().target = Some(player);
    let mut ctx = TickCtx::new(WorldMap::new(map), Tick(7));

    for tick in [Tick(7), Tick(8), Tick(9)] {
        ctx.tick = tick;
        ctx = round(ctx);
    }

    let expiries = ctx
        .scheduled
        .iter()
        .filter(|s| {
            matches!(
                s.command,
                WorldCommand::ConditionExpired { kind: TimedCondition::LogoutBlock, .. }
            )
        })
        .count();
    assert_eq!(expiries, 1);
}

#[test]
fn a_creature_is_never_kept_from_logging_out() {
    let pos = Position::new(10, 10, 7);
    let mut map = GameMap::new();
    map.insert_tile(pos, MapTile::new());
    let rat = map.insert_agent(a_creature("Rat"), &pos).unwrap();
    let mut ctx = TickCtx::new(WorldMap::new(map), Tick(7));

    engage(&mut ctx, rat, &game_config());

    assert!(ctx.scheduled.is_empty());
    assert!(ctx.map.delta().is_empty());
}

#[test]
fn a_target_that_was_dropped_is_not_struck_at() {
    let pos = Position::new(10, 10, 7);
    let mut map = GameMap::new();
    map.insert_tile(pos, MapTile::new());
    let player = map.insert_agent(a_player(), &pos).unwrap();
    let rat = map.insert_agent(a_creature("Rat"), &pos).unwrap();
    map.get_agent_mut(rat).unwrap().target = Some(player);
    map.get_agent_mut(player).unwrap().target = Some(rat);

    let ctx = combat_system(
        TickCtx::new(WorldMap::new(map), Tick(7)),
        &|ctx: TickCtx, _: AgentKey| (ctx, true),
        &|_: &TickCtx, _: AgentKey| -> Option<(AgentKey, ())> { panic!("nobody strikes") },
        &|ctx: TickCtx, _: ()| ctx,
        &game_config(),
    );

    assert!(ctx.map.delta().is_empty());
    assert!(ctx.scheduled.is_empty());
}
