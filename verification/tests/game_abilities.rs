//! What creatures can do besides fighting.

use rustibia::actors::world::WorldCommand;
use rustibia::entities::agent::{Agent, AgentBody, AgentKey, Facing, Pool};
use rustibia::entities::combat::{Bounds, CombatDamage, CombatElement};
use rustibia::entities::conditions::{ConditionSpec, Conditions, SpecSchedule, SpeedEffect};
use rustibia::entities::creature::{
    AbilityEffect, ConditionAttack, CreatureAbilityId, CreatureAttack, CreatureDamage, CreatureKind,
};
use rustibia::entities::effects::{AreaShape, EffectId, Missile, MissileId};
use rustibia::entities::healing::Restore;
use rustibia::entities::map::{GameMap, MapTile};
use rustibia::entities::player::{Inventory, Player, SkillValue};
use rustibia::entities::position::{Position, Rect};
use rustibia::entities::skills::SkillType;
use rustibia::entities::spells::SpellGroup;
use rustibia::entities::support::{FloatBits, SpeedFormula, SpeedTerm, SupportCast, SupportEffect};
use rustibia::entities::targeting::{AreaOrigin, TargetMode};
use rustibia::entities::vocation::Vocation;
use rustibia::entities::world_map::WorldMap;
use rustibia::game::conditions::apply_condition;
use rustibia::game::config::{CombatConfig, EffectIds, GameConfig, TextColors};
use rustibia::game::creature_abilities::{
    AbilityStep, begin_ability, cast_ability, finish_ability, plan_ability_attack, plan_creature_heal,
};
use rustibia::game::ctx::TickCtx;
use rustibia::game::events::BroadcastMessage;
use rustibia::game::support::cast_support;
use rustibia::game::tick::{Tick, TickDelta};
use rustibia::messages::Color;
use std::collections::HashMap;
use std::sync::Arc;

fn game_config() -> GameConfig {
    GameConfig {
        max_fed_ticks: TickDelta(24000),
        logout_block_ticks: TickDelta(1200),
        regen_ticks: TickDelta(120),
        use_item_cooldown_ticks: TickDelta(4),
        combat: CombatConfig {
            attack_group_cooldown: TickDelta(40),
            healing_group_cooldown: TickDelta(20),
            support_group_cooldown: TickDelta(30),
            auto_attack_ticks: TickDelta(40),
        },
        effect_ids: EffectIds {
            healing_spell: EffectId(1),
            mana_hit: EffectId(2),
            miss: EffectId(3),
            puff: EffectId(4),
        },
        text_colors: TextColors { blue: Color(0, 0, 255), palepink: Color(255, 200, 200) },
    }
}

fn an_agent(base_speed: u16, body: AgentBody) -> Agent {
    Agent {
        life: Pool { current: 100, maximum: 100 },
        mana: Pool { current: 100, maximum: 100 },
        base_speed,
        facing: Facing::South,
        conditions: Conditions::new(),
        next_walk_tick: Tick(0),
        next_use_tick: Tick(0),
        next_auto_attack_tick: Tick(0),
        spell_ticks: HashMap::new(),
        group_ticks: HashMap::new(),
        target: None,
        target_seq: 0,
        wounds: Vec::new(),
        body,
    }
}

fn a_named_player(name: &str) -> Agent {
    an_agent(
        120,
        AgentBody::Player(Player {
            name: name.to_string(),
            vocation: Vocation::Sorcerer,
            life_regen: 5,
            mana_regen: 10,
            capacity: 400,
            skills: vec![(SkillType::Level, SkillValue { value: 1, current_ticks: 0 })],
            inventory: Arc::new(Inventory { slots: Vec::new(), carried_weight: 0, speed: 0 }),
        }),
    )
}

fn a_player() -> Agent {
    a_named_player("Rizael")
}

/// Nothing is in the way of a throw.
fn clear(_: Position, _: Position) -> bool {
    true
}

/// What can be aimed at from a tile: the viewport around it.
fn in_view(from: Position, to: Position) -> bool {
    from.z == to.z && Rect::player_viewport(&from).contains(&to)
}

fn at(x: u16) -> Position {
    Position::new(x, 10, 7)
}

fn a_map_with(effect: AbilityEffect) -> (GameMap, AgentKey, AgentKey) {
    let mut map = GameMap::new();
    for x in 14..=17 {
        map.insert_tile(at(x), MapTile::new());
    }
    let kind = CreatureKind {
        name: "Demon".to_string(),
        immune_to_paralysis: false,
        abilities: vec![effect],
    };
    let demon =
        map.insert_agent(an_agent(100, AgentBody::Creature(Arc::new(kind))), &at(15)).unwrap();
    let player = map.insert_agent(a_player(), &at(16)).unwrap();
    map.get_agent_mut(demon).unwrap().target = Some(player);
    (map, demon, player)
}

/// Does all that an ability does but dealing damage and healing, and hands back what that was.
fn perform(ctx: &mut TickCtx, demon: AgentKey, change: i16) -> AbilityStep {
    let id = CreatureAbilityId(0);
    let (group, step) = begin_ability(ctx, demon, id, &clear, &in_view).unwrap();
    match &step {
        AbilityStep::Support(targets) => {
            let kind = match &ctx.map.map().get_agent(demon).unwrap().body {
                AgentBody::Creature(kind) => kind.clone(),
                AgentBody::Player(_) => panic!("not a creature"),
            };
            if let AbilityEffect::Support(support) = &kind.abilities[0] {
                let changes = vec![change; targets.keys.len()];
                cast_support(ctx, demon, support, targets, &changes);
            }
        }
        AbilityStep::Condition { targets, condition } => {
            for target in targets {
                apply_condition(ctx, *target, condition, condition.damage.min, Some(demon));
            }
        }
        _ => {}
    }
    finish_ability(ctx, demon, group, &game_config());
    step
}

fn a_claw() -> AbilityEffect {
    AbilityEffect::Attack(CreatureAttack {
        damage: CreatureDamage {
            element: CombatElement::Energy,
            value: Bounds { min: 1, max: 2 },
            condition: None,
        },
        target: TargetMode::Target { range: 1 },
        effect_id: None,
        missile_id: None,
    })
}

#[test]
fn an_attack_ability_stamps_the_attack_group() {
    let (map, demon, player) = a_map_with(a_claw());
    let mut ctx = TickCtx::new(WorldMap::new(map), Tick(100));

    let step = perform(&mut ctx, demon, 0);

    assert_eq!(
        ctx.map.map().get_agent(demon).unwrap().next_spell_group_tick(SpellGroup::Attack),
        Tick(100).plus(game_config().combat.attack_group_cooldown)
    );
    match step {
        AbilityStep::Attack { strike, damage } => {
            let plan = plan_ability_attack(demon, strike, &damage, 2);
            assert_eq!(plan.attacker, demon);
            assert_eq!(
                plan.damage,
                vec![(
                    player,
                    CombatDamage {
                        element: CombatElement::Energy,
                        value: 2,
                        blocked_shield: false,
                        blocked_armor: false,
                    },
                )]
            );
            assert!(!plan.missed);
        }
        other => panic!("{other:?}"),
    }
}

#[test]
fn a_heal_ability_stamps_the_healing_group() {
    let (map, demon, _) = a_map_with(AbilityEffect::Heal(Bounds { min: 5, max: 5 }));
    let mut ctx = TickCtx::new(WorldMap::new(map), Tick(100));

    let step = perform(&mut ctx, demon, 0);

    let agent = ctx.map.map().get_agent(demon).unwrap();
    assert_eq!(
        agent.next_spell_group_tick(SpellGroup::Healing),
        Tick(100).plus(game_config().combat.healing_group_cooldown)
    );
    assert_eq!(
        agent.next_spell_group_tick(SpellGroup::Attack),
        Tick(0),
        "a heal must not throttle the attack group"
    );
    assert!(matches!(step, AbilityStep::Heal(Bounds { min: 5, max: 5 })));
    let plan = plan_creature_heal(demon, 5);
    assert_eq!(plan.caster, demon);
    assert_eq!(plan.restores, vec![(demon, Restore { life: Some(5), mana: None })]);
}

fn a_speed_cast(target: TargetMode, effect: SpeedEffect, change: i16) -> AbilityEffect {
    let term = SpeedTerm { factor: FloatBits(0), flat: change };
    AbilityEffect::Support(SupportCast {
        target,
        effect: SupportEffect::Speed {
            effect,
            formula: SpeedFormula { min: term, max: term },
            duration: TickDelta(100),
        },
        effect_id: None,
        missile_id: None,
    })
}

#[test]
fn a_support_ability_on_itself_hastes_the_creature_and_stamps_the_support_group() {
    let (map, demon, _) = a_map_with(a_speed_cast(TargetMode::Caster, SpeedEffect::Haste, 30));
    let mut ctx = TickCtx::new(WorldMap::new(map), Tick(100));

    perform(&mut ctx, demon, 30);

    let agent = ctx.map.map().get_agent(demon).unwrap();
    assert_eq!(agent.speed(), 130);
    assert_eq!(
        agent.next_spell_group_tick(SpellGroup::Support),
        Tick(100).plus(game_config().combat.support_group_cooldown)
    );
}

#[test]
fn a_paralysing_ability_slows_the_creatures_target() {
    let (map, demon, player) =
        a_map_with(a_speed_cast(TargetMode::Target { range: 1 }, SpeedEffect::Paralysis, -50));
    let mut ctx = TickCtx::new(WorldMap::new(map), Tick(0));

    perform(&mut ctx, demon, -50);

    assert_eq!(ctx.map.map().get_agent(player).unwrap().speed(), 70);
}

#[test]
fn a_condition_attack_poisons_its_target_without_a_hit() {
    let (map, demon, player) = a_map_with(AbilityEffect::Condition(ConditionAttack {
        condition: ConditionSpec {
            element: CombatElement::Earth,
            damage: Bounds { min: 40, max: 40 },
            interval: TickDelta(80),
            schedule: SpecSchedule::Decaying { start: None },
            delayed: true,
        },
        target: TargetMode::Target { range: 1 },
        effect_id: None,
        missile_id: None,
    }));
    let mut ctx = TickCtx::new(WorldMap::new(map), Tick(0));

    perform(&mut ctx, demon, 0);

    assert_eq!(ctx.map.map().get_agent(player).unwrap().life.current, 100);
    assert!(!ctx.events.iter().any(|e| matches!(e, BroadcastMessage::DamageTaken { .. })));
    assert!(ctx.scheduled.iter().any(|s| matches!(
        s.command,
        WorldCommand::DamageOverTimeTick { agent_key, .. } if agent_key == player
    )));
}

#[test]
fn an_ability_without_a_target_fizzles_and_still_makes_its_group_wait() {
    let (mut map, demon, _) = a_map_with(a_claw());
    map.get_agent_mut(demon).unwrap().target = None;
    let mut ctx = TickCtx::new(WorldMap::new(map), Tick(100));

    assert!(matches!(perform(&mut ctx, demon, 0), AbilityStep::Fizzle));
    assert_eq!(
        ctx.map.map().get_agent(demon).unwrap().next_spell_group_tick(SpellGroup::Attack),
        Tick(140)
    );
    let unknown = CreatureAbilityId(9);
    assert!(begin_ability(&mut ctx, demon, unknown, &clear, &in_view).is_none());
}

#[test]
fn an_area_around_a_creature_spares_the_creature() {
    let around = TargetMode::Area {
        origin: AreaOrigin::Caster,
        shape: Arc::new(AreaShape::new(vec![(0, 0), (1, 0), (-1, 0)])),
    };
    let (map, demon, player) = a_map_with(AbilityEffect::Attack(CreatureAttack {
        damage: CreatureDamage {
            element: CombatElement::Fire,
            value: Bounds { min: 1, max: 2 },
            condition: None,
        },
        target: around,
        effect_id: Some(EffectId(3)),
        missile_id: Some(MissileId(4)),
    }));
    let mut ctx = TickCtx::new(WorldMap::new(map), Tick(0));
    ctx.map.agent_mut(demon).unwrap().set_facing(Facing::North);

    match perform(&mut ctx, demon, 0) {
        AbilityStep::Attack { strike, .. } => {
            assert_eq!(strike.targets, vec![player]);
            assert_eq!(
                strike.missile,
                Some(Missile { missile_id: MissileId(4), from: at(15), to: at(15) })
            );
            assert_eq!(strike.area_effect.unwrap().delta, vec![(0, 0), (1, 0), (-1, 0)]);
        }
        other => panic!("{other:?}"),
    }
}

#[test]
fn an_ability_is_performed_before_its_group_has_to_wait() {
    let (map, demon, player) = a_map_with(a_claw());
    let ctx = TickCtx::new(WorldMap::new(map), Tick(100));

    let ctx = cast_ability(
        ctx,
        demon,
        CreatureAbilityId(0),
        &clear,
        &in_view,
        &|mut ctx: TickCtx, step: AbilityStep| {
            assert!(matches!(step, AbilityStep::Attack { .. }));
            let agent = ctx.map.map().get_agent(demon).unwrap();
            assert_eq!(agent.next_spell_group_tick(SpellGroup::Attack), Tick(0));
            ctx.map.remove_agent(player);
            ctx
        },
        &game_config(),
    );

    let agent = ctx.map.map().get_agent(demon).unwrap();
    assert_eq!(agent.next_spell_group_tick(SpellGroup::Attack), Tick(140));
    assert!(ctx.map.map().get_agent(player).is_none());
    let unperformed = |_: TickCtx, _: AbilityStep| -> TickCtx { panic!("it has no such ability") };
    let id = CreatureAbilityId(9);
    cast_ability(ctx, demon, id, &clear, &in_view, &unperformed, &game_config());
}
