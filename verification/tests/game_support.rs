//! Speed, shields and cures.

use rustibia::actors::world::WorldCommand;
use rustibia::entities::agent::{Agent, AgentBody, AgentKey, Facing, Pool};
use rustibia::entities::combat::CombatElement;
use rustibia::entities::conditions::{Conditions, DamageOverTime, SpeedEffect};
use rustibia::entities::creature::CreatureKind;
use rustibia::entities::effects::{EffectId, Missile, MissileId};
use rustibia::entities::map::{GameMap, MapTile};
use rustibia::entities::player::{Inventory, Player, SkillValue};
use rustibia::entities::position::{Position, Rect};
use rustibia::entities::skills::SkillType;
use rustibia::entities::spells::{Spell, SpellDelivery, SpellEffect, SpellGroup, SpellId};
use rustibia::entities::support::{FloatBits, SpeedFormula, SpeedTerm, SupportCast, SupportEffect};
use rustibia::entities::targeting::{AreaTarget, TargetFilter, TargetMode};
use rustibia::entities::vocation::Vocation;
use rustibia::entities::world_map::WorldMap;
use rustibia::game::config::{CombatConfig, EffectIds, GameConfig, TextColors};
use rustibia::game::ctx::TickCtx;
use rustibia::game::events::BroadcastMessage;
use rustibia::game::spells::{
    ResolvedTargets, announce_cast, begin_cast, resolve_targets, settle_cast,
};
use rustibia::game::support::{
    apply_support, cast_support, expire_speed, roll_speed_change, speed_span,
};
use rustibia::game::tick::{Tick, TickDelta};
use rustibia::messages::Color;
use std::collections::HashMap;
use std::sync::Arc;

fn game_config() -> GameConfig {
    GameConfig {
        max_fed_ticks: TickDelta(24000),
        logout_block_ticks: TickDelta(1200),
        regen_ticks: TickDelta(120),
        use_item_cooldown_ticks: TickDelta(4),
        combat: CombatConfig {
            attack_group_cooldown: TickDelta(40),
            healing_group_cooldown: TickDelta(20),
            support_group_cooldown: TickDelta(30),
            auto_attack_ticks: TickDelta(40),
        },
        effect_ids: EffectIds {
            healing_spell: EffectId(1),
            mana_hit: EffectId(2),
            miss: EffectId(3),
            puff: EffectId(4),
        },
        text_colors: TextColors { blue: Color(0, 0, 255), palepink: Color(255, 200, 200) },
    }
}

fn an_agent(base_speed: u16, body: AgentBody) -> Agent {
    Agent {
        life: Pool { current: 100, maximum: 100 },
        mana: Pool { current: 100, maximum: 100 },
        base_speed,
        facing: Facing::South,
        conditions: Conditions::new(),
        next_walk_tick: Tick(0),
        next_use_tick: Tick(0),
        next_auto_attack_tick: Tick(0),
        spell_ticks: HashMap::new(),
        group_ticks: HashMap::new(),
        target: None,
        target_seq: 0,
        wounds: Vec::new(),
        body,
    }
}

fn a_named_player(name: &str) -> Agent {
    an_agent(
        120,
        AgentBody::Player(Player {
            name: name.to_string(),
            vocation: Vocation::Sorcerer,
            life_regen: 5,
            mana_regen: 10,
            capacity: 400,
            skills: vec![(SkillType::Level, SkillValue { value: 1, current_ticks: 0 })],
            inventory: Arc::new(Inventory { slots: Vec::new(), carried_weight: 0, speed: 0 }),
        }),
    )
}

fn a_player() -> Agent {
    a_named_player("Rizael")
}

fn a_creature(name: &str) -> Agent {
    an_agent(
        100,
        AgentBody::Creature(Arc::new(CreatureKind {
            name: name.to_string(),
            immune_to_paralysis: false,
            abilities: Vec::new(),
        })),
    )
}

/// Nothing is in the way of a throw.
fn clear(_: Position, _: Position) -> bool {
    true
}

/// What can be aimed at from a tile: the viewport around it.
fn in_view(from: Position, to: Position) -> bool {
    from.z == to.z && Rect::player_viewport(&from).contains(&to)
}

fn at(x: u16) -> Position {
    Position::new(x, 10, 7)
}

fn a_player_on_the_map() -> (GameMap, AgentKey) {
    let mut map = GameMap::new();
    map.insert_tile(at(10), MapTile::new());
    let key = map.insert_agent(a_player(), &at(10)).unwrap();
    (map, key)
}

fn flat(effect: SpeedEffect, change: i16, duration: u64) -> SupportEffect {
    let term = SpeedTerm { factor: FloatBits(0.0f32.to_bits()), flat: change };
    SupportEffect::Speed {
        effect,
        formula: SpeedFormula { min: term, max: term },
        duration: TickDelta(duration),
    }
}

fn scarab_paralysis() -> SpeedFormula {
    SpeedFormula {
        min: SpeedTerm { factor: FloatBits((-1.0f32).to_bits()), flat: 44 },
        max: SpeedTerm { factor: FloatBits((-1.0f32).to_bits()), flat: 149 },
    }
}

/// One end of a formula for a base speed.
fn end(term: &SpeedTerm, base: u16) -> i32 {
    (f32::from_bits(term.factor.0) * f32::from(base)).round() as i32 + i32::from(term.flat)
}

/// What every roll of a formula comes to.
fn all_rolls(effect: SpeedEffect, formula: &SpeedFormula, base: u16) -> Vec<i16> {
    let (a, b) = (end(&formula.min, base), end(&formula.max, base));
    (0..=speed_span(a, b)).map(|rolled| roll_speed_change(effect, a, b, rolled)).collect()
}

fn a_support_spell(group: SpellGroup, target: TargetMode, effect: SupportEffect) -> Spell {
    Spell {
        id: SpellId(1),
        name: "spell".to_string(),
        words: "words".to_string(),
        group,
        group_cooldown: None,
        cooldown: TickDelta(0),
        mana: 0,
        level: 0,
        icon: 0,
        vocations: vec![Vocation::Sorcerer],
        effect: SpellEffect::Support(SupportCast {
            target,
            effect,
            effect_id: None,
            missile_id: None,
        }),
        delivery: SpellDelivery::Words,
    }
}

/// What is rolled for a support effect whose formula leaves no choice.
fn only_change(effect: &SupportEffect) -> i16 {
    match effect {
        SupportEffect::Speed { effect, formula, .. } => {
            let end = i32::from(formula.min.flat);
            roll_speed_change(*effect, end, end, 0)
        }
        _ => 0,
    }
}

/// Casts a supporting spell from its beginning to its end.
fn cast(ctx: &mut TickCtx, player: AgentKey, spell: &Spell, target: AreaTarget) {
    let casting = begin_cast(ctx, player, Some(spell)).unwrap();
    let support = match &spell.effect {
        SpellEffect::Support(support) => support,
        _ => panic!("not a supporting spell"),
    };
    let targets = resolve_targets(
        ctx.map.map(),
        player,
        &support.target,
        &target,
        &None,
        TargetFilter::Any,
        &clear,
        &in_view,
    )
    .unwrap();
    let changes = vec![only_change(&support.effect); targets.keys.len()];
    cast_support(ctx, player, support, &targets, &changes);
    settle_cast(ctx, player, spell, &casting, Ok(()), &game_config());
    announce_cast(ctx, player, &casting, spell.id);
}

fn apply(ctx: &mut TickCtx, target: AgentKey, effect: SupportEffect) {
    let change = only_change(&effect);
    apply_support(ctx, target, &effect, change);
}

fn booked_generation(ctx: &TickCtx) -> u32 {
    ctx.scheduled
        .iter()
        .rev()
        .find_map(|s| match s.command {
            WorldCommand::SpeedExpired { generation, .. } => Some(generation),
            _ => None,
        })
        .expect("no expiry was booked")
}

#[test]
fn a_haste_speeds_up_its_caster_until_its_expiry_is_due() {
    let (map, player) = a_player_on_the_map();
    let spell = a_support_spell(
        SpellGroup::Support,
        TargetMode::Caster,
        flat(SpeedEffect::Haste, 30, 660),
    );
    let mut ctx = TickCtx::new(WorldMap::new(map), Tick(100));

    cast(&mut ctx, player, &spell, AreaTarget::NoTarget);

    let agent = ctx.map.map().get_agent(player).unwrap();
    assert_eq!(agent.speed(), 150);
    assert_eq!(
        agent.next_spell_group_tick(SpellGroup::Support),
        Tick(100).plus(game_config().combat.support_group_cooldown)
    );
    assert!(ctx.events.iter().any(|e| matches!(
        e,
        BroadcastMessage::AgentSpeedChanged { agent_key, .. } if *agent_key == player
    )));
    assert!(ctx.scheduled.iter().any(|s| s.at_tick == Tick(760)
        && matches!(s.command, WorldCommand::SpeedExpired { agent_key, .. } if agent_key == player)));
}

#[test]
fn the_expiry_restores_speed_and_a_stale_one_does_nothing() {
    let (map, player) = a_player_on_the_map();
    let mut ctx = TickCtx::new(WorldMap::new(map), Tick(0));

    apply(&mut ctx, player, flat(SpeedEffect::Haste, 30, 100));
    let stale = booked_generation(&ctx);
    apply(&mut ctx, player, flat(SpeedEffect::Haste, 50, 100));
    let live = booked_generation(&ctx);
    ctx.events.clear();

    expire_speed(&mut ctx, player, stale);
    assert_eq!(ctx.map.map().get_agent(player).unwrap().speed(), 170);
    assert!(ctx.events.is_empty());

    expire_speed(&mut ctx, player, live);
    assert_eq!(ctx.map.map().get_agent(player).unwrap().speed(), 120);
    assert!(matches!(ctx.events.as_slice(), [BroadcastMessage::AgentSpeedChanged { .. }]));
}

#[test]
fn a_haste_cast_while_paralysed_replaces_the_paralysis() {
    let (map, player) = a_player_on_the_map();
    let mut ctx = TickCtx::new(WorldMap::new(map), Tick(0));

    apply(&mut ctx, player, flat(SpeedEffect::Paralysis, -60, 100));
    apply(&mut ctx, player, flat(SpeedEffect::Haste, 30, 100));

    assert_eq!(ctx.map.map().get_agent(player).unwrap().speed(), 150);
}

#[test]
fn a_paralysis_never_raises_speed_and_a_haste_never_lowers_it() {
    for change in all_rolls(SpeedEffect::Paralysis, &scarab_paralysis(), 20) {
        assert!(change <= 0, "{change}");
    }

    let term = SpeedTerm { factor: FloatBits(0.3f32.to_bits()), flat: -12 };
    let weak = SpeedFormula { min: term, max: term };
    assert_eq!(all_rolls(SpeedEffect::Haste, &weak, 10), vec![0]);
}

#[test]
fn the_scarab_paralysis_lands_between_44_and_149_whatever_the_base() {
    for base in [258u16, 546] {
        let landed: Vec<i32> = all_rolls(SpeedEffect::Paralysis, &scarab_paralysis(), base)
            .into_iter()
            .map(|change| i32::from(base) + i32::from(change))
            .collect();
        assert!(
            landed.iter().all(|speed| (44..=149).contains(speed)),
            "base {base}: {landed:?}"
        );
    }
}

#[test]
fn the_ends_of_a_speed_roll_may_come_in_either_order() {
    assert_eq!(speed_span(5, -3), 8);
    assert_eq!(roll_speed_change(SpeedEffect::Haste, 40, 10, 7), 17);
    assert_eq!(roll_speed_change(SpeedEffect::Haste, 70000, 70000, 0), i16::MAX);
    assert_eq!(roll_speed_change(SpeedEffect::Paralysis, -70000, -70000, 0), i16::MIN);
}

#[test]
fn a_paralysis_immune_creature_keeps_its_speed_and_a_haste_still_lands() {
    let mut map = GameMap::new();
    map.insert_tile(at(10), MapTile::new());
    let kind = CreatureKind {
        name: "Scarab".to_string(),
        immune_to_paralysis: true,
        abilities: Vec::new(),
    };
    let scarab =
        map.insert_agent(an_agent(100, AgentBody::Creature(Arc::new(kind))), &at(10)).unwrap();
    let mut ctx = TickCtx::new(WorldMap::new(map), Tick(0));

    apply(&mut ctx, scarab, flat(SpeedEffect::Paralysis, -50, 100));
    assert_eq!(ctx.map.map().get_agent(scarab).unwrap().speed(), 100);
    assert!(ctx.scheduled.is_empty());

    apply(&mut ctx, scarab, flat(SpeedEffect::Haste, 20, 100));
    assert_eq!(ctx.map.map().get_agent(scarab).unwrap().speed(), 120);
}

#[test]
fn a_cure_spell_removes_its_element_and_leaves_the_others() {
    let (mut map, player) = a_player_on_the_map();
    let conditions = &mut map.get_agent_mut(player).unwrap().conditions;
    conditions.apply_damage_over_time(DamageOverTime::decaying(
        CombatElement::Earth,
        None,
        TickDelta(80),
        100,
        None,
    ));
    conditions.apply_damage_over_time(DamageOverTime::decaying(
        CombatElement::Fire,
        None,
        TickDelta(180),
        100,
        None,
    ));
    let spell = a_support_spell(
        SpellGroup::Healing,
        TargetMode::Caster,
        SupportEffect::Cure { element: CombatElement::Earth },
    );
    let mut ctx = TickCtx::new(WorldMap::new(map), Tick(0));

    cast(&mut ctx, player, &spell, AreaTarget::NoTarget);

    let conditions = &mut ctx.map.inner_mut().get_agent_mut(player).unwrap().conditions;
    assert!(!conditions.cure(CombatElement::Earth));
    assert!(conditions.cure(CombatElement::Fire));
}

#[test]
fn a_magic_shield_spell_shields_its_caster_for_its_duration() {
    let (map, player) = a_player_on_the_map();
    let spell = a_support_spell(
        SpellGroup::Support,
        TargetMode::Caster,
        SupportEffect::MagicShield { duration: TickDelta(4000) },
    );
    let mut ctx = TickCtx::new(WorldMap::new(map), Tick(100));

    cast(&mut ctx, player, &spell, AreaTarget::NoTarget);

    let conditions = &ctx.map.map().get_agent(player).unwrap().conditions;
    assert!(conditions.is_magic_shielded(Tick(4099)));
    assert!(!conditions.is_magic_shielded(Tick(4100)));
}

#[test]
fn a_paralyse_rune_slows_the_creature_it_is_aimed_at() {
    let (mut map, player) = a_player_on_the_map();
    map.insert_tile(at(11), MapTile::new());
    let rat = map.insert_agent(a_creature("Rat"), &at(11)).unwrap();
    let mut spell = a_support_spell(
        SpellGroup::Attack,
        TargetMode::Aimed,
        flat(SpeedEffect::Paralysis, -50, 400),
    );
    spell.delivery = SpellDelivery::Rune;
    let mut ctx = TickCtx::new(WorldMap::new(map), Tick(0));

    cast(&mut ctx, player, &spell, AreaTarget::Agent(rat));

    assert_eq!(ctx.map.map().get_agent(rat).unwrap().speed(), 50);
}

#[test]
fn a_supporting_cast_shows_its_missile_and_its_effect() {
    let (mut map, player) = a_player_on_the_map();
    map.insert_tile(at(11), MapTile::new());
    let rat = map.insert_agent(a_creature("Rat"), &at(11)).unwrap();
    let mut ctx = TickCtx::new(WorldMap::new(map), Tick(0));
    let support = SupportCast {
        target: TargetMode::Aimed,
        effect: SupportEffect::Cure { element: CombatElement::Fire },
        effect_id: Some(EffectId(7)),
        missile_id: Some(MissileId(8)),
    };
    let targets = ResolvedTargets { keys: vec![rat], aim: Some(at(11)), delta: None };

    cast_support(&mut ctx, player, &support, &targets, &vec![0]);

    assert!(matches!(
        ctx.events.as_slice(),
        [
            BroadcastMessage::MissileLaunched { missile: Missile { from, to, .. } },
            BroadcastMessage::AreaEffectAppeared { area_effect },
        ] if *from == at(10) && *to == at(11) && area_effect.origin == at(11)
    ));
}
