//! Casting spells, whom they reach, and attacks that leap.

use rustibia::actors::world::{ScheduledCommand, WorldCommand};
use rustibia::entities::agent::{Agent, AgentBody, AgentKey, Facing, Pool};
use rustibia::entities::combat::{AttackPlan, CombatDamage, CombatElement};
use rustibia::entities::conditions::Conditions;
use rustibia::entities::creature::CreatureKind;
use rustibia::entities::effects::{AreaEffect, AreaShape, EffectId, Missile, MissileId};
use rustibia::entities::map::{GameMap, MapTile};
use rustibia::entities::player::{Inventory, Player, SkillValue};
use rustibia::entities::position::{Position, Rect};
use rustibia::entities::skills::SkillType;
use rustibia::entities::spells::{
    ChainAttack, ChainSorting, PowerCurve, Spell, SpellAttack, SpellDelivery, SpellEffect,
    SpellGroup, SpellId,
};
use rustibia::entities::support::{FloatBits, SupportCast, SupportEffect};
use rustibia::entities::targeting::{AreaOrigin, AreaTarget, TargetFilter, TargetMode};
use rustibia::entities::vocation::Vocation;
use rustibia::entities::world_map::WorldMap;
use rustibia::game::config::{CombatConfig, EffectIds, GameConfig, TextColors};
use rustibia::game::ctx::TickCtx;
use rustibia::game::events::BroadcastMessage;
use rustibia::game::spells::{
    Absent, ResolvedTargets, SpellCastingDenyReason, announce_cast, attack_spell, begin_cast,
    cast_spell, chain_attack, consume_mana, follow_chain, leap, resolve_targets, settle_cast,
};
use rustibia::game::tick::{Tick, TickDelta};
use rustibia::messages::Color;
use std::collections::HashMap;
use std::sync::Arc;

fn game_config() -> GameConfig {
    GameConfig {
        max_fed_ticks: TickDelta(24000),
        logout_block_ticks: TickDelta(1200),
        regen_ticks: TickDelta(120),
        use_item_cooldown_ticks: TickDelta(4),
        combat: CombatConfig {
            attack_group_cooldown: TickDelta(40),
            healing_group_cooldown: TickDelta(20),
            support_group_cooldown: TickDelta(30),
            auto_attack_ticks: TickDelta(40),
        },
        effect_ids: EffectIds {
            healing_spell: EffectId(1),
            mana_hit: EffectId(2),
            miss: EffectId(3),
            puff: EffectId(4),
        },
        text_colors: TextColors { blue: Color(0, 0, 255), palepink: Color(255, 200, 200) },
    }
}

fn an_agent(base_speed: u16, body: AgentBody) -> Agent {
    Agent {
        life: Pool { current: 100, maximum: 100 },
        mana: Pool { current: 100, maximum: 100 },
        base_speed,
        facing: Facing::South,
        conditions: Conditions::new(),
        next_walk_tick: Tick(0),
        next_use_tick: Tick(0),
        next_auto_attack_tick: Tick(0),
        spell_ticks: HashMap::new(),
        group_ticks: HashMap::new(),
        target: None,
        target_seq: 0,
        wounds: Vec::new(),
        body,
    }
}

fn a_named_player(name: &str) -> Agent {
    an_agent(
        120,
        AgentBody::Player(Player {
            name: name.to_string(),
            vocation: Vocation::Sorcerer,
            life_regen: 5,
            mana_regen: 10,
            capacity: 400,
            skills: vec![(SkillType::Level, SkillValue { value: 1, current_ticks: 0 })],
            inventory: Arc::new(Inventory { slots: Vec::new(), carried_weight: 0, speed: 0 }),
        }),
    )
}

fn a_player() -> Agent {
    a_named_player("Rizael")
}

fn a_creature(name: &str) -> Agent {
    an_agent(
        100,
        AgentBody::Creature(Arc::new(CreatureKind {
            name: name.to_string(),
            immune_to_paralysis: false,
            abilities: Vec::new(),
        })),
    )
}

/// Nothing is in the way of a throw.
fn clear(_: Position, _: Position) -> bool {
    true
}

/// What can be aimed at from a tile: the viewport around it.
fn in_view(from: Position, to: Position) -> bool {
    from.z == to.z && Rect::player_viewport(&from).contains(&to)
}

fn a_caster_at(position: &Position) -> (GameMap, AgentKey) {
    let mut map = GameMap::new();
    map.insert_tile(*position, MapTile::new());
    let key = map.insert_agent(a_player(), position).unwrap();
    (map, key)
}

/// Places `agent` next to the caster and hands back its key.
fn beside(map: &mut GameMap, position: &Position, agent: Agent) -> AgentKey {
    let spot = Position::new(position.x + 1, position.y, position.z);
    map.insert_tile(spot, MapTile::new());
    map.insert_agent(agent, &spot).unwrap()
}

/// Symmetric under rotation, so the caster's facing cannot move a tile out of it.
fn a_cross_area() -> TargetMode {
    TargetMode::Area {
        origin: AreaOrigin::Caster,
        shape: Arc::new(AreaShape::new(vec![(0, 0), (1, 0), (-1, 0), (0, 1), (0, -1)])),
    }
}

fn aimed_area() -> TargetMode {
    TargetMode::Area {
        origin: AreaOrigin::Target,
        shape: Arc::new(AreaShape::new(vec![(0, 0)])),
    }
}

fn resolve(
    map: &GameMap,
    caster: AgentKey,
    mode: &TargetMode,
    target: AreaTarget,
    param: Option<&str>,
    filter: TargetFilter,
) -> Result<ResolvedTargets, SpellCastingDenyReason> {
    let param: Option<String> = param.map(|text| text.to_string());
    resolve_targets(map, caster, mode, &target, &param, filter, &clear, &in_view)
}

#[test]
fn a_players_only_area_leaves_the_creatures_in_it_alone() {
    let position = Position::new(100, 100, 7);
    let (mut map, caster) = a_caster_at(&position);
    let creature = beside(&mut map, &position, a_creature("Rat"));

    let any = resolve(
        &map,
        caster,
        &a_cross_area(),
        AreaTarget::NoTarget,
        None,
        TargetFilter::Any,
    )
    .unwrap();
    let players = resolve(
        &map,
        caster,
        &a_cross_area(),
        AreaTarget::NoTarget,
        None,
        TargetFilter::Players,
    )
    .unwrap();

    assert!(any.keys.contains(&creature));
    assert_eq!(players.keys, Vec::from([caster]));
}

#[test]
fn a_named_cast_reaches_the_player_it_names_and_no_one_else() {
    let position = Position::new(100, 100, 7);
    let (mut map, caster) = a_caster_at(&position);
    let named = TargetMode::Named { range: 7 };

    let targets = resolve(
        &map,
        caster,
        &named,
        AreaTarget::NoTarget,
        Some("Rizael"),
        TargetFilter::Players,
    )
    .unwrap();
    assert_eq!(targets.keys, Vec::from([caster]));

    for param in [None, Some("Nobody")] {
        assert!(
            matches!(
                resolve(
                    &map,
                    caster,
                    &named,
                    AreaTarget::NoTarget,
                    param,
                    TargetFilter::Players
                ),
                Err(SpellCastingDenyReason::InvalidTarget)
            ),
            "{param:?} must not resolve to a player"
        );
    }

    let far = Position::new(position.x + 20, position.y, position.z);
    map.insert_tile(far, MapTile::new());
    map.insert_agent(a_named_player("Stranger"), &far).unwrap();

    assert!(
        matches!(
            resolve(
                &map,
                caster,
                &named,
                AreaTarget::NoTarget,
                Some("Stranger"),
                TargetFilter::Players
            ),
            Err(SpellCastingDenyReason::InvalidTarget)
        ),
        "a player past the range is not in the rect the cast searches"
    );
}

#[test]
fn an_aimed_tile_within_reach_centres_the_area() {
    let (map, caster) = a_caster_at(&Position::new(100, 100, 7));
    let aim = Position::new(103, 101, 7);

    let targets = resolve(
        &map,
        caster,
        &aimed_area(),
        AreaTarget::Position(aim),
        None,
        TargetFilter::Any,
    )
    .unwrap();

    assert_eq!(targets.aim, Some(aim));
}

#[test]
fn an_aimed_tile_out_of_reach_or_on_another_floor_is_refused() {
    let (map, caster) = a_caster_at(&Position::new(100, 100, 7));

    for aim in [Position::new(140, 100, 7), Position::new(101, 100, 6)] {
        assert!(
            matches!(
                resolve(
                    &map,
                    caster,
                    &aimed_area(),
                    AreaTarget::Position(aim),
                    None,
                    TargetFilter::Any,
                ),
                Err(SpellCastingDenyReason::InvalidTarget)
            ),
            "{aim:?} must not be a legal aim"
        );
    }
}

#[test]
fn a_cast_at_the_casters_target_needs_one_in_reach() {
    let position = Position::new(100, 100, 7);
    let (mut map, caster) = a_caster_at(&position);
    let rat = beside(&mut map, &position, a_creature("Rat"));
    let at_target = TargetMode::Target { range: 1 };
    let cast = |map: &GameMap, filter: TargetFilter| {
        resolve(map, caster, &at_target, AreaTarget::NoTarget, None, filter)
    };

    assert!(matches!(
        cast(&map, TargetFilter::Any),
        Err(SpellCastingDenyReason::InvalidTarget)
    ));
    map.get_agent_mut(caster).unwrap().target = Some(rat);
    let reached = cast(&map, TargetFilter::Any).unwrap();
    assert_eq!(reached.keys, vec![rat]);
    assert_eq!(reached.aim, Some(Position::new(101, 100, 7)));
    assert_eq!(reached.delta, Some(vec![(0, 0)]));
    assert!(matches!(
        cast(&map, TargetFilter::Players),
        Err(SpellCastingDenyReason::InvalidTarget)
    ));

    let away = Position::new(103, 100, 7);
    map.insert_tile(away, MapTile::new());
    map.move_agent(rat, &away).unwrap();
    assert!(matches!(cast(&map, TargetFilter::Any), Err(SpellCastingDenyReason::OutOfReach)));
    map.remove_agent(rat);
    assert!(matches!(
        cast(&map, TargetFilter::Any),
        Err(SpellCastingDenyReason::InvalidState(key, Absent::Target)) if key == rat
    ));
    map.remove_agent(caster);
    assert!(matches!(
        cast(&map, TargetFilter::Any),
        Err(SpellCastingDenyReason::InvalidState(key, Absent::Caster)) if key == caster
    ));
}

#[test]
fn a_wall_keeps_an_area_from_the_tiles_behind_it() {
    let position = Position::new(100, 100, 7);
    let (mut map, caster) = a_caster_at(&position);
    let rat = beside(&mut map, &position, a_creature("Rat"));
    let walled = |_: Position, to: Position| -> bool { to.x != 101 };

    let reached = resolve_targets(
        &map,
        caster,
        &a_cross_area(),
        &AreaTarget::NoTarget,
        &None,
        TargetFilter::Any,
        &walled,
        &in_view,
    )
    .unwrap();

    assert!(!reached.keys.contains(&rat));
    assert_eq!(reached.delta, Some(vec![(0, 0), (-1, 0), (0, -1), (0, 1)]));
}

fn a_spell(mana: u32, level: u16) -> Spell {
    Spell {
        id: SpellId(1),
        name: "light healing".to_string(),
        words: "exura".to_string(),
        group: SpellGroup::Attack,
        group_cooldown: None,
        cooldown: TickDelta(60),
        mana,
        level,
        icon: 0,
        vocations: vec![Vocation::Sorcerer],
        effect: SpellEffect::Support(SupportCast {
            target: TargetMode::Caster,
            effect: SupportEffect::Cure { element: CombatElement::Fire },
            effect_id: None,
            missile_id: None,
        }),
        delivery: SpellDelivery::Words,
    }
}

fn denial(ctx: &TickCtx) -> Option<SpellCastingDenyReason> {
    match ctx.events.last() {
        Some(BroadcastMessage::SpellDenied { reason, .. }) => Some(*reason),
        _ => None,
    }
}

#[test]
fn a_cast_is_denied_for_the_first_reason_that_holds() {
    let (map, caster) = a_caster_at(&Position::new(100, 100, 7));
    let mut ctx = TickCtx::new(WorldMap::new(map), Tick(10));

    assert!(begin_cast(&mut ctx, caster, None).is_none());
    assert_eq!(denial(&ctx), Some(SpellCastingDenyReason::IdNotFound));
    assert!(begin_cast(&mut ctx, caster, Some(&a_spell(500, 9))).is_none());
    assert_eq!(denial(&ctx), Some(SpellCastingDenyReason::RequirementFailed));
    let mut knights = a_spell(5, 1);
    knights.vocations = vec![Vocation::Knight];
    assert!(begin_cast(&mut ctx, caster, Some(&knights)).is_none());
    assert_eq!(denial(&ctx), Some(SpellCastingDenyReason::RequirementFailed));
    assert!(begin_cast(&mut ctx, caster, Some(&a_spell(500, 1))).is_none());
    assert_eq!(denial(&ctx), Some(SpellCastingDenyReason::NoMana));
    assert_eq!(ctx.events.len(), 4);
    assert!(begin_cast(&mut ctx, caster, Some(&a_spell(5, 1))).is_some());
    assert_eq!(ctx.events.len(), 4);
}

#[test]
fn a_cast_costs_its_mana_and_makes_its_spell_wait() {
    let (map, caster) = a_caster_at(&Position::new(100, 100, 7));
    let mut ctx = TickCtx::new(WorldMap::new(map), Tick(10));
    let spell = a_spell(30, 1);
    let config = game_config();

    let casting = begin_cast(&mut ctx, caster, Some(&spell)).unwrap();
    let training = settle_cast(&mut ctx, caster, &spell, &casting, Ok(()), &config);
    announce_cast(&mut ctx, caster, &casting, spell.id);

    assert_eq!(training, Some(30));
    let agent = ctx.map.map().get_agent(caster).unwrap();
    assert_eq!(agent.mana.current, 70);
    assert_eq!(agent.next_spell_tick(SpellId(1)), Tick(70));
    assert_eq!(agent.next_spell_group_tick(SpellGroup::Attack), Tick(50));
    assert_eq!(agent.next_auto_attack_tick, Tick(50));
    assert!(matches!(
        ctx.events.as_slice(),
        [BroadcastMessage::PlayerManaUpdated { .. }, BroadcastMessage::SpellCast { .. }]
    ));

    ctx.tick = Tick(69);
    assert!(begin_cast(&mut ctx, caster, Some(&spell)).is_none());
    assert_eq!(denial(&ctx), Some(SpellCastingDenyReason::StillInCooldown));
    ctx.tick = Tick(70);
    assert!(begin_cast(&mut ctx, caster, Some(&spell)).is_some());
}

#[test]
fn a_cast_whose_effect_fails_costs_nothing_and_leaves_only_its_denial() {
    let (map, caster) = a_caster_at(&Position::new(100, 100, 7));
    let mut ctx = TickCtx::new(WorldMap::new(map), Tick(10));
    let spell = a_spell(30, 1);

    let casting = begin_cast(&mut ctx, caster, Some(&spell)).unwrap();
    ctx.tell(BroadcastMessage::AttackMissed { position: Position::new(1, 1, 1) });
    let training = settle_cast(
        &mut ctx,
        caster,
        &spell,
        &casting,
        Err(SpellCastingDenyReason::NoWeapon),
        &game_config(),
    );

    assert_eq!(training, None);
    assert_eq!(ctx.map.map().get_agent(caster).unwrap().mana.current, 100);
    assert_eq!(ctx.events.len(), 1);
    assert_eq!(denial(&ctx), Some(SpellCastingDenyReason::NoWeapon));
    assert!(ctx.map.delta().is_empty());
}

#[test]
fn a_caster_that_died_of_its_cast_is_not_there_to_pay() {
    let (map, caster) = a_caster_at(&Position::new(100, 100, 7));
    let mut ctx = TickCtx::new(WorldMap::new(map), Tick(10));
    let spell = a_spell(30, 1);
    let casting = begin_cast(&mut ctx, caster, Some(&spell)).unwrap();
    ctx.map.remove_agent(caster);

    settle_cast(&mut ctx, caster, &spell, &casting, Ok(()), &game_config());

    assert_eq!(
        denial(&ctx),
        Some(SpellCastingDenyReason::InvalidState(caster, Absent::CasterAfterwards))
    );
    assert_eq!(consume_mana(&mut ctx, caster, 5), None);
}

#[test]
fn a_denial_says_what_is_wrong() {
    assert_eq!(SpellCastingDenyReason::IdNotFound.message(), "Invalid spell");
    assert_eq!(SpellCastingDenyReason::NoMana.message(), "Not enough mana");
    assert_eq!(SpellCastingDenyReason::RequirementFailed.message(), "You can't cast that spell");
    assert_eq!(SpellCastingDenyReason::InvalidTarget.message(), "No target");
    assert_eq!(SpellCastingDenyReason::OutOfReach.message(), "Target out of reach");
    assert_eq!(SpellCastingDenyReason::StillInCooldown.message(), "You're exausted");
    assert_eq!(SpellCastingDenyReason::NoWeapon.message(), "You need a weapon");
    assert_eq!(
        SpellCastingDenyReason::InvalidState(AgentKey((3 << 32) | 12), Absent::Caster).message(),
        "Invalid State: AgentKey(12v3) spell caster not found"
    );
}

fn a_chain(next: Option<Box<ChainAttack>>) -> ChainAttack {
    ChainAttack {
        num_targets: 2,
        damage_factor: FloatBits(0.5f32.to_bits()),
        delay_ticks: TickDelta(3),
        max_range: 4,
        sorting: ChainSorting::Closest,
        missile_id: MissileId(5),
        effect_id: Some(EffectId(6)),
        chain: next,
    }
}

fn a_hit(value: u32) -> CombatDamage {
    CombatDamage {
        element: CombatElement::Energy,
        value,
        blocked_shield: false,
        blocked_armor: false,
    }
}

/// A caster, and rats at these columns of its row.
fn a_row(columns: &[u16]) -> (TickCtx, AgentKey, Vec<AgentKey>) {
    let (mut map, caster) = a_caster_at(&Position::new(100, 100, 7));
    let mut rats = Vec::new();
    for x in columns {
        let at = Position::new(*x, 100, 7);
        map.insert_tile(at, MapTile::new());
        rats.push(map.insert_agent(a_creature("Rat"), &at).unwrap());
    }
    (TickCtx::new(WorldMap::new(map), Tick(10)), caster, rats)
}

#[test]
fn an_attack_leaps_to_the_closest_it_has_not_hit() {
    let (mut ctx, caster, rats) = a_row(&[103, 101, 102, 99]);
    let from = Position::new(103, 100, 7);

    let leap = leap(
        &mut ctx,
        caster,
        &vec![(from, a_hit(40))],
        &vec![20],
        &a_chain(None),
        vec![rats[0]],
    );

    assert_eq!(leap.hits, vec![(rats[2], a_hit(20)), (rats[1], a_hit(20))]);
    assert_eq!(leap.targeted, vec![rats[0], rats[2], rats[1]]);
    assert_eq!(
        leap.positions,
        vec![Position::new(102, 100, 7), Position::new(101, 100, 7)]
    );
    assert_eq!(ctx.events.len(), 2);
    assert!(matches!(
        &ctx.events[0],
        BroadcastMessage::MissileLaunched { missile: Missile { from: f, to, .. } }
            if *f == from && *to == Position::new(102, 100, 7)
    ));
}

#[test]
fn a_second_source_leaps_to_nobody_that_the_first_has_hit() {
    let (mut ctx, caster, rats) = a_row(&[101, 102, 103]);
    let sources =
        vec![(Position::new(101, 100, 7), a_hit(40)), (Position::new(102, 100, 7), a_hit(30))];

    let leap =
        leap(&mut ctx, caster, &sources, &vec![20, 15], &a_chain(None), vec![rats[0]]);

    assert_eq!(leap.hits, vec![(rats[1], a_hit(20)), (rats[2], a_hit(20))]);
}

#[test]
fn a_chain_goes_on_from_where_it_landed() {
    let (mut ctx, caster, rats) = a_row(&[101, 102]);
    let chain = a_chain(Some(Box::new(a_chain(None))));
    let leap = leap(
        &mut ctx,
        caster,
        &vec![(Position::new(101, 100, 7), a_hit(40))],
        &vec![20],
        &chain,
        vec![rats[0]],
    );
    ctx.events.clear();

    follow_chain(&mut ctx, caster, &chain, leap);

    assert!(matches!(
        ctx.events.as_slice(),
        [BroadcastMessage::AreaEffectAppeared { area_effect }]
            if *area_effect == AreaEffect::single(EffectId(6), Position::new(102, 100, 7))
    ));
    assert!(matches!(
        ctx.scheduled.as_slice(),
        [ScheduledCommand {
            at_tick: Tick(13),
            command: WorldCommand::ChainAttack { sources, targeted, .. },
        }] if *sources == vec![(Position::new(102, 100, 7), a_hit(20))]
            && *targeted == vec![rats[0], rats[1]]
    ));
}

#[test]
fn an_attack_that_leaps_books_its_first_leap_from_the_first_it_hits() {
    let (mut ctx, caster, rats) = a_row(&[101]);
    let zero = FloatBits(0);
    let mut attack = SpellAttack {
        target: TargetMode::Target { range: 7 },
        element: CombatElement::Energy,
        power: PowerCurve {
            base_power: zero,
            level_factor: zero,
            magic_factor: zero,
            melee_factor: zero,
            spread_min: zero,
            spread_max: zero,
            flat: zero,
        },
        effect_id: EffectId(1),
        missile_id: None,
        chain: None,
        weapon_required: false,
    };
    attack_spell(&mut ctx, caster, &attack, Some((rats[0], a_hit(40))));
    assert!(ctx.scheduled.is_empty());

    attack.chain = Some(a_chain(None));
    attack_spell(&mut ctx, caster, &attack, None);
    assert!(ctx.scheduled.is_empty());
    attack_spell(&mut ctx, caster, &attack, Some((rats[0], a_hit(40))));
    assert!(matches!(
        ctx.scheduled.as_slice(),
        [ScheduledCommand {
            at_tick: Tick(13),
            command: WorldCommand::ChainAttack { attacker, sources, targeted, .. },
        }] if *attacker == caster
            && *sources == vec![(Position::new(101, 100, 7), a_hit(40))]
            && *targeted == vec![rats[0]]
    ));
}

#[test]
fn a_cast_is_tried_paid_for_trained_and_reported() {
    let (map, caster) = a_caster_at(&Position::new(100, 100, 7));

    let ctx = cast_spell(
        TickCtx::new(WorldMap::new(map), Tick(10)),
        caster,
        Some(&a_spell(30, 1)),
        &|mut ctx: TickCtx, _: &Spell| {
            ctx.tell(BroadcastMessage::AttackMissed { position: Position::new(1, 1, 1) });
            (ctx, Ok(()))
        },
        &|mut ctx: TickCtx, amount: u64| {
            assert_eq!(amount, 30);
            ctx.tell(BroadcastMessage::AttackMissed { position: Position::new(2, 2, 2) });
            ctx
        },
        &game_config(),
    );

    assert!(matches!(
        ctx.events.as_slice(),
        [
            BroadcastMessage::AttackMissed { .. },
            BroadcastMessage::PlayerManaUpdated { .. },
            BroadcastMessage::AttackMissed { .. },
            BroadcastMessage::SpellCast { spell_id: SpellId(1), .. },
        ]
    ));
    assert_eq!(ctx.map.map().get_agent(caster).unwrap().mana.current, 70);
}

#[test]
fn a_cast_that_fails_or_is_refused_leaves_only_its_denial() {
    let (map, caster) = a_caster_at(&Position::new(100, 100, 7));
    let untrained = |_: TickCtx, _: u64| -> TickCtx { panic!("nothing was cast") };

    let ctx = cast_spell(
        TickCtx::new(WorldMap::new(map), Tick(10)),
        caster,
        Some(&a_spell(30, 1)),
        &|mut ctx: TickCtx, _: &Spell| {
            ctx.tell(BroadcastMessage::AttackMissed { position: Position::new(1, 1, 1) });
            (ctx, Err(SpellCastingDenyReason::NoWeapon))
        },
        &untrained,
        &game_config(),
    );
    assert_eq!(ctx.events.len(), 1);
    assert_eq!(denial(&ctx), Some(SpellCastingDenyReason::NoWeapon));

    let ctx = cast_spell(
        ctx,
        caster,
        None,
        &|_: TickCtx, _: &Spell| panic!("there is no such spell"),
        &untrained,
        &game_config(),
    );
    assert_eq!(ctx.events.len(), 2);
    assert_eq!(denial(&ctx), Some(SpellCastingDenyReason::IdNotFound));
}

#[test]
fn a_leap_is_dealt_before_it_is_shown_and_goes_on() {
    let (ctx, caster, rats) = a_row(&[101, 102]);

    let ctx = chain_attack(
        ctx,
        caster,
        &vec![(Position::new(101, 100, 7), a_hit(40))],
        &vec![20],
        &a_chain(Some(Box::new(a_chain(None)))),
        vec![rats[0]],
        &|mut ctx: TickCtx, plan: AttackPlan| {
            assert_eq!(plan.attacker, caster);
            assert_eq!(plan.damage, vec![(rats[1], a_hit(20))]);
            ctx.tell(BroadcastMessage::AttackMissed { position: Position::new(1, 1, 1) });
            ctx
        },
    );

    assert!(matches!(
        ctx.events.as_slice(),
        [
            BroadcastMessage::MissileLaunched { .. },
            BroadcastMessage::AttackMissed { .. },
            BroadcastMessage::AreaEffectAppeared { .. },
        ]
    ));
    assert_eq!(ctx.scheduled.len(), 1);
}
