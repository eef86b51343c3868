//! What creatures can do besides fighting.

use crate::entities::agent::{group_pause, group_ready, group_stamped, AgentKey, BodyView};
use crate::entities::combat::{AttackPlan, Bounds, CombatDamage};
use crate::entities::conditions::ConditionSpec;
use crate::entities::creature::{AbilityEffect, CreatureAbilityId, CreatureDamage};
use crate::entities::effects::{AreaEffect, AreaEffectView, EffectId, Missile, MissileId};
use crate::entities::healing::{HealPlan, Restore};
use crate::entities::map::{GameMap, MapView};
use crate::entities::position::Position;
use crate::entities::spells::SpellGroup;
use crate::entities::targeting::{AreaTarget, TargetFilter, TargetMode};
use crate::game::conditions::{agent_of, agent_written};
use crate::game::config::GameConfig;
use crate::game::ctx::{carries_on, told, TickCtx, TickView};
use crate::game::events::{BroadcastMessage, EventView};
use crate::game::spells::{
    decides, resolve_targets, targets_of, ResolvedTargets, TargetsView,
};
use vstd::prelude::*;

verus! {

/// Whom an ability strikes, and what is seen of it.
#[derive(Debug)]
pub struct AbilityStrike {
    pub targets: Vec<AgentKey>,
    pub missile: Option<Missile>,
    pub area_effect: Option<AreaEffect>,
}

pub struct StrikeView {
    pub targets: Seq<AgentKey>,
    pub missile: Option<Missile>,
    pub area_effect: Option<AreaEffectView>,
}

pub open spec fn optional_effect(effect: Option<AreaEffect>) -> Option<AreaEffectView> {
    match effect {
        Some(effect) => Some(effect@),
        None => None,
    }
}

impl View for AbilityStrike {
    type V = StrikeView;

    open spec fn view(&self) -> StrikeView {
        StrikeView {
            targets: self.targets@,
            missile: self.missile,
            area_effect: optional_effect(self.area_effect),
        }
    }
}

/// Those of the first `n` that are not the creature itself.
pub open spec fn others_among(keys: Seq<AgentKey>, creature: AgentKey, n: nat) -> Seq<AgentKey>
    decreases n,
{
    if n == 0 {
        Seq::empty()
    } else {
        let before = others_among(keys, creature, (n - 1) as nat);
        if keys[n - 1] != creature {
            before.push(keys[n - 1])
        } else {
            before
        }
    }
}

/// Whom an ability strikes that is aimed at the creature's target: players only, and never itself.
pub open spec fn strike_of<F: Fn(Position, Position) -> bool, G: Fn(Position, Position) -> bool>(
    m: MapView,
    creature: AgentKey,
    mode: TargetMode,
    effect_id: Option<EffectId>,
    missile_id: Option<MissileId>,
    can_throw: F,
    can_target: G,
) -> Option<StrikeView> {
    if !m.agents.contains_key(creature.0) || !m.positions.contains_key(creature.0) {
        None
    } else {
        match m.agents[creature.0].target {
            None => None,
            Some(aimed_at) => match targets_of(
                m,
                creature,
                mode,
                AreaTarget::Agent(aimed_at),
                None,
                TargetFilter::Players,
                can_throw,
                can_target,
            ) {
                Err(_) => None,
                Ok(targets) => Some(
                    StrikeView {
                        targets: others_among(targets.keys, creature, targets.keys.len()),
                        missile: match (missile_id, targets.aim) {
                            (Some(missile_id), Some(to)) => Some(
                                Missile { missile_id, from: m.positions[creature.0], to },
                            ),
                            _ => None,
                        },
                        area_effect: match (targets.delta, targets.aim, effect_id) {
                            (Some(delta), Some(origin), Some(effect_id)) => Some(
                                AreaEffectView { effect_id, origin, delta },
                            ),
                            _ => None,
                        },
                    },
                ),
            },
        }
    }
}

pub open spec fn optional_strike(strike: Option<AbilityStrike>) -> Option<StrikeView> {
    match strike {
        Some(strike) => Some(strike@),
        None => None,
    }
}

/// Whom an ability strikes, where it strikes anybody.
pub fn resolve_strike<F: Fn(Position, Position) -> bool, G: Fn(Position, Position) -> bool>(
    map: &GameMap,
    creature: AgentKey,
    mode: &TargetMode,
    effect_id: Option<EffectId>,
    missile_id: Option<MissileId>,
    can_throw: &F,
    can_target: &G,
) -> (r: Option<AbilityStrike>)
    requires
        map.wf(),
        decides(*can_throw),
        decides(*can_target),
    ensures
        optional_strike(r) == strike_of(
            map@,
            creature,
            *mode,
            effect_id,
            missile_id,
            *can_throw,
            *can_target,
        ),
{
    let aimed_at: AgentKey = match map.get_agent(creature) {
        Some(agent) => match agent.target {
            Some(target) => target,
            None => return None,
        },
        None => return None,
    };
    let from: Position = match map.agent_position(creature) {
        Some(from) => from,
        None => return None,
    };
    let targets = match resolve_targets(
        map,
        creature,
        mode,
        &AreaTarget::Agent(aimed_at),
        &None,
        TargetFilter::Players,
        can_throw,
        can_target,
    ) {
        Ok(targets) => targets,
        Err(_) => return None,
    };
    let mut others: Vec<AgentKey> = Vec::new();
    let mut i: usize = 0;
    while i < targets.keys.len()
        invariant
            i <= targets.keys@.len(),
            others@ == others_among(targets.keys@, creature, i as nat),
        decreases targets.keys.len() - i,
    {
        if targets.keys[i] != creature {
            others.push(targets.keys[i]);
        }
        i += 1;
    }
    let missile: Option<Missile> = match (missile_id, targets.aim) {
        (Some(missile_id), Some(to)) => Some(Missile { missile_id, from, to }),
        _ => None,
    };
    let area_effect: Option<AreaEffect> = match (targets.delta, targets.aim, effect_id) {
        (Some(delta), Some(origin), Some(effect_id)) => Some(
            AreaEffect { effect_id, origin, delta },
        ),
        _ => None,
    };
    Some(AbilityStrike { targets: others, missile, area_effect })
}

/// Each of the first `n` is hit by the same.
pub open spec fn each_hit(targets: Seq<AgentKey>, damage: CombatDamage) -> Seq<
    (AgentKey, CombatDamage),
> {
    Seq::new(targets.len(), |i: int| (targets[i], damage))
}

/// The attack that a strike comes to, where `value` was rolled for its damage: everybody is hit by
/// the same.
pub fn plan_ability_attack(creature: AgentKey, strike: AbilityStrike, damage: &CreatureDamage, value: u32) -> (plan:
    AttackPlan)
    ensures
        plan.attacker == creature,
        plan.damage@ == each_hit(strike.targets@, CombatDamage::plain(damage.element, value)),
        plan.missile == strike.missile,
        plan.area_effect == strike.area_effect,
        !plan.missed,
        plan.condition == damage.condition,
{
    let hit: CombatDamage = CombatDamage::unblocked(damage.element, value);
    let mut hits: Vec<(AgentKey, CombatDamage)> = Vec::new();
    let mut i: usize = 0;
    while i < strike.targets.len()
        invariant
            i <= strike.targets@.len(),
            hits@ == each_hit(strike.targets@, hit).take(i as int),
        decreases strike.targets.len() - i,
    {
        let ghost all = each_hit(strike.targets@, hit);
        hits.push((strike.targets[i], hit));
        assert(all.take(i + 1) =~= all.take(i as int).push(all[i as int]));
        i += 1;
    }
    assert(hits@ =~= each_hit(strike.targets@, hit));
    AttackPlan {
        attacker: creature,
        damage: hits,
        missile: strike.missile,
        area_effect: strike.area_effect,
        missed: false,
        condition: damage.condition,
    }
}

/// The healing that an ability comes to, where `life` was rolled for it: the creature's own life.
pub fn plan_creature_heal(creature: AgentKey, life: u32) -> (plan: HealPlan)
    ensures
        plan.caster == creature,
        plan.restores@ == seq![(creature, Restore { life: Some(life), mana: None })],
{
    let mut restores: Vec<(AgentKey, Restore)> = Vec::new();
    restores.push((creature, Restore { life: Some(life), mana: None }));
    assert(restores@ =~= seq![(creature, Restore { life: Some(life), mana: None })]);
    HealPlan { caster: creature, restores }
}

/// What an ability does next.
#[derive(Debug)]
pub enum AbilityStep {
    /// A strike, whose damage has yet to be rolled.
    Attack { strike: AbilityStrike, damage: CreatureDamage },
    /// A healing between these bounds.
    Heal(Bounds),
    /// What supports is cast on these.
    Support(ResolvedTargets),
    /// These are wounded.
    Condition { targets: Vec<AgentKey>, condition: ConditionSpec },
    /// Nobody is there to do it to.
    Fizzle,
}

pub enum AbilityStepView {
    Attack { strike: StrikeView, damage: CreatureDamage },
    Heal(Bounds),
    Support(TargetsView),
    Condition { targets: Seq<AgentKey>, condition: ConditionSpec },
    Fizzle,
}

impl View for AbilityStep {
    type V = AbilityStepView;

    open spec fn view(&self) -> AbilityStepView {
        match *self {
            AbilityStep::Attack { strike, damage } => AbilityStepView::Attack {
                strike: strike@,
                damage,
            },
            AbilityStep::Heal(bounds) => AbilityStepView::Heal(bounds),
            AbilityStep::Support(targets) => AbilityStepView::Support(targets@),
            AbilityStep::Condition { targets, condition } => AbilityStepView::Condition {
                targets: targets@,
                condition,
            },
            AbilityStep::Fizzle => AbilityStepView::Fizzle,
        }
    }
}

/// With a strike's missile and its effect shown.
pub open spec fn strike_shown(w: TickView, strike: StrikeView) -> TickView {
    let launched = match strike.missile {
        Some(missile) => told(w, EventView::MissileLaunched { missile }),
        None => w,
    };
    match strike.area_effect {
        Some(area_effect) => told(launched, EventView::AreaEffectAppeared { area_effect }),
        None => launched,
    }
}

/// What a creature can do under this number.
pub open spec fn ability_of(w: TickView, key: AgentKey, id: CreatureAbilityId) -> Option<AbilityEffect> {
    match agent_of(w, key) {
        Some(a) => match a.body {
            BodyView::Creature(kind) => if id.0 < kind.abilities@.len() {
                Some(kind.abilities@[id.0 as int])
            } else {
                None
            },
            BodyView::Player(_) => None,
        },
        None => None,
    }
}

/// What an ability comes to, and what it does next. Only a wounding is shown before it is done.
pub open spec fn ability_begun<
    F: Fn(Position, Position) -> bool,
    G: Fn(Position, Position) -> bool,
>(
    w: TickView,
    key: AgentKey,
    effect: AbilityEffect,
    can_throw: F,
    can_target: G,
) -> (TickView, AbilityStepView) {
    let m = w.world.map;
    match effect {
        AbilityEffect::Attack(attack) => match strike_of(
            m,
            key,
            attack.target,
            attack.effect_id,
            attack.missile_id,
            can_throw,
            can_target,
        ) {
            Some(strike) => (w, AbilityStepView::Attack { strike, damage: attack.damage }),
            None => (w, AbilityStepView::Fizzle),
        },
        AbilityEffect::Heal(bounds) => (w, AbilityStepView::Heal(bounds)),
        AbilityEffect::Support(cast) => match targets_of(
            m,
            key,
            cast.target,
            match m.agents[key.0].target {
                Some(target) => AreaTarget::Agent(target),
                None => AreaTarget::NoTarget,
            },
            None,
            TargetFilter::Players,
            can_throw,
            can_target,
        ) {
            Ok(targets) => (w, AbilityStepView::Support(targets)),
            Err(_) => (w, AbilityStepView::Fizzle),
        },
        AbilityEffect::Condition(attack) => match strike_of(
            m,
            key,
            attack.target,
            attack.effect_id,
            attack.missile_id,
            can_throw,
            can_target,
        ) {
            Some(strike) => (
                strike_shown(w, strike),
                AbilityStepView::Condition {
                    targets: strike.targets,
                    condition: attack.condition,
                },
            ),
            None => (w, AbilityStepView::Fizzle),
        },
    }
}

/// Begins an ability of a creature, and says what it does next and which group has to wait for it.
/// Once that is done, `finish_ability` makes the group wait.
pub fn begin_ability<F: Fn(Position, Position) -> bool, G: Fn(Position, Position) -> bool>(
    ctx: &mut TickCtx,
    agent_key: AgentKey,
    ability_id: CreatureAbilityId,
    can_throw: &F,
    can_target: &G,
) -> (r: Option<(SpellGroup, AbilityStep)>)
    requires
        old(ctx).wf(),
        decides(*can_throw),
        decides(*can_target),
    ensures
        final(ctx).wf(),
        match ability_of(old(ctx)@, agent_key, ability_id) {
            None => r is None && final(ctx)@ == old(ctx)@,
            Some(effect) => {
                &&& r matches Some((group, step))
                &&& group == effect.group()
                &&& (final(ctx)@, step@) == ability_begun(
                    old(ctx)@,
                    agent_key,
                    effect,
                    *can_throw,
                    *can_target,
                )
            },
        },
{
    let map = ctx.map.map();
    let agent = match map.get_agent(agent_key) {
        Some(agent) => agent,
        None => return None,
    };
    let kind = match agent.creature_kind() {
        Some(kind) => kind,
        None => return None,
    };
    let effect = match kind.get_ability_effect(ability_id) {
        Some(effect) => effect,
        None => return None,
    };
    let group: SpellGroup = effect.cooldown_group();
    match effect {
        AbilityEffect::Attack(attack) => {
            let step = match resolve_strike(
                map,
                agent_key,
                &attack.target,
                attack.effect_id,
                attack.missile_id,
                can_throw,
                can_target,
            ) {
                Some(strike) => AbilityStep::Attack { strike, damage: attack.damage },
                None => AbilityStep::Fizzle,
            };
            Some((group, step))
        },
        AbilityEffect::Heal(bounds) => Some((group, AbilityStep::Heal(*bounds))),
        AbilityEffect::Support(cast) => {
            let aimed_at: AreaTarget = match agent.target {
                Some(target) => AreaTarget::Agent(target),
                None => AreaTarget::NoTarget,
            };
            let step = match resolve_targets(
                map,
                agent_key,
                &cast.target,
                &aimed_at,
                &None,
                TargetFilter::Players,
                can_throw,
                can_target,
            ) {
                Ok(targets) => AbilityStep::Support(targets),
                Err(_) => AbilityStep::Fizzle,
            };
            Some((group, step))
        },
        AbilityEffect::Condition(attack) => {
            let condition: ConditionSpec = attack.condition;
            let strike = match resolve_strike(
                map,
                agent_key,
                &attack.target,
                attack.effect_id,
                attack.missile_id,
                can_throw,
                can_target,
            ) {
                Some(strike) => strike,
                None => return Some((group, AbilityStep::Fizzle)),
            };
            if let Some(missile) = strike.missile {
                ctx.tell(BroadcastMessage::MissileLaunched { missile });
            }
            if let Some(area_effect) = strike.area_effect {
                ctx.tell(BroadcastMessage::AreaEffectAppeared { area_effect });
            }
            Some((group, AbilityStep::Condition { targets: strike.targets, condition }))
        },
    }
}

/// The world after an ability: its group has to wait, where the creature is still there.
pub open spec fn ability_finished(w: TickView, key: AgentKey, group: SpellGroup, config: GameConfig) -> TickView {
    match agent_of(w, key) {
        Some(a) => agent_written(
            w,
            key,
            group_stamped(a, w.tick, group, None, config),
            w.world.delta,
        ),
        None => w,
    }
}

/// Makes the group of an ability wait.
pub fn finish_ability(ctx: &mut TickCtx, agent_key: AgentKey, group: SpellGroup, config: &GameConfig)
    requires
        old(ctx).wf(),
        old(ctx).tick.0 + group_pause(group, None, *config) <= u64::MAX,
    ensures
        final(ctx).wf(),
        final(ctx)@ == ability_finished(old(ctx)@, agent_key, group, *config),
{
    let tick = ctx.tick;
    if let Some(mut agent) = ctx.map.agent_mut(agent_key) {
        agent.stamp_spell_group(tick, group, None, config);
    }
}

/// From `before` to `after` a creature used an ability: it began, what it does was done, unless
/// it fizzled, and its group has to wait.
pub open spec fn ability_used<
    F: Fn(Position, Position) -> bool,
    G: Fn(Position, Position) -> bool,
    X: Fn(TickCtx, AbilityStep) -> TickCtx,
>(
    before: TickView,
    after: TickView,
    key: AgentKey,
    effect: AbilityEffect,
    can_throw: F,
    can_target: G,
    perform: X,
    config: GameConfig,
) -> bool {
    exists|begun: TickCtx, step: AbilityStep, done: TickCtx|
        {
            &&& (begun@, step@) == ability_begun(before, key, effect, can_throw, can_target)
            &&& #[trigger] performs(perform, begun, step, done)
            &&& after == ability_finished(done@, key, effect.group(), config)
        }
}

/// What an ability does next was done, where there is something to do.
pub open spec fn performs<X: Fn(TickCtx, AbilityStep) -> TickCtx>(
    perform: X,
    begun: TickCtx,
    step: AbilityStep,
    done: TickCtx,
) -> bool {
    if step is Fizzle {
        done == begun
    } else {
        perform.ensures((begun, step), done)
    }
}

/// A creature uses an ability, where it has one under this number. `perform` does what the
/// ability does next.
pub fn cast_ability<
    F: Fn(Position, Position) -> bool,
    G: Fn(Position, Position) -> bool,
    X: Fn(TickCtx, AbilityStep) -> TickCtx,
>(
    ctx: TickCtx,
    agent_key: AgentKey,
    ability_id: CreatureAbilityId,
    can_throw: &F,
    can_target: &G,
    perform: &X,
    config: &GameConfig,
) -> (after: TickCtx)
    requires
        ctx.wf(),
        decides(*can_throw),
        decides(*can_target),
        carries_on(*perform),
        forall|group: SpellGroup| #[trigger]
            group_pause(group, None, *config) + ctx.tick.0 <= u64::MAX,
    ensures
        after.wf(),
        match ability_of(ctx@, agent_key, ability_id) {
            None => after@ == ctx@,
            Some(effect) => ability_used(
                ctx@,
                after@,
                agent_key,
                effect,
                *can_throw,
                *can_target,
                *perform,
                *config,
            ),
        },
{
    let ghost first = ctx;
    let mut ctx: TickCtx = ctx;
    let (group, step): (SpellGroup, AbilityStep) = match begin_ability(
        &mut ctx,
        agent_key,
        ability_id,
        can_throw,
        can_target,
    ) {
        Some(begun) => begun,
        None => return ctx,
    };
    let ghost begun = ctx;
    let ghost next = step;
    if !matches!(step, AbilityStep::Fizzle) {
        ctx = perform(ctx, step);
    }
    let ghost done = ctx;
    assert(performs(*perform, begun, next, done));
    assert(begun.tick == first.tick);
    finish_ability(&mut ctx, agent_key, group, config);
    ctx
}

/// An ability makes only its own group wait: a healing does not hold up an attack.
pub proof fn law_an_ability_holds_up_its_own_group_only(
    w: TickView,
    key: AgentKey,
    group: SpellGroup,
    other: SpellGroup,
    config: GameConfig,
)
    requires
        agent_of(w, key) is Some,
        other != group,
    ensures
        group_ready(
            ability_finished(w, key, group, config).world.map.agents[key.0],
            other,
        ) == group_ready(w.world.map.agents[key.0], other),
{
}

/// No ability strikes the creature that has it.
pub proof fn law_a_creature_never_strikes_itself(keys: Seq<AgentKey>, creature: AgentKey, n: nat)
    ensures
        !others_among(keys, creature, n).contains(creature),
    decreases n,
{
    if n > 0 {
        law_a_creature_never_strikes_itself(keys, creature, (n - 1) as nat);
        let before = others_among(keys, creature, (n - 1) as nat);
        let after = others_among(keys, creature, n);
        if after.contains(creature) {
            let i = after.index_of(creature);
            if i < before.len() {
                assert(before[i] == creature);
                assert(before.contains(creature));
            }
        }
    }
}

proof fn lemma_others_among(keys: Seq<AgentKey>, creature: AgentKey, n: nat, key: AgentKey)
    requires
        n <= keys.len(),
    ensures
        others_among(keys, creature, n).contains(key) <==> keys.take(n as int).contains(key) && key
            != creature,
    decreases n,
{
    if n > 0 {
        lemma_others_among(keys, creature, (n - 1) as nat, key);
        let before = others_among(keys, creature, (n - 1) as nat);
        let after = others_among(keys, creature, n);
        let last = keys[n - 1];
        assert(keys.take(n as int) =~= keys.take(n - 1).push(last));
        if keys.take(n - 1).contains(key) {
            assert(keys.take(n as int)[keys.take(n - 1).index_of(key)] == key);
        }
        assert(keys.take(n as int)[n - 1] == last);
        if before.contains(key) {
            assert(after[before.index_of(key)] == key);
        }
        if last != creature {
            assert(after[before.len() as int] == last);
        }
        if after.contains(key) {
            let i = after.index_of(key);
            if i < before.len() {
                assert(before[i] == key);
            }
        }
    }
}

/// A strike is aimed at whom the creature fights and reaches just the players that a cast of its
/// kind at that one reaches, but never the creature itself. It flies from the creature to where it
/// is aimed and shows there. A creature that fights nobody strikes nobody.
pub proof fn law_a_strike_is_aimed_at_whom_it_fights<
    F: Fn(Position, Position) -> bool,
    G: Fn(Position, Position) -> bool,
>(
    m: MapView,
    creature: AgentKey,
    mode: TargetMode,
    effect_id: Option<EffectId>,
    missile_id: Option<MissileId>,
    can_throw: F,
    can_target: G,
    key: AgentKey,
)
    requires
        m.agents.contains_key(creature.0),
        m.positions.contains_key(creature.0),
    ensures
        ({
            let strike = strike_of(
                m,
                creature,
                mode,
                effect_id,
                missile_id,
                can_throw,
                can_target,
            );
            match m.agents[creature.0].target {
                None => strike is None,
                Some(fought) => match targets_of(
                    m,
                    creature,
                    mode,
                    AreaTarget::Agent(fought),
                    None,
                    TargetFilter::Players,
                    can_throw,
                    can_target,
                ) {
                    Err(_) => strike is None,
                    Ok(reached) => strike matches Some(s) && (s.targets.contains(key)
                        <==> reached.keys.contains(key) && key != creature) && (match s.missile {
                        Some(missile) => Some(missile.missile_id) == missile_id && missile.from
                            == m.positions[creature.0] && Some(missile.to) == reached.aim,
                        None => missile_id is None || reached.aim is None,
                    }) && (match s.area_effect {
                        Some(effect) => Some(effect.effect_id) == effect_id && Some(effect.origin)
                            == reached.aim && Some(effect.delta) == reached.delta,
                        None => effect_id is None || reached.aim is None || reached.delta is None,
                    }),
                },
            }
        }),
{
    if let Some(fought) = m.agents[creature.0].target {
        if let Ok(reached) = targets_of(
            m,
            creature,
            mode,
            AreaTarget::Agent(fought),
            None,
            TargetFilter::Players,
            can_throw,
            can_target,
        ) {
            lemma_others_among(reached.keys, creature, reached.keys.len(), key);
            assert(reached.keys.take(reached.keys.len() as int) =~= reached.keys);
        }
    }
}

/// An ability does what it is: an attack and a wounding strike, with the damage and the wound they
/// have, a healing heals as much as it may, and a support is cast on the players it is for. Only a
/// wounding is shown before it is done: its missile first and then where it lands.
pub proof fn law_an_ability_does_what_it_is<
    F: Fn(Position, Position) -> bool,
    G: Fn(Position, Position) -> bool,
>(w: TickView, key: AgentKey, effect: AbilityEffect, can_throw: F, can_target: G)
    requires
        agent_of(w, key) is Some,
    ensures
        ({
            let (later, step) = ability_begun(w, key, effect, can_throw, can_target);
            &&& later.world == w.world && later.scheduled == w.scheduled
            &&& !(effect is Condition) ==> later == w
            &&& step matches AbilityStepView::Attack { damage, .. } ==> (effect matches AbilityEffect::Attack(
                attack,
            ) && damage == attack.damage)
            &&& step matches AbilityStepView::Heal(bounds) ==> effect == AbilityEffect::Heal(bounds)
            &&& step matches AbilityStepView::Support(_) ==> effect is Support
            &&& step matches AbilityStepView::Condition { targets, condition } ==> (effect matches AbilityEffect::Condition(
                attack,
            ) && condition == attack.condition && (strike_of(
                w.world.map,
                key,
                attack.target,
                attack.effect_id,
                attack.missile_id,
                can_throw,
                can_target,
            ) matches Some(strike) && strike.targets == targets && later.events == w.events + (
            match strike.missile {
                Some(missile) => seq![EventView::MissileLaunched { missile }],
                None => Seq::empty(),
            }) + (match strike.area_effect {
                Some(area_effect) => seq![EventView::AreaEffectAppeared { area_effect }],
                None => Seq::empty(),
            })))
            &&& step is Fizzle ==> later == w && !(effect is Heal)
        }),
{
    if let AbilityEffect::Condition(attack) = effect {
        if let Some(strike) = strike_of(
            w.world.map,
            key,
            attack.target,
            attack.effect_id,
            attack.missile_id,
            can_throw,
            can_target,
        ) {
            let shown = strike_shown(w, strike).events;
            assert(shown =~= w.events + (match strike.missile {
                Some(missile) => seq![EventView::MissileLaunched { missile }],
                None => Seq::empty(),
            }) + (match strike.area_effect {
                Some(area_effect) => seq![EventView::AreaEffectAppeared { area_effect }],
                None => Seq::empty(),
            }));
        }
    }
}

/// After an ability its group waits as long as such a group does, from now on.
pub proof fn law_an_ability_makes_its_group_wait(
    w: TickView,
    key: AgentKey,
    group: SpellGroup,
    config: GameConfig,
)
    requires
        agent_of(w, key) is Some,
        w.tick.0 + config.combat.attack_group_cooldown.0 <= u64::MAX,
        w.tick.0 + config.combat.healing_group_cooldown.0 <= u64::MAX,
        w.tick.0 + config.combat.support_group_cooldown.0 <= u64::MAX,
    ensures
        ({
            let later = ability_finished(w, key, group, config);
            &&& agent_of(later, key) matches Some(after) && group_ready(after, group).0 == w.tick.0
                + (match group {
                SpellGroup::Attack => config.combat.attack_group_cooldown.0,
                SpellGroup::Healing => config.combat.healing_group_cooldown.0,
                SpellGroup::Support => config.combat.support_group_cooldown.0,
            }) && after.life == agent_of(w, key).unwrap().life
            &&& later.events == w.events && later.scheduled == w.scheduled
        }),
{
}

/// A creature has just the abilities of its kind, each under its number; a player has none.
pub proof fn law_only_creatures_have_abilities(w: TickView, key: AgentKey, id: CreatureAbilityId)
    requires
        agent_of(w, key) is Some,
    ensures
        agent_of(w, key).unwrap().body is Player ==> ability_of(w, key, id) is None,
        agent_of(w, key).unwrap().body matches BodyView::Creature(kind) ==> (if id.0
            < kind.abilities@.len() {
            ability_of(w, key, id) == Some(kind.abilities@[id.0 as int])
        } else {
            ability_of(w, key, id) is None
        }),
{
}

} // verus!
