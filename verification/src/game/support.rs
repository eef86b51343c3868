//! Spells and abilities that change an agent's speed, shield it or cure it.

use crate::actors::world::{CommandView, ScheduledView, WorldCommand};
use crate::entities::agent::{AgentKey, AgentView, BodyView};
use crate::entities::conditions::{
    condition_of, generation_of, kind_of, law_conditions_do_not_disturb_each_other, lemma_with,
    one_of_each, place_of, under, until_of, with, without, Condition, ConditionKind, SpeedEffect,
};
use crate::entities::combat::CombatElement;
use crate::entities::effects::{single_effect, AreaEffect, EffectId, Missile};
use crate::entities::position::Position;
use crate::entities::support::{SupportCast, SupportEffect};
use crate::entities::world_map::shielded;
use crate::game::conditions::{agent_of, condition_written};
use crate::game::ctx::{booked, told, TickCtx, TickView};
use crate::game::events::{BroadcastMessage, EventView};
use crate::game::spells::ResolvedTargets;
use crate::game::tick::{Tick, TickDelta};
use vstd::prelude::*;

verus! {

/// The speed change that a roll comes to. The two ends may come in either order; a haste never
/// slows down and a paralysis never speeds up.
pub open spec fn speed_change_of(effect: SpeedEffect, a: int, b: int, rolled: int) -> int {
    let low = if a <= b {
        a
    } else {
        b
    };
    let change = low + rolled;
    let bounded = match effect {
        SpeedEffect::Haste => if change < 0 {
            0
        } else {
            change
        },
        SpeedEffect::Paralysis => if change > 0 {
            0
        } else {
            change
        },
    };
    if bounded < i16::MIN {
        i16::MIN as int
    } else if bounded > i16::MAX {
        i16::MAX as int
    } else {
        bounded
    }
}

/// How far the two ends of a speed roll lie apart: what is to be rolled runs from nothing to this.
pub fn speed_span(a: i32, b: i32) -> (span: u32)
    ensures
        span == if a <= b {
            b - a
        } else {
            a - b
        },
{
    let (low, high): (i64, i64) = if a <= b {
        (a as i64, b as i64)
    } else {
        (b as i64, a as i64)
    };
    (high - low) as u32
}

/// The speed change that a roll of `rolled` between the ends `a` and `b` comes to.
pub fn roll_speed_change(effect: SpeedEffect, a: i32, b: i32, rolled: u32) -> (change: i16)
    ensures
        change == speed_change_of(effect, a as int, b as int, rolled as int),
{
    let low: i64 = if a <= b {
        a as i64
    } else {
        b as i64
    };
    let change: i64 = low + rolled as i64;
    let bounded: i64 = match effect {
        SpeedEffect::Haste => if change < 0 {
            0
        } else {
            change
        },
        SpeedEffect::Paralysis => if change > 0 {
            0
        } else {
            change
        },
    };
    if bounded < i16::MIN as i64 {
        i16::MIN
    } else if bounded > i16::MAX as i64 {
        i16::MAX
    } else {
        bounded as i16
    }
}

/// A paralysis never raises speed and a haste never lowers it, and a roll within the span of its
/// ends stays between them, as far as the effect lets it.
pub proof fn law_speed_changes_keep_their_sign(effect: SpeedEffect, a: int, b: int, rolled: int)
    requires
        0 <= rolled <= if a <= b {
            b - a
        } else {
            a - b
        },
    ensures
        effect is Paralysis ==> speed_change_of(effect, a, b, rolled) <= 0,
        effect is Haste ==> speed_change_of(effect, a, b, rolled) >= 0,
        ({
            let low = if a <= b {
                a
            } else {
                b
            };
            let high = if a <= b {
                b
            } else {
                a
            };
            let change = speed_change_of(effect, a, b, rolled);
            i16::MIN <= low && high <= i16::MAX && (effect is Haste ==> low >= 0) && (
            effect is Paralysis ==> high <= 0) ==> low <= change <= high
        }),
{
}

/// An effect does nothing to this agent.
pub open spec fn immune(a: AgentView, effect: SpeedEffect) -> bool {
    effect is Paralysis && (a.body matches BodyView::Creature(kind) && kind.immune_to_paralysis)
}

/// The world after a supporting effect on an agent, where `change` is what was rolled for its
/// speed.
pub open spec fn supported(w: TickView, target: AgentKey, effect: SupportEffect, change: i16) -> TickView {
    match agent_of(w, target) {
        None => w,
        Some(a) => match effect {
            SupportEffect::Speed { effect, duration, .. } => if immune(a, effect) {
                w
            } else if !w.world.map.positions.contains_key(target.0) {
                w
            } else {
                let generation = a.next_generation;
                let after = AgentView {
                    conditions: without(a.conditions, ConditionKind::Speed).push(
                        Condition::Speed { effect, change, generation },
                    ),
                    next_generation: (generation + 1) as u32,
                    ..a
                };
                told(
                    booked(
                        condition_written(w, target, a, after),
                        ScheduledView {
                            at_tick: Tick((w.tick.0 + duration.0) as u64),
                            command: CommandView::SpeedExpired { agent_key: target, generation },
                        },
                    ),
                    EventView::AgentSpeedChanged {
                        agent_key: target,
                        position: w.world.map.positions[target.0],
                    },
                )
            },
            SupportEffect::MagicShield { duration } => {
                let until = Tick((w.tick.0 + duration.0) as u64);
                condition_written(
                    w,
                    target,
                    a,
                    AgentView { conditions: shielded(a.conditions, until), ..a },
                )
            },
            SupportEffect::Cure { element } => condition_written(
                w,
                target,
                a,
                AgentView {
                    conditions: without(a.conditions, ConditionKind::Damage(element)),
                    ..a
                },
            ),
        },
    }
}

/// How long an effect lasts.
pub open spec fn lasting(effect: SupportEffect) -> int {
    match effect {
        SupportEffect::Speed { duration, .. } => duration.0 as int,
        SupportEffect::MagicShield { duration } => duration.0 as int,
        SupportEffect::Cure { .. } => 0,
    }
}

/// The agent can be given one more condition.
pub open spec fn supportable(w: TickView, target: AgentKey) -> bool {
    agent_of(w, target) matches Some(a) ==> a.next_generation < u32::MAX
}

/// Does to an agent what a supporting effect does. `change` is what was rolled for its speed.
pub fn apply_support(ctx: &mut TickCtx, target: AgentKey, effect: &SupportEffect, change: i16)
    requires
        old(ctx).wf(),
        supportable(old(ctx)@, target),
        old(ctx).tick.0 + lasting(*effect) <= u64::MAX,
    ensures
        final(ctx).wf(),
        final(ctx)@ == supported(old(ctx)@, target, *effect, change),
{
    match *effect {
        SupportEffect::Speed { effect, duration, .. } => {
            let agent = match ctx.map.map().get_agent(target) {
                Some(agent) => agent,
                None => return ,
            };
            if let SpeedEffect::Paralysis = effect {
                if let Some(kind) = agent.creature_kind() {
                    if kind.immune_to_paralysis {
                        return ;
                    }
                }
            }
            let position: Position = match ctx.map.map().agent_position(target) {
                Some(position) => position,
                None => return ,
            };
            let generation: u32 = match ctx.map.agent_mut(target) {
                Some(mut agent) => agent.apply_speed(effect, change),
                None => return ,
            };
            let at_tick: Tick = ctx.tick.plus(duration);
            ctx.book(at_tick, WorldCommand::SpeedExpired { agent_key: target, generation });
            ctx.tell(BroadcastMessage::AgentSpeedChanged { agent_key: target, position });
        },
        SupportEffect::MagicShield { duration } => {
            let until: Tick = ctx.tick.plus(duration);
            if let Some(mut agent) = ctx.map.agent_mut(target) {
                let _created: bool = agent.extend_magic_shield(until);
            }
        },
        SupportEffect::Cure { element } => {
            if let Some(mut agent) = ctx.map.agent_mut(target) {
                let _cured: bool = agent.cure(element);
            }
        },
    }
}

/// The world after a change of speed has run out.
pub open spec fn speed_expired(w: TickView, key: AgentKey, generation: u32) -> TickView {
    match agent_of(w, key) {
        None => w,
        Some(a) => if condition_of(a.conditions, ConditionKind::Speed) matches Some(c)
            && generation_of(c) == Some(generation) {
            let after = condition_written(
                w,
                key,
                a,
                AgentView { conditions: without(a.conditions, ConditionKind::Speed), ..a },
            );
            if w.world.map.positions.contains_key(key.0) {
                told(
                    after,
                    EventView::AgentSpeedChanged {
                        agent_key: key,
                        position: w.world.map.positions[key.0],
                    },
                )
            } else {
                after
            }
        } else {
            w
        },
    }
}

/// Ends a change of speed. One that was replaced in the meantime has another generation, and is
/// left alone.
pub fn expire_speed(ctx: &mut TickCtx, agent_key: AgentKey, generation: u32)
    requires
        old(ctx).wf(),
    ensures
        final(ctx).wf(),
        final(ctx)@ == speed_expired(old(ctx)@, agent_key, generation),
{
    let ended: bool = match ctx.map.agent_mut(agent_key) {
        Some(mut agent) => agent.expire_speed(generation),
        None => return ,
    };
    if !ended {
        assert(ctx@.world.map.agents =~= old(ctx)@.world.map.agents);
        assert(ctx@ =~= old(ctx)@);
        return ;
    }
    if let Some(position) = ctx.map.map().agent_position(agent_key) {
        ctx.tell(BroadcastMessage::AgentSpeedChanged { agent_key, position });
    }
}

/// The world after a supporting effect on the first `n` of `targets`, each of which shows it.
pub open spec fn all_supported(
    w: TickView,
    targets: Seq<AgentKey>,
    changes: Seq<i16>,
    effect: SupportEffect,
    effect_id: Option<EffectId>,
    n: nat,
) -> TickView
    decreases n,
{
    if n == 0 {
        w
    } else {
        let before = all_supported(w, targets, changes, effect, effect_id, (n - 1) as nat);
        supported(
            shown_on(before, targets[n - 1], effect_id),
            targets[n - 1],
            effect,
            changes[n - 1],
        )
    }
}

/// With an effect shown on an agent.
pub open spec fn shown_on(w: TickView, target: AgentKey, effect_id: Option<EffectId>) -> TickView {
    match effect_id {
        Some(effect_id) => if w.world.map.positions.contains_key(target.0) {
            told(
                w,
                EventView::AreaEffectAppeared {
                    area_effect: single_effect(effect_id, w.world.map.positions[target.0]),
                },
            )
        } else {
            w
        },
        None => w,
    }
}

/// With a missile on its way from a caster to where a cast is aimed.
pub open spec fn missile_launched(w: TickView, caster: AgentKey, cast: SupportCast, aim: Option<Position>) -> TickView {
    match (cast.missile_id, aim) {
        (Some(missile_id), Some(to)) => if w.world.map.positions.contains_key(caster.0) {
            told(
                w,
                EventView::MissileLaunched {
                    missile: Missile {
                        missile_id,
                        from: w.world.map.positions[caster.0],
                        to,
                    },
                },
            )
        } else {
            w
        },
        _ => w,
    }
}

/// Each of the targets can be given as many conditions as it occurs among them.
pub open spec fn all_supportable(w: TickView, targets: Seq<AgentKey>) -> bool {
    forall|i: int|
        0 <= i < targets.len() ==> (agent_of(w, #[trigger] targets[i]) matches Some(a)
            ==> a.next_generation + targets.len() <= u32::MAX)
}

/// No agent has come or gone, and none has been given more than `n` conditions.
spec fn conditions_given(before: TickView, after: TickView, n: int) -> bool {
    &&& after.tick == before.tick
    &&& after.world.map.agents.dom() == before.world.map.agents.dom()
    &&& forall|k: u64| #[trigger]
        after.world.map.agents.contains_key(k) ==> after.world.map.agents[k].next_generation
            <= before.world.map.agents[k].next_generation + n
}

proof fn lemma_supported(w: TickView, target: AgentKey, effect: SupportEffect, change: i16)
    requires
        supportable(w, target),
    ensures
        conditions_given(w, supported(w, target, effect, change), 1),
{
    let after = supported(w, target, effect, change);
    assert(after.world.map.agents.dom() =~= w.world.map.agents.dom());
}

/// Casts what supports on all its targets. `changes` holds what was rolled for the speed of each.
pub fn cast_support(
    ctx: &mut TickCtx,
    caster: AgentKey,
    cast: &SupportCast,
    targets: &ResolvedTargets,
    changes: &Vec<i16>,
)
    requires
        old(ctx).wf(),
        changes@.len() == targets.keys@.len(),
        all_supportable(old(ctx)@, targets.keys@),
        old(ctx).tick.0 + lasting(cast.effect) <= u64::MAX,
    ensures
        final(ctx).wf(),
        final(ctx)@ == all_supported(
            missile_launched(old(ctx)@, caster, *cast, targets.aim),
            targets.keys@,
            changes@,
            cast.effect,
            cast.effect_id,
            targets.keys@.len(),
        ),
{
    if let Some(missile_id) = cast.missile_id {
        if let Some(to) = targets.aim {
            if let Some(from) = ctx.map.map().agent_position(caster) {
                ctx.tell(
                    BroadcastMessage::MissileLaunched {
                        missile: Missile { missile_id, from, to },
                    },
                );
            }
        }
    }
    let ghost launched = ctx@;
    let mut i: usize = 0;
    while i < targets.keys.len()
        invariant
            i <= targets.keys@.len(),
            changes@.len() == targets.keys@.len(),
            ctx.wf(),
            ctx.tick.0 + lasting(cast.effect) <= u64::MAX,
            ctx.tick == launched.tick,
            all_supportable(launched, targets.keys@),
            conditions_given(launched, ctx@, i as int),
            ctx@ == all_supported(
                launched,
                targets.keys@,
                changes@,
                cast.effect,
                cast.effect_id,
                i as nat,
            ),
        decreases targets.keys.len() - i,
    {
        let target: AgentKey = targets.keys[i];
        if let Some(effect_id) = cast.effect_id {
            if let Some(position) = ctx.map.map().agent_position(target) {
                ctx.tell(
                    BroadcastMessage::AreaEffectAppeared {
                        area_effect: AreaEffect::single(effect_id, position),
                    },
                );
            }
        }
        let ghost shown = ctx@;
        assert(agent_of(launched, targets.keys@[i as int]) is Some
            == launched.world.map.agents.dom().contains(target.0));
        assert(supportable(ctx@, target)) by {
            if agent_of(ctx@, target) is Some {
                assert(ctx@.world.map.agents.dom().contains(target.0));
                assert(launched.world.map.agents.contains_key(target.0));
            }
        }
        apply_support(ctx, target, &cast.effect, changes[i]);
        proof {
            lemma_supported(shown, target, cast.effect, changes@[i as int]);
            assert forall|k: u64| #[trigger]
                ctx@.world.map.agents.contains_key(k) implies ctx@.world.map.agents[k].next_generation
                <= launched.world.map.agents[k].next_generation + (i + 1) by {
                assert(shown.world.map.agents.dom().contains(k));
                assert(shown.world.map.agents.contains_key(k));
            }
        }
        i += 1;
    }
}

/// A shield is never shortened by another: it lasts at least as long as it did, and at least as
/// long as the new one.
pub proof fn law_a_shield_is_never_shortened(w: TickView, target: AgentKey, duration: TickDelta, change: i16)
    requires
        agent_of(w, target) matches Some(a) && one_of_each(a.conditions),
        w.tick.0 + duration.0 <= u64::MAX,
    ensures
        ({
            let effect = SupportEffect::MagicShield { duration };
            let before = w.world.map.agents[target.0].conditions;
            let after = supported(w, target, effect, change).world.map.agents[target.0].conditions;
            &&& until_of(condition_of(after, ConditionKind::MagicShield)) matches Some(until)
            &&& until.0 >= w.tick.0 + duration.0
            &&& until_of(condition_of(before, ConditionKind::MagicShield)) matches Some(existing)
                ==> until.0 >= existing.0
        }),
{
    let a = w.world.map.agents[target.0];
    let until = Tick((w.tick.0 + duration.0) as u64);
    let longest = match until_of(condition_of(a.conditions, ConditionKind::MagicShield)) {
        Some(existing) => if existing.0 >= until.0 {
            existing
        } else {
            until
        },
        None => until,
    };
    lemma_with(a.conditions, Condition::MagicShield { until: longest });
}

/// A stale end of a speed change does nothing.
pub proof fn law_a_stale_speed_change_does_not_end_another(w: TickView, key: AgentKey, generation: u32)
    requires
        agent_of(w, key) matches Some(a) ==> (condition_of(
            a.conditions,
            ConditionKind::Speed,
        ) matches Some(c) ==> generation_of(c) != Some(generation)),
    ensures
        speed_expired(w, key, generation) == w,
{
}

/// A roll for a speed counts up from the lower of its two ends, whichever that is, as long as it
/// keeps the sign of its effect.
pub proof fn law_a_speed_roll_counts_up_from_its_lower_end(effect: SpeedEffect, a: int, b: int, rolled: int)
    requires
        rolled >= 0,
    ensures
        ({
            let change = speed_change_of(effect, a, b, rolled);
            let asked = if a <= b { a + rolled } else { b + rolled };
            &&& effect is Haste && 0 <= asked <= 32767 ==> change == asked
            &&& effect is Paralysis && -32768 <= asked <= 0 ==> change == asked
            &&& effect is Haste && asked < 0 ==> change == 0
            &&& effect is Paralysis && asked > 0 ==> change == 0
            &&& speed_change_of(effect, a, b, rolled) == speed_change_of(effect, b, a, rolled)
        }),
{
}

/// A change of speed takes the place of any other and lasts its time: its end is booked for then,
/// and until then the agent goes by it. Those who see the agent are told. Nothing else about the
/// agent changes. A paralysis does nothing to a creature that is immune to it.
pub proof fn law_a_speed_change_lasts_its_time(
    w: TickView,
    target: AgentKey,
    support: SupportEffect,
    change: i16,
    kind: ConditionKind,
)
    requires
        agent_of(w, target) matches Some(a) && one_of_each(a.conditions),
        w.world.map.positions.contains_key(target.0),
        support is Speed,
        w.tick.0 + support->Speed_duration.0 <= u64::MAX,
        kind != ConditionKind::Speed,
    ensures
        ({
            let before = agent_of(w, target).unwrap();
            let later = supported(w, target, support, change);
            let effect = support->Speed_effect;
            let immune = effect is Paralysis && (before.body matches BodyView::Creature(creature)
                && creature.immune_to_paralysis);
            if immune {
                later == w
            } else {
                &&& agent_of(later, target) matches Some(after) && (condition_of(
                    after.conditions,
                    ConditionKind::Speed,
                ) matches Some(Condition::Speed { effect: e, change: c, generation }) && e == effect
                    && c == change && later.scheduled == w.scheduled.push(
                    ScheduledView {
                        at_tick: Tick((w.tick.0 + support->Speed_duration.0) as u64),
                        command: CommandView::SpeedExpired { agent_key: target, generation },
                    },
                )) && condition_of(after.conditions, kind) == condition_of(before.conditions, kind)
                    && after.life == before.life && after.mana == before.mana
                &&& later.events == w.events.push(
                    EventView::AgentSpeedChanged {
                        agent_key: target,
                        position: w.world.map.positions[target.0],
                    },
                )
            }
        }),
{
    let a = agent_of(w, target).unwrap();
    let c = Condition::Speed {
        effect: support->Speed_effect,
        change,
        generation: a.next_generation,
    };
    law_conditions_do_not_disturb_each_other(a.conditions, c, kind);
    let rest = without(a.conditions, ConditionKind::Speed);
    assert(condition_of(rest, ConditionKind::Speed) is None);
    lemma_with(rest, c);
    assert(with(rest, c) == rest.push(c));
}

/// When a change of speed ends the agent is under none, and those who see it are told; its other
/// conditions stay.
pub proof fn law_a_speed_change_ends(
    w: TickView,
    key: AgentKey,
    generation: u32,
    effect: SpeedEffect,
    change: i16,
    kind: ConditionKind,
)
    requires
        agent_of(w, key) matches Some(a) && one_of_each(a.conditions) && condition_of(
            a.conditions,
            ConditionKind::Speed,
        ) == Some(Condition::Speed { effect, change, generation }),
        w.world.map.positions.contains_key(key.0),
        kind != ConditionKind::Speed,
    ensures
        ({
            let before = agent_of(w, key).unwrap();
            let later = speed_expired(w, key, generation);
            &&& agent_of(later, key) matches Some(after) && condition_of(
                after.conditions,
                ConditionKind::Speed,
            ) is None && condition_of(after.conditions, kind) == condition_of(
                before.conditions,
                kind,
            )
            &&& later.events == w.events.push(
                EventView::AgentSpeedChanged {
                    agent_key: key,
                    position: w.world.map.positions[key.0],
                },
            )
            &&& later.scheduled == w.scheduled
        }),
{
    let a = agent_of(w, key).unwrap();
    law_conditions_do_not_disturb_each_other(
        a.conditions,
        Condition::Speed { effect, change, generation },
        kind,
    );
}

/// A shield lasts its time from now on, or as long as the one before where that lasts longer; a
/// cure ends the wound of its element and nothing else. Neither heals.
pub proof fn law_a_shield_lasts_and_a_cure_ends_a_wound(
    w: TickView,
    target: AgentKey,
    duration: TickDelta,
    element: CombatElement,
    change: i16,
    kind: ConditionKind,
)
    requires
        agent_of(w, target) matches Some(a) && one_of_each(a.conditions),
        w.tick.0 + duration.0 <= u64::MAX,
    ensures
        ({
            let before = agent_of(w, target).unwrap();
            let later = supported(w, target, SupportEffect::MagicShield { duration }, change);
            let end = w.tick.0 + duration.0;
            &&& agent_of(later, target) matches Some(after) && (condition_of(
                after.conditions,
                ConditionKind::MagicShield,
            ) matches Some(Condition::MagicShield { until }) && until.0 == (match condition_of(
                before.conditions,
                ConditionKind::MagicShield,
            ) {
                Some(Condition::MagicShield { until: old }) => if old.0 >= end {
                    old.0 as int
                } else {
                    end
                },
                _ => end,
            })) && (kind != ConditionKind::MagicShield ==> condition_of(after.conditions, kind)
                == condition_of(before.conditions, kind)) && after.mana == before.mana
                && after.life == before.life
        }),
        ({
            let before = agent_of(w, target).unwrap();
            let later = supported(w, target, SupportEffect::Cure { element }, change);
            agent_of(later, target) matches Some(after) && condition_of(
                after.conditions,
                ConditionKind::Damage(element),
            ) is None && (kind != ConditionKind::Damage(element) ==> condition_of(
                after.conditions,
                kind,
            ) == condition_of(before.conditions, kind)) && after.life == before.life
        }),
{
    let a = agent_of(w, target).unwrap();
    let until = Tick((w.tick.0 + duration.0) as u64);
    if under(a.conditions, ConditionKind::MagicShield) {
        let p = place_of(a.conditions, ConditionKind::MagicShield);
        assert(kind_of(a.conditions[p]) == ConditionKind::MagicShield);
    }
    let longest = match until_of(condition_of(a.conditions, ConditionKind::MagicShield)) {
        Some(existing) => if existing.0 >= until.0 {
            existing
        } else {
            until
        },
        None => until,
    };
    lemma_with(a.conditions, Condition::MagicShield { until: longest });
    if under(a.conditions, ConditionKind::Damage(element)) {
        let c = condition_of(a.conditions, ConditionKind::Damage(element)).unwrap();
        let p = place_of(a.conditions, ConditionKind::Damage(element));
        assert(kind_of(a.conditions[p]) == ConditionKind::Damage(element));
        if kind != ConditionKind::Damage(element) {
            law_conditions_do_not_disturb_each_other(a.conditions, c, kind);
        } else {
            law_conditions_do_not_disturb_each_other(a.conditions, c, ConditionKind::Fed);
        }
    }
}

/// What supports at a distance is seen to fly from its caster to where it is aimed.
pub proof fn law_a_support_flies_from_its_caster(
    w: TickView,
    caster: AgentKey,
    cast: SupportCast,
    aim: Option<Position>,
)
    ensures
        ({
            let later = missile_launched(w, caster, cast, aim);
            &&& later.world == w.world && later.scheduled == w.scheduled
            &&& match (cast.missile_id, aim) {
                (Some(missile_id), Some(to)) => if w.world.map.positions.contains_key(caster.0) {
                    &&& later.events.len() == w.events.len() + 1
                    &&& later.events.last() matches EventView::MissileLaunched { missile }
                        && missile.from == w.world.map.positions[caster.0] && missile.to == to
                        && missile.missile_id == missile_id
                } else {
                    later == w
                },
                _ => later == w,
            }
        }),
{
}

/// An effect on an agent shows on the tile where it stands and nowhere else; where there is none
/// nothing is shown.
pub proof fn law_an_effect_shows_where_its_target_stands(
    w: TickView,
    target: AgentKey,
    effect_id: EffectId,
)
    requires
        w.world.map.positions.contains_key(target.0),
    ensures
        ({
            let later = shown_on(w, target, Some(effect_id));
            &&& later.events.len() == w.events.len() + 1
            &&& later.events.last() matches EventView::AreaEffectAppeared { area_effect }
                && area_effect.effect_id == effect_id && area_effect.origin
                == w.world.map.positions[target.0] && area_effect.delta == seq![(0i8, 0i8)]
            &&& later.world == w.world && later.scheduled == w.scheduled
            &&& shown_on(w, target, None) == w
        }),
{
}

/// Targets are supported one after the other from the front, each with the change that was rolled
/// for it.
pub proof fn law_each_target_is_supported_with_its_own_roll(
    w: TickView,
    targets: Seq<AgentKey>,
    changes: Seq<i16>,
    effect: SupportEffect,
)
    requires
        targets.len() >= 2,
        changes.len() == targets.len(),
    ensures
        all_supported(w, targets, changes, effect, None, 0) == w,
        all_supported(w, targets, changes, effect, None, 1) == supported(
            w,
            targets[0],
            effect,
            changes[0],
        ),
        all_supported(w, targets, changes, effect, None, 2) == supported(
            supported(w, targets[0], effect, changes[0]),
            targets[1],
            effect,
            changes[1],
        ),
{
    reveal_with_fuel(all_supported, 3);
}

} // verus!
