//! Regeneration, wounds that deal damage over time, and conditions that run out.

use crate::actors::world::{CommandView, ScheduledView, WorldCommand};
use crate::entities::agent::{AgentKey, AgentView, BodyView};
use crate::entities::combat::{CombatDamage, CombatElement};
use crate::entities::conditions::{
    after_hit, condition_of, dealt_in, hit_of, kind_of, law_a_decaying_wound_deals_all,
    law_a_wound_deals_what_it_has, law_conditions_do_not_disturb_each_other,
    law_hits_never_overspend, left, one_of_each, sound, under, until_of, with, without, Condition,
    ConditionKind, ConditionSpec, DamageOverTime, Schedule, SpecSchedule, TimedCondition,
};
use crate::entities::map::with_agent;
use crate::entities::world_delta::{agent_marked, AgentFlag, DeltaView};
use crate::entities::world_map::{noted, struck, wounded, WorldMapView};
use crate::game::config::GameConfig;
use crate::game::ctx::{booked, TickCtx, TickView};
use crate::game::tick::{Tick, TickDelta};
use vstd::prelude::*;

verus! {

/// The agent with this key.
pub open spec fn agent_of(w: TickView, key: AgentKey) -> Option<AgentView> {
    if w.world.map.agents.contains_key(key.0) {
        Some(w.world.map.agents[key.0])
    } else {
        None
    }
}

/// With an agent changed and `delta` marked.
pub open spec fn agent_written(w: TickView, key: AgentKey, agent: AgentView, delta: DeltaView) -> TickView {
    TickView { world: WorldMapView { map: with_agent(w.world.map, key, agent), delta }, ..w }
}

/// With the conditions of an agent changed, and marked what that changed.
pub open spec fn condition_written(w: TickView, key: AgentKey, before: AgentView, after: AgentView) -> TickView {
    agent_written(w, key, after, noted(w.world.delta, key, before, after))
}

/// With life and mana given back to an agent that lacks them.
pub open spec fn regenerated(
    a: AgentView,
    d: DeltaView,
    key: AgentKey,
    life_regen: u32,
    mana_regen: u32,
) -> (AgentView, DeltaView) {
    let (healed, seen) = if a.life.spent() > 0 {
        (
            AgentView { life: a.life.more(life_regen), ..a },
            agent_marked(d, key, AgentFlag::Life),
        )
    } else {
        (a, d)
    };
    if a.mana.spent() > 0 {
        (
            AgentView { mana: a.mana.more(mana_regen), ..healed },
            agent_marked(seen, key, AgentFlag::Mana),
        )
    } else {
        (healed, seen)
    }
}

/// What a turn of regeneration comes to.
pub open spec fn after_regeneration(w: TickView, key: AgentKey, generation: u32, config: GameConfig) -> TickView {
    match agent_of(w, key) {
        Some(a) => match condition_of(a.conditions, ConditionKind::Fed) {
            Some(Condition::Fed { until, generation: live }) => if live != generation {
                w
            } else if until.0 <= w.tick.0 {
                condition_written(
                    w,
                    key,
                    a,
                    AgentView { conditions: without(a.conditions, ConditionKind::Fed), ..a },
                )
            } else {
                match a.body {
                    BodyView::Player(player) => {
                        let (after, delta) = regenerated(
                            a,
                            w.world.delta,
                            key,
                            player.life_regen,
                            player.mana_regen,
                        );
                        booked(
                            agent_written(w, key, after, delta),
                            ScheduledView {
                                at_tick: Tick((w.tick.0 + config.regen_ticks.0) as u64),
                                command: CommandView::RegeneratePlayer {
                                    agent_key: key,
                                    generation,
                                },
                            },
                        )
                    },
                    BodyView::Creature(_) => w,
                }
            },
            _ => w,
        },
        None => w,
    }
}

/// Gives a fed player life and mana back and books the next time, or ends its meal where that has
/// run out. A generation that is not the meal's own does nothing.
pub fn regenerate_life_mana(ctx: &mut TickCtx, agent_key: AgentKey, generation: u32, config: &GameConfig)
    requires
        old(ctx).wf(),
        old(ctx).tick.0 + config.regen_ticks.0 <= u64::MAX,
    ensures
        final(ctx).wf(),
        final(ctx)@ == after_regeneration(old(ctx)@, agent_key, generation, *config),
{
    let agent = match ctx.map.map().get_agent(agent_key) {
        Some(agent) => agent,
        None => return ,
    };
    let (until, live): (Tick, u32) = match agent.conditions.fed() {
        Some(fed) => fed,
        None => return ,
    };
    if live != generation {
        return ;
    }
    if until.0 <= ctx.tick.0 {
        if let Some(mut agent) = ctx.map.agent_mut(agent_key) {
            agent.remove_fed();
        }
        return ;
    }
    let (life_regen, mana_regen): (u32, u32) = match agent.get_player() {
        Some(player) => (player.life_regen, player.mana_regen),
        None => return ,
    };
    if let Some(mut agent) = ctx.map.agent_mut(agent_key) {
        let life_missing: bool = agent.agent.life.missing() > 0;
        let mana_missing: bool = agent.agent.mana.missing() > 0;
        if life_missing {
            agent.restore_life(life_regen);
        }
        if mana_missing {
            agent.restore_mana(mana_regen);
        }
    }
    let at_tick: Tick = ctx.tick.plus(config.regen_ticks);
    ctx.book(at_tick, WorldCommand::RegeneratePlayer { agent_key, generation });
}

/// Until when a timed condition of an agent lasts.
pub open spec fn lasts_until(w: TickView, key: AgentKey, kind: TimedCondition) -> Option<Tick> {
    match agent_of(w, key) {
        Some(a) => until_of(condition_of(a.conditions, kind.spec_kind())),
        None => None,
    }
}

/// With the end of a timed condition booked, where there is one.
pub open spec fn expiry_booked(w: TickView, key: AgentKey, kind: TimedCondition) -> TickView {
    match lasts_until(w, key, kind) {
        Some(until) => booked(
            w,
            ScheduledView {
                at_tick: until,
                command: CommandView::ConditionExpired { agent_key: key, kind },
            },
        ),
        None => w,
    }
}

fn until_when(ctx: &TickCtx, agent_key: AgentKey, kind: TimedCondition) -> (r: Option<Tick>)
    requires
        ctx.wf(),
    ensures
        r == lasts_until(ctx@, agent_key, kind),
{
    match ctx.map.map().get_agent(agent_key) {
        Some(agent) => agent.conditions.until(kind),
        None => None,
    }
}

/// Books the end of a timed condition for the tick until which it lasts.
pub fn schedule_expiry(ctx: &mut TickCtx, agent_key: AgentKey, kind: TimedCondition)
    requires
        old(ctx).wf(),
    ensures
        final(ctx).wf(),
        final(ctx)@ == expiry_booked(old(ctx)@, agent_key, kind),
{
    if let Some(until) = until_when(ctx, agent_key, kind) {
        ctx.book(until, WorldCommand::ConditionExpired { agent_key, kind });
    }
}

/// What the end of a timed condition comes to.
pub open spec fn after_expiry(w: TickView, key: AgentKey, kind: TimedCondition) -> TickView {
    match lasts_until(w, key, kind) {
        Some(until) => if until.0 > w.tick.0 {
            expiry_booked(w, key, kind)
        } else {
            let a = w.world.map.agents[key.0];
            condition_written(
                w,
                key,
                a,
                AgentView { conditions: without(a.conditions, kind.spec_kind()), ..a },
            )
        },
        None => w,
    }
}

/// Ends a timed condition that is due. One that was made to last longer in the meantime is booked
/// anew.
pub fn expire_condition(ctx: &mut TickCtx, agent_key: AgentKey, kind: TimedCondition)
    requires
        old(ctx).wf(),
    ensures
        final(ctx).wf(),
        final(ctx)@ == after_expiry(old(ctx)@, agent_key, kind),
{
    let until: Tick = match until_when(ctx, agent_key, kind) {
        Some(until) => until,
        None => return ,
    };
    if until.0 > ctx.tick.0 {
        schedule_expiry(ctx, agent_key, kind);
        return ;
    }
    if let Some(mut agent) = ctx.map.agent_mut(agent_key) {
        agent.remove_timed(kind);
    }
}

/// A hit of a wound that has yet to be dealt, and when the next one comes, where there is one.
#[derive(Debug, Clone, Copy, PartialEq, Eq, Structural)]
pub struct DueHit {
    pub target: AgentKey,
    pub damage: CombatDamage,
    pub source: Option<AgentKey>,
    pub generation: u32,
    pub next_in: Option<TickDelta>,
}

/// What a wound's turn comes to: the world after it, and the hit to be dealt. Who dealt the wound
/// is named only while it is still in the world.
pub open spec fn wound_turn(w: TickView, key: AgentKey, element: CombatElement, generation: u32) -> (
    TickView,
    Option<DueHit>,
) {
    match agent_of(w, key) {
        None => (w, None),
        Some(a) => {
            let (after, hit) = struck(a, element, generation);
            (
                condition_written(w, key, a, after),
                match hit {
                    Some(hit) => Some(
                        DueHit {
                            target: key,
                            damage: CombatDamage::plain(element, hit.value),
                            source: match hit.source {
                                Some(source) => if w.world.map.agents.contains_key(source.0) {
                                    Some(source)
                                } else {
                                    None
                                },
                                None => None,
                            },
                            generation,
                            next_in: if hit.exhausted {
                                None
                            } else {
                                Some(hit.interval)
                            },
                        },
                    ),
                    None => None,
                },
            )
        },
    }
}

/// Takes the next hit from a wound. Once it is dealt, `book_next_hit` sees to the one after it.
pub fn tick_damage_over_time(
    ctx: &mut TickCtx,
    agent_key: AgentKey,
    element: CombatElement,
    generation: u32,
) -> (due: Option<DueHit>)
    requires
        old(ctx).wf(),
    ensures
        final(ctx).wf(),
        final(ctx)@ == wound_turn(old(ctx)@, agent_key, element, generation).0,
        due == wound_turn(old(ctx)@, agent_key, element, generation).1,
{
    let hit = match ctx.map.agent_mut(agent_key) {
        Some(mut agent) => match agent.next_damage_hit(element, generation) {
            Some(hit) => hit,
            None => return None,
        },
        None => return None,
    };
    let source: Option<AgentKey> = match hit.source {
        Some(source) => if ctx.map.map().get_agent(source).is_some() {
            Some(source)
        } else {
            None
        },
        None => None,
    };
    Some(
        DueHit {
            target: agent_key,
            damage: CombatDamage::unblocked(element, hit.value),
            source,
            generation,
            next_in: if hit.exhausted {
                None
            } else {
                Some(hit.interval)
            },
        },
    )
}

/// With the next hit of a wound booked, where there is one and its bearer lives on.
pub open spec fn next_hit_booked(w: TickView, hit: DueHit) -> TickView {
    match hit.next_in {
        Some(interval) => if w.world.map.agents.contains_key(hit.target.0) {
            booked(
                w,
                ScheduledView {
                    at_tick: Tick((w.tick.0 + interval.0) as u64),
                    command: CommandView::DamageOverTimeTick {
                        agent_key: hit.target,
                        element: hit.damage.element,
                        generation: hit.generation,
                    },
                },
            )
        } else {
            w
        },
        None => w,
    }
}

/// Books the hit that comes after one that was dealt, unless that one was the last or the wounded
/// agent is gone.
pub fn book_next_hit(ctx: &mut TickCtx, hit: &DueHit)
    requires
        old(ctx).wf(),
        hit.next_in matches Some(interval) ==> old(ctx).tick.0 + interval.0 <= u64::MAX,
    ensures
        final(ctx).wf(),
        final(ctx)@ == next_hit_booked(old(ctx)@, *hit),
{
    if let Some(interval) = hit.next_in {
        if ctx.map.map().get_agent(hit.target).is_some() {
            let at_tick: Tick = ctx.tick.plus(interval);
            ctx.book(
                at_tick,
                WorldCommand::DamageOverTimeTick {
                    agent_key: hit.target,
                    element: hit.damage.element,
                    generation: hit.generation,
                },
            );
        }
    }
}

/// The wound that a roll makes of what wounds.
pub open spec fn wound_of(spec: ConditionSpec, rolled: u32, source: Option<AgentKey>) -> DamageOverTime {
    DamageOverTime {
        element: spec.element,
        source,
        interval: spec.interval,
        generation: 0,
        schedule: match spec.schedule {
            SpecSchedule::Decaying { start } => {
                let asked = match start {
                    Some(start) => start as int,
                    None => (rolled + 19) / 20,
                };
                let most = if rolled > 1 {
                    rolled as int
                } else {
                    1
                };
                let first = if asked < 1 {
                    1
                } else if asked > most {
                    most
                } else {
                    asked
                };
                Schedule::Decaying {
                    total: rolled,
                    start: first as u32,
                    value: first as u32,
                    dealt: 0,
                }
            },
            SpecSchedule::Flat { count } => Schedule::Flat { value: rolled, remaining: count },
        },
    }
}

/// What wounding an agent comes to: the world after it, and a first hit that is dealt at once.
pub open spec fn after_wounding(
    w: TickView,
    target: AgentKey,
    spec: ConditionSpec,
    rolled: u32,
    source: Option<AgentKey>,
) -> (TickView, Option<DueHit>) {
    match agent_of(w, target) {
        Some(a) => if rolled == 0 {
            (w, None)
        } else {
            let (after, generation) = wounded(a, wound_of(spec, rolled, source));
            let later = condition_written(w, target, a, after);
            match generation {
                None => (later, None),
                Some(generation) => if spec.delayed {
                    (
                        booked(
                            later,
                            ScheduledView {
                                at_tick: Tick((w.tick.0 + spec.interval.0) as u64),
                                command: CommandView::DamageOverTimeTick {
                                    agent_key: target,
                                    element: spec.element,
                                    generation,
                                },
                            },
                        ),
                        None,
                    )
                } else {
                    wound_turn(later, target, spec.element, generation)
                },
            }
        },
        None => (w, None),
    }
}

/// The agent can be given one more condition, and the wound is no worse than can be counted.
pub open spec fn woundable(w: TickView, target: AgentKey, spec: ConditionSpec, rolled: u32) -> bool {
    &&& agent_of(w, target) matches Some(a) ==> a.next_generation < u32::MAX
    &&& spec.schedule matches SpecSchedule::Flat { count } ==> rolled * count <= u32::MAX
    &&& w.tick.0 + spec.interval.0 <= u64::MAX
}

/// Wounds an agent by what was rolled, and hands back the first hit where it comes at once.
/// Nothing rolled wounds nobody.
pub fn apply_condition(
    ctx: &mut TickCtx,
    target: AgentKey,
    spec: &ConditionSpec,
    rolled: u32,
    source: Option<AgentKey>,
) -> (due: Option<DueHit>)
    requires
        old(ctx).wf(),
        woundable(old(ctx)@, target, *spec, rolled),
    ensures
        final(ctx).wf(),
        final(ctx)@ == after_wounding(old(ctx)@, target, *spec, rolled, source).0,
        due == after_wounding(old(ctx)@, target, *spec, rolled, source).1,
{
    if rolled == 0 {
        return None;
    }
    let wound: DamageOverTime = match spec.schedule {
        SpecSchedule::Decaying { start } => DamageOverTime::decaying(
            spec.element,
            source,
            spec.interval,
            rolled,
            start,
        ),
        SpecSchedule::Flat { count } => DamageOverTime::flat(
            spec.element,
            source,
            spec.interval,
            rolled,
            count,
        ),
    };
    let generation: u32 = match ctx.map.agent_mut(target) {
        Some(mut agent) => match agent.apply_damage_over_time(wound) {
            Some(generation) => generation,
            None => return None,
        },
        None => return None,
    };
    if spec.delayed {
        let at_tick: Tick = ctx.tick.plus(spec.interval);
        ctx.book(
            at_tick,
            WorldCommand::DamageOverTimeTick {
                agent_key: target,
                element: spec.element,
                generation,
            },
        );
        None
    } else {
        tick_damage_over_time(ctx, target, spec.element, generation)
    }
}

/// Of two bookings for the same meal only the one with its own generation regenerates: a stale
/// one leaves the world as it is.
pub proof fn law_a_stale_meal_regenerates_nothing(
    w: TickView,
    key: AgentKey,
    generation: u32,
    config: GameConfig,
)
    requires
        agent_of(w, key) matches Some(a) ==> (condition_of(a.conditions, ConditionKind::Fed) matches Some(
            Condition::Fed { generation: live, .. },
        ) ==> live != generation),
    ensures
        after_regeneration(w, key, generation, config) == w,
{
}

/// A wound of another generation does not strike, and its turn changes nothing.
pub proof fn law_a_stale_wound_does_not_strike(
    w: TickView,
    key: AgentKey,
    element: CombatElement,
    generation: u32,
)
    requires
        agent_of(w, key) matches Some(a) ==> (condition_of(
            a.conditions,
            ConditionKind::Damage(element),
        ) matches Some(Condition::DamageOverTime(wound)) ==> wound.generation != generation),
    ensures
        wound_turn(w, key, element, generation).1 is None,
        wound_turn(w, key, element, generation).0 == w,
{
    if let Some(a) = agent_of(w, key) {
        let turned = wound_turn(w, key, element, generation).0;
        assert(turned.world.map.agents =~= w.world.map.agents);
        assert(turned =~= w);
    }
}

/// Regeneration neither ends early nor runs twice: after its turn a player who is still fed has
/// exactly one more turn booked, and one who is not has none.
pub proof fn law_regeneration_books_itself_while_fed(
    w: TickView,
    key: AgentKey,
    generation: u32,
    config: GameConfig,
)
    requires
        agent_of(w, key) matches Some(a) && a.body is Player && (condition_of(
            a.conditions,
            ConditionKind::Fed,
        ) matches Some(Condition::Fed { generation: live, .. }) && live == generation),
    ensures
        ({
            let after = after_regeneration(w, key, generation, config);
            let until = lasts_until(w, key, TimedCondition::Fed).unwrap();
            if until.0 > w.tick.0 {
                after.scheduled.len() == w.scheduled.len() + 1
            } else {
                after.scheduled == w.scheduled
            }
        }),
{
}

/// All that a wound of these hits deals: what was rolled, spent slowly, or as often as it strikes.
pub open spec fn budget(spec: ConditionSpec, rolled: u32) -> int {
    match spec.schedule {
        SpecSchedule::Decaying { .. } => rolled as int,
        SpecSchedule::Flat { count } => rolled * count,
    }
}

/// The hits of a wound add up to what was rolled for it, however it decays, and to that as often
/// as it strikes where it does not. A wound that decays begins with the start it was given, or
/// else a twentieth of the roll rounded up, never with nothing and never with more than the roll;
/// one that does not decay strikes with the whole roll each time.
pub proof fn law_a_wound_spends_its_roll(
    spec: ConditionSpec,
    rolled: u32,
    source: Option<AgentKey>,
    n: nat,
)
    requires
        rolled > 0,
        spec.schedule matches SpecSchedule::Flat { count } ==> count > 0,
    ensures
        ({
            let wound = wound_of(spec, rolled, source);
            &&& wound.element == spec.element
            &&& wound.source == source
            &&& wound.interval == spec.interval
            &&& left(wound.schedule) == budget(spec, rolled)
            &&& dealt_in(wound.schedule, n) <= budget(spec, rolled)
            &&& n >= budget(spec, rolled) ==> dealt_in(wound.schedule, n) == budget(spec, rolled)
            &&& hit_of(wound.schedule) matches Some(first) && match spec.schedule {
                SpecSchedule::Decaying { start: None } => 20 * (first - 1) < rolled <= 20 * first,
                SpecSchedule::Decaying { start: Some(start) } => if 1 <= start <= rolled {
                    first == start
                } else if start == 0 {
                    first == 1
                } else {
                    first == rolled
                },
                SpecSchedule::Flat { .. } => first == rolled,
            }
        }),
{
    let wound = wound_of(spec, rolled, source);
    law_hits_never_overspend(wound.schedule, n);
    match spec.schedule {
        SpecSchedule::Decaying { .. } => {
            if n >= rolled {
                law_a_decaying_wound_deals_all(wound.schedule, n);
            }
        },
        SpecSchedule::Flat { count } => {
            law_a_flat_wound_never_tires(rolled, count, n);
            assert(rolled * count >= count) by (nonlinear_arith)
                requires
                    rolled >= 1,
                    count >= 0,
            ;
        },
    }
}

/// Wounding somebody who is under no wound of the element: a delayed wound deals nothing yet and
/// has its first turn booked one interval on; any other hands out its first hit, names when the
/// next comes just where something is left, and leaves the rest of the roll on the wounded.
/// Nobody else is touched.
pub proof fn law_a_wounding_hands_out_the_first_hit(
    w: TickView,
    target: AgentKey,
    spec: ConditionSpec,
    rolled: u32,
    source: Option<AgentKey>,
    other: AgentKey,
)
    requires
        agent_of(w, target) matches Some(a) && one_of_each(a.conditions) && !under(
            a.conditions,
            ConditionKind::Damage(spec.element),
        ),
        woundable(w, target, spec, rolled),
        rolled > 0,
        spec.schedule matches SpecSchedule::Flat { count } ==> count > 0,
        other != target,
    ensures
        ({
            let (later, due) = after_wounding(w, target, spec, rolled, source);
            let kind = ConditionKind::Damage(spec.element);
            let first = hit_of(wound_of(spec, rolled, source).schedule).unwrap();
            &&& agent_of(later, other) == agent_of(w, other)
            &&& agent_of(later, target) matches Some(a) && a.life == agent_of(w, target).unwrap().life
            &&& if spec.delayed {
                &&& due is None
                &&& condition_of(agent_of(later, target).unwrap().conditions, kind) matches Some(
                    Condition::DamageOverTime(dot),
                ) && left(dot.schedule) == budget(spec, rolled) && dot.source == source
                    && later.scheduled == w.scheduled.push(
                    ScheduledView {
                        at_tick: Tick((w.tick.0 + spec.interval.0) as u64),
                        command: CommandView::DamageOverTimeTick {
                            agent_key: target,
                            element: spec.element,
                            generation: dot.generation,
                        },
                    },
                )
            } else {
                &&& later.scheduled == w.scheduled
                &&& due matches Some(hit) && {
                    &&& hit.target == target
                    &&& hit.damage.element == spec.element
                    &&& hit.damage.value == first
                    &&& hit.next_in == (if first < budget(spec, rolled) {
                        Some(spec.interval)
                    } else {
                        None
                    })
                    &&& hit.source == (match source {
                        Some(source) if agent_of(w, source) is Some => Some(source),
                        _ => None,
                    })
                }
                &&& match condition_of(agent_of(later, target).unwrap().conditions, kind) {
                    Some(Condition::DamageOverTime(dot)) => left(dot.schedule) == budget(spec, rolled)
                        - first && first < budget(spec, rolled),
                    _ => first == budget(spec, rolled),
                }
            }
        }),
{
    let a = agent_of(w, target).unwrap();
    let kind = ConditionKind::Damage(spec.element);
    let wound = DamageOverTime { generation: a.next_generation, ..wound_of(spec, rolled, source) };
    law_a_wound_spends_its_roll(spec, rolled, source, 0);
    law_a_wound_deals_what_it_has(wound.schedule);
    law_conditions_do_not_disturb_each_other(
        a.conditions,
        Condition::DamageOverTime(wound),
        ConditionKind::Fed,
    );
    let put = with(a.conditions, Condition::DamageOverTime(wound));
    let later = DamageOverTime { schedule: after_hit(wound.schedule), ..wound };
    law_conditions_do_not_disturb_each_other(
        put,
        Condition::DamageOverTime(later),
        ConditionKind::Fed,
    );
    if let Some(source) = source {
        assert(with_agent(w.world.map, target, a).agents.contains_key(source.0)
            == w.world.map.agents.contains_key(source.0));
    }
}

/// A wound that does not decay strikes with the same value until it has struck its count.
pub proof fn law_a_flat_wound_never_tires(value: u32, remaining: u32, n: nat)
    ensures
        dealt_in(Schedule::Flat { value, remaining }, n) == value * (if n < remaining {
            n as int
        } else {
            remaining as int
        }),
    decreases n,
{
    if n > 0 {
        if remaining > 0 {
            law_a_flat_wound_never_tires(value, (remaining - 1) as u32, (n - 1) as nat);
            let rest = if n < remaining { n - 1 } else { remaining - 1 };
            assert(value * rest + value == value * (rest + 1)) by (nonlinear_arith);
        } else {
            law_a_flat_wound_never_tires(value, 0, (n - 1) as nat);
        }
    } else {
        assert(value * 0 == 0) by (nonlinear_arith);
    }
}

/// A turn of a wound deals one hit and takes just that off what the wound has left. The next turn
/// comes one interval on where something is left, and where nothing is the wound is over. Whoever
/// is wounded loses nothing yet, and no other condition is touched.
pub proof fn law_a_turn_of_a_wound_deals_one_hit(
    w: TickView,
    key: AgentKey,
    element: CombatElement,
    wound: DamageOverTime,
    kind: ConditionKind,
)
    requires
        agent_of(w, key) matches Some(a) && one_of_each(a.conditions) && condition_of(
            a.conditions,
            ConditionKind::Damage(element),
        ) == Some(Condition::DamageOverTime(wound)),
        wound.element == element,
        sound(wound.schedule),
        left(wound.schedule) > 0,
        kind != ConditionKind::Damage(element),
    ensures
        ({
            let (later, due) = wound_turn(w, key, element, wound.generation);
            let before = agent_of(w, key).unwrap();
            &&& due matches Some(hit) && agent_of(later, key) matches Some(after) && {
                let rest = left(wound.schedule) - hit.damage.value;
                &&& 1 <= hit.damage.value <= left(wound.schedule)
                &&& hit.damage.element == element && !hit.damage.blocked_shield
                    && !hit.damage.blocked_armor
                &&& hit.target == key && hit.generation == wound.generation
                &&& hit.next_in == (if rest > 0 {
                    Some(wound.interval)
                } else {
                    None
                })
                &&& if rest > 0 {
                    condition_of(after.conditions, ConditionKind::Damage(element)) matches Some(
                        Condition::DamageOverTime(still),
                    ) && left(still.schedule) == rest && still.generation == wound.generation
                        && still.source == wound.source && still.interval == wound.interval
                } else {
                    !under(after.conditions, ConditionKind::Damage(element))
                }
                &&& condition_of(after.conditions, kind) == condition_of(before.conditions, kind)
                &&& after.life == before.life && after.mana == before.mana
            }
            &&& later.scheduled == w.scheduled && later.events == w.events
        }),
{
    law_a_wound_deals_what_it_has(wound.schedule);
    let a = agent_of(w, key).unwrap();
    let later = DamageOverTime { schedule: after_hit(wound.schedule), ..wound };
    law_conditions_do_not_disturb_each_other(
        a.conditions,
        Condition::DamageOverTime(later),
        kind,
    );
}

/// The hit after one that was dealt comes as many ticks on as that one says, to the same bearer
/// and of the same wound, unless that one was the last or its bearer is gone.
pub proof fn law_the_next_hit_comes_one_interval_on(w: TickView, hit: DueHit)
    ensures
        ({
            let later = next_hit_booked(w, hit);
            &&& later.world == w.world && later.events == w.events
            &&& if hit.next_in is Some && agent_of(w, hit.target) is Some {
                &&& later.scheduled.len() == w.scheduled.len() + 1
                &&& later.scheduled.drop_last() == w.scheduled
                &&& later.scheduled.last().at_tick.0 == (w.tick.0 + hit.next_in.unwrap().0) as u64
                &&& later.scheduled.last().command matches CommandView::DamageOverTimeTick {
                    agent_key,
                    element,
                    generation,
                } && agent_key == hit.target && element == hit.damage.element && generation
                    == hit.generation
            } else {
                later.scheduled == w.scheduled
            }
        }),
{
    assert(next_hit_booked(w, hit).scheduled.drop_last() =~= w.scheduled || hit.next_in is None
        || agent_of(w, hit.target) is None);
}

/// A fed player gets back just what its meal gives and no more than it lacks, of life and of mana
/// alike, and its next turn comes one regeneration on. Nothing else about it changes.
pub proof fn law_a_fed_player_regenerates_what_it_lacks(
    w: TickView,
    key: AgentKey,
    generation: u32,
    config: GameConfig,
)
    requires
        agent_of(w, key) matches Some(a) && a.body is Player && (condition_of(
            a.conditions,
            ConditionKind::Fed,
        ) matches Some(Condition::Fed { until, generation: live }) && live == generation && until.0
            > w.tick.0),
        agent_of(w, key) matches Some(a) && a.life.current <= a.life.maximum && a.mana.current
            <= a.mana.maximum,
    ensures
        ({
            let later = after_regeneration(w, key, generation, config);
            let before = agent_of(w, key).unwrap();
            let player = before.body->Player_0;
            &&& agent_of(later, key) matches Some(after) && {
                &&& after.life.current == (if before.life.current + player.life_regen
                    <= before.life.maximum {
                    before.life.current + player.life_regen
                } else {
                    before.life.maximum as int
                })
                &&& after.mana.current == (if before.mana.current + player.mana_regen
                    <= before.mana.maximum {
                    before.mana.current + player.mana_regen
                } else {
                    before.mana.maximum as int
                })
                &&& after == (AgentView { life: after.life, mana: after.mana, ..before })
                &&& after.life.maximum == before.life.maximum && after.mana.maximum
                    == before.mana.maximum
            }
            &&& later.scheduled.len() == w.scheduled.len() + 1
            &&& later.scheduled.last().at_tick.0 == (w.tick.0 + config.regen_ticks.0) as u64
            &&& later.scheduled.last().command == (CommandView::RegeneratePlayer {
                agent_key: key,
                generation,
            })
        }),
{
}

/// Hunger stops regeneration: once a meal has run out, its turn ends it and gives nothing back.
pub proof fn law_a_meal_that_ran_out_gives_nothing(
    w: TickView,
    key: AgentKey,
    generation: u32,
    config: GameConfig,
)
    requires
        agent_of(w, key) matches Some(a) && one_of_each(a.conditions) && (condition_of(
            a.conditions,
            ConditionKind::Fed,
        ) matches Some(Condition::Fed { until, generation: live }) && live == generation && until.0
            <= w.tick.0),
    ensures
        ({
            let later = after_regeneration(w, key, generation, config);
            &&& agent_of(later, key) matches Some(after) && !under(
                after.conditions,
                ConditionKind::Fed,
            ) && after.life == agent_of(w, key).unwrap().life && after.mana == agent_of(
                w,
                key,
            ).unwrap().mana
            &&& later.scheduled == w.scheduled
        }),
{
    let a = agent_of(w, key).unwrap();
    law_conditions_do_not_disturb_each_other(
        a.conditions,
        Condition::Fed { until: w.tick, generation },
        ConditionKind::LogoutBlock,
    );
}

/// A timed condition ends when its time is up and not before: one that lasts on is booked for the
/// tick until which it lasts, and one whose time has come is over. Other conditions stay.
pub proof fn law_a_condition_ends_when_its_time_is_up(
    w: TickView,
    key: AgentKey,
    kind: TimedCondition,
    other: ConditionKind,
)
    requires
        agent_of(w, key) matches Some(a) && one_of_each(a.conditions) && until_of(
            condition_of(a.conditions, kind.spec_kind()),
        ) is Some,
        other != kind.spec_kind(),
    ensures
        ({
            let before = agent_of(w, key).unwrap();
            let until = until_of(condition_of(before.conditions, kind.spec_kind())).unwrap();
            let later = after_expiry(w, key, kind);
            &&& agent_of(later, key) matches Some(after) && condition_of(after.conditions, other)
                == condition_of(before.conditions, other) && if until.0 > w.tick.0 {
                &&& after == before
                &&& later.scheduled == w.scheduled.push(
                    ScheduledView {
                        at_tick: until,
                        command: CommandView::ConditionExpired { agent_key: key, kind },
                    },
                )
            } else {
                &&& !under(after.conditions, kind.spec_kind())
                &&& later.scheduled == w.scheduled
            }
        }),
{
    let a = agent_of(w, key).unwrap();
    let c = condition_of(a.conditions, kind.spec_kind()).unwrap();
    let p = choose|i: int|
        0 <= i < a.conditions.len() && kind_of(#[trigger] a.conditions[i]) == kind.spec_kind();
    assert(kind_of(c) == kind.spec_kind());
    law_conditions_do_not_disturb_each_other(a.conditions, c, other);
}

} // verus!
