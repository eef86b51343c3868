//! What happens in every tick without anybody asking for it.

use crate::actors::world::CommandView;
use crate::entities::agent::{AgentKey, AgentView};
use crate::entities::arena::slot_of;
use crate::entities::conditions::{
    condition_of, law_conditions_do_not_disturb_each_other, lemma_with, one_of_each, under,
    until_of, with, Condition, ConditionKind, TimedCondition,
};
use crate::entities::map::{with_agent, GameMap, MapView};
use crate::entities::world_map::{auto_attack_stamped, WorldMapView};
use crate::game::conditions::{agent_of, condition_written, expiry_booked, schedule_expiry};
use crate::game::config::GameConfig;
use crate::game::ctx::{carries_on, TickCtx, TickView};
use crate::game::tick::Tick;
use vstd::prelude::*;

verus! {

/// These are all who fight somebody, with whom, from the lowest slot to the highest.
pub open spec fn all_fighters(m: MapView, fighters: Seq<(AgentKey, AgentKey)>) -> bool {
    &&& forall|key: AgentKey, target: AgentKey| #[trigger]
        fighters.contains((key, target)) <==> fights(m, key, target)
    &&& by_slot(fighters)
}

pub open spec fn by_slot(fighters: Seq<(AgentKey, AgentKey)>) -> bool {
    forall|i: int, j: int|
        0 <= i < j < fighters.len() ==> slot_of((#[trigger] fighters[i]).0.0) < slot_of(
            (#[trigger] fighters[j]).0.0,
        )
}

/// Everybody who fights somebody, and whom.
pub fn agents_with_targets(map: &GameMap) -> (r: Vec<(AgentKey, AgentKey)>)
    requires
        map.wf(),
    ensures
        all_fighters(map@, r@),
{
    let mut r: Vec<(AgentKey, AgentKey)> = Vec::new();
    let keys = map.iter_agents();
    let mut i: usize = 0;
    while i < keys.len()
        invariant
            i <= keys@.len(),
            map.wf(),
            keys@.no_duplicates(),
            forall|key: AgentKey| #[trigger] keys@.contains(key) <==> map@.agents.contains_key(key.0),
            forall|a: int, b: int|
                0 <= a < b < keys@.len() ==> slot_of((#[trigger] keys@[a]).0) < slot_of(
                    (#[trigger] keys@[b]).0,
                ),
            by_slot(r@),
            forall|a: int|
                0 <= a < r@.len() ==> exists|b: int| 0 <= b < i && (#[trigger] r@[a]).0 == keys@[b],
            forall|key: AgentKey, target: AgentKey| #[trigger]
                r@.contains((key, target)) <==> fights(map@, key, target) && keys@.take(
                    i as int,
                ).contains(key),
        decreases keys.len() - i,
    {
        let ghost before = r@;
        let ghost seen = keys@.take(i as int);
        let ghost next = keys@.take(i + 1);
        proof {
            assert(next =~= seen.push(keys@[i as int]));
            assert(next.last() == keys@[i as int]);
            assert(!seen.contains(keys@[i as int])) by {
                if seen.contains(keys@[i as int]) {
                    let j = seen.index_of(keys@[i as int]);
                    assert(keys@[j] == keys@[i as int]);
                }
            }
            assert(keys@.contains(keys@[i as int]));
        }
        if let Some(agent) = map.get_agent(keys[i]) {
            if let Some(target) = agent.target {
                r.push((keys[i], target));
                proof {
                    let added = (keys@[i as int], target);
                    assert(r@ =~= before.push(added));
                    lemma_pushed(before, added);
                    assert(r@[before.len() as int].0 == keys@[i as int]);
                }
            }
        }
        proof {
            assert forall|key: AgentKey, target: AgentKey| #[trigger]
                r@.contains((key, target)) <==> fights(map@, key, target) && next.contains(
                    key,
                ) by {
                lemma_pushed_key(seen, keys@[i as int]);
                assert(next.contains(key) <==> seen.contains(key) || key == keys@[i as int]);
            }
        }
        i += 1;
    }
    assert(keys@.take(keys@.len() as int) =~= keys@);
    assert forall|key: AgentKey, target: AgentKey| #[trigger]
        r@.contains((key, target)) <==> fights(map@, key, target) by {
        assert(fights(map@, key, target) ==> keys@.contains(key));
    }
    r
}

proof fn lemma_pushed(s: Seq<(AgentKey, AgentKey)>, x: (AgentKey, AgentKey))
    ensures
        forall|y: (AgentKey, AgentKey)| #[trigger]
            s.push(x).contains(y) <==> s.contains(y) || y == x,
{
    let t = s.push(x);
    assert forall|y: (AgentKey, AgentKey)| #[trigger] t.contains(y) <==> s.contains(y) || y
        == x by {
        if s.contains(y) {
            let i = s.index_of(y);
            assert(t[i] == y);
        }
        assert(t[s.len() as int] == x);
    }
}

proof fn lemma_pushed_key(s: Seq<AgentKey>, x: AgentKey)
    ensures
        forall|y: AgentKey| #[trigger] s.push(x).contains(y) <==> s.contains(y) || y == x,
{
    let t = s.push(x);
    assert forall|y: AgentKey| #[trigger] t.contains(y) <==> s.contains(y) || y == x by {
        if s.contains(y) {
            let i = s.index_of(y);
            assert(t[i] == y);
        }
        assert(t[s.len() as int] == x);
    }
}

/// One agent fights another.
pub open spec fn fights(m: MapView, key: AgentKey, target: AgentKey) -> bool {
    m.agents.contains_key(key.0) && m.agents[key.0].target == Some(target)
}

/// The world after somebody was fought: a player cannot log out for a while, and where it could
/// until now, the end of that is booked.
pub open spec fn engaged(w: TickView, target: AgentKey, config: GameConfig) -> TickView {
    match agent_of(w, target) {
        Some(a) => if a.body is Creature {
            w
        } else {
            let block = Condition::LogoutBlock {
                until: Tick((w.tick.0 + config.logout_block_ticks.0) as u64),
            };
            let blocked = condition_written(
                w,
                target,
                a,
                AgentView { conditions: with(a.conditions, block), ..a },
            );
            if under(a.conditions, ConditionKind::LogoutBlock) {
                blocked
            } else {
                expiry_booked(blocked, target, TimedCondition::LogoutBlock)
            }
        },
        None => w,
    }
}

/// Keeps a player who is fought from logging out.
pub fn engage(ctx: &mut TickCtx, target: AgentKey, config: &GameConfig)
    requires
        old(ctx).wf(),
        old(ctx).tick.0 + config.logout_block_ticks.0 <= u64::MAX,
    ensures
        final(ctx).wf(),
        final(ctx)@ == engaged(old(ctx)@, target, *config),
{
    let creature: bool = match ctx.map.map().get_agent(target) {
        Some(agent) => agent.is_creature(),
        None => return ,
    };
    if creature {
        return ;
    }
    let tick: Tick = ctx.tick;
    let created: bool = match ctx.map.agent_mut(target) {
        Some(mut agent) => agent.reset_logout_block(tick, config),
        None => false,
    };
    if created {
        schedule_expiry(ctx, target, TimedCondition::LogoutBlock);
    }
}

/// The world after a blow was struck: the striker has to wait for the next.
pub open spec fn struck_out(w: TickView, attacker: AgentKey, config: GameConfig) -> TickView {
    match agent_of(w, attacker) {
        Some(a) => TickView {
            world: WorldMapView {
                map: with_agent(w.world.map, attacker, auto_attack_stamped(a, w.tick, config)),
                ..w.world
            },
            ..w
        },
        None => w,
    }
}

/// Whether somebody drops its target for having lost sight of it can be found out of anybody.
pub open spec fn can_drop<D: Fn(TickCtx, AgentKey) -> (TickCtx, bool)>(drop_unreachable: D) -> bool {
    &&& forall|c: TickCtx, key: AgentKey| c.wf() ==> #[trigger] drop_unreachable.requires((c, key))
    &&& forall|c: TickCtx, key: AgentKey, r: (TickCtx, bool)|
        c.wf() && #[trigger] drop_unreachable.ensures((c, key), r) ==> r.0.wf() && r.0.tick
            == c.tick
}

/// A blow can be planned for anybody.
pub open spec fn can_plan<T, P: Fn(&TickCtx, AgentKey) -> Option<(AgentKey, T)>>(plan: P) -> bool {
    forall|c: &TickCtx, key: AgentKey| c.wf() ==> #[trigger] plan.requires((c, key))
}

/// From `before` to `after` somebody struck, where it was its turn to: the blow was planned, its
/// striker has to wait for the next, and it was dealt.
pub open spec fn swung<
    T,
    P: Fn(&TickCtx, AgentKey) -> Option<(AgentKey, T)>,
    X: Fn(TickCtx, T) -> TickCtx,
>(before: TickCtx, key: AgentKey, after: TickCtx, plan: P, deal: X, config: GameConfig) -> bool {
    exists|planned: Option<(AgentKey, T)>|
        {
            &&& #[trigger] plan.ensures((&before, key), planned)
            &&& match planned {
                None => after == before,
                Some((attacker, blow)) => exists|c: TickCtx|
                    {
                        &&& c.wf()
                        &&& c@ == struck_out(before@, attacker, config)
                        &&& #[trigger] deal.ensures((c, blow), after)
                    },
            }
        }
}

/// Strikes at the target of `agent_key`, where it is its turn to. `plan` says whether it is, who
/// strikes and with what, and `deal` deals it.
pub fn drive_auto_attack<
    T,
    P: Fn(&TickCtx, AgentKey) -> Option<(AgentKey, T)>,
    X: Fn(TickCtx, T) -> TickCtx,
>(ctx: TickCtx, agent_key: AgentKey, plan: &P, deal: &X, config: &GameConfig) -> (after: TickCtx)
    requires
        ctx.wf(),
        ctx.tick.0 + config.combat.auto_attack_ticks.0 <= u64::MAX,
        can_plan(*plan),
        carries_on(*deal),
    ensures
        after.wf(),
        after.tick == ctx.tick,
        swung(ctx, agent_key, after, *plan, *deal, *config),
{
    let tick: Tick = ctx.tick;
    let planned = plan(&ctx, agent_key);
    match planned {
        None => ctx,
        Some((attacker, blow)) => {
            let mut ctx = ctx;
            if let Some(mut agent) = ctx.map.agent_mut(attacker) {
                agent.stamp_auto_attack(tick, config);
            }
            deal(ctx, blow)
        },
    }
}

/// From `before` to `after` one fighter had its turn: it dropped its target, or that one was
/// engaged and struck at.
pub open spec fn had_turn<
    T,
    D: Fn(TickCtx, AgentKey) -> (TickCtx, bool),
    P: Fn(&TickCtx, AgentKey) -> Option<(AgentKey, T)>,
    X: Fn(TickCtx, T) -> TickCtx,
>(
    before: TickCtx,
    fighter: (AgentKey, AgentKey),
    after: TickCtx,
    drop_unreachable: D,
    plan: P,
    deal: X,
    config: GameConfig,
) -> bool {
    exists|looked: TickCtx, dropped: bool|
        {
            &&& #[trigger] drop_unreachable.ensures((before, fighter.0), (looked, dropped))
            &&& if dropped {
                after == looked
            } else {
                exists|met: TickCtx|
                    {
                        &&& met.wf()
                        &&& met@ == engaged(looked@, fighter.1, config)
                        &&& #[trigger] swung(met, fighter.0, after, plan, deal, config)
                    }
            }
        }
}

/// `states` are the states of a round in which each of the fighters has one turn, in their order.
pub open spec fn rounds<
    T,
    D: Fn(TickCtx, AgentKey) -> (TickCtx, bool),
    P: Fn(&TickCtx, AgentKey) -> Option<(AgentKey, T)>,
    X: Fn(TickCtx, T) -> TickCtx,
>(
    states: Seq<TickCtx>,
    fighters: Seq<(AgentKey, AgentKey)>,
    drop_unreachable: D,
    plan: P,
    deal: X,
    config: GameConfig,
) -> bool {
    &&& states.len() == fighters.len() + 1
    &&& forall|i: int|
        0 <= i < fighters.len() ==> had_turn(
            #[trigger] states[i],
            fighters[i],
            states[i + 1],
            drop_unreachable,
            plan,
            deal,
            config,
        )
}

/// A round of fighting: everybody who fights somebody as it begins has one turn in it.
/// `drop_unreachable` drops a target that its fighter has lost sight of, and says so.
pub fn combat_system<
    T,
    D: Fn(TickCtx, AgentKey) -> (TickCtx, bool),
    P: Fn(&TickCtx, AgentKey) -> Option<(AgentKey, T)>,
    X: Fn(TickCtx, T) -> TickCtx,
>(ctx: TickCtx, drop_unreachable: &D, plan: &P, deal: &X, config: &GameConfig) -> (after: TickCtx)
    requires
        ctx.wf(),
        ctx.tick.0 + config.logout_block_ticks.0 <= u64::MAX,
        ctx.tick.0 + config.combat.auto_attack_ticks.0 <= u64::MAX,
        can_drop(*drop_unreachable),
        can_plan(*plan),
        carries_on(*deal),
    ensures
        after.wf(),
        after.tick == ctx.tick,
        exists|fighters: Seq<(AgentKey, AgentKey)>, states: Seq<TickCtx>|
            {
                &&& all_fighters(ctx@.world.map, fighters)
                &&& #[trigger] rounds(
                    states,
                    fighters,
                    *drop_unreachable,
                    *plan,
                    *deal,
                    *config,
                )
                &&& states.first() == ctx
                &&& states.last() == after
            },
{
    let fighters = agents_with_targets(ctx.map.map());
    let ghost mut states: Seq<TickCtx> = seq![ctx];
    let ghost first = ctx;
    let mut ctx: TickCtx = ctx;
    let mut i: usize = 0;
    while i < fighters.len()
        invariant
            i <= fighters@.len(),
            ctx.wf(),
            ctx.tick == first.tick,
            ctx.tick.0 + config.logout_block_ticks.0 <= u64::MAX,
            ctx.tick.0 + config.combat.auto_attack_ticks.0 <= u64::MAX,
            can_drop(*drop_unreachable),
            can_plan(*plan),
            carries_on(*deal),
            states.len() == i + 1,
            states.first() == first,
            states.last() == ctx,
            rounds(
                states,
                fighters@.take(i as int),
                *drop_unreachable,
                *plan,
                *deal,
                *config,
            ),
        decreases fighters.len() - i,
    {
        let ghost before = ctx;
        let (agent_key, target): (AgentKey, AgentKey) = (fighters[i].0, fighters[i].1);
        let (looked, dropped): (TickCtx, bool) = drop_unreachable(ctx, agent_key);
        ctx = looked;
        if !dropped {
            engage(&mut ctx, target, config);
            ctx = drive_auto_attack(ctx, agent_key, plan, deal, config);
        }
        proof {
            assert(had_turn(
                before,
                fighters@[i as int],
                ctx,
                *drop_unreachable,
                *plan,
                *deal,
                *config,
            ));
            let seen = fighters@.take(i as int);
            let next = fighters@.take(i + 1);
            let all = states.push(ctx);
            assert forall|j: int| 0 <= j < next.len() implies had_turn(
                #[trigger] all[j],
                next[j],
                all[j + 1],
                *drop_unreachable,
                *plan,
                *deal,
                *config,
            ) by {
                if j < i {
                    assert(states[j] == all[j]);
                    assert(seen[j] == next[j]);
                }
            }
            states = all;
        }
        i += 1;
    }
    assert(fighters@.take(fighters@.len() as int) =~= fighters@);
    ctx
}

/// However long a player is fought, one end of its logout block is pending: each fight puts the
/// end off, and only one that finds no block books an end.
pub proof fn law_one_logout_expiry_is_pending(w: TickView, target: AgentKey, config: GameConfig)
    requires
        agent_of(w, target) matches Some(a) && a.body is Player && one_of_each(a.conditions),
        w.tick.0 + config.logout_block_ticks.0 <= u64::MAX,
    ensures
        ({
            let later = engaged(w, target, config);
            &&& agent_of(later, target) matches Some(a) && one_of_each(a.conditions) && until_of(
                condition_of(a.conditions, ConditionKind::LogoutBlock),
            ) == Some(Tick((w.tick.0 + config.logout_block_ticks.0) as u64))
            &&& under(agent_of(w, target).unwrap().conditions, ConditionKind::LogoutBlock)
                ==> later.scheduled == w.scheduled
            &&& !under(agent_of(w, target).unwrap().conditions, ConditionKind::LogoutBlock)
                ==> later.scheduled.len() == w.scheduled.len() + 1
        }),
{
    let a = agent_of(w, target).unwrap();
    let block = Condition::LogoutBlock {
        until: Tick((w.tick.0 + config.logout_block_ticks.0) as u64),
    };
    law_conditions_do_not_disturb_each_other(a.conditions, block, ConditionKind::Fed);
}

/// Whoever strikes has to wait for the next blow, and for nothing else; nobody else does.
pub proof fn law_a_blow_makes_its_striker_wait(
    w: TickView,
    attacker: AgentKey,
    config: GameConfig,
    other: AgentKey,
)
    requires
        agent_of(w, attacker) is Some,
        w.tick.0 + config.combat.auto_attack_ticks.0 <= u64::MAX,
        other != attacker,
    ensures
        ({
            let later = struck_out(w, attacker, config);
            let before = agent_of(w, attacker).unwrap();
            &&& agent_of(later, attacker) matches Some(after) && after.next_auto_attack_tick.0
                == w.tick.0 + config.combat.auto_attack_ticks.0 && (AgentView {
                next_auto_attack_tick: before.next_auto_attack_tick,
                ..after
            }) == before
            &&& agent_of(later, other) == agent_of(w, other)
            &&& later.events == w.events && later.scheduled == w.scheduled
        }),
{
}

/// Only players are kept from logging out by a fight, and only whoever is fought.
pub proof fn law_a_fight_keeps_only_the_fought_player(
    w: TickView,
    target: AgentKey,
    config: GameConfig,
    other: AgentKey,
)
    requires
        other != target,
    ensures
        agent_of(engaged(w, target, config), other) == agent_of(w, other),
        (agent_of(w, target) matches Some(a) && a.body is Creature) ==> engaged(w, target, config)
            == w,
        agent_of(w, target) is None ==> engaged(w, target, config) == w,
        agent_of(w, target) matches Some(a) ==> (agent_of(
            engaged(w, target, config),
            target,
        ) matches Some(after) && after.life == a.life && after.target == a.target),
{
}

/// A player that is fought cannot log out until so long after; the end of that is booked for then
/// where none was yet.
pub proof fn law_a_fought_player_cannot_log_out_for_a_while(
    w: TickView,
    target: AgentKey,
    config: GameConfig,
)
    requires
        agent_of(w, target) matches Some(a) && a.body is Player && one_of_each(a.conditions),
        w.tick.0 + config.logout_block_ticks.0 <= u64::MAX,
    ensures
        ({
            let before = agent_of(w, target).unwrap();
            let later = engaged(w, target, config);
            let end = w.tick.0 + config.logout_block_ticks.0;
            &&& agent_of(later, target) matches Some(after) && (condition_of(
                after.conditions,
                ConditionKind::LogoutBlock,
            ) matches Some(Condition::LogoutBlock { until }) && until.0 == end)
            &&& under(before.conditions, ConditionKind::LogoutBlock) ==> later.scheduled
                == w.scheduled
            &&& !under(before.conditions, ConditionKind::LogoutBlock) ==> later.scheduled.len()
                == w.scheduled.len() + 1 && later.scheduled.last().at_tick.0 == end && (
            later.scheduled.last().command matches CommandView::ConditionExpired {
                agent_key,
                kind,
            } && agent_key == target && kind == TimedCondition::LogoutBlock)
            &&& later.events == w.events
        }),
{
    let a = agent_of(w, target).unwrap();
    let block = Condition::LogoutBlock {
        until: Tick((w.tick.0 + config.logout_block_ticks.0) as u64),
    };
    lemma_with(a.conditions, block);
}

/// Whoever strikes has had to wait before the blow is dealt, and who does not strike changes
/// nothing.
pub proof fn law_a_blow_is_paid_for_before_it_is_dealt<
    T,
    P: Fn(&TickCtx, AgentKey) -> Option<(AgentKey, T)>,
    X: Fn(TickCtx, T) -> TickCtx,
>(before: TickCtx, key: AgentKey, after: TickCtx, plan: P, deal: X, config: GameConfig)
    requires
        swung(before, key, after, plan, deal, config),
        agent_of(before@, key) is Some,
        before@.tick.0 + config.combat.auto_attack_ticks.0 <= u64::MAX,
        forall|r: Option<(AgentKey, T)>| #[trigger]
            plan.ensures((&before, key), r) ==> (r matches Some((who, _)) ==> who == key),
    ensures
        after == before || exists|c: TickCtx, blow: T|
            #[trigger] deal.ensures((c, blow), after) && (agent_of(c@, key) matches Some(a)
                && a.next_auto_attack_tick.0 == before@.tick.0
                + config.combat.auto_attack_ticks.0),
{
    let planned = choose|planned: Option<(AgentKey, T)>|
        {
            &&& #[trigger] plan.ensures((&before, key), planned)
            &&& match planned {
                None => after == before,
                Some((attacker, blow)) => exists|c: TickCtx|
                    {
                        &&& c.wf()
                        &&& c@ == struck_out(before@, attacker, config)
                        &&& #[trigger] deal.ensures((c, blow), after)
                    },
            }
        };
    if let Some((attacker, blow)) = planned {
        let c = choose|c: TickCtx|
            {
                &&& c.wf()
                &&& c@ == struck_out(before@, attacker, config)
                &&& #[trigger] deal.ensures((c, blow), after)
            };
        assert(deal.ensures((c, blow), after));
        assert(attacker == key);
    }
}

} // verus!
