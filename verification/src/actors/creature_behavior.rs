//! Which creatures decide what to do in a tick.

use crate::entities::agent::AgentKey;
use crate::entities::map::GameMap;
use crate::game::tick::Tick;
use vstd::prelude::*;

verus! {

/// Creatures are split across this many buckets, one of which decides in each tick, so that a
/// creature decides once in as many ticks.
pub const BEHAVIOUR_BUCKETS: u64 = 5;

/// The bucket that a creature belongs to.
pub open spec fn bucket_of(key: AgentKey) -> u64 {
    key.0 % BEHAVIOUR_BUCKETS
}

/// The bucket that decides in a tick.
pub open spec fn bucket_at(tick: Tick) -> u64 {
    tick.0 % BEHAVIOUR_BUCKETS
}

/// The bucket that a creature belongs to.
pub fn bucket(key: AgentKey) -> (b: u64)
    ensures
        b == bucket_of(key),
        b < BEHAVIOUR_BUCKETS,
{
    key.0 % BEHAVIOUR_BUCKETS
}

/// Those of the first `n` creatures that decide in a tick.
pub open spec fn due_among(active: Seq<AgentKey>, tick: Tick, n: nat) -> Seq<AgentKey>
    decreases n,
{
    if n == 0 {
        Seq::empty()
    } else {
        let before = due_among(active, tick, (n - 1) as nat);
        if bucket_of(active[n - 1]) == bucket_at(tick) {
            before.push(active[n - 1])
        } else {
            before
        }
    }
}

/// Which of the active creatures decide in a tick.
pub fn due_creatures(active: &Vec<AgentKey>, tick: Tick) -> (due: Vec<AgentKey>)
    ensures
        due@ == due_among(active@, tick, active@.len()),
{
    let now: u64 = tick.0 % BEHAVIOUR_BUCKETS;
    let mut due: Vec<AgentKey> = Vec::new();
    let mut i: usize = 0;
    while i < active.len()
        invariant
            i <= active@.len(),
            now == bucket_at(tick),
            due@ == due_among(active@, tick, i as nat),
        decreases active.len() - i,
    {
        if bucket(active[i]) == now {
            due.push(active[i]);
        }
        i += 1;
    }
    due
}

/// What is remembered of a creature can be forgotten: it is gone, and the round begins anew.
pub open spec fn forgotten(there: bool, tick: Tick) -> bool {
    bucket_at(tick) == 0 && !there
}

/// Which of the creatures that something is remembered of are forgotten in a tick: once in a round
/// all that are no longer on the map.
pub fn forget_gone(remembered: &Vec<AgentKey>, map: &GameMap, tick: Tick) -> (gone: Vec<AgentKey>)
    requires
        map.wf(),
    ensures
        gone@ == remembered@.filter(
            |key: AgentKey| forgotten(map@.agents.contains_key(key.0), tick),
        ),
{
    let ghost drop = |key: AgentKey| forgotten(map@.agents.contains_key(key.0), tick);
    let begins: bool = tick.0 % BEHAVIOUR_BUCKETS == 0;
    let mut gone: Vec<AgentKey> = Vec::new();
    let mut i: usize = 0;
    assert(remembered@.take(0).filter(drop) =~= Seq::empty()) by {
        reveal(Seq::filter);
    }
    while i < remembered.len()
        invariant
            i <= remembered@.len(),
            map.wf(),
            begins == (bucket_at(tick) == 0),
            drop == (|key: AgentKey| forgotten(map@.agents.contains_key(key.0), tick)),
            gone@ == remembered@.take(i as int).filter(drop),
        decreases remembered.len() - i,
    {
        let key: AgentKey = remembered[i];
        proof {
            reveal(Seq::filter);
            assert(remembered@.take(i + 1).drop_last() =~= remembered@.take(i as int));
            assert(remembered@.take(i + 1).last() == key);
        }
        if begins && map.get_agent(key).is_none() {
            gone.push(key);
        }
        i += 1;
    }
    assert(remembered@.take(remembered@.len() as int) =~= remembered@);
    gone
}

/// Every creature decides in exactly one of as many ticks in a row as there are buckets.
pub proof fn law_every_creature_decides_once_a_round(key: AgentKey, start: u64) -> (tick: u64)
    requires
        start + BEHAVIOUR_BUCKETS <= u64::MAX,
    ensures
        start <= tick < start + BEHAVIOUR_BUCKETS,
        bucket_of(key) == bucket_at(Tick(tick)),
        forall|other: u64|
            start <= other < start + BEHAVIOUR_BUCKETS && bucket_of(key) == #[trigger] bucket_at(
                Tick(other),
            ) ==> other == tick,
{
    let b = key.0 % 5;
    let s = start % 5;
    let wait = if b >= s {
        b - s
    } else {
        b + 5 - s
    };
    let tick = (start + wait) as u64;
    assert(tick % 5 == b);
    tick
}

/// The creatures that are due are just those among the active ones whose turn it is: the tick and
/// the creature's key leave the same rest when they are divided by the length of a round.
pub proof fn law_just_those_whose_turn_it_is_are_due(
    active: Seq<AgentKey>,
    tick: Tick,
    n: nat,
    key: AgentKey,
)
    requires
        n <= active.len(),
    ensures
        due_among(active, tick, n).contains(key) <==> active.take(n as int).contains(key) && (
        key.0 as int - tick.0 as int) % (BEHAVIOUR_BUCKETS as int) == 0,
    decreases n,
{
    if n > 0 {
        law_just_those_whose_turn_it_is_are_due(active, tick, (n - 1) as nat, key);
        let before = due_among(active, tick, (n - 1) as nat);
        let after = due_among(active, tick, n);
        let last = active[n - 1];
        assert(active.take(n as int) =~= active.take(n - 1).push(last));
        if active.take(n - 1).contains(key) {
            assert(active.take(n as int)[active.take(n - 1).index_of(key)] == key);
        }
        assert(active.take(n as int)[n - 1] == last);
        if before.contains(key) {
            assert(after[before.index_of(key)] == key);
        }
        if after.len() > before.len() {
            assert(after[before.len() as int] == last);
        }
        if after.contains(key) {
            let i = after.index_of(key);
            if i < before.len() {
                assert(before[i] == key);
            }
        }
    }
}

/// Creatures are forgotten only when they are gone, and then once a round.
pub proof fn law_only_the_gone_are_forgotten(there: bool, tick: Tick)
    requires
        tick.0 + BEHAVIOUR_BUCKETS <= u64::MAX,
    ensures
        there ==> !forgotten(there, tick),
        !there ==> exists|t: u64|
            tick.0 <= t < tick.0 + BEHAVIOUR_BUCKETS && #[trigger] forgotten(there, Tick(t)),
        forall|t: u64|
            tick.0 < t < tick.0 + BEHAVIOUR_BUCKETS && forgotten(there, tick) ==> !#[trigger] forgotten(
                there,
                Tick(t),
            ),
{
    let s = tick.0 % 5;
    let wait = if s == 0 {
        0int
    } else {
        5 - s
    };
    let t = (tick.0 + wait) as u64;
    assert(t % 5 == 0);
    if !there {
        assert(forgotten(there, Tick(t)));
    }
}

} // verus!
