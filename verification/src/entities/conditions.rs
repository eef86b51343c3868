//! What an agent is under: food, spells and wounds that work on it over time.

use crate::doubles::{at_least, nearest, off_one, ratio, DoubleView};
use crate::entities::agent::AgentKey;
use crate::entities::combat::{Bounds, CombatElement};
use crate::entities::condition_list::{listed, ConditionList};
use crate::game::config::GameConfig;
use crate::game::tick::{Tick, TickDelta};
use vstd::prelude::*;

verus! {

pub const LOGOUT_BLOCK_BIT: u32 = 1;

pub const HUNGRY_BIT: u32 = 2;

pub const PARALYZED_BIT: u32 = 4;

pub const BURNING_BIT: u32 = 8;

pub const POISONED_BIT: u32 = 16;

pub const ELECTRIFIED_BIT: u32 = 32;

pub const HASTED_BIT: u32 = 64;

pub const MAGIC_SHIELD_BIT: u32 = 128;

/// What wounds over time: with what, by how much, how often and along which schedule. A delayed
/// one hits for the first time only when its interval is over.
#[derive(Debug, Clone, Copy, PartialEq, Eq, Structural)]
pub struct ConditionSpec {
    pub element: CombatElement,
    pub damage: Bounds,
    pub interval: TickDelta,
    pub schedule: SpecSchedule,
    pub delayed: bool,
}

#[derive(Debug, Clone, Copy, PartialEq, Eq, Structural)]
pub enum SpecSchedule {
    Decaying { start: Option<u32> },
    Flat { count: u32 },
}

#[derive(Copy, Clone, Eq, PartialEq, Debug, Structural)]
pub enum SpeedEffect {
    Haste,
    Paralysis,
}

/// A condition that lasts until a tick.
#[derive(Copy, Clone, Eq, PartialEq, Debug, Structural)]
pub enum TimedCondition {
    Fed,
    LogoutBlock,
    MagicShield,
}

/// One hit of a wound, and whether it was the last.
#[derive(Copy, Clone, Eq, PartialEq, Debug, Structural)]
pub struct DamageHit {
    pub value: u32,
    pub source: Option<AgentKey>,
    pub interval: TickDelta,
    pub exhausted: bool,
}

/// Along which hits a wound deals what it has to deal.
#[derive(Copy, Clone, Eq, PartialEq, Debug, Structural)]
pub enum Schedule {
    /// From `start` down to one, `total` in all.
    Decaying { total: u32, start: u32, value: u32, dealt: u32 },
    /// The same value each time.
    Flat { value: u32, remaining: u32 },
}

#[derive(Copy, Clone, Eq, PartialEq, Debug, Structural)]
pub struct DamageOverTime {
    pub element: CombatElement,
    pub source: Option<AgentKey>,
    pub interval: TickDelta,
    pub generation: u32,
    pub schedule: Schedule,
}

pub open spec fn distance_to(a: int, b: int) -> int {
    if a >= b {
        a - b
    } else {
        b - a
    }
}

/// What a wound still has to deal.
pub open spec fn left(schedule: Schedule) -> int {
    match schedule {
        Schedule::Decaying { total, dealt, .. } => if dealt >= total {
            0
        } else {
            total - dealt
        },
        Schedule::Flat { value, remaining } => value * remaining,
    }
}

/// The next hit of a schedule: a decaying one never deals more than is left to deal.
pub open spec fn hit_of(schedule: Schedule) -> Option<u32> {
    match schedule {
        Schedule::Decaying { total, value, dealt, .. } => if value == 0 || dealt >= total {
            None
        } else if value <= total - dealt {
            Some(value)
        } else {
            Some((total - dealt) as u32)
        },
        Schedule::Flat { value, remaining } => if remaining == 0 {
            None
        } else {
            Some(value)
        },
    }
}

/// Where the running total should stand once the hits of `value` are over: on a straight line to
/// `total`.
pub open spec fn milestone(total: u32, start: u32, value: u32) -> int {
    (start + 1 - value) * total / (start as int)
}

/// How far a running total is from its milestone, as a fraction of that, in double precision.
pub open spec fn off_line(dealt: int, line: int) -> DoubleView {
    off_one(nearest(dealt, line, 0))
}

/// Another hit of `value` brings the running total nearer to its milestone. Two distances that
/// differ do so by far more than rounding moves them; between two that are the same, what double
/// precision makes of them decides.
pub open spec fn nearer_with_another(line: int, dealt: int, value: int) -> bool {
    let with_another = distance_to(line, dealt + value);
    let as_is = distance_to(line, dealt);
    if with_another == as_is {
        !at_least(off_line(dealt + value, line), off_line(dealt, line))
    } else {
        with_another < as_is
    }
}

/// The schedule after its next hit. A decaying one falls by one as soon as another hit of the
/// same value would bring the running total no nearer to its milestone.
pub open spec fn after_hit(schedule: Schedule) -> Schedule {
    match schedule {
        Schedule::Decaying { total, start, value, dealt } => match hit_of(schedule) {
            None => schedule,
            Some(hit) => {
                let sum = dealt + hit;
                let line = milestone(total, start, value);
                Schedule::Decaying {
                    total,
                    start,
                    value: if nearer_with_another(line, sum, value as int) {
                        value
                    } else {
                        (value - 1) as u32
                    },
                    dealt: sum as u32,
                }
            },
        },
        Schedule::Flat { value, remaining } => if remaining == 0 {
            schedule
        } else {
            Schedule::Flat { value, remaining: (remaining - 1) as u32 }
        },
    }
}

/// A schedule that its constructors and its hits keep to.
pub open spec fn sound(schedule: Schedule) -> bool {
    match schedule {
        Schedule::Decaying { total, start, value, dealt } => {
            &&& 1 <= start
            &&& total > 0 ==> start <= total
            &&& value <= start
            &&& dealt < total ==> value >= 1
        },
        Schedule::Flat { .. } => true,
    }
}

impl DamageOverTime {
    /// A wound whose hits fall from `start` to one and add up to `total`. Where no `start` is
    /// given it is a twentieth of `total`; one above `total` is cut to it.
    pub fn decaying(
        element: CombatElement,
        source: Option<AgentKey>,
        interval: TickDelta,
        total: u32,
        start: Option<u32>,
    ) -> (d: Self)
        ensures
            ({
                let asked = match start {
                    Some(start) => start as int,
                    None => (total + 19) / 20,
                };
                let most = if total > 1 { total as int } else { 1 };
                let first = if asked < 1 {
                    1
                } else if asked > most {
                    most
                } else {
                    asked
                };
                d == (DamageOverTime {
                    element,
                    source,
                    interval,
                    generation: 0,
                    schedule: Schedule::Decaying {
                        total,
                        start: first as u32,
                        value: first as u32,
                        dealt: 0,
                    },
                })
            }),
            sound(d.schedule),
            left(d.schedule) == total,
    {
        let asked: u32 = match start {
            Some(start) => start,
            None => if total % 20 == 0 {
                total / 20
            } else {
                total / 20 + 1
            },
        };
        let most: u32 = if total > 1 {
            total
        } else {
            1
        };
        let start: u32 = if asked < 1 {
            1
        } else if asked > most {
            most
        } else {
            asked
        };
        DamageOverTime::new(
            element,
            source,
            interval,
            Schedule::Decaying { total, start, value: start, dealt: 0 },
        )
    }

    /// A wound that hits `count` times for `value`.
    pub fn flat(
        element: CombatElement,
        source: Option<AgentKey>,
        interval: TickDelta,
        value: u32,
        count: u32,
    ) -> (d: Self)
        ensures
            d == (DamageOverTime {
                element,
                source,
                interval,
                generation: 0,
                schedule: Schedule::Flat { value, remaining: count },
            }),
            sound(d.schedule),
    {
        DamageOverTime::new(element, source, interval, Schedule::Flat { value, remaining: count })
    }

    fn new(
        element: CombatElement,
        source: Option<AgentKey>,
        interval: TickDelta,
        schedule: Schedule,
    ) -> (d: Self)
        ensures
            d == (DamageOverTime { element, source, interval, generation: 0, schedule }),
    {
        DamageOverTime { element, source, interval, generation: 0, schedule }
    }

    pub fn element(&self) -> (e: CombatElement)
        ensures
            e == self.element,
    {
        self.element
    }

    /// What the wound still has to deal.
    pub fn remaining(&self) -> (r: u32)
        requires
            left(self.schedule) <= u32::MAX,
        ensures
            r == left(self.schedule),
    {
        match self.schedule {
            Schedule::Decaying { total, dealt, .. } => total.saturating_sub(dealt),
            Schedule::Flat { value, remaining } => value * remaining,
        }
    }

    /// The next hit, which the wound then has behind it.
    pub fn next_hit(&mut self) -> (hit: Option<u32>)
        requires
            sound(old(self).schedule),
        ensures
            hit == hit_of(old(self).schedule),
            *final(self) == (DamageOverTime {
                schedule: after_hit(old(self).schedule),
                ..*old(self)
            }),
            sound(final(self).schedule),
    {
        match self.schedule {
            Schedule::Decaying { total, start, value, dealt } => {
                if value == 0 || dealt >= total {
                    return None;
                }
                let hit: u32 = if value <= total - dealt {
                    value
                } else {
                    total - dealt
                };
                let sum: u32 = dealt + hit;
                proof {
                    lemma_milestone_fits(total, start, value);
                }
                let line: u64 = (start as u64 + 1 - value as u64) * (total as u64) / (start as u64);
                let another: u64 = sum as u64 + value as u64;
                let with_another: u64 = if line >= another {
                    line - another
                } else {
                    another - line
                };
                let as_is: u64 = if line >= sum as u64 {
                    line - sum as u64
                } else {
                    sum as u64 - line
                };
                let nearer: bool = if with_another == as_is {
                    !ratio(another, line).off_one().at_least(&ratio(sum as u64, line).off_one())
                } else {
                    with_another < as_is
                };
                let next: u32 = if nearer {
                    value
                } else {
                    value - 1
                };
                proof {
                    if value == 1 && sum < total {
                        lemma_last_milestone(total, start);
                    }
                }
                self.schedule = Schedule::Decaying { total, start, value: next, dealt: sum };
                Some(hit)
            },
            Schedule::Flat { value, remaining } => {
                if remaining == 0 {
                    return None;
                }
                self.schedule = Schedule::Flat { value, remaining: remaining - 1 };
                Some(value)
            },
        }
    }
}

proof fn lemma_milestone_fits(total: u32, start: u32, value: u32)
    requires
        1 <= value <= start,
    ensures
        0 <= (start + 1 - value) * total <= u64::MAX,
        0 <= milestone(total, start, value) <= total,
        start <= total ==> milestone(total, start, value) >= 1,
{
    let n = start + 1 - value;
    assert(0 <= n * total <= start * total) by (nonlinear_arith)
        requires
            0 <= n <= start,
            0 <= total,
    ;
    assert(start * total <= 0xFFFF_FFFF * 0xFFFF_FFFF) by (nonlinear_arith)
        requires
            0 <= start <= 0xFFFF_FFFF,
            0 <= total <= 0xFFFF_FFFF,
    ;
    assert(0 <= n * total / (start as int) <= total) by (nonlinear_arith)
        requires
            0 <= n * total <= start * total,
            0 < start,
    ;
    if start <= total {
        assert(n * total / (start as int) >= 1) by (nonlinear_arith)
            requires
                n >= 1,
                total >= start,
                0 < start,
        ;
    }
}

proof fn lemma_last_milestone(total: u32, start: u32)
    requires
        1 <= start,
    ensures
        milestone(total, start, 1) == total,
{
    assert(start * total / (start as int) == total) by (nonlinear_arith)
        requires
            0 < start,
    ;
}

/// Every hit is taken off what the wound still has to deal, and a wound that still has something
/// to deal has a hit: the hits add up to the roll, whatever the start.
pub proof fn law_a_wound_deals_what_it_has(schedule: Schedule)
    requires
        sound(schedule),
    ensures
        left(schedule) > 0 <==> (hit_of(schedule) matches Some(hit) && hit > 0),
        hit_of(schedule) matches Some(hit) ==> left(after_hit(schedule)) == left(schedule) - hit,
        hit_of(schedule) is None ==> after_hit(schedule) == schedule,
{
    match schedule {
        Schedule::Decaying { .. } => {},
        Schedule::Flat { value, remaining } => {
            if remaining > 0 {
                assert(value * (remaining - 1) == value * remaining - value) by (nonlinear_arith);
                assert(value * remaining > 0 <==> value > 0) by (nonlinear_arith)
                    requires
                        remaining > 0,
                        value >= 0,
                ;
            } else {
                assert(value * remaining == 0) by (nonlinear_arith)
                    requires
                        remaining == 0,
                ;
            }
        },
    }
}

/// The sum of the next `n` hits.
pub open spec fn dealt_in(schedule: Schedule, n: nat) -> int
    decreases n,
{
    if n == 0 {
        0
    } else {
        (match hit_of(schedule) {
            Some(hit) => hit as int,
            None => 0,
        }) + dealt_in(after_hit(schedule), (n - 1) as nat)
    }
}

proof fn lemma_after_hit_sound(schedule: Schedule)
    requires
        sound(schedule),
    ensures
        sound(after_hit(schedule)),
{
    if let Schedule::Decaying { total, start, value, dealt } = schedule {
        if !(value == 0 || dealt >= total) {
            lemma_milestone_fits(total, start, value);
            if value == 1 {
                lemma_last_milestone(total, start);
            }
        }
    }
}

/// However many hits are taken, they never deal more than the wound had to deal, and what is
/// left is what they did not deal.
pub proof fn law_hits_never_overspend(schedule: Schedule, n: nat)
    requires
        sound(schedule),
    ensures
        0 <= dealt_in(schedule, n) <= left(schedule),
    decreases n,
{
    law_a_wound_deals_what_it_has(schedule);
    if n > 0 {
        lemma_after_hit_sound(schedule);
        law_hits_never_overspend(after_hit(schedule), (n - 1) as nat);
    } else {
        if let Schedule::Flat { value, remaining } = schedule {
            assert(value * remaining >= 0) by (nonlinear_arith)
                requires
                    value >= 0,
                    remaining >= 0,
            ;
        }
    }
}

/// A decaying wound is over after at most as many hits as it has to deal, and has then dealt all
/// of it.
pub proof fn law_a_decaying_wound_deals_all(schedule: Schedule, n: nat)
    requires
        sound(schedule),
        schedule is Decaying,
        n >= left(schedule),
    ensures
        dealt_in(schedule, n) == left(schedule),
    decreases n,
{
    law_a_wound_deals_what_it_has(schedule);
    law_hits_never_overspend(schedule, n);
    if n > 0 {
        lemma_after_hit_sound(schedule);
        law_a_decaying_wound_deals_all(after_hit(schedule), (n - 1) as nat);
    }
}

/// The hits of a decaying wound fall slowly: each is at least one, and the next is as much or one
/// less, but for the last, which is cut to what is left. The same holds of every hit after it.
pub proof fn law_a_decaying_wound_falls_slowly(schedule: Schedule)
    requires
        sound(schedule),
        schedule is Decaying,
    ensures
        sound(after_hit(schedule)),
        after_hit(schedule) is Decaying,
        hit_of(schedule) matches Some(hit) ==> {
            &&& hit >= 1
            &&& hit_of(after_hit(schedule)) matches Some(next) ==> next == hit || next == hit - 1
                || (next < hit && next == left(after_hit(schedule)))
        },
{
    lemma_after_hit_sound(schedule);
}

/// Something that an agent is under. Wounds and the like that are timed carry a generation: what
/// was planned for one that has since been replaced names a generation that is gone.
#[derive(Copy, Clone, Eq, PartialEq, Debug, Structural)]
pub enum Condition {
    Fed { until: Tick, generation: u32 },
    LogoutBlock { until: Tick },
    DamageOverTime(DamageOverTime),
    Speed { effect: SpeedEffect, change: i16, generation: u32 },
    MagicShield { until: Tick },
}

/// What a condition is, of which an agent is under one at most.
#[derive(Copy, Clone, Eq, PartialEq, Debug, Structural)]
pub enum ConditionKind {
    Fed,
    LogoutBlock,
    Speed,
    MagicShield,
    Damage(CombatElement),
}

pub open spec fn kind_of(c: Condition) -> ConditionKind {
    match c {
        Condition::Fed { .. } => ConditionKind::Fed,
        Condition::LogoutBlock { .. } => ConditionKind::LogoutBlock,
        Condition::DamageOverTime(dot) => ConditionKind::Damage(dot.element),
        Condition::Speed { .. } => ConditionKind::Speed,
        Condition::MagicShield { .. } => ConditionKind::MagicShield,
    }
}

impl Condition {
    fn kind(&self) -> (k: ConditionKind)
        ensures
            k == kind_of(*self),
    {
        match self {
            Condition::Fed { .. } => ConditionKind::Fed,
            Condition::LogoutBlock { .. } => ConditionKind::LogoutBlock,
            Condition::DamageOverTime(dot) => ConditionKind::Damage(dot.element),
            Condition::Speed { .. } => ConditionKind::Speed,
            Condition::MagicShield { .. } => ConditionKind::MagicShield,
        }
    }
}

impl TimedCondition {
    pub open spec fn spec_kind(self) -> ConditionKind {
        match self {
            TimedCondition::Fed => ConditionKind::Fed,
            TimedCondition::LogoutBlock => ConditionKind::LogoutBlock,
            TimedCondition::MagicShield => ConditionKind::MagicShield,
        }
    }

    fn kind(self) -> (k: ConditionKind)
        ensures
            k == self.spec_kind(),
    {
        match self {
            TimedCondition::Fed => ConditionKind::Fed,
            TimedCondition::LogoutBlock => ConditionKind::LogoutBlock,
            TimedCondition::MagicShield => ConditionKind::MagicShield,
        }
    }
}

/// The agent is under a condition of this kind.
pub open spec fn under(s: Seq<Condition>, kind: ConditionKind) -> bool {
    exists|i: int| 0 <= i < s.len() && kind_of(#[trigger] s[i]) == kind
}

/// Where the condition of this kind stands.
pub open spec fn place_of(s: Seq<Condition>, kind: ConditionKind) -> int {
    choose|i: int| 0 <= i < s.len() && kind_of(#[trigger] s[i]) == kind
}

/// The condition of this kind.
pub open spec fn condition_of(s: Seq<Condition>, kind: ConditionKind) -> Option<Condition> {
    if under(s, kind) {
        Some(s[place_of(s, kind)])
    } else {
        None
    }
}

/// The conditions without that of this kind.
pub open spec fn without(s: Seq<Condition>, kind: ConditionKind) -> Seq<Condition> {
    if under(s, kind) {
        s.remove(place_of(s, kind))
    } else {
        s
    }
}

/// The conditions with `c`, in the place of the one of its kind or behind the others.
pub open spec fn with(s: Seq<Condition>, c: Condition) -> Seq<Condition> {
    if under(s, kind_of(c)) {
        s.update(place_of(s, kind_of(c)), c)
    } else {
        s.push(c)
    }
}

/// No two conditions are of the same kind.
pub open spec fn one_of_each(s: Seq<Condition>) -> bool {
    forall|i: int, j: int|
        0 <= i < s.len() && 0 <= j < s.len() && kind_of(#[trigger] s[i]) == kind_of(
            #[trigger] s[j],
        ) ==> i == j
}

/// The generation of a condition that has one.
pub open spec fn generation_of(c: Condition) -> Option<u32> {
    match c {
        Condition::Fed { generation, .. } => Some(generation),
        Condition::Speed { generation, .. } => Some(generation),
        Condition::DamageOverTime(dot) => Some(dot.generation),
        _ => None,
    }
}

/// Every generation in use was given out before `next`.
pub open spec fn generations_below(s: Seq<Condition>, next: u32) -> bool {
    forall|i: int|
        0 <= i < s.len() ==> (generation_of(#[trigger] s[i]) matches Some(g) ==> g < next)
}

/// Every wound keeps to its schedule, and what it has left can be counted.
pub open spec fn wounds_sound(s: Seq<Condition>) -> bool {
    forall|i: int|
        0 <= i < s.len() ==> ((#[trigger] s[i]) matches Condition::DamageOverTime(dot) ==> sound(
            dot.schedule,
        ) && left(dot.schedule) <= u32::MAX)
}

pub open spec fn bit(set: bool, value: u32) -> u32 {
    if set {
        value
    } else {
        0
    }
}

/// What a client is told of the conditions: a bit for each, and one for the want of food.
pub open spec fn status_of(s: Seq<Condition>) -> u32 {
    let speed = condition_of(s, ConditionKind::Speed);
    (bit(under(s, ConditionKind::LogoutBlock), LOGOUT_BLOCK_BIT) + bit(
        !under(s, ConditionKind::Fed),
        HUNGRY_BIT,
    ) + bit(
        speed matches Some(Condition::Speed { effect: SpeedEffect::Paralysis, .. }),
        PARALYZED_BIT,
    ) + bit(under(s, ConditionKind::Damage(CombatElement::Fire)), BURNING_BIT) + bit(
        under(s, ConditionKind::Damage(CombatElement::Earth)),
        POISONED_BIT,
    ) + bit(under(s, ConditionKind::Damage(CombatElement::Energy)), ELECTRIFIED_BIT) + bit(
        speed matches Some(Condition::Speed { effect: SpeedEffect::Haste, .. }),
        HASTED_BIT,
    ) + bit(under(s, ConditionKind::MagicShield), MAGIC_SHIELD_BIT)) as u32
}

/// The tick until which a condition lasts.
pub open spec fn until_of(c: Option<Condition>) -> Option<Tick> {
    match c {
        Some(Condition::Fed { until, .. }) => Some(until),
        Some(Condition::LogoutBlock { until }) => Some(until),
        Some(Condition::MagicShield { until }) => Some(until),
        _ => None,
    }
}

/// What the speed condition adds to an agent's speed.
pub open spec fn speed_of(s: Seq<Condition>) -> i16 {
    match condition_of(s, ConditionKind::Speed) {
        Some(Condition::Speed { change, .. }) => change,
        _ => 0,
    }
}

/// How long the agent is still fed.
pub open spec fn food_left(s: Seq<Condition>, now: Tick) -> int {
    match until_of(condition_of(s, ConditionKind::Fed)) {
        Some(until) => if until.0 >= now.0 {
            until.0 - now.0
        } else {
            0
        },
        None => 0,
    }
}

proof fn lemma_place(s: Seq<Condition>, kind: ConditionKind, i: int)
    requires
        one_of_each(s),
        0 <= i < s.len(),
        kind_of(s[i]) == kind,
    ensures
        under(s, kind),
        place_of(s, kind) == i,
{
}

/// Putting a condition in keeps one of each kind, and changes only its own.
pub(crate) proof fn lemma_with(s: Seq<Condition>, c: Condition)
    requires
        one_of_each(s),
    ensures
        one_of_each(with(s, c)),
        condition_of(with(s, c), kind_of(c)) == Some(c),
        forall|kind: ConditionKind|
            kind != kind_of(c) ==> #[trigger] condition_of(with(s, c), kind) == condition_of(s, kind),
{
    let t = with(s, c);
    let k = kind_of(c);
    if under(s, k) {
        let p = place_of(s, k);
        assert(kind_of(s[p]) == k);
        lemma_place(t, k, p);
        assert forall|kind: ConditionKind| kind != k implies #[trigger] condition_of(t, kind)
            == condition_of(s, kind) by {
            if under(s, kind) {
                let q = place_of(s, kind);
                assert(t[q] == s[q]);
                lemma_place(t, kind, q);
            }
            if under(t, kind) {
                let q = place_of(t, kind);
                assert(t[q] == s[q]);
                lemma_place(s, kind, q);
            }
        }
    } else {
        let n = s.len() as int;
        assert(t[n] == c);
        assert(one_of_each(t)) by {
            assert forall|i: int, j: int|
                0 <= i < t.len() && 0 <= j < t.len() && kind_of(#[trigger] t[i]) == kind_of(
                    #[trigger] t[j],
                ) implies i == j by {
                if i < n {
                    assert(t[i] == s[i]);
                }
                if j < n {
                    assert(t[j] == s[j]);
                }
            }
        }
        lemma_place(t, k, n);
        assert forall|kind: ConditionKind| kind != k implies #[trigger] condition_of(t, kind)
            == condition_of(s, kind) by {
            if under(s, kind) {
                let q = place_of(s, kind);
                assert(t[q] == s[q]);
                lemma_place(t, kind, q);
            }
            if under(t, kind) {
                let q = place_of(t, kind);
                assert(t[q] == s[q]);
                lemma_place(s, kind, q);
            }
        }
    }
}

/// Taking a condition out keeps one of each kind, and changes only its own.
proof fn lemma_without(s: Seq<Condition>, k: ConditionKind)
    requires
        one_of_each(s),
    ensures
        one_of_each(without(s, k)),
        !under(without(s, k), k),
        forall|kind: ConditionKind|
            kind != k ==> #[trigger] condition_of(without(s, k), kind) == condition_of(s, kind),
{
    let t = without(s, k);
    if under(s, k) {
        let p = place_of(s, k);
        assert forall|i: int| 0 <= i < t.len() implies #[trigger] t[i] == s[if i < p {
            i
        } else {
            i + 1
        }] by {}
        assert forall|kind: ConditionKind| kind != k implies #[trigger] condition_of(t, kind)
            == condition_of(s, kind) by {
            if under(s, kind) {
                let q = place_of(s, kind);
                let r = if q < p {
                    q
                } else {
                    q - 1
                };
                assert(t[r] == s[q]);
                lemma_place(t, kind, r);
            }
            if under(t, kind) {
                let q = place_of(t, kind);
                lemma_place(
                    s,
                    kind,
                    if q < p {
                        q
                    } else {
                        q + 1
                    },
                );
            }
        }
    }
}

/// What an agent is under.
#[derive(Debug)]
pub struct Conditions {
    conditions: ConditionList,
    next_generation: u32,
}

/// A wound of the same element has as much left to deal as `incoming` has, or more.
pub open spec fn outdone(s: Seq<Condition>, incoming: DamageOverTime) -> bool {
    match condition_of(s, ConditionKind::Damage(incoming.element)) {
        Some(Condition::DamageOverTime(current)) => left(incoming.schedule) <= left(
            current.schedule,
        ),
        _ => false,
    }
}

/// The conditions after a wound, under the generation `next` where it takes hold.
pub open spec fn wounded(s: Seq<Condition>, next: u32, incoming: DamageOverTime) -> Seq<Condition> {
    if outdone(s, incoming) {
        s
    } else {
        with(s, Condition::DamageOverTime(DamageOverTime { generation: next, ..incoming }))
    }
}

impl Conditions {
    /// The conditions, the oldest first.
    pub closed spec fn view(&self) -> Seq<Condition> {
        listed(self.conditions)
    }

    /// The generation that is given out next.
    pub closed spec fn next(&self) -> u32 {
        self.next_generation
    }

    pub open spec fn wf(&self) -> bool {
        one_of_each(self@) && generations_below(self@, self.next()) && wounds_sound(self@)
    }

    pub fn new() -> (c: Self)
        ensures
            c.wf(),
            c@ == Seq::<Condition>::empty(),
            c.next() == 0,
    {
        Conditions { conditions: ConditionList::new(), next_generation: 0 }
    }

    fn find(&self, kind: ConditionKind) -> (r: Option<usize>)
        requires
            self.wf(),
        ensures
            match r {
                Some(i) => i < self@.len() && under(self@, kind) && place_of(self@, kind) == i,
                None => !under(self@, kind),
            },
    {
        let mut i: usize = 0;
        while i < self.conditions.len()
            invariant
                i <= self@.len(),
                self.wf(),
                forall|j: int| 0 <= j < i ==> kind_of(#[trigger] self@[j]) != kind,
            decreases self@.len() - i,
        {
            if self.conditions.at(i).kind() == kind {
                proof {
                    lemma_place(self@, kind, i as int);
                }
                return Some(i);
            }
            i += 1;
        }
        None
    }

    fn get(&self, kind: ConditionKind) -> (r: Option<Condition>)
        requires
            self.wf(),
        ensures
            r == condition_of(self@, kind),
    {
        match self.find(kind) {
            Some(i) => Some(*self.conditions.at(i)),
            None => None,
        }
    }

    /// Takes the condition of this kind out, and says whether there was one.
    fn drop_kind(&mut self, kind: ConditionKind) -> (r: bool)
        requires
            old(self).wf(),
        ensures
            final(self).wf(),
            final(self)@ == without(old(self)@, kind),
            final(self).next() == old(self).next(),
            r == under(old(self)@, kind),
    {
        proof {
            lemma_without(self@, kind);
        }
        match self.find(kind) {
            Some(i) => {
                let _gone = self.conditions.remove(i);
                assert forall|j: int| 0 <= j < self@.len() implies exists|k: int|
                    0 <= k < old(self)@.len() && #[trigger] self@[j] == old(self)@[k] by {
                    let k = if j < i {
                        j
                    } else {
                        j + 1
                    };
                    assert(self@[j] == old(self)@[k]);
                }
                true
            },
            None => false,
        }
    }

    /// Puts a condition in, in the place of the one of its kind or behind the others.
    fn put(&mut self, c: Condition)
        requires
            old(self).wf(),
            generation_of(c) matches Some(g) ==> g < old(self).next(),
            c matches Condition::DamageOverTime(dot) ==> sound(dot.schedule) && left(dot.schedule)
                <= u32::MAX,
        ensures
            final(self).wf(),
            final(self)@ == with(old(self)@, c),
            final(self).next() == old(self).next(),
    {
        proof {
            lemma_with(self@, c);
        }
        match self.find(c.kind()) {
            Some(i) => self.conditions.set(i, c),
            None => self.conditions.push(c),
        }
    }

    /// Until when the agent is fed, and the generation of its meal.
    pub fn fed(&self) -> (r: Option<(Tick, u32)>)
        requires
            self.wf(),
        ensures
            r == match condition_of(self@, ConditionKind::Fed) {
                Some(Condition::Fed { until, generation }) => Some((until, generation)),
                _ => None,
            },
    {
        match self.get(ConditionKind::Fed) {
            Some(Condition::Fed { until, generation }) => Some((until, generation)),
            _ => None,
        }
    }

    /// Whether the agent has room for a meal.
    pub fn can_feed(&self, current_tick: Tick, delta: TickDelta, config: &GameConfig) -> (r: bool)
        requires
            self.wf(),
            food_left(self@, current_tick) + delta.0 <= u64::MAX,
        ensures
            r == (food_left(self@, current_tick) + delta.0 <= config.max_fed_ticks.0),
    {
        let remaining: TickDelta = match self.fed() {
            Some((until, _)) => until.saturating_sub(current_tick),
            None => TickDelta(0),
        };
        remaining.0 + delta.0 <= config.max_fed_ticks.0
    }

    /// Feeds the agent. A meal on top of another makes that one last longer; one after it has
    /// run out starts anew, with a new generation.
    pub fn add_fed_ticks(&mut self, current_tick: Tick, delta: TickDelta) -> (generation: u32)
        requires
            old(self).wf(),
            old(self).next() < u32::MAX,
            current_tick.0 + delta.0 <= u64::MAX,
            until_of(condition_of(old(self)@, ConditionKind::Fed)) matches Some(until) ==> until.0
                + delta.0 <= u64::MAX,
        ensures
            final(self).wf(),
            match condition_of(old(self)@, ConditionKind::Fed) {
                Some(Condition::Fed { until, generation: live }) if until.0 > current_tick.0 => {
                    &&& generation == live
                    &&& final(self).next() == old(self).next()
                    &&& final(self)@ == with(
                        old(self)@,
                        Condition::Fed { until: Tick((until.0 + delta.0) as u64), generation: live },
                    )
                },
                _ => {
                    &&& generation == old(self).next()
                    &&& final(self).next() == old(self).next() + 1
                    &&& final(self)@ == without(old(self)@, ConditionKind::Fed).push(
                        Condition::Fed {
                            until: Tick((current_tick.0 + delta.0) as u64),
                            generation,
                        },
                    )
                },
            },
    {
        if let Some((until, generation)) = self.fed() {
            if until.0 > current_tick.0 {
                proof {
                    let p = place_of(self@, ConditionKind::Fed);
                    assert(generation_of(self@[p]) == Some(generation));
                }
                self.put(Condition::Fed { until: until.plus(delta), generation });
                return generation;
            }
        }
        self.remove_fed();
        let generation: u32 = self.next_generation;
        self.next_generation = self.next_generation + 1;
        let meal = Condition::Fed { until: current_tick.plus(delta), generation };
        proof {
            lemma_without(old(self)@, ConditionKind::Fed);
        }
        self.put(meal);
        generation
    }

    /// The agent is no longer fed.
    pub fn remove_fed(&mut self)
        requires
            old(self).wf(),
        ensures
            final(self).wf(),
            final(self)@ == without(old(self)@, ConditionKind::Fed),
            final(self).next() == old(self).next(),
    {
        let _was = self.drop_kind(ConditionKind::Fed);
    }

    /// Keeps the agent from logging out for a while from now on, and says whether it was free to
    /// until now.
    pub fn reset_logout_block(&mut self, current_tick: Tick, config: &GameConfig) -> (created: bool)
        requires
            old(self).wf(),
            current_tick.0 + config.logout_block_ticks.0 <= u64::MAX,
        ensures
            final(self).wf(),
            created == !under(old(self)@, ConditionKind::LogoutBlock),
            final(self)@ == with(
                old(self)@,
                Condition::LogoutBlock {
                    until: Tick((current_tick.0 + config.logout_block_ticks.0) as u64),
                },
            ),
            final(self).next() == old(self).next(),
    {
        let created: bool = self.find(ConditionKind::LogoutBlock).is_none();
        self.put(Condition::LogoutBlock { until: current_tick.plus(config.logout_block_ticks) });
        created
    }

    /// Whether the agent is kept from logging out.
    pub fn is_logout_blocked(&self, current_tick: Tick) -> (r: bool)
        requires
            self.wf(),
        ensures
            r == (until_of(condition_of(self@, ConditionKind::LogoutBlock)) matches Some(until)
                && until.0 > current_tick.0),
    {
        match self.until(TimedCondition::LogoutBlock) {
            Some(until) => until.0 > current_tick.0,
            None => false,
        }
    }

    /// Changes the agent's speed, in place of any change before.
    pub fn apply_speed(&mut self, effect: SpeedEffect, change: i16) -> (generation: u32)
        requires
            old(self).wf(),
            old(self).next() < u32::MAX,
        ensures
            final(self).wf(),
            generation == old(self).next(),
            final(self).next() == old(self).next() + 1,
            final(self)@ == without(old(self)@, ConditionKind::Speed).push(
                Condition::Speed { effect, change, generation },
            ),
            speed_of(final(self)@) == change,
    {
        let _was = self.drop_kind(ConditionKind::Speed);
        let generation: u32 = self.next_generation;
        self.next_generation = self.next_generation + 1;
        proof {
            lemma_without(old(self)@, ConditionKind::Speed);
            lemma_with(self@, Condition::Speed { effect, change, generation });
        }
        self.put(Condition::Speed { effect, change, generation });
        generation
    }

    /// What is added to the agent's speed.
    pub fn speed_change(&self) -> (r: i16)
        requires
            self.wf(),
        ensures
            r == speed_of(self@),
    {
        match self.get(ConditionKind::Speed) {
            Some(Condition::Speed { change, .. }) => change,
            _ => 0,
        }
    }

    /// Ends the change of speed of this generation, and says whether it was still there.
    pub fn expire_speed(&mut self, generation: u32) -> (r: bool)
        requires
            old(self).wf(),
        ensures
            final(self).wf(),
            final(self).next() == old(self).next(),
            r == (condition_of(old(self)@, ConditionKind::Speed) matches Some(c) && generation_of(c)
                == Some(generation)),
            final(self)@ == (if r {
                without(old(self)@, ConditionKind::Speed)
            } else {
                old(self)@
            }),
    {
        match self.get(ConditionKind::Speed) {
            Some(Condition::Speed { generation: live, .. }) => {
                if live == generation {
                    self.drop_kind(ConditionKind::Speed)
                } else {
                    false
                }
            },
            _ => false,
        }
    }

    /// Shields the agent until a tick, or leaves it with a shield that lasts longer, and says
    /// whether it had none.
    pub fn extend_magic_shield(&mut self, until: Tick) -> (created: bool)
        requires
            old(self).wf(),
        ensures
            final(self).wf(),
            final(self).next() == old(self).next(),
            created == !under(old(self)@, ConditionKind::MagicShield),
            final(self)@ == with(
                old(self)@,
                Condition::MagicShield {
                    until: match until_of(condition_of(old(self)@, ConditionKind::MagicShield)) {
                        Some(existing) => if existing.0 >= until.0 {
                            existing
                        } else {
                            until
                        },
                        None => until,
                    },
                },
            ),
    {
        match self.until(TimedCondition::MagicShield) {
            Some(existing) => {
                let later = if existing.0 >= until.0 {
                    existing
                } else {
                    until
                };
                self.put(Condition::MagicShield { until: later });
                false
            },
            None => {
                self.put(Condition::MagicShield { until });
                true
            },
        }
    }

    /// Until when a timed condition lasts.
    pub fn until(&self, kind: TimedCondition) -> (r: Option<Tick>)
        requires
            self.wf(),
        ensures
            r == until_of(condition_of(self@, kind.spec_kind())),
    {
        match self.get(kind.kind()) {
            Some(Condition::Fed { until, .. }) => Some(until),
            Some(Condition::LogoutBlock { until }) => Some(until),
            Some(Condition::MagicShield { until }) => Some(until),
            _ => None,
        }
    }

    /// Ends a timed condition.
    pub fn remove_timed(&mut self, kind: TimedCondition)
        requires
            old(self).wf(),
        ensures
            final(self).wf(),
            final(self)@ == without(old(self)@, kind.spec_kind()),
            final(self).next() == old(self).next(),
    {
        let _was = self.drop_kind(kind.kind());
    }

    /// Ends the shield.
    pub fn remove_magic_shield(&mut self)
        requires
            old(self).wf(),
        ensures
            final(self).wf(),
            final(self)@ == without(old(self)@, ConditionKind::MagicShield),
            final(self).next() == old(self).next(),
    {
        let _was = self.drop_kind(ConditionKind::MagicShield);
    }

    /// Whether the agent is shielded.
    pub fn is_magic_shielded(&self, current_tick: Tick) -> (r: bool)
        requires
            self.wf(),
        ensures
            r == (until_of(condition_of(self@, ConditionKind::MagicShield)) matches Some(until)
                && until.0 > current_tick.0),
    {
        match self.until(TimedCondition::MagicShield) {
            Some(until) => until.0 > current_tick.0,
            None => false,
        }
    }

    /// Ends the wound of an element, and says whether there was one.
    pub fn cure(&mut self, element: CombatElement) -> (r: bool)
        requires
            old(self).wf(),
        ensures
            final(self).wf(),
            final(self)@ == without(old(self)@, ConditionKind::Damage(element)),
            final(self).next() == old(self).next(),
            r == under(old(self)@, ConditionKind::Damage(element)),
    {
        self.drop_kind(ConditionKind::Damage(element))
    }

    /// Wounds the agent. A wound of the same element is replaced only where the new one has more
    /// to deal than the old one has left; the generation of the new wound comes back.
    pub fn apply_damage_over_time(&mut self, incoming: DamageOverTime) -> (r: Option<u32>)
        requires
            old(self).wf(),
            old(self).next() < u32::MAX,
            sound(incoming.schedule),
            left(incoming.schedule) <= u32::MAX,
        ensures
            final(self).wf(),
            final(self)@ == wounded(old(self)@, old(self).next(), incoming),
            if outdone(old(self)@, incoming) {
                r is None && final(self).next() == old(self).next()
            } else {
                r == Some(old(self).next()) && final(self).next() == old(self).next() + 1
            },
    {
        let generation: u32 = self.next_generation;
        if let Some(Condition::DamageOverTime(current)) = self.get(
            ConditionKind::Damage(incoming.element()),
        ) {
            proof {
                let p = place_of(self@, ConditionKind::Damage(incoming.element));
                assert(self@[p] == Condition::DamageOverTime(current));
            }
            if incoming.remaining() <= current.remaining() {
                return None;
            }
        }
        self.next_generation = self.next_generation + 1;
        let mut wound = incoming;
        wound.generation = generation;
        self.put(Condition::DamageOverTime(wound));
        Some(generation)
    }

    /// The next hit of the wound of this element and generation, where it is still there. The
    /// wound is gone after its last hit.
    pub fn next_damage_hit(&mut self, element: CombatElement, generation: u32) -> (r: Option<
        DamageHit,
    >)
        requires
            old(self).wf(),
        ensures
            final(self).wf(),
            final(self).next() == old(self).next(),
            ({
                let live = match condition_of(old(self)@, ConditionKind::Damage(element)) {
                    Some(Condition::DamageOverTime(dot)) => if dot.generation == generation {
                        Some(dot)
                    } else {
                        None
                    },
                    _ => None,
                };
                match live {
                    None => r is None && final(self)@ == old(self)@,
                    Some(dot) => match hit_of(dot.schedule) {
                        None => r is None && final(self)@ == old(self)@,
                        Some(value) => {
                            let later = DamageOverTime {
                                schedule: after_hit(dot.schedule),
                                ..dot
                            };
                            let exhausted = left(later.schedule) == 0;
                            &&& r == Some(
                                DamageHit {
                                    value,
                                    source: dot.source,
                                    interval: dot.interval,
                                    exhausted,
                                },
                            )
                            &&& final(self)@ == (if exhausted {
                                without(old(self)@, ConditionKind::Damage(element))
                            } else {
                                with(old(self)@, Condition::DamageOverTime(later))
                            })
                        },
                    },
                }
            }),
    {
        let mut dot: DamageOverTime = match self.get(ConditionKind::Damage(element)) {
            Some(Condition::DamageOverTime(dot)) => dot,
            _ => return None,
        };
        proof {
            let p = place_of(self@, ConditionKind::Damage(element));
            assert(self@[p] == Condition::DamageOverTime(dot));
            assert(kind_of(self@[p]) == ConditionKind::Damage(element));
            law_a_wound_deals_what_it_has(dot.schedule);
        }
        if dot.generation != generation {
            return None;
        }
        let value: u32 = match dot.next_hit() {
            Some(value) => value,
            None => return None,
        };
        let exhausted: bool = dot.remaining() == 0;
        let hit = DamageHit { value, source: dot.source, interval: dot.interval, exhausted };
        if exhausted {
            let _was = self.drop_kind(ConditionKind::Damage(element));
        } else {
            self.put(Condition::DamageOverTime(dot));
        }
        Some(hit)
    }

    /// What a client is told of the conditions: a bit for each, and one for the want of food.
    pub fn status(&self) -> (r: u32)
        requires
            self.wf(),
        ensures
            r == status_of(self@),
    {
        let mut status: u32 = 0;
        if self.find(ConditionKind::LogoutBlock).is_some() {
            status = status + LOGOUT_BLOCK_BIT;
        }
        if self.find(ConditionKind::Fed).is_none() {
            status = status + HUNGRY_BIT;
        }
        match self.get(ConditionKind::Speed) {
            Some(Condition::Speed { effect: SpeedEffect::Paralysis, .. }) => {
                status = status + PARALYZED_BIT;
            },
            Some(Condition::Speed { effect: SpeedEffect::Haste, .. }) => {
                status = status + HASTED_BIT;
            },
            _ => {},
        }
        if self.find(ConditionKind::Damage(CombatElement::Fire)).is_some() {
            status = status + BURNING_BIT;
        }
        if self.find(ConditionKind::Damage(CombatElement::Earth)).is_some() {
            status = status + POISONED_BIT;
        }
        if self.find(ConditionKind::Damage(CombatElement::Energy)).is_some() {
            status = status + ELECTRIFIED_BIT;
        }
        if self.find(ConditionKind::MagicShield).is_some() {
            status = status + MAGIC_SHIELD_BIT;
        }
        status
    }
}

/// A condition that is put in or taken out changes no other.
pub proof fn law_conditions_do_not_disturb_each_other(
    s: Seq<Condition>,
    c: Condition,
    other: ConditionKind,
)
    requires
        one_of_each(s),
        other != kind_of(c),
    ensures
        one_of_each(with(s, c)),
        one_of_each(without(s, kind_of(c))),
        condition_of(with(s, c), other) == condition_of(s, other),
        condition_of(without(s, kind_of(c)), other) == condition_of(s, other),
        condition_of(with(s, c), kind_of(c)) == Some(c),
        condition_of(without(s, kind_of(c)), kind_of(c)) is None,
{
    lemma_with(s, c);
    lemma_without(s, kind_of(c));
}

/// Only a wound that has more to deal replaces one of its element, and then it alone stands for
/// that, under a generation that no condition had; everything else stays as it was.
pub proof fn law_only_a_stronger_wound_replaces(
    s: Seq<Condition>,
    next: u32,
    incoming: DamageOverTime,
    other: ConditionKind,
    i: int,
)
    requires
        one_of_each(s),
        generations_below(s, next),
        other != ConditionKind::Damage(incoming.element),
        0 <= i < s.len(),
    ensures
        ({
            let kind = ConditionKind::Damage(incoming.element);
            let later = wounded(s, next, incoming);
            &&& one_of_each(later)
            &&& condition_of(later, other) == condition_of(s, other)
            &&& outdone(s, incoming) ==> later == s
            &&& !outdone(s, incoming) ==> condition_of(later, kind) == Some(
                Condition::DamageOverTime(DamageOverTime { generation: next, ..incoming }),
            ) && generation_of(s[i]) != Some(next)
        }),
{
    law_conditions_do_not_disturb_each_other(
        s,
        Condition::DamageOverTime(DamageOverTime { generation: next, ..incoming }),
        other,
    );
}

/// A client is told of hunger exactly where the agent is not fed.
pub proof fn law_hungry_is_the_absence_of_fed(s: Seq<Condition>)
    ensures
        (status_of(s) / HUNGRY_BIT) % 2 == 1 <==> !under(s, ConditionKind::Fed),
{
}

/// What is planned for a wound that has since been replaced finds nothing: the new wound has a
/// generation that no earlier one had.
pub proof fn law_a_new_generation_is_fresh(s: Seq<Condition>, next: u32, i: int)
    requires
        generations_below(s, next),
        0 <= i < s.len(),
    ensures
        generation_of(s[i]) != Some(next),
{
}

impl Conditions {
    /// The same conditions once more.
    pub fn copy(&self) -> (c: Conditions)
        ensures
            c@ == self@,
            c.next() == self.next(),
    {
        let mut conditions = ConditionList::new();
        let mut i: usize = 0;
        while i < self.conditions.len()
            invariant
                i <= self@.len(),
                listed(conditions) == self@.take(i as int),
            decreases self@.len() - i,
        {
            conditions.push(*self.conditions.at(i));
            assert(self@.take(i + 1) =~= self@.take(i as int).push(self@[i as int]));
            i += 1;
        }
        assert(self@.take(self@.len() as int) =~= self@);
        Conditions { conditions, next_generation: self.next_generation }
    }
}

/// Each bit of the status stands for one thing that the agent is under: kept from logging out,
/// hungry, slowed, burning, poisoned, electrified, hastened or shielded.
pub proof fn law_each_status_bit_tells_of_one_condition(s: Seq<Condition>)
    ensures
        ({
            let status = status_of(s) as int;
            let speed = condition_of(s, ConditionKind::Speed);
            &&& 0 <= status < 256
            &&& status % 2 == 1 <==> under(s, ConditionKind::LogoutBlock)
            &&& status / 2 % 2 == 1 <==> !under(s, ConditionKind::Fed)
            &&& status / 4 % 2 == 1 <==> (speed matches Some(Condition::Speed { effect, .. })
                && effect == SpeedEffect::Paralysis)
            &&& status / 8 % 2 == 1 <==> under(s, ConditionKind::Damage(CombatElement::Fire))
            &&& status / 16 % 2 == 1 <==> under(s, ConditionKind::Damage(CombatElement::Earth))
            &&& status / 32 % 2 == 1 <==> under(s, ConditionKind::Damage(CombatElement::Energy))
            &&& status / 64 % 2 == 1 <==> (speed matches Some(Condition::Speed { effect, .. })
                && effect == SpeedEffect::Haste)
            &&& status / 128 % 2 == 1 <==> under(s, ConditionKind::MagicShield)
        }),
{
    let speed = condition_of(s, ConditionKind::Speed);
    let a: int = if under(s, ConditionKind::LogoutBlock) { 1 } else { 0 };
    let b: int = if !under(s, ConditionKind::Fed) { 1 } else { 0 };
    let c: int = if speed matches Some(Condition::Speed { effect: SpeedEffect::Paralysis, .. }) {
        1
    } else {
        0
    };
    let d: int = if under(s, ConditionKind::Damage(CombatElement::Fire)) { 1 } else { 0 };
    let e: int = if under(s, ConditionKind::Damage(CombatElement::Earth)) { 1 } else { 0 };
    let f: int = if under(s, ConditionKind::Damage(CombatElement::Energy)) { 1 } else { 0 };
    let g: int = if speed matches Some(Condition::Speed { effect: SpeedEffect::Haste, .. }) {
        1
    } else {
        0
    };
    let h: int = if under(s, ConditionKind::MagicShield) { 1 } else { 0 };
    lemma_bits(a, b, c, d, e, f, g, h);
}

proof fn lemma_bits(a: int, b: int, c: int, d: int, e: int, f: int, g: int, h: int)
    requires
        0 <= a < 2,
        0 <= b < 2,
        0 <= c < 2,
        0 <= d < 2,
        0 <= e < 2,
        0 <= f < 2,
        0 <= g < 2,
        0 <= h < 2,
    ensures
        ({
            let n = a + 2 * b + 4 * c + 8 * d + 16 * e + 32 * f + 64 * g + 128 * h;
            &&& 0 <= n < 256
            &&& n % 2 == a
            &&& n / 2 % 2 == b
            &&& n / 4 % 2 == c
            &&& n / 8 % 2 == d
            &&& n / 16 % 2 == e
            &&& n / 32 % 2 == f
            &&& n / 64 % 2 == g
            &&& n / 128 % 2 == h
        }),
{
    let n = a + 2 * b + 4 * c + 8 * d + 16 * e + 32 * f + 64 * g + 128 * h;
    assert(n / 2 == b + 2 * c + 4 * d + 8 * e + 16 * f + 32 * g + 64 * h);
    assert(n / 4 == c + 2 * d + 4 * e + 8 * f + 16 * g + 32 * h);
    assert(n / 8 == d + 2 * e + 4 * f + 8 * g + 16 * h);
    assert(n / 16 == e + 2 * f + 4 * g + 8 * h);
    assert(n / 32 == f + 2 * g + 4 * h);
    assert(n / 64 == g + 2 * h);
    assert(n / 128 == h);
}

/// A decaying wound follows a straight line from its first value down to none: it strikes with the
/// same value again where that brings what it has dealt nearer to the line, and with one less where
/// it leads away from it.
pub proof fn law_a_decaying_wound_follows_its_line(
    total: u32,
    start: u32,
    value: u32,
    dealt: u32,
    line: int,
)
    requires
        1 <= value <= start,
        dealt + value <= total,
        line == ((start - value + 1) * total) / (start as int),
    ensures
        ({
            let before = Schedule::Decaying { total, start, value, dealt };
            let now = dealt + value;
            let again = dealt + 2 * value;
            let off_now = if now >= line {
                now - line
            } else {
                line - now
            };
            let off_again = if again >= line {
                again - line
            } else {
                line - again
            };
            &&& hit_of(before) == Some(value)
            &&& after_hit(before) matches Schedule::Decaying {
                total: t,
                start: s,
                value: v,
                dealt: sum,
            } && t == total && s == start && sum == now && (off_again < off_now ==> v == value) && (
            off_again > off_now ==> v == value - 1) && (v == value || v == value - 1)
        }),
{
    let asked = start + 1 - value;
    assert((start - value + 1) * total == asked * total) by (nonlinear_arith)
        requires
            asked == start + 1 - value,
    ;
    assert(asked * total >= 0) by (nonlinear_arith)
        requires
            asked >= 0,
            total >= 0,
    ;
}

/// What is left of a wound is what its hits come to.
pub proof fn law_what_is_left_is_still_to_come(total: u32, start: u32, value: u32, dealt: u32)
    ensures
        dealt <= total ==> left(Schedule::Decaying { total, start, value, dealt }) + dealt == total,
        dealt > total ==> left(Schedule::Decaying { total, start, value, dealt }) == 0,
        left(Schedule::Flat { value, remaining: 0 }) == 0,
        dealt < u32::MAX ==> left(Schedule::Flat { value, remaining: (dealt + 1) as u32 }) == left(
            Schedule::Flat { value, remaining: dealt },
        ) + value,
{
    assert(value * 0 == 0) by (nonlinear_arith);
    assert(value * (dealt + 1) == value * dealt + value) by (nonlinear_arith);
}

/// An agent goes by the one change of speed that it is under, and by none where it is under none;
/// a meal lasts until the tick that it names.
pub proof fn law_conditions_say_what_they_hold(s: Seq<Condition>, i: int, now: Tick)
    requires
        one_of_each(s),
        0 <= i < s.len(),
    ensures
        s[i] matches Condition::Speed { change, .. } ==> speed_of(s) == change,
        (forall|j: int| 0 <= j < s.len() ==> !((#[trigger] s[j]) is Speed)) ==> speed_of(s) == 0,
        s[i] matches Condition::Fed { until, .. } ==> (until.0 >= now.0 ==> food_left(s, now) + now.0
            == until.0) && (until.0 < now.0 ==> food_left(s, now) == 0),
        (forall|j: int| 0 <= j < s.len() ==> !((#[trigger] s[j]) is Fed)) ==> food_left(s, now) == 0,
{
    let kind = kind_of(s[i]);
    assert(under(s, kind));
    let p = place_of(s, kind);
    assert(kind_of(s[p]) == kind);
    assert(p == i);
    if under(s, ConditionKind::Speed) {
        let q = place_of(s, ConditionKind::Speed);
        assert(kind_of(s[q]) == ConditionKind::Speed);
        assert(s[q] is Speed);
    }
    if under(s, ConditionKind::Fed) {
        let q = place_of(s, ConditionKind::Fed);
        assert(kind_of(s[q]) == ConditionKind::Fed);
        assert(s[q] is Fed);
    }
}

} // verus!
