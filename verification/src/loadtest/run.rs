//! A run: which characters play, when each logs in, and what is made of their reports.

use crate::clock::Duration;
use crate::doubles::nearest;
use crate::loadtest::account::Character;
use crate::loadtest::config::Route;
use crate::loadtest::histogram::percentile_of;
use crate::loadtest::metrics::{
    empty_bucket, with_count, with_drop, with_received, Bucket, BucketView, Counter, Event, Probe,
    Report,
};
use crate::text::{join, joined, push_char, starts_with, text_views};
use vstd::prelude::*;

verus! {

/// What a run is started with.
#[derive(Debug)]
pub struct RunArgs {
    pub site: String,
    pub email: String,
    pub password: String,
    pub server: String,
    pub items: String,
    pub areas: String,
    pub config: String,
    pub ramp: Duration,
    pub duration: Duration,
    pub max_bots: Option<usize>,
    pub prefix: String,
    pub out: String,
}

/// Spreads `n` logins evenly across `ramp`: bot `i` starts at `i * ramp / n`. The number of bots
/// is cut to what 32 bits hold.
pub fn login_schedule(n: usize, ramp: Duration) -> (starts: Vec<Duration>)
    requires
        ramp.nanos * (n as u32) <= u128::MAX,
    ensures
        starts@.len() == n as u32,
        forall|i: int|
            0 <= i < starts@.len() ==> (#[trigger] starts@[i]).nanos == ramp.nanos * i / (
            n as u32 as int),
{
    let mut starts: Vec<Duration> = Vec::new();
    let bots: u32 = n as u32;
    let mut i: u32 = 0;
    while i < bots
        invariant
            i <= bots,
            bots == n as u32,
            ramp.nanos * bots <= u128::MAX,
            starts@.len() == i,
            forall|j: int|
                0 <= j < starts@.len() ==> (#[trigger] starts@[j]).nanos == ramp.nanos * j / (
                n as u32 as int),
        decreases bots - i,
    {
        assert(ramp.nanos * i <= ramp.nanos * bots) by (nonlinear_arith)
            requires
                i <= bots,
        ;
        assert(0 <= ramp.nanos * i) by (nonlinear_arith);
        starts.push(Duration { nanos: ramp.nanos * (i as u128) / (bots as u128) });
        i += 1;
    }
    starts
}

/// Nobody logs in later than somebody further down the list, the first logs in at once, and all
/// of them before the ramp is over.
pub proof fn law_logins_fill_the_ramp(ramp: int, n: int, i: int, j: int)
    requires
        0 <= ramp,
        0 <= i <= j < n,
    ensures
        0 <= ramp * i / n <= ramp * j / n <= ramp,
        ramp > 0 ==> ramp * j / n < ramp,
        i == 0 ==> ramp * i / n == 0,
{
    assert(0 <= ramp * i <= ramp * j) by (nonlinear_arith)
        requires
            0 <= ramp,
            0 <= i <= j,
    ;
    assert(0 <= ramp * i / n) by (nonlinear_arith)
        requires
            0 <= ramp * i,
            0 < n,
    ;
    vstd::arithmetic::div_mod::lemma_div_is_ordered(ramp * i, ramp * j, n);
    if ramp > 0 {
        assert(ramp * j < ramp * n) by (nonlinear_arith)
            requires
                0 < ramp,
                j < n,
        ;
        assert(ramp * j / n < ramp) by (nonlinear_arith)
            requires
                ramp * j < ramp * n,
                0 < n,
        ;
    } else {
        assert(ramp * j == 0) by (nonlinear_arith)
            requires
                ramp == 0,
        ;
        assert(0int / n == 0) by (nonlinear_arith)
            requires
                0 < n,
        ;
    }
    if i == 0 {
        assert(0int / n == 0) by (nonlinear_arith)
            requires
                0 < n,
        ;
        assert(ramp * i == 0) by (nonlinear_arith)
            requires
                i == 0,
        ;
    }
}

/// The route of the bot at `index`: routes are dealt out in turn.
pub fn assign_route(routes: &[Route], index: usize) -> (route: &Route)
    requires
        routes@.len() > 0,
    ensures
        *route == routes@[index as int % (routes@.len() as int)],
{
    &routes[index % routes.len()]
}

/// A bot's name begins with the prefix and a space.
pub open spec fn is_bot(name: Seq<char>, prefix: Seq<char>) -> bool {
    prefix.push(' ').is_prefix_of(name)
}

/// The bots among the first `n` characters, in their order.
pub open spec fn bots_among(characters: Seq<Character>, prefix: Seq<char>, n: nat) -> Seq<Character>
    decreases n,
{
    if n == 0 {
        Seq::empty()
    } else {
        let before = bots_among(characters, prefix, (n - 1) as nat);
        if is_bot(characters[n - 1].name@, prefix) {
            before.push(characters[n - 1])
        } else {
            before
        }
    }
}

/// Why a run comes to nothing.
#[derive(Debug)]
pub enum RunError {
    NoRoutes { config: String },
    NoCharacters { prefix: String },
    SpellsUnusable { spells: Vec<String> },
    NothingMeasured,
}

/// What is said about a run that came to nothing.
pub open spec fn error_text(error: RunError) -> Seq<char> {
    match error {
        RunError::NoRoutes { config } => config@ + " names no routes"@,
        RunError::NoCharacters { prefix } => "no character starts with \""@ + prefix@
            + " \" — run `seed` first"@,
        RunError::SpellsUnusable { spells } =>
            "configured spell(s) unusable by any bot's vocation or level: "@ + joined(
            text_views(spells@),
            ", "@,
        ),
        RunError::NothingMeasured => "no bot logged in successfully — nothing was measured"@,
    }
}

impl RunError {
    /// What is said about a run that came to nothing.
    pub fn message(&self) -> (text: String)
        ensures
            text@ == error_text(*self),
    {
        match self {
            RunError::NoRoutes { config } => config.clone().concat(" names no routes"),
            RunError::NoCharacters { prefix } => {
                let text: String = "no character starts with \"".to_owned();
                text.concat(prefix.as_str()).concat(" \" — run `seed` first")
            },
            RunError::SpellsUnusable { spells } => {
                let text: String =
                    "configured spell(s) unusable by any bot's vocation or level: ".to_owned();
                text.concat(join(spells, ", ").as_str())
            },
            RunError::NothingMeasured => {
                "no bot logged in successfully — nothing was measured".to_owned()
            },
        }
    }
}

/// The first `max` of `all`, all of them where there is no such bound.
pub open spec fn first_of(all: Seq<Character>, max: Option<usize>) -> Seq<Character> {
    match max {
        Some(max) => if max < all.len() {
            all.take(max as int)
        } else {
            all
        },
        None => all,
    }
}

/// The characters that play: those named like bots, no more than asked for.
pub fn select_bots(characters: Vec<Character>, prefix: &String, max_bots: Option<usize>) -> (r:
    Result<Vec<Character>, RunError>)
    ensures
        ({
            let chosen = first_of(
                bots_among(characters@, prefix@, characters@.len()),
                max_bots,
            );
            match r {
                Ok(bots) => bots@ == chosen && chosen.len() > 0,
                Err(error) => chosen.len() == 0 && (error matches RunError::NoCharacters {
                    prefix: p,
                } && p@ == prefix@),
            }
        }),
{
    let mut bot_prefix: String = prefix.clone();
    push_char(&mut bot_prefix, ' ');
    let ghost all = characters@;
    let mut bots: Vec<Character> = Vec::new();
    for character in it: characters
        invariant
            it.seq() == all,
            bot_prefix@ == prefix@.push(' '),
            bots@ == bots_among(all, prefix@, it.index() as nat),
    {
        if starts_with(character.name.as_str(), bot_prefix.as_str()) {
            bots.push(character);
        }
    }
    if let Some(max) = max_bots {
        if max < bots.len() {
            bots.truncate(max);
        }
    }
    if bots.len() == 0 {
        return Err(RunError::NoCharacters { prefix: prefix.clone() });
    }
    Ok(bots)
}

/// A run needs at least one route.
pub fn require_routes(routes: &Vec<Route>, config: &String) -> (r: Result<(), RunError>)
    ensures
        match r {
            Ok(()) => routes@.len() > 0,
            Err(error) => routes@.len() == 0 && (error matches RunError::NoRoutes { config: c }
                && c@ == config@),
        },
{
    if routes.len() == 0 {
        Err(RunError::NoRoutes { config: config.clone() })
    } else {
        Ok(())
    }
}

/// What is reported for a bot that the site gave no token for: it tried to log in and failed.
pub fn token_refused() -> (events: Vec<Event>)
    ensures
        events@ == seq![
            Event::Counted(Counter::LoginAttempted, 1),
            Event::Counted(Counter::LoginFailed, 1),
        ],
{
    let mut events: Vec<Event> = Vec::new();
    events.push(Event::Counted(Counter::LoginAttempted, 1));
    events.push(Event::Counted(Counter::LoginFailed, 1));
    assert(events@ =~= seq![
        Event::Counted(Counter::LoginAttempted, 1),
        Event::Counted(Counter::LoginFailed, 1),
    ]);
    events
}

/// The bots that never had a session or lost it, whatever the cause.
pub open spec fn disconnected(b: BucketView) -> int {
    b.counters[Counter::ConnectFailed.slot()] + b.counters[Counter::LoginSendFailed.slot()]
        + b.counters[Counter::BurstDisconnected.slot()]
        + b.counters[Counter::SessionDisconnected.slot()]
}

/// The bots that never had a session or lost it, whatever the cause.
pub fn disconnected_total(bucket: &Bucket) -> (n: u64)
    requires
        bucket.wf(),
        disconnected(bucket@) <= u64::MAX,
    ensures
        n == disconnected(bucket@),
{
    let refused: u64 = bucket.count_of(Counter::ConnectFailed);
    let unsent: u64 = bucket.count_of(Counter::LoginSendFailed);
    let burst: u64 = bucket.count_of(Counter::BurstDisconnected);
    let session: u64 = bucket.count_of(Counter::SessionDisconnected);
    refused + unsent + burst + session
}

/// The samples of all probes that were dropped.
pub open spec fn dropped(b: BucketView) -> int {
    b.drops[Probe::Ping.slot()] + b.drops[Probe::WalkAck.slot()]
        + b.drops[Probe::OpenContainer.slot()] + b.drops[Probe::DecisionLag.slot()]
}

/// The samples of all probes that were dropped.
pub fn dropped_total(bucket: &Bucket) -> (n: u64)
    requires
        bucket.wf(),
        dropped(bucket@) <= u64::MAX,
    ensures
        n == dropped(bucket@),
{
    let ping: u64 = bucket.dropped(Probe::Ping);
    let walk: u64 = bucket.dropped(Probe::WalkAck);
    let container: u64 = bucket.dropped(Probe::OpenContainer);
    let lag: u64 = bucket.dropped(Probe::DecisionLag);
    ping + walk + container + lag
}

/// What a status line says: how many bots are up, whether the server sheds connections, and
/// whether the times next to it can be trusted. Times are in microseconds, `None` where nothing
/// was measured.
#[derive(Debug, Clone, Copy, PartialEq, Eq, Structural)]
pub struct Status {
    pub logged_in: u64,
    pub failed: u64,
    pub disconnected: u64,
    pub walk_p50: Option<u64>,
    pub walk_p99: Option<u64>,
    pub walk_samples: u64,
    pub ping_p99: Option<u64>,
    pub decision_lag_p99: Option<u64>,
    pub dropped: u64,
    pub denied: u64,
    pub refused: u64,
    pub dry: u64,
    pub messages: u64,
    pub bytes: u64,
}

/// The percentile of a probe's samples, `None` where there are none.
pub open spec fn percentile_or_none(b: BucketView, probe: Probe, pct: u8) -> Option<u64> {
    if b.samples[probe.slot()].len() > 0 {
        Some(percentile_of(b.samples[probe.slot()], pct))
    } else {
        None
    }
}

/// What a status line says of a run whose last bucket is `last` and whose total is `total`.
/// Times and throughput come from the last bucket: a run that ramps up has no single meaningful
/// percentile, and the total would dilute the very spike that a reader has to see.
pub open spec fn status_of(last: BucketView, total: BucketView) -> Status {
    Status {
        logged_in: total.counters[Counter::LoginSucceeded.slot()] as u64,
        failed: total.counters[Counter::LoginFailed.slot()] as u64,
        disconnected: disconnected(total) as u64,
        walk_p50: percentile_or_none(last, Probe::WalkAck, 50),
        walk_p99: percentile_or_none(last, Probe::WalkAck, 99),
        walk_samples: last.samples[Probe::WalkAck.slot()].len() as u64,
        ping_p99: percentile_or_none(last, Probe::Ping, 99),
        decision_lag_p99: percentile_or_none(last, Probe::DecisionLag, 99),
        dropped: dropped(last) as u64,
        denied: total.counters[Counter::WalkDenied.slot()] as u64,
        refused: total.counters[Counter::ActionRefused.slot()] as u64,
        dry: total.counters[Counter::PotionsDry.slot()] as u64,
        messages: last.messages as u64,
        bytes: last.bytes as u64,
    }
}

/// The last bucket of a report, an empty one where there is none.
pub open spec fn last_bucket(report: Report) -> BucketView {
    if report.buckets@.len() > 0 {
        report.buckets@.last()@
    } else {
        empty_bucket(nearest(0, 1, 0))
    }
}

fn summarise(last: &Bucket, total: &Bucket) -> (s: Status)
    requires
        last.wf(),
        total.wf(),
        disconnected(total@) <= u64::MAX,
        dropped(last@) <= u64::MAX,
    ensures
        s == status_of(last@, total@),
{
    Status {
        logged_in: total.count_of(Counter::LoginSucceeded),
        failed: total.count_of(Counter::LoginFailed),
        disconnected: disconnected_total(total),
        walk_p50: last.percentile(Probe::WalkAck, 50),
        walk_p99: last.p99(Probe::WalkAck),
        walk_samples: last.samples(Probe::WalkAck),
        ping_p99: last.p99(Probe::Ping),
        decision_lag_p99: last.p99(Probe::DecisionLag),
        dropped: dropped_total(last),
        denied: total.count_of(Counter::WalkDenied),
        refused: total.count_of(Counter::ActionRefused),
        dry: total.count_of(Counter::PotionsDry),
        messages: last.messages(),
        bytes: last.bytes(),
    }
}

/// What a status line says of a report.
pub fn status(report: &Report) -> (s: Status)
    requires
        report.total.wf(),
        forall|i: int| 0 <= i < report.buckets@.len() ==> (#[trigger] report.buckets@[i]).wf(),
        disconnected(report.total@) <= u64::MAX,
        dropped(last_bucket(*report)) <= u64::MAX,
    ensures
        s == status_of(last_bucket(*report), report.total@),
{
    let n: usize = report.buckets.len();
    if n > 0 {
        summarise(&report.buckets[n - 1], &report.total)
    } else {
        let empty: Bucket = Bucket::default();
        summarise(&empty, &report.total)
    }
}

/// Whether a run came to anything: not where its spells could not be cast, nor where nobody
/// logged in.
pub fn verdict(unusable: Option<Vec<String>>, report: &Report) -> (r: Result<(), RunError>)
    requires
        report.total.wf(),
    ensures
        match unusable {
            Some(spells) => r == Err::<(), RunError>(RunError::SpellsUnusable { spells }),
            None => if report.total@.counters[Counter::LoginSucceeded.slot()] == 0 {
                r == Err::<(), RunError>(RunError::NothingMeasured)
            } else {
                r == Ok::<(), RunError>(())
            },
        },
{
    if let Some(spells) = unusable {
        return Err(RunError::SpellsUnusable { spells });
    }
    if report.total.count_of(Counter::LoginSucceeded) == 0 {
        return Err(RunError::NothingMeasured);
    }
    Ok(())
}

/// The bots among some characters are all whose name is the prefix, a space and something after
/// it, in the order in which the characters are listed.
pub proof fn law_bots_go_by_the_prefix(
    characters: Seq<Character>,
    prefix: Seq<char>,
    n: nat,
    i: int,
    j: int,
)
    requires
        0 <= i < n <= characters.len(),
        0 <= j < prefix.len(),
    ensures
        is_bot(characters[i].name@, prefix) ==> characters[i].name@.len() > prefix.len()
            && characters[i].name@[j] == prefix[j] && characters[i].name@[prefix.len() as int]
            == ' ' && bots_among(characters, prefix, n).contains(characters[i]),
        forall|k: int|
            0 <= k < bots_among(characters, prefix, n).len() ==> is_bot(
                (#[trigger] bots_among(characters, prefix, n)[k]).name@,
                prefix,
            ),
    decreases n,
{
    let before = bots_among(characters, prefix, (n - 1) as nat);
    let after = bots_among(characters, prefix, n);
    if is_bot(characters[i].name@, prefix) {
        let name = characters[i].name@;
        let p = prefix.push(' ');
        assert(p == name.subrange(0, p.len() as int));
        assert(name.subrange(0, p.len() as int)[j] == p[j]);
        assert(name.subrange(0, p.len() as int)[prefix.len() as int] == p[prefix.len() as int]);
    }
    if n > 1 {
        law_bots_go_by_the_prefix(
            characters,
            prefix,
            (n - 1) as nat,
            if i < n - 1 {
                i
            } else {
                0
            },
            j,
        );
    }
    if is_bot(characters[i].name@, prefix) {
        if i == n - 1 {
            assert(after[before.len() as int] == characters[i]);
        } else {
            assert(after[before.index_of(characters[i])] == characters[i]);
        }
    }
    assert forall|k: int| 0 <= k < after.len() implies is_bot(
        (#[trigger] after[k]).name@,
        prefix,
    ) by {
        if k < before.len() {
            assert(after[k] == before[k]);
        }
    }
}

/// No more bots are run than were asked for, and as many as there are otherwise: the first ones.
pub proof fn law_no_more_bots_than_asked_for(all: Seq<Character>, max: usize, i: int)
    requires
        0 <= i < all.len(),
    ensures
        first_of(all, Some(max)).len() <= max,
        i < max ==> i < first_of(all, Some(max)).len() && first_of(all, Some(max))[i] == all[i],
        first_of(all, None) == all,
{
}

/// A connection that broke is counted wherever it broke, and a lost request whatever it was for.
pub proof fn law_every_break_is_counted(b: BucketView, counter: Counter, probe: Probe, n: nat)
    requires
        b.counters.len() == 12,
        b.drops.len() == 4,
    ensures
        ({
            let later = with_count(b, counter, n as int);
            let broke = counter is ConnectFailed || counter is LoginSendFailed
                || counter is BurstDisconnected || counter is SessionDisconnected;
            &&& disconnected(later) == disconnected(b) + (if broke {
                n as int
            } else {
                0
            })
            &&& dropped(later) == dropped(b)
            &&& dropped(with_drop(b, probe)) == dropped(b) + 1
            &&& disconnected(with_drop(b, probe)) == disconnected(b)
        }),
{
}

/// The state of a run tells the logins, refusals and breaks of the whole run, and the traffic and
/// the lost requests of its last stretch: one more of any shows there and nowhere else.
pub proof fn law_a_status_tells_each_count_in_its_place(
    last: BucketView,
    total: BucketView,
    counter: Counter,
    messages: nat,
    bytes: nat,
)
    requires
        total.counters.len() == 12,
        forall|i: int| 0 <= i < 12 ==> 0 <= #[trigger] total.counters[i] < 0x1000_0000_0000,
        0 <= last.messages,
        0 <= last.bytes,
        last.messages + messages <= u64::MAX,
        last.bytes + bytes <= u64::MAX,
    ensures
        ({
            let before = status_of(last, total);
            let later = status_of(last, with_count(total, counter, 1));
            let busier = status_of(with_received(last, messages as int, bytes as int), total);
            &&& later.logged_in == before.logged_in + (if counter is LoginSucceeded {
                1int
            } else {
                0
            })
            &&& later.failed == before.failed + (if counter is LoginFailed {
                1int
            } else {
                0
            })
            &&& later.denied == before.denied + (if counter is WalkDenied {
                1int
            } else {
                0
            })
            &&& later.refused == before.refused + (if counter is ActionRefused {
                1int
            } else {
                0
            })
            &&& later.dry == before.dry + (if counter is PotionsDry {
                1int
            } else {
                0
            })
            &&& later.dropped == before.dropped && later.messages == before.messages
            &&& busier.messages == before.messages + messages
            &&& busier.bytes == before.bytes + bytes
            &&& busier.logged_in == before.logged_in
            &&& before.walk_samples as nat == last.samples[Probe::WalkAck.slot()].len()
                || last.samples[Probe::WalkAck.slot()].len() > u64::MAX
        }),
{
    assert(total.counters[1] >= 0 && total.counters[2] >= 0 && total.counters[7] >= 0
        && total.counters[8] >= 0 && total.counters[10] >= 0);
}

} // verus!
