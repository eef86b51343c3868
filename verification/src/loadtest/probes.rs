//! The requests that a bot waits on an answer for, and the reports it has ready to send.

use crate::clock::{Duration, Instant};
use crate::entities::spells::{SpellGroup, SpellId};
use crate::loadtest::metrics::{Counter, Event, Probe};
use std::collections::{HashMap, VecDeque};
use vstd::prelude::*;

verus! {

broadcast use vstd::std_specs::hash::group_hash_axioms;

/// How many walks or pings may be under way. It lies well above what one bot has out at once, so
/// it is reached only where the server has stopped answering.
pub const PENDING_QUEUE_CAP: usize = 16;

/// At most one container is ever being opened. A second try takes the place of the first, because
/// a single answer comes for both.
pub const CONTAINER_QUEUE_CAP: usize = 1;

/// `queue` with `value` behind it, and without its first where it was full.
pub open spec fn pushed<T>(queue: Seq<T>, value: T, cap: int) -> Seq<T> {
    if queue.len() >= cap && queue.len() > 0 {
        queue.skip(1).push(value)
    } else {
        queue.push(value)
    }
}

/// Puts `value` behind the others, dropping the first where the queue is full, and says whether
/// it was.
pub fn push_bounded<T>(queue: &mut VecDeque<T>, value: T, cap: usize) -> (dropped: bool)
    ensures
        dropped == (old(queue)@.len() >= cap),
        final(queue)@ == pushed(old(queue)@, value, cap as int),
{
    let dropped: bool = queue.len() >= cap;
    if dropped {
        let _first = queue.pop_front();
    }
    queue.push_back(value);
    assert(queue@ =~= pushed(old(queue)@, value, cap as int));
    dropped
}

/// What is out, and what is ready to be sent.
#[verifier::ext_equal]
pub struct ProbesView {
    pub outbox: Seq<Event>,
    pub walk: Seq<Instant>,
    pub ping: Seq<Instant>,
    pub container: Seq<Instant>,
    pub casts: Map<u16, SpellGroup>,
    pub received_messages: int,
    pub last_bytes: int,
}

/// Every request under way, and the reports that are ready to be sent. A request is opened when
/// it is sent, and resolved by the answer to it or cancelled, so that no later answer is timed
/// against it.
pub struct Probes {
    outbox: Vec<Event>,
    walk: VecDeque<Instant>,
    ping: VecDeque<Instant>,
    container: VecDeque<Instant>,
    /// By `SpellId`: the answer to a cast names its spell, so the entry of a refused one is
    /// overwritten by the next try.
    casts: HashMap<u16, SpellGroup>,
    received_messages: u64,
    last_bytes: u64,
}

impl View for Probes {
    type V = ProbesView;

    closed spec fn view(&self) -> ProbesView {
        ProbesView {
            outbox: self.outbox@,
            walk: self.walk@,
            ping: self.ping@,
            container: self.container@,
            casts: self.casts@,
            received_messages: self.received_messages as int,
            last_bytes: self.last_bytes as int,
        }
    }
}

/// How many requests of a kind may be under way.
pub open spec fn cap_of(probe: Probe) -> int {
    match probe {
        Probe::OpenContainer => CONTAINER_QUEUE_CAP as int,
        _ => PENDING_QUEUE_CAP as int,
    }
}

/// The requests of a kind that are under way, the oldest first.
pub open spec fn queue_of(p: ProbesView, probe: Probe) -> Seq<Instant> {
    match probe {
        Probe::WalkAck => p.walk,
        Probe::Ping => p.ping,
        Probe::OpenContainer => p.container,
        Probe::DecisionLag => Seq::empty(),
    }
}

pub open spec fn with_queue(p: ProbesView, probe: Probe, queue: Seq<Instant>) -> ProbesView {
    match probe {
        Probe::WalkAck => ProbesView { walk: queue, ..p },
        Probe::Ping => ProbesView { ping: queue, ..p },
        Probe::OpenContainer => ProbesView { container: queue, ..p },
        Probe::DecisionLag => p,
    }
}

pub open spec fn reported(p: ProbesView, event: Event) -> ProbesView {
    ProbesView { outbox: p.outbox.push(event), ..p }
}

/// A request was sent.
pub open spec fn opened(p: ProbesView, probe: Probe, now: Instant) -> ProbesView {
    let queue = queue_of(p, probe);
    let later = with_queue(p, probe, pushed(queue, now, cap_of(probe)));
    if queue.len() >= cap_of(probe) {
        reported(later, Event::Dropped(probe))
    } else {
        later
    }
}

/// How long the oldest request has been under way.
pub open spec fn waited(p: ProbesView, probe: Probe, now: Instant) -> Duration {
    let sent = queue_of(p, probe)[0];
    Duration {
        nanos: if now.nanos >= sent.nanos {
            (now.nanos - sent.nanos) as u128
        } else {
            0
        },
    }
}

/// The oldest request was answered.
pub open spec fn resolved(p: ProbesView, probe: Probe, now: Instant) -> ProbesView {
    let queue = queue_of(p, probe);
    if queue.len() == 0 {
        p
    } else {
        reported(
            with_queue(p, probe, queue.skip(1)),
            Event::Sampled(probe, waited(p, probe, now)),
        )
    }
}

/// The oldest request is given up.
pub open spec fn cancelled(p: ProbesView, probe: Probe) -> ProbesView {
    let queue = queue_of(p, probe);
    if queue.len() == 0 {
        p
    } else {
        with_queue(p, probe, queue.skip(1))
    }
}

pub open spec fn counted(p: ProbesView, counter: Counter, n: u64) -> ProbesView {
    if n > 0 {
        reported(p, Event::Counted(counter, n))
    } else {
        p
    }
}

/// What was received since the last time is reported, if there was anything.
pub open spec fn flushed(p: ProbesView, bytes_read: u64) -> ProbesView {
    let bytes = if bytes_read >= p.last_bytes {
        bytes_read - p.last_bytes
    } else {
        0
    };
    let later = ProbesView { last_bytes: bytes_read as int, ..p };
    if p.received_messages > 0 || bytes > 0 {
        ProbesView {
            received_messages: 0,
            ..reported(
                later,
                Event::Received { messages: p.received_messages as u64, bytes: bytes as u64 },
            )
        }
    } else {
        later
    }
}

/// No more requests of a kind are under way than may be.
pub open spec fn bounded(p: ProbesView) -> bool {
    &&& p.walk.len() <= PENDING_QUEUE_CAP
    &&& p.ping.len() <= PENDING_QUEUE_CAP
    &&& p.container.len() <= CONTAINER_QUEUE_CAP
}

impl Probes {
    pub fn new() -> (p: Self)
        ensures
            p@ == (ProbesView {
                outbox: Seq::empty(),
                walk: Seq::empty(),
                ping: Seq::empty(),
                container: Seq::empty(),
                casts: Map::empty(),
                received_messages: 0,
                last_bytes: 0,
            }),
    {
        let p = Probes {
            outbox: Vec::new(),
            walk: VecDeque::new(),
            ping: VecDeque::new(),
            container: VecDeque::new(),
            casts: HashMap::new(),
            received_messages: 0,
            last_bytes: 0,
        };
        assert(p@ =~= ProbesView {
            outbox: Seq::empty(),
            walk: Seq::empty(),
            ping: Seq::empty(),
            container: Seq::empty(),
            casts: Map::empty(),
            received_messages: 0,
            last_bytes: 0,
        });
        p
    }

    /// The reports that are ready to be sent, which are then no longer kept.
    pub fn take_events(&mut self) -> (events: Vec<Event>)
        ensures
            events@ == old(self)@.outbox,
            final(self)@ == (ProbesView { outbox: Seq::empty(), ..old(self)@ }),
    {
        let mut events: Vec<Event> = Vec::new();
        events.append(&mut self.outbox);
        assert(events@ =~= old(self)@.outbox);
        assert(self.outbox@ =~= Seq::empty());
        events
    }

    /// A request was just sent; `resolve` or `cancel` has to follow. `DecisionLag` is sampled
    /// directly: it has no request.
    pub fn open(&mut self, probe: Probe, now: Instant)
        requires
            probe != Probe::DecisionLag,
        ensures
            final(self)@ == opened(old(self)@, probe, now),
    {
        let dropped: bool = match probe {
            Probe::WalkAck => push_bounded(&mut self.walk, now, PENDING_QUEUE_CAP),
            Probe::Ping => push_bounded(&mut self.ping, now, PENDING_QUEUE_CAP),
            Probe::OpenContainer => push_bounded(&mut self.container, now, CONTAINER_QUEUE_CAP),
            Probe::DecisionLag => false,
        };
        if dropped {
            self.outbox.push(Event::Dropped(probe));
        }
    }

    fn pop(&mut self, probe: Probe) -> (r: Option<Instant>)
        requires
            probe != Probe::DecisionLag,
        ensures
            final(self)@ == cancelled(old(self)@, probe),
            r == (if queue_of(old(self)@, probe).len() == 0 {
                None
            } else {
                Some(queue_of(old(self)@, probe)[0])
            }),
    {
        let ghost before = self@;
        let r = match probe {
            Probe::WalkAck => self.walk.pop_front(),
            Probe::Ping => self.ping.pop_front(),
            Probe::OpenContainer => self.container.pop_front(),
            Probe::DecisionLag => None,
        };
        assert(self@ =~= cancelled(before, probe));
        r
    }

    /// The server has answered the oldest request of this kind: its round trip is sampled.
    pub fn resolve(&mut self, probe: Probe, now: Instant) -> (r: Option<Duration>)
        requires
            probe != Probe::DecisionLag,
        ensures
            final(self)@ == resolved(old(self)@, probe, now),
            r == (if queue_of(old(self)@, probe).len() == 0 {
                None
            } else {
                Some(waited(old(self)@, probe, now))
            }),
    {
        match self.pop(probe) {
            Some(sent_at) => {
                let elapsed = now.duration_since(sent_at);
                self.outbox.push(Event::Sampled(probe, elapsed));
                Some(elapsed)
            },
            None => None,
        }
    }

    /// The oldest request of this kind will get no answer that could be timed.
    pub fn cancel(&mut self, probe: Probe)
        requires
            probe != Probe::DecisionLag,
        ensures
            final(self)@ == cancelled(old(self)@, probe),
    {
        let _sent_at = self.pop(probe);
    }

    /// A spell of this group was cast.
    pub fn open_cast(&mut self, spell_id: SpellId, group: SpellGroup)
        ensures
            final(self)@ == (ProbesView {
                casts: old(self)@.casts.insert(spell_id.0, group),
                ..old(self)@
            }),
    {
        self.casts.insert(spell_id.0, group);
    }

    /// The server has answered a cast: the group of the spell, where the bot cast it.
    pub fn resolve_cast(&mut self, spell_id: SpellId) -> (r: Option<SpellGroup>)
        ensures
            final(self)@ == (ProbesView { casts: old(self)@.casts.remove(spell_id.0), ..old(self)@ }),
            r == (if old(self)@.casts.contains_key(spell_id.0) {
                Some(old(self)@.casts[spell_id.0])
            } else {
                None
            }),
    {
        self.casts.remove(&spell_id.0)
    }

    /// Reports a time that was measured without a request.
    pub fn sample(&mut self, probe: Probe, duration: Duration)
        ensures
            final(self)@ == reported(old(self)@, Event::Sampled(probe, duration)),
    {
        self.outbox.push(Event::Sampled(probe, duration));
    }

    /// Reports that something happened `n` times, if it did at all.
    pub fn count(&mut self, counter: Counter, n: u64)
        ensures
            final(self)@ == counted(old(self)@, counter, n),
    {
        if n > 0 {
            self.outbox.push(Event::Counted(counter, n));
        }
    }

    /// A message has come in.
    pub fn note_incoming(&mut self)
        requires
            old(self)@.received_messages < u64::MAX,
        ensures
            final(self)@ == (ProbesView {
                received_messages: old(self)@.received_messages + 1,
                ..old(self)@
            }),
    {
        self.received_messages = self.received_messages + 1;
    }

    /// Reports the messages and bytes that came in since the last time.
    pub fn flush_received(&mut self, bytes_read: u64)
        ensures
            final(self)@ == flushed(old(self)@, bytes_read),
    {
        let bytes: u64 = bytes_read.saturating_sub(self.last_bytes);
        self.last_bytes = bytes_read;
        if self.received_messages > 0 || bytes > 0 {
            let messages: u64 = self.received_messages;
            self.outbox.push(Event::Received { messages, bytes });
            self.received_messages = 0;
        }
    }
}

/// However many requests are sent, no more of a kind are kept than may be under way.
pub proof fn law_requests_stay_bounded(p: ProbesView, probe: Probe, now: Instant)
    requires
        bounded(p),
        probe != Probe::DecisionLag,
    ensures
        bounded(opened(p, probe, now)),
        bounded(resolved(p, probe, now)),
        bounded(cancelled(p, probe)),
{
}

/// A request that was given up is never taken for the one that a later answer is for: with
/// nothing else under way, the answer is timed against the request sent after it.
pub proof fn law_a_cancelled_request_is_never_timed(
    p: ProbesView,
    probe: Probe,
    first: Instant,
    second: Instant,
    now: Instant,
)
    requires
        queue_of(p, probe).len() == 0,
        probe != Probe::DecisionLag,
        second.nanos <= now.nanos,
    ensures
        ({
            let out = opened(cancelled(opened(p, probe, first), probe), probe, second);
            &&& queue_of(out, probe) == seq![second]
            &&& resolved(out, probe, now).outbox == p.outbox.push(
                Event::Sampled(probe, Duration { nanos: (now.nanos - second.nanos) as u128 }),
            )
        }),
{
    let p1 = opened(p, probe, first);
    assert(queue_of(p1, probe) =~= seq![first]);
    let p2 = cancelled(p1, probe);
    assert(queue_of(p2, probe) =~= Seq::empty());
    let p3 = opened(p2, probe, second);
    assert(queue_of(p3, probe) =~= seq![second]);
}

/// A second try at opening a container takes the place of the first, and the drop is reported.
pub proof fn law_a_retried_open_replaces_the_first(p: ProbesView, first: Instant, retry: Instant)
    requires
        p.container.len() == 0,
    ensures
        ({
            let out = opened(opened(p, Probe::OpenContainer, first), Probe::OpenContainer, retry);
            &&& out.container == seq![retry]
            &&& out.outbox == p.outbox.push(Event::Dropped(Probe::OpenContainer))
        }),
{
    let p1 = opened(p, Probe::OpenContainer, first);
    assert(p1.container =~= seq![first]);
    let p2 = opened(p1, Probe::OpenContainer, retry);
    assert(p2.container =~= seq![retry]);
}

/// Nothing that came in is reported twice: right after a report there is nothing left to report.
pub proof fn law_received_is_reported_once(p: ProbesView, bytes_read: u64)
    requires
        0 <= p.received_messages,
    ensures
        flushed(flushed(p, bytes_read), bytes_read) == flushed(p, bytes_read),
{
}

/// Requests of one kind are answered in the order in which they were sent: an answer is timed from
/// the oldest that is under way, and the others stay under way as they are. Requests of other
/// kinds are not touched.
pub proof fn law_answers_come_in_the_order_of_requests(
    p: ProbesView,
    probe: Probe,
    other: Probe,
    first: Instant,
    second: Instant,
    now: Instant,
)
    requires
        probe == Probe::WalkAck || probe == Probe::Ping,
        other != probe,
        queue_of(p, probe).len() == 0,
        first.nanos <= now.nanos,
        second.nanos <= now.nanos,
        PENDING_QUEUE_CAP >= 2,
    ensures
        ({
            let sent = opened(opened(p, probe, first), probe, second);
            let once = resolved(sent, probe, now);
            let twice = resolved(once, probe, now);
            &&& sent.outbox == p.outbox
            &&& queue_of(sent, probe) == seq![first, second]
            &&& once.outbox.len() == p.outbox.len() + 1
            &&& once.outbox.last() matches Event::Sampled(of, d) && of == probe && d.nanos
                == now.nanos - first.nanos
            &&& queue_of(once, probe) == seq![second]
            &&& twice.outbox.last() matches Event::Sampled(of, d) && of == probe && d.nanos
                == now.nanos - second.nanos
            &&& queue_of(twice, probe).len() == 0
            &&& resolved(twice, probe, now) == twice
            &&& queue_of(twice, other) == queue_of(p, other)
            &&& twice.casts == p.casts
        }),
{
    let p1 = opened(p, probe, first);
    assert(queue_of(p1, probe) =~= seq![first]);
    let p2 = opened(p1, probe, second);
    assert(queue_of(p2, probe) =~= seq![first, second]);
    let p3 = resolved(p2, probe, now);
    assert(queue_of(p3, probe) =~= seq![second]);
    let p4 = resolved(p3, probe, now);
    assert(queue_of(p4, probe) =~= Seq::<Instant>::empty());
}

/// Where too many requests are under way the oldest is given up, and that is reported; the newest
/// is always under way.
pub proof fn law_the_oldest_request_gives_way(p: ProbesView, probe: Probe, now: Instant, i: int)
    requires
        probe == Probe::WalkAck || probe == Probe::Ping,
        0 <= i < queue_of(p, probe).len(),
        PENDING_QUEUE_CAP >= 1,
    ensures
        ({
            let before = queue_of(p, probe);
            let later = opened(p, probe, now);
            let full = before.len() >= PENDING_QUEUE_CAP;
            &&& queue_of(later, probe).last() == now
            &&& full ==> queue_of(later, probe).len() == before.len() && later.outbox
                == p.outbox.push(Event::Dropped(probe)) && (i > 0 ==> queue_of(later, probe)[i - 1]
                == before[i])
            &&& !full ==> queue_of(later, probe).len() == before.len() + 1 && later.outbox
                == p.outbox && queue_of(later, probe)[i] == before[i]
        }),
{
}

/// What is counted is reported with its number, and nothing is reported where nothing was.
pub proof fn law_what_is_counted_is_reported(p: ProbesView, counter: Counter, n: u64)
    ensures
        n > 0 ==> counted(p, counter, n).outbox == p.outbox.push(Event::Counted(counter, n)),
        n == 0 ==> counted(p, counter, n).outbox == p.outbox,
        counted(p, counter, n).walk == p.walk,
{
}

/// What came in is reported as the messages since the last report and the bytes read since then.
pub proof fn law_reports_cover_all_that_came_in(p: ProbesView, first: u64, second: u64)
    requires
        0 <= p.received_messages <= u64::MAX,
        0 <= p.last_bytes <= first <= second,
        p.last_bytes < first < second,
    ensures
        ({
            let once = flushed(p, first);
            let twice = flushed(once, second);
            &&& once.outbox.last() matches Event::Received { messages, bytes } && messages
                == p.received_messages && bytes + p.last_bytes == first
            &&& twice.outbox.last() matches Event::Received { messages, bytes } && messages == 0
                && bytes + first == second
            &&& twice.outbox.len() == p.outbox.len() + 2
        }),
{
}

} // verus!
