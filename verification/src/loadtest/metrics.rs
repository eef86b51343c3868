//! What the bots measured, in buckets of equal length.

use crate::clock::Duration;
use crate::doubles::{
    floor, lemma_quotient, lemma_seconds, nearest, product, quotient, seconds, to_seconds, whole,
    Double, DoubleView,
};
use crate::loadtest::histogram::{highest_of, percentile_of, recorded, LatencyHistogram};
use vstd::multiset::Multiset;
use vstd::prelude::*;

verus! {

/// A time that is measured.
#[derive(Debug, Clone, Copy, PartialEq, Eq, Hash, Structural)]
pub enum Probe {
    Ping,
    WalkAck,
    OpenContainer,
    DecisionLag,
}

/// Something that is counted.
#[derive(Debug, Clone, Copy, PartialEq, Eq, Hash, Structural)]
pub enum Counter {
    LoginAttempted,
    LoginSucceeded,
    LoginFailed,
    ConnectFailed,
    LoginSendFailed,
    BurstDisconnected,
    SessionDisconnected,
    WalkDenied,
    ActionRefused,
    DecodeError,
    PotionsDry,
    StripMismatch,
}

/// What a bot reports. A dropped sample is reported by its probe, so that a reader can tell which
/// percentile a run of drops takes the worth from.
#[derive(Debug, Clone, Copy, PartialEq, Eq, Structural)]
pub enum Event {
    Sampled(Probe, Duration),
    Dropped(Probe),
    Counted(Counter, u64),
    Received { messages: u64, bytes: u64 },
}

/// How many probes there are.
pub const PROBE_COUNT: usize = 4;

/// How many counters there are.
pub const COUNTER_COUNT: usize = 12;

impl Probe {
    /// The probe's place in a bucket.
    pub open spec fn slot(self) -> int {
        match self {
            Probe::Ping => 0,
            Probe::WalkAck => 1,
            Probe::OpenContainer => 2,
            Probe::DecisionLag => 3,
        }
    }

    fn index(self) -> (i: usize)
        ensures
            i == self.slot(),
            i < PROBE_COUNT,
    {
        match self {
            Probe::Ping => 0,
            Probe::WalkAck => 1,
            Probe::OpenContainer => 2,
            Probe::DecisionLag => 3,
        }
    }
}

impl Counter {
    /// The counter's place in a bucket.
    pub open spec fn slot(self) -> int {
        match self {
            Counter::LoginAttempted => 0,
            Counter::LoginSucceeded => 1,
            Counter::LoginFailed => 2,
            Counter::ConnectFailed => 3,
            Counter::LoginSendFailed => 4,
            Counter::BurstDisconnected => 5,
            Counter::SessionDisconnected => 6,
            Counter::WalkDenied => 7,
            Counter::ActionRefused => 8,
            Counter::DecodeError => 9,
            Counter::PotionsDry => 10,
            Counter::StripMismatch => 11,
        }
    }

    fn index(self) -> (i: usize)
        ensures
            i == self.slot(),
            i < COUNTER_COUNT,
    {
        match self {
            Counter::LoginAttempted => 0,
            Counter::LoginSucceeded => 1,
            Counter::LoginFailed => 2,
            Counter::ConnectFailed => 3,
            Counter::LoginSendFailed => 4,
            Counter::BurstDisconnected => 5,
            Counter::SessionDisconnected => 6,
            Counter::WalkDenied => 7,
            Counter::ActionRefused => 8,
            Counter::DecodeError => 9,
            Counter::PotionsDry => 10,
            Counter::StripMismatch => 11,
        }
    }
}

/// The probe's name in a report.
pub open spec fn probe_label(probe: Probe) -> Seq<char> {
    match probe {
        Probe::Ping => "ping"@,
        Probe::WalkAck => "walk_ack"@,
        Probe::OpenContainer => "open_container"@,
        Probe::DecisionLag => "decision_lag"@,
    }
}

/// The probe's name in a report.
pub fn probe_name(probe: Probe) -> (name: &'static str)
    ensures
        name@ == probe_label(probe),
{
    match probe {
        Probe::Ping => "ping",
        Probe::WalkAck => "walk_ack",
        Probe::OpenContainer => "open_container",
        Probe::DecisionLag => "decision_lag",
    }
}

/// The counter's name in a report.
pub open spec fn counter_label(counter: Counter) -> Seq<char> {
    match counter {
        Counter::LoginAttempted => "login_attempted"@,
        Counter::LoginSucceeded => "login_succeeded"@,
        Counter::LoginFailed => "login_failed"@,
        Counter::ConnectFailed => "connect_failed"@,
        Counter::LoginSendFailed => "login_send_failed"@,
        Counter::BurstDisconnected => "burst_disconnected"@,
        Counter::SessionDisconnected => "session_disconnected"@,
        Counter::WalkDenied => "walk_denied"@,
        Counter::ActionRefused => "action_refused"@,
        Counter::DecodeError => "decode_error"@,
        Counter::PotionsDry => "potions_dry"@,
        Counter::StripMismatch => "strip_mismatch"@,
    }
}

/// The counter's name in a report.
pub fn counter_name(counter: Counter) -> (name: &'static str)
    ensures
        name@ == counter_label(counter),
{
    match counter {
        Counter::LoginAttempted => "login_attempted",
        Counter::LoginSucceeded => "login_succeeded",
        Counter::LoginFailed => "login_failed",
        Counter::ConnectFailed => "connect_failed",
        Counter::LoginSendFailed => "login_send_failed",
        Counter::BurstDisconnected => "burst_disconnected",
        Counter::SessionDisconnected => "session_disconnected",
        Counter::WalkDenied => "walk_denied",
        Counter::ActionRefused => "action_refused",
        Counter::DecodeError => "decode_error",
        Counter::PotionsDry => "potions_dry",
        Counter::StripMismatch => "strip_mismatch",
    }
}

/// What was reported in one stretch of a run.
#[verifier::ext_equal]
pub struct BucketView {
    /// When the stretch began, in seconds since the run did.
    pub start_secs: DoubleView,
    /// The samples of each probe, in microseconds.
    pub samples: Seq<Multiset<u64>>,
    pub drops: Seq<int>,
    pub counters: Seq<int>,
    pub messages: int,
    pub bytes: int,
}

pub struct Bucket {
    /// When the stretch began, in seconds since the run did.
    pub start_secs: Double,
    histograms: Vec<LatencyHistogram>,
    drops: Vec<u64>,
    counters: Vec<u64>,
    messages: u64,
    bytes: u64,
}

pub open spec fn empty_bucket(start_secs: DoubleView) -> BucketView {
    BucketView {
        start_secs,
        samples: Seq::new(PROBE_COUNT as nat, |i: int| Multiset::empty()),
        drops: Seq::new(PROBE_COUNT as nat, |i: int| 0),
        counters: Seq::new(COUNTER_COUNT as nat, |i: int| 0),
        messages: 0,
        bytes: 0,
    }
}

/// A duration as a sample: whole microseconds, at least one and at most what a `u64` holds.
pub open spec fn sample_micros(sample: Duration) -> u64 {
    let micros = sample.nanos / 1_000;
    if micros < 1 {
        1
    } else if micros > u64::MAX {
        u64::MAX
    } else {
        micros as u64
    }
}

pub open spec fn with_sample(b: BucketView, probe: Probe, sample: Duration) -> BucketView {
    BucketView {
        samples: b.samples.update(
            probe.slot(),
            b.samples[probe.slot()].insert(sample_micros(sample)),
        ),
        ..b
    }
}

pub open spec fn with_drop(b: BucketView, probe: Probe) -> BucketView {
    BucketView { drops: b.drops.update(probe.slot(), b.drops[probe.slot()] + 1), ..b }
}

pub open spec fn with_count(b: BucketView, counter: Counter, n: int) -> BucketView {
    BucketView {
        counters: b.counters.update(counter.slot(), b.counters[counter.slot()] + n),
        ..b
    }
}

pub open spec fn with_received(b: BucketView, messages: int, bytes: int) -> BucketView {
    BucketView { messages: b.messages + messages, bytes: b.bytes + bytes, ..b }
}

/// What an event adds to the bucket it falls into.
pub open spec fn with_event(b: BucketView, event: Event) -> BucketView {
    match event {
        Event::Sampled(probe, sample) => with_sample(b, probe, sample),
        Event::Dropped(probe) => with_drop(b, probe),
        Event::Counted(counter, n) => with_count(b, counter, n as int),
        Event::Received { messages, bytes } => with_received(b, messages as int, bytes as int),
    }
}

/// Two stretches taken together, from the start of the first.
pub open spec fn merged(a: BucketView, b: BucketView) -> BucketView {
    BucketView {
        start_secs: a.start_secs,
        samples: Seq::new(PROBE_COUNT as nat, |i: int| a.samples[i].add(b.samples[i])),
        drops: Seq::new(PROBE_COUNT as nat, |i: int| a.drops[i] + b.drops[i]),
        counters: Seq::new(COUNTER_COUNT as nat, |i: int| a.counters[i] + b.counters[i]),
        messages: a.messages + b.messages,
        bytes: a.bytes + b.bytes,
    }
}

/// Every count fits the machine's.
pub open spec fn fits(b: BucketView) -> bool {
    &&& forall|i: int| 0 <= i < PROBE_COUNT ==> (#[trigger] b.samples[i]).len() <= u64::MAX
    &&& forall|i: int| 0 <= i < PROBE_COUNT ==> #[trigger] b.drops[i] <= u64::MAX
    &&& forall|i: int| 0 <= i < COUNTER_COUNT ==> #[trigger] b.counters[i] <= u64::MAX
    &&& b.messages <= u64::MAX
    &&& b.bytes <= u64::MAX
}

impl View for Bucket {
    type V = BucketView;

    closed spec fn view(&self) -> BucketView {
        BucketView {
            start_secs: self.start_secs@,
            samples: Seq::new(self.histograms@.len(), |i: int| recorded(self.histograms@[i])),
            drops: Seq::new(self.drops@.len(), |i: int| self.drops@[i] as int),
            counters: Seq::new(self.counters@.len(), |i: int| self.counters@[i] as int),
            messages: self.messages as int,
            bytes: self.bytes as int,
        }
    }
}

impl Bucket {
    /// Every probe and every counter has its place, and no probe has more samples than can be
    /// counted.
    pub closed spec fn wf(&self) -> bool {
        &&& self.histograms@.len() == PROBE_COUNT
        &&& self.drops@.len() == PROBE_COUNT
        &&& self.counters@.len() == COUNTER_COUNT
        &&& forall|i: int|
            0 <= i < PROBE_COUNT ==> recorded(#[trigger] self.histograms@[i]).len() <= u64::MAX
    }

    fn new(start_secs: Double) -> (b: Self)
        ensures
            b.wf(),
            b@ == empty_bucket(start_secs@),
    {
        let mut histograms: Vec<LatencyHistogram> = Vec::new();
        let mut drops: Vec<u64> = Vec::new();
        let mut i: usize = 0;
        while i < PROBE_COUNT
            invariant
                i <= PROBE_COUNT,
                histograms@.len() == i,
                drops@.len() == i,
                forall|j: int|
                    0 <= j < i ==> recorded(#[trigger] histograms@[j]) == Multiset::<u64>::empty(),
                forall|j: int| 0 <= j < i ==> #[trigger] drops@[j] == 0,
            decreases PROBE_COUNT - i,
        {
            histograms.push(LatencyHistogram::new());
            drops.push(0);
            i += 1;
        }
        let mut counters: Vec<u64> = Vec::new();
        let mut i: usize = 0;
        while i < COUNTER_COUNT
            invariant
                i <= COUNTER_COUNT,
                counters@.len() == i,
                forall|j: int| 0 <= j < i ==> #[trigger] counters@[j] == 0,
            decreases COUNTER_COUNT - i,
        {
            counters.push(0);
            i += 1;
        }
        let b = Bucket { start_secs, histograms, drops, counters, messages: 0, bytes: 0 };
        assert(b@ =~= empty_bucket(start_secs@));
        b
    }

    fn record(&mut self, probe: Probe, sample: Duration)
        requires
            old(self).wf(),
            fits(with_sample(old(self)@, probe, sample)),
        ensures
            final(self).wf(),
            final(self)@ == with_sample(old(self)@, probe, sample),
    {
        let micros: u128 = sample.as_micros();
        let micros: u64 = if micros < 1 {
            1
        } else if micros > u64::MAX as u128 {
            u64::MAX
        } else {
            micros as u64
        };
        let i: usize = probe.index();
        assert(fits(with_sample(old(self)@, probe, sample)) ==> recorded(
            self.histograms@[i as int],
        ).insert(micros).len() <= u64::MAX) by {
            assert(with_sample(old(self)@, probe, sample).samples[i as int] == recorded(
                self.histograms@[i as int],
            ).insert(micros));
        }
        self.histograms[i].record(micros);
        assert(self@ =~= with_sample(old(self)@, probe, sample));
        assert forall|j: int| 0 <= j < PROBE_COUNT implies recorded(
            #[trigger] self.histograms@[j],
        ).len() <= u64::MAX by {
            if j != i {
                assert(self.histograms@[j] == old(self).histograms@[j]);
            }
        }
    }

    fn record_drop(&mut self, probe: Probe)
        requires
            old(self).wf(),
            fits(with_drop(old(self)@, probe)),
        ensures
            final(self).wf(),
            final(self)@ == with_drop(old(self)@, probe),
    {
        let i: usize = probe.index();
        assert(with_drop(self@, probe).drops[i as int] == self.drops@[i as int] + 1);
        self.drops[i] = self.drops[i] + 1;
        assert(self@ =~= with_drop(old(self)@, probe));
    }

    fn count(&mut self, counter: Counter, n: u64)
        requires
            old(self).wf(),
            fits(with_count(old(self)@, counter, n as int)),
        ensures
            final(self).wf(),
            final(self)@ == with_count(old(self)@, counter, n as int),
    {
        let i: usize = counter.index();
        assert(with_count(self@, counter, n as int).counters[i as int] == self.counters@[i as int]
            + n);
        self.counters[i] = self.counters[i] + n;
        assert(self@ =~= with_count(old(self)@, counter, n as int));
    }

    fn receive(&mut self, messages: u64, bytes: u64)
        requires
            old(self).wf(),
            fits(with_received(old(self)@, messages as int, bytes as int)),
        ensures
            final(self).wf(),
            final(self)@ == with_received(old(self)@, messages as int, bytes as int),
    {
        self.messages = self.messages + messages;
        self.bytes = self.bytes + bytes;
        assert(self@ =~= with_received(old(self)@, messages as int, bytes as int));
    }

    fn merge(&mut self, other: &Bucket)
        requires
            old(self).wf(),
            other.wf(),
            fits(merged(old(self)@, other@)),
        ensures
            final(self).wf(),
            final(self)@ == merged(old(self)@, other@),
    {
        let ghost whole = merged(self@, other@);
        let ghost first = self@;
        let mut i: usize = 0;
        while i < PROBE_COUNT
            invariant
                i <= PROBE_COUNT,
                self.wf(),
                other.wf(),
                first == old(self)@,
                whole == merged(first, other@),
                fits(whole),
                forall|j: int|
                    0 <= j < PROBE_COUNT ==> recorded(#[trigger] self.histograms@[j]) == (if j < i {
                        whole.samples[j]
                    } else {
                        first.samples[j]
                    }),
                forall|j: int|
                    0 <= j < PROBE_COUNT ==> #[trigger] self.drops@[j] == (if j < i {
                        whole.drops[j]
                    } else {
                        first.drops[j]
                    }),
                self@.counters == first.counters,
                self.messages == first.messages,
                self.bytes == first.bytes,
                self.start_secs@ == first.start_secs,
            decreases PROBE_COUNT - i,
        {
            let ghost before = *self;
            assert(whole.samples[i as int] == recorded(self.histograms@[i as int]).add(
                recorded(other.histograms@[i as int]),
            ));
            assert(whole.drops[i as int] == self.drops@[i as int] + other.drops@[i as int]);
            self.histograms[i].merge(&other.histograms[i]);
            self.drops[i] = self.drops[i] + other.drops[i];
            i += 1;
            assert forall|j: int| 0 <= j < PROBE_COUNT implies recorded(
                #[trigger] self.histograms@[j],
            ) == (if j < i {
                whole.samples[j]
            } else {
                first.samples[j]
            }) by {
                if j != i - 1 {
                    assert(self.histograms@[j] == before.histograms@[j]);
                }
            }
            assert(self@.counters =~= before@.counters);
        }
        let mut i: usize = 0;
        let ghost mid = *self;
        assert forall|j: int| 0 <= j < COUNTER_COUNT implies #[trigger] self.counters@[j]
            == first.counters[j] by {
            assert(self@.counters[j] == first.counters[j]);
        }
        while i < COUNTER_COUNT
            invariant
                i <= COUNTER_COUNT,
                self.wf(),
                other.wf(),
                whole == merged(first, other@),
                fits(whole),
                self.histograms == mid.histograms,
                self.drops == mid.drops,
                forall|j: int|
                    0 <= j < COUNTER_COUNT ==> #[trigger] self.counters@[j] == (if j < i {
                        whole.counters[j]
                    } else {
                        first.counters[j]
                    }),
                self.messages == first.messages,
                self.bytes == first.bytes,
                self.start_secs@ == first.start_secs,
            decreases COUNTER_COUNT - i,
        {
            assert(whole.counters[i as int] == self.counters@[i as int] + other.counters@[i as int]);
            self.counters[i] = self.counters[i] + other.counters[i];
            i += 1;
        }
        self.messages = self.messages + other.messages;
        self.bytes = self.bytes + other.bytes;
        assert(self@ =~= whole);
    }

    fn copy(&self) -> (b: Bucket)
        requires
            self.wf(),
        ensures
            b.wf(),
            b@ == self@,
    {
        let mut histograms: Vec<LatencyHistogram> = Vec::new();
        let mut drops: Vec<u64> = Vec::new();
        let mut i: usize = 0;
        while i < PROBE_COUNT
            invariant
                i <= PROBE_COUNT,
                self.wf(),
                histograms@.len() == i,
                drops@.len() == i,
                forall|j: int|
                    0 <= j < i ==> recorded(#[trigger] histograms@[j]) == recorded(
                        self.histograms@[j],
                    ),
                forall|j: int| 0 <= j < i ==> #[trigger] drops@[j] == self.drops@[j],
            decreases PROBE_COUNT - i,
        {
            histograms.push(self.histograms[i].copy());
            drops.push(self.drops[i]);
            i += 1;
        }
        let mut counters: Vec<u64> = Vec::new();
        let mut i: usize = 0;
        while i < COUNTER_COUNT
            invariant
                i <= COUNTER_COUNT,
                self.wf(),
                counters@.len() == i,
                forall|j: int| 0 <= j < i ==> #[trigger] counters@[j] == self.counters@[j],
            decreases COUNTER_COUNT - i,
        {
            counters.push(self.counters[i]);
            i += 1;
        }
        let b = Bucket {
            start_secs: self.start_secs,
            histograms,
            drops,
            counters,
            messages: self.messages,
            bytes: self.bytes,
        };
        assert(b@ =~= self@);
        b
    }

    /// How many samples of `probe` there are.
    pub fn samples(&self, probe: Probe) -> (n: u64)
        requires
            self.wf(),
        ensures
            n == self@.samples[probe.slot()].len(),
    {
        self.histograms[probe.index()].count()
    }

    /// How many samples of `probe` were dropped.
    pub fn dropped(&self, probe: Probe) -> (n: u64)
        requires
            self.wf(),
        ensures
            n == self@.drops[probe.slot()],
    {
        self.drops[probe.index()]
    }

    /// The microseconds below which `pct` percent of the samples lie. A quiet bucket has no such
    /// number: it must not read like a fast one.
    pub fn percentile(&self, probe: Probe, pct: u8) -> (r: Option<u64>)
        requires
            self.wf(),
        ensures
            r == if self@.samples[probe.slot()].len() > 0 {
                Some(percentile_of(self@.samples[probe.slot()], pct))
            } else {
                None
            },
    {
        if self.samples(probe) > 0 {
            Some(self.histograms[probe.index()].value_at_percentile(pct))
        } else {
            None
        }
    }

    /// The microseconds below which 99 percent of the samples lie.
    pub fn p99(&self, probe: Probe) -> (r: Option<u64>)
        requires
            self.wf(),
        ensures
            r == if self@.samples[probe.slot()].len() > 0 {
                Some(percentile_of(self@.samples[probe.slot()], 99))
            } else {
                None
            },
    {
        self.percentile(probe, 99)
    }

    /// The longest sample, in microseconds.
    pub fn longest(&self, probe: Probe) -> (r: Option<u64>)
        requires
            self.wf(),
        ensures
            r == if self@.samples[probe.slot()].len() > 0 {
                Some(highest_of(self@.samples[probe.slot()]))
            } else {
                None
            },
    {
        if self.samples(probe) > 0 {
            Some(self.histograms[probe.index()].max())
        } else {
            None
        }
    }

    pub fn count_of(&self, counter: Counter) -> (n: u64)
        requires
            self.wf(),
        ensures
            n == self@.counters[counter.slot()],
    {
        self.counters[counter.index()]
    }

    pub fn messages(&self) -> (n: u64)
        ensures
            n == self@.messages,
    {
        self.messages
    }

    pub fn bytes(&self) -> (n: u64)
        ensures
            n == self@.bytes,
    {
        self.bytes
    }
}

impl Default for Bucket {
    fn default() -> (b: Self)
        ensures
            b.wf(),
            b@ == empty_bucket(nearest(0, 1, 0)),
    {
        Bucket::new(whole(0))
    }
}

/// When bucket `i` begins: `i` times the length of one, in double precision.
pub open spec fn start_of(i: int, width: Duration) -> DoubleView {
    product(nearest(i, 1, 0), seconds(width))
}

/// Which bucket `elapsed` falls into: how often the length of one goes into it, in double
/// precision, or the highest number there is where that is less.
pub open spec fn bucket_of(elapsed: Duration, width: Duration) -> int {
    if width.nanos == 0 {
        if elapsed.nanos == 0 {
            0
        } else {
            usize::MAX as int
        }
    } else {
        let index = floor(quotient(seconds(elapsed), seconds(width)));
        if index <= usize::MAX {
            index
        } else {
            usize::MAX as int
        }
    }
}

/// Enough buckets for one at `index`, the missing ones empty.
pub open spec fn grown(buckets: Seq<BucketView>, width: Duration, index: int) -> Seq<BucketView> {
    if index < buckets.len() {
        buckets
    } else {
        Seq::new(
            (index + 1) as nat,
            |i: int|
                if i < buckets.len() {
                    buckets[i]
                } else {
                    empty_bucket(start_of(i, width))
                },
        )
    }
}

/// What is known after an event at `elapsed`: it goes to the bucket that `elapsed` falls into.
pub open spec fn after_event(
    buckets: Seq<BucketView>,
    width: Duration,
    elapsed: Duration,
    event: Event,
) -> Seq<BucketView> {
    let index = bucket_of(elapsed, width);
    let all = grown(buckets, width, index);
    all.update(index, with_event(all[index], event))
}

/// The first `n` buckets taken together.
pub open spec fn total(buckets: Seq<BucketView>, n: nat) -> BucketView
    decreases n,
{
    if n == 0 {
        empty_bucket(nearest(0, 1, 0))
    } else {
        merged(total(buckets, (n - 1) as nat), buckets[n - 1])
    }
}

/// A bucket in which every probe and counter has its place and no count is negative.
pub open spec fn shaped(b: BucketView) -> bool {
    &&& b.samples.len() == PROBE_COUNT
    &&& b.drops.len() == PROBE_COUNT
    &&& b.counters.len() == COUNTER_COUNT
    &&& forall|i: int| 0 <= i < PROBE_COUNT ==> 0 <= #[trigger] b.drops[i]
    &&& forall|i: int| 0 <= i < COUNTER_COUNT ==> 0 <= #[trigger] b.counters[i]
    &&& 0 <= b.messages
    &&& 0 <= b.bytes
}

/// No count of `a` is above that of `b`.
pub open spec fn within(a: BucketView, b: BucketView) -> bool {
    &&& forall|i: int|
        0 <= i < PROBE_COUNT ==> (#[trigger] a.samples[i]).len() <= b.samples[i].len()
    &&& forall|i: int| 0 <= i < PROBE_COUNT ==> #[trigger] a.drops[i] <= b.drops[i]
    &&& forall|i: int| 0 <= i < COUNTER_COUNT ==> #[trigger] a.counters[i] <= b.counters[i]
    &&& a.messages <= b.messages
    &&& a.bytes <= b.bytes
}

proof fn lemma_total_grows(buckets: Seq<BucketView>, n: nat, m: nat)
    requires
        n <= m <= buckets.len(),
        forall|i: int| 0 <= i < buckets.len() ==> shaped(#[trigger] buckets[i]),
    ensures
        shaped(total(buckets, m)),
        within(total(buckets, n), total(buckets, m)),
    decreases m,
{
    if m > 0 {
        let less = (m - 1) as nat;
        if n < m {
            lemma_total_grows(buckets, n, less);
        } else {
            lemma_total_grows(buckets, less, less);
        }
        assert(shaped(buckets[m - 1]));
        assert forall|i: int| 0 <= i < PROBE_COUNT implies (#[trigger] total(
            buckets,
            m,
        ).samples[i]).len() == total(buckets, less).samples[i].len()
            + buckets[m - 1].samples[i].len() by {}
    }
}

/// Everything that a report says of the run itself.
#[derive(Debug)]
pub struct Meta {
    pub bucket: Duration,
    pub started_at_unix: u64,
    pub bot_count: usize,
    pub ramp: Duration,
    pub duration: Duration,
    pub server: String,
    pub config: String,
    pub routes: Vec<String>,
    pub bots_aborted: u64,
}

impl Default for Meta {
    fn default() -> (m: Self)
        ensures
            m.bucket.nanos == 0,
            m.started_at_unix == 0,
            m.bot_count == 0,
            m.ramp.nanos == 0,
            m.duration.nanos == 0,
            m.server@.len() == 0,
            m.config@.len() == 0,
            m.routes@.len() == 0,
            m.bots_aborted == 0,
    {
        Meta {
            bucket: Duration::zero(),
            started_at_unix: 0,
            bot_count: 0,
            ramp: Duration::zero(),
            duration: Duration::zero(),
            server: String::new(),
            config: String::new(),
            routes: Vec::new(),
            bots_aborted: 0,
        }
    }
}

/// The buckets of a run, and all of them taken together.
pub struct Report {
    pub meta: Meta,
    pub buckets: Vec<Bucket>,
    pub total: Bucket,
}

/// What a run has reported so far.
pub struct Metrics {
    bucket_duration: Duration,
    buckets: Vec<Bucket>,
}

/// The views of a list of buckets.
pub open spec fn bucket_views(buckets: Seq<Bucket>) -> Seq<BucketView> {
    Seq::new(buckets.len(), |i: int| buckets[i]@)
}

impl Metrics {
    /// The buckets so far.
    pub closed spec fn view(&self) -> Seq<BucketView> {
        bucket_views(self.buckets@)
    }

    /// The length of a bucket.
    pub closed spec fn width(&self) -> Duration {
        self.bucket_duration
    }

    /// Each bucket starts where the one before it ends.
    pub closed spec fn wf(&self) -> bool {
        &&& forall|i: int| 0 <= i < self.buckets@.len() ==> (#[trigger] self.buckets@[i]).wf()
        &&& forall|i: int|
            0 <= i < self.buckets@.len() ==> (#[trigger] self.buckets@[i])@.start_secs == start_of(
                i,
                self.bucket_duration,
            )
    }

    pub fn new(bucket_duration: Duration) -> (m: Self)
        ensures
            m.wf(),
            m.width() == bucket_duration,
            m@ == Seq::<BucketView>::empty(),
    {
        let m = Metrics { bucket_duration, buckets: Vec::new() };
        assert(m@ =~= Seq::<BucketView>::empty());
        m
    }

    /// Makes sure that the bucket exists that `elapsed` falls into, and says which one it is.
    fn reach(&mut self, elapsed: Duration) -> (index: usize)
        requires
            old(self).wf(),
            bucket_of(elapsed, old(self).width()) < usize::MAX,
        ensures
            final(self).wf(),
            final(self).width() == old(self).width(),
            index == bucket_of(elapsed, old(self).width()),
            final(self)@ == grown(old(self)@, old(self).width(), index as int),
            index < final(self).buckets@.len(),
    {
        let ghost before = self@;
        let width: Double = to_seconds(self.bucket_duration);
        let index: usize = if width.mantissa == 0 {
            0
        } else {
            to_seconds(elapsed).over(&width).whole_part()
        };
        while self.buckets.len() <= index
            invariant
                self.wf(),
                self.width() == old(self).width(),
                before == old(self)@,
                width@ == seconds(self.width()),
                width.wf(),
                -172 <= width.exponent <= 150,
                index < usize::MAX,
                before.len() <= self.buckets@.len(),
                self.buckets@.len() <= index + 1 || self.buckets@.len() == before.len(),
                forall|i: int|
                    0 <= i < self.buckets@.len() ==> (#[trigger] self.buckets@[i])@ == (if i
                        < before.len() {
                        before[i]
                    } else {
                        empty_bucket(start_of(i, self.width()))
                    }),
            decreases index + 1 - self.buckets@.len(),
        {
            let n: usize = self.buckets.len();
            let start_secs: Double = whole(n as u64).times(&width);
            self.buckets.push(Bucket::new(start_secs));
        }
        assert(self@ =~= grown(before, self.width(), index as int));
        index
    }

    /// Takes in a sample.
    pub fn record(&mut self, probe: Probe, elapsed: Duration, sample: Duration)
        requires
            old(self).wf(),
            old(self).can_take(elapsed, Event::Sampled(probe, sample)),
        ensures
            final(self).wf(),
            final(self).width() == old(self).width(),
            final(self)@ == after_event(
                old(self)@,
                old(self).width(),
                elapsed,
                Event::Sampled(probe, sample),
            ),
    {
        let index: usize = self.reach(elapsed);
        let ghost all = self@;
        let ghost here = *self;
        assert(all[index as int] == self.buckets@[index as int]@);
        self.buckets[index].record(probe, sample);
        assert(self@ =~= all.update(index as int, self.buckets@[index as int]@));
        assert forall|i: int| 0 <= i < self.buckets@.len() implies (
        #[trigger] self.buckets@[i]).wf() && self.buckets@[i]@.start_secs == start_of(
            i,
            self.bucket_duration,
        ) by {
            if i != index {
                assert(self.buckets@[i] == here.buckets@[i]);
            }
        }
    }

    /// Takes in that a sample was dropped.
    pub fn record_drop(&mut self, probe: Probe, elapsed: Duration)
        requires
            old(self).wf(),
            old(self).can_take(elapsed, Event::Dropped(probe)),
        ensures
            final(self).wf(),
            final(self).width() == old(self).width(),
            final(self)@ == after_event(
                old(self)@,
                old(self).width(),
                elapsed,
                Event::Dropped(probe),
            ),
    {
        let index: usize = self.reach(elapsed);
        let ghost all = self@;
        let ghost here = *self;
        assert(all[index as int] == self.buckets@[index as int]@);
        self.buckets[index].record_drop(probe);
        assert(self@ =~= all.update(index as int, self.buckets@[index as int]@));
        assert forall|i: int| 0 <= i < self.buckets@.len() implies (
        #[trigger] self.buckets@[i]).wf() && self.buckets@[i]@.start_secs == start_of(
            i,
            self.bucket_duration,
        ) by {
            if i != index {
                assert(self.buckets@[i] == here.buckets@[i]);
            }
        }
    }

    /// Takes in that something happened `n` times.
    pub fn count(&mut self, counter: Counter, elapsed: Duration, n: u64)
        requires
            old(self).wf(),
            old(self).can_take(elapsed, Event::Counted(counter, n)),
        ensures
            final(self).wf(),
            final(self).width() == old(self).width(),
            final(self)@ == after_event(
                old(self)@,
                old(self).width(),
                elapsed,
                Event::Counted(counter, n),
            ),
    {
        let index: usize = self.reach(elapsed);
        let ghost all = self@;
        let ghost here = *self;
        assert(all[index as int] == self.buckets@[index as int]@);
        self.buckets[index].count(counter, n);
        assert(self@ =~= all.update(index as int, self.buckets@[index as int]@));
        assert forall|i: int| 0 <= i < self.buckets@.len() implies (
        #[trigger] self.buckets@[i]).wf() && self.buckets@[i]@.start_secs == start_of(
            i,
            self.bucket_duration,
        ) by {
            if i != index {
                assert(self.buckets@[i] == here.buckets@[i]);
            }
        }
    }

    /// Takes in how much the server sent.
    pub fn received(&mut self, elapsed: Duration, messages: u64, bytes: u64)
        requires
            old(self).wf(),
            old(self).can_take(elapsed, Event::Received { messages, bytes }),
        ensures
            final(self).wf(),
            final(self).width() == old(self).width(),
            final(self)@ == after_event(
                old(self)@,
                old(self).width(),
                elapsed,
                Event::Received { messages, bytes },
            ),
    {
        let index: usize = self.reach(elapsed);
        let ghost all = self@;
        let ghost here = *self;
        assert(all[index as int] == self.buckets@[index as int]@);
        self.buckets[index].receive(messages, bytes);
        assert(self@ =~= all.update(index as int, self.buckets@[index as int]@));
        assert forall|i: int| 0 <= i < self.buckets@.len() implies (
        #[trigger] self.buckets@[i]).wf() && self.buckets@[i]@.start_secs == start_of(
            i,
            self.bucket_duration,
        ) by {
            if i != index {
                assert(self.buckets@[i] == here.buckets@[i]);
            }
        }
    }

    /// The bucket can be counted to, and its counts have room for the event.
    pub open spec fn can_take(&self, elapsed: Duration, event: Event) -> bool {
        let index = bucket_of(elapsed, self.width());
        &&& index < usize::MAX
        &&& fits(with_event(grown(self@, self.width(), index)[index], event))
    }

    /// Takes in an event that came `elapsed` after the run began.
    pub fn apply(&mut self, event: Event, elapsed: Duration)
        requires
            old(self).wf(),
            old(self).can_take(elapsed, event),
        ensures
            final(self).wf(),
            final(self).width() == old(self).width(),
            final(self)@ == after_event(old(self)@, old(self).width(), elapsed, event),
    {
        match event {
            Event::Sampled(probe, sample) => self.record(probe, elapsed, sample),
            Event::Dropped(probe) => self.record_drop(probe, elapsed),
            Event::Counted(counter, n) => self.count(counter, elapsed, n),
            Event::Received { messages, bytes } => self.received(elapsed, messages, bytes),
        }
    }

    /// The buckets so far, and all of them taken together.
    pub fn report(&self, meta: Meta) -> (r: Report)
        requires
            self.wf(),
            fits(total(self@, self@.len())),
        ensures
            r.meta == meta,
            bucket_views(r.buckets@) == self@,
            forall|i: int| 0 <= i < r.buckets@.len() ==> (#[trigger] r.buckets@[i]).wf(),
            r.total@ == total(self@, self@.len()),
            r.total.wf(),
    {
        let mut sum: Bucket = Bucket::default();
        let mut buckets: Vec<Bucket> = Vec::new();
        let mut i: usize = 0;
        proof {
            assert forall|j: int| 0 <= j < self@.len() implies shaped(#[trigger] self@[j]) by {
                assert(self.buckets@[j].wf());
            }
        }
        while i < self.buckets.len()
            invariant
                i <= self.buckets.len(),
                self.wf(),
                fits(total(self@, self@.len())),
                forall|j: int| 0 <= j < self@.len() ==> shaped(#[trigger] self@[j]),
                sum.wf(),
                sum@ == total(self@, i as nat),
                buckets@.len() == i,
                forall|j: int|
                    0 <= j < i ==> (#[trigger] buckets@[j]).wf() && buckets@[j]@
                        == self.buckets@[j]@,
            decreases self.buckets.len() - i,
        {
            proof {
                lemma_total_grows(self@, (i + 1) as nat, self@.len());
                lemma_fits_within(total(self@, (i + 1) as nat), total(self@, self@.len()));
            }
            sum.merge(&self.buckets[i]);
            buckets.push(self.buckets[i].copy());
            i += 1;
        }
        assert(bucket_views(buckets@) =~= self@);
        Report { meta, buckets, total: sum }
    }
}

proof fn lemma_fits_within(a: BucketView, b: BucketView)
    requires
        within(a, b),
        fits(b),
    ensures
        fits(a),
{
    assert forall|i: int| 0 <= i < PROBE_COUNT implies (#[trigger] a.samples[i]).len()
        <= u64::MAX by {
        assert(b.samples[i].len() <= u64::MAX);
    }
    assert forall|i: int| 0 <= i < PROBE_COUNT implies #[trigger] a.drops[i] <= u64::MAX by {
        assert(b.drops[i] <= u64::MAX);
    }
    assert forall|i: int| 0 <= i < COUNTER_COUNT implies #[trigger] a.counters[i]
        <= u64::MAX by {
        assert(b.counters[i] <= u64::MAX);
    }
}

proof fn lemma_total_shaped(buckets: Seq<BucketView>, n: nat)
    ensures
        total(buckets, n).samples.len() == PROBE_COUNT,
        total(buckets, n).drops.len() == PROBE_COUNT,
        total(buckets, n).counters.len() == COUNTER_COUNT,
    decreases n,
{
    if n > 0 {
        lemma_total_shaped(buckets, (n - 1) as nat);
    }
}

proof fn lemma_total_agrees(a: Seq<BucketView>, b: Seq<BucketView>, n: nat)
    requires
        n <= a.len(),
        n <= b.len(),
        forall|i: int| 0 <= i < n ==> #[trigger] a[i] == b[i],
    ensures
        total(a, n) == total(b, n),
    decreases n,
{
    if n > 0 {
        lemma_total_agrees(a, b, (n - 1) as nat);
    }
}

proof fn lemma_total_of_grown(buckets: Seq<BucketView>, width: Duration, index: int, n: nat)
    requires
        0 <= index,
        buckets.len() <= n <= grown(buckets, width, index).len(),
    ensures
        total(grown(buckets, width, index), n) == total(buckets, buckets.len()),
    decreases n,
{
    let all = grown(buckets, width, index);
    if n == buckets.len() {
        lemma_total_agrees(all, buckets, n);
    } else {
        lemma_total_of_grown(buckets, width, index, (n - 1) as nat);
        let before = total(all, (n - 1) as nat);
        lemma_total_shaped(all, (n - 1) as nat);
        assert(all[n - 1] == empty_bucket(start_of(n - 1, width)));
        assert forall|i: int| 0 <= i < PROBE_COUNT implies before.samples[i].add(
            Multiset::<u64>::empty(),
        ) == #[trigger] before.samples[i] by {
            assert(before.samples[i].add(Multiset::<u64>::empty()) =~= before.samples[i]);
        }
        assert(merged(before, all[n - 1]) =~= before);
    }
}

proof fn lemma_total_of_update(
    buckets: Seq<BucketView>,
    index: int,
    event: Event,
    n: nat,
)
    requires
        0 <= index < buckets.len(),
        n <= buckets.len(),
        shaped(buckets[index]),
    ensures
        total(buckets.update(index, with_event(buckets[index], event)), n) == (if index < n {
            with_event(total(buckets, n), event)
        } else {
            total(buckets, n)
        }),
    decreases n,
{
    let changed = buckets.update(index, with_event(buckets[index], event));
    if n > 0 {
        lemma_total_of_update(buckets, index, event, (n - 1) as nat);
        let before = total(buckets, (n - 1) as nat);
        lemma_total_shaped(buckets, (n - 1) as nat);
        if index == n - 1 {
            let b = buckets[index];
            if let Event::Sampled(probe, sample) = event {
                let v = sample_micros(sample);
                let s = probe.slot();
                assert(before.samples[s].add(b.samples[s].insert(v)) =~= before.samples[s].add(
                    b.samples[s],
                ).insert(v));
            }
            assert(merged(before, with_event(b, event)) =~= with_event(merged(before, b), event));
        } else if index < n - 1 {
            let b = buckets[n - 1];
            if let Event::Sampled(probe, sample) = event {
                let v = sample_micros(sample);
                let s = probe.slot();
                assert(before.samples[s].insert(v).add(b.samples[s]) =~= before.samples[s].add(
                    b.samples[s],
                ).insert(v));
            }
            assert(merged(with_event(before, event), b) =~= with_event(merged(before, b), event));
        }
    }
}

proof fn lemma_bucket_of(elapsed: Duration, width: Duration)
    ensures
        0 <= bucket_of(elapsed, width) <= usize::MAX,
{
    if width.nanos != 0 {
        lemma_seconds(elapsed);
        lemma_seconds(width);
        lemma_quotient(seconds(elapsed), seconds(width));
    }
}

/// Whatever bucket an event falls into, the total counts it, and counts it once.
pub proof fn law_the_total_counts_every_event(
    buckets: Seq<BucketView>,
    width: Duration,
    elapsed: Duration,
    event: Event,
)
    requires
        forall|i: int| 0 <= i < buckets.len() ==> shaped(#[trigger] buckets[i]),
    ensures
        ({
            let later = after_event(buckets, width, elapsed, event);
            total(later, later.len()) == with_event(total(buckets, buckets.len()), event)
        }),
{
    let index = bucket_of(elapsed, width);
    lemma_bucket_of(elapsed, width);
    let all = grown(buckets, width, index);
    assert(shaped(all[index]));
    lemma_total_of_update(all, index, event, all.len());
    lemma_total_of_grown(buckets, width, index, all.len());
}

/// An event changes no bucket but the one it falls into.
pub proof fn law_an_event_touches_one_bucket(
    buckets: Seq<BucketView>,
    width: Duration,
    elapsed: Duration,
    event: Event,
    i: int,
)
    requires
        0 <= i < buckets.len(),
        i != bucket_of(elapsed, width),
    ensures
        after_event(buckets, width, elapsed, event).len() >= buckets.len(),
        after_event(buckets, width, elapsed, event)[i] == buckets[i],
{
    lemma_bucket_of(elapsed, width);
}

/// A sample is kept in microseconds: whole ones, and never less than one.
pub proof fn law_samples_are_kept_in_microseconds(sample: Duration, longer: Duration)
    requires
        sample.nanos <= longer.nanos,
    ensures
        sample_micros(sample) >= 1,
        1_000 <= sample.nanos && sample.nanos < 1_000 * 0x1_0000_0000_0000 ==> sample_micros(sample)
            * 1_000 <= sample.nanos < (sample_micros(sample) + 1) * 1_000,
        sample_micros(sample) <= sample_micros(longer),
{
}

/// An event is told where it belongs: a sample among those of its probe, a lost request among
/// those of its probe, a count under its counter, and traffic as messages and bytes. Nothing else
/// changes.
pub proof fn law_an_event_is_counted_where_it_belongs(
    b: BucketView,
    event: Event,
    probe: Probe,
    counter: Counter,
)
    requires
        b.samples.len() == 4,
        b.drops.len() == 4,
        b.counters.len() == 12,
    ensures
        ({
            let later = with_event(b, event);
            &&& later.samples[probe.slot()] == (match event {
                Event::Sampled(of, sample) => if of == probe {
                    b.samples[probe.slot()].insert(sample_micros(sample))
                } else {
                    b.samples[probe.slot()]
                },
                _ => b.samples[probe.slot()],
            })
            &&& later.drops[probe.slot()] == b.drops[probe.slot()] + (match event {
                Event::Dropped(of) => if of == probe {
                    1int
                } else {
                    0
                },
                _ => 0,
            })
            &&& later.counters[counter.slot()] == b.counters[counter.slot()] + (match event {
                Event::Counted(of, n) => if of == counter {
                    n as int
                } else {
                    0
                },
                _ => 0,
            })
            &&& later.messages == b.messages + (match event {
                Event::Received { messages, .. } => messages as int,
                _ => 0,
            })
            &&& later.bytes == b.bytes + (match event {
                Event::Received { bytes, .. } => bytes as int,
                _ => 0,
            })
        }),
{
}

/// Two stretches put together hold what both hold, in either order.
pub proof fn law_stretches_add_up(a: BucketView, b: BucketView, probe: Probe, counter: Counter)
    ensures
        merged(a, b).samples[probe.slot()] == a.samples[probe.slot()].add(
            b.samples[probe.slot()],
        ),
        merged(a, b).drops[probe.slot()] == a.drops[probe.slot()] + b.drops[probe.slot()],
        merged(a, b).counters[counter.slot()] == a.counters[counter.slot()]
            + b.counters[counter.slot()],
        merged(a, b).messages == a.messages + b.messages,
        merged(a, b).bytes == a.bytes + b.bytes,
        merged(a, b).start_secs == a.start_secs,
{
}

} // verus!
