//! Which sessions each event and each change of the world is sent to.

use crate::entities::agent::AgentKey;
use crate::entities::healing::RestoreType;
use crate::entities::map::{GameMap, MapView};
use crate::entities::position::{Position, Rect};
use crate::entities::world_delta::{unchanged, DeltaView, WorldDelta};
use crate::game::events::{route_of, BroadcastMessage, EventView, Routing};
use vstd::prelude::*;

verus! {

/// The function answers for any two floors, and always the same.
pub open spec fn settles<F: Fn(u8, u8) -> bool>(visible: F) -> bool {
    &&& forall|a: u8, b: u8| #[trigger] visible.requires((a, b))
    &&& forall|a: u8, b: u8|
        !(#[trigger] visible.ensures((a, b), true) && visible.ensures((a, b), false))
}

/// What happens in `rect` on `floor` is seen by somebody at `at`: the same rect on every floor
/// that sees it, or on `floor` alone.
pub open spec fn seen_from<F: Fn(u8, u8) -> bool>(
    at: Position,
    rect: Rect,
    floor: u8,
    same_floor: bool,
    visible: F,
) -> bool {
    rect.holds(at) && (if same_floor {
        at.z == floor
    } else {
        visible.ensures((floor, at.z), true)
    })
}

/// Whether what happens in `rect` on `floor` is seen by somebody at `at`. `visible` says whether a
/// floor is seen from another.
pub fn sees<F: Fn(u8, u8) -> bool>(
    at: &Position,
    rect: &Rect,
    floor: u8,
    same_floor: bool,
    visible: &F,
) -> (r: bool)
    requires
        settles(*visible),
    ensures
        r == seen_from(*at, *rect, floor, same_floor, *visible),
{
    if !rect.contains(at) {
        return false;
    }
    if same_floor {
        at.z == floor
    } else {
        visible(floor, at.z)
    }
}

/// The rect that holds both.
pub open spec fn spanning(a: Rect, b: Rect) -> Rect {
    Rect {
        min_x: if a.min_x <= b.min_x { a.min_x } else { b.min_x },
        min_y: if a.min_y <= b.min_y { a.min_y } else { b.min_y },
        max_x: if a.max_x >= b.max_x { a.max_x } else { b.max_x },
        max_y: if a.max_y >= b.max_y { a.max_y } else { b.max_y },
    }
}

fn span(a: &Rect, b: &Rect) -> (r: Rect)
    ensures
        r == spanning(*a, *b),
{
    Rect {
        min_x: if a.min_x <= b.min_x { a.min_x } else { b.min_x },
        min_y: if a.min_y <= b.min_y { a.min_y } else { b.min_y },
        max_x: if a.max_x >= b.max_x { a.max_x } else { b.max_x },
        max_y: if a.max_y >= b.max_y { a.max_y } else { b.max_y },
    }
}

/// Who at `at` is told of an event for what it sees of it. An agent that an event names besides is
/// told on that account.
pub open spec fn watches<F: Fn(u8, u8) -> bool>(
    key: AgentKey,
    at: Position,
    routing: Routing,
    visible: F,
) -> bool {
    match routing {
        Routing::Agent(_) => false,
        Routing::Viewport { at: center, same_floor } => seen_from(
            at,
            Rect::viewport(center),
            center.z,
            same_floor,
            visible,
        ),
        Routing::EitherViewport(a, b) => seen_from(at, Rect::viewport(a), a.z, false, visible)
            || seen_from(at, Rect::viewport(b), b.z, false, visible),
        Routing::ViewportAndAgent { at: center, .. } => seen_from(
            at,
            Rect::viewport(center),
            center.z,
            false,
            visible,
        ),
        Routing::Move { from, to, mover } => key != mover && seen_from(
            at,
            spanning(Rect::viewport(from), Rect::viewport(to)),
            to.z,
            false,
            visible,
        ),
    }
}

/// Those of the first `n` players who watch.
pub open spec fn watchers_among<F: Fn(u8, u8) -> bool>(
    players: Seq<(AgentKey, Position)>,
    routing: Routing,
    visible: F,
    n: nat,
) -> Seq<AgentKey>
    decreases n,
{
    if n == 0 {
        Seq::empty()
    } else {
        let before = watchers_among(players, routing, visible, (n - 1) as nat);
        if watches(players[n - 1].0, players[n - 1].1, routing, visible) {
            before.push(players[n - 1].0)
        } else {
            before
        }
    }
}

/// The agent that an event names.
pub open spec fn addressee(routing: Routing) -> Option<AgentKey> {
    match routing {
        Routing::Agent(key) => Some(key),
        Routing::ViewportAndAgent { agent, .. } => Some(agent),
        Routing::Move { mover, .. } => Some(mover),
        _ => None,
    }
}

/// Whom an event is sent to: those who see it, and the agent that it names last.
pub open spec fn recipients_of<F: Fn(u8, u8) -> bool>(
    players: Seq<(AgentKey, Position)>,
    routing: Routing,
    visible: F,
) -> Seq<AgentKey> {
    let watchers = watchers_among(players, routing, visible, players.len());
    match addressee(routing) {
        Some(key) => watchers.push(key),
        None => watchers,
    }
}

fn watching<F: Fn(u8, u8) -> bool>(key: AgentKey, at: &Position, routing: &Routing, visible: &F) -> (r:
    bool)
    requires
        settles(*visible),
    ensures
        r == watches(key, *at, *routing, *visible),
{
    match *routing {
        Routing::Agent(_) => false,
        Routing::Viewport { at: center, same_floor } => sees(
            at,
            &Rect::player_viewport(&center),
            center.z,
            same_floor,
            visible,
        ),
        Routing::EitherViewport(a, b) => {
            let first: bool = sees(at, &Rect::player_viewport(&a), a.z, false, visible);
            let second: bool = sees(at, &Rect::player_viewport(&b), b.z, false, visible);
            first || second
        },
        Routing::ViewportAndAgent { at: center, .. } => sees(
            at,
            &Rect::player_viewport(&center),
            center.z,
            false,
            visible,
        ),
        Routing::Move { from, to, mover } => {
            let seen: bool = sees(
                at,
                &span(&Rect::player_viewport(&from), &Rect::player_viewport(&to)),
                to.z,
                false,
                visible,
            );
            key != mover && seen
        },
    }
}

/// Whom an event is sent to, of these players.
pub fn route_to_recipients<F: Fn(u8, u8) -> bool>(
    routing: &Routing,
    players: &Vec<(AgentKey, Position)>,
    visible: &F,
) -> (r: Vec<AgentKey>)
    requires
        settles(*visible),
    ensures
        r@ == recipients_of(players@, *routing, *visible),
{
    let mut r: Vec<AgentKey> = Vec::new();
    let mut i: usize = 0;
    while i < players.len()
        invariant
            i <= players@.len(),
            settles(*visible),
            r@ == watchers_among(players@, *routing, *visible, i as nat),
        decreases players.len() - i,
    {
        if watching(players[i].0, &players[i].1, routing, visible) {
            r.push(players[i].0);
        }
        i += 1;
    }
    match *routing {
        Routing::Agent(key) => r.push(key),
        Routing::ViewportAndAgent { agent, .. } => r.push(agent),
        Routing::Move { mover, .. } => r.push(mover),
        _ => {},
    }
    r
}

/// How it went to hand a message to a session.
#[derive(Debug, Clone, Copy, PartialEq, Eq, Structural)]
pub enum SendResult {
    Delivered,
    /// The session is gone.
    Closed,
    /// The session does not keep up.
    Full,
    /// There is no session to send to.
    Missing,
}

/// What became of a message.
#[derive(Debug, Clone, Copy, PartialEq, Eq, Structural)]
pub struct Delivery {
    pub delivered: bool,
    /// The session is to be closed.
    pub close: bool,
}

/// The sessions that are told of what happens.
#[derive(Debug)]
pub struct MessageRouterActor {
    sessions: Vec<AgentKey>,
}

impl View for MessageRouterActor {
    type V = Seq<AgentKey>;

    closed spec fn view(&self) -> Seq<AgentKey> {
        self.sessions@
    }
}

/// The sessions without one.
pub open spec fn unsubscribed(sessions: Seq<AgentKey>, key: AgentKey) -> Seq<AgentKey> {
    if sessions.contains(key) {
        sessions.remove(sessions.index_of(key))
    } else {
        sessions
    }
}

/// The sessions of those players of the first `n` who are on the map, with where they are.
pub open spec fn positions_among(m: MapView, sessions: Seq<AgentKey>, n: nat) -> Seq<
    (AgentKey, Position),
>
    decreases n,
{
    if n == 0 {
        Seq::empty()
    } else {
        let before = positions_among(m, sessions, (n - 1) as nat);
        if m.positions.contains_key(sessions[n - 1].0) {
            before.push((sessions[n - 1], m.positions[sessions[n - 1].0]))
        } else {
            before
        }
    }
}

/// What became of a message to the members of a channel.
#[derive(Debug)]
pub struct ChannelDelivery {
    /// Those who could not be reached.
    pub dead: Vec<AgentKey>,
    /// Those of them whose session is to be closed.
    pub close: Vec<AgentKey>,
}

/// The sessions after the first `n` of these were told something, who of them could not be
/// reached, and whose session is to be closed for not keeping up.
pub open spec fn delivered_to(
    sessions: Seq<AgentKey>,
    recipients: Seq<AgentKey>,
    results: Seq<SendResult>,
    n: nat,
) -> (Seq<AgentKey>, Seq<AgentKey>, Seq<AgentKey>)
    decreases n,
{
    if n == 0 {
        (sessions, Seq::empty(), Seq::empty())
    } else {
        let (left, dead, close) = delivered_to(sessions, recipients, results, (n - 1) as nat);
        let key = recipients[n - 1];
        if !left.contains(key) {
            (left, dead.push(key), close)
        } else {
            match results[n - 1] {
                SendResult::Delivered => (left, dead, close),
                SendResult::Full => (unsubscribed(left, key), dead.push(key), close.push(key)),
                _ => (unsubscribed(left, key), dead.push(key), close),
            }
        }
    }
}

impl MessageRouterActor {
    /// No session is there twice.
    pub open spec fn wf(&self) -> bool {
        self@.no_duplicates()
    }

    pub fn new() -> (r: Self)
        ensures
            r.wf(),
            r@ == Seq::<AgentKey>::empty(),
    {
        MessageRouterActor { sessions: Vec::new() }
    }

    fn index_of(&self, key: AgentKey) -> (r: Option<usize>)
        requires
            self.wf(),
        ensures
            match r {
                Some(i) => i < self@.len() && self@[i as int] == key && self@.index_of(key) == i,
                None => !self@.contains(key),
            },
    {
        let mut i: usize = 0;
        while i < self.sessions.len()
            invariant
                i <= self@.len(),
                self.wf(),
                self@ == self.sessions@,
                forall|j: int| 0 <= j < i ==> #[trigger] self@[j] != key,
            decreases self.sessions.len() - i,
        {
            if self.sessions[i] == key {
                assert(self@.contains(key));
                return Some(i);
            }
            i += 1;
        }
        None
    }

    /// Whether a session is told of what happens.
    pub fn is_subscribed(&self, agent_key: AgentKey) -> (r: bool)
        requires
            self.wf(),
        ensures
            r == self@.contains(agent_key),
    {
        self.index_of(agent_key).is_some()
    }

    /// Tells a session of what happens from now on. One that is told already stays as it is, and
    /// the second is not taken.
    pub fn subscribe(&mut self, agent_key: AgentKey) -> (taken: bool)
        requires
            old(self).wf(),
        ensures
            final(self).wf(),
            taken == !old(self)@.contains(agent_key),
            final(self)@ == (if taken {
                old(self)@.push(agent_key)
            } else {
                old(self)@
            }),
    {
        if self.index_of(agent_key).is_some() {
            return false;
        }
        let ghost before = self@;
        self.sessions.push(agent_key);
        assert forall|i: int, j: int| 0 <= i < self@.len() && 0 <= j < self@.len() && i != j implies self@[i]
            != self@[j] by {
            if i < before.len() && j < before.len() {
                assert(before[i] != before[j]);
            } else if i < before.len() {
                assert(before.contains(before[i]));
            } else {
                assert(before.contains(before[j]));
            }
        }
        true
    }

    /// Tells a session no more.
    pub fn unsubscribe(&mut self, agent_key: AgentKey)
        requires
            old(self).wf(),
        ensures
            final(self).wf(),
            final(self)@ == unsubscribed(old(self)@, agent_key),
            !final(self)@.contains(agent_key),
    {
        if let Some(i) = self.index_of(agent_key) {
            let ghost before = self@;
            self.sessions.remove(i);
            assert(before.contains(agent_key));
            assert forall|j: int, k: int| 0 <= j < self@.len() && 0 <= k < self@.len() && j != k implies self@[j]
                != self@[k] by {
                let a = if j < i { j } else { j + 1 };
                let b = if k < i { k } else { k + 1 };
                assert(before[a] != before[b]);
            }
            proof {
                if self@.contains(agent_key) {
                    let j = self@.index_of(agent_key);
                    let a = if j < i { j } else { j + 1 };
                    assert(before[a] == agent_key);
                    assert(before[a] != before[i as int]);
                }
            }
        }
    }

    /// Where the players are whose sessions are told.
    pub fn player_positions(&self, map: &GameMap) -> (r: Vec<(AgentKey, Position)>)
        requires
            self.wf(),
        ensures
            r@ == positions_among(map@, self@, self@.len()),
    {
        let mut r: Vec<(AgentKey, Position)> = Vec::new();
        let mut i: usize = 0;
        while i < self.sessions.len()
            invariant
                i <= self@.len(),
                self@ == self.sessions@,
                r@ == positions_among(map@, self@, i as nat),
            decreases self.sessions.len() - i,
        {
            if let Some(position) = map.agent_position(self.sessions[i]) {
                r.push((self.sessions[i], position));
            }
            i += 1;
        }
        r
    }

    /// Draws the conclusion from how it went to send something to a session. One that is gone is
    /// told no more, and so is one that does not keep up, which is closed besides.
    pub fn handle_send_result(&mut self, agent_key: AgentKey, result: SendResult) -> (d: Delivery)
        requires
            old(self).wf(),
        ensures
            final(self).wf(),
            d.delivered == (result is Delivered),
            d.close == (result is Full),
            final(self)@ == (match result {
                SendResult::Delivered | SendResult::Missing => old(self)@,
                SendResult::Closed | SendResult::Full => unsubscribed(old(self)@, agent_key),
            }),
    {
        match result {
            SendResult::Delivered => Delivery { delivered: true, close: false },
            SendResult::Missing => Delivery { delivered: false, close: false },
            SendResult::Closed => {
                self.unsubscribe(agent_key);
                Delivery { delivered: false, close: false }
            },
            SendResult::Full => {
                self.unsubscribe(agent_key);
                Delivery { delivered: false, close: true }
            },
        }
    }

    /// Draws the conclusions from sending a message to the members of a channel, one result for
    /// each: who of them could not be reached, and whose session is to be closed.
    pub fn deliver_channel_message(&mut self, recipients: &Vec<AgentKey>, results: &Vec<SendResult>) -> (r:
        ChannelDelivery)
        requires
            old(self).wf(),
            results@.len() == recipients@.len(),
            forall|i: int|
                0 <= i < results@.len() ==> ((#[trigger] results@[i]) is Missing
                    ==> !old(self)@.contains(recipients@[i])),
        ensures
            final(self).wf(),
            (final(self)@, r.dead@, r.close@) == delivered_to(
                old(self)@,
                recipients@,
                results@,
                recipients@.len(),
            ),
    {
        let mut dead: Vec<AgentKey> = Vec::new();
        let mut close: Vec<AgentKey> = Vec::new();
        let mut i: usize = 0;
        while i < recipients.len()
            invariant
                i <= recipients@.len(),
                results@.len() == recipients@.len(),
                self.wf(),
                forall|key: AgentKey| #[trigger] self@.contains(key) ==> old(self)@.contains(key),
                forall|i: int|
                    0 <= i < results@.len() ==> ((#[trigger] results@[i]) is Missing
                        ==> !old(self)@.contains(recipients@[i])),
                (self@, dead@, close@) == delivered_to(
                    old(self)@,
                    recipients@,
                    results@,
                    i as nat,
                ),
            decreases recipients.len() - i,
        {
            let recipient: AgentKey = recipients[i];
            let ghost before = self@;
            if !self.is_subscribed(recipient) {
                dead.push(recipient);
            } else {
                assert(!(results@[i as int] is Missing));
                let delivery: Delivery = self.handle_send_result(recipient, results[i]);
                if !delivery.delivered {
                    dead.push(recipient);
                }
                if delivery.close {
                    close.push(recipient);
                }
                assert forall|key: AgentKey| #[trigger] self@.contains(key) implies before.contains(
                    key,
                ) by {
                    let k = self@.index_of(key);
                    let j = before.index_of(recipient);
                    if self@ != before {
                        assert(self@[k] == before[if k < j { k } else { k + 1 }]);
                    }
                }
            }
            i += 1;
        }
        ChannelDelivery { dead, close }
    }

    /// Who is sent what has changed: everybody, and nobody where nothing has.
    pub fn delta_recipients(&self, delta: &WorldDelta) -> (r: Vec<AgentKey>)
        requires
            self.wf(),
            delta.wf(),
        ensures
            r@ == (if delta@ == unchanged() {
                Seq::empty()
            } else {
                self@
            }),
    {
        let mut r: Vec<AgentKey> = Vec::new();
        if delta.is_empty() {
            assert(r@ =~= Seq::empty());
            return r;
        }
        let mut i: usize = 0;
        while i < self.sessions.len()
            invariant
                i <= self@.len(),
                self@ == self.sessions@,
                r@ == self@.take(i as int),
            decreases self.sessions.len() - i,
        {
            r.push(self.sessions[i]);
            assert(self@.take(i + 1) =~= self@.take(i as int).push(self@[i as int]));
            i += 1;
        }
        assert(self@.take(self@.len() as int) =~= self@);
        r
    }
}

/// Something that a session is sent of a tick.
#[derive(Debug, Clone, Copy, PartialEq, Eq, Structural)]
pub enum TickSend {
    /// The event at `index` of the tick's.
    Event { index: usize, to: AgentKey },
    /// What has changed in the tick.
    Delta { to: AgentKey },
}

/// An event goes to each of these.
pub open spec fn event_to_each(index: int, keys: Seq<AgentKey>) -> Seq<TickSend> {
    Seq::new(keys.len(), |i: int| TickSend::Event { index: index as usize, to: keys[i] })
}

/// What has changed goes to each of these.
pub open spec fn delta_to_each(keys: Seq<AgentKey>) -> Seq<TickSend> {
    Seq::new(keys.len(), |i: int| TickSend::Delta { to: keys[i] })
}

/// The first `n` events go to whoever each is for, one event after the other.
pub open spec fn event_sends<F: Fn(u8, u8) -> bool>(
    players: Seq<(AgentKey, Position)>,
    events: Seq<BroadcastMessage>,
    visible: F,
    n: nat,
) -> Seq<TickSend>
    decreases n,
{
    if n == 0 {
        Seq::empty()
    } else {
        event_sends(players, events, visible, (n - 1) as nat) + event_to_each(
            n - 1,
            recipients_of(players, route_of(events[n - 1]@), visible),
        )
    }
}

/// What is sent of a tick: all its events, and then what has changed to everybody, where
/// something has.
pub open spec fn tick_sends<F: Fn(u8, u8) -> bool>(
    sessions: Seq<AgentKey>,
    m: MapView,
    events: Seq<BroadcastMessage>,
    delta: DeltaView,
    visible: F,
) -> Seq<TickSend> {
    event_sends(positions_among(m, sessions, sessions.len()), events, visible, events.len())
        + delta_to_each(
        if delta == unchanged() {
            Seq::empty()
        } else {
            sessions
        },
    )
}

impl MessageRouterActor {
    /// What is sent of a tick, in its order. A session that is told no more by the time it would
    /// be sent something is passed over.
    pub fn tick<F: Fn(u8, u8) -> bool>(
        &self,
        map: &GameMap,
        events: &Vec<BroadcastMessage>,
        delta: &WorldDelta,
        visible: &F,
    ) -> (plan: Vec<TickSend>)
        requires
            self.wf(),
            delta.wf(),
            settles(*visible),
        ensures
            plan@ == tick_sends(self@, map@, events@, delta@, *visible),
    {
        let players = self.player_positions(map);
        let mut plan: Vec<TickSend> = Vec::new();
        let mut n: usize = 0;
        while n < events.len()
            invariant
                n <= events@.len(),
                settles(*visible),
                plan@ == event_sends(players@, events@, *visible, n as nat),
            decreases events.len() - n,
        {
            let keys = route_to_recipients(&events[n].routing(), &players, visible);
            let ghost before = plan@;
            let ghost sends = event_to_each(n as int, keys@);
            let mut i: usize = 0;
            assert(plan@ =~= before + sends.take(0));
            while i < keys.len()
                invariant
                    i <= keys@.len(),
                    sends == event_to_each(n as int, keys@),
                    plan@ == before + sends.take(i as int),
                decreases keys.len() - i,
            {
                plan.push(TickSend::Event { index: n, to: keys[i] });
                assert(plan@ =~= before + sends.take(i + 1));
                i += 1;
            }
            assert(sends.take(keys@.len() as int) =~= sends);
            n += 1;
        }
        let keys = self.delta_recipients(delta);
        let ghost before = plan@;
        let ghost sends = delta_to_each(keys@);
        let mut i: usize = 0;
        assert(plan@ =~= before + sends.take(0));
        while i < keys.len()
            invariant
                i <= keys@.len(),
                sends == delta_to_each(keys@),
                plan@ == before + sends.take(i as int),
            decreases keys.len() - i,
        {
            plan.push(TickSend::Delta { to: keys[i] });
            assert(plan@ =~= before + sends.take(i + 1));
            i += 1;
        }
        assert(sends.take(keys@.len() as int) =~= sends);
        plan
    }
}

proof fn lemma_event_sends<F: Fn(u8, u8) -> bool>(
    players: Seq<(AgentKey, Position)>,
    events: Seq<BroadcastMessage>,
    visible: F,
    n: nat,
    i: int,
)
    requires
        0 <= i < event_sends(players, events, visible, n).len(),
        n <= usize::MAX,
    ensures
        event_sends(players, events, visible, n)[i] matches TickSend::Event { index, .. } && index
            < n,
    decreases n,
{
    let before = event_sends(players, events, visible, (n - 1) as nat);
    if i < before.len() {
        lemma_event_sends(players, events, visible, (n - 1) as nat, i);
    }
}

/// Nobody is sent what has changed in a tick before all of the tick's events have gone out.
pub proof fn law_events_go_out_before_the_delta<F: Fn(u8, u8) -> bool>(
    sessions: Seq<AgentKey>,
    m: MapView,
    events: Seq<BroadcastMessage>,
    delta: DeltaView,
    visible: F,
    i: int,
    j: int,
)
    requires
        events.len() <= usize::MAX,
        0 <= i < j < tick_sends(sessions, m, events, delta, visible).len(),
    ensures
        tick_sends(sessions, m, events, delta, visible)[i] is Delta ==> tick_sends(
            sessions,
            m,
            events,
            delta,
            visible,
        )[j] is Delta,
{
    let players = positions_among(m, sessions, sessions.len());
    let sends = event_sends(players, events, visible, events.len());
    if i < sends.len() {
        lemma_event_sends(players, events, visible, events.len(), i);
    }
}

proof fn lemma_watchers<F: Fn(u8, u8) -> bool>(
    players: Seq<(AgentKey, Position)>,
    routing: Routing,
    visible: F,
    n: nat,
)
    requires
        all_apart(players),
        n <= players.len(),
    ensures
        watchers_among(players, routing, visible, n).no_duplicates(),
        forall|key: AgentKey| #[trigger]
            watchers_among(players, routing, visible, n).contains(key) <==> exists|i: int|
                0 <= i < n && (#[trigger] players[i]).0 == key && watches(
                    key,
                    players[i].1,
                    routing,
                    visible,
                ),
    decreases n,
{
    if n > 0 {
        lemma_watchers(players, routing, visible, (n - 1) as nat);
        let before = watchers_among(players, routing, visible, (n - 1) as nat);
        let after = watchers_among(players, routing, visible, n);
        let key = players[n - 1].0;
        assert(!before.contains(key)) by {
            if before.contains(key) {
                let i = choose|i: int|
                    0 <= i < n - 1 && (#[trigger] players[i]).0 == key && watches(
                        key,
                        players[i].1,
                        routing,
                        visible,
                    );
                assert(players[i].0 == players[n - 1].0);
            }
        }
        assert forall|k: AgentKey| #[trigger] after.contains(k) <==> exists|i: int|
            0 <= i < n && (#[trigger] players[i]).0 == k && watches(
                k,
                players[i].1,
                routing,
                visible,
            ) by {
            if after.contains(k) {
                let j = after.index_of(k);
                if j < before.len() {
                    assert(before[j] == k);
                    assert(before.contains(k));
                } else {
                    assert(players[n - 1].0 == k);
                }
            }
            if exists|i: int|
                0 <= i < n && (#[trigger] players[i]).0 == k && watches(
                    k,
                    players[i].1,
                    routing,
                    visible,
                ) {
                let i = choose|i: int|
                    0 <= i < n && (#[trigger] players[i]).0 == k && watches(
                        k,
                        players[i].1,
                        routing,
                        visible,
                    );
                if i < n - 1 {
                    assert(before.contains(k));
                    let j = before.index_of(k);
                    assert(after[j] == k);
                } else {
                    assert(after[before.len() as int] == k);
                }
            }
        }
        assert forall|i: int, j: int| 0 <= i < after.len() && 0 <= j < after.len() && i != j implies after[i]
            != after[j] by {
            if i < before.len() && j < before.len() {
                assert(before[i] != before[j]);
            } else if i < before.len() {
                assert(before.contains(before[i]));
            } else {
                assert(before.contains(before[j]));
            }
        }
    }
}

/// No player is there twice.
pub open spec fn all_apart(players: Seq<(AgentKey, Position)>) -> bool {
    forall|i: int, j: int|
        0 <= i < players.len() && 0 <= j < players.len() && (#[trigger] players[i]).0 == (
        #[trigger] players[j]).0 ==> i == j
}

/// An event reaches each session at most once, whatever it is seen from: a walk both of whose ends
/// are seen, and the walker itself, too. A removal names an agent that is no longer on the map and
/// so no longer among the players.
pub proof fn law_an_event_arrives_at_most_once<F: Fn(u8, u8) -> bool>(
    players: Seq<(AgentKey, Position)>,
    routing: Routing,
    visible: F,
)
    requires
        all_apart(players),
        routing matches Routing::ViewportAndAgent { agent, .. } ==> (forall|i: int|
            0 <= i < players.len() ==> (#[trigger] players[i]).0 != agent),
    ensures
        recipients_of(players, routing, visible).no_duplicates(),
{
    lemma_watchers(players, routing, visible, players.len());
    let watchers = watchers_among(players, routing, visible, players.len());
    if let Some(key) = addressee(routing) {
        assert(!watchers.contains(key)) by {
            if watchers.contains(key) {
                let i = choose|i: int|
                    0 <= i < players.len() && (#[trigger] players[i]).0 == key && watches(
                        key,
                        players[i].1,
                        routing,
                        visible,
                    );
                assert(players[i].0 == key);
            }
        }
        let all = watchers.push(key);
        assert forall|i: int, j: int| 0 <= i < all.len() && 0 <= j < all.len() && i != j implies all[i]
            != all[j] by {
            if i < watchers.len() && j < watchers.len() {
                assert(watchers[i] != watchers[j]);
            } else if i < watchers.len() {
                assert(watchers.contains(watchers[i]));
            } else {
                assert(watchers.contains(watchers[j]));
            }
        }
    }
}

/// Everybody who sees an event is told of it, and nobody else but the agent that it names.
pub proof fn law_an_event_reaches_those_who_see_it<F: Fn(u8, u8) -> bool>(
    players: Seq<(AgentKey, Position)>,
    routing: Routing,
    visible: F,
    i: int,
)
    requires
        all_apart(players),
        0 <= i < players.len(),
    ensures
        recipients_of(players, routing, visible).contains(players[i].0) <==> watches(
            players[i].0,
            players[i].1,
            routing,
            visible,
        ) || addressee(routing) == Some(players[i].0),
{
    lemma_watchers(players, routing, visible, players.len());
    let watchers = watchers_among(players, routing, visible, players.len());
    let all = recipients_of(players, routing, visible);
    let key = players[i].0;
    assert(watchers.contains(key) <==> watches(key, players[i].1, routing, visible)) by {
        if watchers.contains(key) {
            let j = choose|j: int|
                0 <= j < players.len() && (#[trigger] players[j]).0 == key && watches(
                    key,
                    players[j].1,
                    routing,
                    visible,
                );
            assert(players[j].0 == players[i].0);
        }
    }
    if watchers.contains(key) {
        let j = watchers.index_of(key);
        assert(all[j] == key);
    }
    if all.contains(key) {
        let j = all.index_of(key);
        if j < watchers.len() {
            assert(watchers[j] == key);
            assert(watchers.contains(key));
        }
    }
    if addressee(routing) == Some(key) {
        assert(all[watchers.len() as int] == key);
    }
}

/// Somebody at `at` has `place` in view: it is no more than nine columns and seven rows away, on a
/// floor that is seen from theirs.
pub open spec fn in_view<F: Fn(u8, u8) -> bool>(at: Position, place: Position, visible: F) -> bool {
    &&& -9 <= at.x - place.x <= 9
    &&& -7 <= at.y - place.y <= 7
    &&& visible.ensures((place.z, at.z), true)
}

/// Somebody at `at` is within sight of `place` on its own floor.
pub open spec fn beside(at: Position, place: Position) -> bool {
    &&& -9 <= at.x - place.x <= 9
    &&& -7 <= at.y - place.y <= 7
    &&& at.z == place.z
}

/// A player is told of an event by where that happened: of what shows, whoever has the place in
/// view; of what is heard, whoever is beside it; of a teleport and a missile, whoever has either
/// end in view; of a departure, those who have it in view and whoever departs; of what is private,
/// that one alone. A walk is told to the walker, to all who have its end in view, and to all who
/// have its beginning in view where it stays on one floor; and to nobody who is farther than that
/// from both its ends.
pub proof fn law_an_event_is_told_where_it_happens<F: Fn(u8, u8) -> bool>(
    players: Seq<(AgentKey, Position)>,
    event: EventView,
    visible: F,
    i: int,
)
    requires
        all_apart(players),
        0 <= i < players.len(),
    ensures
        ({
            let told = recipients_of(players, route_of(event), visible).contains(players[i].0);
            let (key, at) = players[i];
            match event {
                EventView::PlayerSpawned { position, .. }
                | EventView::DamageTaken { position, .. }
                | EventView::AttackMissed { position }
                | EventView::AgentSpeedChanged { position, .. } => told <==> in_view(
                    at,
                    position,
                    visible,
                ),
                EventView::AreaEffectAppeared { area_effect } => told <==> in_view(
                    at,
                    area_effect.origin,
                    visible,
                ),
                EventView::PotionDrunk { position, .. }
                | EventView::SpellCast { position, .. }
                | EventView::SpellDenied { position, .. }
                | EventView::AgentSaid { position, .. }
                | EventView::AgentActionMessage { position, .. } => told <==> beside(at, position),
                EventView::AgentTeleported { from_position, to_position, .. } => told <==> in_view(
                    at,
                    from_position,
                    visible,
                ) || in_view(at, to_position, visible),
                EventView::MissileLaunched { missile } => told <==> in_view(
                    at,
                    missile.from,
                    visible,
                ) || in_view(at, missile.to, visible),
                EventView::AgentDespawned { agent_key, position, .. } => told <==> key == agent_key
                    || in_view(at, position, visible),
                EventView::AgentHealed { agent_key, position, restore_type, .. } => told <==> (
                match restore_type {
                    RestoreType::Life => in_view(at, position, visible),
                    RestoreType::Mana => key == agent_key,
                }),
                EventView::AgentMoved { agent_key, from_position, to_position, .. } => {
                    &&& key == agent_key ==> told
                    &&& in_view(at, to_position, visible) ==> told
                    &&& in_view(at, from_position, visible) && from_position.z == to_position.z
                        ==> told
                    &&& told && key != agent_key ==> visible.ensures((to_position.z, at.z), true)
                        && (-9 <= at.x - from_position.x || -9 <= at.x - to_position.x) && (at.x
                        - from_position.x <= 9 || at.x - to_position.x <= 9) && (-7 <= at.y
                        - from_position.y || -7 <= at.y - to_position.y) && (at.y
                        - from_position.y <= 7 || at.y - to_position.y <= 7)
                },
                EventView::MoveItemDenied { agent_key, .. }
                | EventView::OpenContainer { agent_key, .. }
                | EventView::UseItemDenied { agent_key, .. }
                | EventView::AgentWalkDenied { agent_key }
                | EventView::LogoutDenied { agent_key }
                | EventView::AgentLostTarget { agent_key, .. }
                | EventView::ExperienceGained { agent_key, .. }
                | EventView::SkillUpgraded { agent_key, .. }
                | EventView::PlayerManaUpdated { agent_key } => told <==> key == agent_key,
            }
        }),
{
    law_an_event_reaches_those_who_see_it(players, route_of(event), visible, i);
}

/// Whoever an event is private to is told of it wherever they are, and so are a walker and
/// whoever departs, though they are on no map any more.
pub proof fn law_an_event_reaches_whom_it_names<F: Fn(u8, u8) -> bool>(
    players: Seq<(AgentKey, Position)>,
    event: EventView,
    visible: F,
)
    ensures
        match event {
            EventView::MoveItemDenied { agent_key, .. }
            | EventView::OpenContainer { agent_key, .. }
            | EventView::UseItemDenied { agent_key, .. }
            | EventView::AgentWalkDenied { agent_key }
            | EventView::LogoutDenied { agent_key }
            | EventView::AgentLostTarget { agent_key, .. }
            | EventView::ExperienceGained { agent_key, .. }
            | EventView::SkillUpgraded { agent_key, .. }
            | EventView::PlayerManaUpdated { agent_key }
            | EventView::AgentMoved { agent_key, .. }
            | EventView::AgentDespawned { agent_key, .. } => recipients_of(
                players,
                route_of(event),
                visible,
            ).contains(agent_key),
            _ => true,
        },
{
    let all = recipients_of(players, route_of(event), visible);
    assert(addressee(route_of(event)) is Some ==> all.last() == addressee(
        route_of(event),
    ).unwrap());
}

/// Those players whose sessions are told are placed where they stand, each once, and those who are
/// on no map are left out.
pub proof fn law_players_are_placed_where_they_stand(m: MapView, sessions: Seq<AgentKey>, n: nat, key: AgentKey)
    requires
        sessions.no_duplicates(),
        n <= sessions.len(),
    ensures
        all_apart(positions_among(m, sessions, n)),
        forall|i: int|
            0 <= i < positions_among(m, sessions, n).len() ==> {
                let (k, at) = #[trigger] positions_among(m, sessions, n)[i];
                m.positions.contains_key(k.0) && m.positions[k.0] == at && sessions.take(
                    n as int,
                ).contains(k)
            },
        sessions.take(n as int).contains(key) && m.positions.contains_key(key.0)
            ==> positions_among(m, sessions, n).contains((key, m.positions[key.0])),
    decreases n,
{
    if n > 0 {
        law_players_are_placed_where_they_stand(m, sessions, (n - 1) as nat, key);
        let before = positions_among(m, sessions, (n - 1) as nat);
        let after = positions_among(m, sessions, n);
        let last = sessions[n - 1];
        assert(sessions.take(n as int) =~= sessions.take(n - 1).push(last));
        assert(sessions.take(n as int)[n - 1] == last);
        assert forall|i: int| 0 <= i < before.len() implies (#[trigger] before[i]).0 != last by {
            let j = sessions.take(n - 1).index_of(before[i].0);
            assert(sessions[j] == before[i].0);
        }
        assert forall|i: int| 0 <= i < after.len() implies ({
            let (k, at) = #[trigger] after[i];
            m.positions.contains_key(k.0) && m.positions[k.0] == at && sessions.take(
                n as int,
            ).contains(k)
        }) by {
            if i < before.len() {
                assert(after[i] == before[i]);
                let j = sessions.take(n - 1).index_of(before[i].0);
                assert(sessions.take(n as int)[j] == before[i].0);
            }
        }
        assert forall|i: int, j: int|
            0 <= i < after.len() && 0 <= j < after.len() && (#[trigger] after[i]).0 == (
            #[trigger] after[j]).0 implies i == j by {
            if i < before.len() {
                assert(after[i] == before[i]);
            }
            if j < before.len() {
                assert(after[j] == before[j]);
            }
        }
        if sessions.take(n as int).contains(key) && m.positions.contains_key(key.0) {
            if key == last {
                assert(after[before.len() as int] == (key, m.positions[key.0]));
            } else {
                let j = sessions.take(n as int).index_of(key);
                assert(sessions.take(n - 1)[j] == key);
                let q = before.index_of((key, m.positions[key.0]));
                assert(after[q] == (key, m.positions[key.0]));
            }
        }
    }
}

/// What a tick sends: each of its events just to those that the event is for, and what has changed
/// just to everybody who is told, where anything has.
pub proof fn law_a_tick_sends_each_its_own<F: Fn(u8, u8) -> bool>(
    sessions: Seq<AgentKey>,
    m: MapView,
    events: Seq<BroadcastMessage>,
    delta: DeltaView,
    visible: F,
    index: int,
    to: AgentKey,
)
    requires
        events.len() <= usize::MAX,
        0 <= index < events.len(),
    ensures
        tick_sends(sessions, m, events, delta, visible).contains(
            TickSend::Event { index: index as usize, to },
        ) <==> recipients_of(
            positions_among(m, sessions, sessions.len()),
            route_of(events[index]@),
            visible,
        ).contains(to),
        tick_sends(sessions, m, events, delta, visible).contains(TickSend::Delta { to }) <==> delta
            != unchanged() && sessions.contains(to),
{
    let players = positions_among(m, sessions, sessions.len());
    let sends = event_sends(players, events, visible, events.len());
    let keys = if delta == unchanged() {
        Seq::empty()
    } else {
        sessions
    };
    let deltas = delta_to_each(keys);
    let all = tick_sends(sessions, m, events, delta, visible);
    let sent = TickSend::Event { index: index as usize, to };
    lemma_event_sends_all(players, events, visible, events.len(), index, to);
    if all.contains(sent) {
        let i = all.index_of(sent);
        if i >= sends.len() {
            assert(all[i] == deltas[i - sends.len()]);
        } else {
            assert(sends[i] == sent);
        }
    }
    if sends.contains(sent) {
        assert(all[sends.index_of(sent)] == sent);
    }
    let told = TickSend::Delta { to };
    if all.contains(told) {
        let i = all.index_of(told);
        if i < sends.len() {
            lemma_event_sends(players, events, visible, events.len(), i);
            assert(sends[i] == told);
        } else {
            assert(deltas[i - sends.len()] == told);
            assert(keys[i - sends.len()] == to);
        }
    }
    if keys.contains(to) {
        let i = keys.index_of(to);
        assert(all[sends.len() + i] == told);
    }
}

proof fn lemma_event_sends_all<F: Fn(u8, u8) -> bool>(
    players: Seq<(AgentKey, Position)>,
    events: Seq<BroadcastMessage>,
    visible: F,
    n: nat,
    index: int,
    to: AgentKey,
)
    requires
        0 <= index < events.len(),
        n <= events.len() <= usize::MAX,
    ensures
        event_sends(players, events, visible, n).contains(
            TickSend::Event { index: index as usize, to },
        ) <==> index < n && recipients_of(players, route_of(events[index]@), visible).contains(to),
    decreases n,
{
    if n > 0 {
        lemma_event_sends_all(players, events, visible, (n - 1) as nat, index, to);
        let before = event_sends(players, events, visible, (n - 1) as nat);
        let keys = recipients_of(players, route_of(events[n - 1]@), visible);
        let each = event_to_each(n - 1, keys);
        let after = event_sends(players, events, visible, n);
        let sent = TickSend::Event { index: index as usize, to };
        if after.contains(sent) {
            let i = after.index_of(sent);
            if i < before.len() {
                assert(before[i] == sent);
            } else {
                assert(each[i - before.len()] == sent);
                assert(keys[i - before.len()] == to);
            }
        }
        if before.contains(sent) {
            assert(after[before.index_of(sent)] == sent);
        }
        if index == n - 1 && keys.contains(to) {
            let i = keys.index_of(to);
            assert(after[before.len() + i] == sent);
        }
    }
}

/// A message to the members of a channel ends just the sessions that could not take it; one that
/// does not keep up is closed besides. Members without a session are told of as gone.
pub proof fn law_only_who_cannot_be_reached_is_dropped(
    sessions: Seq<AgentKey>,
    recipients: Seq<AgentKey>,
    results: Seq<SendResult>,
    n: nat,
    i: int,
)
    requires
        sessions.no_duplicates(),
        recipients.no_duplicates(),
        recipients.len() == results.len(),
        n <= recipients.len(),
        0 <= i < recipients.len(),
    ensures
        ({
            let (left, dead, close) = delivered_to(sessions, recipients, results, n);
            let key = recipients[i];
            let fails = i < n && !(results[i] is Delivered);
            &&& left.no_duplicates()
            &&& left.contains(key) <==> sessions.contains(key) && !fails
            &&& dead.contains(key) <==> i < n && (!sessions.contains(key) || fails)
            &&& close.contains(key) <==> i < n && sessions.contains(key) && results[i] is Full
        }),
    decreases n,
{
    if n > 0 {
        law_only_who_cannot_be_reached_is_dropped(
            sessions,
            recipients,
            results,
            (n - 1) as nat,
            i,
        );
        law_only_who_cannot_be_reached_is_dropped(
            sessions,
            recipients,
            results,
            (n - 1) as nat,
            n - 1,
        );
        let (left, dead, close) = delivered_to(sessions, recipients, results, (n - 1) as nat);
        let last = recipients[n - 1];
        lemma_unsubscribed(left, last, recipients[i]);
        lemma_also_listed(dead, last, recipients[i]);
        lemma_also_listed(close, last, recipients[i]);
    }
}

proof fn lemma_unsubscribed(sessions: Seq<AgentKey>, key: AgentKey, other: AgentKey)
    requires
        sessions.no_duplicates(),
    ensures
        unsubscribed(sessions, key).no_duplicates(),
        unsubscribed(sessions, key).contains(other) <==> sessions.contains(other) && other != key,
{
    let after = unsubscribed(sessions, key);
    if sessions.contains(key) {
        let k = sessions.index_of(key);
        if sessions.contains(other) && other != key {
            let j = sessions.index_of(other);
            if j < k {
                assert(after[j] == other);
            } else {
                assert(after[j - 1] == other);
            }
        }
        if after.contains(other) {
            let j = after.index_of(other);
            if j < k {
                assert(sessions[j] == other);
            } else {
                assert(sessions[j + 1] == other);
            }
        }
    }
}

proof fn lemma_also_listed(keys: Seq<AgentKey>, key: AgentKey, other: AgentKey)
    ensures
        keys.push(key).contains(other) <==> keys.contains(other) || other == key,
{
    let after = keys.push(key);
    assert(after[keys.len() as int] == key);
    if keys.contains(other) {
        assert(after[keys.index_of(other)] == other);
    }
    if after.contains(other) {
        let i = after.index_of(other);
        if i < keys.len() {
            assert(keys[i] == other);
        }
    }
}

} // verus!
