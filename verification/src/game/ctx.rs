//! What a rule works on during one tick.

use crate::actors::world::{scheduled_views, ScheduledCommand, ScheduledView, WorldCommand};
use crate::entities::world_map::{WorldMap, WorldMapView};
use crate::game::events::{event_views, BroadcastMessage, EventView};
use crate::game::tick::Tick;
use vstd::prelude::*;

verus! {

/// The world, and what the rules have reported and booked in this tick so far.
pub struct TickCtx {
    pub map: WorldMap,
    pub events: Vec<BroadcastMessage>,
    pub scheduled: Vec<ScheduledCommand>,
    pub tick: Tick,
}

#[verifier::ext_equal]
pub struct TickView {
    pub world: WorldMapView,
    pub events: Seq<EventView>,
    pub scheduled: Seq<ScheduledView>,
    pub tick: Tick,
}

impl View for TickCtx {
    type V = TickView;

    open spec fn view(&self) -> TickView {
        TickView {
            world: self.map@,
            events: event_views(self.events@),
            scheduled: scheduled_views(self.scheduled@),
            tick: self.tick,
        }
    }
}

/// With an event reported.
pub open spec fn told(w: TickView, event: EventView) -> TickView {
    TickView { events: w.events.push(event), ..w }
}

/// With a command booked.
pub open spec fn booked(w: TickView, command: ScheduledView) -> TickView {
    TickView { scheduled: w.scheduled.push(command), ..w }
}

/// How much was reported and booked at some point of the tick.
#[derive(Debug, Clone, Copy, PartialEq, Eq, Structural)]
pub struct Mark {
    pub events: usize,
    pub scheduled: usize,
}

/// The mark is of this tick's past.
pub open spec fn marks(w: TickView, mark: Mark) -> bool {
    mark.events <= w.events.len() && mark.scheduled <= w.scheduled.len()
}

/// With only what was reported and booked before the mark.
pub open spec fn rolled_back(w: TickView, mark: Mark) -> TickView {
    TickView {
        events: w.events.take(mark.events as int),
        scheduled: w.scheduled.take(mark.scheduled as int),
        ..w
    }
}

/// This can be done at any time with anything, and takes no time. What was reported and booked
/// before it stays so.
pub open spec fn carries_on<T, X: Fn(TickCtx, T) -> TickCtx>(step: X) -> bool {
    &&& forall|c: TickCtx, with: T| c.wf() ==> #[trigger] step.requires((c, with))
    &&& forall|c: TickCtx, with: T, r: TickCtx|
        c.wf() && #[trigger] step.ensures((c, with), r) ==> {
            &&& r.wf()
            &&& r.tick == c.tick
            &&& r.events@.len() >= c.events@.len()
            &&& r.scheduled@.len() >= c.scheduled@.len()
        }
}

impl TickCtx {
    pub open spec fn wf(&self) -> bool {
        self.map.wf()
    }

    /// A tick in which nothing has happened yet.
    pub fn new(map: WorldMap, tick: Tick) -> (ctx: Self)
        requires
            map.wf(),
        ensures
            ctx.wf(),
            ctx@ == (TickView {
                world: map@,
                events: Seq::empty(),
                scheduled: Seq::empty(),
                tick,
            }),
    {
        let ctx = TickCtx { map, events: Vec::new(), scheduled: Vec::new(), tick };
        assert(ctx@.events =~= Seq::empty());
        assert(ctx@.scheduled =~= Seq::empty());
        ctx
    }

    /// Reports an event.
    pub fn tell(&mut self, event: BroadcastMessage)
        ensures
            final(self).map == old(self).map,
            final(self)@ == told(old(self)@, event@),
    {
        self.events.push(event);
        assert(self@.events =~= old(self)@.events.push(event@));
    }

    /// Books a command for a later tick.
    pub fn book(&mut self, at_tick: Tick, command: WorldCommand)
        ensures
            final(self).map == old(self).map,
            final(self)@ == booked(old(self)@, (ScheduledView { at_tick, command: command@ })),
    {
        self.scheduled.push(ScheduledCommand { at_tick, command });
        assert(self@.scheduled =~= old(self)@.scheduled.push(
            ScheduledView { at_tick, command: command@ },
        ));
    }

    /// Remembers how much was reported and booked so far.
    pub fn mark(&self) -> (mark: Mark)
        ensures
            mark.events == self@.events.len(),
            mark.scheduled == self@.scheduled.len(),
            marks(self@, mark),
            rolled_back(self@, mark) == self@,
    {
        let mark = Mark { events: self.events.len(), scheduled: self.scheduled.len() };
        assert(rolled_back(self@, mark) =~= self@);
        mark
    }

    /// Takes back what was reported and booked since a mark.
    pub fn rollback_to(&mut self, mark: Mark)
        requires
            marks(old(self)@, mark),
        ensures
            final(self).map == old(self).map,
            final(self)@ == rolled_back(old(self)@, mark),
    {
        self.events.truncate(mark.events);
        self.scheduled.truncate(mark.scheduled);
        assert(self@.events =~= rolled_back(old(self)@, mark).events);
        assert(self@.scheduled =~= rolled_back(old(self)@, mark).scheduled);
    }
}

/// A rollback takes back what came after the mark, and nothing that came before it.
pub proof fn law_a_rollback_takes_back_only_what_came_after(
    w: TickView,
    mark: Mark,
    event: EventView,
    command: ScheduledView,
)
    requires
        marks(w, mark),
    ensures
        rolled_back(told(w, event), mark) == rolled_back(w, mark),
        rolled_back(booked(w, command), mark) == rolled_back(w, mark),
        rolled_back(rolled_back(w, mark), mark) == rolled_back(w, mark),
{
    assert(rolled_back(told(w, event), mark) =~= rolled_back(w, mark));
    assert(rolled_back(booked(w, command), mark) =~= rolled_back(w, mark));
    assert(rolled_back(rolled_back(w, mark), mark) =~= rolled_back(w, mark));
}

} // verus!
