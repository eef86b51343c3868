//! One bot: what it does with what it is sent, and what it sends itself.

use crate::clock::{Duration, Instant};
use crate::constants::INVENTORY_COORD_FLAG;
use crate::entities::chat::{ChannelId, SayTarget};
use crate::entities::inventory::InventorySlot;
use crate::entities::items::{ClientItemRef, ItemId};
use crate::entities::position::Position;
use crate::entities::spells::{SpellGroup, SpellId};
use crate::loadtest::brain::{
    spell_named, turn, Brain, BrainView, LootJob, HEALTH_POTION, MANA_POTION,
};
use crate::loadtest::metrics::{Counter, Event, Probe};
use crate::loadtest::probes::{
    bounded, cancelled, counted, flushed, opened, reported, resolved, Probes, ProbesView,
};
use crate::loadtest::world::{
    after, group_key, has_room, law_each_slot_wears_its_own, ItemCatalogue, StripMismatch,
    VisibleAgentView, World, WorldView,
};
use crate::messages::{
    ClientMessage, ClientMessageView, SayTargetView, ServerMessage, ServerMessageView,
    TextMessageType,
};
use crate::wire::codec::WireError;
use vstd::prelude::*;

verus! {

broadcast use vstd::std_specs::hash::group_hash_axioms;

/// How long a bot waits, after it asked to log out, for the server to let it go.
pub const LOGOUT_GRACE_MS: u64 = 2_000;

/// How long a bot waits before it asks to log out again.
pub const LOGOUT_RETRY_MS: u64 = 500;

/// How long a bot waits for what the server sends at login.
pub const LOGIN_BURST_TIMEOUT_MS: u64 = 30_000;

/// One in so many pings comes with a look or a word: the low traffic of a real session.
pub const IDLE_NOISE_IN: u32 = 5;

/// Why a bot ended before it could play.
#[derive(Debug, Clone, Copy, PartialEq, Eq, Structural)]
pub enum BotError {
    Wire(WireError),
    LoginRefused,
}

/// What the connection has for a bot.
#[derive(Debug)]
pub enum Frame {
    Message(ServerMessage),
    Failed(WireError),
    Closed,
}

/// What a bot does about a message: what it sends, and the spells it found that it cannot cast,
/// where it was to look for them.
#[derive(Debug)]
pub struct Reaction {
    pub command: Option<ClientMessage>,
    pub missing_spells: Option<Vec<String>>,
}

/// How the login goes on.
#[derive(Debug)]
pub enum LoginStep {
    Waiting(Reaction),
    LoggedIn(Reaction),
    Failed(BotError),
}

/// How the session goes on.
#[derive(Debug)]
pub enum SessionStep {
    Playing(Reaction),
    Ended,
}

pub struct Bot {
    pub brain: Brain,
    pub world: World,
    pub probes: Probes,
    pub awaiting_backpack: bool,
    pub login_reported: bool,
    pub last_strip_mismatches: u64,
    pub logged_strip_mismatch: bool,
    /// Whether the bot is still to look for spells that it cannot cast.
    pub spell_check: bool,
}

/// A bot as its parts.
pub struct BotView {
    pub brain: BrainView,
    pub world: WorldView,
    pub probes: ProbesView,
    pub awaiting_backpack: bool,
    pub login_reported: bool,
    pub last_strip_mismatches: int,
    pub logged_strip_mismatch: bool,
    pub spell_check: bool,
}

impl View for Bot {
    type V = BotView;

    open spec fn view(&self) -> BotView {
        BotView {
            brain: self.brain@,
            world: self.world@,
            probes: self.probes@,
            awaiting_backpack: self.awaiting_backpack,
            login_reported: self.login_reported,
            last_strip_mismatches: self.last_strip_mismatches as int,
            logged_strip_mismatch: self.logged_strip_mismatch,
            spell_check: self.spell_check,
        }
    }
}

/// The request that opens the backpack that is worn.
pub open spec fn backpack_request(w: WorldView) -> Option<ClientMessageView> {
    if w.equipment.contains_key(InventorySlot::Backpack.id()) {
        Some(
            ClientMessageView::UseItem {
                item: ClientItemRef {
                    position: Position {
                        x: INVENTORY_COORD_FLAG,
                        y: InventorySlot::Backpack.id() as u16,
                        z: 0,
                    },
                    item_id: w.equipment[InventorySlot::Backpack.id()],
                    stack_index: 0,
                },
            },
        )
    } else {
        None
    }
}

/// The world after the answer to a cast of a spell of `group`.
pub open spec fn after_cast(
    w: WorldView,
    message: ServerMessageView,
    group: SpellGroup,
    now: Instant,
) -> WorldView {
    match message {
        ServerMessageView::SpellCast { spell, spell_cooldown_ms, group_cooldown_ms } => WorldView {
            spell_cooldowns: w.spell_cooldowns.insert(
                spell.0,
                Instant { nanos: (now.nanos + spell_cooldown_ms * 1_000_000) as u128 },
            ),
            group_cooldowns: w.group_cooldowns.insert(
                group_key(group),
                Instant { nanos: (now.nanos + group_cooldown_ms * 1_000_000) as u128 },
            ),
            ..w
        },
        _ => w,
    }
}

/// The bot after `message`.
pub open spec fn after_message(b: BotView, message: ServerMessageView, now: Instant) -> BotView {
    let world = after(b.world, message);
    let probes = ProbesView { received_messages: b.probes.received_messages + 1, ..b.probes };
    let seen = BotView { world, probes, ..b };
    match message {
        ServerMessageView::DescribePlayer { .. } => if b.login_reported {
            seen
        } else if backpack_request(world) is Some {
            BotView {
                login_reported: true,
                awaiting_backpack: true,
                probes: opened(
                    counted(probes, Counter::LoginSucceeded, 1),
                    Probe::OpenContainer,
                    now,
                ),
                ..seen
            }
        } else {
            BotView {
                login_reported: true,
                probes: counted(probes, Counter::LoginSucceeded, 1),
                ..seen
            }
        },
        ServerMessageView::PlayerWalkAck { .. } => BotView {
            probes: resolved(probes, Probe::WalkAck, now),
            ..seen
        },
        ServerMessageView::PlayerWalkDenied => BotView {
            probes: counted(cancelled(probes, Probe::WalkAck), Counter::WalkDenied, 1),
            ..seen
        },
        ServerMessageView::Pong => BotView { probes: resolved(probes, Probe::Ping, now), ..seen },
        ServerMessageView::OpenContainer { container_id, .. } => {
            let answered = BotView { probes: resolved(probes, Probe::OpenContainer, now), ..seen };
            if b.awaiting_backpack {
                BotView {
                    awaiting_backpack: false,
                    world: WorldView { carried: Some(container_id), ..world },
                    ..answered
                }
            } else {
                BotView {
                    brain: match b.brain.loot {
                        Some(LootJob::Opening { .. }) => BrainView {
                            loot: Some(LootJob::Emptying { container: container_id, looted: 0 }),
                            ..b.brain
                        },
                        _ => b.brain,
                    },
                    ..answered
                }
            }
        },
        ServerMessageView::TextMessage { message_type: TextMessageType::ActionDenied, .. } =>
            BotView {
                awaiting_backpack: false,
                probes: counted(
                    if b.awaiting_backpack {
                        cancelled(probes, Probe::OpenContainer)
                    } else {
                        probes
                    },
                    Counter::ActionRefused,
                    1,
                ),
                ..seen
            },
        ServerMessageView::SpellCast { spell, .. } => {
            let group = if probes.casts.contains_key(spell.0) {
                probes.casts[spell.0]
            } else {
                SpellGroup::Attack
            };
            BotView {
                probes: ProbesView { casts: probes.casts.remove(spell.0), ..probes },
                world: after_cast(world, message, group, now),
                ..seen
            }
        },
        ServerMessageView::SpellList { .. } => BotView { spell_check: false, ..seen },
        _ => seen,
    }
}

/// What the bot sends about `message`.
pub open spec fn command_for(b: BotView, message: ServerMessageView) -> Option<ClientMessageView> {
    if message is DescribePlayer && !b.login_reported {
        backpack_request(after(b.world, message))
    } else {
        None
    }
}

/// `r` is what the bot does about `message`.
pub open spec fn reacts(r: Reaction, b: BotView, message: ServerMessageView) -> bool {
    &&& match r.command {
        Some(command) => command_for(b, message) == Some(command@),
        None => command_for(b, message) is None,
    }
    &&& r.missing_spells is Some <==> (message is SpellList && b.spell_check)
    &&& r.missing_spells matches Some(missing) ==> ({
        let w = after(b.world, message);
        let heal = spell_named(w, b.brain.heal_spell) is None;
        let attack = spell_named(w, b.brain.attack_spell) is None;
        &&& missing@.len() == (if heal { 1int } else { 0 }) + (if attack { 1int } else { 0 })
        &&& heal ==> missing@[0]@ == b.brain.heal_spell
        &&& attack ==> missing@.last()@ == b.brain.attack_spell
    })
}

/// The bot after all that it has tallied is ready to be sent.
pub open spec fn tallied(b: BotView, bytes_read: u64) -> BotView {
    let dry = counted(b.probes, Counter::PotionsDry, b.brain.dry_events.len() as u64);
    let brain = BrainView { dry_events: Seq::empty(), ..b.brain };
    if b.world.strip_mismatches > b.last_strip_mismatches {
        BotView {
            brain,
            probes: flushed(
                counted(
                    dry,
                    Counter::StripMismatch,
                    (b.world.strip_mismatches - b.last_strip_mismatches) as u64,
                ),
                bytes_read,
            ),
            last_strip_mismatches: b.world.strip_mismatches,
            logged_strip_mismatch: true,
            ..b
        }
    } else {
        BotView { brain, probes: flushed(dry, bytes_read), ..b }
    }
}

/// The bot after it ends for a reason that is counted.
pub open spec fn ended(b: BotView, counter: Counter, bytes_read: u64) -> BotView {
    tallied(BotView { probes: counted(b.probes, counter, 1), ..b }, bytes_read)
}

/// What happens while a bot waits to be logged out.
#[derive(Debug, Clone, Copy, PartialEq, Eq, Structural)]
pub enum LogoutEvent {
    /// The server said something.
    Heard,
    /// The connection is gone.
    Gone,
    /// The time is up that the bot was to wait.
    Due,
}

/// What a bot does next about its logout.
#[derive(Debug, Clone, Copy, PartialEq, Eq, Structural)]
pub struct LogoutStep {
    /// It asks to be logged out.
    pub ask: bool,
    /// When it asks again.
    pub retry: Instant,
    /// Until when it waits at most, where it does not give up waiting.
    pub wait: Option<Instant>,
}

/// Asks to be logged out as often as that is due, until the connection or the `grace` is over.
pub fn logout_step(now: Instant, grace: Instant, retry: Instant, event: LogoutEvent) -> (step:
    LogoutStep)
    requires
        now.nanos <= u128::MAX / 2,
    ensures
        step.ask == (event is Due),
        step.retry.nanos == (if event is Due {
            now.nanos + LOGOUT_RETRY_MS * 1_000_000
        } else {
            retry.nanos as int
        }),
        step.wait == (if event is Gone || now.nanos >= grace.nanos {
            None
        } else if step.retry.nanos <= grace.nanos {
            Some(step.retry)
        } else {
            Some(grace)
        }),
{
    let ask: bool = event == LogoutEvent::Due;
    let retry: Instant = if ask {
        now.plus(Duration::from_millis(LOGOUT_RETRY_MS))
    } else {
        retry
    };
    let wait: Option<Instant> = if event == LogoutEvent::Gone || now.nanos >= grace.nanos {
        None
    } else if retry.nanos <= grace.nanos {
        Some(retry)
    } else {
        Some(grace)
    };
    LogoutStep { ask, retry, wait }
}

/// `rand::random_range` over whole numbers: one of those from `low` to `high`. Which one is left
/// to chance.
#[verifier::external_body]
fn random_range(low: u64, high: u64) -> (v: u64)
    requires
        low <= high,
    ensures
        low <= v <= high,
{
    rand::random_range(low..=high)
}

/// `rand::random_ratio`: whether a chance of `numerator` in `denominator` came true. A chance that
/// is none never does, and one that is certain always does.
#[verifier::external_body]
fn random_ratio(numerator: u32, denominator: u32) -> (r: bool)
    requires
        0 < denominator,
        numerator <= denominator,
    ensures
        numerator == 0 ==> !r,
        numerator == denominator ==> r,
{
    rand::random_ratio(numerator, denominator)
}

/// A span between the two bounds, the first where they are the wrong way round.
pub fn jitter(bounds: (u64, u64)) -> (d: Duration)
    ensures
        bounds.0 >= bounds.1 ==> d.nanos == bounds.0 * 1_000_000,
        bounds.0 < bounds.1 ==> bounds.0 * 1_000_000 <= d.nanos <= bounds.1 * 1_000_000,
        d.nanos % 1_000_000 == 0,
{
    let (low, high) = bounds;
    let millis: u64 = if low >= high {
        low
    } else {
        random_range(low, high)
    };
    Duration::from_millis(millis)
}

impl Bot {
    /// The bot's parts are well-formed, and its counters have room for one more message.
    pub open spec fn wf(&self) -> bool {
        &&& self.brain.wf()
        &&& self@.probes.received_messages < u64::MAX
    }

    pub fn new(brain: Brain, catalogue: ItemCatalogue) -> (b: Self)
        requires
            brain.wf(),
        ensures
            b.wf(),
            b.brain == brain,
            b.world.items == catalogue,
            b@.world.strip_mismatches == 0,
            b@.world.agents == Map::<u16, VisibleAgentView>::empty(),
            b@.probes.outbox == Seq::<Event>::empty(),
            !b.awaiting_backpack,
            !b.login_reported,
            b.last_strip_mismatches == 0,
            !b.logged_strip_mismatch,
            !b.spell_check,
    {
        Bot {
            brain,
            world: World::new(catalogue),
            probes: Probes::new(),
            awaiting_backpack: false,
            login_reported: false,
            last_strip_mismatches: 0,
            logged_strip_mismatch: false,
            spell_check: false,
        }
    }

    /// Makes the bot look, the first time it is told its spells, for those that it cannot cast.
    pub fn check_spells_once(self) -> (b: Self)
        ensures
            b == (Bot { spell_check: true, ..self }),
    {
        let mut b = self;
        b.spell_check = true;
        b
    }

    /// Makes every tally ready to be sent, whatever ends the run: dry potions, strips that did
    /// not fit, and what came in. The first strip that did not fit is handed out once, for the
    /// log.
    pub fn flush_tallies(&mut self, bytes_read: u64) -> (to_log: Option<StripMismatch>)
        requires
            old(self).brain.wf(),
        ensures
            final(self)@ == tallied(old(self)@, bytes_read),
            final(self).brain.wf(),
            final(self).brain.settings() == old(self).brain.settings(),
            final(self).world == old(self).world,
            to_log == (if old(self)@.world.strip_mismatches > old(self)@.last_strip_mismatches
                && !old(self).logged_strip_mismatch {
                old(self)@.world.first_strip_mismatch
            } else {
                None
            }),
    {
        let dry: u64 = self.brain.take_dry_events().len() as u64;
        self.probes.count(Counter::PotionsDry, dry);
        let mismatches: u64 = self.world.strip_mismatches;
        let mut to_log: Option<StripMismatch> = None;
        if mismatches > self.last_strip_mismatches {
            let delta: u64 = mismatches - self.last_strip_mismatches;
            self.last_strip_mismatches = mismatches;
            self.probes.count(Counter::StripMismatch, delta);
            if !self.logged_strip_mismatch {
                self.logged_strip_mismatch = true;
                to_log = self.world.first_strip_mismatch;
            }
        }
        self.probes.flush_received(bytes_read);
        to_log
    }

    /// The request that opens the backpack that is worn.
    fn open_backpack(&mut self, now: Instant) -> (r: Option<ClientMessage>)
        ensures
            match r {
                Some(request) => backpack_request(old(self)@.world) == Some(request@),
                None => backpack_request(old(self)@.world) is None,
            },
            final(self)@ == (if r is Some {
                BotView {
                    awaiting_backpack: true,
                    probes: opened(old(self)@.probes, Probe::OpenContainer, now),
                    ..old(self)@
                }
            } else {
                old(self)@
            }),
            final(self).brain == old(self).brain,
            final(self).world == old(self).world,
    {
        let slot: u8 = InventorySlot::Backpack.as_id();
        let item_id: ItemId = match self.world.equipment.get(&slot) {
            Some(item_id) => *item_id,
            None => return None,
        };
        self.awaiting_backpack = true;
        self.probes.open(Probe::OpenContainer, now);
        Some(
            ClientMessage::UseItem {
                item: ClientItemRef {
                    position: Position::new(INVENTORY_COORD_FLAG, slot as u16, 0),
                    item_id,
                    stack_index: 0,
                },
            },
        )
    }

    /// Takes in a message: the world is brought up to date, answers are matched with their
    /// requests, and at the first description of itself the bot asks for its backpack.
    pub fn handle_incoming(&mut self, message: &ServerMessage, now: Instant) -> (r: Reaction)
        requires
            old(self).wf(),
            has_room(old(self)@.world, message@),
            now.nanos <= u128::MAX / 2,
        ensures
            final(self)@ == after_message(old(self)@, message@, now),
            reacts(r, old(self)@, message@),
            final(self).brain.wf(),
            final(self).brain.settings() == old(self).brain.settings(),
            final(self).world.items == old(self).world.items,
    {
        self.world.apply(message);
        self.probes.note_incoming();
        let mut command: Option<ClientMessage> = None;
        let mut missing_spells: Option<Vec<String>> = None;
        match message {
            ServerMessage::DescribePlayer { .. } => {
                if !self.login_reported {
                    self.login_reported = true;
                    self.probes.count(Counter::LoginSucceeded, 1);
                    command = self.open_backpack(now);
                }
            },
            ServerMessage::PlayerWalkAck { .. } => {
                let _round_trip = self.probes.resolve(Probe::WalkAck, now);
            },
            ServerMessage::PlayerWalkDenied => {
                self.probes.cancel(Probe::WalkAck);
                self.probes.count(Counter::WalkDenied, 1);
            },
            ServerMessage::Pong => {
                let _round_trip = self.probes.resolve(Probe::Ping, now);
            },
            ServerMessage::OpenContainer { container_id, .. } => {
                let _round_trip = self.probes.resolve(Probe::OpenContainer, now);
                if self.awaiting_backpack {
                    self.awaiting_backpack = false;
                    self.world.mark_carried(*container_id);
                } else {
                    self.brain.corpse_opened(*container_id);
                }
            },
            ServerMessage::TextMessage { message_type: TextMessageType::ActionDenied, .. } => {
                if self.awaiting_backpack {
                    self.awaiting_backpack = false;
                    self.probes.cancel(Probe::OpenContainer);
                }
                self.probes.count(Counter::ActionRefused, 1);
            },
            ServerMessage::SpellCast { spell, .. } => {
                let group = match self.probes.resolve_cast(*spell) {
                    Some(group) => group,
                    None => SpellGroup::Attack,
                };
                self.world.apply_at(message, group, now);
            },
            ServerMessage::SpellList { .. } => {
                if self.spell_check {
                    self.spell_check = false;
                    missing_spells = Some(self.brain.missing_spells(&self.world));
                }
            },
            _ => {},
        }
        Reaction { command, missing_spells }
    }

    /// Takes in what the connection has while the bot waits to be let in. A bot is in once it was
    /// told who it is; what comes before that is taken in like any other message.
    pub fn await_login(&mut self, frame: Frame, now: Instant, bytes_read: u64) -> (r: LoginStep)
        requires
            old(self).wf(),
            frame matches Frame::Message(message) ==> has_room(old(self)@.world, message@),
            now.nanos <= u128::MAX / 2,
        ensures
            final(self).brain.wf(),
            final(self).brain.settings() == old(self).brain.settings(),
            final(self).world.items == old(self).world.items,
            match frame {
                Frame::Message(message) => if message@ is LoginError {
                    &&& r == LoginStep::Failed(BotError::LoginRefused)
                    &&& final(self)@ == ended(old(self)@, Counter::LoginFailed, bytes_read)
                } else {
                    &&& final(self)@ == after_message(old(self)@, message@, now)
                    &&& match r {
                        LoginStep::LoggedIn(reaction) => final(self).login_reported && reacts(
                            reaction,
                            old(self)@,
                            message@,
                        ),
                        LoginStep::Waiting(reaction) => !final(self).login_reported && reacts(
                            reaction,
                            old(self)@,
                            message@,
                        ),
                        LoginStep::Failed(_) => false,
                    }
                },
                Frame::Failed(WireError::Io) => {
                    &&& r == LoginStep::Failed(BotError::Wire(WireError::Io))
                    &&& final(self)@ == ended(old(self)@, Counter::BurstDisconnected, bytes_read)
                },
                Frame::Failed(error) => {
                    &&& r == LoginStep::Failed(BotError::Wire(error))
                    &&& final(self)@ == ended(old(self)@, Counter::DecodeError, bytes_read)
                },
                Frame::Closed => {
                    &&& r == LoginStep::Failed(BotError::LoginRefused)
                    &&& final(self)@ == ended(old(self)@, Counter::BurstDisconnected, bytes_read)
                },
            },
    {
        match frame {
            Frame::Message(message) => {
                if let ServerMessage::LoginError = message {
                    self.give_up(Counter::LoginFailed, bytes_read);
                    return LoginStep::Failed(BotError::LoginRefused);
                }
                let reaction = self.handle_incoming(&message, now);
                if self.login_reported {
                    LoginStep::LoggedIn(reaction)
                } else {
                    LoginStep::Waiting(reaction)
                }
            },
            Frame::Failed(error) => {
                let counter = if error == WireError::Io {
                    Counter::BurstDisconnected
                } else {
                    Counter::DecodeError
                };
                self.give_up(counter, bytes_read);
                LoginStep::Failed(BotError::Wire(error))
            },
            Frame::Closed => {
                self.give_up(Counter::BurstDisconnected, bytes_read);
                LoginStep::Failed(BotError::LoginRefused)
            },
        }
    }

    /// Takes in what the connection has while the bot plays. A failed or closed socket is counted
    /// as that and never as a frame that could not be read.
    pub fn play(&mut self, frame: Frame, now: Instant, bytes_read: u64) -> (r: SessionStep)
        requires
            old(self).wf(),
            frame matches Frame::Message(message) ==> has_room(old(self)@.world, message@),
            now.nanos <= u128::MAX / 2,
        ensures
            final(self).brain.wf(),
            final(self).brain.settings() == old(self).brain.settings(),
            final(self).world.items == old(self).world.items,
            match frame {
                Frame::Message(message) => {
                    &&& final(self)@ == after_message(old(self)@, message@, now)
                    &&& r matches SessionStep::Playing(reaction) && reacts(
                        reaction,
                        old(self)@,
                        message@,
                    )
                },
                Frame::Failed(WireError::Io) | Frame::Closed => {
                    &&& r is Ended
                    &&& final(self)@ == ended(old(self)@, Counter::SessionDisconnected, bytes_read)
                },
                Frame::Failed(error) => {
                    &&& r is Ended
                    &&& final(self)@ == ended(old(self)@, Counter::DecodeError, bytes_read)
                },
            },
    {
        match frame {
            Frame::Message(message) => SessionStep::Playing(self.handle_incoming(&message, now)),
            Frame::Failed(error) => {
                let counter = if error == WireError::Io {
                    Counter::SessionDisconnected
                } else {
                    Counter::DecodeError
                };
                self.give_up(counter, bytes_read);
                SessionStep::Ended
            },
            Frame::Closed => {
                self.give_up(Counter::SessionDisconnected, bytes_read);
                SessionStep::Ended
            },
        }
    }

    /// Counts why the bot ends, and makes every tally ready to be sent.
    pub fn give_up(&mut self, counter: Counter, bytes_read: u64)
        requires
            old(self).brain.wf(),
        ensures
            final(self)@ == ended(old(self)@, counter, bytes_read),
            final(self).brain.wf(),
            final(self).brain.settings() == old(self).brain.settings(),
            final(self).world == old(self).world,
    {
        self.probes.count(counter, 1);
        let _to_log = self.flush_tallies(bytes_read);
    }
}

/// The bot has asked for `message`: what it waits on an answer for is opened.
pub open spec fn asked(
    p: ProbesView,
    message: Option<ClientMessageView>,
    w: WorldView,
    now: Instant,
) -> ProbesView {
    match message {
        Some(ClientMessageView::MovePlayer { .. }) => opened(p, Probe::WalkAck, now),
        Some(ClientMessageView::UseItem { .. }) => opened(p, Probe::OpenContainer, now),
        Some(ClientMessageView::CastSpell { spell_id, .. }) => ProbesView {
            casts: p.casts.insert(
                spell_id.0,
                if w.spells.contains_key(spell_id.0) {
                    w.spells[spell_id.0].group
                } else {
                    SpellGroup::Attack
                },
            ),
            ..p
        },
        _ => p,
    }
}

/// What a bot does when it is time to decide.
#[derive(Debug)]
pub struct Decision {
    pub command: Option<ClientMessage>,
    /// When to decide again.
    pub next: Instant,
    /// The first strip that did not fit, where it is still to be logged.
    pub to_log: Option<StripMismatch>,
}

/// `next` lies after `now` by a span between the bounds.
pub open spec fn paced(now: Instant, next: Instant, bounds: (u64, u64)) -> bool {
    if bounds.0 >= bounds.1 {
        next.nanos == now.nanos + bounds.0 * 1_000_000
    } else {
        now.nanos + bounds.0 * 1_000_000 <= next.nanos <= now.nanos + bounds.1 * 1_000_000
    }
}

/// What comes with a ping: nothing, a look at where the bot stands, or a word on the first
/// channel.
pub open spec fn noise(w: WorldView, noisy: bool, look: bool) -> Option<ClientMessageView> {
    if !noisy {
        None
    } else if look {
        Some(ClientMessageView::Look { position: w.position })
    } else {
        Some(
            ClientMessageView::Say {
                message: "."@,
                target: SayTargetView::Channel(ChannelId(0)),
            },
        )
    }
}

impl Bot {
    /// Decides what to do at `now`, `scheduled` being when that was to happen.
    #[verifier::rlimit(40)]
    pub fn decide<F: Fn(u16, u16, bool) -> u64>(
        &mut self,
        now: Instant,
        scheduled: Instant,
        walk_ticks: &F,
        tick_ms: u64,
        bytes_read: u64,
    ) -> (r: Decision)
        requires
            old(self).brain.wf(),
            old(self)@.brain.next_target_seq < u32::MAX,
            old(self).world.carried_total(ItemId(HEALTH_POTION)) <= u32::MAX,
            old(self).world.carried_total(ItemId(MANA_POTION)) <= u32::MAX,
            now.nanos <= u128::MAX / 2,
            turn(old(self)@.brain, old(self).world, now).step matches Some(step) ==> {
                &&& walk_ticks.requires((step.speed, step.friction, step.diagonal))
                &&& forall|ticks: u64|
                    walk_ticks.ensures((step.speed, step.friction, step.diagonal), ticks) ==> ticks
                        * tick_ms <= u64::MAX
            },
        ensures
            final(self).brain.wf(),
            final(self).brain.settings() == old(self).brain.settings(),
            final(self).world == old(self).world,
            paced(now, r.next, old(self).brain.settings().decision_interval_ms),
            ({
                let t = turn(old(self)@.brain, old(self).world, now);
                let lag = Duration {
                    nanos: if now.nanos >= scheduled.nanos {
                        (now.nanos - scheduled.nanos) as u128
                    } else {
                        0
                    },
                };
                let sampled = reported(
                    old(self)@.probes,
                    Event::Sampled(Probe::DecisionLag, lag),
                );
                &&& match r.command {
                    Some(command) => t.message == Some(command@),
                    None => t.message is None,
                }
                &&& final(self)@ == tallied(
                    BotView {
                        brain: BrainView {
                            next_step_at: final(self)@.brain.next_step_at,
                            ..t.brain
                        },
                        probes: asked(sampled, t.message, old(self)@.world, now),
                        ..old(self)@
                    },
                    bytes_read,
                )
                &&& match t.step {
                    None => final(self)@.brain.next_step_at == t.brain.next_step_at,
                    Some(step) => exists|ticks: u64| #[trigger]
                        walk_ticks.ensures((step.speed, step.friction, step.diagonal), ticks)
                            && final(self)@.brain.next_step_at == Some(
                            Instant { nanos: (now.nanos + ticks * tick_ms * 1_000_000) as u128 },
                        ),
                }
            }),
    {
        self.probes.sample(Probe::DecisionLag, now.duration_since(scheduled));
        let command = self.brain.decide(&self.world, now, walk_ticks, tick_ms);
        match &command {
            Some(ClientMessage::MovePlayer { .. }) => self.probes.open(Probe::WalkAck, now),
            Some(ClientMessage::UseItem { .. }) => self.probes.open(Probe::OpenContainer, now),
            Some(ClientMessage::CastSpell { spell_id, .. }) => {
                let group = match self.world.spells.get(&spell_id.0) {
                    Some(spell) => {
                        assert(self.world@.spells[spell_id.0] == spell@);
                        spell.group
                    },
                    None => SpellGroup::Attack,
                };
                self.probes.open_cast(*spell_id, group);
            },
            _ => {},
        }
        let to_log = self.flush_tallies(bytes_read);
        let wait = jitter(self.brain.behaviour().decision_interval_ms);
        assert(wait.nanos <= u64::MAX * 1_000_000);
        Decision { command, next: now.plus(wait), to_log }
    }

    /// What comes with a ping.
    pub fn idle_noise(&self, noisy: bool, look: bool) -> (r: Option<ClientMessage>)
        ensures
            match r {
                Some(message) => noise(self@.world, noisy, look) == Some(message@),
                None => noise(self@.world, noisy, look) is None,
            },
    {
        if !noisy {
            None
        } else if look {
            Some(ClientMessage::Look { position: self.world.position })
        } else {
            Some(
                ClientMessage::Say {
                    message: ".".to_owned(),
                    target: SayTarget::Channel(ChannelId(0)),
                },
            )
        }
    }

    /// Pings, now and then with some noise: `look` says which. The messages are to be sent in
    /// their order; the second result is when to ping again.
    pub fn tick_ping(&mut self, now: Instant, look: bool) -> (r: (Vec<ClientMessage>, Instant))
        requires
            now.nanos <= u128::MAX / 2,
        ensures
            final(self)@ == (BotView {
                probes: opened(old(self)@.probes, Probe::Ping, now),
                ..old(self)@
            }),
            final(self).brain == old(self).brain,
            final(self).world == old(self).world,
            1 <= r.0@.len() <= 2,
            r.0@[0]@ is Ping,
            r.0@.len() == 2 ==> noise(old(self)@.world, true, look) == Some(r.0@[1]@),
            paced(now, r.1, old(self).brain.settings().ping_interval_ms),
    {
        self.probes.open(Probe::Ping, now);
        let mut messages: Vec<ClientMessage> = Vec::new();
        messages.push(ClientMessage::Ping);
        let noisy: bool = random_ratio(1, IDLE_NOISE_IN);
        if let Some(message) = self.idle_noise(noisy, look) {
            messages.push(message);
        }
        let wait = jitter(self.brain.behaviour().ping_interval_ms);
        assert(wait.nanos <= u64::MAX * 1_000_000);
        (messages, now.plus(wait))
    }
}

/// A refused request for the backpack is forgotten: the next container that opens is taken for a
/// corpse, and what the bot carries stays as it was.
pub proof fn law_a_refused_backpack_is_not_confused_with_a_corpse(
    b: BotView,
    text: Seq<char>,
    opened: ServerMessageView,
    now: Instant,
    later: Instant,
)
    requires
        opened is OpenContainer,
    ensures
        ({
            let denied = after_message(
                b,
                ServerMessageView::TextMessage {
                    text,
                    message_type: TextMessageType::ActionDenied,
                },
                now,
            );
            &&& !denied.awaiting_backpack
            &&& after_message(denied, opened, later).world.carried == b.world.carried
        }),
{
}

/// The login is counted once, however often the server describes the bot to itself.
pub proof fn law_the_login_is_counted_once(b: BotView, message: ServerMessageView, now: Instant)
    requires
        b.login_reported,
    ensures
        after_message(b, message, now).login_reported,
        message is DescribePlayer ==> after_message(b, message, now).probes.outbox
            == b.probes.outbox,
        command_for(b, message) is None,
{
}

/// An answered walk is timed as a walk and an answered ping as a ping, never one as the other.
pub proof fn law_answers_resolve_only_their_own_probe(b: BotView, now: Instant, walked: ServerMessageView)
    requires
        walked is PlayerWalkAck,
    ensures
        after_message(b, ServerMessageView::Pong, now).probes.walk == b.probes.walk,
        after_message(b, walked, now).probes.ping == b.probes.ping,
{
}

/// Tallies are handed on once: right after they were, there is nothing left to hand on.
pub proof fn law_tallies_are_flushed_once(b: BotView, bytes_read: u64)
    requires
        0 <= b.probes.received_messages,
        b.brain.dry_events.len() <= u64::MAX,
    ensures
        tallied(tallied(b, bytes_read), bytes_read).probes == tallied(b, bytes_read).probes,
{
}

/// A bot that logs in is counted and asks for its backpack where it wears one: it uses the item in
/// the slot for it.
pub proof fn law_a_login_opens_the_backpack(b: BotView, message: ServerMessageView, now: Instant)
    requires
        message is DescribePlayer,
        !b.login_reported,
        b.probes.container.len() == 0,
    ensures
        ({
            let later = after_message(b, message, now);
            let wears = message->DescribePlayer_equipped.backpack;
            &&& later.login_reported
            &&& later.probes.outbox == b.probes.outbox.push(
                Event::Counted(Counter::LoginSucceeded, 1),
            )
            &&& wears matches Some(item) ==> {
                &&& later.awaiting_backpack
                &&& later.probes.container == seq![now]
                &&& command_for(b, message) matches Some(ClientMessageView::UseItem { item: used })
                    && used.item_id == item && used.position.x == 0xFFFE && used.position.y == 3
            }
            &&& wears is None ==> command_for(b, message) is None && later.awaiting_backpack
                == b.awaiting_backpack && later.probes.container == b.probes.container
        }),
{
    law_each_slot_wears_its_own(message->DescribePlayer_equipped, InventorySlot::Backpack);
    assert(seq![now] =~= b.probes.container.push(now));
}

/// A container that opens is the backpack where one was asked for, and is carried from then on;
/// else it is the corpse that the bot was opening, and is emptied from its start.
pub proof fn law_an_opened_container_is_what_was_asked_for(
    b: BotView,
    message: ServerMessageView,
    now: Instant,
)
    requires
        message is OpenContainer,
    ensures
        ({
            let later = after_message(b, message, now);
            let id = message->OpenContainer_container_id;
            &&& !later.awaiting_backpack
            &&& b.awaiting_backpack ==> later.world.carried == Some(id) && later.brain == b.brain
            &&& !b.awaiting_backpack ==> later.world.carried == b.world.carried
            &&& !b.awaiting_backpack && (b.brain.loot matches Some(LootJob::Opening { .. }))
                ==> later.brain.loot == Some(LootJob::Emptying { container: id, looted: 0 })
            &&& !b.awaiting_backpack && !(b.brain.loot matches Some(LootJob::Opening { .. }))
                ==> later.brain == b.brain
            &&& b.probes.container.len() > 0 ==> later.probes.outbox.len() == b.probes.outbox.len()
                + 1 && later.probes.container == b.probes.container.skip(1)
        }),
{
}

/// A cast that is answered makes its spell and its group wait as long as the answer says, from
/// when it came, in the group that it was cast in.
pub proof fn law_an_answered_cast_waits(
    b: BotView,
    spell: SpellId,
    spell_cooldown_ms: u32,
    group_cooldown_ms: u32,
    group: SpellGroup,
    now: Instant,
)
    requires
        b.probes.casts.contains_key(spell.0),
        b.probes.casts[spell.0] == group,
        now.nanos <= u128::MAX / 2,
    ensures
        ({
            let later = after_message(
                b,
                ServerMessageView::SpellCast { spell, spell_cooldown_ms, group_cooldown_ms },
                now,
            );
            let key: u8 = match group {
                SpellGroup::Attack => 0,
                SpellGroup::Healing => 1,
                SpellGroup::Support => 2,
            };
            &&& later.world.spell_cooldowns.contains_key(spell.0)
            &&& later.world.spell_cooldowns[spell.0].nanos == now.nanos + spell_cooldown_ms
                * 1_000_000
            &&& later.world.group_cooldowns.contains_key(key)
            &&& later.world.group_cooldowns[key].nanos == now.nanos + group_cooldown_ms * 1_000_000
            &&& !later.probes.casts.contains_key(spell.0)
            &&& later.world.position == b.world.position
        }),
{
}

/// A step that is refused is not timed but counted; one that is acknowledged is timed from when it
/// was asked for; a refused action is counted. Each message is counted as received once.
pub proof fn law_answers_to_steps_are_timed_or_counted(
    b: BotView,
    walked: ServerMessageView,
    text: Seq<char>,
    now: Instant,
)
    requires
        walked is PlayerWalkAck,
        b.probes.walk.len() > 0,
        b.probes.walk[0].nanos <= now.nanos,
    ensures
        ({
            let denied = after_message(b, ServerMessageView::PlayerWalkDenied, now);
            let done = after_message(b, walked, now);
            let refused = after_message(
                b,
                ServerMessageView::TextMessage {
                    text,
                    message_type: TextMessageType::ActionDenied,
                },
                now,
            );
            &&& denied.probes.outbox == b.probes.outbox.push(Event::Counted(Counter::WalkDenied, 1))
            &&& denied.probes.walk == b.probes.walk.skip(1)
            &&& done.probes.outbox.len() == b.probes.outbox.len() + 1
            &&& done.probes.outbox.last() matches Event::Sampled(probe, d) && probe
                == Probe::WalkAck && d.nanos == now.nanos - b.probes.walk[0].nanos
            &&& done.probes.walk == b.probes.walk.skip(1)
            &&& refused.probes.outbox.last() == Event::Counted(Counter::ActionRefused, 1)
            &&& refused.probes.walk == b.probes.walk
            &&& denied.probes.received_messages == b.probes.received_messages + 1
            &&& done.probes.received_messages == b.probes.received_messages + 1
            &&& refused.probes.received_messages == b.probes.received_messages + 1
        }),
{
}

/// What a bot asks for is timed as what it is: a step as a step, a thing used as a container that
/// is to open. A cast is kept under its spell with the group that the spell is known in.
pub proof fn law_requests_are_kept_as_what_they_are(
    p: ProbesView,
    w: WorldView,
    message: ClientMessageView,
    now: Instant,
)
    requires
        bounded(p),
    ensures
        ({
            let later = asked(p, Some(message), w, now);
            &&& message is MovePlayer ==> later.walk.len() > 0 && later.walk.last() == now
            &&& message is UseItem ==> later.container.len() > 0 && later.container.last() == now
            &&& !(message is MovePlayer) ==> later.walk == p.walk
            &&& !(message is UseItem) ==> later.container == p.container
            &&& later.ping == p.ping
            &&& message matches ClientMessageView::CastSpell { spell_id, .. } ==> {
                &&& later.casts.contains_key(spell_id.0)
                &&& w.spells.contains_key(spell_id.0) ==> later.casts[spell_id.0]
                    == w.spells[spell_id.0].group
            }
            &&& !(message is CastSpell) ==> later.casts == p.casts
        }),
{
}

/// Handing on the tallies tells how often a potion ran dry and how many strips did not fit since
/// the last time.
pub proof fn law_tallies_tell_what_is_new(b: BotView, bytes_read: u64)
    requires
        b.brain.dry_events.len() == 0,
        b.last_strip_mismatches < b.world.strip_mismatches <= u64::MAX,
        0 <= b.last_strip_mismatches,
        b.probes.received_messages == 0,
        b.probes.last_bytes == bytes_read,
    ensures
        ({
            let later = tallied(b, bytes_read);
            &&& later.probes.outbox.len() == b.probes.outbox.len() + 1
            &&& later.probes.outbox.last() matches Event::Counted(counter, n) && counter
                == Counter::StripMismatch && n + b.last_strip_mismatches == b.world.strip_mismatches
            &&& later.last_strip_mismatches == b.world.strip_mismatches
        }),
{
}

/// A bot that makes noise looks at where it stands or says a word in the first channel; one that
/// makes none says nothing.
pub proof fn law_noise_is_a_look_or_a_word(w: WorldView, look: bool)
    ensures
        noise(w, false, look) is None,
        noise(w, true, true) matches Some(ClientMessageView::Look { position }) && position
            == w.position,
        noise(w, true, false) matches Some(ClientMessageView::Say { target, .. }) && target
            == SayTargetView::Channel(ChannelId(0)),
{
}

} // verus!
