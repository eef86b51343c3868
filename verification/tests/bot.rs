//! A bot from its login to its end.

use rustibia::clock::{Duration, Instant};
use rustibia::constants::{INVENTORY_COORD_FLAG, VIEWPORT_SIZE};
use rustibia::entities::agent::{AgentId, Facing, OutfitColors, OutfitId, Pool};
use rustibia::entities::inventory::InventorySlot;
use rustibia::entities::items::{
    ClientItemRef, ContainerId, ItemAttribute, ItemConfig, ItemFlag, ItemId,
};
use rustibia::entities::position::Position;
use rustibia::entities::spells::{SpellGroup, SpellId};
use rustibia::loadtest::bot::{
    Bot, BotError, Frame, LOGOUT_GRACE_MS, LoginStep, LogoutEvent, LogoutStep, Reaction,
    SessionStep, jitter, logout_step,
};
use rustibia::loadtest::brain::Brain;
use rustibia::loadtest::config::{Behaviour, Coords, Route};
use rustibia::loadtest::metrics::{Counter, Event, Probe};
use rustibia::loadtest::world::{ItemCatalogue, StripMismatch};
use rustibia::messages::{ClientMessage, ItemStack, ServerMessage, SpellListEntry, TextMessageType};
use rustibia::wire::codec::WireError;
use std::collections::HashMap;
use std::sync::Arc;

fn describe_player() -> ServerMessage {
    ServerMessage::DescribePlayer {
        agent_id: AgentId(1),
        position: Position::new(100, 100, 7),
        facing: Facing::South,
        name: "Loadbot Aab".to_string(),
        level: 20,
        life: Pool { current: 500, maximum: 500 },
        mana: Pool { current: 400, maximum: 400 },
        outfit: (OutfitId(128), OutfitColors::new(78, 69, 58, 76)),
        speed: 100,
        capacity: 60000,
        inventory_head: None,
        inventory_amulet: None,
        inventory_backpack: Some(ItemId(2854)),
        inventory_chest: None,
        inventory_right_hand: Some(ItemId(3264)),
        inventory_left_hand: None,
        inventory_legs: None,
        inventory_feet: None,
        inventory_ring: None,
        inventory_trinket: None,
    }
}

fn a_kind(id: u16, name: &str, flag: ItemFlag, attributes: Vec<ItemAttribute>) -> (u16, Arc<ItemConfig>) {
    (id, Arc::new(ItemConfig::new(ItemId(id), name.to_string(), vec![flag], attributes)))
}

const CORPSE_ID: u16 = 4;
const STACKABLE_ID: u16 = 5;

fn catalogue() -> ItemCatalogue {
    Arc::new(HashMap::from([
        a_kind(1, "ground", ItemFlag::Ground, vec![ItemAttribute::TileFriction(150)]),
        a_kind(2, "ground", ItemFlag::Ground, vec![ItemAttribute::TileFriction(260)]),
        a_kind(3, "wall", ItemFlag::Unpass, Vec::new()),
        a_kind(CORPSE_ID, "container", ItemFlag::Container, vec![ItemAttribute::Capacity(20)]),
        a_kind(STACKABLE_ID, "stackable", ItemFlag::Cumulative, Vec::new()),
    ]))
}

fn stack(ids: &[ItemId]) -> ItemStack {
    let mut stack: ItemStack = Default::default();
    for (slot, id) in ids.iter().enumerate() {
        stack[slot] = Some((*id, 1));
    }
    stack
}


const TICK_MS: u64 = 50;

fn pace(speed: u16, friction: u16, _diagonal: bool) -> u64 {
    friction as u64 * 10 / speed.max(1) as u64
}

fn at(millis: u64) -> Instant {
    Instant { nanos: 5_000_000_000 }.plus(Duration::from_millis(millis))
}

fn a_brain() -> Brain {
    Brain::new(
        Route {
            name: "test".to_string(),
            waypoints: vec![Coords { x: 102, y: 100, z: 7 }],
        },
        Behaviour::test_default(),
        "Loadbot ".to_string(),
    )
}

fn a_bot() -> Bot {
    Bot::new(a_brain(), catalogue())
}

/// What the server sends at login, in its order.
fn login_burst_with(spawns: Vec<ServerMessage>, spells: Vec<SpellListEntry>) -> Vec<ServerMessage> {
    let center = Position::new(100, 100, 7);
    let tiles: Vec<ItemStack> = vec![Default::default(); VIEWPORT_SIZE];
    let mut burst = vec![ServerMessage::DescribeMap { tiles, center, floor: 7 }];
    burst.extend(spawns);
    burst.push(describe_player());
    burst.push(ServerMessage::PlayerSkills { experience: 0, skills: vec![] });
    burst.push(ServerMessage::SpellList { spells });
    burst.push(ServerMessage::PlayerStatus { status: 0 });
    burst
}

/// Logs a bot in, and hands back the first command that it sends.
fn log_in(bot: &mut Bot, burst: Vec<ServerMessage>) -> Option<ClientMessage> {
    let mut first = None;
    let mut waiting = true;
    for message in burst {
        let reaction = if waiting {
            match bot.await_login(Frame::Message(message), at(0), 0) {
                LoginStep::Waiting(reaction) => reaction,
                LoginStep::LoggedIn(reaction) => {
                    waiting = false;
                    reaction
                }
                LoginStep::Failed(error) => panic!("{error:?}"),
            }
        } else {
            receive(bot, message, at(0))
        };
        first = first.or(reaction.command);
    }
    first
}

fn receive(bot: &mut Bot, message: ServerMessage, now: Instant) -> Reaction {
    match bot.play(Frame::Message(message), now, 0) {
        SessionStep::Playing(reaction) => reaction,
        SessionStep::Ended => panic!("the session ended"),
    }
}

fn decide(bot: &mut Bot, now: Instant) -> Option<ClientMessage> {
    bot.decide(now, now, &pace, TICK_MS, 0).command
}

/// A floor that can be walked on everywhere.
fn a_walkable_map() -> ServerMessage {
    let tiles: Vec<ItemStack> = vec![stack(&[ItemId(1)]); VIEWPORT_SIZE];
    ServerMessage::DescribeMap { tiles, center: Position::new(100, 100, 7), floor: 7 }
}

#[test]
fn a_bot_logs_in_and_reports_the_login() {
    let mut bot = a_bot();
    log_in(&mut bot, login_burst_with(vec![], vec![]));
    let events = bot.probes.take_events();
    assert!(events.contains(&Event::Counted(Counter::LoginSucceeded, 1)));

    receive(&mut bot, describe_player(), at(5));
    assert!(bot.probes.take_events().is_empty(), "a login is reported once");
}

#[test]
fn a_login_error_retires_the_bot_without_retrying() {
    let mut bot = a_bot();
    let outcome = bot.await_login(Frame::Message(ServerMessage::LoginError), at(0), 0);
    assert!(matches!(outcome, LoginStep::Failed(BotError::LoginRefused)));
    assert!(bot.probes.take_events().contains(&Event::Counted(Counter::LoginFailed, 1)));
}

#[test]
fn a_bot_pings_on_its_own_cadence_and_records_the_round_trip() {
    let mut bot = a_bot();
    log_in(&mut bot, login_burst_with(vec![], vec![]));

    let (messages, next) = bot.tick_ping(at(0), true);
    receive(&mut bot, ServerMessage::Pong, at(30));

    assert_eq!(messages[0], ClientMessage::Ping);
    assert!(at(4000) <= next && next <= at(6000));
    assert!(bot
        .probes
        .take_events()
        .contains(&Event::Sampled(Probe::Ping, Duration::from_millis(30))));
}

#[test]
fn the_first_command_after_login_opens_the_equipped_backpack() {
    let mut bot = a_bot();

    let first = log_in(&mut bot, login_burst_with(vec![], vec![]));

    assert_eq!(
        first,
        Some(ClientMessage::UseItem {
            item: ClientItemRef {
                position: Position::new(
                    INVENTORY_COORD_FLAG,
                    InventorySlot::Backpack.as_id() as u16,
                    0
                ),
                item_id: ItemId(2854),
                stack_index: 0,
            },
        })
    );
}

fn a_container(id: u16) -> ServerMessage {
    ServerMessage::OpenContainer {
        container_id: ContainerId(id),
        capacity: 20,
        has_parent: false,
        title: "a corpse".to_string(),
        items: vec![Some((ItemId(3031), 1))],
    }
}

#[test]
fn a_refused_backpack_open_does_not_mark_the_next_container_carried() {
    let mut bot = a_bot();
    log_in(&mut bot, login_burst_with(vec![], vec![]));
    assert!(bot.awaiting_backpack, "the backpack open must be pending");

    receive(
        &mut bot,
        ServerMessage::TextMessage {
            text: "Sorry, not possible.".to_string(),
            message_type: TextMessageType::ActionDenied,
        },
        at(1),
    );
    assert!(!bot.awaiting_backpack, "a denial must clear the pending backpack flag");
    receive(&mut bot, a_container(9), at(2));

    assert_eq!(
        bot.world.backpack(),
        None,
        "the corpse must not be mistaken for the never-opened backpack"
    );
}

#[test]
fn an_opened_backpack_is_what_the_bot_carries() {
    let mut bot = a_bot();
    log_in(&mut bot, login_burst_with(vec![], vec![]));
    receive(&mut bot, a_container(16), at(7));

    assert_eq!(bot.world.backpack(), Some(ContainerId(16)));
    assert!(bot
        .probes
        .take_events()
        .contains(&Event::Sampled(Probe::OpenContainer, Duration::from_millis(7))));
}

#[test]
fn a_dropped_connection_counts_as_disconnected_not_a_decode_error() {
    for frame in [Frame::Closed, Frame::Failed(WireError::Io)] {
        let mut bot = a_bot();
        log_in(&mut bot, login_burst_with(vec![], vec![]));

        assert!(matches!(bot.play(frame, at(1), 0), SessionStep::Ended));

        let events = bot.probes.take_events();
        assert!(events.contains(&Event::Counted(Counter::SessionDisconnected, 1)));
        assert!(!events.iter().any(|e| matches!(e, Event::Counted(Counter::DecodeError, _))));
    }
}

#[test]
fn a_connection_lost_before_the_login_is_told_apart() {
    let mut bot = a_bot();
    assert!(matches!(bot.await_login(Frame::Closed, at(0), 0), LoginStep::Failed(_)));
    assert!(bot
        .probes
        .take_events()
        .contains(&Event::Counted(Counter::BurstDisconnected, 1)));
}

#[test]
fn an_unknown_opcode_counts_as_a_decode_error_and_ends_the_bot() {
    let mut bot = a_bot();
    log_in(&mut bot, login_burst_with(vec![], vec![]));

    let step = bot.play(Frame::Failed(WireError::UnknownOpcode(0xFF)), at(1), 0);

    assert!(matches!(step, SessionStep::Ended));
    assert!(bot.probes.take_events().contains(&Event::Counted(Counter::DecodeError, 1)));
}

#[test]
fn every_decision_tick_samples_its_own_lag() {
    let mut bot = a_bot();
    log_in(&mut bot, login_burst_with(vec![], vec![]));

    let decision = bot.decide(at(12), at(10), &pace, TICK_MS, 0);

    assert!(bot
        .probes
        .take_events()
        .contains(&Event::Sampled(Probe::DecisionLag, Duration::from_millis(2))));
    assert!(at(12 + 180) <= decision.next && decision.next <= at(12 + 320));
}

#[test]
fn a_dry_health_potion_is_counted() {
    let mut bot = a_bot();
    log_in(&mut bot, login_burst_with(vec![], vec![]));
    let hurt = ServerMessage::AgentLifeChanged { agent_id: AgentId(1), current: 50, max: 500 };
    receive(&mut bot, hurt, at(1));

    decide(&mut bot, at(2));

    assert!(bot
        .probes
        .take_events()
        .iter()
        .any(|e| matches!(e, Event::Counted(Counter::PotionsDry, n) if *n >= 1)));
}

#[test]
fn a_strip_mismatch_is_counted_from_the_worlds_delta() {
    let mut bot = a_bot();
    log_in(&mut bot, login_burst_with(vec![], vec![]));
    let strip = vec![Default::default(); 3];
    receive(
        &mut bot,
        ServerMessage::PlayerWalkAck {
            position: Position::new(101, 100, 7),
            tiles: vec![(7u8, strip)],
        },
        at(1),
    );

    let decision = bot.decide(at(2), at(2), &pace, TICK_MS, 0);

    assert!(decision.to_log.is_some());
    assert!(bot
        .probes
        .take_events()
        .iter()
        .any(|e| matches!(e, Event::Counted(Counter::StripMismatch, n) if *n >= 1)));
    assert!(bot.decide(at(3), at(3), &pace, TICK_MS, 0).to_log.is_none());
}

#[test]
fn a_spell_cast_replys_cooldown_suppresses_further_casts() {
    let mut bot = a_bot();
    let spawn = ServerMessage::SpawnAgent {
        agent_id: AgentId(2),
        outfit: (OutfitId(1), OutfitColors::new(0, 0, 0, 0)),
        position: Position::new(101, 100, 7),
        facing: Facing::North,
        name: "Rat".to_string(),
        life: 100,
        speed: 100,
    };
    let spells = vec![SpellListEntry {
        id: SpellId(9),
        name: "Flame Strike".to_string(),
        words: "exori flam".to_string(),
        level: 1,
        icon: 0,
        aimable: true,
        group: SpellGroup::Attack,
    }];
    log_in(&mut bot, login_burst_with(vec![spawn], spells));

    let mut casts = 0;
    for tick in 0..4 {
        let now = at(100 * tick);
        if let Some(ClientMessage::CastSpell { .. }) = decide(&mut bot, now) {
            casts += 1;
            receive(
                &mut bot,
                ServerMessage::SpellCast {
                    spell: SpellId(9),
                    spell_cooldown_ms: 2000,
                    group_cooldown_ms: 2000,
                },
                now,
            );
        }
    }

    assert_eq!(casts, 1, "the cooldown from the server's own reply must suppress further casts");
}

#[test]
fn a_walk_ack_and_a_pong_each_resolve_only_their_own_probe() {
    let mut bot = a_bot();
    log_in(&mut bot, login_burst_with(vec![], vec![]));
    receive(&mut bot, a_walkable_map(), at(0));

    bot.tick_ping(at(0), false);
    assert!(matches!(decide(&mut bot, at(20)), Some(ClientMessage::MovePlayer { .. })));
    let landed = ServerMessage::PlayerWalkAck { position: Position::new(101, 100, 7), tiles: vec![] };
    receive(&mut bot, landed, at(30));
    receive(&mut bot, ServerMessage::Pong, at(120));

    let events = bot.probes.take_events();
    assert!(events.contains(&Event::Sampled(Probe::WalkAck, Duration::from_millis(10))));
    assert!(events.contains(&Event::Sampled(Probe::Ping, Duration::from_millis(120))));
}

#[test]
fn a_walk_denial_does_not_leave_a_stale_probe_for_the_next_ack() {
    let mut bot = a_bot();
    log_in(&mut bot, login_burst_with(vec![], vec![]));
    receive(&mut bot, a_walkable_map(), at(0));

    assert!(decide(&mut bot, at(0)).is_some());
    receive(&mut bot, ServerMessage::PlayerWalkDenied, at(5));
    assert!(matches!(decide(&mut bot, at(2000)), Some(ClientMessage::MovePlayer { .. })));
    let landed = ServerMessage::PlayerWalkAck { position: Position::new(101, 100, 7), tiles: vec![] };
    receive(&mut bot, landed, at(2040));

    let events = bot.probes.take_events();
    let walks: Vec<&Event> =
        events.iter().filter(|e| matches!(e, Event::Sampled(Probe::WalkAck, _))).collect();
    assert_eq!(walks, vec![&Event::Sampled(Probe::WalkAck, Duration::from_millis(40))]);
    assert!(events.contains(&Event::Counted(Counter::WalkDenied, 1)));
}

#[test]
fn the_spells_are_checked_once_where_that_is_asked_for() {
    let mut bot = a_bot().check_spells_once();
    let list = || ServerMessage::SpellList { spells: vec![] };

    let first = bot.handle_incoming(&list(), at(0));
    let second = bot.handle_incoming(&list(), at(1));

    assert_eq!(
        first.missing_spells,
        Some(vec!["exura".to_string(), "exori flam".to_string()])
    );
    assert_eq!(second.missing_spells, None);
}

#[test]
fn noise_is_a_look_or_a_word_or_nothing() {
    let bot = a_bot();
    assert_eq!(bot.idle_noise(false, true), None);
    assert!(matches!(bot.idle_noise(true, true), Some(ClientMessage::Look { .. })));
    assert!(matches!(bot.idle_noise(true, false), Some(ClientMessage::Say { .. })));
}

#[test]
fn a_jitter_stays_between_its_bounds() {
    for _ in 0..200 {
        let wait = jitter((180, 320));
        assert!(Duration::from_millis(180) <= wait && wait <= Duration::from_millis(320));
    }
    assert_eq!(jitter((50, 50)), Duration::from_millis(50));
    assert_eq!(jitter((60, 50)), Duration::from_millis(60));
}

#[test]
fn a_logout_is_asked_for_until_it_comes_or_the_grace_is_over() {
    let at = |millis: u64| Instant { nanos: 0 }.plus(Duration::from_millis(millis));
    let grace = at(LOGOUT_GRACE_MS);

    let first = logout_step(at(0), grace, at(0), LogoutEvent::Due);
    assert_eq!(first, LogoutStep { ask: true, retry: at(500), wait: Some(at(500)) });

    let heard = logout_step(at(100), grace, first.retry, LogoutEvent::Heard);
    assert_eq!(heard, LogoutStep { ask: false, retry: at(500), wait: Some(at(500)) });

    let late = logout_step(at(1_700), grace, at(1_700), LogoutEvent::Due);
    assert_eq!(late, LogoutStep { ask: true, retry: at(2_200), wait: Some(grace) });

    assert_eq!(logout_step(grace, grace, late.retry, LogoutEvent::Due).wait, None);
    assert_eq!(logout_step(at(10), grace, at(500), LogoutEvent::Gone).wait, None);
}
