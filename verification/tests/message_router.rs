//! Which sessions each event is sent to.

use rustibia::actors::message_router::{
    MessageRouterActor, SendResult, TickSend, route_to_recipients, sees,
};
use rustibia::entities::agent::{Agent, AgentBody, AgentKey, Facing, Pool};
use rustibia::entities::conditions::Conditions;
use rustibia::entities::creature::CreatureKind;
use rustibia::entities::map::{GameMap, MapTile};
use rustibia::entities::player::{Inventory, Player, SkillValue};
use rustibia::entities::position::{Direction, Position, Rect};
use rustibia::entities::skills::SkillType;
use rustibia::entities::vocation::Vocation;
use rustibia::entities::world_delta::WorldDelta;
use rustibia::entities::world_map::WorldMap;
use rustibia::game::events::BroadcastMessage;
use rustibia::game::tick::Tick;
use std::collections::HashMap;
use std::sync::Arc;

fn an_agent(base_speed: u16, body: AgentBody) -> Agent {
    Agent {
        life: Pool { current: 100, maximum: 100 },
        mana: Pool { current: 100, maximum: 100 },
        base_speed,
        facing: Facing::South,
        conditions: Conditions::new(),
        next_walk_tick: Tick(0),
        next_use_tick: Tick(0),
        next_auto_attack_tick: Tick(0),
        spell_ticks: HashMap::new(),
        group_ticks: HashMap::new(),
        target: None,
        target_seq: 0,
        wounds: Vec::new(),
        body,
    }
}

fn a_named_player(name: &str) -> Agent {
    an_agent(
        120,
        AgentBody::Player(Player {
            name: name.to_string(),
            vocation: Vocation::Sorcerer,
            life_regen: 5,
            mana_regen: 10,
            capacity: 400,
            skills: vec![(SkillType::Level, SkillValue { value: 1, current_ticks: 0 })],
            inventory: Arc::new(Inventory { slots: Vec::new(), carried_weight: 0, speed: 0 }),
        }),
    )
}

fn a_player() -> Agent {
    a_named_player("Rizael")
}

fn a_creature(name: &str) -> Agent {
    an_agent(
        100,
        AgentBody::Creature(Arc::new(CreatureKind {
            name: name.to_string(),
            immune_to_paralysis: false,
            abilities: Vec::new(),
        })),
    )
}

/// Floors are seen from those above the ground, all of them from each other, and below it from
/// two floors up and down.
fn visible(floor: u8, from: u8) -> bool {
    if floor <= 7 {
        from <= 7
    } else {
        from > 7 && floor.abs_diff(from) <= 2
    }
}

/// Seats a subscribed player at each position and returns their keys, in order.
fn seat_watchers(
    router: &mut MessageRouterActor,
    map: &mut GameMap,
    at: &[Position],
) -> Vec<AgentKey> {
    at.iter()
        .map(|position| {
            map.insert_tile(*position, MapTile::new());
            let key = map.insert_agent(a_player(), position).unwrap();
            assert!(router.subscribe(key));
            key
        })
        .collect()
}

/// How many copies of a message each of these receives.
fn route(
    router: &MessageRouterActor,
    map: &GameMap,
    message: &BroadcastMessage,
    keys: &[AgentKey],
) -> Vec<usize> {
    let players = router.player_positions(map);
    let sent = route_to_recipients(&message.routing(), &players, &visible);
    keys.iter()
        .map(|key| sent.iter().filter(|to| *to == key && router.is_subscribed(**to)).count())
        .collect()
}

#[test]
fn a_viewport_event_reaches_players_in_its_rect_on_every_floor_it_is_seen_from() {
    let mut map = GameMap::new();
    let mut router = MessageRouterActor::new();
    let keys = seat_watchers(
        &mut router,
        &mut map,
        &[
            Position::new(109, 107, 7),
            Position::new(110, 100, 7),
            Position::new(100, 100, 5),
            Position::new(100, 100, 8),
        ],
    );
    let lair = Position::new(101, 101, 7);
    map.insert_tile(lair, MapTile::new());
    map.insert_agent(a_creature("rat"), &lair).unwrap();

    let received = route(
        &router,
        &map,
        &BroadcastMessage::AttackMissed { position: Position::new(100, 100, 7) },
        &keys,
    );

    assert_eq!(received, [1, 0, 1, 0]);
}

#[test]
fn a_same_floor_event_skips_players_on_the_floors_above() {
    let mut map = GameMap::new();
    let mut router = MessageRouterActor::new();
    let keys = seat_watchers(
        &mut router,
        &mut map,
        &[Position::new(101, 100, 7), Position::new(101, 100, 6)],
    );

    let received = route(
        &router,
        &map,
        &BroadcastMessage::AgentSaid {
            agent_key: AgentKey(0),
            position: Position::new(100, 100, 7),
            message: "hi".to_owned(),
        },
        &keys,
    );

    assert_eq!(received, [1, 0]);
}

#[test]
fn a_move_reaches_both_viewports_once_and_the_mover_once() {
    let mut map = GameMap::new();
    let mut router = MessageRouterActor::new();
    let (from, to) = (Position::new(100, 100, 7), Position::new(101, 100, 7));
    let keys = seat_watchers(
        &mut router,
        &mut map,
        &[
            to,
            Position::new(91, 100, 7),
            Position::new(110, 100, 7),
            Position::new(130, 100, 7),
        ],
    );
    let mover = keys[0];

    let received = route(
        &router,
        &map,
        &BroadcastMessage::AgentMoved {
            agent_key: mover,
            direction: Direction::East,
            from_position: from,
            to_position: to,
        },
        &keys,
    );

    assert_eq!(received, [1, 1, 1, 0]);
}

#[test]
fn a_teleport_seen_from_both_ends_arrives_once() {
    let mut map = GameMap::new();
    let mut router = MessageRouterActor::new();
    let keys = seat_watchers(
        &mut router,
        &mut map,
        &[
            Position::new(103, 100, 7),
            Position::new(112, 100, 7),
            Position::new(130, 100, 7),
        ],
    );

    let received = route(
        &router,
        &map,
        &BroadcastMessage::AgentTeleported {
            agent_key: AgentKey(0),
            from_position: Position::new(100, 100, 7),
            to_position: Position::new(105, 100, 7),
        },
        &keys,
    );

    assert_eq!(received, [1, 1, 0]);
}

#[test]
fn speech_reaches_the_speaker_and_a_nearby_listener() {
    let pos = Position::new(100, 100, 7);
    let mut map = GameMap::new();
    let mut router = MessageRouterActor::new();
    let keys = seat_watchers(&mut router, &mut map, &[pos, Position::new(101, 100, 7)]);

    let message = BroadcastMessage::AgentSaid {
        agent_key: keys[0],
        position: pos,
        message: "hello".to_owned(),
    };

    assert_eq!(route(&router, &map, &message, &keys), [1, 1]);
}

#[test]
fn speech_still_reaches_a_listener_when_the_speaker_has_left_the_map() {
    let spoken_at = Position::new(100, 100, 7);
    let mut map = GameMap::new();
    let mut router = MessageRouterActor::new();
    let keys = seat_watchers(&mut router, &mut map, &[Position::new(101, 100, 7)]);
    map.insert_tile(spoken_at, MapTile::new());

    let message = BroadcastMessage::AgentSaid {
        agent_key: AgentKey(0),
        position: spoken_at,
        message: "bye".to_owned(),
    };

    assert_eq!(route(&router, &map, &message, &keys), [1]);
}

#[test]
fn a_closed_session_is_unsubscribed_and_reported_dead() {
    let mut router = MessageRouterActor::new();
    let key = AgentKey(0);
    router.subscribe(key);

    let dead = router.deliver_channel_message(&vec![key], &vec![SendResult::Closed]).dead;

    assert_eq!(dead, vec![key], "a closed session must be reported dead");
    assert!(!router.is_subscribed(key), "a closed session must also be unsubscribed");
}

#[test]
fn a_channel_message_reports_everybody_it_did_not_reach() {
    let mut router = MessageRouterActor::new();
    for n in 1..=3 {
        router.subscribe(AgentKey(n));
    }
    let members = vec![AgentKey(1), AgentKey(9), AgentKey(2), AgentKey(3)];
    let results = vec![
        SendResult::Delivered,
        SendResult::Missing,
        SendResult::Full,
        SendResult::Delivered,
    ];

    let delivery = router.deliver_channel_message(&members, &results);

    assert_eq!(delivery.dead, vec![AgentKey(9), AgentKey(2)]);
    assert_eq!(delivery.close, vec![AgentKey(2)]);
    assert!(router.is_subscribed(AgentKey(1)) && router.is_subscribed(AgentKey(3)));
    assert!(!router.is_subscribed(AgentKey(2)));
}

#[test]
fn a_session_that_does_not_keep_up_is_closed_and_a_second_one_is_not_taken() {
    let mut router = MessageRouterActor::new();
    assert!(router.subscribe(AgentKey(5)));
    assert!(!router.subscribe(AgentKey(5)));

    let fine = router.handle_send_result(AgentKey(5), SendResult::Delivered);
    assert!(fine.delivered && !fine.close);
    let full = router.handle_send_result(AgentKey(5), SendResult::Full);
    assert!(!full.delivered && full.close);
    assert!(!router.is_subscribed(AgentKey(5)));
    router.unsubscribe(AgentKey(5));
    assert!(router.subscribe(AgentKey(5)));
}

#[test]
fn a_tick_delivers_its_events_before_its_delta() {
    let pos = Position::new(100, 100, 7);
    let mut map = GameMap::new();
    let mut router = MessageRouterActor::new();
    let key = seat_watchers(&mut router, &mut map, &[pos])[0];
    let mut world = WorldMap::new(GameMap::new());
    world.insert_tile(pos, MapTile::new());
    let events = vec![BroadcastMessage::AgentSaid {
        agent_key: key,
        position: pos,
        message: "hi".to_owned(),
    }];

    let sent = router.tick(&map, &events, &world.take_delta(), &visible);

    assert_eq!(
        sent,
        vec![TickSend::Event { index: 0, to: key }, TickSend::Delta { to: key }]
    );
    assert_eq!(
        router.tick(&map, &events, &WorldDelta::default(), &visible),
        vec![TickSend::Event { index: 0, to: key }]
    );
}

#[test]
fn an_empty_delta_is_not_sent() {
    let mut router = MessageRouterActor::new();
    router.subscribe(AgentKey(1));

    assert!(router.delta_recipients(&WorldDelta::default()).is_empty());
}

#[test]
fn a_delta_goes_to_every_session_and_an_empty_one_to_none() {
    let mut router = MessageRouterActor::new();
    router.subscribe(AgentKey(1));
    router.subscribe(AgentKey(2));
    let mut delta = WorldDelta::default();
    assert!(router.delta_recipients(&delta).is_empty());

    delta.mark_tile(&Position::new(1, 1, 1));

    assert_eq!(router.delta_recipients(&delta), vec![AgentKey(1), AgentKey(2)]);
}

#[test]
fn what_is_on_the_ground_is_not_seen_from_below_it() {
    let rect = Rect::player_viewport(&Position::new(100, 100, 7));
    assert!(sees(&Position::new(100, 100, 3), &rect, 7, false, &visible));
    assert!(!sees(&Position::new(100, 100, 3), &rect, 7, true, &visible));
    assert!(!sees(&Position::new(100, 100, 9), &rect, 7, false, &visible));
    assert!(!sees(&Position::new(120, 100, 7), &rect, 7, false, &visible));
}
