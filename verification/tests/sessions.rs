//! What clients ask for and what they are sent, and when creatures decide.

use rustibia::actors::creature_behavior::{BEHAVIOUR_BUCKETS, bucket, due_creatures, forget_gone};
use rustibia::actors::session::{Outcome, SessionActor, SessionError};
use rustibia::actors::session::combat::speaks_its_words;
use rustibia::actors::session::delta::DeltaStep;
use rustibia::actors::session::items::Occupant;
use rustibia::actors::world::{UseTarget, WorldCommand};
use rustibia::entities::agent::{Agent, AgentBody, AgentId, AgentKey, Facing, Pool};
use rustibia::entities::combat::{CombatDamage, CombatElement};
use rustibia::entities::conditions::Conditions;
use rustibia::entities::creature::CreatureKind;
use rustibia::entities::effects::EffectId;
use rustibia::entities::healing::RestoreType;
use rustibia::entities::inventory::InventorySlot;
use rustibia::entities::item::Item;
use rustibia::entities::items::{
    ContainerId, ItemAttribute, ItemConfig, ItemFlag, ItemGuid, ItemId, ItemPlacement, ItemRef,
};
use rustibia::entities::map::{GameMap, MapTile};
use rustibia::entities::player::{Inventory, Player, SkillValue};
use rustibia::entities::position::Position;
use rustibia::entities::skills::SkillType;
use rustibia::entities::spells::{
    Spell, SpellDelivery, SpellEffect, SpellGroup, SpellId, SpellTarget,
};
use rustibia::entities::support::{SupportCast, SupportEffect};
use rustibia::entities::targeting::{AreaTarget, TargetMode};
use rustibia::entities::vocation::Vocation;
use rustibia::entities::world_delta::{AgentFlag, WorldDelta};
use rustibia::entities::world_map::WorldMap;
use rustibia::game::config::{CombatConfig, EffectIds, GameConfig, TextColors};
use rustibia::game::spells::SpellCastingDenyReason;
use rustibia::game::tick::{Tick, TickDelta};
use rustibia::messages::{Color, FloatingTextType, ServerMessage, TextMessageType};
use slotmap::{DefaultKey, Key, SlotMap};
use std::collections::HashMap;
use std::sync::Arc;

fn game_config() -> GameConfig {
    GameConfig {
        max_fed_ticks: TickDelta(24000),
        logout_block_ticks: TickDelta(1200),
        regen_ticks: TickDelta(120),
        use_item_cooldown_ticks: TickDelta(4),
        combat: CombatConfig {
            attack_group_cooldown: TickDelta(40),
            healing_group_cooldown: TickDelta(20),
            support_group_cooldown: TickDelta(30),
            auto_attack_ticks: TickDelta(40),
        },
        effect_ids: EffectIds {
            healing_spell: EffectId(1),
            mana_hit: EffectId(2),
            miss: EffectId(3),
            puff: EffectId(4),
        },
        text_colors: TextColors { blue: Color(0, 0, 255), palepink: Color(255, 200, 200) },
    }
}

fn an_agent(base_speed: u16, body: AgentBody) -> Agent {
    Agent {
        life: Pool { current: 100, maximum: 100 },
        mana: Pool { current: 100, maximum: 100 },
        base_speed,
        facing: Facing::South,
        conditions: Conditions::new(),
        next_walk_tick: Tick(0),
        next_use_tick: Tick(0),
        next_auto_attack_tick: Tick(0),
        spell_ticks: HashMap::new(),
        group_ticks: HashMap::new(),
        target: None,
        target_seq: 0,
        wounds: Vec::new(),
        body,
    }
}

fn a_named_player(name: &str) -> Agent {
    an_agent(
        120,
        AgentBody::Player(Player {
            name: name.to_string(),
            vocation: Vocation::Sorcerer,
            life_regen: 5,
            mana_regen: 10,
            capacity: 400,
            skills: vec![(SkillType::Level, SkillValue { value: 1, current_ticks: 0 })],
            inventory: Arc::new(Inventory { slots: Vec::new(), carried_weight: 0, speed: 0 }),
        }),
    )
}

fn a_player() -> Agent {
    a_named_player("Rizael")
}

fn a_creature(name: &str) -> Agent {
    an_agent(
        100,
        AgentBody::Creature(Arc::new(CreatureKind {
            name: name.to_string(),
            immune_to_paralysis: false,
            abilities: Vec::new(),
        })),
    )
}

#[test]
fn keys_split_evenly_across_the_buckets() {
    let mut slots: SlotMap<DefaultKey, ()> = SlotMap::new();
    let keys: Vec<AgentKey> =
        (0..60_000).map(|_| AgentKey(slots.insert(()).data().as_ffi())).collect();

    let mut counts = [0usize; BEHAVIOUR_BUCKETS as usize];
    for key in &keys {
        counts[bucket(*key) as usize] += 1;
    }

    let expected = keys.len() / BEHAVIOUR_BUCKETS as usize;
    for (bucket, count) in counts.iter().enumerate() {
        assert!(
            count.abs_diff(expected) <= expected / 20,
            "bucket {bucket} holds {count} of {} keys",
            keys.len()
        );
    }
}

#[test]
fn a_creature_decides_once_in_a_round() {
    let active: Vec<AgentKey> = (0..20).map(AgentKey).collect();
    for key in &active {
        let turns = (100..100 + BEHAVIOUR_BUCKETS)
            .filter(|tick| due_creatures(&active, Tick(*tick)).contains(key))
            .count();
        assert_eq!(turns, 1);
    }
}

#[test]
fn what_is_gone_is_forgotten_when_the_round_begins() {
    let pos = Position::new(1, 1, 7);
    let mut map = GameMap::new();
    map.insert_tile(pos, MapTile::new());
    let rat = map.insert_agent(a_creature("Rat"), &pos).unwrap();
    let gone = AgentKey(77 << 32 | 1 << 32);
    let remembered = vec![rat, gone];

    assert_eq!(forget_gone(&remembered, &map, Tick(10)), vec![gone]);
    assert_eq!(forget_gone(&remembered, &map, Tick(11)), Vec::new());
}

fn a_spell() -> Spell {
    Spell {
        id: SpellId(4),
        name: "haste".to_string(),
        words: "utani hur".to_string(),
        group: SpellGroup::Support,
        group_cooldown: None,
        cooldown: TickDelta(40),
        mana: 0,
        level: 0,
        icon: 0,
        vocations: Vec::new(),
        effect: SpellEffect::Support(SupportCast {
            target: TargetMode::Caster,
            effect: SupportEffect::Cure { element: CombatElement::Fire },
            effect_id: None,
            missile_id: None,
        }),
        delivery: SpellDelivery::Words,
    }
}

#[test]
fn a_rune_speaks_no_words() {
    let mut spell = a_spell();
    assert!(speaks_its_words(&spell));

    spell.delivery = SpellDelivery::Rune;
    assert!(!speaks_its_words(&spell));
}

fn seat_player(map: &mut GameMap, at: &Position) -> AgentKey {
    map.insert_tile(*at, MapTile::new());
    map.insert_agent(a_player(), at).unwrap()
}

/// A player at (100, 100, 7), with a session that knows it.
fn a_session() -> (GameMap, SessionActor) {
    let mut map = GameMap::new();
    let me = seat_player(&mut map, &Position::new(100, 100, 7));
    let mut session = SessionActor::new(me);
    session.agents.get_or_insert(me.0);
    (map, session)
}

fn a_hit(element: CombatElement, value: u32) -> CombatDamage {
    CombatDamage { element, value, blocked_shield: value == 0, blocked_armor: false }
}

#[test]
fn a_hit_on_an_agent_the_map_has_already_reaped_still_draws() {
    let (map, mut session) = a_session();
    let reaped = AgentKey(1 << 32 | 99);
    session.agents.get_or_insert(reaped.0);
    let tile = Position::new(101, 100, 7);

    let sent = session.agent_took_damage(
        &map,
        None,
        reaped,
        tile,
        a_hit(CombatElement::Physical, 30),
        EffectId(1),
        Color(1, 2, 3),
    );

    assert_eq!(sent.len(), 2);
    assert!(matches!(&sent[0], ServerMessage::ShowEffect { effect_id: EffectId(1), .. }));
    assert!(matches!(
        &sent[1],
        ServerMessage::FloatingText { text, position, text_type: FloatingTextType::HitPoints, .. }
            if text == "30" && *position == tile
    ));
}

#[test]
fn a_blocked_hit_marks_and_shows_no_number() {
    let (mut map, mut session) = a_session();
    let me = session.player_key;
    let attacker = seat_player(&mut map, &Position::new(101, 100, 7));
    let attacker_id = AgentId(session.agents.get_or_insert(attacker.0));

    let sent = session.agent_took_damage(
        &map,
        Some(attacker),
        me,
        Position::new(100, 100, 7),
        a_hit(CombatElement::Physical, 0),
        EffectId(1),
        Color(1, 2, 3),
    );

    assert!(matches!(&sent[1], ServerMessage::DamagedBy { agent_id } if *agent_id == attacker_id));
    assert!(!sent.iter().any(|m| matches!(m, ServerMessage::FloatingText { .. })));
    assert!(matches!(
        sent.last(),
        Some(ServerMessage::AgentLifeChanged { current: 100, max: 100, .. })
    ));
}

#[test]
fn an_attacker_with_no_local_id_names_nobody() {
    let (mut map, session) = a_session();
    let me = session.player_key;
    let attacker = seat_player(&mut map, &Position::new(101, 100, 7));

    let sent = session.agent_took_damage(
        &map,
        Some(attacker),
        me,
        Position::new(100, 100, 7),
        a_hit(CombatElement::Physical, 12),
        EffectId(1),
        Color(1, 2, 3),
    );

    assert!(!sent.iter().any(|m| matches!(m, ServerMessage::DamagedBy { .. })), "got {sent:?}");
}

#[test]
fn a_hit_on_the_player_names_its_attacker() {
    let (mut map, mut session) = a_session();
    let me = session.player_key;
    let attacker = seat_player(&mut map, &Position::new(101, 100, 7));
    let attacker_id = AgentId(session.agents.get_or_insert(attacker.0));

    let sent = session.agent_took_damage(
        &map,
        Some(attacker),
        me,
        Position::new(100, 100, 7),
        a_hit(CombatElement::Physical, 12),
        EffectId(1),
        Color(1, 2, 3),
    );

    let named = sent.iter().find_map(|m| match m {
        ServerMessage::DamagedBy { agent_id } => Some(*agent_id),
        _ => None,
    });
    assert_eq!(named, Some(attacker_id), "got {sent:?}");
}

#[test]
fn a_hit_the_player_deals_names_nobody() {
    let (mut map, mut session) = a_session();
    let me = session.player_key;
    let victim = seat_player(&mut map, &Position::new(101, 100, 7));
    session.agents.get_or_insert(victim.0);

    let sent = session.agent_took_damage(
        &map,
        Some(me),
        victim,
        Position::new(101, 100, 7),
        a_hit(CombatElement::Physical, 12),
        EffectId(1),
        Color(1, 2, 3),
    );

    assert!(!sent.iter().any(|m| matches!(m, ServerMessage::DamagedBy { .. })), "got {sent:?}");
}

#[test]
fn a_mana_hit_shows_a_blue_number_and_the_mana_effect() {
    let (map, session) = a_session();
    let me = session.player_key;
    let tile = Position::new(100, 100, 7);
    let config = game_config();
    let blue = config.text_colors.blue;

    let sent = session.agent_took_damage(
        &map,
        None,
        me,
        tile,
        a_hit(CombatElement::Mana, 30),
        config.effect_ids.mana_hit,
        blue,
    );

    assert!(sent.iter().any(|m| matches!(
        m,
        ServerMessage::FloatingText { text, color: Some(color), .. }
            if text == "30" && (color.0, color.1, color.2) == (blue.0, blue.1, blue.2)
    )));
    assert!(sent.iter().any(|m| matches!(
        m,
        ServerMessage::ShowEffect { effect_id, .. } if *effect_id == config.effect_ids.mana_hit
    )));
}

/// What the player is told of a cast of its own that was denied.
fn told_of_denial(
    session: &SessionActor,
    reason: SpellCastingDenyReason,
    delivery: SpellDelivery,
) -> Option<String> {
    let sent = session.spell_denied(
        session.player_key,
        Position::new(100, 100, 7),
        &reason,
        delivery,
        &|_: &SpellCastingDenyReason| "The rune fails".to_string(),
        &game_config(),
    );
    sent.into_iter().find_map(|m| match m {
        ServerMessage::TextMessage { text, message_type: TextMessageType::ActionDenied } => {
            Some(text)
        }
        _ => None,
    })
}

#[test]
fn the_caster_is_told_why_their_own_cast_was_refused() {
    let (_, session) = a_session();
    let reason = SpellCastingDenyReason::StillInCooldown;

    let text = told_of_denial(&session, reason, SpellDelivery::Words);

    assert_eq!(text, Some("You're exausted".to_string()));
}

#[test]
fn a_rune_has_a_wording_of_its_own() {
    let (_, session) = a_session();
    let reason = SpellCastingDenyReason::StillInCooldown;

    let text = told_of_denial(&session, reason, SpellDelivery::Rune);

    assert_eq!(text, Some("The rune fails".to_string()));
}

#[test]
fn drinking_says_aaah_over_a_drinker_this_session_knows() {
    let (_, session) = a_session();

    let heard = session.potion_drunk(session.player_key, Position::new(100, 100, 7));

    assert!(
        matches!(
            &heard,
            Some(ServerMessage::FloatingText { text_type: FloatingTextType::CreatureSay, .. })
        ),
        "no creature say was sent: {heard:?}"
    );
    assert!(session.potion_drunk(AgentKey(1 << 32 | 50), Position::new(100, 100, 7)).is_none());
}

#[test]
fn a_miss_puffs_on_the_tile_it_names_and_says_nothing() {
    let (_, session) = a_session();
    let landed = Position::new(103, 101, 7);

    assert!(matches!(
        session.attack_missed(landed, &game_config()),
        ServerMessage::ShowEffect { effect_id: EffectId(3), position, .. } if position == landed
    ));
}

#[test]
fn a_denied_cast_puffs_for_everyone_and_explains_itself_only_to_the_caster() {
    let (mut map, session) = a_session();
    let tile = Position::new(102, 100, 7);
    let stranger = seat_player(&mut map, &tile);

    let sent = session.spell_denied(
        stranger,
        tile,
        &SpellCastingDenyReason::NoMana,
        SpellDelivery::Words,
        &|_: &SpellCastingDenyReason| panic!("it was spoken"),
        &game_config(),
    );

    let effect = sent.iter().find_map(|m| match m {
        ServerMessage::ShowEffect { effect_id, position, .. } => Some((*effect_id, *position)),
        _ => None,
    });
    assert_eq!(effect, Some((game_config().effect_ids.puff, tile)));
    assert!(
        !sent.iter().any(|m| matches!(m, ServerMessage::TextMessage { .. })),
        "another player's refusal must not be explained here: {sent:?}"
    );
    assert_eq!(
        told_of_denial(&session, SpellCastingDenyReason::NoMana, SpellDelivery::Words),
        Some("Not enough mana".to_string())
    );
}

#[test]
fn a_cast_is_heard_and_its_caster_told_to_wait() {
    let (map, session) = a_session();
    let me = session.player_key;
    let spell = a_spell();

    let sent = session.spell_cast(&map, me, Some(&spell), 50, &game_config());

    assert!(matches!(
        &sent[0],
        ServerMessage::ChatMessage { author, message, .. }
            if author == "Rizael" && message == "utani hur"
    ));
    assert!(matches!(
        &sent[1],
        ServerMessage::SpellCast {
            spell: SpellId(4),
            spell_cooldown_ms: 2000,
            group_cooldown_ms: 1500,
        }
    ));
    let stranger = SessionActor::new(AgentKey(1 << 32 | 50));
    assert_eq!(stranger.spell_cast(&map, me, Some(&spell), 50, &game_config()).len(), 1);
    assert_eq!(session.spell_cast(&map, me, None, 50, &game_config()).len(), 0);
}

#[test]
fn a_healing_glows_and_shows_what_it_gave_back() {
    let (map, session) = a_session();
    let me = session.player_key;
    let at = Position::new(100, 100, 7);
    let config = game_config();

    let sent = session.agent_healed(&map, me, at, 25, RestoreType::Mana, &config);

    assert!(matches!(&sent[0], ServerMessage::ShowEffect { effect_id: EffectId(1), .. }));
    assert!(matches!(
        &sent[1],
        ServerMessage::FloatingText { text, color: Some(Color(0, 0, 255)), .. } if text == "25"
    ));
    assert!(matches!(&sent[2], ServerMessage::AgentManaUpdated { current: 100, .. }));
    let silent = session.agent_healed(&map, me, at, 0, RestoreType::Life, &config);
    assert!(matches!(&silent[1], ServerMessage::AgentLifeChanged { .. }));
    assert!(session.potion_drunk(me, at).is_some());
    assert!(session.potion_drunk(AgentKey(9), at).is_none());
    assert!(matches!(session.target_lost(7), ServerMessage::TargetLost { seq: 7 }));
}

#[test]
fn a_request_names_agents_as_the_world_knows_them() {
    let (mut map, mut session) = a_session();
    let me = session.player_key;
    let other = seat_player(&mut map, &Position::new(101, 100, 7));
    let id = AgentId(session.agents.get_or_insert(other.0));

    assert!(matches!(
        session.handle_set_target(Some(id), 3),
        WorldCommand::SetTarget { agent_key, target: Some(target), seq: 3 }
            if agent_key == me && target == other
    ));
    assert!(matches!(
        session.handle_set_target(Some(AgentId(500)), 4),
        WorldCommand::SetTarget { target: None, .. }
    ));
    assert!(matches!(
        session.handle_cast_spell(SpellId(2), SpellTarget::Agent(id), None),
        Outcome::Command(WorldCommand::CastSpell { target: AreaTarget::Agent(target), .. })
            if target == other
    ));
    assert!(matches!(
        session.handle_cast_spell(SpellId(2), SpellTarget::Agent(AgentId(500)), None),
        Outcome::Deny("Invalid target")
    ));
}

fn an_item_ref(placement: ItemPlacement) -> ItemRef {
    ItemRef { guid: ItemGuid(7), placement }
}

#[test]
fn a_search_for_an_item_not_carried_is_denied() {
    let (_, session) = a_session();

    assert!(matches!(
        session.handle_use_item(None, true),
        Outcome::Deny("You do not have this object.")
    ));
    assert!(matches!(
        session.handle_use_item_with(None, true, None, None, None),
        Outcome::Deny("You do not have this object.")
    ));
}

#[test]
fn a_stale_slot_reference_still_returns_silently() {
    let (_, session) = a_session();
    assert!(matches!(session.handle_use_item(None, false), Outcome::Nothing));
}

#[test]
fn a_search_that_matches_uses_the_item_where_it_was_found() {
    let (_, session) = a_session();
    let me = session.player_key;
    let found = an_item_ref(ItemPlacement::Inventory(InventorySlot::Backpack, me));

    assert!(matches!(
        session.handle_use_item(Some(found), true),
        Outcome::Command(WorldCommand::UseItem { item, .. })
            if item.placement == ItemPlacement::Inventory(InventorySlot::Backpack, me)
    ));
}

#[test]
fn an_item_used_with_another_is_on_a_tile_only_where_that_is() {
    let (_, session) = a_session();
    let at = Position::new(5, 5, 7);
    let source = || Some(an_item_ref(ItemPlacement::Tile(at)));

    assert!(matches!(
        session.handle_use_item_with(source(), false, None, Some(ItemPlacement::Tile(at)), None),
        Outcome::Command(WorldCommand::UseItemWith {
            target: UseTarget { item: None, agent: None, position: Some(position) },
            ..
        }) if position == at
    ));
    let worn = ItemPlacement::Inventory(InventorySlot::Head, session.player_key);
    assert!(matches!(
        session.handle_use_item_with(source(), false, None, Some(worn), None),
        Outcome::Command(WorldCommand::UseItemWith {
            target: UseTarget { position: None, .. },
            ..
        })
    ));
}

#[test]
fn an_item_dropped_onto_a_container_goes_into_its_front() {
    let (_, session) = a_session();
    let bag = |guid: u64, index: usize| ItemPlacement::Container {
        guid: ItemGuid(guid),
        within: Box::new(ItemPlacement::Tile(Position::new(5, 5, 7))),
        index,
    };
    let moved = |target: ItemPlacement, occupant: Option<Occupant>| {
        let source = Some(an_item_ref(ItemPlacement::Tile(Position::new(6, 6, 7))));
        match session.handle_move_item(source, 1, Some((target, occupant))) {
            Outcome::Command(WorldCommand::MoveItem { to, .. }) => to,
            other => panic!("{other:?}"),
        }
    };

    let pouch = Occupant { guid: ItemGuid(9), container: true };
    let coin = Occupant { guid: ItemGuid(9), container: false };
    assert_eq!(moved(bag(1, 3), Some(pouch)), bag(9, 0));
    assert_eq!(moved(bag(1, 3), Some(coin)), bag(1, 0));
    assert_eq!(moved(bag(1, 3), None), bag(1, 0));
    let tile = Position::new(1, 1, 1);
    assert_eq!(moved(ItemPlacement::Tile(tile), Some(pouch)), ItemPlacement::Tile(tile));
    assert!(matches!(session.handle_move_item(None, 1, None), Outcome::Nothing));
}

fn a_bag(guid: u64, content: Vec<Item>) -> Item {
    let mut bag = Item::new(
        Arc::new(ItemConfig::new(
            ItemId(1987),
            "bag".to_string(),
            vec![ItemFlag::Container],
            vec![ItemAttribute::Capacity(8)],
        )),
        1,
        ItemGuid(guid),
    );
    bag.content = Some(content);
    bag
}

fn coins(amount: u8, guid: u64) -> Item {
    Item::new(
        Arc::new(ItemConfig::new(ItemId(2148), "coin".to_string(), Vec::new(), Vec::new())),
        amount,
        ItemGuid(guid),
    )
}

#[test]
fn a_container_is_opened_refreshed_and_closed_under_one_number() {
    let (_, mut session) = a_session();
    let bag = a_bag(40, vec![coins(12, 41)]);

    let opened = session.open_container(Some(&bag), ItemGuid(40), false).unwrap();
    let id = match opened {
        ServerMessage::OpenContainer { container_id, capacity, has_parent, title, items } => {
            assert_eq!((capacity, has_parent, title.as_str()), (8, false, "bag"));
            assert_eq!(items, vec![Some((ItemId(2148), 12))]);
            container_id
        }
        other => panic!("{other:?}"),
    };
    let again = session.open_container(Some(&bag), ItemGuid(40), true).unwrap();
    assert!(matches!(
        again,
        ServerMessage::OpenContainer { container_id, has_parent: true, .. } if container_id == id
    ));
    assert!(matches!(
        session.send_container(ItemGuid(40), Some(&bag)),
        Some(ServerMessage::UpdateContainer { container_id, .. }) if container_id == id
    ));
    assert!(session.send_container(ItemGuid(99), Some(&bag)).is_none());
    assert_eq!(session.handle_open_parent_container(id), Some(ItemGuid(40)));

    session.handle_close_container(id);
    assert_eq!(session.handle_open_parent_container(id), None);
    assert!(session.send_container(ItemGuid(40), Some(&bag)).is_none());
}

#[test]
fn what_holds_nothing_or_is_gone_cannot_be_opened() {
    let (_, mut session) = a_session();
    let coin = coins(1, 5);

    assert!(matches!(
        session.open_container(Some(&coin), ItemGuid(5), false),
        Err(SessionError::InvalidState)
    ));
    assert!(session.open_container(None, ItemGuid(5), false).is_err());
}

#[test]
fn containers_out_of_reach_are_closed() {
    let (_, mut session) = a_session();
    for guid in [40, 50, 60] {
        session.open_container(Some(&a_bag(guid, Vec::new())), ItemGuid(guid), false).unwrap();
    }

    let sent = session.drop_unreachable_containers(&vec![true, false, true]);

    assert!(matches!(
        sent.as_slice(),
        [ServerMessage::ContainerClosed { container_id: ContainerId(1) }]
    ));
    assert_eq!(session.containers.globals(), vec![40, 60]);
    assert_eq!(session.containers.get_or_insert(70), 1, "the freed number is given out again");
}

#[test]
fn a_slot_is_told_with_what_is_in_it() {
    let (mut map, session) = a_session();
    let me = session.player_key;
    map.get_player_mut(me)
        .unwrap()
        .inventory_mut()
        .slots
        .push((InventorySlot::Head, coins(1, 3)));

    assert!(matches!(
        session.send_inventory_slot(&map, InventorySlot::Head),
        Some(ServerMessage::IventorySlotUpdated { item_id: Some(ItemId(2148)), .. })
    ));
    assert!(matches!(
        session.send_inventory_slot(&map, InventorySlot::Feet),
        Some(ServerMessage::IventorySlotUpdated { item_id: None, .. })
    ));
    assert!(matches!(
        session.send_capacity(Some(9)),
        Some(ServerMessage::PlayerCapacityUpdated { cap: 9 })
    ));
}

#[test]
fn a_look_is_answered_with_what_is_seen() {
    let (mut map, session) = a_session();

    assert!(matches!(
        session.handle_look(&map, Some("You see.".to_string())),
        Ok(Some(ServerMessage::TextMessage { text, message_type: TextMessageType::Look }))
            if text == "You see."
    ));
    assert!(matches!(session.handle_look(&map, None), Ok(None)));

    map.remove_agent(session.player_key);
    assert!(matches!(
        session.handle_look(&map, Some("You see.".to_string())),
        Err(SessionError::InvalidState)
    ));
}

const FLOORS: [u8; 8] = [0, 1, 2, 3, 4, 5, 6, 7];

/// The tiles that a client with a player at (100, 100, 7) is sent of one change.
fn tiles_sent(changed: Position) -> Vec<Position> {
    let (map, session) = a_session();
    let mut world = WorldMap::new(map);
    world.insert_tile(changed, MapTile::new());
    let delta = world.take_delta();

    session
        .apply_delta(world.map(), &delta, &FLOORS.to_vec())
        .into_iter()
        .filter_map(|step| match step {
            DeltaStep::Tile(position) => Some(position),
            _ => None,
        })
        .collect()
}

#[test]
fn a_tile_change_on_the_players_own_floor_is_sent() {
    let changed = Position::new(101, 100, 7);
    assert_eq!(tiles_sent(changed), vec![changed]);
}

#[test]
fn a_tile_change_on_another_visible_floor_is_sent() {
    let changed = Position::new(101, 100, 5);
    assert_eq!(tiles_sent(changed), vec![changed]);
}

#[test]
fn a_tile_change_on_a_floor_the_player_cannot_see_is_not_sent() {
    assert!(tiles_sent(Position::new(101, 100, 10)).is_empty());
}

#[test]
fn a_tile_change_outside_the_viewport_is_not_sent() {
    assert!(tiles_sent(Position::new(140, 100, 7)).is_empty());
}

#[test]
fn an_open_container_is_refreshed_and_an_unopened_one_is_not() {
    let (map, mut session) = a_session();
    session.containers.get_or_insert(40);
    let mut delta = WorldDelta::default();
    delta.mark_container(ItemGuid(40));
    delta.mark_container(ItemGuid(50));

    let steps = session.apply_delta(&map, &delta, &FLOORS.to_vec());

    assert_eq!(steps, vec![DeltaStep::Container(ItemGuid(40))]);
}

#[test]
fn only_the_players_own_slots_and_capacity_are_sent() {
    let (mut map, mut session) = a_session();
    let me = session.player_key;
    let other = seat_player(&mut map, &Position::new(101, 100, 7));
    session.agents.get_or_insert(other.0);
    let mut delta = WorldDelta::default();
    for key in [me, other] {
        delta.mark_slot(key, InventorySlot::Head);
        delta.mark_agent(key, AgentFlag::Capacity);
    }

    let steps = session.apply_delta(&map, &delta, &FLOORS.to_vec());

    assert_eq!(
        steps,
        vec![
            DeltaStep::DropUnreachable,
            DeltaStep::Slot(InventorySlot::Head),
            DeltaStep::Capacity,
        ]
    );
}

#[test]
fn life_is_sent_for_an_agent_the_session_knows_and_not_for_one_it_does_not() {
    let (mut map, mut session) = a_session();
    let known = seat_player(&mut map, &Position::new(101, 100, 7));
    let unknown = seat_player(&mut map, &Position::new(102, 100, 7));
    session.agents.get_or_insert(known.0);
    let mut world = WorldMap::new(map);
    world.agent_mut(known).unwrap().remove_life(10);
    world.agent_mut(unknown).unwrap().remove_life(10);
    let delta = world.take_delta();

    let steps = session.apply_delta(world.map(), &delta, &FLOORS.to_vec());

    assert_eq!(steps, vec![DeltaStep::Life(known)]);
    assert!(matches!(
        session.life_updated(world.map(), known),
        Some(ServerMessage::AgentLifeChanged { current: 90, max: 100, .. })
    ));
    assert!(session.life_updated(world.map(), unknown).is_none());
}

#[test]
fn another_players_mana_is_not_sent() {
    let (mut map, mut session) = a_session();
    let me = session.player_key;
    let other = seat_player(&mut map, &Position::new(101, 100, 7));
    session.agents.get_or_insert(other.0);
    let mut world = WorldMap::new(map);
    world.agent_mut(me).unwrap().remove_mana(10);
    world.agent_mut(other).unwrap().remove_mana(10);
    let delta = world.take_delta();

    let steps = session.apply_delta(world.map(), &delta, &FLOORS.to_vec());

    assert_eq!(steps, vec![DeltaStep::Mana]);
    assert!(matches!(
        session.mana_updated(world.map()),
        Some(ServerMessage::AgentManaUpdated { current: 90, .. })
    ));
}

#[test]
fn a_turn_is_sent_with_the_facing_the_agent_ended_on() {
    let (mut map, mut session) = a_session();
    let other = seat_player(&mut map, &Position::new(101, 100, 7));
    let id = AgentId(session.agents.get_or_insert(other.0));
    let mut world = WorldMap::new(map);
    world.agent_mut(other).unwrap().set_facing(Facing::North);
    world.agent_mut(other).unwrap().set_base_speed(300);
    let delta = world.take_delta();

    let steps = session.apply_delta(world.map(), &delta, &FLOORS.to_vec());

    assert_eq!(steps, vec![DeltaStep::Speed(other), DeltaStep::Facing(other, id)]);
    assert_eq!(world.map().get_agent(other).unwrap().facing, Facing::North);
}

#[test]
fn a_trained_skill_is_sent_for_the_player_only() {
    let (mut map, mut session) = a_session();
    let me = session.player_key;
    let other = seat_player(&mut map, &Position::new(101, 100, 7));
    session.agents.get_or_insert(other.0);
    let mut world = WorldMap::new(map);
    for key in [me, other] {
        world.player_mut(key).unwrap().skill_mut(SkillType::Level).unwrap().current_ticks += 1;
    }
    let delta = world.take_delta();

    let steps = session.apply_delta(world.map(), &delta, &FLOORS.to_vec());

    assert_eq!(steps, vec![DeltaStep::Skill(SkillType::Level)]);
}

#[test]
fn the_players_status_is_sent_and_another_players_is_not() {
    let (mut map, mut session) = a_session();
    let me = session.player_key;
    let other = seat_player(&mut map, &Position::new(101, 100, 7));
    session.agents.get_or_insert(other.0);
    let config = game_config();
    let mut world = WorldMap::new(map);
    for key in [me, other] {
        world.agent_mut(key).unwrap().reset_logout_block(Tick(0), &config);
    }
    let delta = world.take_delta();

    let steps = session.apply_delta(world.map(), &delta, &FLOORS.to_vec());

    assert_eq!(steps, vec![DeltaStep::Status]);
}

#[test]
fn a_player_that_is_not_on_the_map_is_told_nothing() {
    let (mut map, session) = a_session();
    map.remove_agent(session.player_key);
    let mut delta = WorldDelta::default();
    delta.mark_tile(&Position::new(100, 100, 7));

    assert!(session.apply_delta(&map, &delta, &FLOORS.to_vec()).is_empty());
}
