//! Using items, and items that decay.

use rustibia::actors::world::{ScheduledCommand, WorldCommand};
use rustibia::entities::agent::{Agent, AgentBody, AgentKey, Facing, Pool};
use rustibia::entities::conditions::{Conditions, TimedCondition};
use rustibia::entities::effects::EffectId;
use rustibia::entities::inventory::InventorySlot;
use rustibia::entities::item::Item;
use rustibia::entities::items::{
    ItemAction, ItemAttribute, ItemConfig, ItemFlag, ItemGuid, ItemId, ItemPlacement, ItemRef,
};
use rustibia::entities::map::{GameMap, MapTile};
use rustibia::entities::player::{Inventory, Player, SkillValue};
use rustibia::entities::position::Position;
use rustibia::entities::skills::SkillType;
use rustibia::entities::vocation::Vocation;
use rustibia::entities::world_map::WorldMap;
use rustibia::game::config::{CombatConfig, EffectIds, GameConfig, TextColors};
use rustibia::game::ctx::TickCtx;
use rustibia::game::events::BroadcastMessage;
use rustibia::game::item_action::{
    ActionJob, Ask, ItemActionError, ItemMovementError, Meal, Replacement, Reply, Stage, UsedItem,
    check_decay, decay_item, decayed_into, eat_food, finish_use, route_action, toggle_door,
    transform, use_item, use_item_failed,
};
use rustibia::game::tick::{Tick, TickDelta};
use rustibia::messages::Color;
use std::collections::HashMap;
use std::sync::Arc;

fn game_config() -> GameConfig {
    GameConfig {
        max_fed_ticks: TickDelta(24000),
        logout_block_ticks: TickDelta(1200),
        regen_ticks: TickDelta(120),
        use_item_cooldown_ticks: TickDelta(4),
        combat: CombatConfig {
            attack_group_cooldown: TickDelta(40),
            healing_group_cooldown: TickDelta(20),
            support_group_cooldown: TickDelta(30),
            auto_attack_ticks: TickDelta(40),
        },
        effect_ids: EffectIds {
            healing_spell: EffectId(1),
            mana_hit: EffectId(2),
            miss: EffectId(3),
            puff: EffectId(4),
        },
        text_colors: TextColors { blue: Color(0, 0, 255), palepink: Color(255, 200, 200) },
    }
}

fn an_agent(base_speed: u16, body: AgentBody) -> Agent {
    Agent {
        life: Pool { current: 100, maximum: 100 },
        mana: Pool { current: 100, maximum: 100 },
        base_speed,
        facing: Facing::South,
        conditions: Conditions::new(),
        next_walk_tick: Tick(0),
        next_use_tick: Tick(0),
        next_auto_attack_tick: Tick(0),
        spell_ticks: HashMap::new(),
        group_ticks: HashMap::new(),
        target: None,
        target_seq: 0,
        wounds: Vec::new(),
        body,
    }
}

fn a_named_player(name: &str) -> Agent {
    an_agent(
        120,
        AgentBody::Player(Player {
            name: name.to_string(),
            vocation: Vocation::Sorcerer,
            life_regen: 5,
            mana_regen: 10,
            capacity: 400,
            skills: vec![(SkillType::Level, SkillValue { value: 1, current_ticks: 0 })],
            inventory: Arc::new(Inventory { slots: Vec::new(), carried_weight: 0, speed: 0 }),
        }),
    )
}

fn a_player() -> Agent {
    a_named_player("Rizael")
}

fn config(id: u16, attributes: Vec<ItemAttribute>) -> Arc<ItemConfig> {
    Arc::new(ItemConfig::new(ItemId(id), "fire field".to_string(), Vec::new(), attributes))
}

#[test]
fn a_decayed_item_keeps_its_owner() {
    let owner = AgentKey(1 << 32 | 1);
    let mut burning = Item::new(config(1, Vec::new()), 1, ItemGuid(1));
    burning.owner = Some(owner);

    let next = decayed_into(&burning, config(2, Vec::new()), ItemGuid(2));

    assert_eq!(next.config.id, ItemId(2));
    assert_eq!(next.owner, Some(owner));
}

#[test]
fn a_decayed_flask_keeps_what_it_is_filled_with() {
    let flask = Item::new_fluid(config(1, Vec::new()), 7, ItemGuid(1));

    let next = decayed_into(&flask, config(2, Vec::new()), ItemGuid(2));

    assert_eq!(next.fluid, Some(7));
    assert_eq!(next.amount, 1);
}

fn a_replacement(placement: ItemPlacement, made: Option<Arc<ItemConfig>>) -> Replacement {
    Replacement {
        item: ItemRef { guid: ItemGuid(1), placement },
        config: made,
        guid: ItemGuid(50),
        stage: Stage::Idle,
        new_item: None,
        old_item: None,
        index: None,
    }
}

/// A tile with sand on it, and a player.
fn a_world() -> (TickCtx, Position, AgentKey) {
    let pos = Position::new(10, 10, 7);
    let sand = Item::new(
        Arc::new(ItemConfig::new(
            ItemId(4322),
            "sand".to_string(),
            vec![ItemFlag::Ground],
            Vec::new(),
        )),
        1,
        ItemGuid(1),
    );
    let mut tile = MapTile::new();
    tile.push_item(sand);
    let mut map = GameMap::new();
    map.insert_tile(pos, tile);
    let player = map.insert_agent(a_player(), &pos).unwrap();
    (TickCtx::new(WorldMap::new(map), Tick(1000)), pos, player)
}

/// Does on the tile what an action asks for, until it is over.
fn run(ctx: &mut TickCtx, pos: Position, job: &mut Replacement, refuse_new: bool) -> Result<(), ItemActionError> {
    let mut ask = transform(ctx, job, Reply::Start);
    loop {
        let reply = match ask {
            Ask::Remove => match ctx.map.remove_item_from_tile(&pos, job.item.guid, 1, ItemGuid(99)) {
                Some(removed) => Reply::Removed(removed.item, removed.index),
                None => Reply::NotRemoved,
            },
            Ask::Insert { item, index, .. } => {
                if refuse_new && item.guid == ItemGuid(50) {
                    Reply::NotInserted(ItemMovementError::Refused)
                } else {
                    ctx.map.place_item(&pos, index, None, item).unwrap();
                    Reply::Inserted
                }
            }
            Ask::Done(result) => return result,
        };
        ask = transform(ctx, job, reply);
    }
}

#[test]
fn a_transform_into_an_unknown_item_refuses_and_keeps_the_original() {
    let (mut ctx, pos, _) = a_world();
    let guid = ItemGuid(1);
    let mut job = a_replacement(ItemPlacement::Tile(pos), None);

    let result = run(&mut ctx, pos, &mut job, false);

    assert!(result.is_err());
    assert!(
        ctx.map.map().get_item_by_id(&pos, guid).is_some(),
        "the original item was destroyed"
    );
    assert!(
        ctx.events.is_empty(),
        "a refused transform must not report a change: {:?}",
        ctx.events
    );
    assert!(ctx.scheduled.is_empty());
}

#[test]
fn a_transform_replaces_the_item_where_it_was_and_books_its_decay() {
    let (mut ctx, pos, _) = a_world();
    let hole = config(7, vec![ItemAttribute::Decay(TickDelta(300), ItemId(8))]);
    let mut job = a_replacement(ItemPlacement::Tile(pos), Some(hole));

    assert_eq!(run(&mut ctx, pos, &mut job, false), Ok(()));

    let items = ctx.map.map().iter_items(&pos).unwrap();
    assert_eq!(items.len(), 1);
    assert_eq!(items[0].config.id, ItemId(7));
    assert!(matches!(
        ctx.scheduled.as_slice(),
        [ScheduledCommand { at_tick: Tick(1300), command: WorldCommand::DecayItem { item } }]
            if item.guid == ItemGuid(50) && item.placement == ItemPlacement::Tile(pos)
    ));
}

#[test]
fn a_transform_that_finds_no_place_puts_the_old_item_back() {
    let (mut ctx, pos, _) = a_world();
    let mut job = a_replacement(ItemPlacement::Tile(pos), Some(config(7, Vec::new())));

    assert_eq!(run(&mut ctx, pos, &mut job, true), Err(ItemActionError::ActionFailed));

    let items = ctx.map.map().iter_items(&pos).unwrap();
    assert_eq!(items.len(), 1);
    assert_eq!(items[0].guid, ItemGuid(1));
}

#[test]
fn what_is_too_heavy_to_carry_falls_to_the_ground() {
    let (mut ctx, pos, player) = a_world();
    let placement = ItemPlacement::Inventory(InventorySlot::Backpack, player);
    let mut job = a_replacement(placement, Some(config(7, Vec::new())));

    assert!(matches!(transform(&mut ctx, &mut job, Reply::Start), Ask::Remove));
    let old = Item::new(config(6, Vec::new()), 1, ItemGuid(1));
    assert!(matches!(
        transform(&mut ctx, &mut job, Reply::Removed(old, None)),
        Ask::Insert { at: ItemPlacement::Inventory(..), .. }
    ));
    let reply = Reply::NotInserted(ItemMovementError::NotEnoughCap);
    assert!(matches!(
        transform(&mut ctx, &mut job, reply),
        Ask::Insert { item, at: ItemPlacement::Tile(ground), index: None }
            if ground == pos && item.guid == ItemGuid(50)
    ));
    let reply = Reply::NotInserted(ItemMovementError::PlayerDespawned);
    assert!(matches!(
        transform(&mut ctx, &mut job, reply),
        Ask::Insert { item, at: ItemPlacement::Inventory(..), .. } if item.guid == ItemGuid(1)
    ));
    assert!(matches!(
        transform(&mut ctx, &mut job, Reply::Inserted),
        Ask::Done(Err(ItemActionError::ActionFailed))
    ));
}

#[test]
fn a_door_stands_on_a_tile() {
    let (mut ctx, pos, player) = a_world();
    let carried = ItemPlacement::Inventory(InventorySlot::Backpack, player);
    let mut job = a_replacement(carried, Some(config(7, Vec::new())));
    assert!(matches!(
        toggle_door(&mut ctx, &mut job, Reply::Start),
        Ask::Done(Err(ItemActionError::InvalidState))
    ));

    let mut job = a_replacement(ItemPlacement::Tile(pos), Some(config(7, Vec::new())));
    assert!(matches!(toggle_door(&mut ctx, &mut job, Reply::Start), Ask::Remove));
    let closed = Item::new(config(6, Vec::new()), 1, ItemGuid(1));
    assert!(matches!(
        toggle_door(&mut ctx, &mut job, Reply::Removed(closed, Some(0))),
        Ask::Insert { index: Some(0), .. }
    ));
    assert!(matches!(toggle_door(&mut ctx, &mut job, Reply::Inserted), Ask::Done(Ok(()))));
}

#[test]
fn a_decay_that_cannot_be_done_books_nothing() {
    let (mut ctx, pos, _) = a_world();
    let field = Item::new(
        config(1, vec![ItemAttribute::Decay(TickDelta(10), ItemId(2))]),
        1,
        ItemGuid(1),
    );
    let next = config(2, vec![ItemAttribute::Decay(TickDelta(20), ItemId(3))]);
    let mut job = a_replacement(ItemPlacement::Tile(pos), Some(next));
    let mark = ctx.mark();

    assert!(matches!(
        decay_item(&mut ctx, &mut job, Some(&field), mark, Reply::Start),
        Ask::Remove
    ));
    assert_eq!(ctx.scheduled.len(), 1);
    assert!(matches!(
        decay_item(&mut ctx, &mut job, Some(&field), mark, Reply::NotRemoved),
        Ask::Done(Ok(()))
    ));
    assert!(ctx.scheduled.is_empty());

    let mut job = a_replacement(ItemPlacement::Tile(pos), None);
    assert!(matches!(
        decay_item(&mut ctx, &mut job, Some(&field), mark, Reply::Start),
        Ask::Done(Ok(()))
    ));
}

#[test]
fn what_does_not_decay_books_no_decay() {
    let mut commands: Vec<ScheduledCommand> = Vec::new();
    let stone = Item::new(config(1, Vec::new()), 1, ItemGuid(1));
    check_decay(&mut commands, &stone, ItemPlacement::Tile(Position::new(1, 1, 1)), Tick(5));
    assert!(commands.is_empty());
}

fn a_meal(eater: AgentKey, duration: u64) -> Meal {
    Meal {
        eater,
        duration: TickDelta(duration),
        stage: Stage::Idle,
        position: Position::new(0, 0, 0),
        old_generation: None,
    }
}

fn eat(ctx: &mut TickCtx, player: AgentKey, duration: u64) -> Result<(), ItemActionError> {
    let mut meal = a_meal(player, duration);
    let rules = game_config();
    match eat_food(ctx, &mut meal, Reply::Start, None, &rules) {
        Ask::Remove => {
            let food = Item::new(config(9, Vec::new()), 1, ItemGuid(3));
            let message = Some("Munch.".to_string());
            match eat_food(ctx, &mut meal, Reply::Removed(food, None), message, &rules) {
                Ask::Done(result) => result,
                other => panic!("{other:?}"),
            }
        }
        Ask::Done(result) => result,
        other => panic!("{other:?}"),
    }
}

#[test]
fn a_first_meal_starts_regeneration_and_a_second_only_lasts_longer() {
    let (mut ctx, pos, player) = a_world();

    assert_eq!(eat(&mut ctx, player, 500), Ok(()));
    let (until, generation) =
        ctx.map.map().get_agent(player).unwrap().conditions.fed().unwrap();
    assert_eq!(until, Tick(1500));
    assert_eq!(ctx.scheduled.len(), 2);
    assert!(matches!(
        &ctx.scheduled[0],
        ScheduledCommand {
            at_tick: Tick(1120),
            command: WorldCommand::RegeneratePlayer { generation: g, .. },
        } if *g == generation
    ));
    assert!(matches!(
        &ctx.scheduled[1],
        ScheduledCommand {
            at_tick: Tick(1500),
            command: WorldCommand::ConditionExpired { kind: TimedCondition::Fed, .. },
        }
    ));
    assert!(matches!(
        ctx.events.as_slice(),
        [BroadcastMessage::AgentActionMessage { position, message }]
            if *position == pos && message == "Munch."
    ));

    assert_eq!(eat(&mut ctx, player, 500), Ok(()));
    assert_eq!(ctx.scheduled.len(), 2);
    assert_eq!(
        ctx.map.map().get_agent(player).unwrap().conditions.fed(),
        Some((Tick(2000), generation))
    );
}

#[test]
fn who_is_full_or_gone_does_not_eat() {
    let (mut ctx, _, player) = a_world();
    assert_eq!(eat(&mut ctx, player, 24001), Err(ItemActionError::PlayerFull));
    assert_eq!(eat(&mut ctx, AgentKey(1 << 32 | 77), 5), Err(ItemActionError::InvalidState));
    assert!(ctx.scheduled.is_empty());

    let mut meal = a_meal(player, 5);
    let rules = game_config();
    eat_food(&mut ctx, &mut meal, Reply::Start, None, &rules);
    assert!(matches!(
        eat_food(&mut ctx, &mut meal, Reply::NotRemoved, None, &rules),
        Ask::Done(Err(ItemActionError::InvalidState))
    ));
    assert!(ctx.map.map().get_agent(player).unwrap().conditions.fed().is_none());
}

#[test]
fn an_action_goes_on_with_the_job_that_it_set_going() {
    let (mut ctx, pos, player) = a_world();
    let item = ItemRef { guid: ItemGuid(1), placement: ItemPlacement::Tile(pos) };
    let action = ItemAction::Transform { into: ItemId(7) };
    let mut job = ActionJob::new(&action, player, item, None, ItemGuid(50));

    assert!(matches!(
        route_action(&mut ctx, &mut job, Reply::Start, None, &game_config()),
        Ask::Done(Err(ItemActionError::ActionFailed))
    ));
}

fn a_use(ctx: &mut TickCtx, player: AgentKey, in_reach: bool, found: Option<UsedItem>) -> Option<ItemAction> {
    let item = ItemRef {
        guid: ItemGuid(1),
        placement: ItemPlacement::Tile(Position::new(10, 10, 7)),
    };
    use_item(ctx, player, item, in_reach, found)
}

fn denials(ctx: &TickCtx) -> Vec<String> {
    ctx.events
        .iter()
        .filter_map(|e| match e {
            BroadcastMessage::UseItemDenied { message, .. } => Some(message.clone()),
            _ => None,
        })
        .collect()
}

#[test]
fn a_use_is_refused_for_the_first_reason_that_holds() {
    let (mut ctx, _, player) = a_world();
    let dud = UsedItem { usable: false, container: false, action: None };

    assert_eq!(a_use(&mut ctx, player, false, Some(dud)), None);
    assert_eq!(a_use(&mut ctx, player, true, None), None);
    assert_eq!(a_use(&mut ctx, player, true, Some(dud)), None);
    ctx.map.agent_mut(player).unwrap().stamp_use(Tick(1001));
    assert_eq!(a_use(&mut ctx, player, false, None), None);

    assert_eq!(
        denials(&ctx),
        vec!["Item is too far", "Item was not found", "Can't use that", "Can't use that fast"]
    );
}

#[test]
fn a_container_is_opened_and_another_item_acts() {
    let (mut ctx, _, player) = a_world();
    let bag = UsedItem { usable: true, container: true, action: None };
    assert_eq!(a_use(&mut ctx, player, true, Some(bag)), None);
    assert!(matches!(ctx.events.as_slice(), [BroadcastMessage::OpenContainer { .. }]));

    let action = ItemAction::Door { new: ItemId(7) };
    let door = UsedItem { usable: true, container: false, action: Some(action) };
    assert_eq!(a_use(&mut ctx, player, true, Some(door)), Some(action));
    assert_eq!(ctx.events.len(), 1);
}

#[test]
fn a_use_ends_in_a_pause_or_in_a_refusal() {
    let (mut ctx, _, player) = a_world();
    let mark = ctx.mark();
    finish_use(&mut ctx, mark, player, Ok(()), &game_config());
    assert_eq!(ctx.map.map().get_agent(player).unwrap().next_use_tick, Tick(1004));
    assert!(ctx.map.delta().is_empty());

    ctx.tell(BroadcastMessage::LogoutDenied { agent_key: player });
    finish_use(&mut ctx, mark, player, Err(ItemActionError::InvalidState), &game_config());
    assert_eq!(denials(&ctx), vec!["Item cannot be used"]);
    assert_eq!(ctx.events.len(), 1, "what the failed use had reported is taken back");

    finish_use(&mut ctx, mark, player, Err(ItemActionError::PlayerFull), &game_config());
    assert_eq!(denials(&ctx), vec!["You're already full"]);
    use_item_failed(&mut ctx, mark, player, "No.");
    assert_eq!(denials(&ctx), vec!["No."]);
}

#[test]
fn an_action_error_says_what_is_wrong() {
    let texts: Vec<&str> = [
        ItemActionError::ActionFailed,
        ItemActionError::InvalidState,
        ItemActionError::NoTarget,
        ItemActionError::PlayerFull,
        ItemActionError::Reported,
    ]
    .iter()
    .map(|error| error.message())
    .collect();
    assert_eq!(
        texts,
        vec![
            "This item can't be used",
            "Invalid State",
            "No target",
            "You're already full",
            "Already reported",
        ]
    );
}
