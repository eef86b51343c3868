//! Using items: what a use does to the item, to the user and to the world, and items that decay.
//!
//! An item is taken from its place and put into one by whoever keeps the places. An action says
//! what it wants done next, is told how that went, and so goes on until it is over.

use crate::actors::world::{
    scheduled_views, CommandView, ScheduledCommand, ScheduledView, WorldCommand,
};
use crate::entities::agent::{AgentKey, AgentView};
use crate::entities::conditions::{
    condition_of, food_left, generation_of, generations_below, one_of_each, place_of, until_of,
    Condition, ConditionKind, TimedCondition,
};
use crate::entities::inventory::InventorySlot;
use crate::entities::item::{fresh_content, Item, ItemView};
use crate::entities::items::{
    ItemAction, ItemConfig, ItemFlag, ItemGuid, ItemPlacement, ItemRef,
};
use crate::entities::map::with_agent;
use crate::entities::position::Position;
use crate::entities::world_map::{fed_more, lemma_fed_more, WorldMapView};
use crate::game::conditions::{agent_of, condition_written, expiry_booked, schedule_expiry};
use crate::game::config::GameConfig;
use crate::game::ctx::{booked, marks, rolled_back, told, Mark, TickCtx, TickView};
use crate::game::events::{BroadcastMessage, EventView};
use crate::game::tick::{Tick, TickDelta};
use crate::messages::optional_view;
use crate::sharing::share;
use std::sync::Arc;
use vstd::prelude::*;

verus! {

/// Why an item does not do what it is used for.
#[derive(Debug, Clone, Copy, PartialEq, Eq, Structural)]
pub enum ItemActionError {
    ActionFailed,
    InvalidState,
    NoTarget,
    PlayerFull,
    Reported,
}

impl ItemActionError {
    pub open spec fn text(self) -> Seq<char> {
        match self {
            ItemActionError::ActionFailed => "This item can't be used"@,
            ItemActionError::InvalidState => "Invalid State"@,
            ItemActionError::NoTarget => "No target"@,
            ItemActionError::PlayerFull => "You're already full"@,
            ItemActionError::Reported => "Already reported"@,
        }
    }

    pub fn message(&self) -> (text: &'static str)
        ensures
            text@ == self.text(),
    {
        match self {
            ItemActionError::ActionFailed => "This item can't be used",
            ItemActionError::InvalidState => "Invalid State",
            ItemActionError::NoTarget => "No target",
            ItemActionError::PlayerFull => "You're already full",
            ItemActionError::Reported => "Already reported",
        }
    }
}

/// Why an item cannot be put into a place.
#[derive(Debug, Clone, Copy, PartialEq, Eq, Structural)]
pub enum ItemMovementError {
    /// It is too heavy for who would carry it.
    NotEnoughCap,
    PlayerDespawned,
    Refused,
}

/// With the decay of an item booked, where it decays.
pub open spec fn decay_booked(
    commands: Seq<ScheduledView>,
    item: ItemView,
    placement: ItemPlacement,
    now: Tick,
) -> Seq<ScheduledView> {
    match item.config.decay() {
        Some((duration, _)) => commands.push(
            ScheduledView {
                at_tick: Tick((now.0 + duration.0) as u64),
                command: CommandView::DecayItem { item: ItemRef { guid: item.guid, placement } },
            },
        ),
        None => commands,
    }
}

/// The decay of what is made of this does not lie beyond the end of time.
pub open spec fn decays_in_time(config: ItemConfig, now: Tick) -> bool {
    config.decay() matches Some((duration, _)) ==> now.0 + duration.0 <= u64::MAX
}

/// Books the decay of an item that decays.
pub fn check_decay(
    commands: &mut Vec<ScheduledCommand>,
    item: &Item,
    placement: ItemPlacement,
    current_tick: Tick,
)
    requires
        decays_in_time(item@.config, current_tick),
    ensures
        scheduled_views(final(commands)@) == decay_booked(
            scheduled_views(old(commands)@),
            item@,
            placement,
            current_tick,
        ),
{
    if let Some((duration, _)) = item.config.attr_decay() {
        let ghost before = scheduled_views(commands@);
        commands.push(
            ScheduledCommand {
                at_tick: current_tick.plus(duration),
                command: WorldCommand::DecayItem { item: ItemRef { guid: item.guid, placement } },
            },
        );
        assert(scheduled_views(commands@) =~= decay_booked(before, item@, placement, current_tick));
    }
}

/// What an item decays into: one of the other kind, filled with what it was filled with, and its
/// owner's still.
pub open spec fn decayed(item: ItemView, config: ItemConfig, guid: ItemGuid) -> ItemView {
    ItemView {
        guid,
        config,
        amount: 1,
        content: fresh_content(config),
        owner: item.owner,
        fluid: item.fluid,
    }
}

/// What an item decays into.
pub fn decayed_into(item: &Item, config: Arc<ItemConfig>, guid: ItemGuid) -> (next: Item)
    ensures
        next@ == decayed(item@, *config, guid),
{
    let mut next = match item.fluid {
        Some(fluid) => Item::new_fluid(config, fluid, guid),
        None => Item::new(config, 1, guid),
    };
    next.owner = item.owner;
    next
}

/// How far an action is.
#[derive(Debug, Clone, Copy, PartialEq, Eq, Structural)]
pub enum Stage {
    Idle,
    Removing,
    Placing,
    /// What does not fit where it was is put on the ground.
    Dropping,
    /// What was taken is put back.
    Restoring,
    Finished,
}

/// What an action wants done next.
#[derive(Debug)]
pub enum Ask {
    /// One of the item is to be taken from its place.
    Remove,
    Insert { item: Item, at: ItemPlacement, index: Option<usize> },
    Done(Result<(), ItemActionError>),
}

pub enum AskView {
    Remove,
    Insert { item: ItemView, at: ItemPlacement, index: Option<usize> },
    Done(Result<(), ItemActionError>),
}

impl View for Ask {
    type V = AskView;

    open spec fn view(&self) -> AskView {
        match *self {
            Ask::Remove => AskView::Remove,
            Ask::Insert { item, at, index } => AskView::Insert { item: item@, at, index },
            Ask::Done(r) => AskView::Done(r),
        }
    }
}

/// How it went.
#[derive(Debug)]
pub enum Reply {
    Start,
    Removed(Item, Option<usize>),
    NotRemoved,
    Inserted,
    NotInserted(ItemMovementError),
}

pub enum ReplyView {
    Start,
    Removed(ItemView, Option<usize>),
    NotRemoved,
    Inserted,
    NotInserted(ItemMovementError),
}

impl View for Reply {
    type V = ReplyView;

    open spec fn view(&self) -> ReplyView {
        match *self {
            Reply::Start => ReplyView::Start,
            Reply::Removed(item, index) => ReplyView::Removed(item@, index),
            Reply::NotRemoved => ReplyView::NotRemoved,
            Reply::Inserted => ReplyView::Inserted,
            Reply::NotInserted(error) => ReplyView::NotInserted(error),
        }
    }
}

/// An item that is being replaced by another.
#[derive(Debug)]
pub struct Replacement {
    pub item: ItemRef,
    /// What the new item is made of, where the catalogue has it.
    pub config: Option<Arc<ItemConfig>>,
    /// The guid that the new item gets.
    pub guid: ItemGuid,
    pub stage: Stage,
    pub new_item: Option<Item>,
    /// What was taken, and from which index.
    pub old_item: Option<Item>,
    pub index: Option<usize>,
}

#[verifier::ext_equal]
pub struct ReplacementView {
    pub item: ItemRef,
    pub config: Option<ItemConfig>,
    pub guid: ItemGuid,
    pub stage: Stage,
    pub new_item: Option<ItemView>,
    pub old_item: Option<ItemView>,
    pub index: Option<usize>,
}

pub open spec fn optional_item(item: Option<Item>) -> Option<ItemView> {
    match item {
        Some(item) => Some(item@),
        None => None,
    }
}

pub open spec fn optional_config(config: Option<Arc<ItemConfig>>) -> Option<ItemConfig> {
    match config {
        Some(config) => Some(*config),
        None => None,
    }
}

impl View for Replacement {
    type V = ReplacementView;

    open spec fn view(&self) -> ReplacementView {
        ReplacementView {
            item: self.item,
            config: optional_config(self.config),
            guid: self.guid,
            stage: self.stage,
            new_item: optional_item(self.new_item),
            old_item: optional_item(self.old_item),
            index: self.index,
        }
    }
}

/// The action is over.
pub open spec fn finished(w: TickView, job: ReplacementView, r: Result<(), ItemActionError>) -> (
    TickView,
    ReplacementView,
    AskView,
) {
    (w, ReplacementView { stage: Stage::Finished, ..job }, AskView::Done(r))
}

/// What was taken is to be put back where it was.
pub open spec fn restoring(w: TickView, job: ReplacementView) -> (TickView, ReplacementView, AskView) {
    match job.old_item {
        Some(old_item) => (
            w,
            ReplacementView { stage: Stage::Restoring, old_item: None, ..job },
            AskView::Insert { item: old_item, at: job.item.placement, index: job.index },
        ),
        None => finished(w, job, Err(ItemActionError::InvalidState)),
    }
}

/// A new item of a kind.
pub open spec fn brand_new(config: ItemConfig, guid: ItemGuid) -> ItemView {
    ItemView {
        guid,
        config,
        amount: 1,
        content: fresh_content(config),
        owner: None,
        fluid: None,
    }
}

/// What comes next of a transformation. The new item goes where the old one was; what is too
/// heavy to be carried falls to the ground; and where neither can be done the old item is put
/// back and the action has failed.
pub open spec fn transform_next(w: TickView, job: ReplacementView, reply: ReplyView) -> (
    TickView,
    ReplacementView,
    AskView,
) {
    match (job.stage, reply) {
        (Stage::Idle, ReplyView::Start) => match job.config {
            Some(_) => (w, ReplacementView { stage: Stage::Removing, ..job }, AskView::Remove),
            None => finished(w, job, Err(ItemActionError::ActionFailed)),
        },
        (Stage::Removing, ReplyView::NotRemoved) => finished(
            w,
            job,
            Err(ItemActionError::ActionFailed),
        ),
        (Stage::Removing, ReplyView::Removed(old_item, index)) => match job.config {
            Some(config) => {
                let new_item = brand_new(config, job.guid);
                (
                    TickView {
                        scheduled: decay_booked(
                            w.scheduled,
                            new_item,
                            job.item.placement,
                            w.tick,
                        ),
                        ..w
                    },
                    ReplacementView {
                        stage: Stage::Placing,
                        new_item: Some(new_item),
                        old_item: Some(old_item),
                        index,
                        ..job
                    },
                    AskView::Insert { item: new_item, at: job.item.placement, index },
                )
            },
            None => finished(w, job, Err(ItemActionError::InvalidState)),
        },
        (Stage::Placing, ReplyView::Inserted) => finished(w, job, Ok(())),
        (Stage::Placing, ReplyView::NotInserted(error)) => match (
            error,
            job.item.placement,
            job.new_item,
        ) {
            (
                ItemMovementError::NotEnoughCap,
                ItemPlacement::Inventory(_, key),
                Some(new_item),
            ) => if w.world.map.positions.contains_key(key.0) {
                (
                    w,
                    ReplacementView { stage: Stage::Dropping, new_item: None, ..job },
                    AskView::Insert {
                        item: new_item,
                        at: ItemPlacement::Tile(w.world.map.positions[key.0]),
                        index: None,
                    },
                )
            } else {
                restoring(w, job)
            },
            _ => restoring(w, job),
        },
        (Stage::Dropping, ReplyView::Inserted) => finished(w, job, Ok(())),
        (Stage::Dropping, ReplyView::NotInserted(_)) => restoring(w, job),
        (Stage::Restoring, ReplyView::Inserted) => finished(
            w,
            job,
            Err(ItemActionError::ActionFailed),
        ),
        (Stage::Restoring, ReplyView::NotInserted(_)) => finished(
            w,
            job,
            Err(ItemActionError::ActionFailed),
        ),
        _ => finished(w, job, Err(ItemActionError::InvalidState)),
    }
}

impl Replacement {
    fn finish(&mut self, r: Result<(), ItemActionError>) -> (ask: Ask)
        ensures
            final(self)@ == (ReplacementView { stage: Stage::Finished, ..old(self)@ }),
            ask@ == AskView::Done(r),
    {
        self.stage = Stage::Finished;
        Ask::Done(r)
    }

    fn restore(&mut self) -> (ask: Ask)
        ensures
            forall|w: TickView| #[trigger]
                restoring(w, old(self)@) == (w, final(self)@, ask@),
    {
        match self.old_item.take() {
            Some(item) => {
                self.stage = Stage::Restoring;
                Ask::Insert { item, at: self.item.placement.copy(), index: self.index }
            },
            None => self.finish(Err(ItemActionError::InvalidState)),
        }
    }
}

/// Goes on with a transformation.
pub fn transform(ctx: &mut TickCtx, job: &mut Replacement, reply: Reply) -> (ask: Ask)
    requires
        old(ctx).wf(),
        old(job).config matches Some(config) ==> decays_in_time(*config, old(ctx).tick),
    ensures
        final(ctx).wf(),
        (final(ctx)@, final(job)@, ask@) == transform_next(old(ctx)@, old(job)@, reply@),
{
    match (job.stage, reply) {
        (Stage::Idle, Reply::Start) => {
            if job.config.is_none() {
                return job.finish(Err(ItemActionError::ActionFailed));
            }
            job.stage = Stage::Removing;
            Ask::Remove
        },
        (Stage::Removing, Reply::NotRemoved) => job.finish(Err(ItemActionError::ActionFailed)),
        (Stage::Removing, Reply::Removed(old_item, index)) => {
            let new_item: Item = match &job.config {
                Some(config) => Item::new(share(config), 1, job.guid),
                None => return job.finish(Err(ItemActionError::InvalidState)),
            };
            let tick: Tick = ctx.tick;
            check_decay(&mut ctx.scheduled, &new_item, job.item.placement.copy(), tick);
            let ask = Ask::Insert {
                item: new_item.copy(),
                at: job.item.placement.copy(),
                index,
            };
            job.stage = Stage::Placing;
            job.new_item = Some(new_item);
            job.old_item = Some(old_item);
            job.index = index;
            ask
        },
        (Stage::Placing, Reply::Inserted) => job.finish(Ok(())),
        (Stage::Placing, Reply::NotInserted(error)) => {
            let ground: Option<Position> = match (error, &job.item.placement) {
                (ItemMovementError::NotEnoughCap, ItemPlacement::Inventory(_, key)) => {
                    ctx.map.map().agent_position(*key)
                },
                _ => None,
            };
            if let Some(pos) = ground {
                if let Some(item) = job.new_item.take() {
                    job.stage = Stage::Dropping;
                    return Ask::Insert { item, at: ItemPlacement::Tile(pos), index: None };
                }
            }
            job.restore()
        },
        (Stage::Dropping, Reply::Inserted) => job.finish(Ok(())),
        (Stage::Dropping, Reply::NotInserted(_)) => job.restore(),
        (Stage::Restoring, Reply::Inserted) => job.finish(Err(ItemActionError::ActionFailed)),
        (Stage::Restoring, Reply::NotInserted(_)) => job.finish(
            Err(ItemActionError::ActionFailed),
        ),
        _ => job.finish(Err(ItemActionError::InvalidState)),
    }
}

/// A door has been put into its place, and whether the tile it stands on is there.
pub open spec fn door_set(w: TickView, job: ReplacementView) -> (TickView, ReplacementView, AskView) {
    match job.item.placement {
        ItemPlacement::Tile(pos) => if w.world.map.tiles.contains_key(pos) {
            finished(w, job, Ok(()))
        } else {
            finished(w, job, Err(ItemActionError::InvalidState))
        },
        _ => finished(w, job, Err(ItemActionError::InvalidState)),
    }
}

/// What comes next of opening or closing a door. A door stands on a tile; where the other door
/// cannot be put there the first one is put back.
pub open spec fn door_next(w: TickView, job: ReplacementView, reply: ReplyView) -> (
    TickView,
    ReplacementView,
    AskView,
) {
    match (job.stage, reply) {
        (Stage::Idle, ReplyView::Start) => if job.config is None {
            finished(w, job, Err(ItemActionError::ActionFailed))
        } else if !(job.item.placement is Tile) {
            finished(w, job, Err(ItemActionError::InvalidState))
        } else {
            (w, ReplacementView { stage: Stage::Removing, ..job }, AskView::Remove)
        },
        (Stage::Removing, ReplyView::NotRemoved) => finished(
            w,
            job,
            Err(ItemActionError::ActionFailed),
        ),
        (Stage::Removing, ReplyView::Removed(old_item, index)) => match job.config {
            Some(config) => (
                w,
                ReplacementView {
                    stage: Stage::Placing,
                    old_item: Some(old_item),
                    index,
                    ..job
                },
                AskView::Insert {
                    item: brand_new(config, job.guid),
                    at: job.item.placement,
                    index,
                },
            ),
            None => finished(w, job, Err(ItemActionError::InvalidState)),
        },
        (Stage::Placing, ReplyView::Inserted) => door_set(w, job),
        (Stage::Placing, ReplyView::NotInserted(_)) => restoring(w, job),
        (Stage::Restoring, ReplyView::Inserted) => door_set(w, job),
        _ => finished(w, job, Err(ItemActionError::InvalidState)),
    }
}

/// Goes on with opening or closing a door.
pub fn toggle_door(ctx: &mut TickCtx, job: &mut Replacement, reply: Reply) -> (ask: Ask)
    requires
        old(ctx).wf(),
    ensures
        final(ctx).wf(),
        (final(ctx)@, final(job)@, ask@) == door_next(old(ctx)@, old(job)@, reply@),
{
    match (job.stage, reply) {
        (Stage::Idle, Reply::Start) => {
            if job.config.is_none() {
                return job.finish(Err(ItemActionError::ActionFailed));
            }
            match &job.item.placement {
                ItemPlacement::Tile(_) => {},
                _ => return job.finish(Err(ItemActionError::InvalidState)),
            }
            job.stage = Stage::Removing;
            Ask::Remove
        },
        (Stage::Removing, Reply::NotRemoved) => job.finish(Err(ItemActionError::ActionFailed)),
        (Stage::Removing, Reply::Removed(old_item, index)) => {
            let item: Item = match &job.config {
                Some(config) => Item::new(share(config), 1, job.guid),
                None => return job.finish(Err(ItemActionError::InvalidState)),
            };
            job.stage = Stage::Placing;
            job.old_item = Some(old_item);
            job.index = index;
            Ask::Insert { item, at: job.item.placement.copy(), index }
        },
        (Stage::Placing, Reply::NotInserted(_)) => job.restore(),
        (Stage::Placing, Reply::Inserted) | (Stage::Restoring, Reply::Inserted) => {
            let there: bool = match &job.item.placement {
                ItemPlacement::Tile(pos) => ctx.map.map().contains_tile(pos),
                _ => false,
            };
            if there {
                job.finish(Ok(()))
            } else {
                job.finish(Err(ItemActionError::InvalidState))
            }
        },
        _ => job.finish(Err(ItemActionError::InvalidState)),
    }
}

/// What comes next of a decay. `found` is the item as it lies there. Where the new item cannot be
/// put in its place, the item is put back and nothing of the decay is reported or booked.
pub open spec fn decay_next(
    w: TickView,
    job: ReplacementView,
    found: Option<ItemView>,
    mark: Mark,
    reply: ReplyView,
) -> (TickView, ReplacementView, AskView) {
    match (job.stage, reply) {
        (Stage::Idle, ReplyView::Start) => match (found, job.config) {
            (Some(item), Some(config)) => if item.config.decay() is None {
                finished(w, job, Ok(()))
            } else {
                let new_item = decayed(item, config, job.guid);
                (
                    TickView {
                        scheduled: decay_booked(
                            w.scheduled,
                            new_item,
                            job.item.placement,
                            w.tick,
                        ),
                        ..w
                    },
                    ReplacementView {
                        stage: Stage::Removing,
                        new_item: Some(new_item),
                        ..job
                    },
                    AskView::Remove,
                )
            },
            _ => finished(w, job, Ok(())),
        },
        (Stage::Removing, ReplyView::NotRemoved) => finished(rolled_back(w, mark), job, Ok(())),
        (Stage::Removing, ReplyView::Removed(old_item, index)) => match job.new_item {
            Some(new_item) => (
                w,
                ReplacementView {
                    stage: Stage::Placing,
                    new_item: None,
                    old_item: Some(old_item),
                    index,
                    ..job
                },
                AskView::Insert { item: new_item, at: job.item.placement, index },
            ),
            None => finished(w, job, Err(ItemActionError::InvalidState)),
        },
        (Stage::Placing, ReplyView::Inserted) => finished(w, job, Ok(())),
        (Stage::Placing, ReplyView::NotInserted(_)) => restoring(w, job),
        (Stage::Restoring, ReplyView::Inserted) => finished(rolled_back(w, mark), job, Ok(())),
        (Stage::Restoring, ReplyView::NotInserted(_)) => finished(
            rolled_back(w, mark),
            job,
            Ok(()),
        ),
        _ => finished(w, job, Err(ItemActionError::InvalidState)),
    }
}

/// Goes on with the decay of an item.
pub fn decay_item(
    ctx: &mut TickCtx,
    job: &mut Replacement,
    found: Option<&Item>,
    mark: Mark,
    reply: Reply,
) -> (ask: Ask)
    requires
        old(ctx).wf(),
        marks(old(ctx)@, mark),
        old(job).config matches Some(config) ==> decays_in_time(*config, old(ctx).tick),
    ensures
        final(ctx).wf(),
        (final(ctx)@, final(job)@, ask@) == decay_next(
            old(ctx)@,
            old(job)@,
            match found {
                Some(item) => Some(item@),
                None => None,
            },
            mark,
            reply@,
        ),
{
    match (job.stage, reply) {
        (Stage::Idle, Reply::Start) => {
            let new_item: Item = match (found, &job.config) {
                (Some(item), Some(config)) => {
                    if item.config.attr_decay().is_none() {
                        return job.finish(Ok(()));
                    }
                    decayed_into(item, share(config), job.guid)
                },
                _ => return job.finish(Ok(())),
            };
            let tick: Tick = ctx.tick;
            check_decay(&mut ctx.scheduled, &new_item, job.item.placement.copy(), tick);
            job.stage = Stage::Removing;
            job.new_item = Some(new_item);
            Ask::Remove
        },
        (Stage::Removing, Reply::NotRemoved) => {
            ctx.rollback_to(mark);
            job.finish(Ok(()))
        },
        (Stage::Removing, Reply::Removed(old_item, index)) => match job.new_item.take() {
            Some(item) => {
                job.stage = Stage::Placing;
                job.old_item = Some(old_item);
                job.index = index;
                Ask::Insert { item, at: job.item.placement.copy(), index }
            },
            None => job.finish(Err(ItemActionError::InvalidState)),
        },
        (Stage::Placing, Reply::Inserted) => job.finish(Ok(())),
        (Stage::Placing, Reply::NotInserted(_)) => job.restore(),
        (Stage::Restoring, Reply::Inserted) | (Stage::Restoring, Reply::NotInserted(_)) => {
            ctx.rollback_to(mark);
            job.finish(Ok(()))
        },
        _ => job.finish(Err(ItemActionError::InvalidState)),
    }
}

/// A meal that is being eaten.
#[derive(Debug, Clone, Copy, PartialEq, Eq, Structural)]
pub struct Meal {
    pub eater: AgentKey,
    pub duration: TickDelta,
    pub stage: Stage,
    /// Where the eater was when it began.
    pub position: Position,
    /// The generation of the meal that the eater still lives on.
    pub old_generation: Option<u32>,
}

/// The generation of the meal that an agent still lives on.
pub open spec fn live_meal(a: AgentView, now: Tick) -> Option<u32> {
    match condition_of(a.conditions, ConditionKind::Fed) {
        Some(Condition::Fed { until, generation }) => if until.0 > now.0 {
            Some(generation)
        } else {
            None
        },
        _ => None,
    }
}

/// The world once a meal is eaten. A first meal starts regeneration and the wait for its end; one
/// on top of another only lasts longer.
pub open spec fn meal_eaten(
    w: TickView,
    meal: Meal,
    message: Option<Seq<char>>,
    config: GameConfig,
) -> TickView {
    let a = w.world.map.agents[meal.eater.0];
    let (after, generation) = fed_more(a, w.tick, meal.duration);
    let fed = condition_written(w, meal.eater, a, after);
    let running = if Some(generation) != meal.old_generation {
        expiry_booked(
            booked(
                fed,
                ScheduledView {
                    at_tick: Tick((w.tick.0 + config.regen_ticks.0) as u64),
                    command: CommandView::RegeneratePlayer { agent_key: meal.eater, generation },
                },
            ),
            meal.eater,
            TimedCondition::Fed,
        )
    } else {
        fed
    };
    match message {
        Some(message) => told(
            running,
            EventView::AgentActionMessage { position: meal.position, message },
        ),
        None => running,
    }
}

/// What comes next of a meal. Who is full does not eat, and the food is gone before it feeds.
pub open spec fn meal_next(
    w: TickView,
    meal: Meal,
    reply: ReplyView,
    message: Option<Seq<char>>,
    config: GameConfig,
) -> (TickView, Meal, AskView) {
    let over = Meal { stage: Stage::Finished, ..meal };
    match (meal.stage, reply) {
        (Stage::Idle, ReplyView::Start) => match agent_of(w, meal.eater) {
            None => (w, over, AskView::Done(Err(ItemActionError::InvalidState))),
            Some(a) => if food_left(a.conditions, w.tick) + meal.duration.0
                > config.max_fed_ticks.0 {
                (w, over, AskView::Done(Err(ItemActionError::PlayerFull)))
            } else if !w.world.map.positions.contains_key(meal.eater.0) {
                (w, over, AskView::Done(Err(ItemActionError::InvalidState)))
            } else {
                (
                    w,
                    Meal {
                        stage: Stage::Removing,
                        position: w.world.map.positions[meal.eater.0],
                        old_generation: live_meal(a, w.tick),
                        ..meal
                    },
                    AskView::Remove,
                )
            },
        },
        (Stage::Removing, ReplyView::Removed(_, _)) => (
            meal_eaten(w, meal, message, config),
            over,
            AskView::Done(Ok(())),
        ),
        _ => (w, over, AskView::Done(Err(ItemActionError::InvalidState))),
    }
}

/// The eater can be fed on: its conditions and the ticks that a meal reckons with can be counted.
pub open spec fn feedable(w: TickView, meal: Meal, config: GameConfig) -> bool {
    &&& w.tick.0 + config.regen_ticks.0 <= u64::MAX
    &&& w.tick.0 + meal.duration.0 <= u64::MAX
    &&& agent_of(w, meal.eater) matches Some(a) ==> {
        &&& a.next_generation < u32::MAX
        &&& food_left(a.conditions, w.tick) + meal.duration.0 <= u64::MAX
        &&& until_of(condition_of(a.conditions, ConditionKind::Fed)) matches Some(until) ==> until.0
            + meal.duration.0 <= u64::MAX
    }
}

/// Goes on with a meal. `message` is what the eater says of it.
pub fn eat_food(
    ctx: &mut TickCtx,
    meal: &mut Meal,
    reply: Reply,
    message: Option<String>,
    config: &GameConfig,
) -> (ask: Ask)
    requires
        old(ctx).wf(),
        feedable(old(ctx)@, *old(meal), *config),
        old(meal).stage is Removing ==> agent_of(old(ctx)@, old(meal).eater) is Some,
    ensures
        final(ctx).wf(),
        (final(ctx)@, *final(meal), ask@) == meal_next(
            old(ctx)@,
            *old(meal),
            reply@,
            optional_view(message),
            *config,
        ),
{
    match (meal.stage, reply) {
        (Stage::Idle, Reply::Start) => {
            meal.stage = Stage::Finished;
            let agent = match ctx.map.map().get_agent(meal.eater) {
                Some(agent) => agent,
                None => return Ask::Done(Err(ItemActionError::InvalidState)),
            };
            if !agent.conditions.can_feed(ctx.tick, meal.duration, config) {
                return Ask::Done(Err(ItemActionError::PlayerFull));
            }
            let position: Position = match ctx.map.map().agent_position(meal.eater) {
                Some(position) => position,
                None => return Ask::Done(Err(ItemActionError::InvalidState)),
            };
            meal.old_generation = match agent.conditions.fed() {
                Some((until, generation)) => if until.0 > ctx.tick.0 {
                    Some(generation)
                } else {
                    None
                },
                None => None,
            };
            meal.position = position;
            meal.stage = Stage::Removing;
            Ask::Remove
        },
        (Stage::Removing, Reply::Removed(_, _)) => {
            meal.stage = Stage::Finished;
            let tick: Tick = ctx.tick;
            let generation: u32 = match ctx.map.agent_mut(meal.eater) {
                Some(mut agent) => agent.add_fed_ticks(tick, meal.duration),
                None => return Ask::Done(Err(ItemActionError::InvalidState)),
            };
            let resumed: bool = match meal.old_generation {
                Some(old_generation) => old_generation == generation,
                None => false,
            };
            if !resumed {
                let at_tick: Tick = ctx.tick.plus(config.regen_ticks);
                ctx.book(
                    at_tick,
                    WorldCommand::RegeneratePlayer { agent_key: meal.eater, generation },
                );
                schedule_expiry(ctx, meal.eater, TimedCondition::Fed);
            }
            if let Some(message) = message {
                ctx.tell(
                    BroadcastMessage::AgentActionMessage { position: meal.position, message },
                );
            }
            Ask::Done(Ok(()))
        },
        _ => {
            meal.stage = Stage::Finished;
            Ask::Done(Err(ItemActionError::InvalidState))
        },
    }
}

/// What the use of an item has set going.
#[derive(Debug)]
pub enum ActionJob {
    Transform(Replacement),
    Door(Replacement),
    Food(Meal),
}

pub enum ActionView {
    Transform(ReplacementView),
    Door(ReplacementView),
    Food(Meal),
}

impl View for ActionJob {
    type V = ActionView;

    open spec fn view(&self) -> ActionView {
        match *self {
            ActionJob::Transform(job) => ActionView::Transform(job@),
            ActionJob::Door(job) => ActionView::Door(job@),
            ActionJob::Food(meal) => ActionView::Food(meal),
        }
    }
}

/// A replacement that has not begun.
pub open spec fn unstarted(item: ItemRef, config: Option<ItemConfig>, guid: ItemGuid) -> ReplacementView {
    ReplacementView {
        item,
        config,
        guid,
        stage: Stage::Idle,
        new_item: None,
        old_item: None,
        index: None,
    }
}

impl ActionJob {
    /// What an action sets going, where `config` is what the catalogue has for the item that it
    /// makes, and `guid` the one that it gets.
    pub fn new(
        action: &ItemAction,
        agent_key: AgentKey,
        item: ItemRef,
        config: Option<Arc<ItemConfig>>,
        guid: ItemGuid,
    ) -> (job: ActionJob)
        ensures
            job@ == match *action {
                ItemAction::Transform { .. } => ActionView::Transform(
                    unstarted(item, optional_config(config), guid),
                ),
                ItemAction::Door { .. } => ActionView::Door(
                    unstarted(item, optional_config(config), guid),
                ),
                ItemAction::Food { duration, .. } => ActionView::Food(
                    Meal {
                        eater: agent_key,
                        duration,
                        stage: Stage::Idle,
                        position: Position { x: 0, y: 0, z: 0 },
                        old_generation: None,
                    },
                ),
            },
    {
        let job = Replacement {
            item,
            config,
            guid,
            stage: Stage::Idle,
            new_item: None,
            old_item: None,
            index: None,
        };
        match action {
            ItemAction::Transform { .. } => ActionJob::Transform(job),
            ItemAction::Door { .. } => ActionJob::Door(job),
            ItemAction::Food { duration, .. } => ActionJob::Food(
                Meal {
                    eater: agent_key,
                    duration: *duration,
                    stage: Stage::Idle,
                    position: Position { x: 0, y: 0, z: 0 },
                    old_generation: None,
                },
            ),
        }
    }
}

/// What comes next of an action.
pub open spec fn action_next(
    w: TickView,
    job: ActionView,
    reply: ReplyView,
    message: Option<Seq<char>>,
    config: GameConfig,
) -> (TickView, ActionView, AskView) {
    match job {
        ActionView::Transform(job) => {
            let (after, later, ask) = transform_next(w, job, reply);
            (after, ActionView::Transform(later), ask)
        },
        ActionView::Door(job) => {
            let (after, later, ask) = door_next(w, job, reply);
            (after, ActionView::Door(later), ask)
        },
        ActionView::Food(meal) => {
            let (after, later, ask) = meal_next(w, meal, reply, message, config);
            (after, ActionView::Food(later), ask)
        },
    }
}

/// The ticks that an action reckons with can be counted, and who eats is there.
pub open spec fn actionable(w: TickView, job: ActionView, config: GameConfig) -> bool {
    match job {
        ActionView::Transform(job) => job.config matches Some(made) ==> decays_in_time(
            made,
            w.tick,
        ),
        ActionView::Door(_) => true,
        ActionView::Food(meal) => feedable(w, meal, config) && (meal.stage is Removing ==> agent_of(
            w,
            meal.eater,
        ) is Some),
    }
}

/// Goes on with an action.
pub fn route_action(
    ctx: &mut TickCtx,
    job: &mut ActionJob,
    reply: Reply,
    message: Option<String>,
    config: &GameConfig,
) -> (ask: Ask)
    requires
        old(ctx).wf(),
        actionable(old(ctx)@, old(job)@, *config),
    ensures
        final(ctx).wf(),
        (final(ctx)@, final(job)@, ask@) == action_next(
            old(ctx)@,
            old(job)@,
            reply@,
            optional_view(message),
            *config,
        ),
{
    match job {
        ActionJob::Transform(job) => transform(ctx, job, reply),
        ActionJob::Door(job) => toggle_door(ctx, job, reply),
        ActionJob::Food(meal) => eat_food(ctx, meal, reply, message, config),
    }
}

/// What is known of an item that is to be used.
#[derive(Debug, Clone, Copy, PartialEq, Eq, Structural)]
pub struct UsedItem {
    pub usable: bool,
    pub container: bool,
    pub action: Option<ItemAction>,
}

/// A use that is refused: what it had reported and booked is taken back, and the refusal reported
/// in its place.
pub open spec fn use_refused(w: TickView, mark: Mark, key: AgentKey, message: Seq<char>) -> TickView {
    told(rolled_back(w, mark), EventView::UseItemDenied { agent_key: key, message })
}

/// Takes back what a half-finished use has reported and booked, and reports the refusal in its
/// place.
pub fn use_item_failed(ctx: &mut TickCtx, mark: Mark, agent_key: AgentKey, message: &str)
    requires
        old(ctx).wf(),
        marks(old(ctx)@, mark),
    ensures
        final(ctx).wf(),
        final(ctx)@ == use_refused(old(ctx)@, mark, agent_key, message@),
{
    ctx.rollback_to(mark);
    ctx.tell(BroadcastMessage::UseItemDenied { agent_key, message: message.to_owned() });
}

/// Why a use is refused before anything is done, where it is.
pub open spec fn use_refusal(w: TickView, key: AgentKey, in_reach: bool, found: Option<UsedItem>) -> Option<
    Seq<char>,
> {
    if agent_of(w, key) matches Some(a) && a.next_use_tick.0 > w.tick.0 {
        Some("Can't use that fast"@)
    } else if !w.world.map.positions.contains_key(key.0) || !in_reach {
        Some("Item is too far"@)
    } else {
        match found {
            None => Some("Item was not found"@),
            Some(item) => if item.usable {
                None
            } else {
                Some("Can't use that"@)
            },
        }
    }
}

/// What a use comes to before its action, and the action.
pub open spec fn using(
    w: TickView,
    key: AgentKey,
    item: ItemRef,
    in_reach: bool,
    found: Option<UsedItem>,
) -> (TickView, Option<ItemAction>) {
    match use_refusal(w, key, in_reach, found) {
        Some(message) => (told(w, EventView::UseItemDenied { agent_key: key, message }), None),
        None => if found.unwrap().container {
            (told(w, EventView::OpenContainer { agent_key: key, item }), None)
        } else {
            (w, found.unwrap().action)
        },
    }
}

/// Uses an item. `in_reach` says whether the item is next to who uses it, and `found` what is
/// known of it where it is there. A container is opened; any other item has an action or none,
/// which is handed back. `finish_use` ends the use once the action is over.
pub fn use_item(
    ctx: &mut TickCtx,
    agent_key: AgentKey,
    item_ref: ItemRef,
    in_reach: bool,
    found: Option<UsedItem>,
) -> (action: Option<ItemAction>)
    requires
        old(ctx).wf(),
    ensures
        final(ctx).wf(),
        (final(ctx)@, action) == using(old(ctx)@, agent_key, item_ref, in_reach, found),
{
    let mark = ctx.mark();
    let too_soon: bool = match ctx.map.map().get_agent(agent_key) {
        Some(agent) => agent.next_use_tick.0 > ctx.tick.0,
        None => false,
    };
    if too_soon {
        use_item_failed(ctx, mark, agent_key, "Can't use that fast");
        return None;
    }
    if ctx.map.map().agent_position(agent_key).is_none() || !in_reach {
        use_item_failed(ctx, mark, agent_key, "Item is too far");
        return None;
    }
    let item: UsedItem = match found {
        Some(item) => item,
        None => {
            use_item_failed(ctx, mark, agent_key, "Item was not found");
            return None;
        },
    };
    if !item.usable {
        use_item_failed(ctx, mark, agent_key, "Can't use that");
        return None;
    }
    if item.container {
        ctx.tell(BroadcastMessage::OpenContainer { agent_key, item: item_ref });
        return None;
    }
    item.action
}

/// How a failed action is reported.
pub open spec fn failure_text(error: ItemActionError) -> Seq<char> {
    match error {
        ItemActionError::InvalidState => "Item cannot be used"@,
        _ => error.text(),
    }
}

/// What the end of a use comes to.
pub open spec fn use_over(
    w: TickView,
    mark: Mark,
    key: AgentKey,
    r: Result<(), ItemActionError>,
    config: GameConfig,
) -> TickView {
    match r {
        Ok(_) => TickView {
            world: WorldMapView {
                map: with_agent(
                    w.world.map,
                    key,
                    AgentView {
                        next_use_tick: Tick((w.tick.0 + config.use_item_cooldown_ticks.0) as u64),
                        ..w.world.map.agents[key.0]
                    },
                ),
                ..w.world
            },
            ..w
        },
        Err(error) => use_refused(w, mark, key, failure_text(error)),
    }
}

/// Ends a use: the user has to wait a little, or the failure is reported in place of all that the
/// action had reported and booked since `mark`.
pub fn finish_use(
    ctx: &mut TickCtx,
    mark: Mark,
    agent_key: AgentKey,
    r: Result<(), ItemActionError>,
    config: &GameConfig,
)
    requires
        old(ctx).wf(),
        marks(old(ctx)@, mark),
        old(ctx).tick.0 + config.use_item_cooldown_ticks.0 <= u64::MAX,
        r is Ok ==> agent_of(old(ctx)@, agent_key) is Some,
    ensures
        final(ctx).wf(),
        final(ctx)@ == use_over(old(ctx)@, mark, agent_key, r, *config),
{
    match r {
        Ok(()) => {
            let until: Tick = ctx.tick.plus(config.use_item_cooldown_ticks);
            if let Some(mut agent) = ctx.map.agent_mut(agent_key) {
                agent.stamp_use(until);
            }
        },
        Err(error) => {
            let message: &str = match error {
                ItemActionError::InvalidState => "Item cannot be used",
                _ => error.message(),
            };
            use_item_failed(ctx, mark, agent_key, message);
        },
    }
}

/// An item whose kind is not in the catalogue is refused before anything is touched: the world
/// stays as it is and no item is taken.
pub proof fn law_a_replacement_by_nothing_is_refused(w: TickView, job: ReplacementView)
    requires
        job.stage is Idle,
        job.config is None,
    ensures
        transform_next(w, job, ReplyView::Start).0 == w,
        transform_next(w, job, ReplyView::Start).2 == AskView::Done(
            Err(ItemActionError::ActionFailed),
        ),
        door_next(w, job, ReplyView::Start).0 == w,
        door_next(w, job, ReplyView::Start).2 == AskView::Done(Err(ItemActionError::ActionFailed)),
{
}

/// No replacement loses the item that it took. Where the new item was not put in its place, the
/// next thing asked for is that the new item be put on the ground or that the old one be put back
/// where it was.
pub proof fn law_a_taken_item_is_put_back(
    w: TickView,
    job: ReplacementView,
    old_item: ItemView,
    error: ItemMovementError,
    found: Option<ItemView>,
    mark: Mark,
)
    requires
        job.stage is Placing || job.stage is Dropping,
        job.old_item == Some(old_item),
    ensures
        ({
            let reply = ReplyView::NotInserted(error);
            let back = AskView::Insert {
                item: old_item,
                at: job.item.placement,
                index: job.index,
            };
            let (_, later, ask) = transform_next(w, job, reply);
            &&& ask == back || {
                &&& later.stage is Dropping
                &&& later.old_item == Some(old_item)
                &&& ask matches AskView::Insert { item, .. }
                &&& job.new_item == Some(item)
            }
            &&& job.stage is Placing ==> door_next(w, job, reply).2 == back
            &&& job.stage is Placing ==> decay_next(w, job, found, mark, reply).2 == back
        }),
{
}

/// A decay that does not come about leaves nothing reported or booked: what was there at its
/// start is there at its end.
pub proof fn law_a_failed_decay_leaves_no_trace(
    w: TickView,
    job: ReplacementView,
    found: Option<ItemView>,
    mark: Mark,
)
    requires
        job.stage is Idle,
        marks(w, mark),
        rolled_back(w, mark) == w,
    ensures
        ({
            let (started, removing, _) = decay_next(w, job, found, mark, ReplyView::Start);
            removing.stage is Removing ==> decay_next(
                started,
                removing,
                found,
                mark,
                ReplyView::NotRemoved,
            ).0 == w
        }),
{
    let (started, removing, _) = decay_next(w, job, found, mark, ReplyView::Start);
    assert(w.scheduled.take(mark.scheduled as int) =~= w.scheduled);
    assert(mark.scheduled == w.scheduled.len());
    if removing.stage is Removing {
        assert(started.scheduled.take(mark.scheduled as int) =~= w.scheduled);
        assert(rolled_back(started, mark) =~= w);
    }
}

/// A use that fails leaves behind one refusal and nothing else.
pub proof fn law_a_failed_use_reports_only_the_refusal(
    w: TickView,
    mark: Mark,
    key: AgentKey,
    error: ItemActionError,
    config: GameConfig,
)
    requires
        marks(w, mark),
    ensures
        ({
            let after = use_over(w, mark, key, Err(error), config);
            &&& after.events.len() == mark.events + 1
            &&& after.events.drop_last() == w.events.take(mark.events as int)
            &&& after.events.last() is UseItemDenied
            &&& after.scheduled == w.scheduled.take(mark.scheduled as int)
        }),
{
    let after = use_over(w, mark, key, Err(error), config);
    assert(after.events.drop_last() =~= w.events.take(mark.events as int));
}

/// What is made in the place of an item: one of the kind it was to become, with the guid kept for
/// it, of nobody, filled with nothing, and empty where it holds others.
pub open spec fn is_new(item: ItemView, kind: ItemConfig, guid: ItemGuid) -> bool {
    &&& item.config == kind
    &&& item.guid == guid
    &&& item.amount == 1
    &&& item.owner is None
    &&& item.fluid is None
    &&& kind.flagged(ItemFlag::Container) ==> item.content == Some(Seq::<ItemView>::empty())
    &&& !kind.flagged(ItemFlag::Container) ==> item.content is None
}

/// With the decay of an item of this kind and guid booked for when it has lasted, where it decays.
pub open spec fn books_decay(
    before: Seq<ScheduledView>,
    after: Seq<ScheduledView>,
    kind: ItemConfig,
    guid: ItemGuid,
    placement: ItemPlacement,
    now: Tick,
) -> bool {
    match kind.decay() {
        None => after == before,
        Some((lasts, _)) => {
            &&& after.len() == before.len() + 1
            &&& after.drop_last() == before
            &&& after.last().at_tick.0 == (now.0 + lasts.0) as u64
            &&& after.last().command matches CommandView::DecayItem { item } && item.guid == guid
                && item.placement == placement
        },
    }
}

/// A transformed item is replaced where it was: one of it is taken, and a new item of the other
/// kind is put into the very place it came from, which decays in its own time. That done, the
/// transformation is over and was a success.
pub proof fn law_a_transformed_item_is_replaced_where_it_was(
    w: TickView,
    item: ItemRef,
    kind: ItemConfig,
    guid: ItemGuid,
    old_item: ItemView,
    index: Option<usize>,
)
    ensures
        ({
            let (begun, taking, first) = transform_next(
                w,
                unstarted(item, Some(kind), guid),
                ReplyView::Start,
            );
            let (made, placing, second) = transform_next(
                begun,
                taking,
                ReplyView::Removed(old_item, index),
            );
            let (ended, _, third) = transform_next(made, placing, ReplyView::Inserted);
            &&& begun == w && first is Remove
            &&& second matches AskView::Insert { item: new_item, at, index: to } && is_new(
                new_item,
                kind,
                guid,
            ) && at == item.placement && to == index
            &&& made.world == w.world && made.events == w.events
            &&& books_decay(w.scheduled, made.scheduled, kind, guid, item.placement, w.tick)
            &&& ended == made && third == AskView::Done(Ok(()))
        }),
{
    let (made, _, _) = transform_next(
        w,
        transform_next(w, unstarted(item, Some(kind), guid), ReplyView::Start).1,
        ReplyView::Removed(old_item, index),
    );
    if kind.decay() is Some {
        assert(made.scheduled.drop_last() =~= w.scheduled);
    }
}

/// What is too heavy for whoever carries it falls to the tile that they stand on.
pub proof fn law_what_is_too_heavy_falls_to_the_ground(
    w: TickView,
    job: ReplacementView,
    new_item: ItemView,
    slot: InventorySlot,
    carrier: AgentKey,
)
    requires
        job.stage is Placing,
        job.new_item == Some(new_item),
        job.item.placement == ItemPlacement::Inventory(slot, carrier),
        w.world.map.positions.contains_key(carrier.0),
    ensures
        ({
            let (later, dropping, ask) = transform_next(
                w,
                job,
                ReplyView::NotInserted(ItemMovementError::NotEnoughCap),
            );
            &&& later == w
            &&& ask matches AskView::Insert { item, at, index } && item == new_item && at
                == ItemPlacement::Tile(w.world.map.positions[carrier.0]) && index is None
            &&& transform_next(later, dropping, ReplyView::Inserted).2 == AskView::Done(Ok(()))
        }),
{
}

/// A door is replaced where it stands: one is taken off its tile and the other put into the very
/// place, and then it is done. A door that is on no tile is not opened.
pub proof fn law_a_door_is_replaced_where_it_stands(
    w: TickView,
    item: ItemRef,
    kind: ItemConfig,
    guid: ItemGuid,
    old_item: ItemView,
    index: Option<usize>,
)
    ensures
        ({
            let (begun, taking, first) = door_next(
                w,
                unstarted(item, Some(kind), guid),
                ReplyView::Start,
            );
            let (made, placing, second) = door_next(
                begun,
                taking,
                ReplyView::Removed(old_item, index),
            );
            let (ended, _, third) = door_next(made, placing, ReplyView::Inserted);
            match item.placement {
                ItemPlacement::Tile(pos) => {
                    &&& first is Remove
                    &&& second matches AskView::Insert { item: new_item, at, index: to } && is_new(
                        new_item,
                        kind,
                        guid,
                    ) && at == item.placement && to == index
                    &&& ended == w
                    &&& w.world.map.tiles.contains_key(pos) ==> third == AskView::Done(Ok(()))
                },
                _ => begun == w && first == AskView::Done(Err(ItemActionError::InvalidState)),
            }
        }),
{
}

/// A decaying item becomes one of the next kind where it was, still its owner's and still filled
/// with what it was filled with, and that decays on in its own time. An item that does not decay,
/// is gone, or has nothing to decay into is left alone.
pub proof fn law_a_decayed_item_keeps_owner_and_filling(
    w: TickView,
    item: ItemRef,
    kind: ItemConfig,
    guid: ItemGuid,
    found: ItemView,
    mark: Mark,
    old_item: ItemView,
    index: Option<usize>,
)
    ensures
        ({
            let (begun, taking, first) = decay_next(
                w,
                unstarted(item, Some(kind), guid),
                Some(found),
                mark,
                ReplyView::Start,
            );
            let (made, placing, second) = decay_next(
                begun,
                taking,
                Some(found),
                mark,
                ReplyView::Removed(old_item, index),
            );
            let (ended, _, third) = decay_next(
                made,
                placing,
                Some(found),
                mark,
                ReplyView::Inserted,
            );
            if found.config.decay() is Some {
                &&& first is Remove
                &&& second matches AskView::Insert { item: new_item, at, index: to } && is_new(
                    ItemView { owner: None, fluid: None, ..new_item },
                    kind,
                    guid,
                ) && new_item.owner == found.owner && new_item.fluid == found.fluid && at
                    == item.placement && to == index
                &&& books_decay(w.scheduled, made.scheduled, kind, guid, item.placement, w.tick)
                &&& ended == made && third == AskView::Done(Ok(()))
            } else {
                begun == w && first == AskView::Done(Ok(()))
            }
        }),
        ({
            let (begun, _, first) = decay_next(
                w,
                unstarted(item, Some(kind), guid),
                None,
                mark,
                ReplyView::Start,
            );
            begun == w && first == AskView::Done(Ok(()))
        }),
{
    let (begun, _, _) = decay_next(
        w,
        unstarted(item, Some(kind), guid),
        Some(found),
        mark,
        ReplyView::Start,
    );
    if kind.decay() is Some && found.config.decay() is Some {
        assert(begun.scheduled.drop_last() =~= w.scheduled);
    }
}

/// Food feeds whoever has room for it: as long as it says on top of what they are fed for already.
/// A first meal starts their regeneration and books its end; a meal on top of another books
/// neither again. Whoever is too full is refused and keeps the food.
pub proof fn law_a_meal_feeds_on_top_of_the_last(
    w: TickView,
    eater: AgentKey,
    duration: TickDelta,
    food: ItemView,
    index: Option<usize>,
    message: Seq<char>,
    config: GameConfig,
)
    requires
        agent_of(w, eater) matches Some(a) && one_of_each(a.conditions),
        w.world.map.positions.contains_key(eater.0),
        feedable(
            w,
            Meal {
                eater,
                duration,
                stage: Stage::Idle,
                position: w.world.map.positions[eater.0],
                old_generation: None,
            },
            config,
        ),
        agent_of(w, eater) matches Some(a) && generations_below(a.conditions, a.next_generation),
    ensures
        ({
            let a = agent_of(w, eater).unwrap();
            let until = match condition_of(a.conditions, ConditionKind::Fed) {
                Some(Condition::Fed { until, .. }) => if until.0 > w.tick.0 {
                    until.0
                } else {
                    w.tick.0
                },
                _ => w.tick.0,
            };
            let meal = Meal {
                eater,
                duration,
                stage: Stage::Idle,
                position: w.world.map.positions[eater.0],
                old_generation: None,
            };
            let (begun, taking, first) = meal_next(
                w,
                meal,
                ReplyView::Start,
                Some(message),
                config,
            );
            let (fed, _, second) = meal_next(
                begun,
                taking,
                ReplyView::Removed(food, index),
                Some(message),
                config,
            );
            &&& begun == w
            &&& if until - w.tick.0 + duration.0 > config.max_fed_ticks.0 {
                first == AskView::Done(Err(ItemActionError::PlayerFull))
            } else {
                &&& first is Remove
                &&& second == AskView::Done(Ok(()))
                &&& agent_of(fed, eater) matches Some(after) && {
                    &&& condition_of(after.conditions, ConditionKind::Fed) matches Some(
                        Condition::Fed { until: later, generation },
                    ) && later.0 == until + duration.0 && (if until > w.tick.0 {
                        fed.scheduled == w.scheduled
                    } else {
                        &&& fed.scheduled.len() == w.scheduled.len() + 2
                        &&& fed.scheduled[w.scheduled.len() as int] == (ScheduledView {
                            at_tick: Tick((w.tick.0 + config.regen_ticks.0) as u64),
                            command: CommandView::RegeneratePlayer {
                                agent_key: eater,
                                generation,
                            },
                        })
                        &&& fed.scheduled.last() == (ScheduledView {
                            at_tick: later,
                            command: CommandView::ConditionExpired {
                                agent_key: eater,
                                kind: TimedCondition::Fed,
                            },
                        })
                    })
                    &&& after.life == a.life && after.mana == a.mana
                }
                &&& fed.events == w.events.push(
                    EventView::AgentActionMessage {
                        position: w.world.map.positions[eater.0],
                        message,
                    },
                )
            }
        }),
{
    let a = agent_of(w, eater).unwrap();
    let (after, generation) = fed_more(a, w.tick, duration);
    lemma_fed_more(a, w.tick, duration);
    if let Some(Condition::Fed { until, generation: live }) = condition_of(
        a.conditions,
        ConditionKind::Fed,
    ) {
        let p = place_of(a.conditions, ConditionKind::Fed);
        assert(generation_of(a.conditions[p]) == Some(live));
    }
}

/// A use is refused, for the first of these reasons, where the user has not waited long enough, is
/// off the map or not next to the item, where the item is gone, and where it is of no use. A
/// container is opened to its user; anything else comes to its own action, and nothing has been
/// done until then.
pub proof fn law_a_use_comes_to_what_the_item_is_for(
    w: TickView,
    key: AgentKey,
    item: ItemRef,
    in_reach: bool,
    found: Option<UsedItem>,
)
    requires
        agent_of(w, key) is Some,
    ensures
        ({
            let (later, action) = using(w, key, item, in_reach, found);
            let refused = |text: Seq<char>|
                action is None && later == (TickView {
                    events: w.events.push(
                        EventView::UseItemDenied { agent_key: key, message: text },
                    ),
                    ..w
                });
            if agent_of(w, key).unwrap().next_use_tick.0 > w.tick.0 {
                refused("Can't use that fast"@)
            } else if !(w.world.map.positions.contains_key(key.0) && in_reach) {
                refused("Item is too far"@)
            } else {
                match found {
                    None => refused("Item was not found"@),
                    Some(used) => if !used.usable {
                        refused("Can't use that"@)
                    } else if used.container {
                        action is None && later == (TickView {
                            events: w.events.push(
                                EventView::OpenContainer { agent_key: key, item },
                            ),
                            ..w
                        })
                    } else {
                        later == w && action == used.action
                    },
                }
            }
        }),
{
}

/// Whoever has used an item has to wait before they can use another, and for nothing else.
pub proof fn law_a_use_makes_its_user_wait(
    w: TickView,
    mark: Mark,
    key: AgentKey,
    config: GameConfig,
)
    requires
        agent_of(w, key) is Some,
        w.tick.0 + config.use_item_cooldown_ticks.0 <= u64::MAX,
    ensures
        ({
            let later = use_over(w, mark, key, Ok(()), config);
            let before = agent_of(w, key).unwrap();
            &&& agent_of(later, key) matches Some(after) && after.next_use_tick.0 == w.tick.0
                + config.use_item_cooldown_ticks.0 && (AgentView {
                next_use_tick: before.next_use_tick,
                ..after
            }) == before
            &&& later.events == w.events && later.scheduled == w.scheduled
        }),
{
}

/// A player can tell from what it is told why an action failed: no two reasons read the same.
pub proof fn law_failures_read_differently(a: ItemActionError, b: ItemActionError)
    requires
        a.text() == b.text(),
    ensures
        a == b,
{
    reveal_strlit("This item can't be used");
    reveal_strlit("Invalid State");
    reveal_strlit("No target");
    reveal_strlit("You're already full");
    reveal_strlit("Already reported");
    assert("This item can't be used"@.len() == 23);
    assert("Invalid State"@.len() == 13);
    assert("No target"@.len() == 9);
    assert("You're already full"@.len() == 19);
    assert("Already reported"@.len() == 16);
    assert(a.text().len() == b.text().len());
}

} // verus!
