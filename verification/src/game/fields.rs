//! Fields of fire and the like, which lie on tiles and wound whoever stands there.

use crate::actors::world::{CommandView, ScheduledView};
use crate::entities::agent::AgentKey;
use crate::entities::item::{
    count_among, count_of, law_what_is_taken_is_no_longer_there, removal, Item, ItemView,
};
use crate::entities::items::{ItemConfig, ItemFlag, ItemGuid, ItemId, ItemPlacement, ItemRef};
use crate::entities::map::{any_flagged, with_tile, GameMap, MapView, TileView};
use crate::entities::position::Position;
use crate::entities::world_delta::tile_marked;
use crate::entities::world_map::{place_marked, WorldMapView};
use crate::game::ctx::{TickCtx, TickView};
use crate::game::item_action::{brand_new, check_decay, decay_booked, decays_in_time};
use crate::game::tick::Tick;
use crate::sharing::share;
use std::sync::Arc;
use vstd::prelude::*;

verus! {

/// A field can lie on the tile: it has ground, and nothing on it is in the way or is not to be
/// replaced.
pub open spec fn holds_fields(m: MapView, pos: Position) -> bool {
    &&& m.tiles.contains_key(pos)
    &&& any_flagged(m.tiles[pos].items, ItemFlag::Ground)
    &&& !any_flagged(m.tiles[pos].items, ItemFlag::Unpass)
    &&& !any_flagged(m.tiles[pos].items, ItemFlag::Unreplaceable)
}

/// Whether a field can lie on the tile.
pub fn can_hold_field(map: &GameMap, pos: &Position) -> (r: bool)
    requires
        map.wf(),
    ensures
        r == holds_fields(map@, *pos),
{
    match map.get_tile(pos) {
        Ok(tile) => tile.any_flagged(ItemFlag::Ground) && !tile.any_flagged(ItemFlag::Unpass)
            && !tile.any_flagged(ItemFlag::Unreplaceable),
        Err(_) => false,
    }
}

/// The fields among the first `n` items, from the ground up.
pub open spec fn field_guids(items: Seq<ItemView>, n: nat) -> Seq<ItemGuid>
    decreases n,
{
    if n == 0 {
        Seq::empty()
    } else {
        let before = field_guids(items, (n - 1) as nat);
        if items[n - 1].config.field() is Some {
            before.push(items[n - 1].guid)
        } else {
            before
        }
    }
}

/// The world after one of an item was taken off a tile and thrown away.
pub open spec fn one_taken(w: WorldMapView, pos: Position, guid: ItemGuid, fresh: ItemGuid) -> WorldMapView {
    if w.map.tiles.contains_key(pos) {
        let tile = w.map.tiles[pos];
        match removal(tile.items, guid, 1, fresh) {
            Some(gone) => WorldMapView {
                map: with_tile(w.map, pos, TileView { items: gone.after, ..tile }),
                delta: place_marked(
                    w.delta,
                    pos,
                    match gone.parent {
                        Some((parent, _)) => Some(parent),
                        None => None,
                    },
                ),
            },
            None => w,
        }
    } else {
        w
    }
}

/// The world after one of each of the items was taken off a tile.
pub open spec fn all_taken(w: WorldMapView, pos: Position, guids: Seq<ItemGuid>, fresh: ItemGuid) -> WorldMapView
    decreases guids.len(),
{
    if guids.len() == 0 {
        w
    } else {
        one_taken(all_taken(w, pos, guids.drop_last(), fresh), pos, guids.last(), fresh)
    }
}

/// A field with its owner.
pub open spec fn owned_field(config: ItemConfig, guid: ItemGuid, owner: AgentKey) -> ItemView {
    ItemView { owner: Some(owner), ..brand_new(config, guid) }
}

/// The world after a field was laid on a tile in place of those that were there, and who it
/// wounds.
pub open spec fn field_laid(
    w: TickView,
    owner: AgentKey,
    field: ItemConfig,
    pos: Position,
    guid: ItemGuid,
) -> (TickView, Seq<AgentKey>) {
    let m = w.world.map;
    if m.tiles.contains_key(pos) {
        let items = m.tiles[pos].items;
        let cleared = all_taken(w.world, pos, field_guids(items, items.len()), guid);
        let tile = cleared.map.tiles[pos];
        let item = owned_field(field, guid, owner);
        (
            TickView {
                world: WorldMapView {
                    map: with_tile(
                        cleared.map,
                        pos,
                        TileView { items: tile.items.push(item), ..tile },
                    ),
                    delta: tile_marked(cleared.delta, pos),
                },
                scheduled: decay_booked(w.scheduled, item, ItemPlacement::Tile(pos), w.tick),
                ..w
            },
            if field.field() is Some {
                tile.agents
            } else {
                Seq::empty()
            },
        )
    } else {
        (w, Seq::empty())
    }
}

proof fn lemma_all_taken(w: WorldMapView, pos: Position, guids: Seq<ItemGuid>, fresh: ItemGuid)
    ensures
        all_taken(w, pos, guids, fresh).map.tiles.contains_key(pos)
            == w.map.tiles.contains_key(pos),
    decreases guids.len(),
{
    if guids.len() > 0 {
        lemma_all_taken(w, pos, guids.drop_last(), fresh);
    }
}

/// Lays a field on a tile in place of those that are there, and says who it wounds: they are hit
/// at once, on the owner's account.
pub fn replace_field(
    ctx: &mut TickCtx,
    owner: AgentKey,
    field: &Arc<ItemConfig>,
    pos: &Position,
    guid: ItemGuid,
) -> (standing: Vec<AgentKey>)
    requires
        old(ctx).wf(),
        decays_in_time(**field, old(ctx).tick),
    ensures
        final(ctx).wf(),
        (final(ctx)@, standing@) == field_laid(old(ctx)@, owner, **field, *pos, guid),
{
    let mut replaced: Vec<ItemGuid> = Vec::new();
    match ctx.map.map().get_tile(pos) {
        Ok(tile) => {
            let mut i: usize = 0;
            while i < tile.item_count()
                invariant
                    i <= tile@.items.len(),
                    replaced@ == field_guids(tile@.items, i as nat),
                decreases tile@.items.len() - i,
            {
                let item = tile.item(i);
                if item.config.attr_field().is_some() {
                    replaced.push(item.guid);
                }
                i += 1;
            }
        },
        Err(_) => return Vec::new(),
    }
    let mut i: usize = 0;
    while i < replaced.len()
        invariant
            i <= replaced@.len(),
            ctx.wf(),
            ctx@.events == old(ctx)@.events,
            ctx@.scheduled == old(ctx)@.scheduled,
            ctx@.tick == old(ctx)@.tick,
            ctx@.world == all_taken(old(ctx)@.world, *pos, replaced@.take(i as int), guid),
        decreases replaced.len() - i,
    {
        let ghost before = ctx@.world;
        let removed = ctx.map.remove_item_from_tile(pos, replaced[i], 1, guid);
        assert(ctx@.world =~= one_taken(before, *pos, replaced@[i as int], guid));
        assert(replaced@.take(i + 1).drop_last() =~= replaced@.take(i as int));
        i += 1;
    }
    assert(replaced@.take(replaced@.len() as int) =~= replaced@);
    proof {
        lemma_all_taken(old(ctx)@.world, *pos, replaced@, guid);
    }
    let mut item = Item::new(share(field), 1, guid);
    item.owner = Some(owner);
    let tick: Tick = ctx.tick;
    let ghost before = ctx@;
    check_decay(&mut ctx.scheduled, &item, ItemPlacement::Tile(*pos), tick);
    let placed = ctx.map.place_item(pos, None, None, item);
    let mut standing: Vec<AgentKey> = Vec::new();
    if field.attr_field().is_some() {
        if let Ok(tile) = ctx.map.map().get_tile(pos) {
            let mut i: usize = 0;
            while i < tile.agent_count()
                invariant
                    i <= tile@.agents.len(),
                    standing@ == tile@.agents.take(i as int),
                decreases tile@.agents.len() - i,
            {
                standing.push(tile.agent(i));
                assert(tile@.agents.take(i + 1) =~= tile@.agents.take(i as int).push(
                    tile@.agents[i as int],
                ));
                i += 1;
            }
            assert(tile@.agents.take(tile@.agents.len() as int) =~= tile@.agents);
        }
    }
    standing
}

/// The world after fields were laid on the tiles of an area from the `i`th on, up to the first
/// where somebody stands: the tile after that one, and who stood there.
pub open spec fn fields_laid(
    w: TickView,
    owner: AgentKey,
    field: ItemConfig,
    area: Seq<Position>,
    guids: Seq<ItemGuid>,
    i: int,
) -> (TickView, int, Seq<AgentKey>)
    decreases area.len() - i,
{
    if i >= area.len() {
        (w, i, Seq::empty())
    } else if holds_fields(w.world.map, area[i]) {
        let (after, standing) = field_laid(w, owner, field, area[i], guids[i]);
        if standing.len() > 0 {
            (after, i + 1, standing)
        } else {
            fields_laid(after, owner, field, area, guids, i + 1)
        }
    } else {
        fields_laid(w, owner, field, area, guids, i + 1)
    }
}

/// Lays fields on the tiles of an area that can hold them, from the `from`th on, up to the first
/// where somebody stands. Those are to be wounded before this is called for the tiles after it.
pub fn create_fields(
    ctx: &mut TickCtx,
    owner: AgentKey,
    field: &Arc<ItemConfig>,
    area: &Vec<Position>,
    guids: &Vec<ItemGuid>,
    from: usize,
) -> (r: (usize, Vec<AgentKey>))
    requires
        old(ctx).wf(),
        from <= area@.len(),
        guids@.len() == area@.len(),
        decays_in_time(**field, old(ctx).tick),
    ensures
        final(ctx).wf(),
        (final(ctx)@, r.0 as int, r.1@) == fields_laid(
            old(ctx)@,
            owner,
            **field,
            area@,
            guids@,
            from as int,
        ),
        from <= r.0 <= area@.len(),
        r.1@.len() > 0 || r.0 == area@.len(),
{
    let mut i: usize = from;
    while i < area.len()
        invariant
            from <= i <= area@.len(),
            guids@.len() == area@.len(),
            ctx.wf(),
            ctx.tick == old(ctx).tick,
            decays_in_time(**field, ctx.tick),
            fields_laid(old(ctx)@, owner, **field, area@, guids@, from as int) == fields_laid(
                ctx@,
                owner,
                **field,
                area@,
                guids@,
                i as int,
            ),
        decreases area.len() - i,
    {
        if can_hold_field(ctx.map.map(), &area[i]) {
            let standing = replace_field(ctx, owner, field, &area[i], guids[i]);
            if standing.len() > 0 {
                return (i + 1, standing);
            }
        }
        i += 1;
    }
    let nobody: Vec<AgentKey> = Vec::new();
    assert(nobody@ =~= Seq::empty());
    (i, nobody)
}

/// A field lands on top of everything, with its owner.
pub proof fn law_a_field_lands_on_top(
    w: TickView,
    owner: AgentKey,
    field: ItemConfig,
    pos: Position,
    guid: ItemGuid,
)
    requires
        w.world.map.tiles.contains_key(pos),
    ensures
        ({
            let items = field_laid(w, owner, field, pos, guid).0.world.map.tiles[pos].items;
            items.len() > 0 && items.last() == owned_field(field, guid, owner)
        }),
{
}

/// A tile that cannot hold a field is left as it is.
pub proof fn law_fields_keep_out_of_what_cannot_hold_them(
    w: TickView,
    owner: AgentKey,
    field: ItemConfig,
    area: Seq<Position>,
    guids: Seq<ItemGuid>,
)
    requires
        forall|i: int| 0 <= i < area.len() ==> !holds_fields(w.world.map, #[trigger] area[i]),
    ensures
        fields_laid(w, owner, field, area, guids, 0).0 == w,
{
    lemma_skipped(w, owner, field, area, guids, 0);
}

proof fn lemma_skipped(
    w: TickView,
    owner: AgentKey,
    field: ItemConfig,
    area: Seq<Position>,
    guids: Seq<ItemGuid>,
    i: int,
)
    requires
        0 <= i,
        forall|i: int| 0 <= i < area.len() ==> !holds_fields(w.world.map, #[trigger] area[i]),
    ensures
        fields_laid(w, owner, field, area, guids, i).0 == w,
    decreases area.len() - i,
{
    if i < area.len() {
        lemma_skipped(w, owner, field, area, guids, i + 1);
    }
}

/// A field can lie just where there is ground and nothing is in the way or not to be replaced.
pub proof fn law_fields_lie_on_open_ground(m: MapView, pos: Position, i: int)
    requires
        m.tiles.contains_key(pos),
        0 <= i < m.tiles[pos].items.len(),
    ensures
        ({
            let items = m.tiles[pos].items;
            &&& holds_fields(m, pos) ==> !items[i].config.flagged(ItemFlag::Unpass)
                && !items[i].config.flagged(ItemFlag::Unreplaceable) && exists|j: int|
                0 <= j < items.len() && (#[trigger] items[j]).config.flagged(ItemFlag::Ground)
            &&& items[i].config.flagged(ItemFlag::Ground) && (forall|j: int|
                0 <= j < items.len() ==> !(#[trigger] items[j]).config.flagged(ItemFlag::Unpass)
                    && !items[j].config.flagged(ItemFlag::Unreplaceable)) ==> holds_fields(m, pos)
        }),
{
}

/// A field that is laid lies on top of its tile as its owner's, and decays in its own time.
/// Everybody who stands there is wounded just where it is one that wounds. No other tile changes,
/// and nobody moves.
pub proof fn law_a_field_takes_hold_of_who_stands_there(
    w: TickView,
    owner: AgentKey,
    field: ItemConfig,
    pos: Position,
    guid: ItemGuid,
    other: Position,
)
    requires
        w.world.map.tiles.contains_key(pos),
        other != pos,
        decays_in_time(field, w.tick),
    ensures
        ({
            let (later, standing) = field_laid(w, owner, field, pos, guid);
            let tile = later.world.map.tiles[pos];
            &&& later.world.map.tiles.contains_key(pos)
            &&& tile.items.len() > 0 && tile.items.last().config == field && tile.items.last().guid
                == guid && tile.items.last().owner == Some(owner) && tile.items.last().amount == 1
            &&& tile.agents == w.world.map.tiles[pos].agents
            &&& standing == (if field.field() is Some {
                w.world.map.tiles[pos].agents
            } else {
                Seq::empty()
            })
            &&& match field.decay() {
                None => later.scheduled == w.scheduled,
                Some((lasts, _)) => later.scheduled == w.scheduled.push(
                    ScheduledView {
                        at_tick: Tick((w.tick.0 + lasts.0) as u64),
                        command: CommandView::DecayItem {
                            item: ItemRef { guid, placement: ItemPlacement::Tile(pos) },
                        },
                    },
                ),
            }
            &&& later.world.map.tiles.contains_key(other) == w.world.map.tiles.contains_key(other)
            &&& w.world.map.tiles.contains_key(other) ==> later.world.map.tiles[other]
                == w.world.map.tiles[other]
            &&& later.world.map.agents == w.world.map.agents && later.world.map.positions
                == w.world.map.positions && later.events == w.events
        }),
{
    let items = w.world.map.tiles[pos].items;
    lemma_all_taken_elsewhere(w.world, pos, field_guids(items, items.len()), guid, other);
}

proof fn lemma_all_taken_elsewhere(
    w: WorldMapView,
    pos: Position,
    guids: Seq<ItemGuid>,
    fresh: ItemGuid,
    other: Position,
)
    requires
        w.map.tiles.contains_key(pos),
        other != pos,
    ensures
        ({
            let later = all_taken(w, pos, guids, fresh).map;
            &&& later.tiles.contains_key(pos)
            &&& later.tiles[pos].agents == w.map.tiles[pos].agents
            &&& later.tiles.contains_key(other) == w.map.tiles.contains_key(other)
            &&& w.map.tiles.contains_key(other) ==> later.tiles[other] == w.map.tiles[other]
            &&& later.agents == w.map.agents && later.positions == w.map.positions
        }),
    decreases guids.len(),
{
    if guids.len() > 0 {
        lemma_all_taken_elsewhere(w, pos, guids.drop_last(), fresh, other);
    }
}

/// The fields of a tile that are replaced are all that lie on it and nothing else.
pub proof fn law_every_field_of_a_tile_is_replaced(items: Seq<ItemView>, n: nat, i: int)
    requires
        n <= items.len(),
        0 <= i < n,
    ensures
        items[i].config.field() is Some ==> field_guids(items, n).contains(items[i].guid),
        forall|k: int|
            0 <= k < field_guids(items, n).len() ==> exists|j: int|
                0 <= j < n && (#[trigger] items[j]).guid == #[trigger] field_guids(items, n)[k]
                    && items[j].config.field() is Some,
    decreases n,
{
    let before = field_guids(items, (n - 1) as nat);
    let after = field_guids(items, n);
    if n > 1 {
        law_every_field_of_a_tile_is_replaced(
            items,
            (n - 1) as nat,
            if i < n - 1 {
                i
            } else {
                0
            },
        );
    }
    if i == n - 1 {
        if items[i].config.field() is Some {
            assert(after[before.len() as int] == items[i].guid);
        }
    } else if items[i].config.field() is Some {
        assert(after[before.index_of(items[i].guid)] == items[i].guid);
    }
    assert forall|k: int| 0 <= k < after.len() implies exists|j: int|
        0 <= j < n && (#[trigger] items[j]).guid == #[trigger] after[k]
            && items[j].config.field() is Some by {
        if k < before.len() {
            assert(after[k] == before[k]);
            let j = choose|j: int|
                0 <= j < n - 1 && (#[trigger] items[j]).guid == before[k]
                    && items[j].config.field() is Some;
            assert(items[j].guid == after[k]);
        } else {
            assert(items[n - 1].guid == after[k]);
        }
    }
}

/// A field that gives way loses one of its amount and nothing else goes: of every kind there are as
/// many as before, but for the one that was taken.
pub proof fn law_a_field_gives_way_to_another(
    w: WorldMapView,
    pos: Position,
    guid: ItemGuid,
    fresh: ItemGuid,
    id: ItemId,
)
    requires
        w.map.tiles.contains_key(pos),
        removal(w.map.tiles[pos].items, guid, 1, fresh) is Some,
    ensures
        ({
            let gone = removal(w.map.tiles[pos].items, guid, 1, fresh).unwrap().item;
            let before = w.map.tiles[pos].items;
            let later = one_taken(w, pos, guid, fresh).map.tiles[pos].items;
            &&& gone.amount == 1
            &&& count_among(later, later.len(), id) + count_of(gone, id) == count_among(
                before,
                before.len(),
                id,
            )
            &&& one_taken(w, pos, guid, fresh).map.tiles[pos].agents == w.map.tiles[pos].agents
        }),
{
    law_what_is_taken_is_no_longer_there(w.map.tiles[pos].items, guid, 1, fresh, id);
}

} // verus!
