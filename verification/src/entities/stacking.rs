//! Putting more of an item onto a stack of it.

use crate::constants::MAX_STACK_AMOUNT;
use crate::entities::item::{
    count_among, count_of, holding_in, holding_of, item_views, lemma_content_view,
    lemma_count_updated, lemma_holding_in, moved_onto, Item, ItemView,
};
use crate::entities::items::{ItemFlag, ItemGuid, ItemId};
use vstd::prelude::*;

verus! {

/// More of `other` can be put on `stack`.
pub open spec fn stackable(stack: ItemView, other: ItemView) -> bool {
    &&& stack.config.flagged(ItemFlag::Cumulative)
    &&& stack.config.id == other.config.id
    &&& stack.amount < MAX_STACK_AMOUNT
}

/// The first of `items` from `k` on that more of `new` can be put on.
pub open spec fn stack_in(items: Seq<ItemView>, k: int, new: ItemView) -> Option<int>
    decreases items.len() - k,
{
    if k < 0 || k >= items.len() {
        None
    } else if stackable(items[k], new) {
        Some(k)
    } else {
        stack_in(items, k + 1, new)
    }
}

pub proof fn lemma_stack_in(items: Seq<ItemView>, k: int, new: ItemView)
    requires
        0 <= k,
    ensures
        stack_in(items, k, new) matches Some(i) ==> k <= i < items.len() && stackable(
            items[i],
            new,
        ),
    decreases items.len() - k,
{
    if k < items.len() {
        lemma_stack_in(items, k + 1, new);
    }
}

/// A stack with as much of `new` on it as it has room for.
pub open spec fn heightened(stack: ItemView, new: ItemView) -> ItemView {
    ItemView { amount: (stack.amount + moved_onto(stack.amount, new.amount)) as u8, ..stack }
}

/// `items` with `new` put on the first stack that takes more of it, and how much of it that took.
pub open spec fn topped(items: Seq<ItemView>, new: ItemView) -> (Seq<ItemView>, u8) {
    match stack_in(items, 0, new) {
        Some(i) => (
            items.update(i, heightened(items[i], new)),
            moved_onto(items[i].amount, new.amount),
        ),
        None => (items, 0),
    }
}

/// `item` with `new` put on a stack in the container with this guid, which is `item` or lies in
/// it, and how much of it that took.
pub open spec fn topped_within(item: ItemView, guid: ItemGuid, new: ItemView) -> (ItemView, u8)
    decreases item,
{
    match item.content {
        None => (item, 0),
        Some(content) => if item.guid == guid {
            let (after, moved) = topped(content, new);
            (ItemView { content: Some(after), ..item }, moved)
        } else {
            match holding_in(content, 0, guid) {
                Some(k) => {
                    proof {
                        lemma_holding_in(content, 0, guid);
                    }
                    let (after, moved) = topped_within(content[k], guid, new);
                    (ItemView { content: Some(content.update(k, after)), ..item }, moved)
                },
                None => (item, 0),
            }
        },
    }
}

/// `items` with `new` put on a stack among them, or in the container with this guid where one is
/// named, and how much of it that took.
pub open spec fn stacked(items: Seq<ItemView>, container: Option<ItemGuid>, new: ItemView) -> (
    Seq<ItemView>,
    u8,
) {
    match container {
        None => topped(items, new),
        Some(guid) => match holding_in(items, 0, guid) {
            Some(k) => {
                let (after, moved) = topped_within(items[k], guid, new);
                (items.update(k, after), moved)
            },
            None => (items, 0),
        },
    }
}

/// With `moved` of it gone.
pub open spec fn lessened(new: ItemView, moved: u8) -> ItemView {
    ItemView { amount: (new.amount - moved) as u8, ..new }
}

pub proof fn lemma_topped_within(item: ItemView, guid: ItemGuid, new: ItemView)
    ensures
        topped_within(item, guid, new).1 <= new.amount,
        topped_within(item, guid, new).1 == 0 ==> topped_within(item, guid, new).0 == item,
    decreases item,
{
    if let Some(content) = item.content {
        if item.guid == guid {
            lemma_stack_in(content, 0, new);
            if topped_within(item, guid, new).1 == 0 {
                assert(topped(content, new).0 =~= content);
            }
        } else if let Some(k) = holding_in(content, 0, guid) {
            lemma_holding_in(content, 0, guid);
            lemma_topped_within(content[k], guid, new);
            if topped_within(item, guid, new).1 == 0 {
                assert(content.update(k, content[k]) =~= content);
            }
        }
    }
}

/// No more is put on stacks than there is, and where nothing is, nothing changes.
pub proof fn law_stacking_takes_what_there_is(
    items: Seq<ItemView>,
    container: Option<ItemGuid>,
    new: ItemView,
)
    ensures
        stacked(items, container, new).1 <= new.amount,
        stacked(items, container, new).1 == 0 ==> stacked(items, container, new).0 == items,
{
    match container {
        None => {
            lemma_stack_in(items, 0, new);
            if stacked(items, container, new).1 == 0 {
                assert(topped(items, new).0 =~= items);
            }
        },
        Some(guid) => {
            if let Some(k) = holding_in(items, 0, guid) {
                lemma_holding_in(items, 0, guid);
                lemma_topped_within(items[k], guid, new);
                if stacked(items, container, new).1 == 0 {
                    assert(items.update(k, items[k]) =~= items);
                }
            }
        },
    }
}

/// Puts `new` on the first stack that takes more of it, and says how much of it that took.
pub fn top_up_first(items: &mut Vec<Item>, new: &mut Item) -> (moved: u8)
    ensures
        (item_views(final(items)@), moved) == topped(item_views(old(items)@), old(new)@),
        final(new)@ == lessened(old(new)@, moved),
{
    let ghost before = item_views(items@);
    let mut i: usize = 0;
    while i < items.len()
        invariant
            i <= items@.len(),
            *items == *old(items),
            *new == *old(new),
            before == item_views(items@),
            stack_in(before, 0, new@) == stack_in(before, i as int, new@),
        decreases items.len() - i,
    {
        if items[i].stacks_with(new) {
            let moved: u8 = items[i].top_up_from(new);
            assert(item_views(items@) =~= topped(before, old(new)@).0);
            return moved;
        }
        i += 1;
    }
    0
}

/// Puts `new` on a stack in the container with this guid, which is `item` or lies in it, and says
/// how much of it that took.
pub fn top_up_within(item: &mut Item, guid: ItemGuid, new: &mut Item) -> (moved: u8)
    ensures
        (final(item)@, moved) == topped_within(old(item)@, guid, old(new)@),
        final(new)@ == lessened(old(new)@, moved),
    decreases *old(item),
{
    proof {
        lemma_content_view(*item);
    }
    let own: bool = item.guid == guid;
    match &mut item.content {
        None => 0,
        Some(content) => {
            let ghost before = item_views(content@);
            if own {
                let moved: u8 = top_up_first(content, new);
                proof {
                    lemma_content_view(*item);
                }
                moved
            } else {
                let k: usize = match holding_of(content, guid) {
                    Some(k) => k,
                    None => return 0,
                };
                proof {
                    lemma_holding_in(before, 0, guid);
                }
                assert(decreases_to!(*old(item) => content@[k as int]));
                let moved: u8 = top_up_within(&mut content[k], guid, new);
                assert(item_views(content@) =~= before.update(k as int, content@[k as int]@));
                proof {
                    lemma_content_view(*item);
                }
                moved
            }
        },
    }
}

/// What is stacked is added where it goes, and nothing else comes or goes: of the stacked kind
/// there are as many more as were moved, of any other as many as before. What is left over is what
/// was not moved.
pub proof fn law_stacking_adds_what_it_moves(
    items: Seq<ItemView>,
    container: Option<ItemGuid>,
    new: ItemView,
    id: ItemId,
)
    ensures
        ({
            let (after, moved) = stacked(items, container, new);
            &&& after.len() == items.len()
            &&& count_among(after, after.len(), id) == count_among(items, items.len(), id) + (if id
                == new.config.id {
                moved as int
            } else {
                0
            })
            &&& lessened(new, moved).amount + moved == new.amount
        }),
{
    law_stacking_takes_what_there_is(items, container, new);
    match container {
        None => {
            lemma_topped_adds(items, new, id);
        },
        Some(guid) => {
            if let Some(k) = holding_in(items, 0, guid) {
                lemma_holding_in(items, 0, guid);
                lemma_topped_within_adds(items[k], guid, new, id);
                lemma_count_updated(
                    items,
                    items.len(),
                    k,
                    topped_within(items[k], guid, new).0,
                    id,
                );
            }
        },
    }
}

proof fn lemma_topped_adds(items: Seq<ItemView>, new: ItemView, id: ItemId)
    ensures
        topped(items, new).0.len() == items.len(),
        count_among(topped(items, new).0, items.len(), id) == count_among(items, items.len(), id)
            + (if id == new.config.id {
            topped(items, new).1 as int
        } else {
            0
        }),
{
    lemma_stack_in(items, 0, new);
    if let Some(i) = stack_in(items, 0, new) {
        lemma_count_updated(items, items.len(), i, heightened(items[i], new), id);
    }
}

proof fn lemma_topped_within_adds(item: ItemView, guid: ItemGuid, new: ItemView, id: ItemId)
    ensures
        count_of(topped_within(item, guid, new).0, id) == count_of(item, id) + (if id
            == new.config.id {
            topped_within(item, guid, new).1 as int
        } else {
            0
        }),
    decreases item,
{
    if let Some(content) = item.content {
        if item.guid == guid {
            lemma_topped_adds(content, new, id);
        } else if let Some(k) = holding_in(content, 0, guid) {
            lemma_holding_in(content, 0, guid);
            lemma_topped_within_adds(content[k], guid, new, id);
            lemma_count_updated(
                content,
                content.len(),
                k,
                topped_within(content[k], guid, new).0,
                id,
            );
        }
    }
}

/// Only a stack of the same kind that has room is added to, the first there is, and it is filled
/// as far as there is something to fill it with.
pub proof fn law_the_first_stack_with_room_is_filled(items: Seq<ItemView>, new: ItemView, i: int)
    requires
        0 <= i < items.len(),
        new.amount > 0,
        forall|j: int|
            0 <= j < i ==> !((#[trigger] items[j]).config.id == new.config.id
                && items[j].config.flagged(ItemFlag::Cumulative) && items[j].amount < 100),
    ensures
        ({
            let (after, moved) = topped(items, new);
            let room = 100 - items[i].amount;
            items[i].config.id == new.config.id && items[i].config.flagged(ItemFlag::Cumulative)
                && items[i].amount < 100 ==> {
                &&& after[i].amount == items[i].amount + moved
                &&& moved == (if new.amount < room {
                    new.amount as int
                } else {
                    room
                })
                &&& forall|j: int|
                    0 <= j < items.len() && j != i ==> #[trigger] after[j] == items[j]
            }
        }),
{
    lemma_stack_in(items, 0, new);
    if stackable(items[i], new) {
        lemma_first_stack(items, 0, new, i);
    }
}

proof fn lemma_first_stack(items: Seq<ItemView>, k: int, new: ItemView, i: int)
    requires
        0 <= k <= i < items.len(),
        stackable(items[i], new),
        forall|j: int| k <= j < i ==> !stackable(#[trigger] items[j], new),
    ensures
        stack_in(items, k, new) == Some(i),
    decreases i - k,
{
    if k < i {
        lemma_first_stack(items, k + 1, new, i);
    }
}

} // verus!
