//! A single item, and what lies in it.

use crate::constants::MAX_STACK_AMOUNT;
use crate::entities::agent::AgentKey;
use crate::entities::items::{ItemConfig, ItemFlag, ItemGuid, ItemId};
use crate::sharing::share;
use std::sync::Arc;
use vstd::prelude::*;

verus! {

/// An item. One that holds others has a content, empty or not.
#[derive(Debug)]
pub struct Item {
    pub guid: ItemGuid,
    pub config: Arc<ItemConfig>,
    pub amount: u8,
    pub content: Option<Vec<Item>>,
    /// Who made it, where that matters.
    pub owner: Option<AgentKey>,
    /// What it is filled with.
    pub fluid: Option<u8>,
}

/// An item as a tree.
pub struct ItemView {
    pub guid: ItemGuid,
    pub config: ItemConfig,
    pub amount: u8,
    pub content: Option<Seq<ItemView>>,
    pub owner: Option<AgentKey>,
    pub fluid: Option<u8>,
}

pub open spec fn item_view(item: Item) -> ItemView
    decreases item,
{
    ItemView {
        guid: item.guid,
        config: *item.config,
        amount: item.amount,
        content: match item.content {
            Some(content) => Some(
                Seq::new(
                    content@.len(),
                    |i: int|
                        if 0 <= i < content@.len() {
                            item_view(content@[i])
                        } else {
                            arbitrary()
                        },
                ),
            ),
            None => None,
        },
        owner: item.owner,
        fluid: item.fluid,
    }
}

pub open spec fn item_views(items: Seq<Item>) -> Seq<ItemView> {
    Seq::new(items.len(), |i: int| item_view(items[i]))
}

pub(crate) proof fn lemma_content_view(item: Item)
    ensures
        match item.content {
            Some(content) => item_view(item).content == Some(item_views(content@)),
            None => item_view(item).content is None,
        },
{
    if let Some(content) = item.content {
        assert(item_view(item).content->0 =~= item_views(content@));
    }
}

impl View for Item {
    type V = ItemView;

    open spec fn view(&self) -> ItemView {
        item_view(*self)
    }
}

/// The content of a new item: empty, where it holds others at all.
pub open spec fn fresh_content(config: ItemConfig) -> Option<Seq<ItemView>> {
    if config.flagged(ItemFlag::Container) {
        Some(Seq::empty())
    } else {
        None
    }
}

/// What a part taken off a stack is.
pub open spec fn part_of(item: ItemView, amount: u8, guid: ItemGuid) -> ItemView {
    ItemView {
        guid,
        config: item.config,
        amount,
        content: fresh_content(item.config),
        owner: item.owner,
        fluid: item.fluid,
    }
}

/// The item with this guid, among `items` from `i` on and what lies in them.
pub open spec fn found_in(items: Seq<ItemView>, i: int, guid: ItemGuid) -> Option<ItemView>
    decreases items, items.len() - i,
{
    if i < 0 || i >= items.len() {
        None
    } else {
        match found(items[i], guid) {
            Some(item) => Some(item),
            None => found_in(items, i + 1, guid),
        }
    }
}

/// The item with this guid: this one, or one that lies in it.
pub open spec fn found(item: ItemView, guid: ItemGuid) -> Option<ItemView>
    decreases item, 0int,
{
    if item.guid == guid {
        Some(item)
    } else {
        match item.content {
            Some(content) => found_in(content, 0, guid),
            None => None,
        }
    }
}

/// The container that the item with this guid lies in, among `items` from `i` on, which lie in
/// `parent`.
pub open spec fn parent_in(
    items: Seq<ItemView>,
    i: int,
    guid: ItemGuid,
    parent: Option<ItemGuid>,
) -> Option<Option<ItemGuid>>
    decreases items, items.len() - i,
{
    if i < 0 || i >= items.len() {
        None
    } else {
        match parent_of(items[i], guid, parent) {
            Some(p) => Some(p),
            None => parent_in(items, i + 1, guid, parent),
        }
    }
}

/// The container that the item with this guid lies in, `parent` being that of this item; nothing
/// where the item is not there at all.
pub open spec fn parent_of(item: ItemView, guid: ItemGuid, parent: Option<ItemGuid>) -> Option<
    Option<ItemGuid>,
>
    decreases item, 0int,
{
    if item.guid == guid {
        Some(parent)
    } else {
        match item.content {
            Some(content) => parent_in(content, 0, guid, Some(item.guid)),
            None => None,
        }
    }
}

/// The place of the first of `items` from `i` on with this guid.
pub open spec fn index_in(items: Seq<ItemView>, i: int, guid: ItemGuid) -> Option<int>
    decreases items.len() - i,
{
    if i < 0 || i >= items.len() {
        None
    } else if items[i].guid == guid {
        Some(i)
    } else {
        index_in(items, i + 1, guid)
    }
}

/// What taking something out of a list of items comes to: the list after it, what was taken, its
/// place where it stood in the list itself, and else the container that it lay in and its place
/// there.
pub struct Removal {
    pub after: Seq<ItemView>,
    pub item: ItemView,
    pub index: Option<int>,
    pub parent: Option<(ItemGuid, int)>,
}

/// Takes `amount` of the item at `i`: a part of it, or all of it, or nothing where it is less.
pub open spec fn taken_at(items: Seq<ItemView>, i: int, amount: u8, fresh: ItemGuid) -> Option<
    (Seq<ItemView>, ItemView),
> {
    if items[i].amount > amount {
        Some(
            (
                items.update(
                    i,
                    ItemView { amount: (items[i].amount - amount) as u8, ..items[i] },
                ),
                part_of(items[i], amount, fresh),
            ),
        )
    } else if items[i].amount == amount {
        Some((items.remove(i), items[i]))
    } else {
        None
    }
}

/// Takes `amount` of the item with this guid out of `items` or out of what lies in them. A part
/// that is split off gets the guid `fresh`.
pub open spec fn removal(
    items: Seq<ItemView>,
    guid: ItemGuid,
    amount: u8,
    fresh: ItemGuid,
) -> Option<Removal>
    decreases items, items.len() + 1,
{
    match index_in(items, 0, guid) {
        Some(i) => match taken_at(items, i, amount, fresh) {
            Some((after, item)) => Some(Removal { after, item, index: Some(i), parent: None }),
            None => None,
        },
        None => removal_within(items, 0, guid, amount, fresh),
    }
}

/// Takes `amount` of the item with this guid out of what lies in the first of `items` from `k` on
/// that gives it.
pub open spec fn removal_within(
    items: Seq<ItemView>,
    k: int,
    guid: ItemGuid,
    amount: u8,
    fresh: ItemGuid,
) -> Option<Removal>
    decreases items, items.len() - k,
{
    if k < 0 || k >= items.len() {
        None
    } else {
        match removal_from(items[k], guid, amount, fresh) {
            Some((item, taken, parent)) => Some(
                Removal {
                    after: items.update(k, item),
                    item: taken,
                    index: None,
                    parent: Some(parent),
                },
            ),
            None => removal_within(items, k + 1, guid, amount, fresh),
        }
    }
}

/// Takes `amount` of the item with this guid out of what lies in `item`: the item after it, what
/// was taken, and the container that it lay in with its place there.
pub open spec fn removal_from(item: ItemView, guid: ItemGuid, amount: u8, fresh: ItemGuid) -> Option<
    (ItemView, ItemView, (ItemGuid, int)),
>
    decreases item, 0int,
{
    match item.content {
        None => None,
        Some(content) => match removal(content, guid, amount, fresh) {
            None => None,
            Some(r) => Some(
                (
                    ItemView { content: Some(r.after), ..item },
                    r.item,
                    match r.index {
                        Some(i) => (item.guid, i),
                        None => r.parent->0,
                    },
                ),
            ),
        },
    }
}

proof fn lemma_removal_within(
    items: Seq<ItemView>,
    k: int,
    guid: ItemGuid,
    amount: u8,
    fresh: ItemGuid,
)
    requires
        0 <= k,
    ensures
        removal_within(items, k, guid, amount, fresh) matches Some(r) ==> r.index is None
            && r.parent is Some,
    decreases items.len() - k,
{
    if k < items.len() {
        lemma_removal_within(items, k + 1, guid, amount, fresh);
    }
}

/// The first of `items` from `k` on that is the item with this guid or has it in it.
pub open spec fn holding_in(items: Seq<ItemView>, k: int, guid: ItemGuid) -> Option<int>
    decreases items.len() - k,
{
    if k < 0 || k >= items.len() {
        None
    } else if found(items[k], guid) is Some {
        Some(k)
    } else {
        holding_in(items, k + 1, guid)
    }
}

pub proof fn lemma_holding_in(items: Seq<ItemView>, k: int, guid: ItemGuid)
    requires
        0 <= k,
    ensures
        match holding_in(items, k, guid) {
            Some(i) => k <= i < items.len() && found_in(items, k, guid) == found(items[i], guid)
                && found(items[i], guid) is Some,
            None => found_in(items, k, guid) is None,
        },
    decreases items.len() - k,
{
    if k < items.len() {
        lemma_holding_in(items, k + 1, guid);
    }
}

pub proof fn lemma_index(items: Seq<ItemView>, k: int, guid: ItemGuid)
    requires
        0 <= k,
    ensures
        index_in(items, k, guid) matches Some(i) ==> k <= i < items.len() && items[i].guid == guid,
    decreases items.len() - k,
{
    if k < items.len() {
        lemma_index(items, k + 1, guid);
    }
}

/// Why an item cannot be put into a container.
#[derive(Debug, Clone, Copy, PartialEq, Eq, Structural)]
pub enum PlaceError {
    /// The container is not there, or holds nothing.
    Missing,
    Full,
}

/// `item` with `new` in the place of the item with this guid: itself, or the first that lies in
/// it.
pub open spec fn with_found(item: ItemView, guid: ItemGuid, new: ItemView) -> ItemView
    decreases item,
{
    if item.guid == guid {
        new
    } else {
        match item.content {
            None => item,
            Some(content) => match holding_in(content, 0, guid) {
                None => item,
                Some(k) => {
                    proof {
                        lemma_holding_in(content, 0, guid);
                    }
                    ItemView {
                        content: Some(content.update(k, with_found(content[k], guid, new))),
                        ..item
                    }
                },
            },
        }
    }
}

/// Puts `new` at `slot` of the container with this guid. Each of `items` from `i` on is searched
/// for it in turn, itself and then what lies in it, until one holds something.
pub open spec fn placing(
    items: Seq<ItemView>,
    i: int,
    target: ItemGuid,
    slot: int,
    new: ItemView,
) -> Result<Seq<ItemView>, PlaceError>
    decreases items.len() - i,
{
    if i < 0 || i >= items.len() {
        Err(PlaceError::Missing)
    } else {
        match found(items[i], target) {
            None => placing(items, i + 1, target, slot, new),
            Some(container) => match container.content {
                None => placing(items, i + 1, target, slot, new),
                Some(content) => if content.len() >= container.config.capacity()->0 {
                    Err(PlaceError::Full)
                } else {
                    Ok(
                        items.update(
                            i,
                            with_found(
                                items[i],
                                target,
                                ItemView { content: Some(content.insert(slot, new)), ..container },
                            ),
                        ),
                    )
                },
            },
        }
    }
}

/// Whatever has this guid, of `items` from `i` on, says how much it holds, and where it has room
/// for something it has a place `slot`.
pub open spec fn can_place(items: Seq<ItemView>, i: int, target: ItemGuid, slot: int) -> bool
    decreases items.len() - i,
{
    if i < 0 || i >= items.len() {
        true
    } else {
        match found(items[i], target) {
            None => can_place(items, i + 1, target, slot),
            Some(container) => {
                &&& container.config.capacity() is Some
                &&& match container.content {
                    None => can_place(items, i + 1, target, slot),
                    Some(content) => content.len() < container.config.capacity()->0 ==> 0 <= slot
                        <= content.len(),
                }
            },
        }
    }
}

impl Item {
    /// A new item with this guid.
    pub fn new(config: Arc<ItemConfig>, amount: u8, guid: ItemGuid) -> (item: Item)
        ensures
            item@ == (ItemView {
                guid,
                config: *config,
                amount,
                content: fresh_content(*config),
                owner: None,
                fluid: None,
            }),
    {
        let content: Option<Vec<Item>> = if config.has_flag(ItemFlag::Container) {
            Some(Vec::new())
        } else {
            None
        };
        let item = Item { guid, config, amount, content, owner: None, fluid: None };
        proof {
            lemma_content_view(item);
            if item.content is Some {
                assert(item_views(item.content->0@) =~= Seq::empty());
            }
        }
        item
    }

    /// A new item that is filled with something.
    pub fn new_fluid(config: Arc<ItemConfig>, fluid: u8, guid: ItemGuid) -> (item: Item)
        ensures
            item@ == (ItemView {
                guid,
                config: *config,
                amount: 1,
                content: fresh_content(*config),
                owner: None,
                fluid: Some(fluid),
            }),
    {
        let mut item = Item::new(config, 1, guid);
        item.fluid = Some(fluid);
        item
    }

    /// Takes `amount` off the stack, as an item of its own.
    pub fn split_off(&mut self, amount: u8, guid: ItemGuid) -> (part: Item)
        requires
            amount <= old(self).amount,
        ensures
            final(self)@ == (ItemView {
                amount: (old(self).amount - amount) as u8,
                ..old(self)@
            }),
            part@ == part_of(old(self)@, amount, guid),
    {
        self.amount = self.amount - amount;
        let mut part = Item::new(share(&self.config), amount, guid);
        part.owner = self.owner;
        part.fluid = self.fluid;
        part
    }

    /// The same item once more, with what lies in it.
    pub fn copy(&self) -> (item: Item)
        ensures
            item@ == self@,
        decreases *self,
    {
        proof {
            lemma_content_view(*self);
        }
        let content: Option<Vec<Item>> = match &self.content {
            Some(content) => {
                let mut copies: Vec<Item> = Vec::new();
                let mut i: usize = 0;
                while i < content.len()
                    invariant
                        i <= content@.len(),
                        self.content == Some(*content),
                        self@.content == Some(item_views(content@)),
                        item_views(copies@) == item_views(content@).take(i as int),
                    decreases content.len() - i,
                {
                    assert(decreases_to!(*self => content@[i as int]));
                    let copy = content[i].copy();
                    let ghost before = item_views(copies@);
                    let ghost all = item_views(content@);
                    copies.push(copy);
                    assert(item_views(copies@) =~= before.push(all[i as int]));
                    assert(all.take(i + 1) =~= all.take(i as int).push(all[i as int]));
                    i += 1;
                }
                assert(item_views(copies@) =~= item_views(content@));
                Some(copies)
            },
            None => None,
        };
        let item = Item {
            guid: self.guid,
            config: share(&self.config),
            amount: self.amount,
            content,
            owner: self.owner,
            fluid: self.fluid,
        };
        proof {
            lemma_content_view(item);
        }
        item
    }

    /// The item with this guid: this one, or one that lies in it.
    pub fn find_by_guid(&self, guid: ItemGuid) -> (r: Option<&Item>)
        ensures
            match r {
                Some(item) => found(self@, guid) == Some(item@),
                None => found(self@, guid) is None,
            },
        decreases *self,
    {
        if self.guid == guid {
            return Some(self);
        }
        match &self.content {
            Some(content) => {
                proof {
                    lemma_content_view(*self);
                }
                let mut i: usize = 0;
                while i < content.len()
                    invariant
                        i <= content@.len(),
                        self.content == Some(*content),
                        found(self@, guid) == found_in(item_views(content@), i as int, guid),
                    decreases content.len() - i,
                {
                    assert(decreases_to!(*self => content@[i as int]));
                    if let Some(item) = content[i].find_by_guid(guid) {
                        return Some(item);
                    }
                    i += 1;
                }
                None
            },
            None => None,
        }
    }

    /// The container that the item with this guid lies in, `parent` being that of this item;
    /// nothing where the item is not there at all.
    pub fn find_parent(&self, guid: ItemGuid, parent: Option<ItemGuid>) -> (r: Option<
        Option<ItemGuid>,
    >)
        ensures
            r == parent_of(self@, guid, parent),
        decreases *self,
    {
        if self.guid == guid {
            return Some(parent);
        }
        match &self.content {
            Some(content) => {
                proof {
                    lemma_content_view(*self);
                }
                let mut i: usize = 0;
                while i < content.len()
                    invariant
                        i <= content@.len(),
                        self.content == Some(*content),
                        parent_of(self@, guid, parent) == parent_in(
                            item_views(content@),
                            i as int,
                            guid,
                            Some(self.guid),
                        ),
                    decreases content.len() - i,
                {
                    assert(decreases_to!(*self => content@[i as int]));
                    let found = content[i].find_parent(guid, Some(self.guid));
                    if found.is_some() {
                        return found;
                    }
                    i += 1;
                }
                None
            },
            None => None,
        }
    }

    /// More of `other` can be put on this stack.
    pub open spec fn stackable_with(&self, other: &Item) -> bool {
        &&& self.config.flagged(ItemFlag::Cumulative)
        &&& self.config.id == other.config.id
        &&& self.amount < MAX_STACK_AMOUNT
    }

    /// Whether more of `other` can be put on this stack.
    pub fn stacks_with(&self, other: &Item) -> (r: bool)
        ensures
            r == self.stackable_with(other),
    {
        self.config.has_flag(ItemFlag::Cumulative) && self.config.id == other.config.id
            && self.amount < MAX_STACK_AMOUNT
    }

    /// Moves as much of `other` onto this stack as it has room for.
    pub fn top_up_from(&mut self, other: &mut Item) -> (moved: u8)
        requires
            old(self).amount <= MAX_STACK_AMOUNT,
        ensures
            moved == moved_onto(old(self).amount, old(other).amount),
            final(self)@ == (ItemView {
                amount: (old(self).amount + moved) as u8,
                ..old(self)@
            }),
            final(other)@ == (ItemView {
                amount: (old(other).amount - moved) as u8,
                ..old(other)@
            }),
    {
        let room: u8 = MAX_STACK_AMOUNT - self.amount;
        let moved: u8 = if other.amount < room {
            other.amount
        } else {
            room
        };
        self.amount = self.amount + moved;
        other.amount = other.amount - moved;
        moved
    }
}

/// How much of `from` goes onto a stack of `onto`.
pub open spec fn moved_onto(onto: u8, from: u8) -> u8 {
    let room = MAX_STACK_AMOUNT - onto;
    if from < room {
        from
    } else {
        room as u8
    }
}

/// What goes onto a stack is neither lost nor doubled, and the stack holds no more than it may.
pub proof fn law_stacking_keeps_the_amount(onto: u8, from: u8)
    requires
        onto <= MAX_STACK_AMOUNT,
    ensures
        ({
            let moved = moved_onto(onto, from);
            &&& moved <= from
            &&& onto + moved <= MAX_STACK_AMOUNT
            &&& (onto + moved) + (from - moved) == onto + from
            &&& from - moved > 0 ==> onto + moved == MAX_STACK_AMOUNT
        }),
{
}

/// What was taken out of a list of items.
#[derive(Debug)]
pub struct RemovedItem {
    pub item: Item,
    /// Its place, where it stood in the list itself.
    pub index: Option<usize>,
    /// Else the container that it lay in, and its place there.
    pub parent: Option<(ItemGuid, usize)>,
}

pub open spec fn place_view(place: Option<(ItemGuid, usize)>) -> Option<(ItemGuid, int)> {
    match place {
        Some((guid, i)) => Some((guid, i as int)),
        None => None,
    }
}

pub open spec fn index_view(index: Option<usize>) -> Option<int> {
    match index {
        Some(i) => Some(i as int),
        None => None,
    }
}

/// The removal came to this.
pub open spec fn removes(
    r: Option<RemovedItem>,
    before: Seq<ItemView>,
    later: Seq<ItemView>,
    guid: ItemGuid,
    amount: u8,
    fresh: ItemGuid,
) -> bool {
    match r {
        Some(removed) => removal(before, guid, amount, fresh) == Some(
            Removal {
                after: later,
                item: removed.item@,
                index: index_view(removed.index),
                parent: place_view(removed.parent),
            },
        ),
        None => removal(before, guid, amount, fresh) is None && later == before,
    }
}

/// The place of the item with this guid.
pub fn position_of(items: &Vec<Item>, guid: ItemGuid) -> (r: Option<usize>)
    ensures
        index_view(r) == index_in(item_views(items@), 0, guid),
        r matches Some(i) ==> i < items@.len(),
{
    let mut i: usize = 0;
    while i < items.len()
        invariant
            i <= items@.len(),
            index_in(item_views(items@), 0, guid) == index_in(
                item_views(items@),
                i as int,
                guid,
            ),
        decreases items.len() - i,
    {
        if items[i].guid == guid {
            return Some(i);
        }
        i += 1;
    }
    None
}

/// The first item that is the one with this guid or has it in it.
pub fn holding_of(items: &Vec<Item>, guid: ItemGuid) -> (r: Option<usize>)
    ensures
        index_view(r) == holding_in(item_views(items@), 0, guid),
        r matches Some(k) ==> k < items@.len(),
{
    let mut k: usize = 0;
    while k < items.len()
        invariant
            k <= items@.len(),
            holding_in(item_views(items@), 0, guid) == holding_in(
                item_views(items@),
                k as int,
                guid,
            ),
        decreases items.len() - k,
    {
        if items[k].find_by_guid(guid).is_some() {
            return Some(k);
        }
        k += 1;
    }
    None
}

/// Takes `amount` of the item with this guid out of the items or out of what lies in them.
pub fn remove_from(items: &mut Vec<Item>, guid: ItemGuid, amount: u8, fresh: ItemGuid) -> (r: Option<
    RemovedItem,
>)
    ensures
        removes(r, item_views(old(items)@), item_views(final(items)@), guid, amount, fresh),
    decreases old(items)@, 0int,
{
    let ghost before = item_views(items@);
    if let Some(i) = position_of(items, guid) {
        let held: u8 = items[i].amount;
        if held > amount {
            let item = items[i].split_off(amount, fresh);
            assert(item_views(items@) =~= taken_at(before, i as int, amount, fresh).unwrap().0);
            return Some(RemovedItem { item, index: Some(i), parent: None });
        } else if held == amount {
            let item = items.remove(i);
            assert(item_views(items@) =~= taken_at(before, i as int, amount, fresh).unwrap().0);
            return Some(RemovedItem { item, index: Some(i), parent: None });
        } else {
            return None;
        }
    }
    let mut k: usize = 0;
    while k < items.len()
        invariant
            k <= items@.len(),
            items@.len() == old(items)@.len(),
            before == item_views(old(items)@),
            item_views(items@) == before,
            forall|j: int| k <= j < items@.len() ==> #[trigger] items@[j] == old(items)@[j],
            removal(before, guid, amount, fresh) == removal_within(
                before,
                k as int,
                guid,
                amount,
                fresh,
            ),
        decreases items.len() - k,
    {
        assert(decreases_to!(old(items)@ => items@[k as int]));
        let r = remove_nested(&mut items[k], guid, amount, fresh);
        if r.is_some() {
            assert(item_views(items@) =~= removal(before, guid, amount, fresh).unwrap().after);
            return r;
        }
        assert(item_views(items@) =~= before);
        k += 1;
    }
    None
}

/// Takes `amount` of the item with this guid out of what lies in `item`.
pub fn remove_nested(item: &mut Item, guid: ItemGuid, amount: u8, fresh: ItemGuid) -> (r: Option<
    RemovedItem,
>)
    ensures
        match removal_from(old(item)@, guid, amount, fresh) {
            Some((after, taken, parent)) => {
                &&& r matches Some(removed)
                &&& final(item)@ == after
                &&& removed.item@ == taken
                &&& removed.index is None
                &&& place_view(removed.parent) == Some(parent)
            },
            None => r is None && final(item)@ == old(item)@,
        },
    decreases *old(item), 0int,
{
    proof {
        lemma_content_view(*item);
    }
    let parent: ItemGuid = item.guid;
    match &mut item.content {
        Some(content) => {
            assert(decreases_to!(*old(item) => content@));
            let ghost before = item_views(content@);
            let r = remove_from(content, guid, amount, fresh);
            proof {
                lemma_content_view(*item);
                lemma_removal_within(before, 0, guid, amount, fresh);
            }
            match r {
                Some(removed) => {
                    let place: Option<(ItemGuid, usize)> = match removed.index {
                        Some(i) => Some((parent, i)),
                        None => removed.parent,
                    };
                    Some(RemovedItem { item: removed.item, index: None, parent: place })
                },
                None => None,
            }
        },
        None => None,
    }
}

/// The placing came to this.
pub open spec fn places(
    r: Result<(), PlaceError>,
    before: Seq<ItemView>,
    later: Seq<ItemView>,
    target: ItemGuid,
    slot: int,
    new: ItemView,
) -> bool {
    match placing(before, 0, target, slot, new) {
        Err(error) => r == Err::<(), PlaceError>(error) && later == before,
        Ok(after) => r == Ok::<(), PlaceError>(()) && later == after,
    }
}

/// Whether something can be put into the container with this guid, which is `item` or lies in
/// it; nothing where there is none that holds anything.
pub fn has_room_within(item: &Item, target: ItemGuid) -> (r: Option<bool>)
    requires
        found(item@, target) matches Some(container) ==> container.config.capacity() is Some,
    ensures
        r == match found(item@, target) {
            None => None,
            Some(container) => match container.content {
                None => None,
                Some(content) => Some(content.len() < container.config.capacity()->0),
            },
        },
{
    match item.find_by_guid(target) {
        None => None,
        Some(container) => {
            proof {
                lemma_content_view(*container);
            }
            match (&container.content, container.config.attr_capacity()) {
                (Some(content), Some(capacity)) => Some(content.len() < capacity as usize),
                _ => None,
            }
        },
    }
}

/// Puts `new` at `slot` of the container with this guid, which is `item` or lies in it.
pub fn put_within(item: &mut Item, target: ItemGuid, slot: usize, new: Item)
    requires
        found(old(item)@, target) matches Some(container) && container.content matches Some(content)
            && slot <= content.len(),
    ensures
        ({
            let container = found(old(item)@, target)->0;
            final(item)@ == with_found(
                old(item)@,
                target,
                ItemView {
                    content: Some(container.content->0.insert(slot as int, new@)),
                    ..container
                },
            )
        }),
    decreases *old(item),
{
    proof {
        lemma_content_view(*item);
    }
    let here: bool = item.guid == target;
    if let Some(content) = &mut item.content {
        let ghost before = item_views(content@);
        if here {
            content.insert(slot, new);
            assert(item_views(content@) =~= before.insert(slot as int, new@));
            proof {
                lemma_content_view(*item);
            }
        } else {
            proof {
                lemma_holding_in(before, 0, target);
            }
            if let Some(k) = holding_of(content, target) {
                assert(decreases_to!(*old(item) => content@[k as int]));
                put_within(&mut content[k], target, slot, new);
                proof {
                    lemma_content_view(*item);
                    assert(item_views(item.content->0@) =~= before.update(
                        k as int,
                        item.content->0@[k as int]@,
                    ));
                }
            }
        }
    }
}

/// What is taken out of a list and what stays behind are together what was there: a part and the
/// rest of its stack add up to the stack.
pub proof fn law_a_split_keeps_the_amount(items: Seq<ItemView>, i: int, amount: u8, fresh: ItemGuid)
    requires
        0 <= i < items.len(),
    ensures
        match taken_at(items, i, amount, fresh) {
            Some((after, part)) => {
                &&& part.amount == amount
                &&& if items[i].amount > amount {
                    after.len() == items.len() && after[i].amount + part.amount == items[i].amount
                        && after[i].guid == items[i].guid
                } else {
                    after == items.remove(i) && part == items[i]
                }
            },
            None => items[i].amount < amount,
        },
{
}

/// How many of one kind of item there are here, the item itself and all that lies in it.
pub open spec fn count_of(item: ItemView, id: ItemId) -> int
    decreases item, 0int,
{
    (if item.config.id == id {
        item.amount as int
    } else {
        0
    }) + match item.content {
        Some(content) => count_among(content, content.len(), id),
        None => 0,
    }
}

/// How many of one kind there are among the first `n` items and in them.
pub open spec fn count_among(items: Seq<ItemView>, n: nat, id: ItemId) -> int
    decreases items, n,
{
    if n == 0 || n > items.len() {
        0
    } else {
        count_among(items, (n - 1) as nat, id) + count_of(items[n - 1], id)
    }
}

pub proof fn lemma_count_updated(items: Seq<ItemView>, n: nat, i: int, item: ItemView, id: ItemId)
    requires
        0 <= i < items.len(),
        n <= items.len(),
    ensures
        count_among(items.update(i, item), n, id) == count_among(items, n, id) + (if i < n {
            count_of(item, id) - count_of(items[i], id)
        } else {
            0
        }),
    decreases n,
{
    if n > 0 {
        lemma_count_updated(items, (n - 1) as nat, i, item, id);
    }
}

proof fn lemma_count_removed(items: Seq<ItemView>, n: nat, i: int, id: ItemId)
    requires
        0 <= i < items.len(),
        n < items.len(),
    ensures
        count_among(items.remove(i), n, id) == (if i < n {
            count_among(items, n + 1, id) - count_of(items[i], id)
        } else {
            count_among(items, n, id)
        }),
    decreases n,
{
    if n > 0 {
        lemma_count_removed(items, (n - 1) as nat, i, id);
        assert(count_among(items, n, id) == count_among(items, (n - 1) as nat, id) + count_of(
            items[n - 1],
            id,
        ));
    }
}

proof fn lemma_count_inserted(items: Seq<ItemView>, n: nat, i: int, item: ItemView, id: ItemId)
    requires
        0 <= i <= items.len(),
        n <= items.len() + 1,
    ensures
        count_among(items.insert(i, item), n, id) == (if i < n {
            count_among(items, (n - 1) as nat, id) + count_of(item, id)
        } else {
            count_among(items, n, id)
        }),
    decreases n,
{
    if n > 0 {
        lemma_count_inserted(items, (n - 1) as nat, i, item, id);
    }
}

/// Whether an item with this guid lies at this place of a container with that guid, which is the
/// item itself or lies somewhere in it.
pub open spec fn lies_at(item: ItemView, container: ItemGuid, index: int, guid: ItemGuid) -> bool
    decreases item,
{
    match item.content {
        None => false,
        Some(content) => {
            ||| item.guid == container && 0 <= index < content.len() && content[index].guid == guid
            ||| exists|k: int|
                0 <= k < content.len() && lies_at(#[trigger] content[k], container, index, guid)
        },
    }
}

/// Nothing is lost or made where something is taken: what is taken and what is left come to what
/// was there, of every kind. As many are taken as were asked for, of the item with that guid, and
/// the place it is said to have had is where it lay.
pub proof fn law_what_is_taken_is_no_longer_there(
    items: Seq<ItemView>,
    guid: ItemGuid,
    amount: u8,
    fresh: ItemGuid,
    id: ItemId,
)
    ensures
        removal(items, guid, amount, fresh) matches Some(r) ==> {
            &&& count_among(items, items.len(), id) == count_among(r.after, r.after.len(), id)
                + count_of(r.item, id)
            &&& r.item.amount == amount
            &&& r.item.guid == guid || r.item.guid == fresh
            &&& r.index matches Some(i) ==> 0 <= i < items.len() && items[i].guid == guid
                && items[i].config == r.item.config && r.parent is None
            &&& r.index is None ==> (r.parent matches Some((container, index)) && exists|k: int|
                0 <= k < items.len() && lies_at(#[trigger] items[k], container, index, guid))
        },
    decreases items, items.len() + 1,
{
    match index_in(items, 0, guid) {
        Some(i) => {
            lemma_index(items, 0, guid);
            if items[i].amount > amount {
                let less = ItemView { amount: (items[i].amount - amount) as u8, ..items[i] };
                lemma_count_updated(items, items.len(), i, less, id);
                let part = part_of(items[i], amount, fresh);
                if let Some(content) = part.content {
                    assert(content.len() == 0);
                }
            } else if items[i].amount == amount {
                lemma_count_removed(items, (items.len() - 1) as nat, i, id);
            }
        },
        None => {
            lemma_taken_within(items, 0, guid, amount, fresh, id);
        },
    }
}

proof fn lemma_taken_within(
    items: Seq<ItemView>,
    k: int,
    guid: ItemGuid,
    amount: u8,
    fresh: ItemGuid,
    id: ItemId,
)
    requires
        0 <= k,
    ensures
        removal_within(items, k, guid, amount, fresh) matches Some(r) ==> {
            &&& count_among(items, items.len(), id) == count_among(r.after, r.after.len(), id)
                + count_of(r.item, id)
            &&& r.item.amount == amount
            &&& r.item.guid == guid || r.item.guid == fresh
            &&& r.index is None
            &&& r.parent matches Some((container, index)) && exists|j: int|
                0 <= j < items.len() && lies_at(#[trigger] items[j], container, index, guid)
        },
    decreases items, items.len() - k,
{
    if k < items.len() {
        lemma_taken_from(items[k], guid, amount, fresh, id);
        match removal_from(items[k], guid, amount, fresh) {
            Some((item, taken, parent)) => {
                lemma_count_updated(items, items.len(), k, item, id);
                assert(lies_at(items[k], parent.0, parent.1, guid));
            },
            None => {
                lemma_taken_within(items, k + 1, guid, amount, fresh, id);
            },
        }
    }
}

proof fn lemma_taken_from(item: ItemView, guid: ItemGuid, amount: u8, fresh: ItemGuid, id: ItemId)
    ensures
        removal_from(item, guid, amount, fresh) matches Some((after, taken, parent)) ==> {
            &&& count_of(item, id) == count_of(after, id) + count_of(taken, id)
            &&& taken.amount == amount
            &&& taken.guid == guid || taken.guid == fresh
            &&& lies_at(item, parent.0, parent.1, guid)
            &&& after.guid == item.guid
        },
    decreases item, 0int,
{
    if let Some(content) = item.content {
        law_what_is_taken_is_no_longer_there(content, guid, amount, fresh, id);
        if let Some(r) = removal(content, guid, amount, fresh) {
            match r.index {
                Some(i) => {
                    assert(lies_at(item, item.guid, i, guid));
                },
                None => {
                    let (container, index) = r.parent.unwrap();
                    let k = choose|k: int|
                        0 <= k < content.len() && lies_at(
                            #[trigger] content[k],
                            container,
                            index,
                            guid,
                        );
                    assert(lies_at(content[k], container, index, guid));
                    assert(lies_at(item, container, index, guid));
                },
            }
        }
    }
}

proof fn lemma_with_found(item: ItemView, guid: ItemGuid, new: ItemView, id: ItemId)
    requires
        found(item, guid) is Some,
    ensures
        count_of(with_found(item, guid, new), id) == count_of(item, id) - count_of(
            found(item, guid).unwrap(),
            id,
        ) + count_of(new, id),
        new.guid == guid ==> found(with_found(item, guid, new), guid) == Some(new),
    decreases item,
{
    if item.guid != guid {
        let content = item.content.unwrap();
        lemma_holding_in(content, 0, guid);
        let k = holding_in(content, 0, guid).unwrap();
        lemma_with_found(content[k], guid, new, id);
        lemma_count_updated(
            content,
            content.len(),
            k,
            with_found(content[k], guid, new),
            id,
        );
        if new.guid == guid {
            lemma_found_updated(content, 0, k, with_found(content[k], guid, new), guid);
        }
    }
}

proof fn lemma_found_updated(items: Seq<ItemView>, i: int, k: int, item: ItemView, guid: ItemGuid)
    requires
        0 <= i <= k < items.len(),
        holding_in(items, i, guid) == Some(k),
        found(item, guid) is Some,
    ensures
        found_in(items.update(k, item), i, guid) == found(item, guid),
    decreases k - i,
{
    if i < k {
        if found(items[i], guid) is Some {
            assert(holding_in(items, i, guid) == Some(i));
        }
        lemma_found_updated(items, i + 1, k, item, guid);
    }
}

/// What is put into a container is afterwards at its place in it, and nothing else comes or goes.
/// A container that is full takes nothing.
pub proof fn law_what_is_put_into_a_container_is_there(
    items: Seq<ItemView>,
    i: int,
    target: ItemGuid,
    slot: int,
    new: ItemView,
    id: ItemId,
)
    requires
        0 <= i,
        can_place(items, i, target, slot),
    ensures
        placing(items, i, target, slot, new) matches Ok(after) ==> {
            &&& count_among(after, after.len(), id) == count_among(items, items.len(), id)
                + count_of(new, id)
            &&& exists|k: int|
                0 <= k < items.len() && (found(items[k], target) matches Some(before) && (
                before.content matches Some(content) && content.len()
                    < before.config.capacity().unwrap() && (found(
                    #[trigger] after[k],
                    target,
                ) matches Some(container) && container.content == Some(content.insert(slot, new)))))
        },
        placing(items, i, target, slot, new) == Err::<Seq<ItemView>, PlaceError>(PlaceError::Full)
            ==> exists|k: int|
            0 <= k < items.len() && (found(#[trigger] items[k], target) matches Some(container) && (
            container.content matches Some(content) && content.len()
                >= container.config.capacity().unwrap())),
    decreases items.len() - i,
{
    if i < items.len() {
        match found(items[i], target) {
            None => {
                law_what_is_put_into_a_container_is_there(items, i + 1, target, slot, new, id);
            },
            Some(container) => match container.content {
                None => {
                    law_what_is_put_into_a_container_is_there(items, i + 1, target, slot, new, id);
                },
                Some(content) => {
                    lemma_found_guid(items[i], target);
                    if content.len() >= container.config.capacity()->0 {
                        assert(found(items[i], target) == Some(container));
                    } else {
                        let fuller = ItemView {
                            content: Some(content.insert(slot, new)),
                            ..container
                        };
                        lemma_with_found(items[i], target, fuller, id);
                        lemma_count_inserted(content, content.len() + 1, slot, new, id);
                        let item = with_found(items[i], target, fuller);
                        lemma_count_updated(items, items.len(), i, item, id);
                        let after = items.update(i, item);
                        assert(found(after[i], target) == Some(fuller));
                    }
                },
            },
        }
    }
}

proof fn lemma_found_guid(item: ItemView, guid: ItemGuid)
    ensures
        found(item, guid) matches Some(f) ==> f.guid == guid,
    decreases item,
{
    if item.guid != guid {
        if let Some(content) = item.content {
            lemma_holding_in(content, 0, guid);
            if let Some(k) = holding_in(content, 0, guid) {
                lemma_found_guid(content[k], guid);
            }
        }
    }
}

/// Whether the item with this guid is here, be it the item itself or anything that lies in it.
pub open spec fn is_in(item: ItemView, guid: ItemGuid) -> bool
    decreases item,
{
    item.guid == guid || (item.content matches Some(content) && exists|k: int|
        0 <= k < content.len() && is_in(#[trigger] content[k], guid))
}

/// An item is found just where it is, and what is found is the item that was asked for. The
/// container it is said to lie in is one that it lies in.
pub proof fn law_items_are_found_where_they_are(item: ItemView, guid: ItemGuid)
    ensures
        found(item, guid) is Some <==> is_in(item, guid),
        found(item, guid) matches Some(f) ==> f.guid == guid,
        parent_of(item, guid, None) is Some <==> is_in(item, guid),
        parent_of(item, guid, None) == Some(None::<ItemGuid>) <==> item.guid == guid,
        parent_of(item, guid, None) matches Some(Some(container)) ==> exists|index: int|
            #[trigger] lies_at(item, container, index, guid),
{
    lemma_found_where(item, guid);
    lemma_found_guid(item, guid);
    lemma_parent_where(item, guid, None);
}

proof fn lemma_found_where(item: ItemView, guid: ItemGuid)
    ensures
        found(item, guid) is Some <==> is_in(item, guid),
    decreases item, 0int,
{
    if item.guid != guid {
        if let Some(content) = item.content {
            lemma_found_among(content, 0, guid);
        }
    }
}

proof fn lemma_found_among(items: Seq<ItemView>, i: int, guid: ItemGuid)
    requires
        0 <= i,
    ensures
        found_in(items, i, guid) is Some <==> exists|k: int|
            i <= k < items.len() && is_in(#[trigger] items[k], guid),
    decreases items, items.len() - i,
{
    if i < items.len() {
        lemma_found_where(items[i], guid);
        lemma_found_among(items, i + 1, guid);
    }
}

proof fn lemma_parent_where(item: ItemView, guid: ItemGuid, parent: Option<ItemGuid>)
    ensures
        parent_of(item, guid, parent) is Some <==> is_in(item, guid),
        item.guid == guid ==> parent_of(item, guid, parent) == Some(parent),
        item.guid != guid ==> (parent_of(item, guid, parent) matches Some(p) ==> (p matches Some(
            container,
        ) && exists|index: int| #[trigger] lies_at(item, container, index, guid))),
    decreases item, 0int,
{
    if item.guid != guid {
        if let Some(content) = item.content {
            lemma_parent_among(content, 0, guid, item.guid);
            if let Some(p) = parent_in(content, 0, guid, Some(item.guid)) {
                let container = p.unwrap();
                if exists|k: int| 0 <= k < content.len() && (#[trigger] content[k]).guid == guid
                    && container == item.guid {
                    let k = choose|k: int|
                        0 <= k < content.len() && (#[trigger] content[k]).guid == guid && container
                            == item.guid;
                    assert(lies_at(item, container, k, guid));
                } else {
                    let (k, index) = choose|k: int, index: int|
                        0 <= k < content.len() && #[trigger] lies_at(
                            content[k],
                            container,
                            index,
                            guid,
                        );
                    assert(lies_at(item, container, index, guid));
                }
            }
        }
    }
}

proof fn lemma_parent_among(items: Seq<ItemView>, i: int, guid: ItemGuid, parent: ItemGuid)
    requires
        0 <= i,
    ensures
        parent_in(items, i, guid, Some(parent)) is Some <==> exists|k: int|
            i <= k < items.len() && is_in(#[trigger] items[k], guid),
        parent_in(items, i, guid, Some(parent)) matches Some(p) ==> (p matches Some(container) && ((
        exists|k: int|
            0 <= k < items.len() && (#[trigger] items[k]).guid == guid && container == parent) || (
        exists|k: int, index: int|
            0 <= k < items.len() && #[trigger] lies_at(items[k], container, index, guid)))),
    decreases items, items.len() - i,
{
    if i < items.len() {
        lemma_parent_where(items[i], guid, Some(parent));
        if parent_of(items[i], guid, Some(parent)) is None {
            lemma_parent_among(items, i + 1, guid, parent);
        } else {
            assert(is_in(items[i], guid));
            if items[i].guid != guid {
                let container = parent_of(items[i], guid, Some(parent)).unwrap().unwrap();
                let index = choose|index: int| #[trigger] lies_at(items[i], container, index, guid);
                assert(lies_at(items[i], container, index, guid));
            }
        }
    }
}

} // verus!
