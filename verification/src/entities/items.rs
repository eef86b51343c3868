//! Items, what is known of each kind, and how they are pointed at.

use crate::entities::agent::AgentKey;
use crate::entities::conditions::ConditionSpec;
use crate::entities::inventory::InventorySlot;
use crate::entities::position::Position;
use crate::game::tick::TickDelta;
use vstd::prelude::*;

verus! {

/// A kind of item.
#[derive(Debug, Clone, Copy, PartialEq, Eq, PartialOrd, Ord, Hash, Structural)]
pub struct ItemId(pub u16);

/// One item, told from every other.
#[derive(Debug, Clone, Copy, PartialEq, Eq, PartialOrd, Ord, Hash, Structural)]
pub struct ItemGuid(pub u64);

/// The number by which one client knows an open container.
#[derive(Debug, Clone, Copy, PartialEq, Eq, PartialOrd, Ord, Hash, Structural)]
pub struct ContainerId(pub u16);

/// How a client points at an item.
#[derive(Debug, Clone, Copy, PartialEq, Eq, Structural)]
pub struct ClientItemRef {
    pub position: Position,
    pub item_id: ItemId,
    pub stack_index: u8,
}

/// Where an item is: on a tile, in an inventory slot, or in a container that is at some place
/// itself.
#[derive(Debug, PartialEq, Eq)]
pub enum ItemPlacement {
    Tile(Position),
    Inventory(InventorySlot, AgentKey),
    Container { guid: ItemGuid, within: Box<ItemPlacement>, index: usize },
}

/// The tile or the slot that a placement comes down to.
#[derive(Debug, Clone, Copy, PartialEq, Eq, Structural)]
pub enum PlacementSite {
    Tile(Position),
    Slot(InventorySlot, AgentKey),
}

/// The tile or the slot that a placement comes down to.
pub open spec fn site_of(placement: ItemPlacement) -> PlacementSite
    decreases placement,
{
    match placement {
        ItemPlacement::Tile(position) => PlacementSite::Tile(position),
        ItemPlacement::Inventory(slot, key) => PlacementSite::Slot(slot, key),
        ItemPlacement::Container { within, .. } => site_of(*within),
    }
}

impl ItemPlacement {
    /// The tile or the slot that the placement comes down to.
    pub fn site(&self) -> (site: PlacementSite)
        ensures
            site == site_of(*self),
        decreases *self,
    {
        match self {
            ItemPlacement::Tile(position) => PlacementSite::Tile(*position),
            ItemPlacement::Inventory(slot, key) => PlacementSite::Slot(*slot, *key),
            ItemPlacement::Container { within, .. } => within.site(),
        }
    }

    /// The container that the item is in, and its place there.
    pub fn container(&self) -> (r: Option<(ItemGuid, usize)>)
        ensures
            r == match *self {
                ItemPlacement::Container { guid, index, .. } => Some((guid, index)),
                _ => None,
            },
    {
        match self {
            ItemPlacement::Container { guid, index, .. } => Some((*guid, *index)),
            _ => None,
        }
    }

    /// The same placement once more.
    pub fn copy(&self) -> (r: ItemPlacement)
        ensures
            r == *self,
        decreases *self,
    {
        match self {
            ItemPlacement::Tile(position) => ItemPlacement::Tile(*position),
            ItemPlacement::Inventory(slot, key) => ItemPlacement::Inventory(*slot, *key),
            ItemPlacement::Container { guid, within, index } => ItemPlacement::Container {
                guid: *guid,
                within: Box::new(within.copy()),
                index: *index,
            },
        }
    }
}

/// One item, and where it is.
#[derive(Debug, PartialEq, Eq)]
pub struct ItemRef {
    pub guid: ItemGuid,
    pub placement: ItemPlacement,
}

/// A yes-or-no property of a kind of item.
#[derive(Debug, Clone, Copy, PartialEq, Eq, Hash, Structural)]
pub enum ItemFlag {
    /// It is ground that can be stood on.
    Ground,
    /// It cannot be walked through.
    Unpass,
    /// It holds other items.
    Container,
    /// Several of it are kept as one item with an amount.
    Cumulative,
    /// It can be picked up.
    Take,
    /// No field takes its place.
    Unreplaceable,
    /// It does something when used.
    Usable,
    /// Items can be dropped on it.
    FullBank,
    /// It covers what lies under it.
    Bottom,
    /// Creatures keep away from it.
    Avoid,
}

/// Where stepping on an item leads: a floor up or down, and up to the named side.
#[derive(Debug, Clone, Copy, PartialEq, Eq, Hash, Structural)]
pub enum FloorChangeDirection {
    Up,
    Down,
    North,
    East,
    South,
    West,
}

/// What using an item does.
#[derive(Debug, Clone, Copy, PartialEq, Eq, Structural)]
pub enum ItemAction {
    Transform { into: ItemId },
    Door { new: ItemId },
    Food { duration: TickDelta, message_index: usize },
}

/// A property of a kind of item that carries a value.
#[derive(Debug, Clone, Copy, PartialEq, Eq, Structural)]
pub enum ItemAttribute {
    TileFriction(u16),
    Capacity(u8),
    Weight(u32),
    FloorChange(FloorChangeDirection),
    /// What befalls who steps on it.
    Field(ConditionSpec),
    /// After how long it turns into what.
    Decay(TickDelta, ItemId),
    Action(ItemAction),
    Speed(i16),
}

/// Which property an `ItemAttribute` gives a value to.
#[derive(Debug, Clone, Copy, PartialEq, Eq, Structural)]
pub enum AttributeKind {
    TileFriction,
    Capacity,
    Weight,
    FloorChange,
    Field,
    Decay,
    Action,
    Speed,
}

pub open spec fn attribute_kind(attribute: ItemAttribute) -> AttributeKind {
    match attribute {
        ItemAttribute::TileFriction(_) => AttributeKind::TileFriction,
        ItemAttribute::Capacity(_) => AttributeKind::Capacity,
        ItemAttribute::Weight(_) => AttributeKind::Weight,
        ItemAttribute::FloorChange(_) => AttributeKind::FloorChange,
        ItemAttribute::Field(_) => AttributeKind::Field,
        ItemAttribute::Decay(_, _) => AttributeKind::Decay,
        ItemAttribute::Action(_) => AttributeKind::Action,
        ItemAttribute::Speed(_) => AttributeKind::Speed,
    }
}

impl ItemAttribute {
    fn kind(&self) -> (k: AttributeKind)
        ensures
            k == attribute_kind(*self),
    {
        match self {
            ItemAttribute::TileFriction(_) => AttributeKind::TileFriction,
            ItemAttribute::Capacity(_) => AttributeKind::Capacity,
            ItemAttribute::Weight(_) => AttributeKind::Weight,
            ItemAttribute::FloorChange(_) => AttributeKind::FloorChange,
            ItemAttribute::Field(_) => AttributeKind::Field,
            ItemAttribute::Decay(_, _) => AttributeKind::Decay,
            ItemAttribute::Action(_) => AttributeKind::Action,
            ItemAttribute::Speed(_) => AttributeKind::Speed,
        }
    }
}

/// What is known of a kind of item.
#[derive(Debug)]
pub struct ItemConfig {
    pub id: ItemId,
    pub name: String,
    pub flags: Vec<ItemFlag>,
    pub attributes: Vec<ItemAttribute>,
}

/// The first attribute of a kind.
pub open spec fn first_attribute(attributes: Seq<ItemAttribute>, kind: AttributeKind) -> Option<
    ItemAttribute,
>
    decreases attributes.len(),
{
    if attributes.len() == 0 {
        None
    } else if attribute_kind(attributes[0]) == kind {
        Some(attributes[0])
    } else {
        first_attribute(attributes.drop_first(), kind)
    }
}

proof fn lemma_first_attribute(attributes: Seq<ItemAttribute>, kind: AttributeKind)
    ensures
        first_attribute(attributes, kind) matches Some(a) ==> attribute_kind(a) == kind,
    decreases attributes.len(),
{
    if attributes.len() > 0 {
        lemma_first_attribute(attributes.drop_first(), kind);
    }
}

impl ItemConfig {
    pub fn new(id: ItemId, name: String, flags: Vec<ItemFlag>, attributes: Vec<ItemAttribute>) -> (c:
        ItemConfig)
        ensures
            c == (ItemConfig { id, name, flags, attributes }),
    {
        ItemConfig { id, name, flags, attributes }
    }

    pub open spec fn flagged(&self, flag: ItemFlag) -> bool {
        self.flags@.contains(flag)
    }

    pub fn has_flag(&self, flag: ItemFlag) -> (r: bool)
        ensures
            r == self.flagged(flag),
    {
        let mut i: usize = 0;
        while i < self.flags.len()
            invariant
                i <= self.flags.len(),
                forall|j: int| 0 <= j < i ==> self.flags@[j] != flag,
            decreases self.flags.len() - i,
        {
            if self.flags[i] == flag {
                return true;
            }
            i += 1;
        }
        false
    }

    /// The first attribute of a kind.
    pub fn attribute(&self, kind: AttributeKind) -> (r: Option<ItemAttribute>)
        ensures
            r == first_attribute(self.attributes@, kind),
            r matches Some(a) ==> attribute_kind(a) == kind,
    {
        proof {
            lemma_first_attribute(self.attributes@, kind);
        }
        let mut i: usize = 0;
        assert(self.attributes@.skip(0) =~= self.attributes@);
        while i < self.attributes.len()
            invariant
                i <= self.attributes.len(),
                first_attribute(self.attributes@, kind) == first_attribute(
                    self.attributes@.skip(i as int),
                    kind,
                ),
                first_attribute(self.attributes@, kind) matches Some(a) ==> attribute_kind(a)
                    == kind,
            decreases self.attributes.len() - i,
        {
            if self.attributes[i].kind() == kind {
                return Some(self.attributes[i]);
            }
            assert(self.attributes@.skip(i as int).drop_first() =~= self.attributes@.skip(i + 1));
            i += 1;
        }
        None
    }

    pub open spec fn tile_friction(&self) -> Option<u16> {
        match first_attribute(self.attributes@, AttributeKind::TileFriction) {
            Some(ItemAttribute::TileFriction(v)) => Some(v),
            _ => None,
        }
    }

    pub fn attr_tile_friction(&self) -> (r: Option<u16>)
        ensures
            r == self.tile_friction(),
    {
        match self.attribute(AttributeKind::TileFriction) {
            Some(ItemAttribute::TileFriction(v)) => Some(v),
            _ => None,
        }
    }

    pub open spec fn capacity(&self) -> Option<u8> {
        match first_attribute(self.attributes@, AttributeKind::Capacity) {
            Some(ItemAttribute::Capacity(v)) => Some(v),
            _ => None,
        }
    }

    pub fn attr_capacity(&self) -> (r: Option<u8>)
        ensures
            r == self.capacity(),
    {
        match self.attribute(AttributeKind::Capacity) {
            Some(ItemAttribute::Capacity(v)) => Some(v),
            _ => None,
        }
    }

    pub open spec fn weight(&self) -> Option<u32> {
        match first_attribute(self.attributes@, AttributeKind::Weight) {
            Some(ItemAttribute::Weight(v)) => Some(v),
            _ => None,
        }
    }

    pub fn attr_weight(&self) -> (r: Option<u32>)
        ensures
            r == self.weight(),
    {
        match self.attribute(AttributeKind::Weight) {
            Some(ItemAttribute::Weight(v)) => Some(v),
            _ => None,
        }
    }

    pub open spec fn floor_change(&self) -> Option<FloorChangeDirection> {
        match first_attribute(self.attributes@, AttributeKind::FloorChange) {
            Some(ItemAttribute::FloorChange(v)) => Some(v),
            _ => None,
        }
    }

    pub fn attr_floor_change(&self) -> (r: Option<FloorChangeDirection>)
        ensures
            r == self.floor_change(),
    {
        match self.attribute(AttributeKind::FloorChange) {
            Some(ItemAttribute::FloorChange(v)) => Some(v),
            _ => None,
        }
    }

    pub open spec fn field(&self) -> Option<ConditionSpec> {
        match first_attribute(self.attributes@, AttributeKind::Field) {
            Some(ItemAttribute::Field(v)) => Some(v),
            _ => None,
        }
    }

    pub fn attr_field(&self) -> (r: Option<ConditionSpec>)
        ensures
            r == self.field(),
    {
        match self.attribute(AttributeKind::Field) {
            Some(ItemAttribute::Field(v)) => Some(v),
            _ => None,
        }
    }

    pub open spec fn decay(&self) -> Option<(TickDelta, ItemId)> {
        match first_attribute(self.attributes@, AttributeKind::Decay) {
            Some(ItemAttribute::Decay(after, into)) => Some((after, into)),
            _ => None,
        }
    }

    pub fn attr_decay(&self) -> (r: Option<(TickDelta, ItemId)>)
        ensures
            r == self.decay(),
    {
        match self.attribute(AttributeKind::Decay) {
            Some(ItemAttribute::Decay(after, into)) => Some((after, into)),
            _ => None,
        }
    }

    pub open spec fn action(&self) -> Option<ItemAction> {
        match first_attribute(self.attributes@, AttributeKind::Action) {
            Some(ItemAttribute::Action(v)) => Some(v),
            _ => None,
        }
    }

    pub fn attr_action(&self) -> (r: Option<ItemAction>)
        ensures
            r == self.action(),
    {
        match self.attribute(AttributeKind::Action) {
            Some(ItemAttribute::Action(v)) => Some(v),
            _ => None,
        }
    }

    pub open spec fn speed(&self) -> i16 {
        match first_attribute(self.attributes@, AttributeKind::Speed) {
            Some(ItemAttribute::Speed(v)) => v,
            _ => 0,
        }
    }

    pub fn attr_speed(&self) -> (r: i16)
        ensures
            r == self.speed(),
    {
        match self.attribute(AttributeKind::Speed) {
            Some(ItemAttribute::Speed(v)) => v,
            _ => 0,
        }
    }
}

/// What an item is told to be by its attributes is what the first of each kind says, and nothing
/// where there is none of that kind.
pub proof fn law_the_first_attribute_of_a_kind_counts(config: ItemConfig, i: int)
    requires
        0 <= i < config.attributes@.len(),
        forall|j: int|
            0 <= j < i ==> attribute_kind(#[trigger] config.attributes@[j]) != attribute_kind(
                config.attributes@[i],
            ),
    ensures
        match config.attributes@[i] {
            ItemAttribute::TileFriction(v) => config.tile_friction() == Some(v),
            ItemAttribute::Capacity(v) => config.capacity() == Some(v),
            ItemAttribute::Weight(v) => config.weight() == Some(v),
            ItemAttribute::FloorChange(v) => config.floor_change() == Some(v),
            ItemAttribute::Field(v) => config.field() == Some(v),
            ItemAttribute::Decay(lasts, into) => config.decay() == Some((lasts, into)),
            ItemAttribute::Action(v) => config.action() == Some(v),
            ItemAttribute::Speed(v) => config.speed() == v,
        },
{
    lemma_first_of_its_kind(config.attributes@, i);
}

proof fn lemma_first_of_its_kind(attributes: Seq<ItemAttribute>, i: int)
    requires
        0 <= i < attributes.len(),
        forall|j: int|
            0 <= j < i ==> attribute_kind(#[trigger] attributes[j]) != attribute_kind(
                attributes[i],
            ),
    ensures
        first_attribute(attributes, attribute_kind(attributes[i])) == Some(attributes[i]),
    decreases attributes.len(),
{
    if i > 0 {
        let rest = attributes.drop_first();
        assert(attribute_kind(attributes[0]) != attribute_kind(attributes[i]));
        assert forall|j: int| 0 <= j < i - 1 implies attribute_kind(#[trigger] rest[j])
            != attribute_kind(rest[i - 1]) by {
            assert(rest[j] == attributes[j + 1]);
        }
        lemma_first_of_its_kind(rest, i - 1);
    }
}

/// An item without an attribute of some kind is told nothing of that kind, and does not change the
/// speed of whoever wears it.
pub proof fn law_no_attribute_no_effect(config: ItemConfig)
    ensures
        (forall|j: int|
            0 <= j < config.attributes@.len() ==> !((#[trigger] config.attributes@[j]) is Speed))
            ==> config.speed() == 0,
        (forall|j: int|
            0 <= j < config.attributes@.len() ==> !((#[trigger] config.attributes@[j]) is Weight))
            ==> config.weight() is None,
        (forall|j: int|
            0 <= j < config.attributes@.len() ==> !((#[trigger] config.attributes@[j]) is Field))
            ==> config.field() is None,
        (forall|j: int|
            0 <= j < config.attributes@.len() ==> !((#[trigger] config.attributes@[j]) is Decay))
            ==> config.decay() is None,
        (forall|j: int|
            0 <= j < config.attributes@.len() ==> !((#[trigger] config.attributes@[j])
                is FloorChange)) ==> config.floor_change() is None,
        (forall|j: int|
            0 <= j < config.attributes@.len() ==> !((#[trigger] config.attributes@[j]) is Action))
            ==> config.action() is None,
{
    lemma_an_attribute_of_its_kind(config.attributes@, AttributeKind::Speed);
    lemma_an_attribute_of_its_kind(config.attributes@, AttributeKind::Weight);
    lemma_an_attribute_of_its_kind(config.attributes@, AttributeKind::Field);
    lemma_an_attribute_of_its_kind(config.attributes@, AttributeKind::Decay);
    lemma_an_attribute_of_its_kind(config.attributes@, AttributeKind::FloorChange);
    lemma_an_attribute_of_its_kind(config.attributes@, AttributeKind::Action);
}

proof fn lemma_an_attribute_of_its_kind(attributes: Seq<ItemAttribute>, kind: AttributeKind)
    ensures
        first_attribute(attributes, kind) matches Some(a) ==> attribute_kind(a) == kind && exists|
            j: int,
        |
            0 <= j < attributes.len() && #[trigger] attributes[j] == a,
    decreases attributes.len(),
{
    if attributes.len() > 0 {
        let rest = attributes.drop_first();
        if attribute_kind(attributes[0]) == kind {
            assert(attributes[0] == attributes[0]);
        } else {
            lemma_an_attribute_of_its_kind(rest, kind);
            if let Some(a) = first_attribute(rest, kind) {
                let j = choose|j: int| 0 <= j < rest.len() && #[trigger] rest[j] == a;
                assert(attributes[j + 1] == a);
            }
        }
    }
}

/// However deep an item lies, it is at the place that the outermost of its containers has.
pub proof fn law_what_lies_in_a_container_is_where_it_is(placement: ItemPlacement)
    ensures
        placement matches ItemPlacement::Tile(p) ==> site_of(placement) == PlacementSite::Tile(p),
        placement matches ItemPlacement::Inventory(slot, key) ==> site_of(placement)
            == PlacementSite::Slot(slot, key),
        placement matches ItemPlacement::Container { within, .. } ==> site_of(placement) == site_of(
            *within,
        ),
{
}

} // verus!
