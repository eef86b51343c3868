//! The places on a player's body that hold an item.

use vstd::prelude::*;

verus! {

#[derive(Debug, Clone, Copy, PartialEq, Eq, PartialOrd, Ord, Hash, Structural)]
pub enum InventorySlot {
    Head,
    Amulet,
    Backpack,
    Chest,
    RightHand,
    LeftHand,
    Legs,
    Feet,
    Ring,
    Trinket,
}

impl InventorySlot {
    /// The slot's number on the wire and in stored inventories.
    pub open spec fn id(self) -> u8 {
        match self {
            InventorySlot::Head => 1,
            InventorySlot::Amulet => 2,
            InventorySlot::Backpack => 3,
            InventorySlot::Chest => 4,
            InventorySlot::RightHand => 5,
            InventorySlot::LeftHand => 6,
            InventorySlot::Legs => 7,
            InventorySlot::Feet => 8,
            InventorySlot::Ring => 9,
            InventorySlot::Trinket => 10,
        }
    }

    /// The slot's number on the wire and in stored inventories.
    pub fn as_id(&self) -> (id: u8)
        ensures
            id == self.id(),
    {
        match self {
            InventorySlot::Head => 1,
            InventorySlot::Amulet => 2,
            InventorySlot::Backpack => 3,
            InventorySlot::Chest => 4,
            InventorySlot::RightHand => 5,
            InventorySlot::LeftHand => 6,
            InventorySlot::Legs => 7,
            InventorySlot::Feet => 8,
            InventorySlot::Ring => 9,
            InventorySlot::Trinket => 10,
        }
    }

    /// The slot with this number.
    pub open spec fn spec_from_id(id: u8) -> Option<InventorySlot> {
        match id {
            1 => Some(InventorySlot::Head),
            2 => Some(InventorySlot::Amulet),
            3 => Some(InventorySlot::Backpack),
            4 => Some(InventorySlot::Chest),
            5 => Some(InventorySlot::RightHand),
            6 => Some(InventorySlot::LeftHand),
            7 => Some(InventorySlot::Legs),
            8 => Some(InventorySlot::Feet),
            9 => Some(InventorySlot::Ring),
            10 => Some(InventorySlot::Trinket),
            _ => None,
        }
    }

    /// The slot with this number.
    pub fn from_id(id: u8) -> (slot: Option<InventorySlot>)
        ensures
            slot == InventorySlot::spec_from_id(id),
    {
        match id {
            1 => Some(InventorySlot::Head),
            2 => Some(InventorySlot::Amulet),
            3 => Some(InventorySlot::Backpack),
            4 => Some(InventorySlot::Chest),
            5 => Some(InventorySlot::RightHand),
            6 => Some(InventorySlot::LeftHand),
            7 => Some(InventorySlot::Legs),
            8 => Some(InventorySlot::Feet),
            9 => Some(InventorySlot::Ring),
            10 => Some(InventorySlot::Trinket),
            _ => None,
        }
    }
}

/// The number of a slot stands for that slot and for no other; the numbers go from one up.
pub proof fn law_slots_are_known_by_their_numbers(slot: InventorySlot, id: u8)
    ensures
        InventorySlot::spec_from_id(slot.id()) == Some(slot),
        InventorySlot::spec_from_id(id) matches Some(s) ==> s.id() == id,
        InventorySlot::spec_from_id(id) is Some <==> 1 <= id <= 10,
{
}

/// The numbers of the slots follow each other from the head down, as they are laid out.
pub proof fn law_slots_are_numbered_from_the_head_down()
    ensures
        seq![
            InventorySlot::Head,
            InventorySlot::Amulet,
            InventorySlot::Backpack,
            InventorySlot::Chest,
            InventorySlot::RightHand,
            InventorySlot::LeftHand,
            InventorySlot::Legs,
            InventorySlot::Feet,
            InventorySlot::Ring,
            InventorySlot::Trinket,
        ] == Seq::new(10, |i: int| InventorySlot::spec_from_id((i + 1) as u8).unwrap()),
{
}

} // verus!
