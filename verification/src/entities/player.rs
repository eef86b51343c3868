//! What a player is and carries.

use crate::entities::inventory::InventorySlot;
use crate::entities::item::{index_view, Item, ItemView};
use crate::entities::skills::SkillType;
use crate::entities::vocation::Vocation;
use crate::sharing::{share, to_write};
use std::sync::Arc;
use vstd::prelude::*;

verus! {

/// How far a skill is trained.
#[derive(Debug, Clone, Copy, PartialEq, Eq, Structural)]
pub struct SkillValue {
    pub value: u16,
    pub current_ticks: u64,
}

/// What a player wears and carries.
#[derive(Debug)]
pub struct Inventory {
    pub slots: Vec<(InventorySlot, Item)>,
    pub carried_weight: u32,
    /// What is worn adds this to the player's speed.
    pub speed: i16,
}

pub struct InventoryView {
    pub slots: Seq<(InventorySlot, ItemView)>,
    pub carried_weight: u32,
    pub speed: i16,
}

pub open spec fn slot_views(slots: Seq<(InventorySlot, Item)>) -> Seq<(InventorySlot, ItemView)> {
    Seq::new(slots.len(), |i: int| (slots[i].0, slots[i].1@))
}

impl View for Inventory {
    type V = InventoryView;

    open spec fn view(&self) -> InventoryView {
        InventoryView {
            slots: slot_views(self.slots@),
            carried_weight: self.carried_weight,
            speed: self.speed,
        }
    }
}

/// The first place of a slot among `slots` from `i` on.
pub open spec fn slot_in(slots: Seq<(InventorySlot, ItemView)>, i: int, slot: InventorySlot) -> Option<
    int,
>
    decreases slots.len() - i,
{
    if i < 0 || i >= slots.len() {
        None
    } else if slots[i].0 == slot {
        Some(i)
    } else {
        slot_in(slots, i + 1, slot)
    }
}

pub proof fn lemma_slot_in(slots: Seq<(InventorySlot, ItemView)>, i: int, slot: InventorySlot)
    requires
        0 <= i,
    ensures
        slot_in(slots, i, slot) matches Some(k) ==> i <= k < slots.len() && slots[k].0 == slot
            && forall|j: int| i <= j < k ==> (#[trigger] slots[j]).0 != slot,
        slot_in(slots, i, slot) is None ==> forall|j: int|
            i <= j < slots.len() ==> (#[trigger] slots[j]).0 != slot,
    decreases slots.len() - i,
{
    if i < slots.len() {
        lemma_slot_in(slots, i + 1, slot);
    }
}

impl Inventory {
    /// Where the item in a slot is kept.
    pub fn index_of(&self, slot: InventorySlot) -> (r: Option<usize>)
        ensures
            index_view(r) == slot_in(self@.slots, 0, slot),
            r matches Some(i) ==> i < self.slots@.len(),
    {
        let mut i: usize = 0;
        while i < self.slots.len()
            invariant
                i <= self.slots@.len(),
                slot_in(self@.slots, 0, slot) == slot_in(self@.slots, i as int, slot),
            decreases self.slots.len() - i,
        {
            if self.slots[i].0 == slot {
                return Some(i);
            }
            i += 1;
        }
        None
    }
}

#[derive(Debug)]
pub struct Player {
    pub name: String,
    pub vocation: Vocation,
    /// What a fed player gets back of its life each time.
    pub life_regen: u32,
    /// What a fed player gets back of its mana each time.
    pub mana_regen: u32,
    pub capacity: u32,
    pub skills: Vec<(SkillType, SkillValue)>,
    /// What the player wears and carries, shared with every copy of the player until one of them
    /// is written to.
    pub inventory: Arc<Inventory>,
}

pub struct PlayerView {
    pub name: Seq<char>,
    pub vocation: Vocation,
    pub life_regen: u32,
    pub mana_regen: u32,
    pub capacity: u32,
    pub skills: Seq<(SkillType, SkillValue)>,
    pub inventory: InventoryView,
}

impl View for Player {
    type V = PlayerView;

    open spec fn view(&self) -> PlayerView {
        PlayerView {
            name: self.name@,
            vocation: self.vocation,
            life_regen: self.life_regen,
            mana_regen: self.mana_regen,
            capacity: self.capacity,
            skills: self.skills@,
            inventory: self.inventory@,
        }
    }
}

/// The first place of a skill among `skills` from `i` on.
pub open spec fn skill_in(skills: Seq<(SkillType, SkillValue)>, i: int, skill: SkillType) -> Option<
    int,
>
    decreases skills.len() - i,
{
    if i < 0 || i >= skills.len() {
        None
    } else if skills[i].0 == skill {
        Some(i)
    } else {
        skill_in(skills, i + 1, skill)
    }
}

/// The level of a player: how far that skill is trained.
pub open spec fn level_of(skills: Seq<(SkillType, SkillValue)>) -> u16 {
    match skill_in(skills, 0, SkillType::Level) {
        Some(i) => skills[i].1.value,
        None => 0,
    }
}

impl Clone for Inventory {
    fn clone(&self) -> (inventory: Self)
        ensures
            inventory@ == self@,
    {
        self.copy()
    }
}

impl Player {
    /// What the player wears and carries.
    pub fn inventory(&self) -> (inventory: &Inventory)
        ensures
            inventory@ == self@.inventory,
    {
        &self.inventory
    }

    /// What the player wears and carries, to be written to.
    pub fn inventory_mut(&mut self) -> (inventory: &mut Inventory)
        ensures
            inventory@ == old(self)@.inventory,
            final(self)@ == (PlayerView { inventory: final(inventory)@, ..old(self)@ }),
    {
        to_write(&mut self.inventory)
    }

    /// The level of the player.
    pub fn level(&self) -> (level: u16)
        ensures
            level == level_of(self@.skills),
    {
        match self.skill_index(SkillType::Level) {
            Some(i) => self.skills[i].1.value,
            None => 0,
        }
    }

    /// Where a skill is kept.
    pub fn skill_index(&self, skill: SkillType) -> (r: Option<usize>)
        ensures
            index_view(r) == skill_in(self.skills@, 0, skill),
            r matches Some(i) ==> i < self.skills@.len(),
    {
        let mut i: usize = 0;
        while i < self.skills.len()
            invariant
                i <= self.skills@.len(),
                skill_in(self.skills@, 0, skill) == skill_in(self.skills@, i as int, skill),
            decreases self.skills.len() - i,
        {
            if self.skills[i].0 == skill {
                return Some(i);
            }
            i += 1;
        }
        None
    }
}

impl Inventory {
    /// The same inventory once more, with all that is in it.
    pub fn copy(&self) -> (inventory: Inventory)
        ensures
            inventory@ == self@,
    {
        let mut slots: Vec<(InventorySlot, Item)> = Vec::new();
        let mut i: usize = 0;
        while i < self.slots.len()
            invariant
                i <= self.slots@.len(),
                slot_views(slots@) == self@.slots.take(i as int),
            decreases self.slots.len() - i,
        {
            let item = self.slots[i].1.copy();
            let ghost before = slot_views(slots@);
            slots.push((self.slots[i].0, item));
            assert(slot_views(slots@) =~= before.push(self@.slots[i as int]));
            assert(self@.slots.take(i + 1) =~= self@.slots.take(i as int).push(
                self@.slots[i as int],
            ));
            i += 1;
        }
        assert(slot_views(slots@) =~= self@.slots);
        Inventory { slots, carried_weight: self.carried_weight, speed: self.speed }
    }
}

impl Player {
    /// The same player once more.
    pub fn copy(&self) -> (player: Player)
        ensures
            player@ == self@,
    {
        let mut skills: Vec<(SkillType, SkillValue)> = Vec::new();
        let mut i: usize = 0;
        while i < self.skills.len()
            invariant
                i <= self.skills@.len(),
                skills@ == self.skills@.take(i as int),
            decreases self.skills.len() - i,
        {
            skills.push((self.skills[i].0, self.skills[i].1));
            assert(self.skills@.take(i + 1) =~= self.skills@.take(i as int).push(
                self.skills@[i as int],
            ));
            i += 1;
        }
        assert(skills@ =~= self.skills@);
        Player {
            name: self.name.clone(),
            vocation: self.vocation,
            life_regen: self.life_regen,
            mana_regen: self.mana_regen,
            capacity: self.capacity,
            skills,
            inventory: share(&self.inventory),
        }
    }
}

/// A skill is found where it is listed first; a player's level is that of the skill so named, and
/// nought where there is none.
pub proof fn law_a_level_is_the_skill_so_named(skills: Seq<(SkillType, SkillValue)>, i: int)
    ensures
        0 <= i < skills.len() && skills[i].0 == SkillType::Level && (forall|j: int|
            0 <= j < i ==> (#[trigger] skills[j]).0 != SkillType::Level) ==> level_of(skills)
            == skills[i].1.value,
        (forall|j: int| 0 <= j < skills.len() ==> (#[trigger] skills[j]).0 != SkillType::Level)
            ==> level_of(skills) == 0,
{
    lemma_skill_in(skills, 0, SkillType::Level);
}

proof fn lemma_skill_in(skills: Seq<(SkillType, SkillValue)>, i: int, skill: SkillType)
    requires
        0 <= i,
    ensures
        skill_in(skills, i, skill) matches Some(k) ==> i <= k < skills.len() && skills[k].0 == skill
            && forall|j: int| i <= j < k ==> (#[trigger] skills[j]).0 != skill,
        skill_in(skills, i, skill) is None ==> forall|j: int|
            i <= j < skills.len() ==> (#[trigger] skills[j]).0 != skill,
    decreases skills.len() - i,
{
    if i < skills.len() {
        lemma_skill_in(skills, i + 1, skill);
    }
}

} // verus!
