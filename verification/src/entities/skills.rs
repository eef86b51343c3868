//! What a player trains.

use vstd::prelude::*;

verus! {

#[derive(Debug, Clone, Copy, PartialEq, Eq, PartialOrd, Ord, Hash, Structural)]
pub enum SkillType {
    Level,
    Magic,
    Fist,
    Club,
    Sword,
    Axe,
    Distance,
    Shielding,
}

impl SkillType {
    /// The skill's number on the wire and in stored characters.
    pub open spec fn id(self) -> u8 {
        match self {
            SkillType::Level => 0,
            SkillType::Magic => 1,
            SkillType::Fist => 2,
            SkillType::Club => 3,
            SkillType::Sword => 4,
            SkillType::Axe => 5,
            SkillType::Distance => 6,
            SkillType::Shielding => 7,
        }
    }

    /// The skill's number on the wire and in stored characters.
    pub fn as_id(&self) -> (id: u8)
        ensures
            id == self.id(),
    {
        match self {
            SkillType::Level => 0,
            SkillType::Magic => 1,
            SkillType::Fist => 2,
            SkillType::Club => 3,
            SkillType::Sword => 4,
            SkillType::Axe => 5,
            SkillType::Distance => 6,
            SkillType::Shielding => 7,
        }
    }

    /// The skill with this number.
    pub open spec fn spec_from_id(id: u8) -> Option<SkillType> {
        match id {
            0 => Some(SkillType::Level),
            1 => Some(SkillType::Magic),
            2 => Some(SkillType::Fist),
            3 => Some(SkillType::Club),
            4 => Some(SkillType::Sword),
            5 => Some(SkillType::Axe),
            6 => Some(SkillType::Distance),
            7 => Some(SkillType::Shielding),
            _ => None,
        }
    }

    /// The skill with this number.
    pub fn from_id(id: u8) -> (skill: Option<SkillType>)
        ensures
            skill == SkillType::spec_from_id(id),
    {
        match id {
            0 => Some(SkillType::Level),
            1 => Some(SkillType::Magic),
            2 => Some(SkillType::Fist),
            3 => Some(SkillType::Club),
            4 => Some(SkillType::Sword),
            5 => Some(SkillType::Axe),
            6 => Some(SkillType::Distance),
            7 => Some(SkillType::Shielding),
            _ => None,
        }
    }
}

/// The number of a skill stands for that skill and for no other; the numbers go from nought up.
pub proof fn law_skills_are_known_by_their_numbers(skill: SkillType, id: u8)
    ensures
        SkillType::spec_from_id(skill.id()) == Some(skill),
        SkillType::spec_from_id(id) matches Some(s) ==> s.id() == id,
        SkillType::spec_from_id(id) is Some <==> id < 8,
{
}

} // verus!
