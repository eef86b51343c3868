//! What a player has learnt to be.

use vstd::prelude::*;

verus! {

#[derive(Debug, Clone, Copy, PartialEq, Eq, Hash, Structural)]
pub enum Vocation {
    Knight,
    Sorcerer,
    Druid,
    Paladin,
}

impl Vocation {
    /// The vocation's number in stored characters and forms.
    pub open spec fn id(self) -> i16 {
        match self {
            Vocation::Knight => 1,
            Vocation::Sorcerer => 2,
            Vocation::Druid => 3,
            Vocation::Paladin => 4,
        }
    }

    /// The vocation's number in stored characters and forms.
    pub fn as_id(&self) -> (id: i16)
        ensures
            id == self.id(),
    {
        match self {
            Vocation::Knight => 1,
            Vocation::Sorcerer => 2,
            Vocation::Druid => 3,
            Vocation::Paladin => 4,
        }
    }
}

} // verus!
