//! What a run and its characters are set up with.

use crate::entities::skills::SkillType;
use crate::entities::vocation::Vocation;
use vstd::prelude::*;

verus! {

#[derive(Debug, Clone, Copy, PartialEq, Eq, Structural)]
pub struct Coords {
    pub x: i32,
    pub y: i32,
    pub z: i16,
}

/// `stacks` times `amount` of one item.
#[derive(Debug, Clone, Copy, PartialEq, Eq, Structural)]
pub struct Stack {
    pub item: u16,
    pub stacks: u8,
    pub amount: u8,
}

/// What a bot carries when it starts.
#[derive(Debug)]
pub struct Inventory {
    pub backpack: u16,
    pub weapon: u16,
    pub contents: Vec<Stack>,
}

/// What a bot's character is when it starts.
#[derive(Debug)]
pub struct CharacterKit {
    pub vocation: Vocation,
    pub level: i16,
    pub life: i32,
    pub mana: i32,
    pub capacity: i32,
    pub start: Coords,
    /// Each skill's value. The level is not among them: it has a field of its own.
    pub skills: Vec<(SkillType, i16)>,
}

#[derive(Debug)]
pub struct KitConfig {
    pub character: CharacterKit,
    pub kit: Inventory,
}

/// The places that a bot walks to in turn.
#[derive(Debug)]
pub struct Route {
    pub name: String,
    pub waypoints: Vec<Coords>,
}

/// How a bot plays.
#[derive(Debug)]
pub struct Behaviour {
    pub engage_radius: u16,
    pub health_potion_pct: u32,
    pub heal_spell_pct: u32,
    pub mana_potion_pct: u32,
    pub attack_spell: String,
    pub heal_spell: String,
    pub loot_items_max: usize,
    pub decision_interval_ms: (u64, u64),
    pub ping_interval_ms: (u64, u64),
}

#[derive(Debug)]
pub struct RunConfig {
    pub routes: Vec<Route>,
    pub behaviour: Behaviour,
}

/// Why a kit is refused.
#[derive(Debug, Clone, Copy, PartialEq, Eq, Structural)]
pub enum KitError {
    /// The skills name the level, which is set from `CharacterKit::level`.
    LevelAmongSkills,
}

impl KitError {
    pub fn message(&self) -> (text: &'static str)
        ensures
            text@ == "`skills` may not list `level` — it is set from `character.level`"@,
    {
        "`skills` may not list `level` — it is set from `character.level`"
    }
}

impl CharacterKit {
    /// Whether the skills name the level.
    pub open spec fn lists_level(&self) -> bool {
        exists|i: int|
            0 <= i < self.skills@.len() && (#[trigger] self.skills@[i]).0 == SkillType::Level
    }
}

/// The kit, unless its skills name the level.
pub fn validate_kit(kit: KitConfig) -> (r: Result<KitConfig, KitError>)
    ensures
        r == if kit.character.lists_level() {
            Err::<KitConfig, KitError>(KitError::LevelAmongSkills)
        } else {
            Ok::<KitConfig, KitError>(kit)
        },
{
    let mut i: usize = 0;
    while i < kit.character.skills.len()
        invariant
            i <= kit.character.skills.len(),
            forall|j: int| 0 <= j < i ==> (#[trigger] kit.character.skills@[j]).0 != SkillType::Level,
        decreases kit.character.skills.len() - i,
    {
        if kit.character.skills[i].0 == SkillType::Level {
            return Err(KitError::LevelAmongSkills);
        }
        i += 1;
    }
    Ok(kit)
}

impl Behaviour {
    /// The settings with which a bot plays where nothing else is asked for.
    pub fn test_default() -> (b: Self)
        ensures
            b.engage_radius == 5,
            b.health_potion_pct == 45,
            b.heal_spell_pct == 70,
            b.mana_potion_pct == 35,
            b.attack_spell@ == "exori flam"@,
            b.heal_spell@ == "exura"@,
            b.loot_items_max == 4,
            b.decision_interval_ms == (180u64, 320u64),
            b.ping_interval_ms == (4000u64, 6000u64),
    {
        Behaviour {
            engage_radius: 5,
            health_potion_pct: 45,
            heal_spell_pct: 70,
            mana_potion_pct: 35,
            attack_spell: "exori flam".to_owned(),
            heal_spell: "exura".to_owned(),
            loot_items_max: 4,
            decision_interval_ms: (180, 320),
            ping_interval_ms: (4000, 6000),
        }
    }
}

} // verus!
