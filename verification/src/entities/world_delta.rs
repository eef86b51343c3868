//! What has changed in the world since clients were last told.

use crate::entities::agent::AgentKey;
use crate::entities::inventory::InventorySlot;
use crate::entities::items::ItemGuid;
use crate::entities::map::{lemma_chunk_keys_differ, ChunkCoord};
use crate::entities::position::{Position, Rect};
use crate::entities::skills::SkillType;
use crate::entities::tile_set::{tiles_in, TileList};
use std::collections::{HashMap, HashSet};
use vstd::prelude::*;

verus! {

broadcast use vstd::std_specs::hash::group_hash_axioms;

/// Something about an agent that clients are told of.
#[derive(Debug, Clone, Copy, PartialEq, Eq, Structural)]
pub enum AgentFlag {
    Life,
    Mana,
    Speed,
    Status,
    Capacity,
    Facing,
}

impl AgentFlag {
    pub open spec fn spec_bit(self) -> u8 {
        match self {
            AgentFlag::Life => 1,
            AgentFlag::Mana => 2,
            AgentFlag::Speed => 4,
            AgentFlag::Status => 8,
            AgentFlag::Capacity => 16,
            AgentFlag::Facing => 32,
        }
    }

    fn bit(self) -> (b: u8)
        ensures
            b == self.spec_bit(),
    {
        match self {
            AgentFlag::Life => 1,
            AgentFlag::Mana => 2,
            AgentFlag::Speed => 4,
            AgentFlag::Status => 8,
            AgentFlag::Capacity => 16,
            AgentFlag::Facing => 32,
        }
    }
}

/// What has changed about an agent.
#[derive(Debug, Clone, Copy, PartialEq, Eq, Structural)]
pub struct AgentDirty {
    pub flags: u8,
    pub skills: u8,
}

impl Default for AgentDirty {
    fn default() -> (d: Self)
        ensures
            d == clean(),
    {
        AgentDirty { flags: 0, skills: 0 }
    }
}

/// Nothing has changed about an agent.
pub open spec fn clean() -> AgentDirty {
    AgentDirty { flags: 0, skills: 0 }
}

/// The bit of a skill.
pub open spec fn spec_skill_bit(skill: SkillType) -> u8 {
    match skill {
        SkillType::Level => 1,
        SkillType::Magic => 2,
        SkillType::Fist => 4,
        SkillType::Club => 8,
        SkillType::Sword => 16,
        SkillType::Axe => 32,
        SkillType::Distance => 64,
        SkillType::Shielding => 128,
    }
}

/// The bit of a skill.
pub fn skill_bit(skill: SkillType) -> (b: u8)
    ensures
        b == spec_skill_bit(skill),
{
    match skill {
        SkillType::Level => 1,
        SkillType::Magic => 2,
        SkillType::Fist => 4,
        SkillType::Club => 8,
        SkillType::Sword => 16,
        SkillType::Axe => 32,
        SkillType::Distance => 64,
        SkillType::Shielding => 128,
    }
}

/// The flag is set.
pub open spec fn flagged(d: AgentDirty, flag: AgentFlag) -> bool {
    d.flags & flag.spec_bit() != 0
}

/// The skill has changed.
pub open spec fn trained(d: AgentDirty, skill: SkillType) -> bool {
    d.skills & spec_skill_bit(skill) != 0
}

/// With a flag set.
pub open spec fn with_flag(d: AgentDirty, flag: AgentFlag) -> AgentDirty {
    AgentDirty { flags: d.flags | flag.spec_bit(), ..d }
}

/// With a skill changed.
pub open spec fn with_skill(d: AgentDirty, skill: SkillType) -> AgentDirty {
    AgentDirty { skills: d.skills | spec_skill_bit(skill), ..d }
}

/// A mark is there once it was made, and no mark touches another.
pub proof fn law_marks_are_independent(d: AgentDirty, made: AgentFlag, flag: AgentFlag, skill: SkillType)
    ensures
        flagged(with_flag(d, made), flag) == (flagged(d, flag) || flag == made),
        trained(with_flag(d, made), skill) == trained(d, skill),
        !flagged(clean(), flag),
{
    let f = d.flags;
    let m = made.spec_bit();
    let b = flag.spec_bit();
    assert((m == 1 || m == 2 || m == 4 || m == 8 || m == 16 || m == 32) && (b == 1 || b == 2 || b
        == 4 || b == 8 || b == 16 || b == 32) ==> (((f | m) & b != 0) == ((f & b != 0) || m == b)))
        by (bit_vector);
    assert(0u8 & b == 0) by (bit_vector);
}

/// A changed skill is marked, and no other with it.
pub proof fn law_skill_marks_are_independent(d: AgentDirty, made: SkillType, skill: SkillType, flag: AgentFlag)
    ensures
        trained(with_skill(d, made), skill) == (trained(d, skill) || skill == made),
        flagged(with_skill(d, made), flag) == flagged(d, flag),
        !trained(clean(), skill),
{
    let f = d.skills;
    let m = spec_skill_bit(made);
    let b = spec_skill_bit(skill);
    assert((m == 1 || m == 2 || m == 4 || m == 8 || m == 16 || m == 32 || m == 64 || m == 128) && (b
        == 1 || b == 2 || b == 4 || b == 8 || b == 16 || b == 32 || b == 64 || b == 128) ==> (((f
        | m) & b != 0) == ((f & b != 0) || m == b))) by (bit_vector);
    assert(0u8 & b == 0) by (bit_vector);
}

/// All skills in the order of their numbers.
pub open spec fn all_skills() -> Seq<SkillType> {
    seq![
        SkillType::Level,
        SkillType::Magic,
        SkillType::Fist,
        SkillType::Club,
        SkillType::Sword,
        SkillType::Axe,
        SkillType::Distance,
        SkillType::Shielding,
    ]
}

/// The changed skills among the first `n`.
pub open spec fn trained_among(d: AgentDirty, n: nat) -> Seq<SkillType>
    decreases n,
{
    if n == 0 {
        Seq::empty()
    } else {
        let before = trained_among(d, (n - 1) as nat);
        if trained(d, all_skills()[n - 1]) {
            before.push(all_skills()[n - 1])
        } else {
            before
        }
    }
}

impl AgentDirty {
    fn has(self, flag: AgentFlag) -> (r: bool)
        ensures
            r == flagged(self, flag),
    {
        self.flags & flag.bit() != 0
    }

    pub fn life(self) -> (r: bool)
        ensures
            r == flagged(self, AgentFlag::Life),
    {
        self.has(AgentFlag::Life)
    }

    pub fn mana(self) -> (r: bool)
        ensures
            r == flagged(self, AgentFlag::Mana),
    {
        self.has(AgentFlag::Mana)
    }

    pub fn speed(self) -> (r: bool)
        ensures
            r == flagged(self, AgentFlag::Speed),
    {
        self.has(AgentFlag::Speed)
    }

    pub fn status(self) -> (r: bool)
        ensures
            r == flagged(self, AgentFlag::Status),
    {
        self.has(AgentFlag::Status)
    }

    pub fn capacity(self) -> (r: bool)
        ensures
            r == flagged(self, AgentFlag::Capacity),
    {
        self.has(AgentFlag::Capacity)
    }

    pub fn facing(self) -> (r: bool)
        ensures
            r == flagged(self, AgentFlag::Facing),
    {
        self.has(AgentFlag::Facing)
    }

    /// The skills that have changed, in the order of their numbers.
    pub fn skills(self) -> (r: Vec<SkillType>)
        ensures
            r@ == trained_among(self, 8),
    {
        let mut r: Vec<SkillType> = Vec::new();
        let mut id: u8 = 0;
        while id < 8
            invariant
                id <= 8,
                r@ == trained_among(self, id as nat),
            decreases 8 - id,
        {
            if let Some(skill) = SkillType::from_id(id) {
                assert(skill == all_skills()[id as int]);
                if self.skills & skill_bit(skill) != 0 {
                    r.push(skill);
                }
            }
            id += 1;
        }
        r
    }
}

/// What has changed, as sets.
#[verifier::ext_equal]
pub struct DeltaView {
    pub tiles: Set<Position>,
    pub agents: Map<u64, AgentDirty>,
    pub slots: Set<(AgentKey, InventorySlot)>,
    pub containers: Set<u64>,
}

/// Nothing has changed.
pub open spec fn unchanged() -> DeltaView {
    DeltaView {
        tiles: Set::empty(),
        agents: Map::empty(),
        slots: Set::empty(),
        containers: Set::empty(),
    }
}

/// What has changed about an agent.
pub open spec fn dirt_of(d: DeltaView, key: AgentKey) -> AgentDirty {
    if d.agents.contains_key(key.0) {
        d.agents[key.0]
    } else {
        clean()
    }
}

pub open spec fn tile_marked(d: DeltaView, pos: Position) -> DeltaView {
    DeltaView { tiles: d.tiles.insert(pos), ..d }
}

pub open spec fn agent_marked(d: DeltaView, key: AgentKey, flag: AgentFlag) -> DeltaView {
    DeltaView { agents: d.agents.insert(key.0, with_flag(dirt_of(d, key), flag)), ..d }
}

pub open spec fn skill_marked(d: DeltaView, key: AgentKey, skill: SkillType) -> DeltaView {
    DeltaView { agents: d.agents.insert(key.0, with_skill(dirt_of(d, key), skill)), ..d }
}

pub open spec fn slot_marked(d: DeltaView, key: AgentKey, slot: InventorySlot) -> DeltaView {
    DeltaView { slots: d.slots.insert((key, slot)), ..d }
}

pub open spec fn container_marked(d: DeltaView, guid: ItemGuid) -> DeltaView {
    DeltaView { containers: d.containers.insert(guid.0), ..d }
}

/// What has changed in the world since clients were last told.
pub struct WorldDelta {
    /// The changed tiles, by the number of their chunk.
    tiles: HashMap<u64, TileList>,
    agents: HashMap<u64, AgentDirty>,
    slots: Vec<(AgentKey, InventorySlot)>,
    containers: HashSet<u64>,
}

impl View for WorldDelta {
    type V = DeltaView;

    closed spec fn view(&self) -> DeltaView {
        DeltaView {
            tiles: Set::new(|p: Position| self.lists(p)),
            agents: self.agents@,
            slots: self.slots@.to_set(),
            containers: self.containers@,
        }
    }
}

impl WorldDelta {
    spec fn lists(&self, p: Position) -> bool {
        self.tiles@.contains_key(ChunkCoord::of(p).key()) && tiles_in(
            self.tiles@[ChunkCoord::of(p).key()],
        ).contains(p)
    }

    /// No list is empty or names a tile twice or one of another chunk, and no slot is named twice.
    pub closed spec fn wf(&self) -> bool {
        &&& forall|k: u64| #[trigger]
            self.tiles@.contains_key(k) ==> {
                let list = tiles_in(self.tiles@[k]);
                &&& list.len() > 0
                &&& list.no_duplicates()
                &&& forall|i: int|
                    0 <= i < list.len() ==> ChunkCoord::of(#[trigger] list[i]).key() == k
            }
        &&& self.slots@.no_duplicates()
    }

    /// Whether nothing has changed.
    pub fn is_empty(&self) -> (r: bool)
        requires
            self.wf(),
        ensures
            r == (self@ == unchanged()),
    {
        let r: bool = self.tiles.len() == 0 && self.agents.len() == 0 && self.slots.len() == 0
            && self.containers.is_empty();
        proof {
            if r {
                assert(self.tiles@.dom().len() == 0);
                assert(self.tiles@.dom() =~= Set::empty());
                assert(self.agents@.dom() =~= Set::empty());
                assert(self.containers@ =~= Set::empty());
                assert(self@ =~= unchanged());
            }
            if self@ == unchanged() {
                assert forall|k: u64| !self.tiles@.contains_key(k) by {
                    if self.tiles@.contains_key(k) {
                        let p = tiles_in(self.tiles@[k])[0];
                        assert(ChunkCoord::of(p).key() == k);
                        assert(self.lists(p));
                        assert(self@.tiles.contains(p));
                    }
                }
                assert(self.tiles@.dom() =~= Set::empty());
                assert(self.agents@.dom() =~= Set::empty());
                if self.slots@.len() > 0 {
                    assert(self.slots@.to_set().contains(self.slots@[0]));
                }
            }
        }
        r
    }

    /// The changed tiles of a rectangle on some floors.
    pub fn tiles_in(&self, rect: &Rect, floors: &[u8]) -> (r: Vec<Position>)
        requires
            self.wf(),
        ensures
            r@.no_duplicates(),
            forall|p: Position| #[trigger]
                r@.contains(p) <==> self@.tiles.contains(p) && rect.holds(p) && floors@.contains(
                    p.z,
                ),
    {
        let mut r: Vec<Position> = Vec::new();
        for (key, list) in it: self.tiles.iter()
            invariant
                self.wf(),
                it.seq().no_duplicates(),
                forall|i: int|
                    0 <= i < it.seq().len() ==> self.tiles@.contains_key(
                        *(#[trigger] it.seq()[i]).0,
                    ) && self.tiles@[*it.seq()[i].0] == *it.seq()[i].1,
                forall|k: u64| #[trigger]
                    self.tiles@.contains_key(k) ==> exists|i: int|
                        0 <= i < it.seq().len() && *(#[trigger] it.seq()[i]).0 == k,
                r@.no_duplicates(),
                forall|p: Position| #[trigger]
                    r@.contains(p) <==> rect.holds(p) && floors@.contains(p.z) && exists|i: int|
                        0 <= i < it.index() && tiles_in(*(#[trigger] it.seq()[i]).1).contains(p),
        {
            let ghost n = it.index();
            let ghost all = tiles_in(*list);
            assert(it.seq()[n] == (key, list));
            assert(self.tiles@.contains_key(*key));
            let ghost before = r@;
            if ChunkCoord::from_pos(&list.at(0)).overlaps(rect, floors) {
                let mut i: usize = 0;
                while i < list.len()
                    invariant
                        i <= all.len(),
                        all == tiles_in(*list),
                        all.no_duplicates(),
                        forall|j: int|
                            0 <= j < all.len() ==> ChunkCoord::of(#[trigger] all[j]).key() == *key,
                        ChunkCoord::of(all[0]).meets(*rect, floors@),
                        all.len() > 0,
                        forall|j: int| 0 <= j < all.len() ==> !before.contains(#[trigger] all[j]),
                        r@.no_duplicates(),
                        forall|p: Position| #[trigger]
                            r@.contains(p) <==> before.contains(p) || (rect.holds(p) && exists|
                                j: int,
                            |
                                0 <= j < i && #[trigger] all[j] == p),
                    decreases all.len() - i,
                {
                    let p: Position = list.at(i);
                    let ghost here = r@;
                    if rect.contains(&p) {
                        r.push(p);
                        assert forall|q: Position| #[trigger] r@.contains(q) <==> here.contains(q)
                            || q == p by {
                            if here.contains(q) {
                                let j = choose|j: int| 0 <= j < here.len() && here[j] == q;
                                assert(r@[j] == q);
                            }
                            if q == p {
                                assert(r@[here.len() as int] == q);
                            }
                        }
                        assert(!here.contains(p)) by {
                            if here.contains(p) {
                                assert(!before.contains(all[i as int]));
                                let j = choose|j: int| 0 <= j < i && #[trigger] all[j] == p;
                                assert(all[j] == all[i as int]);
                            }
                        }
                    }
                    i += 1;
                }
                proof {
                    assert forall|p: Position| all.contains(p) implies floors@.contains(p.z) by {
                        let j = choose|j: int| 0 <= j < all.len() && all[j] == p;
                        lemma_chunk_keys_differ(ChunkCoord::of(p), ChunkCoord::of(all[0]));
                    }
                }
            } else {
                proof {
                    assert forall|p: Position| all.contains(p) implies !(rect.holds(p)
                        && floors@.contains(p.z)) by {
                        let j = choose|j: int| 0 <= j < all.len() && all[j] == p;
                        lemma_chunk_keys_differ(ChunkCoord::of(p), ChunkCoord::of(all[0]));
                    }
                }
            }
        }
        r
    }

    /// The agents that have changed, each with what has.
    pub fn agents(&self) -> (r: Vec<(AgentKey, AgentDirty)>)
        requires
            self.wf(),
        ensures
            r@.no_duplicates(),
            forall|key: AgentKey, dirty: AgentDirty| #[trigger]
                r@.contains((key, dirty)) <==> self@.agents.contains_key(key.0)
                    && self@.agents[key.0] == dirty,
    {
        let mut r: Vec<(AgentKey, AgentDirty)> = Vec::new();
        for (key, dirty) in it: self.agents.iter()
            invariant
                it.seq().no_duplicates(),
                r@.no_duplicates(),
                r@.len() == it.index(),
                forall|i: int|
                    0 <= i < r@.len() ==> r@[i] == (
                        AgentKey(*(#[trigger] it.seq()[i]).0),
                        *it.seq()[i].1,
                    ),
                forall|i: int|
                    0 <= i < r@.len() ==> self.agents@.contains_key((#[trigger] r@[i]).0 .0)
                        && self.agents@[r@[i].0 .0] == r@[i].1,
                forall|i: int|
                    0 <= i < it.seq().len() ==> self.agents@.contains_key(
                        *(#[trigger] it.seq()[i]).0,
                    ) && self.agents@[*it.seq()[i].0] == *it.seq()[i].1,
                forall|k: u64| #[trigger]
                    self.agents@.contains_key(k) ==> exists|i: int|
                        0 <= i < it.seq().len() && *(#[trigger] it.seq()[i]).0 == k,
        {
            proof {
                let n = it.index();
                assert(it.seq()[n] == (key, dirty));
                assert forall|j: int| 0 <= j < r@.len() implies r@[j] != (AgentKey(*key), *dirty) by {
                    assert(it.seq()[j] != it.seq()[n]);
                }
            }
            r.push((AgentKey(*key), *dirty));
        }
        assert forall|key: AgentKey, dirty: AgentDirty| #[trigger]
            r@.contains((key, dirty)) <==> self@.agents.contains_key(key.0) && self@.agents[key.0]
                == dirty by {
            if r@.contains((key, dirty)) {
                let i = choose|i: int| 0 <= i < r@.len() && r@[i] == (key, dirty);
                assert(r@[i] == (key, dirty));
            }
            if self@.agents.contains_key(key.0) && self@.agents[key.0] == dirty {
                assert(self.agents@.contains_key(key.0));
                let i = choose|i: int| 0 <= i < r@.len() && (#[trigger] r@[i]).0 == key;
                assert(r@[i] == (key, dirty));
            }
        }
        r
    }

    /// What has changed about an agent.
    pub fn agent(&self, key: AgentKey) -> (d: AgentDirty)
        ensures
            d == dirt_of(self@, key),
    {
        match self.agents.get(&key.0) {
            Some(dirty) => *dirty,
            None => AgentDirty { flags: 0, skills: 0 },
        }
    }

    /// The slots of an agent that have changed.
    pub fn slots_of(&self, key: AgentKey) -> (r: Vec<InventorySlot>)
        requires
            self.wf(),
        ensures
            r@.no_duplicates(),
            forall|slot: InventorySlot| #[trigger]
                r@.contains(slot) <==> self@.slots.contains((key, slot)),
    {
        let mut r: Vec<InventorySlot> = Vec::new();
        let mut i: usize = 0;
        while i < self.slots.len()
            invariant
                i <= self.slots@.len(),
                self.slots@.no_duplicates(),
                r@.no_duplicates(),
                forall|slot: InventorySlot| #[trigger]
                    r@.contains(slot) <==> exists|j: int|
                        0 <= j < i && #[trigger] self.slots@[j] == (key, slot),
            decreases self.slots.len() - i,
        {
            let (owner, slot) = self.slots[i];
            let ghost before = r@;
            if owner == key {
                assert(!before.contains(slot)) by {
                    if before.contains(slot) {
                        let j = choose|j: int|
                            0 <= j < i && #[trigger] self.slots@[j] == (key, slot);
                        assert(self.slots@[j] == self.slots@[i as int]);
                    }
                }
                r.push(slot);
                assert forall|s: InventorySlot| #[trigger] r@.contains(s) <==> before.contains(s)
                    || s == slot by {
                    if before.contains(s) {
                        let j = choose|j: int| 0 <= j < before.len() && before[j] == s;
                        assert(r@[j] == s);
                    }
                    if s == slot {
                        assert(r@[before.len() as int] == s);
                    }
                }
            }
            i += 1;
        }
        r
    }

    /// Whether what is in a container has changed.
    pub fn container_dirty(&self, guid: ItemGuid) -> (r: bool)
        ensures
            r == self@.containers.contains(guid.0),
    {
        self.containers.contains(&guid.0)
    }

    /// Whether a tile has changed.
    pub fn tile_dirty(&self, pos: &Position) -> (r: bool)
        ensures
            r == self@.tiles.contains(*pos),
    {
        match self.tiles.get(&ChunkCoord::from_pos(pos).as_key()) {
            Some(list) => lists(list, pos),
            None => false,
        }
    }

    /// Marks a tile as changed.
    pub fn mark_tile(&mut self, pos: &Position)
        requires
            old(self).wf(),
        ensures
            final(self).wf(),
            final(self)@ == tile_marked(old(self)@, *pos),
    {
        let key: u64 = ChunkCoord::from_pos(pos).as_key();
        let mut list = match self.tiles.remove(&key) {
            Some(list) => list,
            None => TileList::new(),
        };
        let ghost before = tiles_in(list);
        assert(old(self).tiles@.contains_key(key) ==> before == tiles_in(old(self).tiles@[key]));
        if !lists(&list, pos) {
            list.push(*pos);
        }
        assert forall|q: Position| #[trigger] tiles_in(list).contains(q) <==> before.contains(q) || q
            == *pos by {
            if before.contains(q) {
                let j = choose|j: int| 0 <= j < before.len() && before[j] == q;
                assert(tiles_in(list)[j] == q);
            }
            if q == *pos && !before.contains(q) {
                assert(tiles_in(list)[before.len() as int] == q);
            }
        }
        self.tiles.insert(key, list);
        assert forall|p: Position| #[trigger] self.lists(p) <==> old(self).lists(p) || p == *pos by {
            if ChunkCoord::of(p).key() != key {
                assert(self.tiles@.contains_key(ChunkCoord::of(p).key()) == old(self).tiles@.contains_key(ChunkCoord::of(p).key()));
            }
        }
        assert(self@ =~= tile_marked(old(self)@, *pos));
    }

    /// Marks something about an agent as changed.
    pub fn mark_agent(&mut self, key: AgentKey, flag: AgentFlag)
        requires
            old(self).wf(),
        ensures
            final(self).wf(),
            final(self)@ == agent_marked(old(self)@, key, flag),
    {
        let mut dirty: AgentDirty = self.agent(key);
        dirty.flags = dirty.flags | flag.bit();
        self.agents.insert(key.0, dirty);
        assert(self@ =~= agent_marked(old(self)@, key, flag));
    }

    /// Marks a skill of an agent as changed.
    pub fn mark_skill(&mut self, key: AgentKey, skill: SkillType)
        requires
            old(self).wf(),
        ensures
            final(self).wf(),
            final(self)@ == skill_marked(old(self)@, key, skill),
    {
        let mut dirty: AgentDirty = self.agent(key);
        dirty.skills = dirty.skills | skill_bit(skill);
        self.agents.insert(key.0, dirty);
        assert(self@ =~= skill_marked(old(self)@, key, skill));
    }

    /// Marks a slot of an agent as changed.
    pub fn mark_slot(&mut self, key: AgentKey, slot: InventorySlot)
        requires
            old(self).wf(),
        ensures
            final(self).wf(),
            final(self)@ == slot_marked(old(self)@, key, slot),
    {
        let ghost before = self.slots@;
        let mut i: usize = 0;
        while i < self.slots.len()
            invariant
                i <= self.slots@.len(),
                self.wf(),
                self@ == old(self)@,
                before == self.slots@,
                forall|j: int| 0 <= j < i ==> #[trigger] before[j] != (key, slot),
            decreases self.slots.len() - i,
        {
            let (owner, marked) = self.slots[i];
            if owner == key && marked == slot {
                assert(self@.slots.contains(before[i as int]));
                assert(self@ =~= slot_marked(old(self)@, key, slot));
                return;
            }
            i += 1;
        }
        self.slots.push((key, slot));
        assert forall|s: (AgentKey, InventorySlot)| #[trigger] self.slots@.to_set().contains(s)
            <==> before.to_set().contains(s) || s == (key, slot) by {
            if before.contains(s) {
                let j = choose|j: int| 0 <= j < before.len() && before[j] == s;
                assert(self.slots@[j] == s);
            }
            if s == (key, slot) {
                assert(self.slots@[before.len() as int] == s);
            }
        }
        assert(self@ =~= slot_marked(old(self)@, key, slot));
    }

    /// Marks what is in a container as changed.
    pub fn mark_container(&mut self, guid: ItemGuid)
        requires
            old(self).wf(),
        ensures
            final(self).wf(),
            final(self)@ == container_marked(old(self)@, guid),
    {
        self.containers.insert(guid.0);
        assert(self@ =~= container_marked(old(self)@, guid));
    }
}

/// Whether a list names a tile.
fn lists(list: &TileList, pos: &Position) -> (r: bool)
    ensures
        r == tiles_in(*list).contains(*pos),
{
    let mut i: usize = 0;
    while i < list.len()
        invariant
            i <= tiles_in(*list).len(),
            forall|j: int| 0 <= j < i ==> #[trigger] tiles_in(*list)[j] != *pos,
        decreases tiles_in(*list).len() - i,
    {
        if list.at(i) == *pos {
            return true;
        }
        i += 1;
    }
    false
}

impl Default for WorldDelta {
    fn default() -> (d: Self)
        ensures
            d.wf(),
            d@ == unchanged(),
    {
        let d = WorldDelta {
            tiles: HashMap::new(),
            agents: HashMap::new(),
            slots: Vec::new(),
            containers: HashSet::new(),
        };
        assert(d@ =~= unchanged());
        d
    }
}

/// The changed skills that are listed are all that are marked, and each once.
pub proof fn law_every_changed_skill_is_listed(d: AgentDirty, n: nat, skill: SkillType)
    requires
        n <= 8,
    ensures
        trained_among(d, n).contains(skill) <==> trained(d, skill) && skill.id() < n,
        trained_among(d, n).no_duplicates(),
    decreases n,
{
    if n > 0 {
        law_every_changed_skill_is_listed(d, (n - 1) as nat, skill);
        let last = all_skills()[n - 1];
        law_every_changed_skill_is_listed(d, (n - 1) as nat, last);
        let before = trained_among(d, (n - 1) as nat);
        let after = trained_among(d, n);
        assert(last.id() == n - 1);
        if before.contains(skill) {
            assert(after[before.index_of(skill)] == skill);
        }
        if trained(d, last) {
            assert(after[before.len() as int] == last);
            assert forall|i: int, j: int| 0 <= i < after.len() && 0 <= j < after.len() && i
                != j implies after[i] != after[j] by {
                if i < before.len() {
                    assert(before[i] == after[i]);
                    assert(before.contains(before[i]));
                }
                if j < before.len() {
                    assert(before[j] == after[j]);
                    assert(before.contains(before[j]));
                }
            }
        }
        if after.contains(skill) {
            let i = after.index_of(skill);
            if i < before.len() {
                assert(before[i] == skill);
            }
        }
    }
}

/// What is marked as changed is changed, with all that was before, and nothing else is.
pub proof fn law_only_what_is_marked_is_changed(
    d: DeltaView,
    pos: Position,
    key: AgentKey,
    flag: AgentFlag,
    slot: InventorySlot,
    guid: ItemGuid,
    p: Position,
    other: AgentKey,
    f: AgentFlag,
)
    ensures
        tile_marked(d, pos).tiles.contains(p) <==> d.tiles.contains(p) || p == pos,
        tile_marked(d, pos).agents == d.agents,
        flagged(dirt_of(agent_marked(d, key, flag), other), f) <==> flagged(dirt_of(d, other), f)
            || (other == key && f == flag),
        agent_marked(d, key, flag).tiles == d.tiles,
        slot_marked(d, key, slot).slots.contains((key, slot)),
        container_marked(d, guid).containers.contains(guid.0),
{
    law_marks_are_independent(dirt_of(d, key), flag, f, SkillType::Level);
}

} // verus!
