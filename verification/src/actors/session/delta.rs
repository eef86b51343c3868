//! What a client is told of what has changed in the world.

use crate::actors::session::SessionActor;
use crate::entities::agent::{AgentId, AgentKey};
use crate::entities::inventory::InventorySlot;
use crate::entities::items::ItemGuid;
use crate::entities::map::GameMap;
use crate::entities::position::{Position, Rect};
use crate::entities::skills::SkillType;
use crate::entities::world_delta::{
    flagged, trained_among, AgentDirty, AgentFlag, DeltaView, WorldDelta,
};
use vstd::prelude::*;

verus! {

/// One thing that a client is told.
#[derive(Debug, Clone, Copy, PartialEq, Eq, Structural)]
pub enum DeltaStep {
    /// The containers out of reach are closed.
    DropUnreachable,
    Tile(Position),
    Container(ItemGuid),
    Slot(InventorySlot),
    Life(AgentKey),
    Speed(AgentKey),
    Facing(AgentKey, AgentId),
    Mana,
    Capacity,
    Status,
    Skill(SkillType),
}

/// What a client is told of an agent that it knows. Of the player itself it is told more.
pub open spec fn agent_steps(key: AgentKey, id: AgentId, own: bool, dirty: AgentDirty) -> Seq<DeltaStep> {
    let life = step_if(flagged(dirty, AgentFlag::Life), Seq::empty(), DeltaStep::Life(key));
    let speed = step_if(flagged(dirty, AgentFlag::Speed), life, DeltaStep::Speed(key));
    let facing = step_if(flagged(dirty, AgentFlag::Facing), speed, DeltaStep::Facing(key, id));
    if own {
        let mana = step_if(flagged(dirty, AgentFlag::Mana), facing, DeltaStep::Mana);
        let capacity = step_if(flagged(dirty, AgentFlag::Capacity), mana, DeltaStep::Capacity);
        let status = step_if(flagged(dirty, AgentFlag::Status), capacity, DeltaStep::Status);
        status + skill_steps(trained_among(dirty, 8))
    } else {
        facing
    }
}

pub open spec fn step_if(told: bool, steps: Seq<DeltaStep>, step: DeltaStep) -> Seq<DeltaStep> {
    if told {
        steps.push(step)
    } else {
        steps
    }
}

pub open spec fn skill_steps(skills: Seq<SkillType>) -> Seq<DeltaStep> {
    Seq::new(skills.len(), |i: int| DeltaStep::Skill(skills[i]))
}

pub open spec fn tile_steps(tiles: Seq<Position>) -> Seq<DeltaStep> {
    Seq::new(tiles.len(), |i: int| DeltaStep::Tile(tiles[i]))
}

pub open spec fn slot_steps(slots: Seq<InventorySlot>) -> Seq<DeltaStep> {
    Seq::new(slots.len(), |i: int| DeltaStep::Slot(slots[i]))
}

/// The containers among the first `n` that the client has open that have changed.
pub open spec fn container_steps(containers: Seq<(u64, u16)>, d: DeltaView, n: nat) -> Seq<DeltaStep>
    decreases n,
{
    if n == 0 {
        Seq::empty()
    } else {
        let before = container_steps(containers, d, (n - 1) as nat);
        let guid = ItemGuid(containers[n - 1].0);
        step_if(d.containers.contains(guid.0), before, DeltaStep::Container(guid))
    }
}

/// What is told of the first `n` of these agents.
pub open spec fn agents_steps(session: SessionActor, agents: Seq<(AgentKey, AgentDirty)>, n: nat) -> Seq<
    DeltaStep,
>
    decreases n,
{
    if n == 0 {
        Seq::empty()
    } else {
        let before = agents_steps(session, agents, (n - 1) as nat);
        let (key, dirty) = agents[n - 1];
        match session.id_of(key) {
            Some(id) => before + agent_steps(key, id, key == session.player_key, dirty),
            None => before,
        }
    }
}

/// The tiles are all the changed ones that the player sees, each once.
pub open spec fn lists_tiles(tiles: Seq<Position>, d: DeltaView, rect: Rect, floors: Seq<u8>) -> bool {
    &&& tiles.no_duplicates()
    &&& forall|p: Position| #[trigger]
        tiles.contains(p) <==> d.tiles.contains(p) && rect.holds(p) && floors.contains(p.z)
}

/// The slots are all the changed ones of the player, each once.
pub open spec fn lists_slots(slots: Seq<InventorySlot>, d: DeltaView, key: AgentKey) -> bool {
    &&& slots.no_duplicates()
    &&& forall|slot: InventorySlot| #[trigger]
        slots.contains(slot) <==> d.slots.contains((key, slot))
}

/// The agents are all the changed ones, each once.
pub open spec fn lists_agents(agents: Seq<(AgentKey, AgentDirty)>, d: DeltaView) -> bool {
    &&& agents.no_duplicates()
    &&& forall|key: AgentKey, dirty: AgentDirty| #[trigger]
        agents.contains((key, dirty)) <==> d.agents.contains_key(key.0) && d.agents[key.0] == dirty
}

/// What a client is told, where these are the changed tiles, slots and agents: containers out of
/// reach are closed before anything is drawn, and open ones are refreshed before the slots.
pub open spec fn delta_steps(
    session: SessionActor,
    d: DeltaView,
    tiles: Seq<Position>,
    slots: Seq<InventorySlot>,
    agents: Seq<(AgentKey, AgentDirty)>,
) -> Seq<DeltaStep> {
    let dropping = if tiles.len() > 0 || slots.len() > 0 {
        seq![DeltaStep::DropUnreachable]
    } else {
        Seq::empty()
    };
    dropping + tile_steps(tiles) + container_steps(
        session.containers@,
        d,
        session.containers@.len(),
    ) + slot_steps(slots) + agents_steps(session, agents, agents.len())
}

fn add_if(steps: &mut Vec<DeltaStep>, told: bool, step: DeltaStep)
    ensures
        final(steps)@ == step_if(told, old(steps)@, step),
{
    if told {
        steps.push(step);
    }
}

impl SessionActor {
    fn add_agent(&self, steps: &mut Vec<DeltaStep>, key: AgentKey, dirty: AgentDirty)
        ensures
            final(steps)@ == (match self.id_of(key) {
                Some(id) => old(steps)@ + agent_steps(key, id, key == self.player_key, dirty),
                None => old(steps)@,
            }),
    {
        let id: AgentId = match self.agent_id(key) {
            Some(id) => id,
            None => return ,
        };
        let ghost before = steps@;
        let mut own: Vec<DeltaStep> = Vec::new();
        assert(own@ =~= Seq::empty());
        add_if(&mut own, dirty.life(), DeltaStep::Life(key));
        add_if(&mut own, dirty.speed(), DeltaStep::Speed(key));
        add_if(&mut own, dirty.facing(), DeltaStep::Facing(key, id));
        if key == self.player_key {
            add_if(&mut own, dirty.mana(), DeltaStep::Mana);
            add_if(&mut own, dirty.capacity(), DeltaStep::Capacity);
            add_if(&mut own, dirty.status(), DeltaStep::Status);
            let ghost so_far = own@;
            let skills = dirty.skills();
            let ghost all = skill_steps(skills@);
            let mut i: usize = 0;
            while i < skills.len()
                invariant
                    i <= skills@.len(),
                    all == skill_steps(skills@),
                    own@ == so_far + all.take(i as int),
                decreases skills.len() - i,
            {
                own.push(DeltaStep::Skill(skills[i]));
                assert(all.take(i + 1) =~= all.take(i as int).push(all[i as int]));
                assert(own@ =~= so_far + all.take(i + 1));
                i += 1;
            }
            assert(all.take(skills@.len() as int) =~= all);
        }
        steps.append(&mut own);
    }

    /// What the client is told of what has changed, one thing after the other. `floors` are those
    /// that the player sees. A client whose player is not on the map is told nothing.
    pub fn apply_delta(&self, map: &GameMap, delta: &WorldDelta, floors: &Vec<u8>) -> (steps: Vec<
        DeltaStep,
    >)
        requires
            delta.wf(),
        ensures
            !map@.positions.contains_key(self.player_key.0) ==> steps@.len() == 0,
            map@.positions.contains_key(self.player_key.0) ==> exists|
                tiles: Seq<Position>,
                slots: Seq<InventorySlot>,
                agents: Seq<(AgentKey, AgentDirty)>,
            |
                {
                    &&& lists_tiles(
                        tiles,
                        delta@,
                        Rect::viewport(map@.positions[self.player_key.0]),
                        floors@,
                    )
                    &&& lists_slots(slots, delta@, self.player_key)
                    &&& lists_agents(agents, delta@)
                    &&& steps@ == #[trigger] delta_steps(*self, delta@, tiles, slots, agents)
                },
    {
        let mut steps: Vec<DeltaStep> = Vec::new();
        let player_pos: Position = match map.agent_position(self.player_key) {
            Some(position) => position,
            None => return steps,
        };
        let tiles = delta.tiles_in(&Rect::player_viewport(&player_pos), floors.as_slice());
        let slots = delta.slots_of(self.player_key);
        let agents = delta.agents();
        if tiles.len() > 0 || slots.len() > 0 {
            steps.push(DeltaStep::DropUnreachable);
        }
        let ghost dropping = steps@;
        let ghost all = tile_steps(tiles@);
        let mut i: usize = 0;
        while i < tiles.len()
            invariant
                i <= tiles@.len(),
                all == tile_steps(tiles@),
                steps@ == dropping + all.take(i as int),
            decreases tiles.len() - i,
        {
            steps.push(DeltaStep::Tile(tiles[i]));
            assert(all.take(i + 1) =~= all.take(i as int).push(all[i as int]));
            assert(steps@ =~= dropping + all.take(i + 1));
            i += 1;
        }
        assert(all.take(tiles@.len() as int) =~= all);
        let ghost drawn = steps@;
        let open = self.containers.globals();
        let mut i: usize = 0;
        assert(steps@ =~= drawn + container_steps(self.containers@, delta@, 0));
        while i < open.len()
            invariant
                i <= open@.len(),
                open@ == Seq::new(self.containers@.len(), |k: int| self.containers@[k].0),
                steps@ == drawn + container_steps(self.containers@, delta@, i as nat),
            decreases open.len() - i,
        {
            let guid: ItemGuid = ItemGuid(open[i]);
            if delta.container_dirty(guid) {
                steps.push(DeltaStep::Container(guid));
            }
            assert(steps@ =~= drawn + container_steps(self.containers@, delta@, (i + 1) as nat));
            i += 1;
        }
        let ghost refreshed = steps@;
        let ghost all = slot_steps(slots@);
        let mut i: usize = 0;
        while i < slots.len()
            invariant
                i <= slots@.len(),
                all == slot_steps(slots@),
                steps@ == refreshed + all.take(i as int),
            decreases slots.len() - i,
        {
            steps.push(DeltaStep::Slot(slots[i]));
            assert(all.take(i + 1) =~= all.take(i as int).push(all[i as int]));
            assert(steps@ =~= refreshed + all.take(i + 1));
            i += 1;
        }
        assert(all.take(slots@.len() as int) =~= all);
        let ghost carried = steps@;
        let mut i: usize = 0;
        assert(steps@ =~= carried + agents_steps(*self, agents@, 0));
        while i < agents.len()
            invariant
                i <= agents@.len(),
                steps@ == carried + agents_steps(*self, agents@, i as nat),
            decreases agents.len() - i,
        {
            self.add_agent(&mut steps, agents[i].0, agents[i].1);
            assert(steps@ =~= carried + agents_steps(*self, agents@, (i + 1) as nat));
            i += 1;
        }
        assert(steps@ =~= delta_steps(*self, delta@, tiles@, slots@, agents@));
        steps
    }
}

/// Of other players' mana, load, status and skills a client is told nothing, and of agents that it
/// does not know nothing at all.
pub proof fn law_others_are_told_only_what_is_seen(
    key: AgentKey,
    id: AgentId,
    dirty: AgentDirty,
    i: int,
)
    requires
        0 <= i < agent_steps(key, id, false, dirty).len(),
    ensures
        ({
            let step = agent_steps(key, id, false, dirty)[i];
            step == DeltaStep::Life(key) || step == DeltaStep::Speed(key) || step
                == DeltaStep::Facing(key, id)
        }),
{
}

/// Of an agent that it knows a client is told each thing that changed, and only that; of its own
/// player it is also told what only that player sees.
pub proof fn law_every_change_of_an_agent_is_told(
    key: AgentKey,
    id: AgentId,
    own: bool,
    dirty: AgentDirty,
)
    ensures
        ({
            let steps = agent_steps(key, id, own, dirty);
            &&& steps.contains(DeltaStep::Life(key)) <==> flagged(dirty, AgentFlag::Life)
            &&& steps.contains(DeltaStep::Speed(key)) <==> flagged(dirty, AgentFlag::Speed)
            &&& steps.contains(DeltaStep::Facing(key, id)) <==> flagged(dirty, AgentFlag::Facing)
            &&& steps.contains(DeltaStep::Mana) <==> own && flagged(dirty, AgentFlag::Mana)
            &&& steps.contains(DeltaStep::Capacity) <==> own && flagged(dirty, AgentFlag::Capacity)
            &&& steps.contains(DeltaStep::Status) <==> own && flagged(dirty, AgentFlag::Status)
        }),
{
    let life = step_if(flagged(dirty, AgentFlag::Life), Seq::empty(), DeltaStep::Life(key));
    let speed = step_if(flagged(dirty, AgentFlag::Speed), life, DeltaStep::Speed(key));
    let facing = step_if(flagged(dirty, AgentFlag::Facing), speed, DeltaStep::Facing(key, id));
    let steps = agent_steps(key, id, own, dirty);
    assert(forall|s: DeltaStep| !Seq::<DeltaStep>::empty().contains(s));
    lemma_step_if(flagged(dirty, AgentFlag::Life), Seq::empty(), DeltaStep::Life(key));
    lemma_step_if(flagged(dirty, AgentFlag::Speed), life, DeltaStep::Speed(key));
    lemma_step_if(flagged(dirty, AgentFlag::Facing), speed, DeltaStep::Facing(key, id));
    if own {
        let mana = step_if(flagged(dirty, AgentFlag::Mana), facing, DeltaStep::Mana);
        let capacity = step_if(flagged(dirty, AgentFlag::Capacity), mana, DeltaStep::Capacity);
        let status = step_if(flagged(dirty, AgentFlag::Status), capacity, DeltaStep::Status);
        lemma_step_if(flagged(dirty, AgentFlag::Mana), facing, DeltaStep::Mana);
        lemma_step_if(flagged(dirty, AgentFlag::Capacity), mana, DeltaStep::Capacity);
        lemma_step_if(flagged(dirty, AgentFlag::Status), capacity, DeltaStep::Status);
        lemma_joined(status, skill_steps(trained_among(dirty, 8)));
    }
}

proof fn lemma_step_if(told: bool, steps: Seq<DeltaStep>, step: DeltaStep)
    ensures
        forall|s: DeltaStep| #[trigger]
            step_if(told, steps, step).contains(s) <==> steps.contains(s) || told && s == step,
{
    let after = step_if(told, steps, step);
    assert forall|s: DeltaStep| #[trigger]
        after.contains(s) <==> steps.contains(s) || told && s == step by {
        if steps.contains(s) {
            assert(after[steps.index_of(s)] == s);
        }
        if told {
            assert(after[steps.len() as int] == step);
        }
        if after.contains(s) {
            let i = after.index_of(s);
            if i < steps.len() {
                assert(steps[i] == s);
            }
        }
    }
}

proof fn lemma_joined(a: Seq<DeltaStep>, b: Seq<DeltaStep>)
    ensures
        forall|s: DeltaStep| #[trigger] (a + b).contains(s) <==> a.contains(s) || b.contains(s),
{
    assert forall|s: DeltaStep| #[trigger] (a + b).contains(s) <==> a.contains(s) || b.contains(
        s,
    ) by {
        if a.contains(s) {
            assert((a + b)[a.index_of(s)] == s);
        }
        if b.contains(s) {
            assert((a + b)[a.len() + b.index_of(s)] == s);
        }
        if (a + b).contains(s) {
            let i = (a + b).index_of(s);
            if i < a.len() {
                assert(a[i] == s);
            } else {
                assert(b[i - a.len()] == s);
            }
        }
    }
}

proof fn lemma_agents_steps(session: SessionActor, agents: Seq<(AgentKey, AgentDirty)>, n: nat, s: DeltaStep)
    requires
        n <= agents.len(),
    ensures
        agents_steps(session, agents, n).contains(s) <==> exists|k: int|
            0 <= k < n && session.id_of((#[trigger] agents[k]).0) is Some && agent_steps(
                agents[k].0,
                session.id_of(agents[k].0).unwrap(),
                agents[k].0 == session.player_key,
                agents[k].1,
            ).contains(s),
    decreases n,
{
    if n > 0 {
        lemma_agents_steps(session, agents, (n - 1) as nat, s);
        let before = agents_steps(session, agents, (n - 1) as nat);
        let (key, dirty) = agents[n - 1];
        if let Some(id) = session.id_of(key) {
            lemma_joined(before, agent_steps(key, id, key == session.player_key, dirty));
        }
    }
}

proof fn lemma_agent_steps_kinds(key: AgentKey, id: AgentId, own: bool, dirty: AgentDirty, s: DeltaStep)
    requires
        agent_steps(key, id, own, dirty).contains(s),
    ensures
        !(s is DropUnreachable || s is Tile || s is Container || s is Slot),
        s matches DeltaStep::Life(k) ==> k == key,
        s matches DeltaStep::Speed(k) ==> k == key,
        s matches DeltaStep::Facing(k, _) ==> k == key,
{
    let steps = agent_steps(key, id, own, dirty);
    let i = steps.index_of(s);
    assert(steps[i] == s);
}

/// A client is told of every changed tile it sees, of every changed container it has open, of
/// every changed slot of its player and of every agent it knows whose life, speed or facing
/// changed, and of none else. Containers out of reach are closed just where a tile or a slot
/// changed.
pub proof fn law_every_change_that_concerns_a_client_is_told(
    session: SessionActor,
    d: DeltaView,
    tiles: Seq<Position>,
    slots: Seq<InventorySlot>,
    agents: Seq<(AgentKey, AgentDirty)>,
    p: Position,
    guid: ItemGuid,
    slot: InventorySlot,
    key: AgentKey,
    dirty: AgentDirty,
)
    requires
        lists_agents(agents, d),
        d.agents.contains_key(key.0),
        d.agents[key.0] == dirty,
    ensures
        ({
            let steps = delta_steps(session, d, tiles, slots, agents);
            &&& steps.contains(DeltaStep::Tile(p)) <==> tiles.contains(p)
            &&& steps.contains(DeltaStep::Slot(slot)) <==> slots.contains(slot)
            &&& steps.contains(DeltaStep::Container(guid)) <==> d.containers.contains(guid.0)
                && exists|i: int|
                0 <= i < session.containers@.len() && (#[trigger] session.containers@[i]).0
                    == guid.0
            &&& steps.contains(DeltaStep::DropUnreachable) <==> tiles.len() > 0 || slots.len() > 0
            &&& steps.contains(DeltaStep::Life(key)) <==> session.id_of(key) is Some && flagged(
                dirty,
                AgentFlag::Life,
            )
            &&& steps.contains(DeltaStep::Speed(key)) <==> session.id_of(key) is Some && flagged(
                dirty,
                AgentFlag::Speed,
            )
            &&& session.id_of(key) matches Some(id) ==> (steps.contains(DeltaStep::Facing(key, id))
                <==> flagged(dirty, AgentFlag::Facing))
        }),
{
    let dropping = if tiles.len() > 0 || slots.len() > 0 {
        seq![DeltaStep::DropUnreachable]
    } else {
        Seq::empty()
    };
    let n = session.containers@.len();
    let held = container_steps(session.containers@, d, n);
    let told = agents_steps(session, agents, agents.len());
    let steps = delta_steps(session, d, tiles, slots, agents);
    lemma_joined(dropping, tile_steps(tiles));
    lemma_joined(dropping + tile_steps(tiles), held);
    lemma_joined(dropping + tile_steps(tiles) + held, slot_steps(slots));
    lemma_joined(dropping + tile_steps(tiles) + held + slot_steps(slots), told);
    assert forall|s: DeltaStep| #[trigger] dropping.contains(s) implies s is DropUnreachable by {}
    if tiles.len() > 0 || slots.len() > 0 {
        assert(dropping[0] == DeltaStep::DropUnreachable);
    }
    assert forall|s: DeltaStep| #[trigger] tile_steps(tiles).contains(s) implies s is Tile by {}
    assert forall|s: DeltaStep| #[trigger] slot_steps(slots).contains(s) implies s is Slot by {}
    if tiles.contains(p) {
        assert(tile_steps(tiles)[tiles.index_of(p)] == DeltaStep::Tile(p));
    }
    if slots.contains(slot) {
        assert(slot_steps(slots)[slots.index_of(slot)] == DeltaStep::Slot(slot));
    }
    lemma_container_steps(session.containers@, d, n, guid);
    assert forall|s: DeltaStep| #[trigger] held.contains(s) implies s is Container by {
        lemma_container_kinds(session.containers@, d, n, held.index_of(s));
    }
    assert forall|s: DeltaStep| #[trigger] told.contains(s) implies !(s is DropUnreachable || s is Tile
        || s is Container || s is Slot) by {
        lemma_agents_steps(session, agents, agents.len(), s);
        let k = choose|k: int|
            0 <= k < agents.len() && session.id_of((#[trigger] agents[k]).0) is Some && agent_steps(
                agents[k].0,
                session.id_of(agents[k].0).unwrap(),
                agents[k].0 == session.player_key,
                agents[k].1,
            ).contains(s);
        lemma_agent_steps_kinds(
            agents[k].0,
            session.id_of(agents[k].0).unwrap(),
            agents[k].0 == session.player_key,
            agents[k].1,
            s,
        );
    }
    assert(agents.contains((key, dirty)));
    let at = agents.index_of((key, dirty));
    lemma_told_of(session, d, agents, key, dirty, at, DeltaStep::Life(key));
    lemma_told_of(session, d, agents, key, dirty, at, DeltaStep::Speed(key));
    if let Some(id) = session.id_of(key) {
        law_every_change_of_an_agent_is_told(key, id, key == session.player_key, dirty);
        lemma_told_of(session, d, agents, key, dirty, at, DeltaStep::Facing(key, id));
    }
}

proof fn lemma_told_of(
    session: SessionActor,
    d: DeltaView,
    agents: Seq<(AgentKey, AgentDirty)>,
    key: AgentKey,
    dirty: AgentDirty,
    at: int,
    s: DeltaStep,
)
    requires
        lists_agents(agents, d),
        d.agents.contains_key(key.0),
        d.agents[key.0] == dirty,
        0 <= at < agents.len(),
        agents[at] == (key, dirty),
        s == DeltaStep::Life(key) || s == DeltaStep::Speed(key) || (s matches DeltaStep::Facing(
            k,
            _,
        ) && k == key),
    ensures
        agents_steps(session, agents, agents.len()).contains(s) <==> session.id_of(key) is Some
            && agent_steps(
            key,
            session.id_of(key).unwrap(),
            key == session.player_key,
            dirty,
        ).contains(s),
{
    lemma_agents_steps(session, agents, agents.len(), s);
    if agents_steps(session, agents, agents.len()).contains(s) {
        let k = choose|k: int|
            0 <= k < agents.len() && session.id_of((#[trigger] agents[k]).0) is Some && agent_steps(
                agents[k].0,
                session.id_of(agents[k].0).unwrap(),
                agents[k].0 == session.player_key,
                agents[k].1,
            ).contains(s);
        lemma_agent_steps_kinds(
            agents[k].0,
            session.id_of(agents[k].0).unwrap(),
            agents[k].0 == session.player_key,
            agents[k].1,
            s,
        );
        assert(agents.contains((agents[k].0, agents[k].1)));
    }
}

proof fn lemma_container_kinds(containers: Seq<(u64, u16)>, d: DeltaView, n: nat, i: int)
    requires
        n <= containers.len(),
        0 <= i < container_steps(containers, d, n).len(),
    ensures
        container_steps(containers, d, n)[i] is Container,
    decreases n,
{
    if n > 0 {
        if i < container_steps(containers, d, (n - 1) as nat).len() {
            lemma_container_kinds(containers, d, (n - 1) as nat, i);
        }
    }
}

proof fn lemma_container_steps(containers: Seq<(u64, u16)>, d: DeltaView, n: nat, guid: ItemGuid)
    requires
        n <= containers.len(),
    ensures
        container_steps(containers, d, n).contains(DeltaStep::Container(guid))
            <==> d.containers.contains(guid.0) && exists|i: int|
            0 <= i < n && (#[trigger] containers[i]).0 == guid.0,
    decreases n,
{
    if n > 0 {
        lemma_container_steps(containers, d, (n - 1) as nat, guid);
        let before = container_steps(containers, d, (n - 1) as nat);
        let last = ItemGuid(containers[n - 1].0);
        lemma_step_if(d.containers.contains(last.0), before, DeltaStep::Container(last));
    }
}

} // verus!
