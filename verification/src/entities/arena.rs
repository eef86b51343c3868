//! Where the agents of the world are kept.

use crate::entities::agent::Agent;
use slotmap::Key;
use vstd::prelude::*;

verus! {

/// A `slotmap::SlotMap` from keys that it gives out itself to agents.
#[verifier::external_body]
#[derive(Debug)]
pub struct AgentArena {
    inner: slotmap::SlotMap<slotmap::DefaultKey, Agent>,
}

/// The agents in an arena, each by its key as `KeyData::as_ffi` writes it.
pub uninterp spec fn arena_agents(arena: AgentArena) -> Map<u64, Agent>;

/// A number that is a key as `KeyData::as_ffi` writes it: the version in its high half is odd.
pub open spec fn is_key(n: u64) -> bool {
    (n / 0x1_0000_0000) % 2 == 1
}

/// The slot that a key is for: the low half of the number.
pub open spec fn slot_of(n: u64) -> int {
    (n % 0x1_0000_0000) as int
}

impl AgentArena {
    /// `SlotMap::new`: nobody is in the arena.
    #[verifier::external_body]
    pub(crate) fn new() -> (arena: Self)
        ensures
            arena_agents(arena) =~= Map::empty(),
    {
        AgentArena { inner: slotmap::SlotMap::new() }
    }

    /// `SlotMap::insert`: the agent is in the arena, under a key that nobody in it has. It panics
    /// once the arena is full, at 2^32 - 2 agents.
    #[verifier::external_body]
    pub(crate) fn insert(&mut self, agent: Agent) -> (key: u64)
        requires
            arena_agents(*old(self)).dom().len() < 0xFFFF_FFFE,
        ensures
            is_key(key),
            !arena_agents(*old(self)).contains_key(key),
            arena_agents(*final(self)) == arena_agents(*old(self)).insert(key, agent),
    {
        self.inner.insert(agent).data().as_ffi()
    }

    /// `SlotMap::get`: the agent with this key.
    #[verifier::external_body]
    pub(crate) fn get(&self, key: u64) -> (r: Option<&Agent>)
        requires
            is_key(key),
        ensures
            match r {
                Some(agent) => arena_agents(*self).contains_key(key) && *agent == arena_agents(
                    *self,
                )[key],
                None => !arena_agents(*self).contains_key(key),
            },
    {
        self.inner.get(slotmap::KeyData::from_ffi(key).into())
    }

    /// `SlotMap::get_mut`: the agent with this key, to be changed in its place.
    #[verifier::external_body]
    pub(crate) fn get_mut(&mut self, key: u64) -> (r: Option<&mut Agent>)
        requires
            is_key(key),
        ensures
            match r {
                Some(agent) => {
                    &&& arena_agents(*old(self)).contains_key(key)
                    &&& *agent == arena_agents(*old(self))[key]
                    &&& arena_agents(*final(self)) == arena_agents(*old(self)).insert(
                        key,
                        *final(agent),
                    )
                },
                None => !arena_agents(*old(self)).contains_key(key) && arena_agents(*final(self))
                    == arena_agents(*old(self)),
            },
    {
        self.inner.get_mut(slotmap::KeyData::from_ffi(key).into())
    }

    /// `SlotMap::remove`: the agent with this key is taken out.
    #[verifier::external_body]
    pub(crate) fn remove(&mut self, key: u64) -> (r: Option<Agent>)
        requires
            is_key(key),
        ensures
            match r {
                Some(agent) => {
                    &&& arena_agents(*old(self)).contains_key(key)
                    &&& agent == arena_agents(*old(self))[key]
                    &&& arena_agents(*final(self)) == arena_agents(*old(self)).remove(key)
                },
                None => !arena_agents(*old(self)).contains_key(key) && arena_agents(*final(self))
                    == arena_agents(*old(self)),
            },
    {
        self.inner.remove(slotmap::KeyData::from_ffi(key).into())
    }

    /// `SlotMap::keys`: the keys of all agents, each once, from the lowest slot to the highest.
    #[verifier::external_body]
    pub(crate) fn keys(&self) -> (keys: Vec<u64>)
        ensures
            keys@.no_duplicates(),
            forall|key: u64| keys@.contains(key) <==> arena_agents(*self).contains_key(key),
            forall|i: int| 0 <= i < keys@.len() ==> is_key(#[trigger] keys@[i]),
            forall|i: int, j: int|
                0 <= i < j < keys@.len() ==> slot_of(#[trigger] keys@[i]) < slot_of(
                    #[trigger] keys@[j],
                ),
    {
        self.inner.keys().map(|key| key.data().as_ffi()).collect()
    }

    /// `SlotMap::clone`: an arena with a clone of each agent, under the same key.
    #[verifier::external_body]
    pub(crate) fn copy(&self) -> (arena: Self)
        ensures
            arena_agents(arena).dom() =~= arena_agents(*self).dom(),
            forall|key: u64| #[trigger] arena_agents(arena).contains_key(key) ==> arena_agents(
                arena,
            )[key]@ == arena_agents(*self)[key]@,
            forall|key: u64| #[trigger] arena_agents(arena).contains_key(key) ==> arena_agents(
                arena,
            )[key].wf() == arena_agents(*self)[key].wf(),
    {
        AgentArena { inner: self.inner.clone() }
    }
}

} // verus!
