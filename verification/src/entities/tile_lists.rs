//! The lists that a tile keeps its items and its agents in.

use crate::entities::agent::AgentKey;
use crate::entities::item::Item;
use vstd::prelude::*;

verus! {

/// A `smallvec::SmallVec` that holds one item in place.
#[verifier::external_body]
#[derive(Debug)]
pub struct TileItems {
    inner: smallvec::SmallVec<[Item; 1]>,
}

/// The items in a list, from the ground up.
pub uninterp spec fn items_in(list: TileItems) -> Seq<Item>;

impl TileItems {
    /// `SmallVec::new`: nothing is in the list.
    #[verifier::external_body]
    pub(crate) fn new() -> (list: Self)
        ensures
            items_in(list) == Seq::<Item>::empty(),
    {
        TileItems { inner: smallvec::SmallVec::new() }
    }

    /// The length of the slice that a `SmallVec` derefs to.
    #[verifier::external_body]
    pub(crate) fn len(&self) -> (n: usize)
        ensures
            n == items_in(*self).len(),
    {
        self.inner.len()
    }

    /// Indexing of a `SmallVec`: the item at `i`.
    #[verifier::external_body]
    pub(crate) fn at(&self, i: usize) -> (item: &Item)
        requires
            i < items_in(*self).len(),
        ensures
            *item == items_in(*self)[i as int],
    {
        &self.inner[i]
    }

    /// Mutable indexing of a `SmallVec`: the item at `i`, to be changed in its place.
    #[verifier::external_body]
    pub(crate) fn at_mut(&mut self, i: usize) -> (item: &mut Item)
        requires
            i < items_in(*old(self)).len(),
        ensures
            *item == items_in(*old(self))[i as int],
            items_in(*final(self)) == items_in(*old(self)).update(i as int, *final(item)),
    {
        &mut self.inner[i]
    }

    /// `SmallVec::push`: the item goes on top of the others.
    #[verifier::external_body]
    pub(crate) fn push(&mut self, item: Item)
        ensures
            items_in(*final(self)) == items_in(*old(self)).push(item),
    {
        self.inner.push(item);
    }

    /// `SmallVec::insert`: the item goes to place `i`, and those from there on move up.
    #[verifier::external_body]
    pub(crate) fn insert(&mut self, i: usize, item: Item)
        requires
            i <= items_in(*old(self)).len(),
        ensures
            items_in(*final(self)) == items_in(*old(self)).insert(i as int, item),
    {
        self.inner.insert(i, item);
    }

    /// `SmallVec::remove`: the item at `i` is taken out, and those after it move down.
    #[verifier::external_body]
    pub(crate) fn remove(&mut self, i: usize) -> (item: Item)
        requires
            i < items_in(*old(self)).len(),
        ensures
            item == items_in(*old(self))[i as int],
            items_in(*final(self)) == items_in(*old(self)).remove(i as int),
    {
        self.inner.remove(i)
    }
}

/// A `smallvec::SmallVec` that holds one agent in place.
#[verifier::external_body]
#[derive(Debug)]
pub struct TileAgents {
    inner: smallvec::SmallVec<[AgentKey; 1]>,
}

/// The agents in a list, in the order in which they came.
pub uninterp spec fn agents_in(list: TileAgents) -> Seq<AgentKey>;

impl TileAgents {
    /// `SmallVec::new`: nobody is in the list.
    #[verifier::external_body]
    pub(crate) fn new() -> (list: Self)
        ensures
            agents_in(list) == Seq::<AgentKey>::empty(),
    {
        TileAgents { inner: smallvec::SmallVec::new() }
    }

    /// The length of the slice that a `SmallVec` derefs to.
    #[verifier::external_body]
    pub(crate) fn len(&self) -> (n: usize)
        ensures
            n == agents_in(*self).len(),
    {
        self.inner.len()
    }

    /// Indexing of a `SmallVec`: the agent at `i`.
    #[verifier::external_body]
    pub(crate) fn at(&self, i: usize) -> (key: AgentKey)
        requires
            i < agents_in(*self).len(),
        ensures
            key == agents_in(*self)[i as int],
    {
        self.inner[i]
    }

    /// `SmallVec::push`: the agent goes behind the others.
    #[verifier::external_body]
    pub(crate) fn push(&mut self, key: AgentKey)
        ensures
            agents_in(*final(self)) == agents_in(*old(self)).push(key),
    {
        self.inner.push(key);
    }

    /// `SmallVec::remove`: the agent at `i` is taken out, and those after it move up.
    #[verifier::external_body]
    pub(crate) fn remove(&mut self, i: usize) -> (key: AgentKey)
        requires
            i < agents_in(*old(self)).len(),
        ensures
            key == agents_in(*old(self))[i as int],
            agents_in(*final(self)) == agents_in(*old(self)).remove(i as int),
    {
        self.inner.remove(i)
    }
}

} // verus!
