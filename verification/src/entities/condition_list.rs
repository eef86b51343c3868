//! The list that an agent's conditions are kept in.

use crate::entities::conditions::Condition;
use vstd::prelude::*;

verus! {

/// A `smallvec::SmallVec` that holds up to three conditions in place.
#[verifier::external_body]
#[derive(Debug)]
pub struct ConditionList {
    inner: smallvec::SmallVec<[Condition; 3]>,
}

/// The conditions in a list, the oldest first.
pub uninterp spec fn listed(list: ConditionList) -> Seq<Condition>;

impl ConditionList {
    /// `SmallVec::new`: nothing is in the list.
    #[verifier::external_body]
    pub(crate) fn new() -> (list: Self)
        ensures
            listed(list) == Seq::<Condition>::empty(),
    {
        ConditionList { inner: smallvec::SmallVec::new() }
    }

    /// The length of the slice that a `SmallVec` derefs to.
    #[verifier::external_body]
    pub(crate) fn len(&self) -> (n: usize)
        ensures
            n == listed(*self).len(),
    {
        self.inner.len()
    }

    /// Indexing of a `SmallVec`: the condition at `i`.
    #[verifier::external_body]
    pub(crate) fn at(&self, i: usize) -> (c: &Condition)
        requires
            i < listed(*self).len(),
        ensures
            *c == listed(*self)[i as int],
    {
        &self.inner[i]
    }

    /// Indexed assignment to a `SmallVec`: `c` takes the place of the condition at `i`.
    #[verifier::external_body]
    pub(crate) fn set(&mut self, i: usize, c: Condition)
        requires
            i < listed(*old(self)).len(),
        ensures
            listed(*final(self)) == listed(*old(self)).update(i as int, c),
    {
        self.inner[i] = c;
    }

    /// `SmallVec::push`: `c` goes behind the others.
    #[verifier::external_body]
    pub(crate) fn push(&mut self, c: Condition)
        ensures
            listed(*final(self)) == listed(*old(self)).push(c),
    {
        self.inner.push(c);
    }

    /// `SmallVec::remove`: the condition at `i` is taken out, and those after it move up.
    #[verifier::external_body]
    pub(crate) fn remove(&mut self, i: usize) -> (c: Condition)
        requires
            i < listed(*old(self)).len(),
        ensures
            c == listed(*old(self))[i as int],
            listed(*final(self)) == listed(*old(self)).remove(i as int),
    {
        self.inner.remove(i)
    }
}

} // verus!
