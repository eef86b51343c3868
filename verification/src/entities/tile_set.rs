//! The list that the changed tiles of a chunk are kept in.

use crate::entities::position::Position;
use vstd::prelude::*;

verus! {

/// A `smallvec::SmallVec` that holds up to four tiles in place.
#[verifier::external_body]
#[derive(Debug)]
pub struct TileList {
    inner: smallvec::SmallVec<[Position; 4]>,
}

/// The tiles in a list, in the order in which they came.
pub uninterp spec fn tiles_in(list: TileList) -> Seq<Position>;

impl TileList {
    /// `SmallVec::new`: nothing is in the list.
    #[verifier::external_body]
    pub(crate) fn new() -> (list: Self)
        ensures
            tiles_in(list) == Seq::<Position>::empty(),
    {
        TileList { inner: smallvec::SmallVec::new() }
    }

    /// The length of the slice that a `SmallVec` derefs to.
    #[verifier::external_body]
    pub(crate) fn len(&self) -> (n: usize)
        ensures
            n == tiles_in(*self).len(),
    {
        self.inner.len()
    }

    /// Indexing of a `SmallVec`: the tile at `i`.
    #[verifier::external_body]
    pub(crate) fn at(&self, i: usize) -> (p: Position)
        requires
            i < tiles_in(*self).len(),
        ensures
            p == tiles_in(*self)[i as int],
    {
        self.inner[i]
    }

    /// `SmallVec::push`: the tile goes behind the others.
    #[verifier::external_body]
    pub(crate) fn push(&mut self, p: Position)
        ensures
            tiles_in(*final(self)) == tiles_in(*old(self)).push(p),
    {
        self.inner.push(p);
    }
}

} // verus!
