//! The tables that the map keeps its chunks and its agents' places in. Copies of them share what
//! neither has changed.

use crate::entities::map::Chunk;
use crate::entities::position::Position;
use std::sync::Arc;
use vstd::prelude::*;

verus! {

/// An `imbl::HashMap` from chunk numbers to chunks.
#[verifier::external_body]
#[derive(Debug)]
pub struct ChunkTable {
    inner: imbl::HashMap<u64, Arc<Chunk>>,
}

/// The chunks in a table, by their number.
pub uninterp spec fn chunks_in(table: ChunkTable) -> Map<u64, Arc<Chunk>>;

impl ChunkTable {
    /// `imbl::HashMap::new`: no chunk is in the table.
    #[verifier::external_body]
    pub(crate) fn new() -> (table: Self)
        ensures
            chunks_in(table) =~= Map::empty(),
    {
        ChunkTable { inner: imbl::HashMap::new() }
    }

    /// `imbl::HashMap::get`: the chunk with this number.
    #[verifier::external_body]
    pub(crate) fn get(&self, key: u64) -> (r: Option<&Arc<Chunk>>)
        ensures
            match r {
                Some(chunk) => chunks_in(*self).contains_key(key) && *chunk == chunks_in(
                    *self,
                )[key],
                None => !chunks_in(*self).contains_key(key),
            },
    {
        self.inner.get(&key)
    }

    /// `imbl::HashMap::get_mut`: the chunk with this number, to be changed in its place.
    #[verifier::external_body]
    pub(crate) fn get_mut(&mut self, key: u64) -> (r: Option<&mut Arc<Chunk>>)
        ensures
            match r {
                Some(chunk) => {
                    &&& chunks_in(*old(self)).contains_key(key)
                    &&& *chunk == chunks_in(*old(self))[key]
                    &&& chunks_in(*final(self)) == chunks_in(*old(self)).insert(key, *final(chunk))
                },
                None => !chunks_in(*old(self)).contains_key(key) && chunks_in(*final(self))
                    == chunks_in(*old(self)),
            },
    {
        self.inner.get_mut(&key)
    }

    /// `imbl::HashMap::insert`: the chunk has this number now.
    #[verifier::external_body]
    pub(crate) fn insert(&mut self, key: u64, chunk: Arc<Chunk>)
        ensures
            chunks_in(*final(self)) == chunks_in(*old(self)).insert(key, chunk),
    {
        self.inner.insert(key, chunk);
    }

    /// `imbl::HashMap::clone`: a table of the same chunks, which both hold.
    #[verifier::external_body]
    pub(crate) fn copy(&self) -> (table: Self)
        ensures
            chunks_in(table) == chunks_in(*self),
    {
        ChunkTable { inner: self.inner.clone() }
    }
}

/// An `imbl::HashMap` from agents' keys to the tiles they stand on.
#[verifier::external_body]
#[derive(Debug)]
pub struct PositionTable {
    inner: imbl::HashMap<u64, Position>,
}

/// The places in a table, by the key of the agent there.
pub uninterp spec fn positions_in(table: PositionTable) -> Map<u64, Position>;

impl PositionTable {
    /// `imbl::HashMap::new`: nobody is in the table.
    #[verifier::external_body]
    pub(crate) fn new() -> (table: Self)
        ensures
            positions_in(table) =~= Map::empty(),
    {
        PositionTable { inner: imbl::HashMap::new() }
    }

    /// `imbl::HashMap::get`: where the agent stands.
    #[verifier::external_body]
    pub(crate) fn get(&self, key: u64) -> (r: Option<&Position>)
        ensures
            match r {
                Some(position) => positions_in(*self).contains_key(key) && *position
                    == positions_in(*self)[key],
                None => !positions_in(*self).contains_key(key),
            },
    {
        self.inner.get(&key)
    }

    /// `imbl::HashMap::insert`: the agent stands here now.
    #[verifier::external_body]
    pub(crate) fn insert(&mut self, key: u64, position: Position)
        ensures
            positions_in(*final(self)) == positions_in(*old(self)).insert(key, position),
    {
        self.inner.insert(key, position);
    }

    /// `imbl::HashMap::remove`: the agent is no longer in the table.
    #[verifier::external_body]
    pub(crate) fn remove(&mut self, key: u64) -> (r: Option<Position>)
        ensures
            match r {
                Some(position) => positions_in(*old(self)).contains_key(key) && position
                    == positions_in(*old(self))[key],
                None => !positions_in(*old(self)).contains_key(key),
            },
            positions_in(*final(self)) == positions_in(*old(self)).remove(key),
    {
        self.inner.remove(&key)
    }

    /// `imbl::HashMap::clone`: a table of the same places.
    #[verifier::external_body]
    pub(crate) fn copy(&self) -> (table: Self)
        ensures
            positions_in(table) == positions_in(*self),
    {
        PositionTable { inner: self.inner.clone() }
    }
}

} // verus!
