//! The small numbers by which one client knows agents and containers.

use vstd::prelude::*;

verus! {

/// What a client knows, each by its own number and by the world's.
#[derive(Debug)]
pub struct LocalIds {
    entries: Vec<(u64, u16)>,
}

/// The first entry from the `i`th on for something in the world.
pub open spec fn global_at(s: Seq<(u64, u16)>, i: int, global: u64) -> Option<int>
    decreases s.len() - i,
{
    if i < 0 || i >= s.len() {
        None
    } else if s[i].0 == global {
        Some(i)
    } else {
        global_at(s, i + 1, global)
    }
}

/// The first entry from the `i`th on with a client's number.
pub open spec fn local_at(s: Seq<(u64, u16)>, i: int, local: u16) -> Option<int>
    decreases s.len() - i,
{
    if i < 0 || i >= s.len() {
        None
    } else if s[i].1 == local {
        Some(i)
    } else {
        local_at(s, i + 1, local)
    }
}

/// The client's number for something in the world.
pub open spec fn local_of(s: Seq<(u64, u16)>, global: u64) -> Option<u16> {
    match global_at(s, 0, global) {
        Some(i) => Some(s[i].1),
        None => None,
    }
}

/// What a client's number stands for.
pub open spec fn global_of(s: Seq<(u64, u16)>, local: u16) -> Option<u64> {
    match local_at(s, 0, local) {
        Some(i) => Some(s[i].0),
        None => None,
    }
}

/// Without what a client's number stands for.
pub open spec fn without_local(s: Seq<(u64, u16)>, local: u16) -> Seq<(u64, u16)> {
    match local_at(s, 0, local) {
        Some(i) => s.remove(i),
        None => s,
    }
}

/// Nothing is known twice, and no number stands for two things.
pub open spec fn one_to_one(s: Seq<(u64, u16)>) -> bool {
    forall|i: int, j: int|
        0 <= i < s.len() && 0 <= j < s.len() && i != j ==> (#[trigger] s[i]).0 != (
        #[trigger] s[j]).0 && s[i].1 != s[j].1
}

proof fn lemma_global_at(s: Seq<(u64, u16)>, i: int, global: u64)
    requires
        0 <= i,
    ensures
        match global_at(s, i, global) {
            Some(k) => i <= k < s.len() && s[k].0 == global,
            None => forall|k: int| i <= k < s.len() ==> (#[trigger] s[k]).0 != global,
        },
    decreases s.len() - i,
{
    if i < s.len() {
        lemma_global_at(s, i + 1, global);
    }
}

pub(crate) proof fn lemma_local_at(s: Seq<(u64, u16)>, i: int, local: u16)
    requires
        0 <= i,
    ensures
        match local_at(s, i, local) {
            Some(k) => i <= k < s.len() && s[k].1 == local,
            None => forall|k: int| i <= k < s.len() ==> (#[trigger] s[k]).1 != local,
        },
    decreases s.len() - i,
{
    if i < s.len() {
        lemma_local_at(s, i + 1, local);
    }
}

impl View for LocalIds {
    type V = Seq<(u64, u16)>;

    closed spec fn view(&self) -> Seq<(u64, u16)> {
        self.entries@
    }
}

impl LocalIds {
    pub open spec fn wf(&self) -> bool {
        one_to_one(self@)
    }

    pub fn new() -> (ids: Self)
        ensures
            ids.wf(),
            ids@ == Seq::<(u64, u16)>::empty(),
    {
        LocalIds { entries: Vec::new() }
    }

    fn find_local(&self, local: u16) -> (r: Option<usize>)
        ensures
            match r {
                Some(i) => i < self@.len() && local_at(self@, 0, local) == Some(i as int),
                None => local_at(self@, 0, local) is None,
            },
    {
        let mut i: usize = 0;
        while i < self.entries.len()
            invariant
                i <= self@.len(),
                self@ == self.entries@,
                local_at(self@, 0, local) == local_at(self@, i as int, local),
            decreases self.entries.len() - i,
        {
            if self.entries[i].1 == local {
                return Some(i);
            }
            i += 1;
        }
        None
    }

    /// The client's number for something in the world.
    pub fn get_local(&self, global: u64) -> (r: Option<u16>)
        ensures
            r == local_of(self@, global),
    {
        let mut i: usize = 0;
        while i < self.entries.len()
            invariant
                i <= self@.len(),
                self@ == self.entries@,
                global_at(self@, 0, global) == global_at(self@, i as int, global),
            decreases self.entries.len() - i,
        {
            if self.entries[i].0 == global {
                return Some(self.entries[i].1);
            }
            i += 1;
        }
        None
    }

    /// What a client's number stands for.
    pub fn get_global(&self, local: u16) -> (r: Option<u64>)
        ensures
            r == global_of(self@, local),
    {
        match self.find_local(local) {
            Some(i) => Some(self.entries[i].0),
            None => None,
        }
    }

    /// Everything that the client knows, by the world's numbers.
    pub fn globals(&self) -> (r: Vec<u64>)
        ensures
            r@ == Seq::new(self@.len(), |i: int| self@[i].0),
    {
        let ghost all = Seq::new(self@.len(), |i: int| self@[i].0);
        let mut r: Vec<u64> = Vec::new();
        let mut i: usize = 0;
        while i < self.entries.len()
            invariant
                i <= self@.len(),
                self@ == self.entries@,
                all == Seq::new(self@.len(), |i: int| self@[i].0),
                r@ == all.take(i as int),
            decreases self.entries.len() - i,
        {
            r.push(self.entries[i].0);
            assert(all.take(i + 1) =~= all.take(i as int).push(all[i as int]));
            i += 1;
        }
        assert(r@ =~= all);
        r
    }

    /// Everything that the client knows, by its own numbers.
    pub fn locals(&self) -> (r: Vec<u16>)
        ensures
            r@ == Seq::new(self@.len(), |i: int| self@[i].1),
    {
        let ghost all = Seq::new(self@.len(), |i: int| self@[i].1);
        let mut r: Vec<u16> = Vec::new();
        let mut i: usize = 0;
        while i < self.entries.len()
            invariant
                i <= self@.len(),
                self@ == self.entries@,
                all == Seq::new(self@.len(), |i: int| self@[i].1),
                r@ == all.take(i as int),
            decreases self.entries.len() - i,
        {
            r.push(self.entries[i].1);
            assert(all.take(i + 1) =~= all.take(i as int).push(all[i as int]));
            i += 1;
        }
        assert(r@ =~= all);
        r
    }

    /// Forgets what a client's number stands for.
    pub fn remove_by_local(&mut self, local: u16)
        requires
            old(self).wf(),
        ensures
            final(self).wf(),
            final(self)@ == without_local(old(self)@, local),
            global_of(final(self)@, local) is None,
    {
        let ghost before = self@;
        proof {
            lemma_local_at(before, 0, local);
        }
        if let Some(i) = self.find_local(local) {
            self.entries.remove(i);
            assert forall|j: int, k: int| 0 <= j < self@.len() && 0 <= k < self@.len() && j != k implies (
            #[trigger] self@[j]).0 != (#[trigger] self@[k]).0 && self@[j].1 != self@[k].1 by {
                let a = if j < i { j } else { j + 1 };
                let b = if k < i { k } else { k + 1 };
                assert(before[a].0 != before[b].0);
            }
            proof {
                lemma_local_at(self@, 0, local);
                if let Some(k) = local_at(self@, 0, local) {
                    let a = if k < i { k } else { k + 1 };
                    assert(before[a].1 == before[i as int].1);
                }
            }
        }
    }

    /// The client's number for something in the world. What the client does not know yet gets the
    /// lowest number that stands for nothing.
    pub fn get_or_insert(&mut self, global: u64) -> (local: u16)
        requires
            old(self).wf(),
            old(self)@.len() <= u16::MAX,
        ensures
            final(self).wf(),
            match local_of(old(self)@, global) {
                Some(known) => local == known && final(self)@ == old(self)@,
                None => {
                    &&& final(self)@ == old(self)@.push((global, local))
                    &&& global_of(old(self)@, local) is None
                    &&& forall|lower: u16|
                        lower < local ==> #[trigger] global_of(old(self)@, lower) is Some
                },
            },
    {
        if let Some(known) = self.get_local(global) {
            return known;
        }
        let ghost before = self@;
        let mut local: u16 = 0;
        while self.find_local(local).is_some()
            invariant
                self@ == before,
                before.len() <= u16::MAX,
                one_to_one(before),
                forall|lower: u16| lower < local ==> #[trigger] global_of(before, lower) is Some,
            decreases u16::MAX - local,
        {
            proof {
                if local == u16::MAX {
                    lemma_some_free(before);
                    let free = choose|n: u16| #[trigger] global_of(before, n) is None;
                    assert(free == local);
                }
            }
            local += 1;
        }
        self.entries.push((global, local));
        proof {
            lemma_global_at(before, 0, global);
            lemma_local_at(before, 0, local);
            assert forall|i: int, j: int| 0 <= i < self@.len() && 0 <= j < self@.len() && i != j implies (
            #[trigger] self@[i]).0 != (#[trigger] self@[j]).0 && self@[i].1 != self@[j].1 by {
                if i < before.len() && j < before.len() {
                    assert(before[i].0 != before[j].0);
                }
            }
        }
        local
    }
}

/// What was just made known is found.
pub(crate) proof fn lemma_inserted(s: Seq<(u64, u16)>, global: u64, local: u16)
    ensures
        local_of(s, global) is None ==> local_of(s.push((global, local)), global) == Some(local),
{
    if local_of(s, global) is None {
        let t = s.push((global, local));
        lemma_global_at(s, 0, global);
        lemma_global_at(t, 0, global);
        if let Some(k) = global_at(t, 0, global) {
            if k < s.len() {
                assert(s[k].0 == global);
            }
        } else {
            assert(t[s.len() as int].0 != global);
        }
    }
}

/// Some number stands for nothing where there are fewer things than numbers.
proof fn lemma_some_free(s: Seq<(u64, u16)>)
    requires
        one_to_one(s),
        s.len() <= u16::MAX,
    ensures
        exists|n: u16| #[trigger] global_of(s, n) is None,
{
    if forall|n: u16| #[trigger] global_of(s, n) is Some {
        let places = Seq::new(65536, |n: int| local_at(s, 0, n as u16).unwrap());
        assert forall|n: int| 0 <= n < 65536 implies 0 <= #[trigger] places[n] < s.len() && s[
            places[n]].1 == n by {
            assert(global_of(s, n as u16) is Some);
            lemma_local_at(s, 0, n as u16);
        }
        lemma_pigeons(places, s.len() as int);
        let (i, j): (int, int) = choose|i: int, j: int|
            0 <= i < j < 65536 && #[trigger] places[i] == #[trigger] places[j];
        assert(s[places[i]].1 == i);
        assert(s[places[j]].1 == j);
    }
}

/// Of more numbers below `n` than there are two are the same.
proof fn lemma_pigeons(s: Seq<int>, n: int)
    requires
        s.len() > n,
        n >= 0,
        forall|i: int| 0 <= i < s.len() ==> 0 <= #[trigger] s[i] < n,
    ensures
        exists|i: int, j: int| 0 <= i < j < s.len() && #[trigger] s[i] == #[trigger] s[j],
{
    if forall|i: int, j: int| 0 <= i < j < s.len() ==> #[trigger] s[i] != #[trigger] s[j] {
        assert(s.no_duplicates());
        s.unique_seq_to_set();
        let all = vstd::set_lib::set_int_range(0, n);
        vstd::set_lib::lemma_int_range(0, n);
        assert(s.to_set().subset_of(all)) by {
            assert forall|x: int| s.to_set().contains(x) implies all.contains(x) by {
                let i = s.index_of(x);
                assert(s[i] == x);
            }
        }
        vstd::set_lib::lemma_len_subset(s.to_set(), all);
    }
}

/// A short number stands for the one thing it was given to, and that thing for it; what was given
/// no number has none.
pub proof fn law_numbers_stand_for_one_thing(s: Seq<(u64, u16)>, i: int, global: u64, local: u16)
    requires
        one_to_one(s),
        0 <= i < s.len(),
    ensures
        local_of(s, s[i].0) == Some(s[i].1),
        global_of(s, s[i].1) == Some(s[i].0),
        (forall|j: int| 0 <= j < s.len() ==> (#[trigger] s[j]).0 != global) ==> local_of(s, global)
            is None,
        (forall|j: int| 0 <= j < s.len() ==> (#[trigger] s[j]).1 != local) ==> global_of(s, local)
            is None,
{
    lemma_global_at(s, 0, s[i].0);
    lemma_local_at(s, 0, s[i].1);
    lemma_global_at(s, 0, global);
    lemma_local_at(s, 0, local);
}

/// What is given up frees its number, and no other.
pub proof fn law_only_what_is_given_up_is_freed(s: Seq<(u64, u16)>, i: int, j: int)
    requires
        one_to_one(s),
        0 <= i < s.len(),
        0 <= j < s.len(),
    ensures
        one_to_one(without_local(s, s[i].1)),
        global_of(without_local(s, s[i].1), s[j].1) == (if i == j {
            None
        } else {
            Some(s[j].0)
        }),
        local_of(without_local(s, s[i].1), s[j].0) == (if i == j {
            None
        } else {
            Some(s[j].1)
        }),
{
    law_numbers_stand_for_one_thing(s, i, 0, 0);
    lemma_local_at(s, 0, s[i].1);
    let r = without_local(s, s[i].1);
    assert(r =~= s.remove(i));
    lemma_local_at(r, 0, s[j].1);
    lemma_global_at(r, 0, s[j].0);
    if j < i {
        law_numbers_stand_for_one_thing(r, j, 0, 0);
    } else if j > i {
        law_numbers_stand_for_one_thing(r, j - 1, 0, 0);
    }
}

} // verus!
