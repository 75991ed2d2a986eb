//! A generational arena: values are stored in slots and addressed by a
//! stable index that pairs the slot number with a generation counter.
//! Removing a value bumps the slot's generation, so indices to removed
//! values stay invalid even when the slot is reused.

use vstd::prelude::*;

verus! {

/// A stable handle to an arena entry: slot number plus generation.
#[derive(Debug, Clone, Copy, PartialEq, Eq, Hash, Structural)]
pub struct ArenaIndex {
    pub slot: usize,
    pub generation: u64,
}

/// One storage slot of an [`Arena`].
pub struct ArenaSlot<T> {
    pub generation: u64,
    pub value: Option<T>,
}

/// The number of occupied slots in a slot sequence.
pub open spec fn occ_count<T>(s: Seq<ArenaSlot<T>>) -> nat
    decreases s.len(),
{
    if s.len() == 0 {
        0
    } else {
        occ_count(s.drop_last()) + (if s.last().value is Some {
            1nat
        } else {
            0nat
        })
    }
}

proof fn lemma_occ_le_len<T>(s: Seq<ArenaSlot<T>>)
    ensures
        occ_count(s) <= s.len(),
    decreases s.len(),
{
    if s.len() > 0 {
        lemma_occ_le_len(s.drop_last());
    }
}

/// Occupancy count of an updated sequence: the contribution of the updated
/// slot is exchanged, everything else stays.
broadcast proof fn lemma_occ_update<T>(s: Seq<ArenaSlot<T>>, j: int, x: ArenaSlot<T>)
    requires
        0 <= j < s.len(),
    ensures
        occ_count(#[trigger] s.update(j, x)) == occ_count(s) - (if s[j].value is Some {
            1int
        } else {
            0int
        }) + (if x.value is Some {
            1int
        } else {
            0int
        }),
    decreases s.len(),
{
    let su = s.update(j, x);
    if j == s.len() - 1 {
        assert(su.drop_last() =~= s.drop_last());
        assert(su.last() == x);
    } else {
        lemma_occ_update(s.drop_last(), j, x);
        assert(su.drop_last() =~= s.drop_last().update(j, x));
        assert(su.last() == s.last());
    }
}

/// A vacant slot anywhere in the sequence means the occupancy count is
/// strictly below the length.
proof fn lemma_occ_lt_len_if_vacant<T>(s: Seq<ArenaSlot<T>>, j: int)
    requires
        0 <= j < s.len(),
        s[j].value is None,
    ensures
        occ_count(s) < s.len(),
    decreases s.len(),
{
    if j == s.len() - 1 {
        lemma_occ_le_len(s.drop_last());
    } else {
        lemma_occ_lt_len_if_vacant(s.drop_last(), j);
    }
}

/// An occupied slot anywhere in the sequence means the occupancy count is
/// at least one.
proof fn lemma_occ_pos_if_occupied<T>(s: Seq<ArenaSlot<T>>, j: int)
    requires
        0 <= j < s.len(),
        s[j].value is Some,
    ensures
        occ_count(s) >= 1,
    decreases s.len(),
{
    if j < s.len() - 1 {
        lemma_occ_pos_if_occupied(s.drop_last(), j);
    }
}

/// The set of indices that are live in a slot sequence.
pub open spec fn valid_set_of<T>(s: Seq<ArenaSlot<T>>) -> Set<ArenaIndex> {
    Set::new(
        |i: ArenaIndex|
            i.slot < s.len() && s[i.slot as int].value is Some && s[i.slot as int].generation
                == i.generation,
    )
}

/// The live indices form a finite set whose size is the occupancy count.
pub proof fn lemma_valid_set_len<T>(s: Seq<ArenaSlot<T>>)
    requires
        s.len() <= usize::MAX,
    ensures
        valid_set_of(s).finite(),
        valid_set_of(s).len() == occ_count(s),
    decreases s.len(),
{
    if s.len() == 0 {
        assert(valid_set_of(s) =~= Set::<ArenaIndex>::empty());
    } else {
        let s0 = s.drop_last();
        lemma_valid_set_len(s0);
        let last = s.last();
        if last.value is Some {
            let i = ArenaIndex { slot: (s.len() - 1) as usize, generation: last.generation };
            assert(i.slot == s.len() - 1);
            assert forall|j: ArenaIndex| valid_set_of(s).contains(j) implies valid_set_of(
                s0,
            ).insert(i).contains(j) by {
                if j.slot < s.len() - 1 {
                    assert(s0[j.slot as int] == s[j.slot as int]);
                } else {
                    assert(j.slot == s.len() - 1);
                    assert(j == i);
                }
            }
            assert forall|j: ArenaIndex| valid_set_of(s0).insert(i).contains(j) implies
                valid_set_of(s).contains(j) by {
                if j != i {
                    assert(s0[j.slot as int] == s[j.slot as int]);
                }
            }
            assert(valid_set_of(s) =~= valid_set_of(s0).insert(i));
            assert(!valid_set_of(s0).contains(i));
        } else {
            assert forall|j: ArenaIndex| valid_set_of(s).contains(j) implies valid_set_of(
                s0,
            ).contains(j) by {
                assert(j.slot < s.len() - 1);
                assert(s0[j.slot as int] == s[j.slot as int]);
            }
            assert forall|j: ArenaIndex| valid_set_of(s0).contains(j) implies valid_set_of(
                s,
            ).contains(j) by {
                assert(s0[j.slot as int] == s[j.slot as int]);
            }
            assert(valid_set_of(s) =~= valid_set_of(s0));
        }
    }
}

/// A generational arena over values of type `T`.
pub struct Arena<T> {
    pub slots: Vec<ArenaSlot<T>>,
    pub free: Vec<usize>,
    pub count: usize,
}

impl<T> Arena<T> {
    /// The number of slots ever allocated (occupied or vacant).
    pub open spec fn num_slots(&self) -> nat {
        self.slots@.len()
    }

    /// Whether slot `s` currently holds no value.
    pub open spec fn vacant_at(&self, s: int) -> bool {
        self.slots@[s].value is None
    }

    /// Whether `i` addresses a live entry.
    pub open spec fn valid(&self, i: ArenaIndex) -> bool {
        &&& i.slot < self.num_slots()
        &&& self.slots@[i.slot as int].value is Some
        &&& self.slots@[i.slot as int].generation == i.generation
    }

    /// The value addressed by `i`; meaningful only when `valid(i)`.
    pub open spec fn value_of(&self, i: ArenaIndex) -> T {
        self.slots@[i.slot as int].value->Some_0
    }

    /// The number of live entries.
    pub open spec fn len(&self) -> nat {
        self.count as nat
    }

    /// Structural well-formedness: the free list names distinct vacant
    /// slots, and `count` equals the number of occupied slots.
    pub open spec fn wf(&self) -> bool {
        &&& forall|k: int| 0 <= k < self.free@.len() ==>
            (#[trigger] self.free@[k]) < self.num_slots() && self.vacant_at(self.free@[k] as int)
        &&& forall|k1: int, k2: int| 0 <= k1 < k2 < self.free@.len() ==>
            self.free@[k1] != self.free@[k2]
        &&& self.count as nat == occ_count(self.slots@)
    }

    /// An empty arena.
    pub fn new() -> (r: Self)
        ensures
            r.wf(),
            r.len() == 0,
            r.num_slots() == 0,
            forall|i: ArenaIndex| !r.valid(i),
    {
        Arena { slots: Vec::new(), free: Vec::new(), count: 0 }
    }

    /// The number of live entries.
    pub fn num_entries(&self) -> (r: usize)
        ensures
            r == self.len(),
    {
        self.count
    }

    /// Whether `i` addresses a live entry.
    pub fn contains(&self, i: ArenaIndex) -> (r: bool)
        ensures
            r == self.valid(i),
    {
        if i.slot < self.slots.len() {
            let slot = &self.slots[i.slot];
            slot.value.is_some() && slot.generation == i.generation
        } else {
            false
        }
    }

    /// Insert a value, returning a fresh index: one that was not valid
    /// before the call. All live entries are untouched.
    pub fn insert(&mut self, value: T) -> (r: ArenaIndex)
        requires
            old(self).wf(),
        ensures
            final(self).wf(),
            !old(self).valid(r),
            final(self).valid(r),
            final(self).value_of(r) == value,
            final(self).len() == old(self).len() + 1,
            forall|j: ArenaIndex| #![trigger final(self).valid(j)] #![trigger old(self).valid(j)]
                j != r ==> final(self).valid(j) == old(self).valid(j),
            forall|j: ArenaIndex| #![trigger final(self).value_of(j)] #![trigger old(self).value_of(j)]
                j != r && old(self).valid(j) ==> final(self).value_of(j) == old(self).value_of(j),
            final(self).num_slots() >= old(self).num_slots(),
    {
        proof {
            lemma_occ_le_len(self.slots@);
            vstd::std_specs::vec::axiom_spec_len(&self.slots);
        }
        match self.free.pop() {
            Some(s) => {
                proof {
                    lemma_occ_lt_len_if_vacant(self.slots@, s as int);
                    lemma_occ_update(
                        self.slots@,
                        s as int,
                        ArenaSlot { generation: self.slots@[s as int].generation, value: Some(value) },
                    );
                }
                let generation = self.slots[s].generation;
                let slot_ref = &mut self.slots[s];
                slot_ref.value = Some(value);
                self.count = self.count + 1;
                ArenaIndex { slot: s, generation }
            },
            None => {
                let s = self.slots.len();
                self.slots.push(ArenaSlot { generation: 0, value: Some(value) });
                proof {
                    assert(self.slots@.drop_last() =~= old(self).slots@);
                    vstd::std_specs::vec::axiom_spec_len(&self.slots);
                }
                self.count = self.count + 1;
                ArenaIndex { slot: s, generation: 0 }
            },
        }
    }

    /// Remove the entry addressed by `i`, if it is live. The slot's
    /// generation is bumped so `i` stays invalid from now on.
    pub fn remove(&mut self, i: ArenaIndex) -> (r: Option<T>)
        requires
            old(self).wf(),
        ensures
            final(self).wf(),
            old(self).valid(i) ==> r == Some(old(self).value_of(i)),
            !old(self).valid(i) ==> r is None && *final(self) == *old(self),
            !final(self).valid(i),
            old(self).valid(i) ==> final(self).len() == old(self).len() - 1,
            forall|j: ArenaIndex| #![trigger final(self).valid(j)] #![trigger old(self).valid(j)]
                j != i ==> final(self).valid(j) == old(self).valid(j),
            forall|j: ArenaIndex| #![trigger final(self).value_of(j)] #![trigger old(self).value_of(j)]
                j != i && old(self).valid(j) ==> final(self).value_of(j) == old(self).value_of(j),
            final(self).num_slots() == old(self).num_slots(),
    {
        if !self.contains(i) {
            return None;
        }
        proof {
            lemma_occ_pos_if_occupied(self.slots@, i.slot as int);
        }
        let old_generation = self.slots[i.slot].generation;
        let new_generation = if old_generation == u64::MAX {
            0
        } else {
            old_generation + 1
        };
        proof {
            lemma_occ_update(
                self.slots@,
                i.slot as int,
                ArenaSlot { generation: new_generation, value: None::<T> },
            );
        }
        let slot_ref = &mut self.slots[i.slot];
        slot_ref.generation = new_generation;
        let taken = slot_ref.value.take();
        self.count = self.count - 1;
        self.free.push(i.slot);
        proof {
            assert forall|k1: int, k2: int| 0 <= k1 < k2 < self.free@.len() implies
                self.free@[k1] != self.free@[k2] by {
                if k2 == self.free@.len() - 1 {
                    assert(old(self).vacant_at(self.free@[k1] as int));
                }
            }
        }
        taken
    }

    /// Read access to the entry addressed by `i`.
    pub fn get(&self, i: ArenaIndex) -> (r: Option<&T>)
        ensures
            self.valid(i) ==> r is Some && *r->Some_0 == self.value_of(i),
            !self.valid(i) ==> r is None,
    {
        if i.slot < self.slots.len() {
            let slot = &self.slots[i.slot];
            if slot.generation == i.generation {
                slot.value.as_ref()
            } else {
                None
            }
        } else {
            None
        }
    }

    /// Write access to the entry addressed by `i`. Only the value behind
    /// `i` can change; validity, count and every other entry are untouched.
    pub fn get_mut(&mut self, i: ArenaIndex) -> (r: Option<&mut T>)
        requires
            old(self).wf(),
        ensures
            final(self).wf(),
            old(self).valid(i) ==> r is Some && *r->Some_0 == old(self).value_of(i)
                && final(self).value_of(i) == *final(r->Some_0),
            !old(self).valid(i) ==> r is None && *final(self) == *old(self),
            forall|j: ArenaIndex| #![trigger final(self).valid(j)] #![trigger old(self).valid(j)]
                final(self).valid(j) == old(self).valid(j),
            forall|j: ArenaIndex| #![trigger final(self).value_of(j)] #![trigger old(self).value_of(j)]
                j != i && old(self).valid(j) ==> final(self).value_of(j) == old(self).value_of(j),
            final(self).len() == old(self).len(),
            final(self).num_slots() == old(self).num_slots(),
    {
        broadcast use lemma_occ_update;

        if i.slot >= self.slots.len() {
            return None;
        }
        if self.slots[i.slot].generation != i.generation || self.slots[i.slot].value.is_none() {
            return None;
        }
        let slot_ref = &mut self.slots[i.slot];
        slot_ref.value.as_mut()
    }

    /// The live index currently occupying slot `s`, if any. Iterating the
    /// slots in order gives the arena's deterministic iteration order.
    pub fn index_at(&self, s: usize) -> (r: Option<ArenaIndex>)
        ensures
            r is Some <==> s < self.num_slots() && !self.vacant_at(s as int),
            r is Some ==> r->Some_0.slot == s && self.valid(r->Some_0),
    {
        if s < self.slots.len() {
            let slot = &self.slots[s];
            if slot.value.is_some() {
                Some(ArenaIndex { slot: s, generation: slot.generation })
            } else {
                None
            }
        } else {
            None
        }
    }

    /// The total number of slots; the bound for [`Arena::index_at`] scans.
    pub fn slot_count(&self) -> (r: usize)
        ensures
            r == self.num_slots(),
    {
        self.slots.len()
    }
}

/// Processor storage addressed by the graph's arena indices: a plain
/// slot table without its own allocation policy, so an entry can be
/// placed at exactly the index its graph node carries.
pub struct Slab<T> {
    pub slots: Vec<ArenaSlot<T>>,
}

impl<T> Slab<T> {
    /// Whether `i` addresses a live entry.
    pub open spec fn valid(&self, i: ArenaIndex) -> bool {
        &&& i.slot < self.slots@.len()
        &&& self.slots@[i.slot as int].value is Some
        &&& self.slots@[i.slot as int].generation == i.generation
    }

    /// The value addressed by `i`; meaningful only when `valid(i)`.
    pub open spec fn value_of(&self, i: ArenaIndex) -> T {
        self.slots@[i.slot as int].value->Some_0
    }

    /// An empty slab.
    pub fn new() -> (r: Self)
        ensures
            forall|i: ArenaIndex| !r.valid(i),
    {
        Slab { slots: Vec::new() }
    }

    /// Place a value at exactly the given index, growing the table as
    /// needed. Returns whatever the slot held before.
    pub fn insert_at(&mut self, i: ArenaIndex, value: T) -> (r: Option<T>)
        ensures
            final(self).valid(i),
            final(self).value_of(i) == value,
            forall|j: ArenaIndex| #![trigger final(self).valid(j)] #![trigger old(self).valid(j)]
                j.slot != i.slot ==> final(self).valid(j) == old(self).valid(j),
            forall|j: ArenaIndex| #![trigger final(self).value_of(j)] #![trigger old(self).value_of(j)]
                j.slot != i.slot && old(self).valid(j) ==> final(self).value_of(j)
                    == old(self).value_of(j),
            old(self).valid(i) ==> r == Some(old(self).value_of(i)),
    {
        while self.slots.len() <= i.slot
            invariant
                forall|j: ArenaIndex| #![trigger self.valid(j)] #![trigger old(self).valid(j)]
                    self.valid(j) == old(self).valid(j),
                forall|j: ArenaIndex| #![trigger self.value_of(j)] #![trigger old(self).value_of(j)]
                    old(self).valid(j) ==> self.value_of(j) == old(self).value_of(j),
            decreases i.slot + 1 - self.slots@.len(),
        {
            let ghost pre = self.slots@;
            self.slots.push(ArenaSlot { generation: 0, value: None });
            proof {
                assert forall|j: ArenaIndex| #![trigger self.valid(j)]
                    j.slot < self.slots@.len() implies self.slots@[j.slot as int]
                    == if j.slot < pre.len() {
                    pre[j.slot as int]
                } else {
                    ArenaSlot { generation: 0u64, value: None::<T> }
                } by {}
            }
        }
        let slot_ref = &mut self.slots[i.slot];
        slot_ref.generation = i.generation;
        let prev = slot_ref.value.take();
        slot_ref.value = Some(value);
        prev
    }

    /// Remove and return the entry addressed by `i`, if it is live. The
    /// generation is left alone: the graph, not the slab, owns it.
    pub fn remove(&mut self, i: ArenaIndex) -> (r: Option<T>)
        ensures
            !final(self).valid(i),
            old(self).valid(i) ==> r == Some(old(self).value_of(i)),
            !old(self).valid(i) ==> r is None && *final(self) == *old(self),
            forall|j: ArenaIndex| #![trigger final(self).valid(j)] #![trigger old(self).valid(j)]
                j.slot != i.slot ==> final(self).valid(j) == old(self).valid(j),
            forall|j: ArenaIndex| #![trigger final(self).value_of(j)] #![trigger old(self).value_of(j)]
                j.slot != i.slot && old(self).valid(j) ==> final(self).value_of(j)
                    == old(self).value_of(j),
    {
        if i.slot < self.slots.len() {
            if self.slots[i.slot].generation == i.generation && self.slots[i.slot].value.is_some() {
                let slot_ref = &mut self.slots[i.slot];
                let taken = slot_ref.value.take();
                return taken;
            }
        }
        None
    }

    /// Write access to the entry addressed by `i`.
    pub fn get_mut(&mut self, i: ArenaIndex) -> (r: Option<&mut T>)
        ensures
            old(self).valid(i) ==> r is Some && *r->Some_0 == old(self).value_of(i)
                && final(self).value_of(i) == *final(r->Some_0),
            !old(self).valid(i) ==> r is None && *final(self) == *old(self),
            forall|j: ArenaIndex| #![trigger final(self).valid(j)] #![trigger old(self).valid(j)]
                final(self).valid(j) == old(self).valid(j),
            forall|j: ArenaIndex| #![trigger final(self).value_of(j)] #![trigger old(self).value_of(j)]
                j != i && old(self).valid(j) ==> final(self).value_of(j) == old(self).value_of(j),
    {
        if i.slot >= self.slots.len() {
            return None;
        }
        if self.slots[i.slot].generation != i.generation || self.slots[i.slot].value.is_none() {
            return None;
        }
        let slot_ref = &mut self.slots[i.slot];
        slot_ref.value.as_mut()
    }

    /// The number of slots; the bound for drain scans.
    pub fn slot_count(&self) -> (r: usize)
        ensures
            r == self.slots@.len(),
    {
        self.slots.len()
    }

    /// Take the entry at slot `s`, whatever its generation.
    pub fn take_at_slot(&mut self, s: usize) -> (r: Option<T>)
        ensures
            final(self).slots@.len() == old(self).slots@.len(),
            s < old(self).slots@.len() ==> r == old(self).slots@[s as int].value
                && final(self).slots@ == old(self).slots@.update(
                s as int,
                ArenaSlot { generation: old(self).slots@[s as int].generation, value: None },
            ),
            s >= old(self).slots@.len() ==> r is None && *final(self) == *old(self),
            forall|j: ArenaIndex| #![trigger final(self).valid(j)] #![trigger old(self).valid(j)]
                j.slot != s ==> final(self).valid(j) == old(self).valid(j),
    {
        if s < self.slots.len() {
            let slot_ref = &mut self.slots[s];
            slot_ref.value.take()
        } else {
            None
        }
    }
}

} // verus!
