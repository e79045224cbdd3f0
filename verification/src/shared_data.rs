use vstd::prelude::*;

use crate::static_mesh::DataSingle;

verus! {

/// The slot that becomes the write slot after a swap: the one before `index`,
/// the last one coming before the first.
pub open spec fn swapped_index(index: nat, len: nat) -> nat {
    if index > 0 {
        (index - 1) as nat
    } else {
        (len - 1) as nat
    }
}

/// Data of a system that other systems read: one value, and a ring of slots
/// of which one is written while the others hold earlier states. A swap moves
/// the write slot one step back around the ring, so that a read at offset
/// one finds what was written before the swap.
pub struct SharedData<T0, T1> {
    single_data: T0,
    multiple_data: Vec<T1>,
    swap_index: usize,
}

impl<T0, T1> SharedData<T0, T1> {
    /// The single value.
    pub closed spec fn single(&self) -> T0 {
        self.single_data
    }

    /// The ring of slots.
    pub closed spec fn slots(&self) -> Seq<T1> {
        self.multiple_data@
    }

    /// The position of the write slot.
    pub closed spec fn write_index(&self) -> nat {
        self.swap_index as nat
    }

    /// The write slot lies in the ring, unless the ring is empty.
    pub open spec fn wf(&self) -> bool {
        self.slots().len() == 0 || self.write_index() < self.slots().len()
    }

    /// The position of the slot that a read at `offset` finds.
    pub open spec fn read_index(&self, offset: nat) -> nat {
        ((self.write_index() + offset) % self.slots().len()) as nat
    }

    /// `single_data` and the ring `multiple_data`, written at its first slot.
    pub fn new(single_data: T0, multiple_data: Vec<T1>) -> (r: Self)
        ensures
            r.wf(),
            r.single() == single_data,
            r.slots() == multiple_data@,
            r.write_index() == 0,
    {
        SharedData { single_data, multiple_data, swap_index: 0 }
    }

    /// `data` alone, with an empty ring.
    pub fn new_single(data: T0) -> (r: Self)
        ensures
            r.wf(),
            r.single() == data,
            r.slots() == Seq::<T1>::empty(),
            r.write_index() == 0,
    {
        SharedData { single_data: data, multiple_data: Vec::new(), swap_index: 0 }
    }

    /// `single_data`, and a ring of `len` slots each holding `data`.
    pub fn new_multiple(single_data: T0, data: T1, len: usize) -> (r: Self) where T1: Copy
        ensures
            r.wf(),
            r.single() == single_data,
            r.slots() == Seq::new(len as nat, |i: int| data),
            r.write_index() == 0,
    {
        let mut multiple_data: Vec<T1> = Vec::new();
        let mut i: usize = 0;
        while i < len
            invariant
                i <= len,
                multiple_data@ == Seq::new(i as nat, |k: int| data),
            decreases len - i,
        {
            multiple_data.push(data);
            i = i + 1;
            assert(multiple_data@ =~= Seq::new(i as nat, |k: int| data));
        }
        SharedData { single_data, multiple_data, swap_index: 0 }
    }

    /// The single value.
    pub fn read_single(&self) -> (r: &T0)
        ensures
            *r == self.single(),
    {
        &self.single_data
    }

    /// Write access to the single value.
    pub fn write_single(&mut self) -> (r: &mut T0)
        ensures
            *r == old(self).single(),
            final(self).single() == *final(r),
            final(self).slots() == old(self).slots(),
            final(self).write_index() == old(self).write_index(),
    {
        &mut self.single_data
    }

    /// The slot `offset` steps after the write slot around the ring; an
    /// offset of one is the state written before the last swap.
    pub fn read_multiple(&self, offset: usize) -> (r: &T1)
        requires
            self.wf(),
            self.slots().len() > 0,
            offset > 0,
            self.write_index() + offset <= usize::MAX,
        ensures
            *r == self.slots()[self.read_index(offset as nat) as int],
    {
        let index = (self.swap_index + offset) % self.multiple_data.len();
        &self.multiple_data[index]
    }

    /// Write access to the write slot.
    pub fn write_multiple(&mut self) -> (r: &mut T1)
        requires
            old(self).wf(),
            old(self).slots().len() > 0,
        ensures
            *r == old(self).slots()[old(self).write_index() as int],
            final(self).slots() == old(self).slots().update(old(self).write_index() as int, *final(r)),
            final(self).write_index() == old(self).write_index(),
            final(self).single() == old(self).single(),
    {
        let index = self.swap_index;
        &mut self.multiple_data[index]
    }

    /// Moves the write slot one step back around the ring; an empty ring is
    /// left as it is.
    pub fn swap_multiple(&mut self)
        requires
            old(self).wf(),
        ensures
            final(self).wf(),
            final(self).slots() == old(self).slots(),
            final(self).single() == old(self).single(),
            final(self).write_index() == if old(self).slots().len() > 0 {
                swapped_index(old(self).write_index(), old(self).slots().len())
            } else {
                old(self).write_index()
            },
    {
        let len = self.multiple_data.len();
        if len > 0 {
            if self.swap_index > 0 {
                self.swap_index = self.swap_index - 1;
            } else {
                self.swap_index = len - 1;
            }
        }
    }
}

/// `x` modulo `m` for `x` below twice `m`.
proof fn lemma_mod_below_twice(x: int, m: int)
    requires
        0 < m,
        0 <= x < 2 * m,
    ensures
        x % m == if x < m { x } else { x - m },
{
    if x < m {
        vstd::arithmetic::div_mod::lemma_small_mod(x as nat, m as nat);
    } else {
        vstd::arithmetic::div_mod::lemma_mod_sub_multiples_vanish(x, m);
        vstd::arithmetic::div_mod::lemma_small_mod((x - m) as nat, m as nat);
    }
}

/// What was written is read after a swap (law): in a ring of `len` slots,
/// the slot that a read at offset one finds after a swap is the slot that
/// was the write slot before it.
pub proof fn law_read_after_swap(index: nat, len: nat)
    requires
        index < len,
    ensures
        (swapped_index(index, len) + 1) as int % (len as int) == index,
{
    lemma_mod_below_twice(swapped_index(index, len) + 1 as int, len as int);
}

/// A full turn around the ring (law): after `k` swaps, for `k` up to `len`,
/// the write slot is `k` steps back from where it started; after `len` swaps
/// it is where it started.
pub proof fn law_swaps_turn_around(index: nat, len: nat, k: nat)
    requires
        index < len,
        k <= len,
    ensures
        swaps(index, len, k) == (index + len - k) % (len as int),
        k == len ==> swaps(index, len, k) == index,
    decreases k,
{
    if k > 0 {
        law_swaps_turn_around(index, len, (k - 1) as nat);
        let a = index + len - k + 1;
        lemma_mod_below_twice(a as int, len as int);
        lemma_mod_below_twice(a - 1, len as int);
    } else {
        lemma_mod_below_twice((index + len) as int, len as int);
    }
    if k == len {
        lemma_mod_below_twice(index as int, len as int);
    }
}

/// A read sees what was written that many swaps ago (law): in a ring of `len`
/// slots, after a write at slot `index` and then `k` swaps (which keep the
/// slots and move the write slot to `swaps(index, len, k)`), a read at offset
/// `k`, for `k` from one up to `len`, finds slot `index`.
pub proof fn law_read_after_swaps(index: nat, len: nat, k: nat)
    requires
        index < len,
        1 <= k <= len,
    ensures
        (swaps(index, len, k) + k) as int % (len as int) == index,
{
    law_swaps_turn_around(index, len, k);
    let a = index + len - k;
    vstd::arithmetic::div_mod::lemma_fundamental_div_mod(a as int, len as int);
    lemma_mod_below_twice(a as int, len as int);
    lemma_mod_below_twice((swaps(index, len, k) + k) as int, len as int);
}

/// The write slot after `k` swaps, starting from `index`.
pub open spec fn swaps(index: nat, len: nat, k: nat) -> nat
    decreases k,
{
    if k == 0 {
        index
    } else {
        swapped_index(swaps(index, len, (k - 1) as nat), len)
    }
}

/// The data that the systems share: that of navigation and physics, which
/// hold nothing yet, and that of the static meshes.
pub struct SystemData {
    pub navigation: SharedData<(), ()>,
    pub physics: SharedData<(), ()>,
    pub static_mesh: SharedData<DataSingle, ()>,
}

/// The shared data of all systems, each in its initial state: no static
/// meshes, and empty rings.
pub fn system_data() -> (r: SystemData)
    ensures
        r.static_mesh.single().locations.wf(),
        r.static_mesh.single().locations@ == Seq::<(crate::entity::EntityId, crate::packet::Vec3_32)>::empty(),
        r.static_mesh.slots().len() == 0,
        r.navigation.slots().len() == 0,
        r.physics.slots().len() == 0,
{
    SystemData {
        navigation: SharedData::new_single(()),
        physics: SharedData::new_single(()),
        static_mesh: SharedData::new_single(DataSingle::new()),
    }
}

} // verus!
