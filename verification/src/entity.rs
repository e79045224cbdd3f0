use vstd::prelude::*;
use vstd::string::StringExecFns;

verus! {

/// Identifier of an entity. It is never zero.
#[derive(Clone, Copy, PartialEq, Eq, Structural, Hash, PartialOrd, Ord, Debug)]
pub struct EntityId {
    id: u32,
}

impl View for EntityId {
    type V = u32;

    closed spec fn view(&self) -> u32 {
        self.id
    }
}

/// The identifier with value `v`.
pub closed spec fn entity_id_of(v: u32) -> EntityId {
    EntityId { id: v }
}

/// An identifier is its value.
pub proof fn lemma_entity_id_view(a: EntityId, b: EntityId, v: u32)
    ensures
        entity_id_of(v)@ == v,
        a@ == b@ ==> a == b,
{
}

impl EntityId {
    #[verifier::type_invariant]
    spec fn nonzero(self) -> bool {
        self.id != 0
    }

    /// Makes an identifier from its value, which may not be zero.
    pub fn new(val: u32) -> (r: Self)
        requires
            val != 0,
        ensures
            r@ == val,
            r == entity_id_of(val),
    {
        EntityId { id: val }
    }

    /// The value of the identifier.
    pub fn get(&self) -> (r: u32)
        ensures
            r == self@,
            r != 0,
    {
        proof {
            use_type_invariant(self);
        }
        self.id
    }

    /// The smallest identifier, one.
    pub fn min() -> (r: Self)
        ensures
            r@ == 1,
    {
        EntityId { id: 1 }
    }

    /// The largest identifier, `u32::MAX`.
    pub fn max() -> (r: Self)
        ensures
            r@ == u32::MAX,
    {
        EntityId { id: u32::MAX }
    }

    /// Moves to the next identifier; the largest one has no successor.
    pub fn increment(&mut self)
        requires
            old(self)@ < u32::MAX,
        ensures
            final(self)@ == old(self)@ + 1,
    {
        proof {
            use_type_invariant(&*self);
        }
        self.id = self.id + 1;
    }

    /// Moves to the previous identifier; one has no predecessor.
    pub fn decrement(&mut self)
        requires
            old(self)@ > 1,
        ensures
            final(self)@ == old(self)@ - 1,
    {
        self.id = self.id - 1;
    }
}

/// Position of the first entry of `ids` equal to `id`, if there is one.
pub open spec fn first_index(ids: Seq<EntityId>, id: EntityId) -> Option<int>
    decreases ids.len(),
{
    if ids.len() == 0 {
        None
    } else if ids[0] == id {
        Some(0)
    } else {
        match first_index(ids.drop_first(), id) {
            Some(i) => Some(i + 1),
            None => None,
        }
    }
}

/// What `first_index` finds: the first position holding `id`, or none when
/// `id` does not occur.
pub proof fn lemma_first_index(ids: Seq<EntityId>, id: EntityId)
    ensures
        first_index(ids, id) is None <==> !ids.contains(id),
        first_index(ids, id) matches Some(i) ==> {
            &&& 0 <= i < ids.len()
            &&& ids[i] == id
            &&& forall|j: int| 0 <= j < i ==> ids[j] != id
        },
    decreases ids.len(),
{
    if ids.len() > 0 {
        lemma_first_index(ids.drop_first(), id);
        if ids[0] != id {
            assert forall|j: int| 0 <= j < ids.len() - 1 implies ids.drop_first()[j] == ids[j + 1] by {}
            if ids.contains(id) {
                let k = choose|k: int| 0 <= k < ids.len() && ids[k] == id;
                assert(ids.drop_first()[k - 1] == id);
            }
            if ids.drop_first().contains(id) {
                let k = choose|k: int| 0 <= k < ids.drop_first().len() && ids.drop_first()[k] == id;
                assert(ids[k + 1] == id);
            }
            if let Some(i) = first_index(ids, id) {
                assert forall|j: int| 0 <= j < i implies ids[j] != id by {
                    if j > 0 {
                        assert(ids.drop_first()[j - 1] != id);
                    }
                }
            }
        }
    }
}

/// The identifiers of a list of entries, in order.
pub open spec fn entry_ids<T>(s: Seq<(EntityId, T)>) -> Seq<EntityId> {
    s.map_values(|e: (EntityId, T)| e.0)
}

/// The entries after removing the first one with identifier `id`, the last
/// entry taking its place, as `EntityMap::remove` does.
pub open spec fn removed<T>(s: Seq<(EntityId, T)>, id: EntityId) -> Seq<(EntityId, T)> {
    s.update(first_index(entry_ids(s), id)->0, s.last()).drop_last()
}

/// The data of the first entry with identifier `id`.
pub open spec fn data_of<T>(s: Seq<(EntityId, T)>, id: EntityId) -> T {
    s[first_index(entry_ids(s), id)->0].1
}

/// The entries after setting the data of the first one with identifier `id`.
pub open spec fn with_data<T>(s: Seq<(EntityId, T)>, id: EntityId, v: T) -> Seq<(EntityId, T)> {
    s.update(first_index(entry_ids(s), id)->0, (id, v))
}

/// Data of type `T` kept for a set of entities, in insertion order. An
/// identifier may be inserted more than once; lookups find its first entry.
pub struct EntityMap<T> {
    entity_ids: Vec<EntityId>,
    data: Vec<T>,
}

impl<T> View for EntityMap<T> {
    type V = Seq<(EntityId, T)>;

    /// The entries, in order, each an identifier with its data.
    closed spec fn view(&self) -> Seq<(EntityId, T)> {
        Seq::new(self.entity_ids@.len(), |i: int| (self.entity_ids@[i], self.data@[i]))
    }
}

impl<T> EntityMap<T> {
    /// The identifiers and the data are stored side by side, one of each per entry.
    pub closed spec fn wf(&self) -> bool {
        self.entity_ids@.len() == self.data@.len()
    }

    /// The identifiers of the entries, in order.
    pub open spec fn ids(&self) -> Seq<EntityId> {
        entry_ids(self@)
    }

    /// Position of the entry that lookups of `id` find.
    pub open spec fn position(&self, id: EntityId) -> Option<int> {
        first_index(self.ids(), id)
    }

    /// Whether some entry has identifier `id`.
    pub open spec fn contains(&self, id: EntityId) -> bool {
        self.ids().contains(id)
    }

    proof fn lemma_ids(&self)
        requires
            self.wf(),
        ensures
            self.ids() == self.entity_ids@,
            self@.len() == self.entity_ids@.len(),
    {
        assert(self.ids() =~= self.entity_ids@);
    }

    /// Lookups of `id` find an entry exactly when `id` occurs, and then the first one.
    pub proof fn lemma_position(&self, id: EntityId)
        requires
            self.wf(),
        ensures
            self.position(id) is None <==> !self.contains(id),
            self.position(id) matches Some(i) ==> {
                &&& 0 <= i < self@.len()
                &&& self@[i].0 == id
                &&& forall|j: int| 0 <= j < i ==> self@[j].0 != id
            },
    {
        lemma_first_index(self.ids(), id);
        self.lemma_ids();
        assert forall|j: int| 0 <= j < self@.len() implies self@[j].0 == #[trigger] self.ids()[j] by {}
    }

    /// The lookups of a map are those of its entries.
    pub proof fn lemma_position_of(&self, s: Seq<(EntityId, T)>)
        requires
            self@ == s,
        ensures
            forall|id: EntityId| #[trigger] self.position(id) == first_index(entry_ids(s), id),
    {
    }

    /// The number of entries.
    pub fn len(&self) -> (r: usize)
        requires
            self.wf(),
        ensures
            r == self@.len(),
    {
        self.entity_ids.len()
    }

    /// The entry at position `index`.
    pub fn entry_at(&self, index: usize) -> (r: (EntityId, &T))
        requires
            self.wf(),
            index < self@.len(),
        ensures
            r.0 == self@[index as int].0,
            *r.1 == self@[index as int].1,
    {
        (self.entity_ids[index], &self.data[index])
    }

    /// An empty map.
    pub fn new() -> (r: Self)
        ensures
            r.wf(),
            r@ == Seq::<(EntityId, T)>::empty(),
    {
        let r = EntityMap { entity_ids: Vec::new(), data: Vec::new() };
        assert(r@ =~= Seq::<(EntityId, T)>::empty());
        r
    }

    /// Position of the first entry with identifier `entity_id`.
    pub fn index(&self, entity_id: EntityId) -> (r: Option<usize>)
        requires
            self.wf(),
        ensures
            r matches Some(i) ==> self.position(entity_id) == Some(i as int),
            r is None ==> self.position(entity_id) is None,
    {
        proof {
            self.lemma_ids();
            lemma_first_index(self.entity_ids@, entity_id);
        }
        let mut i: usize = 0;
        while i < self.entity_ids.len()
            invariant
                0 <= i <= self.entity_ids@.len(),
                forall|j: int| 0 <= j < i ==> self.entity_ids@[j] != entity_id,
                self.ids() == self.entity_ids@,
                first_index(self.entity_ids@, entity_id) is None <==> !self.entity_ids@.contains(entity_id),
                first_index(self.entity_ids@, entity_id) matches Some(k) ==> {
                    &&& 0 <= k < self.entity_ids@.len()
                    &&& self.entity_ids@[k] == entity_id
                    &&& forall|j: int| 0 <= j < k ==> self.entity_ids@[j] != entity_id
                },
            decreases self.entity_ids@.len() - i,
        {
            if self.entity_ids[i] == entity_id {
                return Some(i);
            }
            i = i + 1;
        }
        None
    }

    /// Appends an entry; an earlier entry with the same identifier stays first.
    pub fn insert(&mut self, entity_id: EntityId, data: T)
        requires
            old(self).wf(),
        ensures
            final(self).wf(),
            final(self)@ == old(self)@.push((entity_id, data)),
    {
        self.entity_ids.push(entity_id);
        self.data.push(data);
        assert(final(self)@ =~= old(self)@.push((entity_id, data)));
    }

    /// Removes the first entry with identifier `entity_id` and returns its
    /// data; the last entry takes its place.
    pub fn remove(&mut self, entity_id: EntityId) -> (r: T)
        requires
            old(self).wf(),
            old(self).contains(entity_id),
        ensures
            final(self).wf(),
            ({
                let i = old(self).position(entity_id)->0;
                &&& r == old(self)@[i].1
                &&& final(self)@ == old(self)@.update(i, old(self)@.last()).drop_last()
            }),
    {
        proof {
            self.lemma_ids();
            lemma_first_index(self.entity_ids@, entity_id);
        }
        let index = self.index(entity_id).unwrap();
        self.entity_ids.swap_remove(index);
        let r = self.data.swap_remove(index);
        assert(final(self)@ =~= old(self)@.update(index as int, old(self)@.last()).drop_last());
        r
    }

    /// Removes every entry.
    pub fn clear(&mut self)
        ensures
            final(self).wf(),
            final(self)@ == Seq::<(EntityId, T)>::empty(),
    {
        self.entity_ids.clear();
        self.data.clear();
        assert(final(self)@ =~= Seq::<(EntityId, T)>::empty());
    }

    /// The data of the first entry with identifier `entity_id`.
    pub fn get(&self, entity_id: EntityId) -> (r: Option<&T>)
        requires
            self.wf(),
        ensures
            match self.position(entity_id) {
                Some(i) => r == Some(&self@[i].1),
                None => r is None,
            },
    {
        proof {
            self.lemma_ids();
            lemma_first_index(self.entity_ids@, entity_id);
        }
        match self.index(entity_id) {
            Some(i) => Some(&self.data[i]),
            None => None,
        }
    }

    /// Mutable access to the data of the first entry with identifier `entity_id`.
    pub fn get_mut(&mut self, entity_id: EntityId) -> (r: Option<&mut T>)
        requires
            old(self).wf(),
        ensures
            final(self).wf(),
            match old(self).position(entity_id) {
                Some(i) => {
                    &&& r is Some
                    &&& *r->0 == old(self)@[i].1
                    &&& final(self)@ == old(self)@.update(i, (entity_id, *final(r->0)))
                },
                None => r is None && final(self)@ == old(self)@,
            },
    {
        proof {
            self.lemma_ids();
            lemma_first_index(self.entity_ids@, entity_id);
        }
        match self.index(entity_id) {
            Some(i) => {
                let r = &mut self.data[i];
                Some(r)
            },
            None => None,
        }
    }

    /// The data of all entries, in order.
    pub fn values(&self) -> (r: &[T])
        requires
            self.wf(),
        ensures
            r@ == self@.map_values(|e: (EntityId, T)| e.1),
    {
        let r = self.data.as_slice();
        assert(r@ =~= self@.map_values(|e: (EntityId, T)| e.1));
        r
    }

    /// The data of the first entry with identifier `entity_id`, which must be present.
    pub fn at(&self, entity_id: EntityId) -> (r: &T)
        requires
            self.wf(),
            self.contains(entity_id),
        ensures
            *r == self@[self.position(entity_id)->0].1,
    {
        proof {
            self.lemma_ids();
            lemma_first_index(self.entity_ids@, entity_id);
        }
        let i = self.index(entity_id).unwrap();
        &self.data[i]
    }

    /// Mutable access to the data of the first entry with identifier
    /// `entity_id`, which must be present.
    pub fn at_mut(&mut self, entity_id: EntityId) -> (r: &mut T)
        requires
            old(self).wf(),
            old(self).contains(entity_id),
        ensures
            ({
                let i = old(self).position(entity_id)->0;
                &&& *r == old(self)@[i].1
                &&& final(self).wf()
                &&& final(self)@ == old(self)@.update(i, (entity_id, *final(r)))
            }),
    {
        proof {
            self.lemma_ids();
            lemma_first_index(self.entity_ids@, entity_id);
        }
        let i = self.index(entity_id).unwrap();
        &mut self.data[i]
    }

    /// A cursor over the entries, in order.
    pub fn iter(&self) -> (r: Iter<'_, T>)
        requires
            self.wf(),
        ensures
            r.remaining() == self@,
    {
        let r = Iter { entity_ids: self.entity_ids.as_slice(), data: self.data.as_slice(), position: 0 };
        assert(r.remaining() =~= self@);
        r
    }

    /// A cursor for changing the data of the entries, in order.
    pub fn iter_mut(&self) -> (r: IterMut)
        ensures
            r.position() == 0,
    {
        IterMut { position: 0 }
    }

    /// A cursor for changing the data of the entries, in order, without
    /// their identifiers.
    pub fn values_mut(&self) -> (r: ValuesMut)
        ensures
            r.position() == 0,
    {
        ValuesMut { position: 0 }
    }

    /// Appends the given entries, in order.
    pub fn extend(&mut self, entries: Vec<(EntityId, T)>)
        requires
            old(self).wf(),
        ensures
            final(self).wf(),
            final(self)@ == old(self)@ + entries@,
    {
        let ghost given = entries@;
        let mut entries = entries;
        let mut reversed: Vec<(EntityId, T)> = Vec::new();
        while entries.len() > 0
            invariant
                entries@ + reversed@.reverse() == given,
            decreases entries@.len(),
        {
            let ghost before = entries@;
            let entry = entries.pop().unwrap();
            proof {
                assert(reversed@.push(entry).reverse() =~= seq![entry] + reversed@.reverse());
                assert(before =~= entries@.push(entry));
            }
            reversed.push(entry);
            assert(entries@ + reversed@.reverse() =~= given);
        }
        assert(reversed@.reverse() =~= given);
        let ghost start = self@;
        while reversed.len() > 0
            invariant
                self.wf(),
                self@ + reversed@.reverse() == start + given,
            decreases reversed@.len(),
        {
            let ghost before = self@;
            let ghost rev_before = reversed@;
            let entry = reversed.pop().unwrap();
            proof {
                assert(rev_before =~= reversed@.push(entry));
                assert(reversed@.push(entry).reverse() =~= seq![entry] + reversed@.reverse());
            }
            self.entity_ids.push(entry.0);
            self.data.push(entry.1);
            assert(self@ =~= before.push(entry));
            assert(self@ + reversed@.reverse() =~= before + (seq![entry] + reversed@.reverse()));
        }
        assert(self@ =~= start + given);
    }

    /// Removes the entries at positions `start..end` and returns them, in order.
    pub fn drain(&mut self, start: usize, end: usize) -> (r: Vec<(EntityId, T)>)
        requires
            old(self).wf(),
            start <= end <= old(self)@.len(),
        ensures
            final(self).wf(),
            r@ == old(self)@.subrange(start as int, end as int),
            final(self)@ == old(self)@.subrange(0, start as int) + old(self)@.subrange(
                end as int,
                old(self)@.len() as int,
            ),
    {
        let ghost whole = self@;
        let mut ids_tail = self.entity_ids.split_off(end);
        let mut data_tail = self.data.split_off(end);
        let mut ids_mid = self.entity_ids.split_off(start);
        let mut data_mid = self.data.split_off(start);
        self.entity_ids.append(&mut ids_tail);
        self.data.append(&mut data_tail);
        assert(self@ =~= whole.subrange(0, start as int) + whole.subrange(end as int, whole.len() as int));
        let mut reversed: Vec<(EntityId, T)> = Vec::new();
        let ghost mid = whole.subrange(start as int, end as int);
        while ids_mid.len() > 0
            invariant
                ids_mid@.len() == data_mid@.len(),
                ids_mid@.len() + reversed@.len() == mid.len(),
                forall|k: int| 0 <= k < ids_mid@.len() ==> mid[k] == (ids_mid@[k], data_mid@[k]),
                forall|k: int| 0 <= k < reversed@.len() ==> reversed@[k] == mid[mid.len() - 1 - k],
            decreases ids_mid@.len(),
        {
            let id = ids_mid.pop().unwrap();
            let value = data_mid.pop().unwrap();
            reversed.push((id, value));
        }
        let mut r: Vec<(EntityId, T)> = Vec::new();
        while reversed.len() > 0
            invariant
                r@.len() + reversed@.len() == mid.len(),
                forall|k: int| 0 <= k < reversed@.len() ==> reversed@[k] == mid[mid.len() - 1 - k],
                forall|k: int| 0 <= k < r@.len() ==> r@[k] == mid[k],
            decreases reversed@.len(),
        {
            let entry = reversed.pop().unwrap();
            r.push(entry);
        }
        assert(r@ =~= mid);
        r
    }

    /// Mutable access to the data of the entry at `index`.
    pub fn value_at_mut(&mut self, index: usize) -> (r: &mut T)
        requires
            old(self).wf(),
            index < old(self)@.len(),
        ensures
            *r == old(self)@[index as int].1,
            final(self).wf(),
            final(self)@ == old(self)@.update(index as int, (old(self)@[index as int].0, *final(r))),
    {
        &mut self.data[index]
    }
}

/// A cursor over the entries of an `EntityMap`.
pub struct Iter<'a, T> {
    entity_ids: &'a [EntityId],
    data: &'a [T],
    position: usize,
}

impl<'a, T> Iter<'a, T> {
    #[verifier::type_invariant]
    spec fn in_bounds(self) -> bool {
        &&& self.entity_ids@.len() == self.data@.len()
        &&& self.position <= self.entity_ids@.len()
    }

    /// The entries that the cursor has still to give out, in order.
    pub closed spec fn remaining(&self) -> Seq<(EntityId, T)> {
        Seq::new(
            (self.entity_ids@.len() - self.position) as nat,
            |i: int| (self.entity_ids@[self.position + i], self.data@[self.position + i]),
        )
    }

    /// The next entry, if any is left.
    pub fn next(&mut self) -> (r: Option<(&'a EntityId, &'a T)>)
        ensures
            old(self).remaining().len() == 0 ==> r is None && final(self).remaining() == old(self).remaining(),
            old(self).remaining().len() > 0 ==> {
                &&& r matches Some(e) && *e.0 == old(self).remaining()[0].0 && *e.1 == old(self).remaining()[0].1
                &&& final(self).remaining() == old(self).remaining().drop_first()
            },
    {
        proof {
            use_type_invariant(&*self);
        }
        if self.position < self.entity_ids.len() {
            let i = self.position;
            self.position = self.position + 1;
            assert(final(self).remaining() =~= old(self).remaining().drop_first());
            Some((&self.entity_ids[i], &self.data[i]))
        } else {
            None
        }
    }
}

/// A cursor for changing the data of the entries of an `EntityMap`, one entry
/// at a time.
pub struct IterMut {
    position: usize,
}

impl IterMut {
    /// Position of the next entry.
    pub closed spec fn position(&self) -> int {
        self.position as int
    }

    /// The next entry of `map`: its identifier and mutable access to its data.
    pub fn next<'a, T>(&mut self, map: &'a mut EntityMap<T>) -> (r: Option<(EntityId, &'a mut T)>)
        requires
            old(map).wf(),
        ensures
            final(map).wf(),
            old(self).position() < old(map)@.len() ==> {
                let i = old(self).position();
                &&& final(self).position() == i + 1
                &&& r matches Some(e) && e.0 == old(map)@[i].0 && *e.1 == old(map)@[i].1
                &&& final(map)@ == old(map)@.update(i, (old(map)@[i].0, *final((r->0).1)))
            },
            old(self).position() >= old(map)@.len() ==> {
                &&& r is None
                &&& final(self).position() == old(self).position()
                &&& final(map)@ == old(map)@
            },
    {
        if self.position < map.entity_ids.len() {
            let i = self.position;
            self.position = self.position + 1;
            let id = map.entity_ids[i];
            Some((id, &mut map.data[i]))
        } else {
            None
        }
    }
}


/// A cursor for changing the data of the entries of an `EntityMap`, one
/// value at a time.
pub struct ValuesMut {
    position: usize,
}

impl ValuesMut {
    /// Position of the next entry.
    pub closed spec fn position(&self) -> int {
        self.position as int
    }

    /// Mutable access to the data of the next entry of `map`.
    pub fn next<'a, T>(&mut self, map: &'a mut EntityMap<T>) -> (r: Option<&'a mut T>)
        requires
            old(map).wf(),
        ensures
            final(map).wf(),
            old(self).position() < old(map)@.len() ==> {
                let i = old(self).position();
                &&& final(self).position() == i + 1
                &&& r matches Some(v) && *v == old(map)@[i].1
                &&& final(map)@ == old(map)@.update(i, (old(map)@[i].0, *final(r->0)))
            },
            old(self).position() >= old(map)@.len() ==> {
                &&& r is None
                &&& final(self).position() == old(self).position()
                &&& final(map)@ == old(map)@
            },
    {
        if self.position < map.data.len() {
            let i = self.position;
            self.position = self.position + 1;
            Some(&mut map.data[i])
        } else {
            None
        }
    }
}

/// `first_index` finds the position `i` when `i` holds `id` and no earlier one does.
proof fn lemma_first_index_at(ids: Seq<EntityId>, id: EntityId, i: int)
    requires
        0 <= i < ids.len(),
        ids[i] == id,
        forall|j: int| 0 <= j < i ==> ids[j] != id,
    ensures
        first_index(ids, id) == Some(i),
{
    lemma_first_index(ids, id);
    assert(ids.contains(id));
    let k = first_index(ids, id)->0;
    if k < i {
        assert(ids[k] != id);
    }
    if k > i {
        assert(ids[i] != id);
    }
}

/// The identifiers of entries with one more entry.
proof fn lemma_entry_ids_push<T>(s: Seq<(EntityId, T)>, e: (EntityId, T))
    ensures
        entry_ids(s.push(e)) == entry_ids(s).push(e.0),
{
    assert(entry_ids(s.push(e)) =~= entry_ids(s).push(e.0));
}

/// Where lookups go after one more identifier `x`: those that found an entry
/// before find the same one; `x` itself, if it was absent, is found last.
proof fn lemma_first_index_push(ids: Seq<EntityId>, x: EntityId, id: EntityId)
    ensures
        first_index(ids.push(x), id) == if ids.contains(id) {
            first_index(ids, id)
        } else if x == id {
            Some(ids.len() as int)
        } else {
            None
        },
{
    let t = ids.push(x);
    lemma_first_index(ids, id);
    lemma_first_index(t, id);
    if ids.contains(id) {
        let i = first_index(ids, id)->0;
        assert(t[i] == id);
        assert forall|j: int| 0 <= j < i implies t[j] != id by {
            assert(t[j] == ids[j]);
        }
        lemma_first_index_at(t, id, i);
    } else if x == id {
        assert forall|j: int| 0 <= j < ids.len() implies t[j] != id by {
            assert(t[j] == ids[j]);
            if t[j] == id {
                assert(ids.contains(id));
            }
        }
        lemma_first_index_at(t, id, ids.len() as int);
    } else {
        if t.contains(id) {
            let k = choose|k: int| 0 <= k < t.len() && t[k] == id;
            assert(ids[k] == id);
        }
    }
}

/// Lookups after an insertion (law): the inserted data is found under its
/// identifier unless that identifier was present, in which case the earlier
/// entry is still found; lookups of other identifiers are unchanged.
pub proof fn law_lookup_after_insert<T>(s: Seq<(EntityId, T)>, id: EntityId, v: T, other: EntityId)
    ensures
        !entry_ids(s).contains(id) ==> {
            &&& first_index(entry_ids(s.push((id, v))), id) == Some(s.len() as int)
            &&& data_of(s.push((id, v)), id) == v
        },
        entry_ids(s).contains(id) ==> {
            &&& first_index(entry_ids(s.push((id, v))), id) == first_index(entry_ids(s), id)
            &&& data_of(s.push((id, v)), id) == data_of(s, id)
        },
        other != id ==> first_index(entry_ids(s.push((id, v))), other) == first_index(entry_ids(s), other),
{
    lemma_entry_ids_push(s, (id, v));
    lemma_first_index_push(entry_ids(s), id, id);
    lemma_first_index_push(entry_ids(s), id, other);
    lemma_first_index(entry_ids(s), id);
    lemma_first_index(entry_ids(s), other);
}

/// Removing what was just inserted (law): inserting an entry under an
/// identifier that was absent and then removing that identifier gives back
/// the entries from before.
pub proof fn law_remove_after_insert<T>(s: Seq<(EntityId, T)>, id: EntityId, v: T)
    requires
        !entry_ids(s).contains(id),
    ensures
        removed(s.push((id, v)), id) == s,
{
    lemma_entry_ids_push(s, (id, v));
    lemma_first_index_push(entry_ids(s), id, id);
    assert(removed(s.push((id, v)), id) =~= s);
}

/// Lookups after a removal (law): where each identifier occurs at most once,
/// the removed identifier is no longer found, and every other identifier is
/// found exactly when it was before, with the same data.
pub proof fn law_lookup_after_remove<T>(s: Seq<(EntityId, T)>, id: EntityId, other: EntityId)
    requires
        entry_ids(s).no_duplicates(),
        entry_ids(s).contains(id),
    ensures
        entry_ids(removed(s, id)).no_duplicates(),
        !entry_ids(removed(s, id)).contains(id),
        other != id ==> entry_ids(removed(s, id)).contains(other) == entry_ids(s).contains(other),
        other != id && entry_ids(s).contains(other) ==> data_of(removed(s, id), other) == data_of(s, other),
{
    let ids = entry_ids(s);
    lemma_first_index(ids, id);
    let i = first_index(ids, id)->0;
    let r = removed(s, id);
    let n = s.len() - 1;
    let rids = entry_ids(r);
    assert(r.len() == n);
    // each remaining entry is an entry of `s` other than the one at `i`
    assert forall|k: int| 0 <= k < n implies #[trigger] rids[k] == (if k == i { ids[n] } else { ids[k] }) by {}
    assert forall|a: int, b: int| 0 <= a < n && 0 <= b < n && a != b implies rids[a] != rids[b] by {
        let pa = if a == i { n } else { a };
        let pb = if b == i { n } else { b };
        assert(rids[a] == ids[pa] && rids[b] == ids[pb]);
    }
    if rids.contains(id) {
        let k = choose|k: int| 0 <= k < n && rids[k] == id;
        let pk = if k == i { n } else { k };
        assert(ids[pk] == id && ids[i] == id);
    }
    if other != id {
        if ids.contains(other) {
            let k = choose|k: int| 0 <= k < ids.len() && ids[k] == other;
            let q = if k == n { i } else { k };
            assert(k != i);
            assert(rids[q] == other);
            lemma_first_index(ids, other);
            lemma_first_index(rids, other);
            let j = first_index(ids, other)->0;
            assert(j == k) by {
                if j != k {
                    assert(ids[j] == ids[k]);
                }
            }
            let jr = first_index(rids, other)->0;
            assert(jr == q) by {
                if jr != q {
                    assert(rids[jr] == rids[q]);
                }
            }
            assert(r[q] == (if q == i { s[n] } else { s[q] }));
        }
        if rids.contains(other) {
            let k = choose|k: int| 0 <= k < n && rids[k] == other;
            let pk = if k == i { n } else { k };
            assert(ids[pk] == other);
        }
    }
}

/// Lookups after a rename (law): where each identifier occurs at most once,
/// moving the entry of `old_id` to the end under `new_id`, an identifier not
/// in use (or `old_id` itself), leaves lookups of `new_id` finding the data
/// that `old_id` had, and `old_id` no longer found unless it is `new_id`;
/// every other identifier is found exactly when it was before, with the same
/// data, and each identifier still occurs at most once.
pub proof fn law_lookup_after_rename<T>(s: Seq<(EntityId, T)>, old_id: EntityId, new_id: EntityId, other: EntityId)
    requires
        entry_ids(s).no_duplicates(),
        entry_ids(s).contains(old_id),
        new_id == old_id || !entry_ids(s).contains(new_id),
    ensures
        ({
            let r = removed(s, old_id).push((new_id, data_of(s, old_id)));
            &&& first_index(entry_ids(r), new_id) matches Some(k)
            &&& 0 <= k < r.len()
            &&& r[k].1 == s[first_index(entry_ids(s), old_id)->0].1
            &&& entry_ids(r).no_duplicates()
            &&& old_id != new_id ==> !entry_ids(r).contains(old_id)
            &&& other != old_id && other != new_id ==> entry_ids(r).contains(other) == entry_ids(s).contains(other)
            &&& other != old_id && other != new_id && entry_ids(s).contains(other) ==> data_of(r, other)
                == data_of(s, other)
        }),
{
    let v = data_of(s, old_id);
    let rm = removed(s, old_id);
    let r = rm.push((new_id, v));
    law_lookup_after_remove(s, old_id, other);
    law_lookup_after_remove(s, old_id, new_id);
    let ids = entry_ids(rm);
    assert(!ids.contains(new_id));
    law_lookup_after_insert(rm, new_id, v, other);
    law_lookup_after_insert(rm, new_id, v, old_id);
    let rids = entry_ids(r);
    assert(rids =~= ids.push(new_id));
    assert forall|a: int, b: int| 0 <= a < rids.len() && 0 <= b < rids.len() && a != b implies rids[a] != rids[b] by {
        if a < ids.len() && b < ids.len() {
            assert(ids[a] != ids[b]);
        } else if a < ids.len() {
            assert(ids.contains(ids[a]));
        } else {
            assert(ids.contains(ids[b]));
        }
    }
    if old_id != new_id && rids.contains(old_id) {
        let k = choose|k: int| 0 <= k < rids.len() && rids[k] == old_id;
        assert(ids[k] == old_id);
    }
    if other != old_id && other != new_id {
        if rids.contains(other) {
            let k = choose|k: int| 0 <= k < rids.len() && rids[k] == other;
            assert(ids[k] == other);
        }
        if ids.contains(other) {
            let k = choose|k: int| 0 <= k < ids.len() && ids[k] == other;
            assert(rids[k] == other);
        }
        if entry_ids(s).contains(other) {
            lemma_first_index(ids, other);
            let q = first_index(ids, other)->0;
            assert(r[q] == rm[q]);
        }
    }
}


/// The character of decimal digit `d`.
pub open spec fn digit_char(d: nat) -> char {
    (48 + d) as char
}

/// The decimal digits of `n`, most significant first, without leading zeros.
pub open spec fn decimal(n: nat) -> Seq<char>
    decreases n,
{
    if n < 10 {
        seq![digit_char(n)]
    } else {
        decimal(n / 10).push(digit_char(n % 10))
    }
}

/// Appends the decimal digits of `n` to `s`.
fn append_decimal(s: &mut String, n: u32)
    ensures
        final(s)@ == old(s)@ + decimal(n as nat),
    decreases n,
{
    if n >= 10 {
        append_decimal(s, n / 10);
    }
    let d = n % 10;
    let digit = match d {
        0 => "0",
        1 => "1",
        2 => "2",
        3 => "3",
        4 => "4",
        5 => "5",
        6 => "6",
        7 => "7",
        8 => "8",
        _ => "9",
    };
    proof {
        reveal_strlit("0");
        reveal_strlit("1");
        reveal_strlit("2");
        reveal_strlit("3");
        reveal_strlit("4");
        reveal_strlit("5");
        reveal_strlit("6");
        reveal_strlit("7");
        reveal_strlit("8");
        reveal_strlit("9");
        assert(digit@ == seq![digit_char(d as nat)]);
    }
    let ghost before = s@;
    s.append(digit);
    proof {
        if n >= 10 {
            assert(s@ =~= old(s)@ + decimal(n as nat));
        } else {
            assert(s@ =~= old(s)@ + decimal(n as nat));
        }
    }
}

impl EntityId {
    /// The identifier written in decimal.
    pub fn to_string(&self) -> (r: String)
        ensures
            r@ == decimal(self@ as nat),
    {
        let mut s = String::new();
        append_decimal(&mut s, self.get());
        assert(s@ =~= decimal(self@ as nat));
        s
    }
}


impl<T> Default for EntityMap<T> {
    /// An empty map.
    fn default() -> (r: Self)
        ensures
            r.wf(),
            r@ == Seq::<(EntityId, T)>::empty(),
    {
        EntityMap::new()
    }
}

} // verus!
