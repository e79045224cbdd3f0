use vstd::prelude::*;

use crate::entity::EntityId;

verus! {

/// What a filter keeps: exactly the elements that satisfy the predicate, with
/// no element twice if there was none twice before.
proof fn lemma_filter_facts<A>(s: Seq<A>, p: spec_fn(A) -> bool)
    ensures
        forall|x: A| #[trigger] s.filter(p).contains(x) <==> s.contains(x) && p(x),
        s.no_duplicates() ==> s.filter(p).no_duplicates(),
    decreases s.len(),
{
    reveal(Seq::filter);
    if s.len() > 0 {
        let rest = s.drop_last();
        lemma_filter_facts(rest, p);
        assert forall|x: A| s.contains(x) <==> rest.contains(x) || x == s.last() by {
            if s.contains(x) {
                let k = choose|k: int| 0 <= k < s.len() && s[k] == x;
                if k < s.len() - 1 {
                    assert(rest[k] == x);
                }
            }
            if rest.contains(x) {
                let k = choose|k: int| 0 <= k < rest.len() && rest[k] == x;
                assert(s[k] == x);
            }
            if x == s.last() {
                assert(s[s.len() - 1] == x);
            }
        }
        let fr = rest.filter(p);
        if p(s.last()) {
            assert forall|x: A| #[trigger] fr.push(s.last()).contains(x) <==> fr.contains(x) || x == s.last() by {
                if fr.push(s.last()).contains(x) {
                    let k = choose|k: int| 0 <= k < fr.len() + 1 && fr.push(s.last())[k] == x;
                    if k < fr.len() {
                        assert(fr[k] == x);
                    }
                }
                if fr.contains(x) {
                    let k = choose|k: int| 0 <= k < fr.len() && fr[k] == x;
                    assert(fr.push(s.last())[k] == x);
                }
                if x == s.last() {
                    assert(fr.push(s.last())[fr.len() as int] == x);
                }
            }
            if s.no_duplicates() {
                assert(rest.no_duplicates()) by {
                    assert forall|i: int, j: int| 0 <= i < rest.len() && 0 <= j < rest.len() && i != j
                        implies rest[i] != rest[j] by {
                        assert(rest[i] == s[i] && rest[j] == s[j]);
                    }
                }
                assert(!rest.contains(s.last())) by {
                    if rest.contains(s.last()) {
                        let k = choose|k: int| 0 <= k < rest.len() && rest[k] == s.last();
                        assert(s[k] == s[s.len() - 1]);
                    }
                }
                let q = fr.push(s.last());
                assert forall|i: int, j: int| 0 <= i < q.len() && 0 <= j < q.len() && i != j
                    implies q[i] != q[j] by {
                    if i < fr.len() && j < fr.len() {
                        assert(q[i] == fr[i] && q[j] == fr[j]);
                    } else if i < fr.len() {
                        assert(fr.contains(q[i]));
                    } else {
                        assert(fr.contains(q[j]));
                    }
                }
            }
        } else {
            if s.no_duplicates() {
                assert(rest.no_duplicates()) by {
                    assert forall|i: int, j: int| 0 <= i < rest.len() && 0 <= j < rest.len() && i != j
                        implies rest[i] != rest[j] by {
                        assert(rest[i] == s[i] && rest[j] == s[j]);
                    }
                }
            }
        }
    }
}

/// Whether an identifier differs from `id`.
pub open spec fn not_id(id: EntityId) -> spec_fn(EntityId) -> bool {
    |x: EntityId| x != id
}

/// The state of a world as values: live identifiers in spawn order, free
/// identifiers (the last is reused first), and the counter.
#[verifier::ext_equal]
pub struct WorldModel {
    pub live: Seq<EntityId>,
    pub free: Seq<EntityId>,
    pub counter: EntityId,
}

impl WorldModel {
    /// Live and free identifiers are all distinct and below the counter.
    pub open spec fn valid(self) -> bool {
        &&& self.live.no_duplicates()
        &&& self.free.no_duplicates()
        &&& forall|i: int, j: int|
            0 <= i < self.live.len() && 0 <= j < self.free.len() ==> self.live[i] != self.free[j]
        &&& forall|i: int| 0 <= i < self.live.len() ==> self.live[i]@ < self.counter@
        &&& forall|j: int| 0 <= j < self.free.len() ==> self.free[j]@ < self.counter@
    }

    /// Whether a spawn can hand out an identifier.
    pub open spec fn spawn_ok(self) -> bool {
        self.free.len() > 0 || self.counter@ < u32::MAX
    }

    /// The identifier that a spawn hands out.
    pub open spec fn spawned_id(self) -> EntityId {
        if self.free.len() > 0 {
            self.free.last()
        } else {
            self.counter
        }
    }

    /// The state after a spawn.
    pub open spec fn after_spawn(self) -> WorldModel {
        if self.free.len() > 0 {
            WorldModel { live: self.live.push(self.free.last()), free: self.free.drop_last(), counter: self.counter }
        } else {
            WorldModel {
                live: self.live.push(self.counter),
                free: self.free,
                counter: crate::entity::entity_id_of((self.counter@ + 1) as u32),
            }
        }
    }

    /// Whether `id` can be despawned: it is live.
    pub open spec fn despawn_ok(self, id: EntityId) -> bool {
        self.live.contains(id)
    }

    /// The state after despawning `id`.
    pub open spec fn after_despawn(self, id: EntityId) -> WorldModel {
        WorldModel { live: self.live.filter(not_id(id)), free: self.free.push(id), counter: self.counter }
    }

    /// Whether `id`, spawned by a peer, can be made live: it is live already,
    /// or the counter can be moved past it.
    pub open spec fn remote_spawn_ok(self, id: EntityId) -> bool {
        self.live.contains(id) || id@ < u32::MAX
    }

    /// The state after a peer spawned `id`: it is live, no longer free, and
    /// the counter is past it.
    pub open spec fn after_remote_spawn(self, id: EntityId) -> WorldModel {
        if self.live.contains(id) {
            self
        } else {
            WorldModel {
                live: self.live.push(id),
                free: self.free.filter(not_id(id)),
                counter: if id@ >= self.counter@ {
                    crate::entity::entity_id_of((id@ + 1) as u32)
                } else {
                    self.counter
                },
            }
        }
    }

    /// The state after the local `client_id` is replaced by `replicable_id`,
    /// the identifier that the network uses: the local one is despawned, if
    /// live, and the other made live.
    pub open spec fn after_replace(self, client_id: EntityId, replicable_id: EntityId) -> WorldModel {
        let w = if self.live.contains(client_id) { self.after_despawn(client_id) } else { self };
        w.after_remote_spawn(replicable_id)
    }

    /// Whether the local `client_id` can be replaced by `replicable_id`.
    pub open spec fn replace_ok(self, client_id: EntityId, replicable_id: EntityId) -> bool {
        let w = if self.live.contains(client_id) { self.after_despawn(client_id) } else { self };
        w.remote_spawn_ok(replicable_id)
    }
}

/// `v` without the occurrences of `id`.
fn without(v: &Vec<EntityId>, id: EntityId) -> (r: Vec<EntityId>)
    ensures
        r@ == v@.filter(not_id(id)),
{
    let mut kept: Vec<EntityId> = Vec::new();
    let mut i: usize = 0;
    while i < v.len()
        invariant
            0 <= i <= v@.len(),
            kept@ == v@.take(i as int).filter(not_id(id)),
        decreases v@.len() - i,
    {
        let x = v[i];
        proof {
            assert(v@.take(i + 1).drop_last() =~= v@.take(i as int));
            reveal_with_fuel(Seq::filter, 1);
        }
        if x != id {
            kept.push(x);
        }
        i = i + 1;
    }
    assert(v@.take(v@.len() as int) =~= v@);
    kept
}

/// Hands out entity identifiers: identifiers of despawned entities are reused,
/// most recently despawned first, before new ones are taken from a counter.
pub struct World {
    entities: Vec<EntityId>,
    entity_free_list: Vec<EntityId>,
    next_entity_id: EntityId,
}

impl World {
    /// The live entities, in spawn order.
    pub closed spec fn live(&self) -> Seq<EntityId> {
        self.entities@
    }

    /// Despawned identifiers waiting for reuse; the last one is reused first.
    pub closed spec fn free(&self) -> Seq<EntityId> {
        self.entity_free_list@
    }

    /// The identifier the counter hands out next.
    pub closed spec fn counter(&self) -> EntityId {
        self.next_entity_id
    }

    /// Live and free identifiers are all distinct and were all handed out by
    /// the counter before.
    pub closed spec fn wf(&self) -> bool {
        &&& self.entities@.no_duplicates()
        &&& self.entity_free_list@.no_duplicates()
        &&& forall|i: int, j: int|
            0 <= i < self.entities@.len() && 0 <= j < self.entity_free_list@.len()
                ==> self.entities@[i] != self.entity_free_list@[j]
        &&& forall|i: int| 0 <= i < self.entities@.len() ==> self.entities@[i]@ < self.next_entity_id@
        &&& forall|j: int|
            0 <= j < self.entity_free_list@.len() ==> self.entity_free_list@[j]@ < self.next_entity_id@
    }

    /// The state of the world as values.
    pub open spec fn model(&self) -> WorldModel {
        WorldModel { live: self.live(), free: self.free(), counter: self.counter() }
    }

    /// A well-formed world is a valid state.
    pub proof fn lemma_model_valid(&self)
        requires
            self.wf(),
        ensures
            self.model().valid(),
    {
    }

    /// Whether `spawn` can hand out an identifier: one is free, or the counter
    /// has not reached the largest identifier.
    pub open spec fn spawnable(&self) -> bool {
        self.free().len() > 0 || self.counter()@ < u32::MAX
    }

    /// The identifier that `spawn` hands out next.
    pub open spec fn next_spawned(&self) -> EntityId {
        if self.free().len() > 0 {
            self.free().last()
        } else {
            self.counter()
        }
    }

    /// Whether `entity_id` is live.
    pub open spec fn spec_contains(&self, entity_id: EntityId) -> bool {
        self.live().contains(entity_id)
    }

    /// A world with no entities; the first identifier handed out is one.
    pub fn new() -> (r: Self)
        ensures
            r.wf(),
            r.live() == Seq::<EntityId>::empty(),
            r.free() == Seq::<EntityId>::empty(),
            r.counter()@ == 1,
            r.model() == initial_world(),
    {
        let r = World { entities: Vec::new(), entity_free_list: Vec::new(), next_entity_id: EntityId::new(1) };
        assert(r.model() =~= initial_world());
        r
    }

    /// Whether `spawn` can hand out an identifier.
    pub fn can_spawn(&self) -> (r: bool)
        ensures
            r == self.spawnable(),
    {
        self.entity_free_list.len() > 0 || self.next_entity_id.get() < u32::MAX
    }

    /// Makes a new live entity and returns its identifier.
    pub fn spawn(&mut self) -> (r: EntityId)
        requires
            old(self).wf(),
            old(self).spawnable(),
        ensures
            final(self).wf(),
            r == old(self).next_spawned(),
            !old(self).live().contains(r),
            final(self).live() == old(self).live().push(r),
            old(self).free().len() > 0 ==> {
                &&& final(self).free() == old(self).free().drop_last()
                &&& final(self).counter() == old(self).counter()
            },
            old(self).free().len() == 0 ==> {
                &&& final(self).free() == old(self).free()
                &&& final(self).counter()@ == old(self).counter()@ + 1
            },
            r == old(self).model().spawned_id(),
            final(self).model() == old(self).model().after_spawn(),
    {
        let entity_id = match self.entity_free_list.pop() {
            Some(id) => id,
            None => {
                let id = self.next_entity_id;
                self.next_entity_id.increment();
                id
            },
        };
        proof {
            if old(self).entity_free_list@.len() > 0 {
                let k = old(self).entity_free_list@.len() - 1;
                assert(old(self).entity_free_list@[k] == entity_id);
                assert forall|i: int| 0 <= i < self.entity_free_list@.len()
                    implies self.entity_free_list@[i] == old(self).entity_free_list@[i] by {}
            }
            if old(self).entities@.contains(entity_id) {
                let i = choose|i: int| 0 <= i < old(self).entities@.len() && old(self).entities@[i] == entity_id;
                if old(self).entity_free_list@.len() > 0 {
                    let k = old(self).entity_free_list@.len() - 1;
                    assert(old(self).entities@[i] != old(self).entity_free_list@[k]);
                }
            }
        }
        self.entities.push(entity_id);
        proof {
            assert forall|i: int, j: int|
                0 <= i < self.entities@.len() && 0 <= j < self.entities@.len() && i != j
                implies self.entities@[i] != self.entities@[j] by {
                if i < old(self).entities@.len() && j < old(self).entities@.len() {
                    assert(old(self).entities@.no_duplicates());
                } else if i < old(self).entities@.len() {
                    assert(old(self).entities@[i] == self.entities@[i]);
                } else {
                    assert(old(self).entities@[j] == self.entities@[j]);
                }
            }
        }
        proof {
            crate::entity::lemma_entity_id_view(self.next_entity_id, crate::entity::entity_id_of((old(self).next_entity_id@ + 1) as u32), (old(self).next_entity_id@ + 1) as u32);
            assert(self.model() =~= old(self).model().after_spawn());
        }
        entity_id
    }

    /// Despawns a live entity; its identifier becomes free for reuse.
    pub fn despawn(&mut self, entity_id: EntityId)
        requires
            old(self).wf(),
            old(self).spec_contains(entity_id),
        ensures
            final(self).wf(),
            final(self).live() == old(self).live().filter(not_id(entity_id)),
            !final(self).live().contains(entity_id),
            final(self).free() == old(self).free().push(entity_id),
            final(self).counter() == old(self).counter(),
            final(self).model() == old(self).model().after_despawn(entity_id),
    {
        let ghost before = self.entities@;
        let mut kept: Vec<EntityId> = Vec::new();
        let mut i: usize = 0;
        while i < self.entities.len()
            invariant
                0 <= i <= self.entities@.len(),
                self.entities@ == before,
                kept@ == before.take(i as int).filter(not_id(entity_id)),
            decreases self.entities@.len() - i,
        {
            let id = self.entities[i];
            proof {
                assert(before.take(i + 1).drop_last() =~= before.take(i as int));
                reveal_with_fuel(Seq::filter, 1);
            }
            if id != entity_id {
                kept.push(id);
            }
            i = i + 1;
        }
        assert(before.take(before.len() as int) =~= before);
        self.entities = kept;
        self.entity_free_list.push(entity_id);
        proof {
            lemma_filter_facts(before, not_id(entity_id));
            let live = self.entities@;
            let free = self.entity_free_list@;
            let old_free = old(self).entity_free_list@;
            assert forall|i: int| 0 <= i < live.len() implies before.contains(#[trigger] live[i])
                && live[i] != entity_id by {
                assert(live.contains(live[i]));
            }
            assert forall|i: int, j: int| 0 <= i < live.len() && 0 <= j < free.len()
                implies live[i] != free[j] by {
                let k = choose|k: int| 0 <= k < before.len() && before[k] == live[i];
                if j < old_free.len() {
                    assert(free[j] == old_free[j]);
                }
            }
            assert forall|i: int, j: int| 0 <= i < free.len() && 0 <= j < free.len() && i != j
                implies free[i] != free[j] by {
                if i < old_free.len() && j < old_free.len() {
                    assert(free[i] == old_free[i] && free[j] == old_free[j]);
                } else if i < old_free.len() {
                    assert(free[i] == old_free[i]);
                    assert(before.contains(entity_id));
                    let k = choose|k: int| 0 <= k < before.len() && before[k] == entity_id;
                } else if j < old_free.len() {
                    assert(free[j] == old_free[j]);
                    let k = choose|k: int| 0 <= k < before.len() && before[k] == entity_id;
                }
            }
            assert forall|i: int| 0 <= i < live.len() implies live[i]@ < self.next_entity_id@ by {
                let k = choose|k: int| 0 <= k < before.len() && before[k] == live[i];
            }
            assert forall|j: int| 0 <= j < free.len() implies free[j]@ < self.next_entity_id@ by {
                if j < old_free.len() {
                    assert(free[j] == old_free[j]);
                } else {
                    let k = choose|k: int| 0 <= k < before.len() && before[k] == entity_id;
                }
            }
            assert(self.model() =~= old(self).model().after_despawn(entity_id));
        }
    }

    /// Whether a peer's `entity_id` can be made live.
    pub fn can_remote_spawn(&self, entity_id: EntityId) -> (r: bool)
        ensures
            r == self.model().remote_spawn_ok(entity_id),
    {
        self.contains(entity_id) || entity_id.get() < u32::MAX
    }

    /// Makes live an entity that a peer spawned under `entity_id`; the
    /// identifier is no longer free, and the counter moves past it so that it
    /// is not handed out again.
    pub fn remote_spawn(&mut self, entity_id: EntityId)
        requires
            old(self).wf(),
            old(self).model().remote_spawn_ok(entity_id),
        ensures
            final(self).wf(),
            final(self).model() == old(self).model().after_remote_spawn(entity_id),
    {
        if self.contains(entity_id) {
            return;
        }
        let ghost old_free = self.entity_free_list@;
        let free = without(&self.entity_free_list, entity_id);
        self.entity_free_list = free;
        self.entities.push(entity_id);
        let v = entity_id.get();
        if v >= self.next_entity_id.get() {
            self.next_entity_id = EntityId::new(v + 1);
        }
        proof {
            lemma_filter_facts(old_free, not_id(entity_id));
            let live = self.entities@;
            let old_live = old(self).entities@;
            let free = self.entity_free_list@;
            assert forall|i: int| 0 <= i < free.len() implies old_free.contains(#[trigger] free[i])
                && free[i] != entity_id by {
                assert(free.contains(free[i]));
            }
            assert forall|i: int, j: int|
                0 <= i < live.len() && 0 <= j < live.len() && i != j implies live[i] != live[j] by {
                if i < old_live.len() && j < old_live.len() {
                    assert(old_live[i] == live[i] && old_live[j] == live[j]);
                } else if i < old_live.len() {
                    assert(old_live[i] == live[i]);
                    assert(old_live.contains(live[i]));
                } else if j < old_live.len() {
                    assert(old_live[j] == live[j]);
                    assert(old_live.contains(live[j]));
                }
            }
            assert forall|i: int, j: int| 0 <= i < live.len() && 0 <= j < free.len()
                implies live[i] != free[j] by {
                let k = choose|k: int| 0 <= k < old_free.len() && old_free[k] == free[j];
                if i < old_live.len() {
                    assert(old_live[i] == live[i]);
                }
            }
            assert forall|i: int| 0 <= i < live.len() implies live[i]@ < self.next_entity_id@ by {
                if i < old_live.len() {
                    assert(old_live[i] == live[i]);
                }
            }
            assert forall|j: int| 0 <= j < free.len() implies free[j]@ < self.next_entity_id@ by {
                let k = choose|k: int| 0 <= k < old_free.len() && old_free[k] == free[j];
            }
            assert(self.model() =~= old(self).model().after_remote_spawn(entity_id));
        }
    }

    /// Whether the local `client_id` can be replaced by `replicable_id`.
    pub fn can_replace(&self, client_id: EntityId, replicable_id: EntityId) -> (r: bool)
        ensures
            r == self.model().replace_ok(client_id, replicable_id),
    {
        let c = self.contains(client_id);
        let live_after = self.contains(replicable_id) && !(c && client_id == replicable_id);
        proof {
            if c {
                let m = self.model().after_despawn(client_id);
                lemma_filter_facts(self.live(), not_id(client_id));
                assert(m.live.contains(replicable_id) == (self.live().contains(replicable_id) && replicable_id != client_id));
            }
        }
        live_after || replicable_id.get() < u32::MAX
    }

    /// Replaces the local identifier `client_id` of an entity by
    /// `replicable_id`, the one the network knows it by: `client_id` is
    /// despawned if live, and `replicable_id` made live.
    pub fn local_to_replicable(&mut self, client_id: EntityId, replicable_id: EntityId)
        requires
            old(self).wf(),
            old(self).model().replace_ok(client_id, replicable_id),
        ensures
            final(self).wf(),
            final(self).model() == old(self).model().after_replace(client_id, replicable_id),
    {
        if self.contains(client_id) {
            self.despawn(client_id);
        }
        self.remote_spawn(replicable_id);
    }

    /// Whether `entity_id` is live.
    pub fn contains(&self, entity_id: EntityId) -> (r: bool)
        ensures
            r == self.spec_contains(entity_id),
    {
        let mut i: usize = 0;
        while i < self.entities.len()
            invariant
                0 <= i <= self.entities@.len(),
                forall|j: int| 0 <= j < i ==> self.entities@[j] != entity_id,
            decreases self.entities@.len() - i,
        {
            if self.entities[i] == entity_id {
                return true;
            }
            i = i + 1;
        }
        false
    }
}


/// A despawned identifier is the next one spawned (law): after `id` is
/// despawned, a spawn can go ahead and hands out `id` again.
pub proof fn law_despawn_then_spawn(m: WorldModel, id: EntityId)
    requires
        m.despawn_ok(id),
    ensures
        m.after_despawn(id).spawn_ok(),
        m.after_despawn(id).spawned_id() == id,
{
}

/// Spawning and despawning undo each other (law): where a free identifier is
/// waiting, spawning an entity and despawning it again gives back the world
/// from before.
pub proof fn law_spawn_then_despawn(m: WorldModel)
    requires
        m.valid(),
        m.free.len() > 0,
    ensures
        m.after_spawn().after_despawn(m.spawned_id()) == m,
{
    let x = m.spawned_id();
    let k = m.free.len() - 1;
    assert(m.free[k] == x);
    assert(!m.live.contains(x)) by {
        if m.live.contains(x) {
            let i = choose|i: int| 0 <= i < m.live.len() && m.live[i] == x;
            assert(m.live[i] != m.free[k]);
        }
    }
    lemma_filter_facts(m.live.push(x), not_id(x));
    let f = m.live.push(x).filter(not_id(x));
    assert(f =~= m.live) by {
        reveal(Seq::filter);
        assert(m.live.push(x).drop_last() =~= m.live);
        lemma_filter_keeps_all(m.live, x);
    }
    assert(m.free.drop_last().push(x) =~= m.free);
    assert(m.after_spawn().after_despawn(x) =~= m);
}

/// Filtering out an identifier that does not occur keeps everything.
proof fn lemma_filter_keeps_all(s: Seq<EntityId>, x: EntityId)
    requires
        !s.contains(x),
    ensures
        s.filter(not_id(x)) == s,
    decreases s.len(),
{
    reveal(Seq::filter);
    if s.len() > 0 {
        assert(!s.drop_last().contains(x)) by {
            if s.drop_last().contains(x) {
                let k = choose|k: int| 0 <= k < s.len() - 1 && s.drop_last()[k] == x;
                assert(s[k] == x);
            }
        }
        lemma_filter_keeps_all(s.drop_last(), x);
        assert(s.last() != x) by {
            assert(s[s.len() - 1] == s.last());
        }
        assert(s.drop_last().push(s.last()) =~= s);
    } else {
        assert(s.filter(not_id(x)) =~= s);
    }
}

/// Two spawns in a row hand out different identifiers (law).
pub proof fn law_spawns_differ(m: WorldModel)
    requires
        m.valid(),
        m.spawn_ok(),
    ensures
        m.after_spawn().spawn_ok() ==> m.after_spawn().spawned_id() != m.spawned_id(),
{
    let x = m.spawned_id();
    let a = m.after_spawn();
    if m.free.len() > 1 {
        let k = m.free.len() - 1;
        assert(a.free.last() == m.free[k - 1]);
        assert(m.free[k - 1] != m.free[k]);
    } else if m.free.len() == 1 {
        crate::entity::lemma_entity_id_view(m.counter, m.counter, 0);
    } else {
        crate::entity::lemma_entity_id_view(a.counter, m.counter, (m.counter@ + 1) as u32);
    }
}


impl Default for World {
    /// A world with no entities; the first identifier handed out is one.
    fn default() -> (r: Self)
        ensures
            r.wf(),
            r.live() == Seq::<EntityId>::empty(),
            r.free() == Seq::<EntityId>::empty(),
            r.counter()@ == 1,
    {
        World::new()
    }
}


/// A call on a world: a spawn, or a despawn of an identifier.
#[derive(Clone, Copy, PartialEq, Eq, Structural, Debug)]
pub enum WorldOp {
    Spawn,
    Despawn(EntityId),
}

/// The state of a new world: nothing live or free, the counter at one.
pub open spec fn initial_world() -> WorldModel {
    WorldModel {
        live: Seq::empty(),
        free: Seq::empty(),
        counter: crate::entity::entity_id_of(1),
    }
}

/// The state after one call.
pub open spec fn world_step(m: WorldModel, op: WorldOp) -> WorldModel {
    match op {
        WorldOp::Spawn => m.after_spawn(),
        WorldOp::Despawn(id) => m.after_despawn(id),
    }
}

/// Whether a call can be made: a spawn needs an identifier to hand out, a
/// despawn a live entity.
pub open spec fn world_op_ok(m: WorldModel, op: WorldOp) -> bool {
    match op {
        WorldOp::Spawn => m.spawn_ok(),
        WorldOp::Despawn(id) => m.despawn_ok(id),
    }
}

/// The state of a new world after the calls `ops`, in order.
pub open spec fn run_world(ops: Seq<WorldOp>) -> WorldModel
    decreases ops.len(),
{
    if ops.len() == 0 {
        initial_world()
    } else {
        world_step(run_world(ops.drop_last()), ops.last())
    }
}

/// Whether each of the calls `ops` can be made in turn on a new world.
pub open spec fn history_ok(ops: Seq<WorldOp>) -> bool
    decreases ops.len(),
{
    ops.len() == 0 || (history_ok(ops.drop_last()) && world_op_ok(run_world(ops.drop_last()), ops.last()))
}

/// The identifier that call `k` of `ops`, a spawn, handed out.
pub open spec fn spawned_at(ops: Seq<WorldOp>, k: int) -> EntityId {
    run_world(ops.take(k)).spawned_id()
}

/// Whether some spawn among `ops` handed out `x` and no later call despawned it.
pub open spec fn spawned_and_kept(ops: Seq<WorldOp>, x: EntityId) -> bool {
    exists|k: int|
        0 <= k < ops.len() && ops[k] is Spawn && #[trigger] spawned_at(ops, k) == x && forall|j: int|
            k < j < ops.len() ==> ops[j] != WorldOp::Despawn(x)
}

/// The largest identifier that the spawns among `ops` handed out, zero if none.
pub open spec fn largest_spawned(ops: Seq<WorldOp>) -> nat
    decreases ops.len(),
{
    if ops.len() == 0 {
        0
    } else {
        let rest = largest_spawned(ops.drop_last());
        if ops.last() is Spawn && run_world(ops.drop_last()).spawned_id()@ > rest {
            run_world(ops.drop_last()).spawned_id()@ as nat
        } else {
            rest
        }
    }
}

/// A call that can be made keeps the state valid.
proof fn lemma_step_valid(m: WorldModel, op: WorldOp)
    requires
        m.valid(),
        world_op_ok(m, op),
    ensures
        world_step(m, op).valid(),
{
    let r = world_step(m, op);
    match op {
        WorldOp::Spawn => {
            let x = m.spawned_id();
            if m.free.len() > 0 {
                let k = m.free.len() - 1;
                assert(m.free[k] == x);
                assert(!m.live.contains(x)) by {
                    if m.live.contains(x) {
                        let i = choose|i: int| 0 <= i < m.live.len() && m.live[i] == x;
                        assert(m.live[i] != m.free[k]);
                    }
                }
                assert forall|i: int, j: int| 0 <= i < r.live.len() && 0 <= j < r.live.len() && i != j
                    implies r.live[i] != r.live[j] by {
                    if i < m.live.len() && j < m.live.len() {
                        assert(r.live[i] == m.live[i] && r.live[j] == m.live[j]);
                    } else if i < m.live.len() {
                        assert(m.live.contains(r.live[i]));
                    } else {
                        assert(m.live.contains(r.live[j]));
                    }
                }
                assert forall|i: int, j: int| 0 <= i < r.free.len() && 0 <= j < r.free.len() && i != j
                    implies r.free[i] != r.free[j] by {
                    assert(r.free[i] == m.free[i] && r.free[j] == m.free[j]);
                }
                assert forall|i: int, j: int| 0 <= i < r.live.len() && 0 <= j < r.free.len()
                    implies r.live[i] != r.free[j] by {
                    assert(r.free[j] == m.free[j]);
                    if i < m.live.len() {
                        assert(r.live[i] == m.live[i]);
                    } else {
                        assert(m.free[j] != m.free[k]);
                    }
                }
                assert forall|j: int| 0 <= j < r.free.len() implies r.free[j]@ < r.counter@ by {
                    assert(r.free[j] == m.free[j]);
                }
                assert forall|i: int| 0 <= i < r.live.len() implies r.live[i]@ < r.counter@ by {
                    if i < m.live.len() {
                        assert(r.live[i] == m.live[i]);
                    }
                }
            } else {
                crate::entity::lemma_entity_id_view(
                    r.counter,
                    r.counter,
                    (m.counter@ + 1) as u32,
                );
                assert(!m.live.contains(x)) by {
                    if m.live.contains(x) {
                        let i = choose|i: int| 0 <= i < m.live.len() && m.live[i] == x;
                    }
                }
                assert forall|i: int, j: int| 0 <= i < r.live.len() && 0 <= j < r.live.len() && i != j
                    implies r.live[i] != r.live[j] by {
                    if i < m.live.len() && j < m.live.len() {
                        assert(r.live[i] == m.live[i] && r.live[j] == m.live[j]);
                    } else if i < m.live.len() {
                        assert(m.live.contains(r.live[i]));
                    } else {
                        assert(m.live.contains(r.live[j]));
                    }
                }
                assert forall|i: int, j: int| 0 <= i < r.live.len() && 0 <= j < r.free.len()
                    implies r.live[i] != r.free[j] by {
                    if i < m.live.len() {
                        assert(r.live[i] == m.live[i]);
                    }
                }
                assert forall|i: int| 0 <= i < r.live.len() implies r.live[i]@ < r.counter@ by {
                    if i < m.live.len() {
                        assert(r.live[i] == m.live[i]);
                    }
                }
            }
        },
        WorldOp::Despawn(d) => {
            lemma_filter_facts(m.live, not_id(d));
            assert(!m.free.contains(d)) by {
                if m.free.contains(d) {
                    let j = choose|j: int| 0 <= j < m.free.len() && m.free[j] == d;
                    let i = choose|i: int| 0 <= i < m.live.len() && m.live[i] == d;
                    assert(m.live[i] != m.free[j]);
                }
            }
            assert forall|i: int| 0 <= i < r.live.len() implies m.live.contains(#[trigger] r.live[i])
                && r.live[i] != d by {
                assert(r.live.contains(r.live[i]));
            }
            assert forall|i: int, j: int| 0 <= i < r.free.len() && 0 <= j < r.free.len() && i != j
                implies r.free[i] != r.free[j] by {
                if i < m.free.len() && j < m.free.len() {
                    assert(r.free[i] == m.free[i] && r.free[j] == m.free[j]);
                } else if i < m.free.len() {
                    assert(m.free.contains(r.free[i]));
                } else {
                    assert(m.free.contains(r.free[j]));
                }
            }
            assert forall|i: int, j: int| 0 <= i < r.live.len() && 0 <= j < r.free.len()
                implies r.live[i] != r.free[j] by {
                let k = choose|k: int| 0 <= k < m.live.len() && m.live[k] == r.live[i];
                if j < m.free.len() {
                    assert(r.free[j] == m.free[j]);
                }
            }
            assert forall|i: int| 0 <= i < r.live.len() implies r.live[i]@ < r.counter@ by {
                let k = choose|k: int| 0 <= k < m.live.len() && m.live[k] == r.live[i];
            }
            assert forall|j: int| 0 <= j < r.free.len() implies r.free[j]@ < r.counter@ by {
                if j < m.free.len() {
                    assert(r.free[j] == m.free[j]);
                } else {
                    let k = choose|k: int| 0 <= k < m.live.len() && m.live[k] == d;
                }
            }
        },
    }
}

/// Which entities are live follows from the calls made (law): after any
/// calls on a new world, `x` is live exactly when some spawn handed it out
/// and no later despawn took it back.
pub proof fn law_live_from_history(ops: Seq<WorldOp>, x: EntityId)
    ensures
        run_world(ops).live.contains(x) <==> spawned_and_kept(ops, x),
    decreases ops.len(),
{
    let n = ops.len();
    if n == 0 {
        assert(!run_world(ops).live.contains(x));
    } else {
        let q = ops.drop_last();
        let m = run_world(q);
        law_live_from_history(q, x);
        assert(ops[n - 1] == ops.last());
        assert forall|k: int| 0 <= k < n - 1 implies #[trigger] spawned_at(ops, k) == spawned_at(q, k) by {
            assert(ops.take(k) =~= q.take(k));
        }
        assert(ops.take(n - 1) =~= q);
        if spawned_and_kept(q, x) {
            let k = choose|k: int|
                0 <= k < q.len() && q[k] is Spawn && #[trigger] spawned_at(q, k) == x && forall|j: int|
                    k < j < q.len() ==> q[j] != WorldOp::Despawn(x);
            assert(ops[k] == q[k]);
            assert(spawned_at(ops, k) == x);
            if ops.last() != WorldOp::Despawn(x) {
                assert forall|j: int| k < j < n implies ops[j] != WorldOp::Despawn(x) by {
                    if j < n - 1 {
                        assert(ops[j] == q[j]);
                    }
                }
                assert(spawned_and_kept(ops, x));
            }
        }
        if spawned_and_kept(ops, x) {
            let k = choose|k: int|
                0 <= k < ops.len() && ops[k] is Spawn && #[trigger] spawned_at(ops, k) == x && forall|j: int|
                    k < j < ops.len() ==> ops[j] != WorldOp::Despawn(x);
            if k < n - 1 {
                assert(q[k] == ops[k]);
                assert(spawned_at(q, k) == x);
                assert forall|j: int| k < j < q.len() implies q[j] != WorldOp::Despawn(x) by {
                    assert(q[j] == ops[j]);
                }
                assert(spawned_and_kept(q, x));
                assert(ops[n - 1] != WorldOp::Despawn(x));
            } else {
                assert(spawned_at(ops, k) == m.spawned_id());
            }
        }
        match ops.last() {
            WorldOp::Spawn => {
                let sx = m.spawned_id();
                assert(world_step(m, WorldOp::Spawn).live == m.live.push(sx));
                assert(m.live.push(sx).contains(x) <==> m.live.contains(x) || x == sx) by {
                    if m.live.push(sx).contains(x) {
                        let i = choose|i: int| 0 <= i < m.live.len() + 1 && m.live.push(sx)[i] == x;
                        if i < m.live.len() {
                            assert(m.live[i] == x);
                        }
                    }
                    if m.live.contains(x) {
                        let i = choose|i: int| 0 <= i < m.live.len() && m.live[i] == x;
                        assert(m.live.push(sx)[i] == x);
                    }
                    if x == sx {
                        assert(m.live.push(sx)[m.live.len() as int] == x);
                    }
                }
                if x == sx {
                    assert(spawned_at(ops, n - 1) == x);
                    assert(spawned_and_kept(ops, x));
                }
            },
            WorldOp::Despawn(d) => {
                lemma_filter_facts(m.live, not_id(d));
            },
        }
    }
}

/// What a spawn hands out follows from the calls made (law): after calls on
/// a new world that could each be made, the state is valid, so a spawn hands
/// out an identifier that is not live: the most recently despawned
/// identifier that is still free if there is one, and otherwise one more
/// than the largest identifier any spawn handed out (one at first).
pub proof fn law_spawn_from_history(ops: Seq<WorldOp>)
    requires
        history_ok(ops),
    ensures
        run_world(ops).valid(),
        !run_world(ops).live.contains(run_world(ops).spawned_id()),
        run_world(ops).free.len() > 0 ==> run_world(ops).spawned_id() == run_world(ops).free.last(),
        run_world(ops).free.len() == 0 ==> run_world(ops).spawned_id()@ == largest_spawned(ops) + 1,
        run_world(ops).counter@ == largest_spawned(ops) + 1,
    decreases ops.len(),
{
    let m = run_world(ops);
    if ops.len() == 0 {
        crate::entity::lemma_entity_id_view(m.counter, m.counter, 1);
        assert(m.valid());
    } else {
        let q = ops.drop_last();
        law_spawn_from_history(q);
        let p = run_world(q);
        lemma_step_valid(p, ops.last());
        match ops.last() {
            WorldOp::Spawn => {
                if p.free.len() > 0 {
                    let k = p.free.len() - 1;
                    assert(p.free[k] == p.free.last());
                } else {
                    crate::entity::lemma_entity_id_view(m.counter, m.counter, (p.counter@ + 1) as u32);
                }
            },
            WorldOp::Despawn(d) => {},
        }
    }
    let m = run_world(ops);
    if m.free.len() > 0 {
        let k = m.free.len() - 1;
        assert(m.free[k] == m.free.last());
    }
    assert(!m.live.contains(m.spawned_id())) by {
        if m.live.contains(m.spawned_id()) {
            let i = choose|i: int| 0 <= i < m.live.len() && m.live[i] == m.spawned_id();
            if m.free.len() > 0 {
                assert(m.live[i] != m.free[m.free.len() - 1]);
            }
        }
    }
}

} // verus!
