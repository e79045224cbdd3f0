use vstd::prelude::*;

use crate::entity::EntityId;
use crate::frame_buffer::EntityData;
use crate::packet::Vec3_32;
use crate::thread_buffers::ThreadBuffers;

verus! {

/// Entity locations exchanged between systems across fixed updates: what
/// worker threads write during one update is read during the next one.
pub struct UpdateBuffer {
    update_buffers: ThreadBuffers<EntityData<Vec3_32>>,
}

impl UpdateBuffer {
    /// The buffers are well formed.
    pub closed spec fn wf(&self) -> bool {
        self.update_buffers.wf()
    }

    /// The number of worker threads.
    pub closed spec fn thread_count(&self) -> nat {
        self.update_buffers.thread_count()
    }

    /// Locations written so far during the current update, per thread.
    pub closed spec fn written(&self) -> Seq<Seq<EntityData<Vec3_32>>> {
        self.update_buffers.written()
    }

    /// Locations written during the previous update, per thread.
    pub closed spec fn previous(&self) -> Seq<Seq<EntityData<Vec3_32>>> {
        self.update_buffers.previous()
    }

    /// There is one written and one previous list per thread.
    pub proof fn lemma_shape(&self)
        requires
            self.wf(),
        ensures
            self.written().len() == self.thread_count(),
            self.previous().len() == self.thread_count(),
    {
        self.update_buffers.lemma_shape();
    }

    /// Empty buffers for `thread_count` worker threads.
    pub fn new(thread_count: usize) -> (r: Self)
        requires
            thread_count > 0,
        ensures
            r.wf(),
            r.thread_count() == thread_count,
            r.written() == Seq::new(thread_count as nat, |i: int| Seq::<EntityData<Vec3_32>>::empty()),
            r.previous() == Seq::new(thread_count as nat, |i: int| Seq::<EntityData<Vec3_32>>::empty()),
    {
        UpdateBuffer { update_buffers: ThreadBuffers::new(thread_count) }
    }

    /// Starts a new update: what was written becomes readable.
    /// The locations as double buffers: written this update, and the update before.
    pub open spec fn location_state(&self) -> crate::thread_buffers::BufferState<EntityData<Vec3_32>> {
        (self.written(), self.previous())
    }

    pub fn swap_buffers(&mut self)
        requires
            old(self).wf(),
        ensures
            final(self).wf(),
            final(self).thread_count() == old(self).thread_count(),
            final(self).previous() == old(self).written(),
            final(self).written() == Seq::new(
                old(self).thread_count(),
                |i: int| Seq::<EntityData<Vec3_32>>::empty(),
            ),
            final(self).location_state() == crate::thread_buffers::state_swap(old(self).location_state()),
    {
        proof {
            old(self).lemma_shape();
        }
        self.update_buffers.swap();
    }

    /// Locations written during the previous update: thread by thread, each
    /// thread's in the order it wrote them.
    pub fn locations(&self) -> (r: Vec<EntityData<Vec3_32>>)
        requires
            self.wf(),
        ensures
            r@ == self.previous().flatten(),
            r@ == crate::thread_buffers::state_read(self.location_state()),
    {
        self.update_buffers.read()
    }

    /// Records the location of an entity, written by worker thread `thread_index`.
    pub fn push_location(&mut self, thread_index: usize, entity_id: EntityId, location: Vec3_32)
        requires
            old(self).wf(),
            thread_index < old(self).thread_count(),
        ensures
            final(self).wf(),
            final(self).thread_count() == old(self).thread_count(),
            final(self).written() == old(self).written().update(
                thread_index as int,
                old(self).written()[thread_index as int].push(EntityData { entity_id, data: location }),
            ),
            final(self).previous() == old(self).previous(),
            final(self).location_state() == crate::thread_buffers::state_push(
                old(self).location_state(),
                thread_index as int,
                EntityData { entity_id, data: location },
            ),
    {
        self.update_buffers.push(thread_index, EntityData::new(entity_id, location));
    }
}


/// Locations written by systems are seen during exactly the one update after the one in which they
/// were written (law), over the state that `push_location`, `swap_buffers` and
/// `locations` are stated on: locations written are not read before the next
/// swap; after it, `locations` gives exactly the locations written between
/// the two swaps, thread by thread, each thread's in the order it wrote them;
/// after one more swap with no writes, it gives nothing.
pub proof fn law_update_locations_one_update(
    s: crate::thread_buffers::BufferState<EntityData<Vec3_32>>,
    pushes: Seq<(int, EntityData<Vec3_32>)>,
)
    requires
        forall|k: int| 0 <= k < pushes.len() ==> 0 <= #[trigger] pushes[k].0 < s.0.len(),
    ensures
        crate::thread_buffers::state_read(crate::thread_buffers::state_push_all(s, pushes)) == crate::thread_buffers::state_read(s),
        crate::thread_buffers::state_read(crate::thread_buffers::state_swap(crate::thread_buffers::state_push_all(crate::thread_buffers::state_swap(s), pushes))) == Seq::new(
            s.0.len(),
            |i: int| crate::thread_buffers::thread_items(pushes, i),
        ).flatten(),
        crate::thread_buffers::state_read(crate::thread_buffers::state_swap(crate::thread_buffers::state_swap(crate::thread_buffers::state_push_all(crate::thread_buffers::state_swap(s), pushes))))
            == Seq::<EntityData<Vec3_32>>::empty(),
{
    crate::thread_buffers::law_one_frame(s, pushes);
}

} // verus!
