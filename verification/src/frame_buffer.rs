use vstd::prelude::*;

use std::sync::Arc;

use crate::controller::FrameCommand;
use crate::entity::EntityId;
use crate::packet::Vec3_32;
use crate::resources::Resource;
use crate::thread_buffers::ThreadBuffers;

verus! {

/// A value of type `T` about one entity.
#[derive(Clone, Copy, PartialEq, Eq, Structural, Debug)]
pub struct EntityData<T> {
    pub entity_id: EntityId,
    pub data: T,
}

impl<T> EntityData<T> {
    /// `data` about `entity_id`.
    pub fn new(entity_id: EntityId, data: T) -> (r: Self)
        ensures
            r.entity_id == entity_id,
            r.data == data,
    {
        EntityData { entity_id, data }
    }
}

/// A static mesh that was spawned, with the resource it shows.
#[derive(Clone)]
pub struct SpawnedStaticMesh {
    pub entity_id: EntityId,
    pub resource: Arc<Resource>,
}

/// What the game state hands to rendering for one frame: spawned and
/// despawned entities and the camera, set during the frame, and entity
/// locations that worker threads wrote during the previous frame.
pub struct FrameBufferManager<C> {
    event_buffers: ThreadBuffers<EntityData<Vec3_32>>,
    updated_ids: ThreadBuffers<(EntityId, EntityId)>,
    spawned_static_meshes: Vec<SpawnedStaticMesh>,
    spawned_guests: Vec<EntityId>,
    despawned: Vec<EntityId>,
    camera_info: C,
}

impl<C> FrameBufferManager<C> {
    /// The location buffers are well formed.
    pub closed spec fn wf(&self) -> bool {
        &&& self.event_buffers.wf()
        &&& self.updated_ids.wf()
        &&& self.updated_ids.thread_count() == self.event_buffers.thread_count()
    }

    /// The number of worker threads.
    pub closed spec fn thread_count(&self) -> nat {
        self.event_buffers.thread_count()
    }

    /// Static meshes spawned during the current frame, in order.
    pub closed spec fn spawned_view(&self) -> Seq<SpawnedStaticMesh> {
        self.spawned_static_meshes@
    }

    /// Guests spawned during the current frame, in order.
    pub closed spec fn guests_view(&self) -> Seq<EntityId> {
        self.spawned_guests@
    }

    /// Entities despawned during the current frame, in order.
    pub closed spec fn despawned_view(&self) -> Seq<EntityId> {
        self.despawned@
    }

    /// The camera of the frame.
    pub closed spec fn camera_view(&self) -> C {
        self.camera_info
    }

    /// Locations written so far during the current frame, per thread.
    pub closed spec fn locations_written(&self) -> Seq<Seq<EntityData<Vec3_32>>> {
        self.event_buffers.written()
    }

    /// Identifier changes written so far during the current frame, per thread.
    pub closed spec fn updated_ids_written(&self) -> Seq<Seq<(EntityId, EntityId)>> {
        self.updated_ids.written()
    }

    /// Identifier changes written during the previous frame, per thread.
    pub closed spec fn updated_ids_previous(&self) -> Seq<Seq<(EntityId, EntityId)>> {
        self.updated_ids.previous()
    }

    /// Locations written during the previous frame, per thread.
    pub closed spec fn locations_previous(&self) -> Seq<Seq<EntityData<Vec3_32>>> {
        self.event_buffers.previous()
    }

    /// The locations as double buffers: written this frame, and the frame before.
    pub open spec fn location_state(&self) -> crate::thread_buffers::BufferState<EntityData<Vec3_32>> {
        (self.locations_written(), self.locations_previous())
    }

    /// There is one written and one previous list of locations per thread.
    pub proof fn lemma_shape(&self)
        requires
            self.wf(),
        ensures
            self.locations_written().len() == self.thread_count(),
            self.locations_previous().len() == self.thread_count(),
            self.updated_ids_written().len() == self.thread_count(),
            self.updated_ids_previous().len() == self.thread_count(),
    {
        self.event_buffers.lemma_shape();
        self.updated_ids.lemma_shape();
    }

    /// An empty frame buffer for `thread_count` worker threads, with camera `camera_info`.
    pub fn new(thread_count: usize, camera_info: C) -> (r: Self)
        requires
            thread_count > 0,
        ensures
            r.wf(),
            r.thread_count() == thread_count,
            r.spawned_view() == Seq::<SpawnedStaticMesh>::empty(),
            r.guests_view() == Seq::<EntityId>::empty(),
            r.despawned_view() == Seq::<EntityId>::empty(),
            r.camera_view() == camera_info,
            r.locations_written() == Seq::new(thread_count as nat, |i: int| Seq::<EntityData<Vec3_32>>::empty()),
            r.locations_previous() == Seq::new(thread_count as nat, |i: int| Seq::<EntityData<Vec3_32>>::empty()),
            r.updated_ids_written() == Seq::new(thread_count as nat, |i: int| Seq::<(EntityId, EntityId)>::empty()),
            r.updated_ids_previous() == Seq::new(thread_count as nat, |i: int| Seq::<(EntityId, EntityId)>::empty()),
    {
        FrameBufferManager {
            event_buffers: ThreadBuffers::new(thread_count),
            updated_ids: ThreadBuffers::new(thread_count),
            spawned_static_meshes: Vec::new(),
            spawned_guests: Vec::new(),
            despawned: Vec::new(),
            camera_info,
        }
    }

    /// Records a static mesh spawned during the current frame.
    pub fn spawn_static_mesh(&mut self, static_mesh: SpawnedStaticMesh)
        ensures
            final(self).spawned_view() == old(self).spawned_view().push(static_mesh),
            final(self).guests_view() == old(self).guests_view(),
            final(self).despawned_view() == old(self).despawned_view(),
            final(self).camera_view() == old(self).camera_view(),
            final(self).wf() == old(self).wf(),
            final(self).thread_count() == old(self).thread_count(),
            final(self).locations_written() == old(self).locations_written(),
            final(self).locations_previous() == old(self).locations_previous(),
            final(self).updated_ids_written() == old(self).updated_ids_written(),
            final(self).updated_ids_previous() == old(self).updated_ids_previous(),
    {
        self.spawned_static_meshes.push(static_mesh);
    }

    /// Records an entity despawned during the current frame.
    pub fn despawn(&mut self, entity_id: EntityId)
        ensures
            final(self).despawned_view() == old(self).despawned_view().push(entity_id),
            final(self).spawned_view() == old(self).spawned_view(),
            final(self).guests_view() == old(self).guests_view(),
            final(self).camera_view() == old(self).camera_view(),
            final(self).wf() == old(self).wf(),
            final(self).thread_count() == old(self).thread_count(),
            final(self).locations_written() == old(self).locations_written(),
            final(self).locations_previous() == old(self).locations_previous(),
            final(self).updated_ids_written() == old(self).updated_ids_written(),
            final(self).updated_ids_previous() == old(self).updated_ids_previous(),
    {
        self.despawned.push(entity_id);
    }

    /// Records a guest spawned during the current frame.
    pub fn spawn_guest(&mut self, entity_id: EntityId)
        ensures
            final(self).guests_view() == old(self).guests_view().push(entity_id),
            final(self).spawned_view() == old(self).spawned_view(),
            final(self).despawned_view() == old(self).despawned_view(),
            final(self).camera_view() == old(self).camera_view(),
            final(self).wf() == old(self).wf(),
            final(self).thread_count() == old(self).thread_count(),
            final(self).locations_written() == old(self).locations_written(),
            final(self).locations_previous() == old(self).locations_previous(),
            final(self).updated_ids_written() == old(self).updated_ids_written(),
            final(self).updated_ids_previous() == old(self).updated_ids_previous(),
    {
        self.spawned_guests.push(entity_id);
    }

    /// Guests spawned during the current frame, in order.
    pub fn spawned_guests(&self) -> (r: &[EntityId])
        ensures
            r@ == self.guests_view(),
    {
        self.spawned_guests.as_slice()
    }

    /// Sets the camera of the frame.
    pub fn set_camera_info(&mut self, info: C)
        ensures
            final(self).camera_view() == info,
            final(self).spawned_view() == old(self).spawned_view(),
            final(self).guests_view() == old(self).guests_view(),
            final(self).despawned_view() == old(self).despawned_view(),
            final(self).wf() == old(self).wf(),
            final(self).thread_count() == old(self).thread_count(),
            final(self).locations_written() == old(self).locations_written(),
            final(self).locations_previous() == old(self).locations_previous(),
            final(self).updated_ids_written() == old(self).updated_ids_written(),
            final(self).updated_ids_previous() == old(self).updated_ids_previous(),
    {
        self.camera_info = info;
    }

    /// Static meshes spawned during the current frame, in order.
    pub fn spawned_static_meshes(&self) -> (r: &[SpawnedStaticMesh])
        ensures
            r@ == self.spawned_view(),
    {
        self.spawned_static_meshes.as_slice()
    }

    /// Entities despawned during the current frame, in order.
    pub fn despawned(&self) -> (r: &[EntityId])
        ensures
            r@ == self.despawned_view(),
    {
        self.despawned.as_slice()
    }

    /// The camera of the frame.
    pub fn camera_info(&self) -> (r: &C)
        ensures
            *r == self.camera_view(),
    {
        &self.camera_info
    }

    /// Records the location of an entity, written by worker thread
    /// `thread_index`; it is read during the next frame.
    pub fn push_location(&mut self, thread_index: usize, entity_id: EntityId, location: Vec3_32)
        requires
            old(self).wf(),
            thread_index < old(self).thread_count(),
        ensures
            final(self).wf(),
            final(self).thread_count() == old(self).thread_count(),
            final(self).locations_written() == old(self).locations_written().update(
                thread_index as int,
                old(self).locations_written()[thread_index as int].push(EntityData { entity_id, data: location }),
            ),
            final(self).locations_previous() == old(self).locations_previous(),
            final(self).updated_ids_written() == old(self).updated_ids_written(),
            final(self).updated_ids_previous() == old(self).updated_ids_previous(),
            final(self).location_state() == crate::thread_buffers::state_push(
                old(self).location_state(),
                thread_index as int,
                EntityData { entity_id, data: location },
            ),
            final(self).spawned_view() == old(self).spawned_view(),
            final(self).guests_view() == old(self).guests_view(),
            final(self).despawned_view() == old(self).despawned_view(),
            final(self).camera_view() == old(self).camera_view(),
    {
        self.event_buffers.push(thread_index, EntityData::new(entity_id, location));
    }

    /// Records that an entity changed identifier, written by worker thread
    /// `thread_index`; it is read during the next frame.
    pub fn push_update_entity_id(&mut self, thread_index: usize, old_id: EntityId, new_id: EntityId)
        requires
            old(self).wf(),
            thread_index < old(self).thread_count(),
        ensures
            final(self).wf(),
            final(self).thread_count() == old(self).thread_count(),
            final(self).updated_ids_written() == old(self).updated_ids_written().update(
                thread_index as int,
                old(self).updated_ids_written()[thread_index as int].push((old_id, new_id)),
            ),
            final(self).updated_ids_previous() == old(self).updated_ids_previous(),
            final(self).locations_written() == old(self).locations_written(),
            final(self).locations_previous() == old(self).locations_previous(),
            final(self).spawned_view() == old(self).spawned_view(),
            final(self).guests_view() == old(self).guests_view(),
            final(self).despawned_view() == old(self).despawned_view(),
            final(self).camera_view() == old(self).camera_view(),
    {
        self.updated_ids.push(thread_index, (old_id, new_id));
    }

    /// Carries out a command of the game state, on behalf of thread `thread_index`.
    pub fn apply(&mut self, thread_index: usize, command: FrameCommand)
        requires
            old(self).wf(),
            thread_index < old(self).thread_count(),
        ensures
            final(self).wf(),
            final(self).thread_count() == old(self).thread_count(),
            final(self).camera_view() == old(self).camera_view(),
            final(self).locations_previous() == old(self).locations_previous(),
            final(self).updated_ids_previous() == old(self).updated_ids_previous(),
            final(self).spawned_view() == (match command {
                FrameCommand::SpawnStaticMesh(m) => old(self).spawned_view().push(m),
                _ => old(self).spawned_view(),
            }),
            final(self).guests_view() == (match command {
                FrameCommand::SpawnGuest(id) => old(self).guests_view().push(id),
                _ => old(self).guests_view(),
            }),
            final(self).despawned_view() == (match command {
                FrameCommand::Despawn(id) => old(self).despawned_view().push(id),
                _ => old(self).despawned_view(),
            }),
            final(self).updated_ids_written() == (match command {
                FrameCommand::UpdateEntityId(a, b) => old(self).updated_ids_written().update(
                    thread_index as int,
                    old(self).updated_ids_written()[thread_index as int].push((a, b)),
                ),
                _ => old(self).updated_ids_written(),
            }),
            final(self).locations_written() == (match command {
                FrameCommand::PushLocation(id, l) => old(self).locations_written().update(
                    thread_index as int,
                    old(self).locations_written()[thread_index as int].push(EntityData { entity_id: id, data: l }),
                ),
                _ => old(self).locations_written(),
            }),
    {
        match command {
            FrameCommand::SpawnStaticMesh(m) => self.spawn_static_mesh(m),
            FrameCommand::SpawnGuest(id) => self.spawn_guest(id),
            FrameCommand::Despawn(id) => self.despawn(id),
            FrameCommand::UpdateEntityId(a, b) => self.push_update_entity_id(thread_index, a, b),
            FrameCommand::PushLocation(id, l) => self.push_location(thread_index, id, l),
        }
    }

    /// Identifier changes written during the previous frame, as pairs of the
    /// old and the new identifier: thread by thread, each thread's in the
    /// order it wrote them.
    pub fn updated_entity_ids(&self) -> (r: Vec<(EntityId, EntityId)>)
        requires
            self.wf(),
        ensures
            r@ == self.updated_ids_previous().flatten(),
    {
        self.updated_ids.read()
    }

    /// Locations written during the previous frame: thread by thread, each
    /// thread's in the order it wrote them.
    pub fn locations(&self) -> (r: Vec<EntityData<Vec3_32>>)
        requires
            self.wf(),
        ensures
            r@ == self.locations_previous().flatten(),
            r@ == crate::thread_buffers::state_read(self.location_state()),
    {
        self.event_buffers.read()
    }

    /// Starts a new frame: the locations written become readable, and the
    /// spawned, guest and despawned lists are emptied; the camera stays.
    pub fn swap(&mut self)
        requires
            old(self).wf(),
        ensures
            final(self).wf(),
            final(self).thread_count() == old(self).thread_count(),
            final(self).locations_previous() == old(self).locations_written(),
            final(self).locations_written() == Seq::new(
                old(self).thread_count(),
                |i: int| Seq::<EntityData<Vec3_32>>::empty(),
            ),
            final(self).updated_ids_previous() == old(self).updated_ids_written(),
            final(self).updated_ids_written() == Seq::new(
                old(self).thread_count(),
                |i: int| Seq::<(EntityId, EntityId)>::empty(),
            ),
            final(self).spawned_view() == Seq::<SpawnedStaticMesh>::empty(),
            final(self).guests_view() == Seq::<EntityId>::empty(),
            final(self).despawned_view() == Seq::<EntityId>::empty(),
            final(self).camera_view() == old(self).camera_view(),
            final(self).location_state() == crate::thread_buffers::state_swap(old(self).location_state()),
    {
        proof {
            old(self).lemma_shape();
        }
        self.event_buffers.swap();
        self.updated_ids.swap();
        self.spawned_static_meshes.clear();
        self.spawned_guests.clear();
        self.despawned.clear();
    }
}


/// Locations for rendering are seen during exactly the one frame after the one in which they
/// were written (law), over the state that `push_location`, `swap` and
/// `locations` are stated on: locations written are not read before the next
/// swap; after it, `locations` gives exactly the locations written between
/// the two swaps, thread by thread, each thread's in the order it wrote them;
/// after one more swap with no writes, it gives nothing.
pub proof fn law_locations_one_frame(
    s: crate::thread_buffers::BufferState<EntityData<Vec3_32>>,
    pushes: Seq<(int, EntityData<Vec3_32>)>,
)
    requires
        forall|k: int| 0 <= k < pushes.len() ==> 0 <= #[trigger] pushes[k].0 < s.0.len(),
    ensures
        crate::thread_buffers::state_read(crate::thread_buffers::state_push_all(s, pushes)) == crate::thread_buffers::state_read(s),
        crate::thread_buffers::state_read(crate::thread_buffers::state_swap(crate::thread_buffers::state_push_all(crate::thread_buffers::state_swap(s), pushes))) == Seq::new(
            s.0.len(),
            |i: int| crate::thread_buffers::thread_items(pushes, i),
        ).flatten(),
        crate::thread_buffers::state_read(crate::thread_buffers::state_swap(crate::thread_buffers::state_swap(crate::thread_buffers::state_push_all(crate::thread_buffers::state_swap(s), pushes))))
            == Seq::<EntityData<Vec3_32>>::empty(),
{
    crate::thread_buffers::law_one_frame(s, pushes);
}

} // verus!
