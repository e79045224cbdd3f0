use vstd::prelude::*;

use crate::entity::EntityId;
use crate::packet::Vec3_32;
use crate::thread_buffers::ThreadBuffers;

verus! {

/// Something that happened to an entity during a frame, reported by a worker thread.
#[derive(Clone, Copy, PartialEq, Eq, Structural, Debug)]
pub enum FrameEvent {
    Location(EntityId),
}

/// A change to the game state, made by the game controller.
#[derive(Clone, Copy, PartialEq, Eq, Structural, Debug)]
pub enum GameEvent {
    Spawn { entity_id: EntityId, replicate: bool },
    SpawnGuest { entity_id: EntityId, replicate: bool },
    Despawn(EntityId),
    StaticMeshLocation(EntityId, Vec3_32),
    NetworkClientSpawnAck { spawn_id: u16, entity_id: EntityId },
    UpdateEntityId { old_id: EntityId, new_id: EntityId },
    NetworkRoleServer,
    NetworkRoleClient,
    NetworkRoleOffline,
}

/// A change to the game state that a system asks the game controller to make.
#[derive(Clone, Copy, PartialEq, Eq, Structural, Debug)]
pub enum SystemGameEvent {
    NetworkSpawn(EntityId),
    NetworkSpawnGuest(EntityId),
    NetworkDespawn(EntityId),
    NetworkClientSpawn(u16),
    NetworkClientSpawnAck { client_id: EntityId, replicable_id: EntityId },
}

/// A two-dimensional value, carried as the IEEE 754 bit patterns of its two
/// single-precision coordinates.
#[derive(Clone, Copy, PartialEq, Eq, Structural, Debug)]
pub struct Vec2_32 {
    pub x: u32,
    pub y: u32,
}

/// Input of the player during a frame; axis values are carried as IEEE 754
/// bit patterns.
#[derive(Clone, Copy, PartialEq, Eq, Structural, Debug)]
pub enum InputEvent {
    CameraMoveAxis(Vec2_32),
    CameraRotateAxis(Vec2_32),
    CameraZoom(u32),
    CursorMoved,
    MouseButton(bool),
    ServerBegin,
    ServerConnect,
    ServerDisconnect,
    Spawn,
    SpawnGuest,
}

/// Something the network reported.
#[derive(Clone, Copy, PartialEq, Eq, Structural, Debug)]
pub enum NetworkEvent {
    Spawn(EntityId),
    Despawn(EntityId),
}

/// The events of a frame. Game, input and network events are written and read
/// during the same frame. Frame events and system game events are written by
/// worker threads, each to its own buffer, and read during the next frame.
pub struct EventManager {
    event_buffers: ThreadBuffers<FrameEvent>,
    system_event_buffers: ThreadBuffers<SystemGameEvent>,
    game_event_buffer: Vec<GameEvent>,
    input_event_buffer: Vec<InputEvent>,
    network_event_buffer: Vec<NetworkEvent>,
}

impl EventManager {
    /// The thread buffers are well formed and there is one of each kind per thread.
    pub closed spec fn wf(&self) -> bool {
        &&& self.event_buffers.wf()
        &&& self.system_event_buffers.wf()
        &&& self.system_event_buffers.thread_count() == self.event_buffers.thread_count()
        &&& self.system_event_buffers.write_half() == self.event_buffers.write_half()
    }

    /// The number of worker threads.
    pub closed spec fn thread_count(&self) -> nat {
        self.event_buffers.thread_count()
    }

    /// Game events of the current frame, in order.
    pub closed spec fn game_events_view(&self) -> Seq<GameEvent> {
        self.game_event_buffer@
    }

    /// Input events of the current frame, in order.
    pub closed spec fn input_events_view(&self) -> Seq<InputEvent> {
        self.input_event_buffer@
    }

    /// Network events of the current frame, in order.
    pub closed spec fn network_events_view(&self) -> Seq<NetworkEvent> {
        self.network_event_buffer@
    }

    /// Frame events written so far during the current frame, per thread.
    pub closed spec fn frame_events_written(&self) -> Seq<Seq<FrameEvent>> {
        self.event_buffers.written()
    }

    /// Frame events written during the previous frame, per thread.
    pub closed spec fn frame_events_previous(&self) -> Seq<Seq<FrameEvent>> {
        self.event_buffers.previous()
    }

    /// System game events written so far during the current frame, per thread.
    pub closed spec fn system_events_written(&self) -> Seq<Seq<SystemGameEvent>> {
        self.system_event_buffers.written()
    }

    /// System game events written during the previous frame, per thread.
    pub closed spec fn system_events_previous(&self) -> Seq<Seq<SystemGameEvent>> {
        self.system_event_buffers.previous()
    }

    /// There is one list of each kind of thread-written events per thread.
    pub proof fn lemma_shape(&self)
        requires
            self.wf(),
        ensures
            self.frame_events_written().len() == self.thread_count(),
            self.frame_events_previous().len() == self.thread_count(),
            self.system_events_written().len() == self.thread_count(),
            self.system_events_previous().len() == self.thread_count(),
    {
        self.event_buffers.lemma_shape();
        self.system_event_buffers.lemma_shape();
    }

    /// No events, for `thread_count` worker threads.
    pub fn new(thread_count: usize) -> (r: Self)
        requires
            thread_count > 0,
        ensures
            r.wf(),
            r.thread_count() == thread_count,
            r.game_events_view() == Seq::<GameEvent>::empty(),
            r.input_events_view() == Seq::<InputEvent>::empty(),
            r.network_events_view() == Seq::<NetworkEvent>::empty(),
            r.frame_events_written() == Seq::new(thread_count as nat, |i: int| Seq::<FrameEvent>::empty()),
            r.frame_events_previous() == Seq::new(thread_count as nat, |i: int| Seq::<FrameEvent>::empty()),
            r.system_events_written() == Seq::new(thread_count as nat, |i: int| Seq::<SystemGameEvent>::empty()),
            r.system_events_previous() == Seq::new(thread_count as nat, |i: int| Seq::<SystemGameEvent>::empty()),
    {
        EventManager {
            event_buffers: ThreadBuffers::new(thread_count),
            system_event_buffers: ThreadBuffers::new(thread_count),
            game_event_buffer: Vec::new(),
            input_event_buffer: Vec::new(),
            network_event_buffer: Vec::new(),
        }
    }

    /// Records a game event of the current frame.
    pub fn push_game_event(&mut self, event: GameEvent)
        requires
            old(self).wf(),
        ensures
            final(self).wf(),
            final(self).thread_count() == old(self).thread_count(),
            final(self).game_events_view() == old(self).game_events_view().push(event),
            final(self).input_events_view() == old(self).input_events_view(),
            final(self).network_events_view() == old(self).network_events_view(),
            final(self).frame_events_written() == old(self).frame_events_written(),
            final(self).frame_events_previous() == old(self).frame_events_previous(),
            final(self).system_events_written() == old(self).system_events_written(),
            final(self).system_events_previous() == old(self).system_events_previous(),
    {
        self.game_event_buffer.push(event);
    }

    /// Records an input event of the current frame.
    pub fn push_input_event(&mut self, event: InputEvent)
        requires
            old(self).wf(),
        ensures
            final(self).wf(),
            final(self).thread_count() == old(self).thread_count(),
            final(self).input_events_view() == old(self).input_events_view().push(event),
            final(self).game_events_view() == old(self).game_events_view(),
            final(self).network_events_view() == old(self).network_events_view(),
            final(self).frame_events_written() == old(self).frame_events_written(),
            final(self).frame_events_previous() == old(self).frame_events_previous(),
            final(self).system_events_written() == old(self).system_events_written(),
            final(self).system_events_previous() == old(self).system_events_previous(),
    {
        self.input_event_buffer.push(event);
    }

    /// Records a network event of the current frame.
    pub fn push_network_event(&mut self, event: NetworkEvent)
        requires
            old(self).wf(),
        ensures
            final(self).wf(),
            final(self).thread_count() == old(self).thread_count(),
            final(self).network_events_view() == old(self).network_events_view().push(event),
            final(self).game_events_view() == old(self).game_events_view(),
            final(self).input_events_view() == old(self).input_events_view(),
            final(self).frame_events_written() == old(self).frame_events_written(),
            final(self).frame_events_previous() == old(self).frame_events_previous(),
            final(self).system_events_written() == old(self).system_events_written(),
            final(self).system_events_previous() == old(self).system_events_previous(),
    {
        self.network_event_buffer.push(event);
    }

    /// The frame events as double buffers: written this frame, and the frame before.
    pub open spec fn frame_state(&self) -> crate::thread_buffers::BufferState<FrameEvent> {
        (self.frame_events_written(), self.frame_events_previous())
    }

    /// Records a frame event written by worker thread `thread_index`; it is
    /// read during the next frame.
    pub fn push_frame_event(&mut self, thread_index: usize, event: FrameEvent)
        requires
            old(self).wf(),
            thread_index < old(self).thread_count(),
        ensures
            final(self).wf(),
            final(self).thread_count() == old(self).thread_count(),
            final(self).frame_events_written() == old(self).frame_events_written().update(
                thread_index as int,
                old(self).frame_events_written()[thread_index as int].push(event),
            ),
            final(self).frame_events_previous() == old(self).frame_events_previous(),
            final(self).frame_state() == crate::thread_buffers::state_push(old(self).frame_state(), thread_index as int, event),
            final(self).system_events_written() == old(self).system_events_written(),
            final(self).system_events_previous() == old(self).system_events_previous(),
            final(self).game_events_view() == old(self).game_events_view(),
            final(self).input_events_view() == old(self).input_events_view(),
            final(self).network_events_view() == old(self).network_events_view(),
    {
        self.event_buffers.push(thread_index, event);
    }

    /// Records a system game event written by worker thread `thread_index`;
    /// it is read during the next frame.
    pub fn push_system_game_event(&mut self, thread_index: usize, event: SystemGameEvent)
        requires
            old(self).wf(),
            thread_index < old(self).thread_count(),
        ensures
            final(self).wf(),
            final(self).thread_count() == old(self).thread_count(),
            final(self).system_events_written() == old(self).system_events_written().update(
                thread_index as int,
                old(self).system_events_written()[thread_index as int].push(event),
            ),
            final(self).system_events_previous() == old(self).system_events_previous(),
            final(self).frame_events_written() == old(self).frame_events_written(),
            final(self).frame_events_previous() == old(self).frame_events_previous(),
            final(self).game_events_view() == old(self).game_events_view(),
            final(self).input_events_view() == old(self).input_events_view(),
            final(self).network_events_view() == old(self).network_events_view(),
    {
        self.system_event_buffers.push(thread_index, event);
    }

    /// Game events of the current frame, in order.
    pub fn game_events(&self) -> (r: &[GameEvent])
        ensures
            r@ == self.game_events_view(),
    {
        self.game_event_buffer.as_slice()
    }

    /// Input events of the current frame, in order.
    pub fn input_events(&self) -> (r: &[InputEvent])
        ensures
            r@ == self.input_events_view(),
    {
        self.input_event_buffer.as_slice()
    }

    /// Network events of the current frame, in order.
    pub fn network_events(&self) -> (r: &[NetworkEvent])
        ensures
            r@ == self.network_events_view(),
    {
        self.network_event_buffer.as_slice()
    }

    /// Frame events which occurred in the previous frame: thread by thread,
    /// each thread's in the order it wrote them.
    pub fn frame_events(&self) -> (r: Vec<FrameEvent>)
        requires
            self.wf(),
        ensures
            r@ == self.frame_events_previous().flatten(),
            r@ == crate::thread_buffers::state_read(self.frame_state()),
    {
        self.event_buffers.read()
    }

    /// System game events which occurred in the previous frame: thread by
    /// thread, each thread's in the order it wrote them.
    pub fn system_game_events(&self) -> (r: Vec<SystemGameEvent>)
        requires
            self.wf(),
        ensures
            r@ == self.system_events_previous().flatten(),
    {
        self.system_event_buffers.read()
    }

    /// Starts a new frame: the events threads wrote become readable, all
    /// other events are dropped.
    pub fn swap(&mut self)
        requires
            old(self).wf(),
        ensures
            final(self).wf(),
            final(self).thread_count() == old(self).thread_count(),
            final(self).frame_events_previous() == old(self).frame_events_written(),
            final(self).frame_events_written() == Seq::new(
                old(self).thread_count(),
                |i: int| Seq::<FrameEvent>::empty(),
            ),
            final(self).system_events_previous() == old(self).system_events_written(),
            final(self).system_events_written() == Seq::new(
                old(self).thread_count(),
                |i: int| Seq::<SystemGameEvent>::empty(),
            ),
            final(self).game_events_view() == Seq::<GameEvent>::empty(),
            final(self).input_events_view() == Seq::<InputEvent>::empty(),
            final(self).network_events_view() == Seq::<NetworkEvent>::empty(),
            final(self).frame_state() == crate::thread_buffers::state_swap(old(self).frame_state()),
    {
        proof {
            old(self).lemma_shape();
        }
        self.event_buffers.swap();
        self.system_event_buffers.swap();
        self.game_event_buffer.clear();
        self.input_event_buffer.clear();
        self.network_event_buffer.clear();
    }
}


/// Frame events are seen during exactly the one frame after the one in
/// which worker threads wrote them (law), over the frame state that
/// `push_frame_event`, `swap` and `frame_events` are stated on: written
/// events are not read before the next swap; after it, `frame_events` gives
/// exactly the events written between the two swaps, thread by thread, each
/// thread's in the order it wrote them; after one more swap they are gone.
pub proof fn law_frame_events_one_frame(s: crate::thread_buffers::BufferState<FrameEvent>, pushes: Seq<(int, FrameEvent)>)
    requires
        forall|k: int| 0 <= k < pushes.len() ==> 0 <= #[trigger] pushes[k].0 < s.0.len(),
    ensures
        crate::thread_buffers::state_read(crate::thread_buffers::state_push_all(s, pushes)) == crate::thread_buffers::state_read(s),
        crate::thread_buffers::state_read(crate::thread_buffers::state_swap(crate::thread_buffers::state_push_all(crate::thread_buffers::state_swap(s), pushes))) == Seq::new(
            s.0.len(),
            |i: int| crate::thread_buffers::thread_items(pushes, i),
        ).flatten(),
        crate::thread_buffers::state_read(crate::thread_buffers::state_swap(crate::thread_buffers::state_swap(crate::thread_buffers::state_push_all(crate::thread_buffers::state_swap(s), pushes)))) == Seq::<FrameEvent>::empty(),
{
    crate::thread_buffers::law_one_frame(s, pushes);
}

} // verus!
