use vstd::prelude::*;

use crate::entity::{EntityId, EntityMap};
use crate::event::{EventManager, GameEvent};
use crate::frame_buffer::{EntityData, FrameBufferManager};
use crate::packet::Vec3_32;
use crate::swap_data::SystemSwapData;
use crate::update_buffer::UpdateBuffer;

verus! {

/// The location of the origin: all three coordinates are +0.0.
pub open spec fn spec_origin() -> Vec3_32 {
    Vec3_32 { x: 0, y: 0, z: 0 }
}

/// The state of the static meshes that other systems read: where each one is.
pub struct DataSingle {
    pub locations: EntityMap<Vec3_32>,
}

impl DataSingle {
    /// No static meshes.
    pub fn new() -> (r: Self)
        ensures
            r.locations.wf(),
            r.locations@ == Seq::<(EntityId, Vec3_32)>::empty(),
    {
        DataSingle { locations: EntityMap::new() }
    }

    /// Where the static mesh of `entity_id` is, if there is one.
    pub fn location(&self, entity_id: EntityId) -> (r: Option<Vec3_32>)
        requires
            self.locations.wf(),
        ensures
            match self.locations.position(entity_id) {
                Some(i) => r == Some(self.locations@[i].1),
                None => r is None,
            },
    {
        match self.locations.get(entity_id) {
            Some(l) => Some(*l),
            None => None,
        }
    }
}

/// Whether the static mesh system can apply game event `e` to the locations
/// `s`: despawning, renaming or moving an entity needs the entity to be there.
pub open spec fn mesh_event_ok(s: Seq<(EntityId, Vec3_32)>, e: GameEvent) -> bool {
    match e {
        GameEvent::Despawn(id) => crate::entity::entry_ids(s).contains(id),
        GameEvent::UpdateEntityId { old_id, .. } => crate::entity::entry_ids(s).contains(old_id),
        GameEvent::StaticMeshLocation(id, _) => crate::entity::entry_ids(s).contains(id),
        _ => true,
    }
}

/// The locations after game event `e`: a spawned entity is at the origin, a
/// despawned one is removed, a renamed one keeps its location under its new
/// identifier, and a moved one is where it was moved.
pub open spec fn apply_mesh_event(s: Seq<(EntityId, Vec3_32)>, e: GameEvent) -> Seq<(EntityId, Vec3_32)> {
    match e {
        GameEvent::Spawn { entity_id, .. } => s.push((entity_id, spec_origin())),
        GameEvent::Despawn(id) => crate::entity::removed(s, id),
        GameEvent::UpdateEntityId { old_id, new_id } => crate::entity::removed(s, old_id).push(
            (new_id, crate::entity::data_of(s, old_id)),
        ),
        GameEvent::StaticMeshLocation(id, l) => crate::entity::with_data(s, id, l),
        _ => s,
    }
}

/// Renaming keeps the location (law): where each entity has one location,
/// renaming `old_id` to an identifier not in use (or to itself) leaves lookups
/// of `new_id` finding the location that `old_id` had, and `old_id` no longer
/// found unless it is `new_id`; every other entity keeps its location, and
/// each entity still has one location.
pub proof fn law_rename_keeps_location(s: Seq<(EntityId, Vec3_32)>, old_id: EntityId, new_id: EntityId, other: EntityId)
    requires
        crate::entity::entry_ids(s).no_duplicates(),
        crate::entity::entry_ids(s).contains(old_id),
        new_id == old_id || !crate::entity::entry_ids(s).contains(new_id),
    ensures
        ({
            let r = apply_mesh_event(s, GameEvent::UpdateEntityId { old_id, new_id });
            &&& crate::entity::first_index(crate::entity::entry_ids(r), new_id) matches Some(k)
            &&& 0 <= k < r.len()
            &&& r[k].1 == s[crate::entity::first_index(crate::entity::entry_ids(s), old_id)->0].1
            &&& crate::entity::entry_ids(r).no_duplicates()
            &&& old_id != new_id ==> !crate::entity::entry_ids(r).contains(old_id)
            &&& other != old_id && other != new_id ==> crate::entity::entry_ids(r).contains(other)
                == crate::entity::entry_ids(s).contains(other)
            &&& other != old_id && other != new_id && crate::entity::entry_ids(s).contains(other)
                ==> crate::entity::data_of(r, other) == crate::entity::data_of(s, other)
        }),
{
    assert(apply_mesh_event(s, GameEvent::UpdateEntityId { old_id, new_id }) == crate::entity::removed(
        s,
        old_id,
    ).push((new_id, crate::entity::data_of(s, old_id))));
    crate::entity::law_lookup_after_rename(s, old_id, new_id, other);
}

/// What the other game events do to the locations (law): where each entity
/// has one location, a spawned entity that was not there is found at the
/// origin, a despawned one is no longer found, a moved one is found where it
/// was moved, and in each case every other entity keeps its location.
pub proof fn law_mesh_events_lookups(s: Seq<(EntityId, Vec3_32)>, e: GameEvent, other: EntityId)
    requires
        crate::entity::entry_ids(s).no_duplicates(),
        mesh_event_ok(s, e),
    ensures
        ({
            let r = apply_mesh_event(s, e);
            let ids = crate::entity::entry_ids(s);
            &&& e matches GameEvent::Spawn { entity_id, .. } ==> (!ids.contains(entity_id) ==> {
                &&& crate::entity::first_index(crate::entity::entry_ids(r), entity_id) matches Some(k)
                &&& 0 <= k < r.len()
                &&& r[k].1 == spec_origin()
                &&& other != entity_id && ids.contains(other) ==> crate::entity::data_of(r, other)
                    == crate::entity::data_of(s, other)
            })
            &&& e matches GameEvent::Despawn(id) ==> {
                &&& !crate::entity::entry_ids(r).contains(id)
                &&& other != id && ids.contains(other) ==> crate::entity::data_of(r, other)
                    == crate::entity::data_of(s, other)
            }
            &&& e matches GameEvent::StaticMeshLocation(id, l) ==> {
                &&& crate::entity::first_index(crate::entity::entry_ids(r), id) matches Some(k)
                &&& 0 <= k < r.len()
                &&& r[k].1 == l
                &&& other != id && ids.contains(other) ==> crate::entity::data_of(r, other)
                    == crate::entity::data_of(s, other)
            }
        }),
{
    let ids = crate::entity::entry_ids(s);
    match e {
        GameEvent::Spawn { entity_id, .. } => {
            crate::entity::law_lookup_after_insert(s, entity_id, spec_origin(), other);
            crate::entity::lemma_first_index(ids, other);
            if other != entity_id && ids.contains(other) {
                let q = crate::entity::first_index(ids, other)->0;
                assert(s.push((entity_id, spec_origin()))[q] == s[q]);
            }
        },
        GameEvent::Despawn(id) => {
            crate::entity::law_lookup_after_remove(s, id, other);
        },
        GameEvent::StaticMeshLocation(id, l) => {
            crate::entity::lemma_first_index(ids, id);
            crate::entity::lemma_first_index(ids, other);
            let r = crate::entity::with_data(s, id, l);
            assert(crate::entity::entry_ids(r) =~= ids);
            if other != id && ids.contains(other) {
                let q = crate::entity::first_index(ids, other)->0;
                let k = crate::entity::first_index(ids, id)->0;
                assert(q != k);
                assert(r[q] == s[q]);
            }
        },
        _ => {},
    }
}

/// The locations after the game events, in order.
pub open spec fn apply_mesh_events(s: Seq<(EntityId, Vec3_32)>, es: Seq<GameEvent>) -> Seq<(EntityId, Vec3_32)>
    decreases es.len(),
{
    if es.len() == 0 {
        s
    } else {
        apply_mesh_event(apply_mesh_events(s, es.drop_last()), es.last())
    }
}

/// Whether each game event can be applied to the locations left by the ones before.
pub open spec fn mesh_events_ok(s: Seq<(EntityId, Vec3_32)>, es: Seq<GameEvent>) -> bool
    decreases es.len(),
{
    if es.len() == 0 {
        true
    } else {
        mesh_events_ok(s, es.drop_last()) && mesh_event_ok(apply_mesh_events(s, es.drop_last()), es.last())
    }
}

/// The moves among the game events, as entries in order.
pub open spec fn mesh_moves(es: Seq<GameEvent>) -> Seq<(EntityId, Vec3_32)>
    decreases es.len(),
{
    if es.len() == 0 {
        Seq::empty()
    } else {
        let rest = mesh_moves(es.drop_last());
        match es.last() {
            GameEvent::StaticMeshLocation(id, l) => rest.push((id, l)),
            _ => rest,
        }
    }
}

/// The identifier changes among the game events, in order.
pub open spec fn id_changes(es: Seq<GameEvent>) -> Seq<(EntityId, EntityId)>
    decreases es.len(),
{
    if es.len() == 0 {
        Seq::empty()
    } else {
        let rest = id_changes(es.drop_last());
        match es.last() {
            GameEvent::UpdateEntityId { old_id, new_id } => rest.push((old_id, new_id)),
            _ => rest,
        }
    }
}

/// The move that a game event makes, if it moves an entity.
pub open spec fn move_of() -> spec_fn(GameEvent) -> Option<(EntityId, Vec3_32)> {
    |e: GameEvent|
        match e {
            GameEvent::StaticMeshLocation(id, l) => Some((id, l)),
            _ => None,
        }
}

/// The identifier change that a game event makes, if it renames an entity.
pub open spec fn rename_of() -> spec_fn(GameEvent) -> Option<(EntityId, EntityId)> {
    |e: GameEvent|
        match e {
            GameEvent::UpdateEntityId { old_id, new_id } => Some((old_id, new_id)),
            _ => None,
        }
}

/// What is kept of the game events for others (law): every move, as the
/// entity and where it went, and every identifier change, as the old and new
/// identifier, in order, and nothing else.
pub proof fn law_moves_and_renames(es: Seq<GameEvent>)
    ensures
        mesh_moves(es) == es.filter_map(move_of()),
        id_changes(es) == es.filter_map(rename_of()),
        forall|i: int|
            0 <= i < es.len() && (#[trigger] es[i] is StaticMeshLocation) ==> mesh_moves(es).contains(
                (es[i]->StaticMeshLocation_0, es[i]->StaticMeshLocation_1),
            ),
        forall|i: int|
            0 <= i < es.len() && (#[trigger] es[i] is UpdateEntityId) ==> id_changes(es).contains(
                (es[i]->old_id, es[i]->new_id),
            ),
        forall|j: int|
            0 <= j < mesh_moves(es).len() ==> #[trigger] crate::network::picked_from(es, move_of(), mesh_moves(es)[j]),
        forall|j: int|
            0 <= j < id_changes(es).len() ==> #[trigger] crate::network::picked_from(
                es,
                rename_of(),
                id_changes(es)[j],
            ),
    decreases es.len(),
{
    if es.len() > 0 {
        law_moves_and_renames(es.drop_last());
    }
    assert(mesh_moves(es) =~= es.filter_map(move_of()));
    assert(id_changes(es) =~= es.filter_map(rename_of()));
    crate::network::lemma_filter_map_picks(es, move_of());
    crate::network::lemma_filter_map_picks(es, rename_of());
}

/// The locations after applying the moves that came from the other update
/// loop, in order, and the moves applied: a move of an entity that is not
/// there is dropped.
pub open spec fn apply_moves(s: Seq<(EntityId, Vec3_32)>, moves: Seq<(EntityId, Vec3_32)>) -> (
    Seq<(EntityId, Vec3_32)>,
    Seq<EntityData<Vec3_32>>,
)
    decreases moves.len(),
{
    if moves.len() == 0 {
        (s, Seq::empty())
    } else {
        let (s1, applied) = apply_moves(s, moves.drop_last());
        let (id, l) = moves.last();
        if crate::entity::entry_ids(s1).contains(id) {
            (crate::entity::with_data(s1, id, l), applied.push(EntityData { entity_id: id, data: l }))
        } else {
            (s1, applied)
        }
    }
}

/// Moves of static meshes handed between the frame update and the fixed update.
pub struct SwapData {
    pub modified_entities: EntityMap<Vec3_32>,
}

impl SwapData {
    /// No moves.
    pub fn new() -> (r: Self)
        ensures
            r.modified_entities.wf(),
            r.modified_entities@ == Seq::<(EntityId, Vec3_32)>::empty(),
    {
        SwapData { modified_entities: EntityMap::new() }
    }
}

/// The frame-update side of the static mesh system.
pub struct FrameData {
    swap_data: SystemSwapData<SwapData>,
}

impl FrameData {
    /// The data shared with the fixed update.
    pub closed spec fn swap_view(&self) -> SystemSwapData<SwapData> {
        self.swap_data
    }

    /// Nothing handed over yet.
    pub fn new() -> (r: Self)
        ensures
            !r.swap_view().is_swapped(),
            r.swap_view().value().modified_entities.wf(),
            r.swap_view().value().modified_entities@ == Seq::<(EntityId, Vec3_32)>::empty(),
    {
        FrameData { swap_data: SystemSwapData::new(SwapData::new()) }
    }

    /// Applies the moves that the fixed update handed over since the last
    /// call to the locations, telling rendering of each through thread
    /// `thread_index`; then applies the frame's game events to the locations,
    /// telling rendering of renamed entities, and keeps the frame's moves for
    /// the fixed update.
    pub fn update<C>(
        &mut self,
        data: &mut DataSingle,
        events: &EventManager,
        frame_buffer: &mut FrameBufferManager<C>,
        thread_index: usize,
    )
        requires
            old(data).locations.wf(),
            old(self).swap_view().value().modified_entities.wf(),
            old(frame_buffer).wf(),
            thread_index < old(frame_buffer).thread_count(),
            mesh_events_ok(
                if old(self).swap_view().is_swapped() {
                    apply_moves(old(data).locations@, old(self).swap_view().value().modified_entities@).0
                } else {
                    old(data).locations@
                },
                events.game_events_view(),
            ),
        ensures
            ({
                let mods = old(self).swap_view().value().modified_entities@;
                let swapped = old(self).swap_view().is_swapped();
                let moved = if swapped {
                    apply_moves(old(data).locations@, mods)
                } else {
                    (old(data).locations@, Seq::<EntityData<Vec3_32>>::empty())
                };
                let g = events.game_events_view();
                &&& final(data).locations.wf()
                &&& final(data).locations@ == apply_mesh_events(moved.0, g)
                &&& final(frame_buffer).wf()
                &&& final(frame_buffer).thread_count() == old(frame_buffer).thread_count()
                &&& final(frame_buffer).locations_written() == crate::network::appended(
                    old(frame_buffer).locations_written(),
                    thread_index as int,
                    moved.1,
                )
                &&& final(frame_buffer).updated_ids_written() == crate::network::appended(
                    old(frame_buffer).updated_ids_written(),
                    thread_index as int,
                    id_changes(g),
                )
                &&& final(frame_buffer).locations_previous() == old(frame_buffer).locations_previous()
                &&& final(frame_buffer).updated_ids_previous() == old(frame_buffer).updated_ids_previous()
                &&& final(frame_buffer).spawned_view() == old(frame_buffer).spawned_view()
                &&& final(frame_buffer).despawned_view() == old(frame_buffer).despawned_view()
                &&& final(frame_buffer).camera_view() == old(frame_buffer).camera_view()
                &&& !final(self).swap_view().is_swapped()
                &&& final(self).swap_view().value().modified_entities.wf()
                &&& final(self).swap_view().value().modified_entities@ == (if swapped {
                    Seq::empty()
                } else {
                    mods
                }) + mesh_moves(g)
            }),
    {
        let ghost mods = self.swap_data.value().modified_entities@;
        proof {
            old(frame_buffer).lemma_shape();
            crate::network::lemma_appended_empty(old(frame_buffer).locations_written(), thread_index as int);
            crate::network::lemma_appended_empty(old(frame_buffer).updated_ids_written(), thread_index as int);
        }
        match self.swap_data.swapped() {
            Some(swap) => {
                let n = swap.modified_entities.len();
                let mut i: usize = 0;
                while i < n
                    invariant
                        i <= n,
                        n == mods.len(),
                        swap.modified_entities@ == mods,
                        swap.modified_entities.wf(),
                        data.locations.wf(),
                        data.locations@ == apply_moves(old(data).locations@, mods.take(i as int)).0,
                        frame_buffer.wf(),
                        thread_index < frame_buffer.thread_count(),
                        frame_buffer.thread_count() == old(frame_buffer).thread_count(),
                        old(frame_buffer).locations_written().len() == old(frame_buffer).thread_count(),
                        frame_buffer.locations_written() == crate::network::appended(
                            old(frame_buffer).locations_written(),
                            thread_index as int,
                            apply_moves(old(data).locations@, mods.take(i as int)).1,
                        ),
                        frame_buffer.updated_ids_written() == old(frame_buffer).updated_ids_written(),
                        frame_buffer.locations_previous() == old(frame_buffer).locations_previous(),
                        frame_buffer.updated_ids_previous() == old(frame_buffer).updated_ids_previous(),
                        frame_buffer.spawned_view() == old(frame_buffer).spawned_view(),
                        frame_buffer.despawned_view() == old(frame_buffer).despawned_view(),
                        frame_buffer.camera_view() == old(frame_buffer).camera_view(),
                    decreases n - i,
                {
                    let (id, l) = swap.modified_entities.entry_at(i);
                    let l = *l;
                    let ghost prev = apply_moves(old(data).locations@, mods.take(i as int));
                    assert(mods.take(i + 1).drop_last() =~= mods.take(i as int));
                    assert(mods.take(i + 1).last() == (id, l));
                    proof {
                        data.locations.lemma_position(id);
                    }
                    match data.locations.get_mut(id) {
                        Some(x) => {
                            *x = l;
                            let ghost w = old(frame_buffer).locations_written();
                            let ghost t = thread_index as int;
                            frame_buffer.push_location(thread_index, id, l);
                            assert((w[t] + prev.1).push(EntityData { entity_id: id, data: l }) =~= w[t] + prev.1.push(
                                EntityData { entity_id: id, data: l },
                            ));
                            assert(frame_buffer.locations_written() =~= crate::network::appended(
                                w,
                                t,
                                apply_moves(old(data).locations@, mods.take(i + 1)).1,
                            ));
                        },
                        None => {},
                    }
                    i = i + 1;
                }
                assert(mods.take(n as int) =~= mods);
                swap.modified_entities.clear();
            },
            None => {},
        }
        let ghost moved = (data.locations@, frame_buffer.locations_written());
        let ghost base = self.swap_data.value().modified_entities@;
        proof {
            if old(self).swap_view().is_swapped() {
                assert(base == Seq::<(EntityId, Vec3_32)>::empty());
            }
        }
        let g = events.game_events();
        let mut k: usize = 0;
        while k < g.len()
            invariant
                k <= g@.len(),
                g@ == events.game_events_view(),
                mesh_events_ok(moved.0, g@),
                data.locations.wf(),
                data.locations@ == apply_mesh_events(moved.0, g@.take(k as int)),
                !self.swap_view().is_swapped(),
                self.swap_view().value().modified_entities.wf(),
                self.swap_view().value().modified_entities@ == base + mesh_moves(g@.take(k as int)),
                frame_buffer.wf(),
                thread_index < frame_buffer.thread_count(),
                frame_buffer.thread_count() == old(frame_buffer).thread_count(),
                old(frame_buffer).updated_ids_written().len() == old(frame_buffer).thread_count(),
                frame_buffer.locations_written() == moved.1,
                frame_buffer.updated_ids_written() == crate::network::appended(
                    old(frame_buffer).updated_ids_written(),
                    thread_index as int,
                    id_changes(g@.take(k as int)),
                ),
                frame_buffer.locations_previous() == old(frame_buffer).locations_previous(),
                frame_buffer.updated_ids_previous() == old(frame_buffer).updated_ids_previous(),
                frame_buffer.spawned_view() == old(frame_buffer).spawned_view(),
                frame_buffer.despawned_view() == old(frame_buffer).despawned_view(),
                frame_buffer.camera_view() == old(frame_buffer).camera_view(),
            decreases g@.len() - k,
        {
            let ghost before = data.locations@;
            let ghost mods_before = self.swap_view().value().modified_entities@;
            let ghost ids_before = id_changes(g@.take(k as int));
            proof {
                assert(g@.take(k + 1).drop_last() =~= g@.take(k as int));
                assert(g@.take(k + 1).last() == g@[k as int]);
                lemma_mesh_events_ok_prefix(moved.0, g@, k + 1);
                assert(mesh_event_ok(before, g@[k as int]));
                data.locations.lemma_position_of(before);
            }
            match g[k] {
                GameEvent::Spawn { entity_id, .. } => {
                    data.locations.insert(entity_id, Vec3_32 { x: 0, y: 0, z: 0 });
                },
                GameEvent::Despawn(id) => {
                    data.locations.remove(id);
                },
                GameEvent::UpdateEntityId { old_id, new_id } => {
                    let l = data.locations.remove(old_id);
                    data.locations.insert(new_id, l);
                    let ghost w = old(frame_buffer).updated_ids_written();
                    let ghost t = thread_index as int;
                    frame_buffer.push_update_entity_id(thread_index, old_id, new_id);
                    assert((w[t] + ids_before).push((old_id, new_id)) =~= w[t] + ids_before.push((old_id, new_id)));
                },
                GameEvent::StaticMeshLocation(id, l) => {
                    let x = data.locations.at_mut(id);
                    *x = l;
                    let swap = self.swap_data.get_mut();
                    swap.modified_entities.insert(id, l);
                },
                _ => {},
            }
            proof {
                assert(self.swap_view().value().modified_entities@ =~= base + mesh_moves(g@.take(k + 1)));
                assert(frame_buffer.updated_ids_written() =~= crate::network::appended(
                    old(frame_buffer).updated_ids_written(),
                    thread_index as int,
                    id_changes(g@.take(k + 1)),
                ));
            }
            k = k + 1;
        }
        assert(g@.take(k as int) =~= g@);
    }
}

/// The fixed-update side of the static mesh system.
pub struct FixedData {
    swap_data: SystemSwapData<SwapData>,
}

/// The entries of the given locations, in order.
pub open spec fn as_entries(ls: Seq<EntityData<Vec3_32>>) -> Seq<(EntityId, Vec3_32)> {
    ls.map_values(|d: EntityData<Vec3_32>| (d.entity_id, d.data))
}

/// The locations of the given entries, in order.
pub open spec fn as_locations(es: Seq<(EntityId, Vec3_32)>) -> Seq<EntityData<Vec3_32>> {
    es.map_values(|e: (EntityId, Vec3_32)| EntityData { entity_id: e.0, data: e.1 })
}

impl FixedData {
    /// The data shared with the frame update.
    pub closed spec fn swap_view(&self) -> SystemSwapData<SwapData> {
        self.swap_data
    }

    /// Nothing handed over yet.
    pub fn new() -> (r: Self)
        ensures
            !r.swap_view().is_swapped(),
            r.swap_view().value().modified_entities.wf(),
            r.swap_view().value().modified_entities@ == Seq::<(EntityId, Vec3_32)>::empty(),
    {
        FixedData { swap_data: SystemSwapData::new(SwapData::new()) }
    }

    /// Hands the moves from other systems to the frame update and takes the
    /// moves made in frames.
    pub fn swap(&mut self, frame_data: &mut FrameData)
        ensures
            final(self).swap_view().value() == old(frame_data).swap_view().value(),
            final(frame_data).swap_view().value() == old(self).swap_view().value(),
            final(self).swap_view().is_swapped(),
            final(frame_data).swap_view().is_swapped(),
    {
        self.swap_data.swap(&mut frame_data.swap_data);
    }

    /// Tells the other systems, through thread `thread_index`, of the moves
    /// made in frames, then keeps the locations that the other systems wrote
    /// during the previous update as the moves to hand to the frame update.
    pub fn update(&mut self, update_buffer: &mut UpdateBuffer, thread_index: usize)
        requires
            old(self).swap_view().value().modified_entities.wf(),
            old(update_buffer).wf(),
            thread_index < old(update_buffer).thread_count(),
        ensures
            final(update_buffer).wf(),
            final(update_buffer).thread_count() == old(update_buffer).thread_count(),
            final(update_buffer).previous() == old(update_buffer).previous(),
            final(update_buffer).written() == crate::network::appended(
                old(update_buffer).written(),
                thread_index as int,
                as_locations(old(self).swap_view().value().modified_entities@),
            ),
            final(self).swap_view().is_swapped() == old(self).swap_view().is_swapped(),
            final(self).swap_view().value().modified_entities.wf(),
            final(self).swap_view().value().modified_entities@ == as_entries(old(update_buffer).previous().flatten()),
    {
        proof {
            old(update_buffer).lemma_shape();
            crate::network::lemma_appended_empty(old(update_buffer).written(), thread_index as int);
        }
        let swap = self.swap_data.get_mut();
        let ghost mods = swap.modified_entities@;
        let n = swap.modified_entities.len();
        let mut i: usize = 0;
        while i < n
            invariant
                i <= n,
                n == mods.len(),
                swap.modified_entities.wf(),
                swap.modified_entities@ == mods,
                update_buffer.wf(),
                thread_index < update_buffer.thread_count(),
                update_buffer.thread_count() == old(update_buffer).thread_count(),
                update_buffer.previous() == old(update_buffer).previous(),
                old(update_buffer).written().len() == old(update_buffer).thread_count(),
                update_buffer.written() == crate::network::appended(
                    old(update_buffer).written(),
                    thread_index as int,
                    as_locations(mods.take(i as int)),
                ),
            decreases n - i,
        {
            let (id, l) = swap.modified_entities.entry_at(i);
            let l = *l;
            let ghost w = old(update_buffer).written();
            let ghost t = thread_index as int;
            update_buffer.push_location(thread_index, id, l);
            assert(as_locations(mods.take(i + 1)) =~= as_locations(mods.take(i as int)).push(
                EntityData { entity_id: id, data: l },
            ));
            assert((w[t] + as_locations(mods.take(i as int))).push(EntityData { entity_id: id, data: l })
                =~= w[t] + as_locations(mods.take(i + 1)));
            i = i + 1;
        }
        assert(mods.take(n as int) =~= mods);
        swap.modified_entities.clear();
        let locations = update_buffer.locations();
        let mut entries: Vec<(EntityId, Vec3_32)> = Vec::new();
        let mut k: usize = 0;
        while k < locations.len()
            invariant
                k <= locations@.len(),
                entries@ == as_entries(locations@.take(k as int)),
            decreases locations@.len() - k,
        {
            entries.push((locations[k].entity_id, locations[k].data));
            assert(entries@ =~= as_entries(locations@.take(k + 1)));
            k = k + 1;
        }
        assert(locations@.take(k as int) =~= locations@);
        swap.modified_entities.extend(entries);
        assert(swap.modified_entities@ =~= as_entries(old(update_buffer).previous().flatten()));
    }
}

/// If the game events can be applied in order, so can any first part of them.
pub proof fn lemma_mesh_events_ok_prefix(s: Seq<(EntityId, Vec3_32)>, es: Seq<GameEvent>, n: int)
    requires
        0 <= n <= es.len(),
        mesh_events_ok(s, es),
    ensures
        mesh_events_ok(s, es.take(n)),
    decreases es.len() - n,
{
    if n == es.len() {
        assert(es.take(n) =~= es);
    } else {
        assert(es.drop_last().take(n) =~= es.take(n));
        lemma_mesh_events_ok_prefix(s, es.drop_last(), n);
    }
}


/// The identifiers after removing the first occurrence of `id`, the last one
/// taking its place.
pub open spec fn ids_removed(ids: Seq<EntityId>, id: EntityId) -> Seq<EntityId> {
    ids.update(crate::entity::first_index(ids, id)->0, ids.last()).drop_last()
}

/// The identifiers of the locations after game event `e`.
pub open spec fn ids_after_event(ids: Seq<EntityId>, e: GameEvent) -> Seq<EntityId> {
    match e {
        GameEvent::Spawn { entity_id, .. } => ids.push(entity_id),
        GameEvent::Despawn(id) => ids_removed(ids, id),
        GameEvent::UpdateEntityId { old_id, new_id } => ids_removed(ids, old_id).push(new_id),
        _ => ids,
    }
}

/// Whether game event `e` finds the entity it needs among `ids`.
pub open spec fn ids_event_ok(ids: Seq<EntityId>, e: GameEvent) -> bool {
    match e {
        GameEvent::Despawn(id) => ids.contains(id),
        GameEvent::UpdateEntityId { old_id, .. } => ids.contains(old_id),
        GameEvent::StaticMeshLocation(id, _) => ids.contains(id),
        _ => true,
    }
}

/// The identifiers of locations after removing an entry.
proof fn lemma_entry_ids_removed(s: Seq<(EntityId, Vec3_32)>, id: EntityId)
    requires
        crate::entity::entry_ids(s).contains(id),
    ensures
        crate::entity::entry_ids(crate::entity::removed(s, id)) == ids_removed(crate::entity::entry_ids(s), id),
{
    crate::entity::lemma_first_index(crate::entity::entry_ids(s), id);
    assert(crate::entity::entry_ids(crate::entity::removed(s, id)) =~= ids_removed(crate::entity::entry_ids(s), id));
}

/// What a game event does to the identifiers of the locations depends on the
/// identifiers alone.
proof fn lemma_ids_after_event(s: Seq<(EntityId, Vec3_32)>, e: GameEvent)
    requires
        mesh_event_ok(s, e),
    ensures
        crate::entity::entry_ids(apply_mesh_event(s, e)) == ids_after_event(crate::entity::entry_ids(s), e),
        mesh_event_ok(s, e) == ids_event_ok(crate::entity::entry_ids(s), e),
{
    let ids = crate::entity::entry_ids(s);
    match e {
        GameEvent::Spawn { entity_id, .. } => {
            assert(crate::entity::entry_ids(s.push((entity_id, spec_origin()))) =~= ids.push(entity_id));
        },
        GameEvent::Despawn(id) => {
            lemma_entry_ids_removed(s, id);
        },
        GameEvent::UpdateEntityId { old_id, new_id } => {
            lemma_entry_ids_removed(s, old_id);
            let r = crate::entity::removed(s, old_id);
            assert(crate::entity::entry_ids(r.push((new_id, crate::entity::data_of(s, old_id)))) =~= crate::entity::entry_ids(r).push(new_id));
        },
        GameEvent::StaticMeshLocation(id, l) => {
            crate::entity::lemma_first_index(ids, id);
            assert(crate::entity::entry_ids(crate::entity::with_data(s, id, l)) =~= ids);
        },
        _ => {},
    }
}

/// Applying moves keeps the identifiers of the locations.
proof fn lemma_apply_moves_ids(s: Seq<(EntityId, Vec3_32)>, moves: Seq<(EntityId, Vec3_32)>)
    ensures
        crate::entity::entry_ids(apply_moves(s, moves).0) == crate::entity::entry_ids(s),
    decreases moves.len(),
{
    if moves.len() > 0 {
        lemma_apply_moves_ids(s, moves.drop_last());
        let s1 = apply_moves(s, moves.drop_last()).0;
        let (id, l) = moves.last();
        if crate::entity::entry_ids(s1).contains(id) {
            crate::entity::lemma_first_index(crate::entity::entry_ids(s1), id);
            assert(crate::entity::entry_ids(crate::entity::with_data(s1, id, l)) =~= crate::entity::entry_ids(s1));
        }
    }
}

/// `ids` without the first occurrence of `id`, the last one taking its place.
fn remove_first(ids: &mut Vec<EntityId>, id: EntityId)
    requires
        old(ids)@.contains(id),
    ensures
        final(ids)@ == ids_removed(old(ids)@, id),
{
    proof {
        crate::entity::lemma_first_index(ids@, id);
    }
    let mut i: usize = 0;
    while i < ids.len() && ids[i] != id
        invariant
            i <= ids@.len(),
            ids@ == old(ids)@,
            old(ids)@.contains(id),
            forall|j: int| 0 <= j < i ==> ids@[j] != id,
            crate::entity::first_index(ids@, id) matches Some(k) && i <= k < ids@.len() && ids@[k] == id && forall|j: int| 0 <= j < k ==> ids@[j] != id,
        decreases ids@.len() - i,
    {
        i = i + 1;
    }
    let ghost k = crate::entity::first_index(ids@, id)->0;
    assert(i == k);
    let last = ids[ids.len() - 1];
    ids.set(i, last);
    ids.pop();
    assert(ids@ =~= ids_removed(old(ids)@, id));
}

/// Whether `id` occurs in `ids`.
fn has_id(ids: &Vec<EntityId>, id: EntityId) -> (r: bool)
    ensures
        r == ids@.contains(id),
{
    let mut i: usize = 0;
    while i < ids.len()
        invariant
            i <= ids@.len(),
            forall|j: int| 0 <= j < i ==> ids@[j] != id,
        decreases ids@.len() - i,
    {
        if ids[i] == id {
            return true;
        }
        i = i + 1;
    }
    false
}

/// Whether each game event finds the static mesh it needs, starting from the
/// locations `locations`: a despawn, a change of identifier or a move needs
/// the entity to be there.
pub fn can_apply_events(locations: &EntityMap<Vec3_32>, events: &[GameEvent]) -> (r: bool)
    requires
        locations.wf(),
    ensures
        r == mesh_events_ok(locations@, events@),
{
    let mut ids: Vec<EntityId> = Vec::new();
    let n = locations.len();
    let mut i: usize = 0;
    while i < n
        invariant
            n == locations@.len(),
            locations.wf(),
            i <= n,
            ids@ == crate::entity::entry_ids(locations@).take(i as int),
        decreases n - i,
    {
        let (id, _) = locations.entry_at(i);
        ids.push(id);
        assert(ids@ =~= crate::entity::entry_ids(locations@).take(i + 1));
        i = i + 1;
    }
    assert(ids@ =~= crate::entity::entry_ids(locations@));
    let mut j: usize = 0;
    while j < events.len()
        invariant
            j <= events@.len(),
            mesh_events_ok(locations@, events@.take(j as int)),
            ids@ == crate::entity::entry_ids(apply_mesh_events(locations@, events@.take(j as int))),
        decreases events@.len() - j,
    {
        let e = events[j];
        let ghost before = events@.take(j as int);
        let ghost st = apply_mesh_events(locations@, before);
        proof {
            assert(events@.take(j + 1).drop_last() =~= before);
            assert(events@.take(j + 1).last() == e);
            assert(mesh_event_ok(st, e) == ids_event_ok(crate::entity::entry_ids(st), e));
        }
        let ok = match e {
            GameEvent::Despawn(id) => has_id(&ids, id),
            GameEvent::UpdateEntityId { old_id, .. } => has_id(&ids, old_id),
            GameEvent::StaticMeshLocation(id, _) => has_id(&ids, id),
            _ => true,
        };
        if !ok {
            proof {
                lemma_mesh_events_ok_extends_false(locations@, events@, j as int);
            }
            return false;
        }
        proof {
            lemma_ids_after_event(st, e);
        }
        match e {
            GameEvent::Spawn { entity_id, .. } => ids.push(entity_id),
            GameEvent::Despawn(id) => remove_first(&mut ids, id),
            GameEvent::UpdateEntityId { old_id, new_id } => {
                remove_first(&mut ids, old_id);
                ids.push(new_id);
            },
            _ => {},
        }
        j = j + 1;
    }
    assert(events@.take(events@.len() as int) =~= events@);
    true
}

/// Once an event cannot be applied, no longer list of events can be.
proof fn lemma_mesh_events_ok_extends_false(s: Seq<(EntityId, Vec3_32)>, es: Seq<GameEvent>, j: int)
    requires
        0 <= j < es.len(),
        mesh_events_ok(s, es.take(j)),
        !mesh_event_ok(apply_mesh_events(s, es.take(j)), es[j]),
    ensures
        !mesh_events_ok(s, es),
    decreases es.len(),
{
    if j < es.len() - 1 {
        assert(es.drop_last().take(j) =~= es.take(j));
        lemma_mesh_events_ok_extends_false(s, es.drop_last(), j);
    } else {
        assert(es.drop_last() =~= es.take(j));
    }
}

/// Whether the events can be applied depends on the identifiers alone.
proof fn lemma_mesh_events_ok_ids(s1: Seq<(EntityId, Vec3_32)>, s2: Seq<(EntityId, Vec3_32)>, es: Seq<GameEvent>)
    requires
        crate::entity::entry_ids(s1) == crate::entity::entry_ids(s2),
    ensures
        mesh_events_ok(s1, es) == mesh_events_ok(s2, es),
        mesh_events_ok(s1, es) ==> crate::entity::entry_ids(apply_mesh_events(s1, es)) == crate::entity::entry_ids(
            apply_mesh_events(s2, es),
        ),
    decreases es.len(),
{
    if es.len() > 0 {
        lemma_mesh_events_ok_ids(s1, s2, es.drop_last());
        if mesh_events_ok(s1, es.drop_last()) {
            let a = apply_mesh_events(s1, es.drop_last());
            let b = apply_mesh_events(s2, es.drop_last());
            if mesh_event_ok(a, es.last()) {
                lemma_ids_after_event(a, es.last());
                lemma_ids_after_event(b, es.last());
            }
        }
    }
}

impl FrameData {
    /// Whether `update` can apply the frame's game events to `data`: each
    /// finds the static mesh it needs once the handed-over moves are applied.
    pub fn can_update(&self, data: &DataSingle, events: &EventManager) -> (r: bool)
        requires
            data.locations.wf(),
            events.wf(),
        ensures
            r == mesh_events_ok(
                if self.swap_view().is_swapped() {
                    apply_moves(data.locations@, self.swap_view().value().modified_entities@).0
                } else {
                    data.locations@
                },
                events.game_events_view(),
            ),
    {
        let g = events.game_events();
        proof {
            lemma_apply_moves_ids(data.locations@, self.swap_view().value().modified_entities@);
            lemma_mesh_events_ok_ids(
                data.locations@,
                apply_moves(data.locations@, self.swap_view().value().modified_entities@).0,
                events.game_events_view(),
            );
        }
        can_apply_events(&data.locations, g)
    }
}

} // verus!
