use park_engine::entity::{EntityId, EntityMap};
use park_engine::event::{EventManager, GameEvent};
use park_engine::frame_buffer::FrameBufferManager;
use park_engine::packet::Vec3_32;
use park_engine::resources::{Mesh, MeshError, PrimitiveData, ResourceManager};
use park_engine::static_mesh::{can_apply_events, DataSingle, FixedData, FrameData};
use park_engine::update_buffer::UpdateBuffer;

fn id(v: u32) -> EntityId {
    EntityId::new(v)
}

#[test]
fn resource_keeps_its_name() {
    let mut m = ResourceManager::new();
    assert_eq!(m.resource("sphere".to_string()).name(), "sphere");
}

#[test]
fn mesh_indices_narrow_to_sixteen_bits() {
    let p = vec![Vec3_32 { x: 1, y: 2, z: 3 }];
    let prim = |ix: Vec<u32>| PrimitiveData { indices: Some(ix), positions: Some(p.clone()), normals: Some(p.clone()) };
    let m = Mesh::from_primitive_data(prim(vec![0, 1, 65535])).ok().unwrap();
    assert_eq!(m.vertex_indices, vec![0u16, 1, 65535]);
    assert_eq!(m.vertex_positions, p);
    let e = Mesh::from_primitive_data(prim(vec![0, 65536, 70000])).err().unwrap();
    assert_eq!(e, MeshError::IndexTooLarge(1));
}

#[test]
fn last_primitive_wins_and_missing_attributes_fail() {
    let p = vec![Vec3_32 { x: 1, y: 2, z: 3 }];
    let full = |ix: Vec<u32>| PrimitiveData { indices: Some(ix), positions: Some(p.clone()), normals: Some(p.clone()) };
    let m = Mesh::from_primitives(vec![full(vec![1]), full(vec![2, 3])]).ok().unwrap();
    assert_eq!(m.vertex_indices, vec![2u16, 3]);
    let m = Mesh::from_primitives(vec![]).ok().unwrap();
    assert!(m.vertex_indices.is_empty() && m.vertex_positions.is_empty());
    let no_ix = PrimitiveData { indices: None, positions: Some(p.clone()), normals: Some(p.clone()) };
    assert_eq!(Mesh::from_primitives(vec![full(vec![1]), no_ix]).err(), Some(MeshError::MissingIndices));
    let no_pos = PrimitiveData { indices: Some(vec![70000]), positions: None, normals: None };
    assert_eq!(Mesh::from_primitives(vec![no_pos]).err(), Some(MeshError::IndexTooLarge(0)));
    let no_pos = PrimitiveData { indices: Some(vec![1]), positions: None, normals: None };
    assert_eq!(Mesh::from_primitives(vec![no_pos, full(vec![1])]).err(), Some(MeshError::MissingPositions));
    let no_norm = PrimitiveData { indices: Some(vec![1]), positions: Some(p.clone()), normals: None };
    assert_eq!(Mesh::from_primitives(vec![no_norm]).err(), Some(MeshError::MissingNormals));
}

#[test]
fn events_need_existing_meshes() {
    let mut locations = EntityMap::new();
    locations.insert(id(1), Vec3_32 { x: 0, y: 0, z: 0 });
    let ok = [GameEvent::Spawn { entity_id: id(2), replicate: true }, GameEvent::Despawn(id(2))];
    assert!(can_apply_events(&locations, &ok));
    let bad = [GameEvent::Despawn(id(1)), GameEvent::StaticMeshLocation(id(1), Vec3_32 { x: 0, y: 0, z: 0 })];
    assert!(!can_apply_events(&locations, &bad));
    let renamed = [GameEvent::UpdateEntityId { old_id: id(1), new_id: id(5) }, GameEvent::Despawn(id(5))];
    assert!(can_apply_events(&locations, &renamed));
}

#[test]
fn frame_update_applies_game_events_to_locations() {
    let mut data = DataSingle::new();
    let mut frame = FrameData::new();
    let mut events = EventManager::new(1);
    let mut fb = FrameBufferManager::new(1, ());
    let l = Vec3_32 { x: 9, y: 8, z: 7 };
    events.push_game_event(GameEvent::Spawn { entity_id: id(3), replicate: true });
    events.push_game_event(GameEvent::StaticMeshLocation(id(3), l));
    assert!(frame.can_update(&data, &events));
    frame.update(&mut data, &events, &mut fb, 0);
    assert_eq!(data.location(id(3)), Some(l));

    let mut fixed = FixedData::new();
    fixed.swap(&mut frame);
    let mut u = UpdateBuffer::new(1);
    fixed.update(&mut u, 0);
    u.swap_buffers();
    assert_eq!(u.locations().len(), 1);
    assert_eq!(u.locations()[0].data, l);
}
