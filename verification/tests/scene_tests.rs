use park_engine::entity::{EntityId, EntityMap};
use park_engine::scene::{remove_despawned, rename_entities, set_transforms, update_scene, update_scene_keyed, SceneError};

fn id(v: u32) -> EntityId {
    EntityId::new(v)
}

#[test]
fn despawned_meshes_are_removed_and_returned() {
    let mut m = EntityMap::new();
    m.insert(id(1), "a");
    m.insert(id(2), "b");
    m.insert(id(3), "c");
    let released = remove_despawned(&mut m, &[id(1), id(3)]).ok().unwrap();
    assert_eq!(released, vec!["a", "c"]);
    assert_eq!(m.values(), &["b"]);
}

#[test]
fn despawn_of_missing_mesh_is_reported() {
    let mut m = EntityMap::new();
    m.insert(id(1), 1u8);
    assert_eq!(remove_despawned(&mut m, &[id(1), id(1)]).err(), Some(1));
    assert_eq!(m.len(), 0);
}

#[test]
fn renamed_meshes_keep_their_data() {
    let mut m = EntityMap::new();
    m.insert(id(1), 10u8);
    m.insert(id(2), 20u8);
    assert_eq!(rename_entities(&mut m, &[(id(1), id(7))]), Ok(()));
    assert_eq!(m.get(id(7)), Some(&10));
    assert_eq!(m.get(id(1)), None);
    assert_eq!(rename_entities(&mut m, &[(id(9), id(8))]), Err(0));
}

#[test]
fn moved_meshes_keep_their_buffers() {
    let mut m = EntityMap::new();
    m.insert(id(1), ("buffer one", 0u32));
    m.insert(id(2), ("buffer two", 0u32));
    assert_eq!(set_transforms(&mut m, &[(id(2), 5), (id(1), 6), (id(2), 7)]), Ok(()));
    assert_eq!(m.get(id(1)), Some(&("buffer one", 6)));
    assert_eq!(m.get(id(2)), Some(&("buffer two", 7)));
    assert_eq!(set_transforms(&mut m, &[(id(1), 8), (id(3), 9)]), Err(1));
    assert_eq!(m.get(id(1)), Some(&("buffer one", 8)));
}

#[test]
fn scene_update_runs_steps_in_order() {
    let mut m = EntityMap::new();
    m.insert(id(1), ("a", 0u32));
    m.insert(id(2), ("b", 0u32));
    let released = update_scene(
        &mut m,
        &[id(1)],
        &[(id(2), id(20))],
        vec![(id(3), ("c", 0u32))],
        &[(id(3), 7), (id(20), 9)],
    )
    .ok()
    .unwrap();
    assert_eq!(released, vec![("a", 0u32)]);
    assert_eq!(m.get(id(20)), Some(&("b", 9)));
    assert_eq!(m.get(id(3)), Some(&("c", 7)));
    assert_eq!(m.len(), 2);
    let mut m2: EntityMap<(&str, u32)> = EntityMap::new();
    assert_eq!(update_scene(&mut m2, &[], &[], vec![], &[(id(4), 1)]).err(), Some(SceneError::Moved(0)));
    assert_eq!(update_scene(&mut m2, &[], &[(id(4), id(5))], vec![], &[]).err(), Some(SceneError::Renamed(0)));
    assert_eq!(update_scene(&mut m2, &[id(4)], &[], vec![], &[]).err(), Some(SceneError::Despawned(0)));
}

#[test]
fn keyed_scene_update_ignores_unknown_entities() {
    let mut m = EntityMap::new();
    m.insert(id(1), ("a", 0u32));
    m.insert(id(2), ("b", 0u32));
    let r = update_scene_keyed(
        &mut m,
        &[(id(2), id(20))],
        &[id(1), id(9)],
        vec![(id(20), ("c", 1u32)), (id(3), ("d", 2u32))],
        &[(id(3), 7), (id(8), 9)],
    );
    assert_eq!(r, Ok(()));
    assert_eq!(m.get(id(1)), None);
    assert_eq!(m.get(id(20)), Some(&("c", 1)));
    assert_eq!(m.get(id(3)), Some(&("d", 7)));
    assert_eq!(m.len(), 2);
    assert_eq!(update_scene_keyed(&mut m, &[(id(9), id(10))], &[], vec![], &[]), Err(0));
}
