use park_engine::entity::EntityId;
use park_engine::world::World;

#[test]
fn spawn_hands_out_counter_values_from_one() {
    let mut w = World::new();
    assert_eq!(w.spawn().get(), 1);
    assert_eq!(w.spawn().get(), 2);
    assert!(w.contains(EntityId::new(1)));
    assert!(w.contains(EntityId::new(2)));
    assert!(!w.contains(EntityId::new(3)));
}

#[test]
fn despawn_then_spawn_reuses_identifier() {
    let mut w = World::new();
    let a = w.spawn();
    let _b = w.spawn();
    w.despawn(a);
    assert!(!w.contains(a));
    assert_eq!(w.spawn(), a);
    assert_eq!(w.spawn().get(), 3);
}

#[test]
fn most_recently_despawned_is_reused_first() {
    let mut w = World::new();
    let a = w.spawn();
    let b = w.spawn();
    w.despawn(a);
    w.despawn(b);
    assert_eq!(w.spawn(), b);
    assert_eq!(w.spawn(), a);
}

#[test]
fn remote_spawn_moves_counter_past_identifier() {
    let mut w = World::new();
    assert!(w.can_remote_spawn(EntityId::new(10)));
    w.remote_spawn(EntityId::new(10));
    assert!(w.contains(EntityId::new(10)));
    assert_eq!(w.spawn().get(), 11);
}

#[test]
fn remote_spawn_of_top_identifier_is_refused() {
    let w = World::new();
    assert!(!w.can_remote_spawn(EntityId::max()));
}

#[test]
fn local_to_replicable_replaces_identifier() {
    let mut w = World::new();
    let local = w.spawn();
    assert!(w.can_replace(local, EntityId::new(7)));
    w.local_to_replicable(local, EntityId::new(7));
    assert!(!w.contains(local));
    assert!(w.contains(EntityId::new(7)));
    assert_eq!(w.spawn(), local);
}

#[test]
fn can_spawn_on_a_new_world() {
    let w = World::new();
    assert!(w.can_spawn());
}

#[test]
fn default_world_starts_at_one() {
    let mut w = World::default();
    assert_eq!(w.spawn().get(), 1);
}

#[test]
fn spawn_then_despawn_gives_world_back() {
    let mut w = World::new();
    let a = w.spawn();
    let b = w.spawn();
    w.despawn(a);
    let c = w.spawn();
    assert_eq!(c, a);
    w.despawn(c);
    assert!(!w.contains(a));
    assert!(w.contains(b));
    assert_eq!(w.spawn(), a);
    assert_eq!(w.spawn().get(), 3);
}

#[test]
fn live_entities_follow_spawn_and_despawn_history() {
    let mut w = World::new();
    let a = w.spawn();
    let b = w.spawn();
    let c = w.spawn();
    w.despawn(b);
    w.despawn(a);
    assert!(!w.contains(a) && !w.contains(b) && w.contains(c));
    assert_eq!(w.spawn(), a);
    assert_eq!(w.spawn(), b);
    assert_eq!(w.spawn().get(), 4);
}
