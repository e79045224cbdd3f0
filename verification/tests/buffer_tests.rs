use park_engine::entity::EntityId;
use park_engine::event::{EventManager, FrameEvent, GameEvent, SystemGameEvent};
use park_engine::frame_buffer::{EntityData, FrameBufferManager};
use park_engine::input::InputState;
use park_engine::packet::Vec3_32;
use park_engine::swap_data::SystemSwapData;
use park_engine::thread_buffers::ThreadBuffers;
use park_engine::update_buffer::UpdateBuffer;

#[test]
fn swapped_reports_once_after_swap() {
    let mut a = SystemSwapData::new(1u32);
    let mut b = SystemSwapData::new(2u32);
    assert!(a.swapped().is_none());
    a.swap(&mut b);
    assert_eq!(*a.get(), 2);
    assert_eq!(*b.get(), 1);
    assert_eq!(a.swapped().map(|v| *v), Some(2));
    assert!(a.swapped().is_none());
    assert_eq!(b.swapped().map(|v| *v), Some(1));
}

#[test]
fn swapping_twice_restores_data() {
    let mut a = SystemSwapData::new(vec![1u8]);
    let mut b = SystemSwapData::new(vec![2u8]);
    a.swap(&mut b);
    a.swap(&mut b);
    assert_eq!(a.get(), &vec![1u8]);
    assert_eq!(b.get(), &vec![2u8]);
}

#[test]
fn input_state_reports_write_once() {
    let mut s = InputState::new(false);
    assert_eq!(s.updated(), None);
    *s.get_mut() = true;
    assert_eq!(s.updated(), Some(&true));
    assert_eq!(s.updated(), None);
    assert!(*s.get());
}

#[test]
fn thread_buffers_read_what_was_written_before_swap() {
    let mut b: ThreadBuffers<u32> = ThreadBuffers::new(2);
    b.push(1, 10);
    b.push(0, 20);
    b.push(1, 11);
    assert!(b.read().is_empty());
    b.swap();
    assert_eq!(b.read(), vec![20, 10, 11]);
    b.push(0, 30);
    b.swap();
    assert_eq!(b.read(), vec![30]);
    b.swap();
    assert!(b.read().is_empty());
}

#[test]
fn event_manager_frame_events_come_a_frame_later() {
    let mut e = EventManager::new(2);
    let id = EntityId::new(3);
    e.push_frame_event(1, FrameEvent::Location(id));
    e.push_game_event(GameEvent::Despawn(id));
    e.push_system_game_event(0, SystemGameEvent::NetworkDespawn(id));
    assert_eq!(e.game_events(), &[GameEvent::Despawn(id)]);
    assert!(e.frame_events().is_empty());
    e.swap();
    assert_eq!(e.frame_events(), vec![FrameEvent::Location(id)]);
    assert_eq!(e.system_game_events(), vec![SystemGameEvent::NetworkDespawn(id)]);
    assert!(e.game_events().is_empty());
}

#[test]
fn update_buffer_locations_after_swap() {
    let mut u = UpdateBuffer::new(1);
    let l = Vec3_32 { x: 1, y: 2, z: 3 };
    u.push_location(0, EntityId::new(4), l);
    assert!(u.locations().is_empty());
    u.swap_buffers();
    assert_eq!(u.locations(), vec![EntityData::new(EntityId::new(4), l)]);
}

#[test]
fn frame_buffer_clears_per_frame_lists_on_swap() {
    let mut f = FrameBufferManager::new(1, 5u8);
    f.despawn(EntityId::new(2));
    f.spawn_guest(EntityId::new(3));
    f.push_location(0, EntityId::new(2), Vec3_32 { x: 0, y: 0, z: 0 });
    f.push_update_entity_id(0, EntityId::new(2), EntityId::new(9));
    assert_eq!(f.despawned(), &[EntityId::new(2)]);
    assert_eq!(f.spawned_guests(), &[EntityId::new(3)]);
    f.swap();
    assert!(f.despawned().is_empty());
    assert!(f.spawned_guests().is_empty());
    assert_eq!(f.locations().len(), 1);
    assert_eq!(f.updated_entity_ids(), vec![(EntityId::new(2), EntityId::new(9))]);
    assert_eq!(*f.camera_info(), 5u8);
    f.set_camera_info(6);
    assert_eq!(*f.camera_info(), 6u8);
}
