use park_engine::controller::{FrameCommand, GameController, PhysicsInterface, UpdateError};
use park_engine::entity::EntityId;
use park_engine::event::{GameEvent, InputEvent, SystemGameEvent};
use park_engine::network::NetworkRole;
use park_engine::packet::Vec3_32;

fn id(v: u32) -> EntityId {
    EntityId::new(v)
}

fn spawned_mesh(c: &FrameCommand) -> Option<(u32, String)> {
    match c {
        FrameCommand::SpawnStaticMesh(m) => Some((m.entity_id.get(), m.resource.name().to_string())),
        _ => None,
    }
}

#[test]
fn new_controller_is_offline_and_idle() {
    let c = GameController::new(PhysicsInterface::new());
    assert_eq!(c.network_role(), NetworkRole::Offline);
    assert_eq!(c.placing_object(), None);
}

#[test]
fn spawn_then_click_places_entity() {
    let mut c = GameController::new(PhysicsInterface::new());
    let mut events = Vec::new();
    let mut frame = Vec::new();
    let hit = Vec3_32 { x: 1, y: 2, z: 3 };
    let r = c.handle_input_events(&[InputEvent::Spawn], Some(hit), &mut events, &mut frame);
    assert_eq!(r, Ok(()));
    assert_eq!(events, vec![GameEvent::Spawn { entity_id: id(1), replicate: true }]);
    assert_eq!(spawned_mesh(&frame[0]), Some((1, "sphere".to_string())));
    assert_eq!(c.placing_object(), Some(id(1)));
    let r = c.handle_input_events(&[InputEvent::MouseButton(true)], Some(hit), &mut events, &mut frame);
    assert_eq!(r, Ok(()));
    assert_eq!(events[1], GameEvent::StaticMeshLocation(id(1), hit));
    assert!(matches!(frame[1], FrameCommand::PushLocation(e, l) if e == id(1) && l == hit));
    assert_eq!(c.placing_object(), None);
}

#[test]
fn second_spawn_while_placing_is_ignored() {
    let mut c = GameController::new(PhysicsInterface::new());
    let mut events = Vec::new();
    let mut frame = Vec::new();
    let r = c.handle_input_events(&[InputEvent::Spawn, InputEvent::Spawn], None, &mut events, &mut frame);
    assert_eq!(r, Ok(()));
    assert_eq!(events.len(), 1);
    assert_eq!(frame.len(), 1);
}

#[test]
fn click_without_hit_drops_placement() {
    let mut c = GameController::new(PhysicsInterface::new());
    let mut events = Vec::new();
    let mut frame = Vec::new();
    let r = c.handle_input_events(&[InputEvent::Spawn, InputEvent::MouseButton(true)], None, &mut events, &mut frame);
    assert_eq!(r, Ok(()));
    assert_eq!(events.len(), 1);
    assert_eq!(c.placing_object(), None);
}

#[test]
fn server_keys_switch_role() {
    let mut c = GameController::new(PhysicsInterface::new());
    let mut events = Vec::new();
    let mut frame = Vec::new();
    c.handle_input_events(&[InputEvent::ServerBegin], None, &mut events, &mut frame).unwrap();
    assert_eq!(c.network_role(), NetworkRole::Server);
    c.handle_input_events(&[InputEvent::ServerConnect], None, &mut events, &mut frame).unwrap();
    assert_eq!(c.network_role(), NetworkRole::Client);
    c.handle_input_events(&[InputEvent::ServerDisconnect], None, &mut events, &mut frame).unwrap();
    assert_eq!(c.network_role(), NetworkRole::Offline);
    assert_eq!(
        events,
        vec![GameEvent::NetworkRoleServer, GameEvent::NetworkRoleClient, GameEvent::NetworkRoleOffline]
    );
    assert!(frame.is_empty());
}

#[test]
fn client_spawns_no_guest() {
    let mut c = GameController::new(PhysicsInterface::new());
    let mut events = Vec::new();
    let mut frame = Vec::new();
    c.handle_input_events(&[InputEvent::ServerConnect, InputEvent::SpawnGuest], None, &mut events, &mut frame)
        .unwrap();
    assert_eq!(events, vec![GameEvent::NetworkRoleClient]);
    let mut c = GameController::new(PhysicsInterface::new());
    let mut events = Vec::new();
    let mut frame = Vec::new();
    c.handle_input_events(&[InputEvent::SpawnGuest], None, &mut events, &mut frame).unwrap();
    assert_eq!(events, vec![GameEvent::SpawnGuest { entity_id: id(1), replicate: true }]);
    assert!(matches!(frame[0], FrameCommand::SpawnGuest(e) if e == id(1)));
}

#[test]
fn network_spawn_and_despawn() {
    let mut c = GameController::new(PhysicsInterface::new());
    let mut events = Vec::new();
    let mut frame = Vec::new();
    let r = c.handle_system_game_events(
        &[SystemGameEvent::NetworkSpawn(id(4)), SystemGameEvent::NetworkDespawn(id(4))],
        &mut events,
        &mut frame,
    );
    assert_eq!(r, Ok(()));
    assert_eq!(events, vec![GameEvent::Spawn { entity_id: id(4), replicate: false }, GameEvent::Despawn(id(4))]);
    assert_eq!(spawned_mesh(&frame[0]), Some((4, "sphere".to_string())));
    assert!(matches!(frame[1], FrameCommand::Despawn(e) if e == id(4)));
}

#[test]
fn despawn_of_unknown_entity_is_reported() {
    let mut c = GameController::new(PhysicsInterface::new());
    let mut events = Vec::new();
    let mut frame = Vec::new();
    let r = c.handle_system_game_events(
        &[SystemGameEvent::NetworkSpawn(id(2)), SystemGameEvent::NetworkDespawn(id(3))],
        &mut events,
        &mut frame,
    );
    assert_eq!(r, Err(1));
    assert_eq!(events.len(), 1);
}

#[test]
fn client_spawn_request_is_spawned_and_acknowledged() {
    let mut c = GameController::new(PhysicsInterface::new());
    let mut events = Vec::new();
    let mut frame = Vec::new();
    c.handle_system_game_events(&[SystemGameEvent::NetworkClientSpawn(9)], &mut events, &mut frame).unwrap();
    assert_eq!(
        events,
        vec![
            GameEvent::Spawn { entity_id: id(1), replicate: false },
            GameEvent::NetworkClientSpawnAck { spawn_id: 9, entity_id: id(1) },
        ]
    );
    assert_eq!(spawned_mesh(&frame[0]), Some((1, "sphere".to_string())));
}

#[test]
fn spawn_ack_renames_entity_being_placed() {
    let mut c = GameController::new(PhysicsInterface::new());
    let mut events = Vec::new();
    let mut frame = Vec::new();
    c.handle_input_events(&[InputEvent::ServerConnect, InputEvent::Spawn], None, &mut events, &mut frame).unwrap();
    assert_eq!(c.placing_object(), Some(id(1)));
    c.handle_system_game_events(
        &[SystemGameEvent::NetworkClientSpawnAck { client_id: id(1), replicable_id: id(20) }],
        &mut events,
        &mut frame,
    )
    .unwrap();
    assert_eq!(c.placing_object(), Some(id(20)));
    assert_eq!(events.last(), Some(&GameEvent::UpdateEntityId { old_id: id(1), new_id: id(20) }));
    assert!(matches!(frame.last(), Some(FrameCommand::UpdateEntityId(a, b)) if *a == id(1) && *b == id(20)));
}

#[test]
fn update_moves_placed_entity_to_cursor() {
    let mut c = GameController::new(PhysicsInterface::new());
    let mut events = Vec::new();
    let mut frame = Vec::new();
    let hit = Vec3_32 { x: 7, y: 8, z: 9 };
    let r = c.update(&[], &[InputEvent::Spawn], Some(hit), &mut events, &mut frame);
    assert_eq!(r, Ok(()));
    assert_eq!(
        events,
        vec![GameEvent::Spawn { entity_id: id(1), replicate: true }, GameEvent::StaticMeshLocation(id(1), hit)]
    );
    assert_eq!(frame.len(), 2);
}

#[test]
fn update_reports_failing_system_event() {
    let mut c = GameController::new(PhysicsInterface::new());
    let mut events = Vec::new();
    let mut frame = Vec::new();
    let r = c.update(&[SystemGameEvent::NetworkDespawn(id(1))], &[InputEvent::Spawn], None, &mut events, &mut frame);
    assert_eq!(r, Err(UpdateError::SystemEvent(0)));
    assert!(events.is_empty());
}

#[test]
fn update_reports_spawn_when_identifiers_run_out() {
    let mut c = GameController::new(PhysicsInterface::new());
    let mut events = Vec::new();
    let mut frame = Vec::new();
    let top = EntityId::new(u32::MAX - 1);
    let r = c.update(&[SystemGameEvent::NetworkSpawn(top)], &[InputEvent::Spawn], None, &mut events, &mut frame);
    assert_eq!(r, Err(UpdateError::InputEvent(0)));
    assert_eq!(events, vec![GameEvent::Spawn { entity_id: top, replicate: false }]);
}
