use park_engine::entity::EntityId;
use park_engine::event::{EventManager, GameEvent, SystemGameEvent};
use park_engine::network::{server_addr, Client, Delivery, NetAddr, Outgoing, Server, ServerFrameData, SocketEvent};
use park_engine::packet::{ClientSpawn, Heartbeat, Location, PacketRef, Vec3_32};
use park_engine::update_buffer::UpdateBuffer;

fn addr(port: u16) -> NetAddr {
    NetAddr { ip: 0x7f00_0001, port, v6: false, flowinfo: 0, scope_id: 0 }
}

fn summary(out: &[Outgoing]) -> Vec<(u16, Vec<u8>, Delivery)> {
    out.iter().map(|o| (o.addr.port, o.payload.clone(), o.delivery)).collect()
}

#[test]
fn server_address_is_local_port_12351() {
    let a = server_addr();
    assert_eq!(a.ip, 0x7f00_0001);
    assert_eq!(a.port, 12351);
    assert!(!a.v6);
}

#[test]
fn unknown_peer_gets_handshake() {
    let mut s = Server::new();
    let mut u = UpdateBuffer::new(1);
    let mut out = Vec::new();
    s.recv(addr(4000), PacketRef::Heartbeat(Heartbeat), &mut u, 0, &mut out);
    assert_eq!(summary(&out), vec![(4000, vec![2], Delivery::ReliableUnordered)]);
}

#[test]
fn connected_peer_location_is_relayed_to_others() {
    let mut s = Server::new();
    s.connect(addr(4000));
    s.connect(addr(4001));
    assert!(s.is_connected(addr(4000)));
    let mut u = UpdateBuffer::new(1);
    let mut out = Vec::new();
    let l = Location { entity_id: EntityId::new(2), location: Vec3_32 { x: 1, y: 2, z: 3 } };
    s.recv(addr(4000), PacketRef::Location(l), &mut u, 0, &mut out);
    let bytes = PacketRef::Location(l).serialize();
    assert_eq!(summary(&out), vec![(4001, bytes, Delivery::UnreliableSequenced)]);
    u.swap_buffers();
    assert_eq!(u.locations().len(), 1);
}

#[test]
fn disconnect_drops_client() {
    let mut s = Server::new();
    s.connect(addr(4000));
    s.disconnect(addr(4000));
    assert!(!s.is_connected(addr(4000)));
}

#[test]
fn server_heartbeat_goes_to_every_client() {
    let mut s = Server::new();
    s.connect(addr(1));
    s.connect(addr(2));
    let mut out = Vec::new();
    s.heartbeat(&mut out);
    assert_eq!(
        summary(&out),
        vec![(1, vec![3], Delivery::ReliableOrdered), (2, vec![3], Delivery::ReliableOrdered)]
    );
}

#[test]
fn client_spawn_request_takes_a_spawn_number() {
    let mut s = Server::new();
    s.connect(addr(4000));
    assert!(s.can_allocate_spawn_id());
    let mut u = UpdateBuffer::new(1);
    let mut out = Vec::new();
    s.recv(addr(4000), PacketRef::ClientSpawn(ClientSpawn { entity_id: EntityId::new(5) }), &mut u, 0, &mut out);
    assert!(out.is_empty());
}

#[test]
fn client_heartbeat_goes_to_server() {
    let c = Client::new();
    let h = c.heartbeat();
    assert_eq!(h.addr, server_addr());
    assert_eq!(h.payload, vec![3]);
    assert_eq!(h.delivery, Delivery::ReliableUnordered);
}

#[test]
fn client_update_ends_with_heartbeat() {
    let mut c = Client::new();
    let mut u = UpdateBuffer::new(1);
    let out = c.update(&mut u, 0, &[SocketEvent::Connect(server_addr())]);
    let last = out.last().unwrap();
    assert_eq!(last.payload, vec![3]);
}

#[test]
fn spawn_ack_goes_to_requesting_client_and_spawn_to_others() {
    let mut s = Server::new();
    s.connect(addr(1));
    s.connect(addr(2));
    let mut u = UpdateBuffer::new(1);
    let mut out = Vec::new();
    s.recv(addr(1), PacketRef::ClientSpawn(ClientSpawn { entity_id: EntityId::new(5) }), &mut u, 0, &mut out);
    let mut frame = ServerFrameData::new();
    s.swap(&mut frame);
    let mut events = EventManager::new(1);
    events.push_game_event(GameEvent::NetworkClientSpawnAck { spawn_id: 0, entity_id: EntityId::new(9) });
    frame.update(&mut events, 0);
    s.swap(&mut frame);
    let mut out = Vec::new();
    s.update_swap(&mut out);
    assert_eq!(
        summary(&out),
        vec![
            (1, vec![1, 5, 0, 0, 0, 9, 0, 0, 0], Delivery::ReliableOrdered),
            (2, vec![5, 9, 0, 0, 0], Delivery::ReliableOrdered),
        ]
    );
    events.swap();
    assert_eq!(events.system_game_events(), vec![SystemGameEvent::NetworkClientSpawn(0)]);
}
