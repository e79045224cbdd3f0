use park_engine::entity::EntityId;
use park_engine::packet::{
    ClientSpawn, ClientSpawnAck, Connect, Heartbeat, Location, PacketRef, PacketType, Spawn, Vec3_32,
};

#[test]
fn packet_type_tags_follow_declaration_order() {
    assert_eq!(PacketType::ClientSpawn.tag(), 0);
    assert_eq!(PacketType::ClientSpawnAck.tag(), 1);
    assert_eq!(PacketType::Connect.tag(), 2);
    assert_eq!(PacketType::Heartbeat.tag(), 3);
    assert_eq!(PacketType::Location.tag(), 4);
    assert_eq!(PacketType::Spawn.tag(), 5);
}

#[test]
fn serialize_writes_tag_then_little_endian_fields() {
    let p = ClientSpawn { entity_id: EntityId::new(0x0403_0201) };
    assert_eq!(p.serialize(), [0, 1, 2, 3, 4]);
    let p = ClientSpawnAck { client_id: EntityId::new(1), server_id: EntityId::new(256) };
    assert_eq!(p.serialize(), [1, 1, 0, 0, 0, 0, 1, 0, 0]);
    assert_eq!(Connect.serialize(), [2]);
    assert_eq!(Heartbeat.serialize(), [3]);
    let l = Location { entity_id: EntityId::new(2), location: Vec3_32 { x: 1, y: 0x0100, z: 0xff00_0000 } };
    assert_eq!(l.serialize(), [4, 2, 0, 0, 0, 1, 0, 0, 0, 0, 1, 0, 0, 0, 0, 0, 0xff]);
    assert_eq!(Spawn { entity_id: EntityId::new(9) }.serialize(), [5, 9, 0, 0, 0]);
}

#[test]
fn decode_of_encode_gives_packet_back() {
    let packets = [
        PacketRef::ClientSpawn(ClientSpawn { entity_id: EntityId::new(17) }),
        PacketRef::ClientSpawnAck(ClientSpawnAck { client_id: EntityId::new(3), server_id: EntityId::new(70000) }),
        PacketRef::Connect(Connect),
        PacketRef::Heartbeat(Heartbeat),
        PacketRef::Location(Location {
            entity_id: EntityId::new(5),
            location: Vec3_32 { x: 0x3f80_0000, y: 7, z: 0xdead_beef },
        }),
        PacketRef::Spawn(Spawn { entity_id: EntityId::max() }),
    ];
    for p in packets {
        assert_eq!(PacketRef::from_bytes(&p.serialize()), Some(p));
    }
}

#[test]
fn malformed_bytes_decode_to_nothing() {
    assert_eq!(PacketRef::from_bytes(&[]), None);
    assert_eq!(PacketRef::from_bytes(&[6]), None);
    assert_eq!(PacketRef::from_bytes(&[2, 0]), None);
    assert_eq!(PacketRef::from_bytes(&[5, 1, 0, 0]), None);
    assert_eq!(PacketRef::from_bytes(&[5, 0, 0, 0, 0]), None);
}

#[test]
fn encode_of_decode_gives_bytes_back() {
    let bytes = [1u8, 9, 0, 0, 0, 10, 0, 0, 0];
    let p = PacketRef::from_bytes(&bytes).unwrap();
    assert_eq!(p.serialize(), bytes.to_vec());
}

#[test]
fn vec3_bytes_roundtrip() {
    let v = Vec3_32 { x: 0x0102_0304, y: 0, z: u32::MAX };
    let b = v.to_le_bytes();
    assert_eq!(b, [4, 3, 2, 1, 0, 0, 0, 0, 0xff, 0xff, 0xff, 0xff]);
    assert_eq!(Vec3_32::from_le_bytes(b), v);
}
