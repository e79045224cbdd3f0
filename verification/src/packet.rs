use vstd::prelude::*;

use crate::entity::EntityId;

verus! {

/// The four little-endian bytes of `x`.
pub open spec fn le_bytes(x: u32) -> Seq<u8> {
    seq![
        (x % 256) as u8,
        (x / 256 % 256) as u8,
        (x / 65536 % 256) as u8,
        (x / 16777216) as u8,
    ]
}

/// The number whose little-endian bytes are `b[0..4]`.
pub open spec fn from_le_bytes(b: Seq<u8>) -> u32 {
    (b[0] + 256 * b[1] + 65536 * b[2] + 16777216 * b[3]) as u32
}

proof fn lemma_le_roundtrip(x: u32)
    ensures
        from_le_bytes(le_bytes(x)) == x,
        le_bytes(x).len() == 4,
{
    assert(x == x % 256 + 256 * (x / 256 % 256) + 65536 * (x / 65536 % 256) + 16777216 * (x / 16777216))
        by (bit_vector);
}

proof fn lemma_le_canonical(b: Seq<u8>)
    requires
        b.len() == 4,
    ensures
        le_bytes(from_le_bytes(b)) == b,
{
    let b0 = b[0];
    let b1 = b[1];
    let b2 = b[2];
    let b3 = b[3];
    let x: u32 = (b0 + 256 * b1 + 65536 * b2 + 16777216 * b3) as u32;
    assert(x % 256 == b0 && x / 256 % 256 == b1 && x / 65536 % 256 == b2 && x / 16777216 == b3
        && x == b0 + 256 * b1 + 65536 * b2 + 16777216 * b3) by (bit_vector)
        requires
            x == (b0 + 256 * b1 + 65536 * b2 + 16777216 * b3) as u32,
    ;
    assert(le_bytes(from_le_bytes(b)) =~= b);
}

/// The little-endian bytes of `x`.
fn u32_to_le(x: u32) -> (r: [u8; 4])
    ensures
        r@ == le_bytes(x),
{
    let r = [(x % 256) as u8, (x / 256 % 256) as u8, (x / 65536 % 256) as u8, (x / 16777216) as u8];
    assert(r@ =~= le_bytes(x));
    r
}

/// The number whose little-endian bytes are `data[at..at + 4]`.
fn u32_from_le(data: &[u8], at: usize) -> (r: u32)
    requires
        at + 4 <= data@.len(),
    ensures
        r == from_le_bytes(data@.subrange(at as int, at + 4)),
{
    let b0 = data[at] as u32;
    let b1 = data[at + 1] as u32;
    let b2 = data[at + 2] as u32;
    let b3 = data[at + 3] as u32;
    b0 + 256 * b1 + 65536 * b2 + 16777216 * b3
}

/// A position in space, carried as the IEEE 754 bit patterns of its three
/// single-precision coordinates.
#[derive(Clone, Copy, PartialEq, Eq, Structural, Debug)]
pub struct Vec3_32 {
    pub x: u32,
    pub y: u32,
    pub z: u32,
}

/// The twelve bytes of a position: each coordinate little-endian, in the
/// order x, y, z.
pub open spec fn vec3_bytes(v: Vec3_32) -> Seq<u8> {
    le_bytes(v.x) + le_bytes(v.y) + le_bytes(v.z)
}

/// The position whose bytes are `b[0..12]`.
pub open spec fn vec3_from_bytes(b: Seq<u8>) -> Vec3_32 {
    Vec3_32 {
        x: from_le_bytes(b.subrange(0, 4)),
        y: from_le_bytes(b.subrange(4, 8)),
        z: from_le_bytes(b.subrange(8, 12)),
    }
}

proof fn lemma_vec3_roundtrip(v: Vec3_32)
    ensures
        vec3_from_bytes(vec3_bytes(v)) == v,
        vec3_bytes(v).len() == 12,
{
    lemma_le_roundtrip(v.x);
    lemma_le_roundtrip(v.y);
    lemma_le_roundtrip(v.z);
    let b = vec3_bytes(v);
    assert(b.subrange(0, 4) =~= le_bytes(v.x));
    assert(b.subrange(4, 8) =~= le_bytes(v.y));
    assert(b.subrange(8, 12) =~= le_bytes(v.z));
}

proof fn lemma_vec3_canonical(b: Seq<u8>)
    requires
        b.len() == 12,
    ensures
        vec3_bytes(vec3_from_bytes(b)) == b,
{
    lemma_le_canonical(b.subrange(0, 4));
    lemma_le_canonical(b.subrange(4, 8));
    lemma_le_canonical(b.subrange(8, 12));
    assert(vec3_bytes(vec3_from_bytes(b)) =~= b);
}

impl Vec3_32 {
    /// The position whose bytes are `bytes`.
    pub fn from_le_bytes(bytes: [u8; 12]) -> (r: Self)
        ensures
            r == vec3_from_bytes(bytes@),
    {
        let s = bytes.as_slice();
        let x = u32_from_le(s, 0);
        let y = u32_from_le(s, 4);
        let z = u32_from_le(s, 8);
        Vec3_32 { x, y, z }
    }

    /// The twelve bytes of the position.
    pub fn to_le_bytes(&self) -> (r: [u8; 12])
        ensures
            r@ == vec3_bytes(*self),
    {
        let x = u32_to_le(self.x);
        let y = u32_to_le(self.y);
        let z = u32_to_le(self.z);
        let r = [x[0], x[1], x[2], x[3], y[0], y[1], y[2], y[3], z[0], z[1], z[2], z[3]];
        assert(r@ =~= vec3_bytes(*self));
        r
    }
}

} // verus!

verus! {

/// The kinds of packet, each written as its position in this list in the
/// first byte of a packet.
#[derive(Clone, Copy, PartialEq, Eq, Structural, Debug)]
pub enum PacketType {
    ClientSpawn,
    ClientSpawnAck,
    Connect,
    Heartbeat,
    Location,
    Spawn,
}

impl PacketType {
    /// The first byte of packets of this kind.
    pub open spec fn spec_tag(self) -> u8 {
        match self {
            PacketType::ClientSpawn => 0,
            PacketType::ClientSpawnAck => 1,
            PacketType::Connect => 2,
            PacketType::Heartbeat => 3,
            PacketType::Location => 4,
            PacketType::Spawn => 5,
        }
    }

    /// The first byte of packets of this kind.
    pub fn tag(self) -> (r: u8)
        ensures
            r == self.spec_tag(),
    {
        match self {
            PacketType::ClientSpawn => 0,
            PacketType::ClientSpawnAck => 1,
            PacketType::Connect => 2,
            PacketType::Heartbeat => 3,
            PacketType::Location => 4,
            PacketType::Spawn => 5,
        }
    }
}

/// A client asks the server to replicate an entity it spawned.
#[derive(Clone, Copy, PartialEq, Eq, Structural, Debug)]
pub struct ClientSpawn {
    pub entity_id: EntityId,
}

/// The server tells a client which identifier it gave the entity the client spawned.
#[derive(Clone, Copy, PartialEq, Eq, Structural, Debug)]
pub struct ClientSpawnAck {
    pub client_id: EntityId,
    pub server_id: EntityId,
}

/// The server's answer to a peer it does not know yet.
#[derive(Clone, Copy, PartialEq, Eq, Structural, Debug)]
pub struct Connect;

/// Keeps a connection alive.
#[derive(Clone, Copy, PartialEq, Eq, Structural, Debug)]
pub struct Heartbeat;

/// Where an entity is.
#[derive(Clone, Copy, PartialEq, Eq, Structural, Debug)]
pub struct Location {
    pub entity_id: EntityId,
    pub location: Vec3_32,
}

/// The server spawned an entity.
#[derive(Clone, Copy, PartialEq, Eq, Structural, Debug)]
pub struct Spawn {
    pub entity_id: EntityId,
}

/// A packet of any kind.
#[derive(Clone, Copy, PartialEq, Eq, Structural, Debug)]
pub enum PacketRef {
    ClientSpawn(ClientSpawn),
    ClientSpawnAck(ClientSpawnAck),
    Connect(Connect),
    Heartbeat(Heartbeat),
    Location(Location),
    Spawn(Spawn),
}

/// The bytes of a packet: the kind's tag, then each field in declaration
/// order, identifiers as four little-endian bytes and positions as twelve.
pub open spec fn encode(p: PacketRef) -> Seq<u8> {
    match p {
        PacketRef::ClientSpawn(c) => seq![PacketType::ClientSpawn.spec_tag()] + le_bytes(c.entity_id@),
        PacketRef::ClientSpawnAck(c) => seq![PacketType::ClientSpawnAck.spec_tag()] + le_bytes(c.client_id@)
            + le_bytes(c.server_id@),
        PacketRef::Connect(_) => seq![PacketType::Connect.spec_tag()],
        PacketRef::Heartbeat(_) => seq![PacketType::Heartbeat.spec_tag()],
        PacketRef::Location(l) => seq![PacketType::Location.spec_tag()] + le_bytes(l.entity_id@)
            + vec3_bytes(l.location),
        PacketRef::Spawn(s) => seq![PacketType::Spawn.spec_tag()] + le_bytes(s.entity_id@),
    }
}

/// The identifier written at `b[at..at + 4]`, if it is not zero.
pub open spec fn id_at(b: Seq<u8>, at: int) -> Option<EntityId> {
    let v = from_le_bytes(b.subrange(at, at + 4));
    if v == 0 {
        None
    } else {
        Some(crate::entity::entity_id_of(v))
    }
}

/// The packet that `b` holds, if it holds one: a known tag followed by
/// exactly the bytes of that kind's fields, with no identifier zero.
pub open spec fn decode(b: Seq<u8>) -> Option<PacketRef> {
    if b.len() == 0 {
        None
    } else if b[0] == 0 && b.len() == 5 {
        match id_at(b, 1) {
            Some(e) => Some(PacketRef::ClientSpawn(ClientSpawn { entity_id: e })),
            None => None,
        }
    } else if b[0] == 1 && b.len() == 9 {
        match (id_at(b, 1), id_at(b, 5)) {
            (Some(c), Some(s)) => Some(PacketRef::ClientSpawnAck(ClientSpawnAck { client_id: c, server_id: s })),
            _ => None,
        }
    } else if b[0] == 2 && b.len() == 1 {
        Some(PacketRef::Connect(Connect))
    } else if b[0] == 3 && b.len() == 1 {
        Some(PacketRef::Heartbeat(Heartbeat))
    } else if b[0] == 4 && b.len() == 17 {
        match id_at(b, 1) {
            Some(e) => Some(
                PacketRef::Location(Location { entity_id: e, location: vec3_from_bytes(b.subrange(5, 17)) }),
            ),
            None => None,
        }
    } else if b[0] == 5 && b.len() == 5 {
        match id_at(b, 1) {
            Some(e) => Some(PacketRef::Spawn(Spawn { entity_id: e })),
            None => None,
        }
    } else {
        None
    }
}

impl ClientSpawn {
    /// The bytes of the packet.
    pub fn serialize(&self) -> (r: [u8; 5])
        ensures
            r@ == encode(PacketRef::ClientSpawn(*self)),
    {
        let t = PacketType::ClientSpawn.tag();
        let e = u32_to_le(self.entity_id.get());
        let r = [t, e[0], e[1], e[2], e[3]];
        assert(r@ =~= encode(PacketRef::ClientSpawn(*self)));
        r
    }
}

impl ClientSpawnAck {
    /// The bytes of the packet.
    pub fn serialize(&self) -> (r: [u8; 9])
        ensures
            r@ == encode(PacketRef::ClientSpawnAck(*self)),
    {
        let t = PacketType::ClientSpawnAck.tag();
        let c = u32_to_le(self.client_id.get());
        let s = u32_to_le(self.server_id.get());
        let r = [t, c[0], c[1], c[2], c[3], s[0], s[1], s[2], s[3]];
        assert(r@ =~= encode(PacketRef::ClientSpawnAck(*self)));
        r
    }
}

impl Connect {
    /// The bytes of the packet.
    pub fn serialize(&self) -> (r: [u8; 1])
        ensures
            r@ == encode(PacketRef::Connect(*self)),
    {
        let r = [PacketType::Connect.tag()];
        assert(r@ =~= encode(PacketRef::Connect(*self)));
        r
    }
}

impl Heartbeat {
    /// The bytes of the packet.
    pub fn serialize(&self) -> (r: [u8; 1])
        ensures
            r@ == encode(PacketRef::Heartbeat(*self)),
    {
        let r = [PacketType::Heartbeat.tag()];
        assert(r@ =~= encode(PacketRef::Heartbeat(*self)));
        r
    }
}

impl Location {
    /// The bytes of the packet.
    pub fn serialize(&self) -> (r: [u8; 17])
        ensures
            r@ == encode(PacketRef::Location(*self)),
    {
        let t = PacketType::Location.tag();
        let e = u32_to_le(self.entity_id.get());
        let l = self.location.to_le_bytes();
        let r = [
            t, e[0], e[1], e[2], e[3],
            l[0], l[1], l[2], l[3], l[4], l[5], l[6], l[7], l[8], l[9], l[10], l[11],
        ];
        assert(r@ =~= encode(PacketRef::Location(*self)));
        r
    }
}

impl Spawn {
    /// The bytes of the packet.
    pub fn serialize(&self) -> (r: [u8; 5])
        ensures
            r@ == encode(PacketRef::Spawn(*self)),
    {
        let t = PacketType::Spawn.tag();
        let e = u32_to_le(self.entity_id.get());
        let r = [t, e[0], e[1], e[2], e[3]];
        assert(r@ =~= encode(PacketRef::Spawn(*self)));
        r
    }
}

/// A vector holding the bytes of `s`.
pub fn bytes_to_vec(s: &[u8]) -> (r: Vec<u8>)
    ensures
        r@ == s@,
{
    let mut r: Vec<u8> = Vec::new();
    let mut i: usize = 0;
    while i < s.len()
        invariant
            i <= s@.len(),
            r@ == s@.take(i as int),
        decreases s@.len() - i,
    {
        r.push(s[i]);
        assert(r@ =~= s@.take(i + 1));
        i = i + 1;
    }
    assert(s@.take(i as int) =~= s@);
    r
}

/// The identifier written at `data[at..at + 4]`, if it is not zero.
fn read_id(data: &[u8], at: usize) -> (r: Option<EntityId>)
    requires
        at + 4 <= data@.len(),
    ensures
        r == id_at(data@, at as int),
{
    let v = u32_from_le(data, at);
    if v == 0 {
        None
    } else {
        Some(EntityId::new(v))
    }
}

impl PacketRef {
    /// The packet that `data` holds, or `None` when it holds none: an unknown
    /// tag, a length that does not match the kind, or an identifier zero.
    pub fn from_bytes(data: &[u8]) -> (r: Option<PacketRef>)
        ensures
            r == decode(data@),
    {
        let n = data.len();
        if n == 0 {
            return None;
        }
        let t = data[0];
        if t == 0 && n == 5 {
            match read_id(data, 1) {
                Some(e) => Some(PacketRef::ClientSpawn(ClientSpawn { entity_id: e })),
                None => None,
            }
        } else if t == 1 && n == 9 {
            let c = read_id(data, 1);
            let s = read_id(data, 5);
            match (c, s) {
                (Some(c), Some(s)) => Some(PacketRef::ClientSpawnAck(ClientSpawnAck { client_id: c, server_id: s })),
                _ => None,
            }
        } else if t == 2 && n == 1 {
            Some(PacketRef::Connect(Connect))
        } else if t == 3 && n == 1 {
            Some(PacketRef::Heartbeat(Heartbeat))
        } else if t == 4 && n == 17 {
            match read_id(data, 1) {
                Some(e) => {
                    let mut b = [0u8; 12];
                    let mut i: usize = 0;
                    while i < 12
                        invariant
                            i <= 12,
                            n == data@.len(),
                            n == 17,
                            forall|k: int| 0 <= k < i ==> b@[k] == data@[5 + k],
                        decreases 12 - i,
                    {
                        b[i] = data[5 + i];
                        i = i + 1;
                    }
                    assert(b@ =~= data@.subrange(5, 17));
                    Some(PacketRef::Location(Location { entity_id: e, location: Vec3_32::from_le_bytes(b) }))
                },
                None => None,
            }
        } else if t == 5 && n == 5 {
            match read_id(data, 1) {
                Some(e) => Some(PacketRef::Spawn(Spawn { entity_id: e })),
                None => None,
            }
        } else {
            None
        }
    }

    /// The bytes of the packet.
    pub fn serialize(&self) -> (r: Vec<u8>)
        ensures
            r@ == encode(*self),
    {
        match self {
            PacketRef::ClientSpawn(p) => bytes_to_vec(&p.serialize().as_slice()),
            PacketRef::ClientSpawnAck(p) => bytes_to_vec(&p.serialize().as_slice()),
            PacketRef::Connect(p) => bytes_to_vec(&p.serialize().as_slice()),
            PacketRef::Heartbeat(p) => bytes_to_vec(&p.serialize().as_slice()),
            PacketRef::Location(p) => bytes_to_vec(&p.serialize().as_slice()),
            PacketRef::Spawn(p) => bytes_to_vec(&p.serialize().as_slice()),
        }
    }
}

/// No identifier in the packet is zero, as none of a running program is.
pub open spec fn ids_nonzero(p: PacketRef) -> bool {
    match p {
        PacketRef::ClientSpawn(c) => c.entity_id@ != 0,
        PacketRef::ClientSpawnAck(c) => c.client_id@ != 0 && c.server_id@ != 0,
        PacketRef::Connect(_) => true,
        PacketRef::Heartbeat(_) => true,
        PacketRef::Location(l) => l.entity_id@ != 0,
        PacketRef::Spawn(s) => s.entity_id@ != 0,
    }
}

/// Decoding gives back the packet that was encoded.
pub proof fn law_decode_encode(p: PacketRef)
    requires
        ids_nonzero(p),
    ensures
        decode(encode(p)) == Some(p),
{
    match p {
        PacketRef::ClientSpawn(c) => {
            lemma_le_roundtrip(c.entity_id@);
            assert(encode(p).subrange(1, 5) =~= le_bytes(c.entity_id@));
            crate::entity::lemma_entity_id_view(c.entity_id, crate::entity::entity_id_of(c.entity_id@), c.entity_id@);
        },
        PacketRef::ClientSpawnAck(c) => {
            lemma_le_roundtrip(c.client_id@);
            lemma_le_roundtrip(c.server_id@);
            assert(encode(p).subrange(1, 5) =~= le_bytes(c.client_id@));
            assert(encode(p).subrange(5, 9) =~= le_bytes(c.server_id@));
            crate::entity::lemma_entity_id_view(c.client_id, crate::entity::entity_id_of(c.client_id@), c.client_id@);
            crate::entity::lemma_entity_id_view(c.server_id, crate::entity::entity_id_of(c.server_id@), c.server_id@);
        },
        PacketRef::Connect(_) => {},
        PacketRef::Heartbeat(_) => {},
        PacketRef::Location(l) => {
            lemma_le_roundtrip(l.entity_id@);
            lemma_vec3_roundtrip(l.location);
            assert(encode(p).subrange(1, 5) =~= le_bytes(l.entity_id@));
            assert(encode(p).subrange(5, 17) =~= vec3_bytes(l.location));
            crate::entity::lemma_entity_id_view(l.entity_id, crate::entity::entity_id_of(l.entity_id@), l.entity_id@);
        },
        PacketRef::Spawn(s) => {
            lemma_le_roundtrip(s.entity_id@);
            assert(encode(p).subrange(1, 5) =~= le_bytes(s.entity_id@));
            crate::entity::lemma_entity_id_view(s.entity_id, crate::entity::entity_id_of(s.entity_id@), s.entity_id@);
        },
    }
}

/// Every byte string that decodes is the encoding of what it decodes to: a
/// packet has one encoding only.
pub proof fn law_encode_decode(b: Seq<u8>)
    ensures
        decode(b) matches Some(p) ==> encode(p) == b,
{
    if let Some(p) = decode(b) {
        match p {
            PacketRef::ClientSpawn(c) => {
                lemma_le_canonical(b.subrange(1, 5));
                crate::entity::lemma_entity_id_view(c.entity_id, c.entity_id, from_le_bytes(b.subrange(1, 5)));
                assert(encode(p) =~= b);
            },
            PacketRef::ClientSpawnAck(c) => {
                lemma_le_canonical(b.subrange(1, 5));
                lemma_le_canonical(b.subrange(5, 9));
                crate::entity::lemma_entity_id_view(c.client_id, c.client_id, from_le_bytes(b.subrange(1, 5)));
                crate::entity::lemma_entity_id_view(c.server_id, c.server_id, from_le_bytes(b.subrange(5, 9)));
                assert(encode(p) =~= b);
            },
            PacketRef::Connect(_) => {
                assert(encode(p) =~= b);
            },
            PacketRef::Heartbeat(_) => {
                assert(encode(p) =~= b);
            },
            PacketRef::Location(l) => {
                lemma_le_canonical(b.subrange(1, 5));
                lemma_vec3_canonical(b.subrange(5, 17));
                crate::entity::lemma_entity_id_view(l.entity_id, l.entity_id, from_le_bytes(b.subrange(1, 5)));
                assert(encode(p) =~= b);
            },
            PacketRef::Spawn(s) => {
                lemma_le_canonical(b.subrange(1, 5));
                crate::entity::lemma_entity_id_view(s.entity_id, s.entity_id, from_le_bytes(b.subrange(1, 5)));
                assert(encode(p) =~= b);
            },
        }
    }
}

} // verus!
