use vstd::prelude::*;

use crate::entity::EntityId;
use crate::event::{EventManager, GameEvent, SystemGameEvent};
use crate::frame_buffer::EntityData;
use crate::packet::{encode, ClientSpawn, ClientSpawnAck, Connect, Heartbeat, Location, PacketRef, Spawn, Vec3_32};
use crate::swap_data::SystemSwapData;
use crate::update_buffer::UpdateBuffer;

verus! {

/// A socket address: an IPv4 address (in the low 32 bits of `ip`) or an IPv6
/// address with its flow information and scope, and a port.
#[derive(Clone, Copy, PartialEq, Eq, Structural, Debug)]
pub struct NetAddr {
    pub ip: u128,
    pub port: u16,
    pub v6: bool,
    pub flowinfo: u32,
    pub scope_id: u32,
}

/// The address of the server: 127.0.0.1, port 12351.
pub open spec fn spec_server_addr() -> NetAddr {
    NetAddr { ip: 0x7f00_0001, port: 12351, v6: false, flowinfo: 0, scope_id: 0 }
}

/// The address of the server: 127.0.0.1, port 12351.
pub fn server_addr() -> (r: NetAddr)
    ensures
        r == spec_server_addr(),
{
    NetAddr { ip: 0x7f00_0001, port: 12351, v6: false, flowinfo: 0, scope_id: 0 }
}

/// How a packet is delivered.
#[derive(Clone, Copy, PartialEq, Eq, Structural, Debug)]
pub enum Delivery {
    ReliableOrdered,
    ReliableUnordered,
    UnreliableSequenced,
}

/// A packet to send.
pub struct Outgoing {
    pub addr: NetAddr,
    pub payload: Vec<u8>,
    pub delivery: Delivery,
}

/// A packet to send: address, bytes and delivery.
pub type OutView = (NetAddr, Seq<u8>, Delivery);

impl View for Outgoing {
    type V = OutView;

    open spec fn view(&self) -> OutView {
        (self.addr, self.payload@, self.delivery)
    }
}

/// The packets in `out`, in order.
pub open spec fn sent(out: Seq<Outgoing>) -> Seq<OutView> {
    out.map_values(|o: Outgoing| o@)
}

/// One packet with the same bytes for each address, in order.
pub open spec fn broadcast_view(addrs: Seq<NetAddr>, payload: Seq<u8>, delivery: Delivery) -> Seq<OutView> {
    Seq::new(addrs.len(), |i: int| (addrs[i], payload, delivery))
}

/// Appends one packet with bytes `payload` for each address in `addrs`.
fn broadcast(out: &mut Vec<Outgoing>, addrs: &Vec<NetAddr>, payload: &Vec<u8>, delivery: Delivery)
    ensures
        sent(final(out)@) == sent(old(out)@) + broadcast_view(addrs@, payload@, delivery),
{
    let mut i: usize = 0;
    while i < addrs.len()
        invariant
            i <= addrs@.len(),
            sent(out@) == sent(old(out)@) + broadcast_view(addrs@.take(i as int), payload@, delivery),
        decreases addrs@.len() - i,
    {
        let bytes = crate::packet::bytes_to_vec(payload.as_slice());
        let ghost before = out@;
        out.push(Outgoing { addr: addrs[i], payload: bytes, delivery });
        assert(sent(out@) =~= sent(before).push((addrs@[i as int], payload@, delivery)));
        assert(broadcast_view(addrs@.take(i + 1), payload@, delivery) =~= broadcast_view(
            addrs@.take(i as int),
            payload@,
            delivery,
        ).push((addrs@[i as int], payload@, delivery)));
        i = i + 1;
    }
    assert(addrs@.take(i as int) =~= addrs@);
}

/// Something the socket reported, with received packets already decoded.
#[derive(Clone, Copy, PartialEq, Eq, Structural, Debug)]
pub enum SocketEvent {
    Packet(NetAddr, PacketRef),
    Connect(NetAddr),
    Timeout(NetAddr),
    Disconnect(NetAddr),
}

/// No game event is a despawn, which replication does not handle yet.
pub open spec fn no_despawn(events: Seq<GameEvent>) -> bool {
    forall|i: int| 0 <= i < events.len() ==> !(events[i] is Despawn)
}

/// The entities of the game events that spawn an entity to be replicated, in order.
pub open spec fn replicated_spawns(events: Seq<GameEvent>) -> Seq<EntityId>
    decreases events.len(),
{
    if events.len() == 0 {
        Seq::empty()
    } else {
        let rest = replicated_spawns(events.drop_last());
        match events.last() {
            GameEvent::Spawn { entity_id, replicate: true } => rest.push(entity_id),
            _ => rest,
        }
    }
}

/// Appends to `events` the system game events of `items`, in order, as
/// written by worker thread `thread_index`.
pub open spec fn appended<T>(written: Seq<Seq<T>>, thread_index: int, items: Seq<T>) -> Seq<Seq<T>> {
    written.update(thread_index, written[thread_index] + items)
}

/// Appending nothing changes nothing.
pub proof fn lemma_appended_empty<T>(written: Seq<Seq<T>>, thread_index: int)
    requires
        0 <= thread_index < written.len(),
    ensures
        appended(written, thread_index, Seq::<T>::empty()) == written,
{
    assert(written[thread_index] + Seq::<T>::empty() =~= written[thread_index]);
    assert(appended(written, thread_index, Seq::<T>::empty()) =~= written);
}

/// What a client has to hand between its frame update and its network update.
pub struct ClientSwapData {
    /// Entities the server spawned.
    pub server_spawned: Vec<EntityId>,
    /// Entities spawned here that the server should replicate.
    pub client_spawned: Vec<EntityId>,
    /// Pairs of an identifier given here and the one the server gave the same entity.
    pub client_spawned_ack: Vec<(EntityId, EntityId)>,
}

impl ClientSwapData {
    /// Nothing to hand over.
    pub fn new() -> (r: Self)
        ensures
            r.server_spawned@ == Seq::<EntityId>::empty(),
            r.client_spawned@ == Seq::<EntityId>::empty(),
            r.client_spawned_ack@ == Seq::<(EntityId, EntityId)>::empty(),
    {
        ClientSwapData { server_spawned: Vec::new(), client_spawned: Vec::new(), client_spawned_ack: Vec::new() }
    }
}

/// The system game events that a client's frame update reports for the data
/// its network update handed over: the server's spawns, then the identifiers
/// the server gave to entities spawned here.
pub open spec fn client_reports(d: ClientSwapData) -> Seq<SystemGameEvent> {
    d.server_spawned@.map_values(|e: EntityId| SystemGameEvent::NetworkSpawn(e)) + d.client_spawned_ack@.map_values(
        |p: (EntityId, EntityId)| SystemGameEvent::NetworkClientSpawnAck { client_id: p.0, replicable_id: p.1 },
    )
}

/// The frame-update side of a client.
pub struct ClientFrameData {
    swap_data: SystemSwapData<ClientSwapData>,
}

/// Appends the given events to the system game events of thread `thread_index`.
fn push_system_events(events: &mut EventManager, thread_index: usize, items: &Vec<SystemGameEvent>)
    requires
        old(events).wf(),
        thread_index < old(events).thread_count(),
    ensures
        final(events).wf(),
        final(events).thread_count() == old(events).thread_count(),
        final(events).system_events_written() == appended(
            old(events).system_events_written(),
            thread_index as int,
            items@,
        ),
        final(events).system_events_previous() == old(events).system_events_previous(),
        final(events).frame_events_written() == old(events).frame_events_written(),
        final(events).frame_events_previous() == old(events).frame_events_previous(),
        final(events).game_events_view() == old(events).game_events_view(),
        final(events).input_events_view() == old(events).input_events_view(),
        final(events).network_events_view() == old(events).network_events_view(),
{
    proof {
        old(events).lemma_shape();
        assert(items@.take(0) =~= Seq::<SystemGameEvent>::empty());
        assert(old(events).system_events_written()[thread_index as int] + Seq::<SystemGameEvent>::empty()
            =~= old(events).system_events_written()[thread_index as int]);
        assert(appended(old(events).system_events_written(), thread_index as int, items@.take(0))
            =~= old(events).system_events_written());
    }
    let mut i: usize = 0;
    while i < items.len()
        invariant
            i <= items@.len(),
            old(events).system_events_written().len() == old(events).thread_count(),
            events.wf(),
            thread_index < events.thread_count(),
            events.thread_count() == old(events).thread_count(),
            events.system_events_written() == appended(
                old(events).system_events_written(),
                thread_index as int,
                items@.take(i as int),
            ),
            events.system_events_previous() == old(events).system_events_previous(),
            events.frame_events_written() == old(events).frame_events_written(),
            events.frame_events_previous() == old(events).frame_events_previous(),
            events.game_events_view() == old(events).game_events_view(),
            events.input_events_view() == old(events).input_events_view(),
            events.network_events_view() == old(events).network_events_view(),
        decreases items@.len() - i,
    {
        proof {
            events.lemma_shape();
        }
        events.push_system_game_event(thread_index, items[i]);
        assert(old(events).system_events_written()[thread_index as int] + items@.take(i + 1) =~= (
        old(events).system_events_written()[thread_index as int] + items@.take(i as int)).push(items@[i as int]));
        assert(events.system_events_written() =~= appended(
            old(events).system_events_written(),
            thread_index as int,
            items@.take(i + 1),
        ));
        i = i + 1;
    }
    assert(items@.take(i as int) =~= items@);
}

/// The entities of the replicated spawns among `events`.
fn collect_replicated_spawns(events: &[GameEvent]) -> (r: Vec<EntityId>)
    requires
        no_despawn(events@),
    ensures
        r@ == replicated_spawns(events@),
{
    let mut r: Vec<EntityId> = Vec::new();
    let mut i: usize = 0;
    while i < events.len()
        invariant
            i <= events@.len(),
            r@ == replicated_spawns(events@.take(i as int)),
        decreases events@.len() - i,
    {
        assert(events@.take(i + 1).drop_last() =~= events@.take(i as int));
        match events[i] {
            GameEvent::Spawn { entity_id, replicate: true } => {
                r.push(entity_id);
            },
            _ => {},
        }
        i = i + 1;
    }
    assert(events@.take(i as int) =~= events@);
    r
}

impl ClientFrameData {
    /// The data shared with the network update.
    pub closed spec fn swap_view(&self) -> SystemSwapData<ClientSwapData> {
        self.swap_data
    }

    /// Nothing handed over yet.
    pub fn new() -> (r: Self)
        ensures
            !r.swap_view().is_swapped(),
            r.swap_view().value().server_spawned@ == Seq::<EntityId>::empty(),
            r.swap_view().value().client_spawned@ == Seq::<EntityId>::empty(),
            r.swap_view().value().client_spawned_ack@ == Seq::<(EntityId, EntityId)>::empty(),
    {
        ClientFrameData { swap_data: SystemSwapData::new(ClientSwapData::new()) }
    }

    /// Reports, as system game events of thread `thread_index`, what the
    /// network update handed over since the last call, and queues the entities
    /// that this frame's game events spawn for replication.
    pub fn update(&mut self, events: &mut EventManager, thread_index: usize)
        requires
            old(events).wf(),
            thread_index < old(events).thread_count(),
            no_despawn(old(events).game_events_view()),
        ensures
            ({
                let d = old(self).swap_view().value();
                let reported = if old(self).swap_view().is_swapped() {
                    client_reports(d)
                } else {
                    Seq::empty()
                };
                let e = final(self).swap_view().value();
                &&& final(events).wf()
                &&& final(events).thread_count() == old(events).thread_count()
                &&& final(events).system_events_written() == appended(
                    old(events).system_events_written(),
                    thread_index as int,
                    reported,
                )
                &&& final(events).system_events_previous() == old(events).system_events_previous()
                &&& final(events).frame_events_written() == old(events).frame_events_written()
                &&& final(events).frame_events_previous() == old(events).frame_events_previous()
                &&& final(events).game_events_view() == old(events).game_events_view()
                &&& final(events).input_events_view() == old(events).input_events_view()
                &&& final(events).network_events_view() == old(events).network_events_view()
                &&& !final(self).swap_view().is_swapped()
                &&& e.client_spawned@ == d.client_spawned@ + replicated_spawns(old(events).game_events_view())
                &&& e.server_spawned@ == if old(self).swap_view().is_swapped() {
                    Seq::empty()
                } else {
                    d.server_spawned@
                }
                &&& e.client_spawned_ack@ == if old(self).swap_view().is_swapped() {
                    Seq::empty()
                } else {
                    d.client_spawned_ack@
                }
            }),
    {
        let ghost d = self.swap_data.value();
        match self.swap_data.swapped() {
            Some(swap_data) => {
                let mut reports: Vec<SystemGameEvent> = Vec::new();
                let mut i: usize = 0;
                while i < swap_data.server_spawned.len()
                    invariant
                        i <= swap_data.server_spawned@.len(),
                        reports@ == swap_data.server_spawned@.take(i as int).map_values(
                            |e: EntityId| SystemGameEvent::NetworkSpawn(e),
                        ),
                    decreases swap_data.server_spawned@.len() - i,
                {
                    reports.push(SystemGameEvent::NetworkSpawn(swap_data.server_spawned[i]));
                    assert(reports@ =~= swap_data.server_spawned@.take(i + 1).map_values(
                        |e: EntityId| SystemGameEvent::NetworkSpawn(e),
                    ));
                    i = i + 1;
                }
                assert(swap_data.server_spawned@.take(i as int) =~= swap_data.server_spawned@);
                let ghost spawned_part = reports@;
                let mut j: usize = 0;
                while j < swap_data.client_spawned_ack.len()
                    invariant
                        j <= swap_data.client_spawned_ack@.len(),
                        reports@ == spawned_part + swap_data.client_spawned_ack@.take(j as int).map_values(
                            |p: (EntityId, EntityId)|
                                SystemGameEvent::NetworkClientSpawnAck { client_id: p.0, replicable_id: p.1 },
                        ),
                    decreases swap_data.client_spawned_ack@.len() - j,
                {
                    let (c, s) = swap_data.client_spawned_ack[j];
                    reports.push(SystemGameEvent::NetworkClientSpawnAck { client_id: c, replicable_id: s });
                    assert(reports@ =~= spawned_part + swap_data.client_spawned_ack@.take(j + 1).map_values(
                        |p: (EntityId, EntityId)|
                            SystemGameEvent::NetworkClientSpawnAck { client_id: p.0, replicable_id: p.1 },
                    ));
                    j = j + 1;
                }
                assert(swap_data.client_spawned_ack@.take(j as int) =~= swap_data.client_spawned_ack@);
                assert(reports@ =~= client_reports(d));
                swap_data.server_spawned.clear();
                swap_data.client_spawned_ack.clear();
                push_system_events(events, thread_index, &reports);
            },
            None => {
                proof {
                    events.lemma_shape();
                }
                proof {
                    lemma_appended_empty(old(events).system_events_written(), thread_index as int);
                }
            },
        }
        let spawned = collect_replicated_spawns(events.game_events());
        let data = self.swap_data.get_mut();
        let mut spawned = spawned;
        data.client_spawned.append(&mut spawned);
    }
}

/// The requests to replicate the given entities, sent reliably and in order to `server`.
pub open spec fn client_spawn_requests(server: NetAddr, ids: Seq<EntityId>) -> Seq<OutView> {
    ids.map_values(
        |e: EntityId| (server, encode(PacketRef::ClientSpawn(ClientSpawn { entity_id: e })), Delivery::ReliableOrdered),
    )
}

/// The location updates a client sends to `server` for the given locations:
/// only entities whose identifier fits in 16 bits are sent, unreliably.
pub open spec fn client_location_updates(server: NetAddr, locations: Seq<EntityData<Vec3_32>>) -> Seq<OutView>
    decreases locations.len(),
{
    if locations.len() == 0 {
        Seq::empty()
    } else {
        let rest = client_location_updates(server, locations.drop_last());
        let l = locations.last();
        if l.entity_id@ <= 65535 {
            rest.push(
                (
                    server,
                    encode(PacketRef::Location(Location { entity_id: l.entity_id, location: l.data })),
                    Delivery::UnreliableSequenced,
                ),
            )
        } else {
            rest
        }
    }
}

/// Whether a location's entity identifier fits in the 16 bits of a location packet.
pub open spec fn fits_location_packet() -> spec_fn(EntityData<Vec3_32>) -> bool {
    |l: EntityData<Vec3_32>| l.entity_id@ <= 65535
}

/// The unreliable location packet for `l`, addressed to `to`.
pub open spec fn location_packet_to(to: NetAddr) -> spec_fn(EntityData<Vec3_32>) -> OutView {
    |l: EntityData<Vec3_32>|
        (
            to,
            encode(PacketRef::Location(Location { entity_id: l.entity_id, location: l.data })),
            Delivery::UnreliableSequenced,
        )
}

/// Whether `packet` is the location packet to `to` of one of the locations
/// whose entity identifier fits in 16 bits.
pub open spec fn sent_location_fits(to: NetAddr, locations: Seq<EntityData<Vec3_32>>, packet: OutView) -> bool {
    exists|i: int|
        0 <= i < locations.len() && locations[i].entity_id@ <= 65535 && packet == location_packet_to(to)(
            #[trigger] locations[i],
        )
}

/// The location updates of a client are the packets of the locations that fit
/// in a location packet.
proof fn lemma_client_location_updates_filter(server: NetAddr, locations: Seq<EntityData<Vec3_32>>)
    ensures
        client_location_updates(server, locations) == locations.filter(fits_location_packet()).map_values(
            location_packet_to(server),
        ),
    decreases locations.len(),
{
    reveal(Seq::filter);
    if locations.len() > 0 {
        lemma_client_location_updates_filter(server, locations.drop_last());
        let f0 = locations.drop_last().filter(fits_location_packet());
        assert(f0.push(locations.last()).map_values(location_packet_to(server)) =~= f0.map_values(
            location_packet_to(server),
        ).push(location_packet_to(server)(locations.last())));
    }
    assert(client_location_updates(server, locations) =~= locations.filter(fits_location_packet()).map_values(
        location_packet_to(server),
    ));
}

/// Which locations a client sends (law): one unreliable location packet to
/// the server for each location whose entity identifier fits in 16 bits, in
/// the order of the locations, and nothing else. No such location is left
/// out, and every packet sent is the packet of one of them.
pub proof fn law_client_location_updates(server: NetAddr, locations: Seq<EntityData<Vec3_32>>)
    ensures
        client_location_updates(server, locations) == locations.filter(fits_location_packet()).map_values(
            location_packet_to(server),
        ),
        forall|i: int|
            0 <= i < locations.len() && locations[i].entity_id@ <= 65535 ==> client_location_updates(
                server,
                locations,
            ).contains(#[trigger] location_packet_to(server)(locations[i])),
        forall|j: int|
            0 <= j < client_location_updates(server, locations).len() ==> #[trigger] sent_location_fits(
                server,
                locations,
                client_location_updates(server, locations)[j],
            ),
{
    let p = fits_location_packet();
    let f = locations.filter(p);
    let out = client_location_updates(server, locations);
    lemma_client_location_updates_filter(server, locations);
    assert forall|i: int| 0 <= i < locations.len() && locations[i].entity_id@ <= 65535 implies out.contains(
        #[trigger] location_packet_to(server)(locations[i]),
    ) by {
        locations.lemma_filter_contains(p, i);
        let k = choose|k: int| 0 <= k < f.len() && f[k] == locations[i];
        assert(out[k] == location_packet_to(server)(f[k]));
    }
    assert forall|j: int| 0 <= j < out.len() implies #[trigger] sent_location_fits(server, locations, out[j]) by {
        locations.lemma_filter_pred(p, j);
        assert(f.contains(f[j]));
        locations.lemma_filter_contains_rev(p, f[j]);
        let i = choose|i: int| 0 <= i < locations.len() && locations[i] == f[j];
        assert(out[j] == location_packet_to(server)(locations[i]));
    }
}

/// The entity that a packet from the server reports spawned, if it is a spawn.
pub open spec fn spawns_of(p: PacketRef) -> Seq<EntityId> {
    match p {
        PacketRef::Spawn(s) => seq![s.entity_id],
        _ => Seq::empty(),
    }
}

/// The identifier pair that a packet from the server acknowledges, if it is
/// a spawn acknowledgement.
pub open spec fn acks_of(p: PacketRef) -> Seq<(EntityId, EntityId)> {
    match p {
        PacketRef::ClientSpawnAck(a) => seq![(a.client_id, a.server_id)],
        _ => Seq::empty(),
    }
}

/// The location that a packet carries, if it is a location.
pub open spec fn locations_of(p: PacketRef) -> Seq<EntityData<Vec3_32>> {
    match p {
        PacketRef::Location(l) => seq![EntityData { entity_id: l.entity_id, data: l.location }],
        _ => Seq::empty(),
    }
}

/// The packets among the socket events, in order.
pub open spec fn packets_of(events: Seq<SocketEvent>) -> Seq<PacketRef>
    decreases events.len(),
{
    if events.len() == 0 {
        Seq::empty()
    } else {
        let rest = packets_of(events.drop_last());
        match events.last() {
            SocketEvent::Packet(_, p) => rest.push(p),
            _ => rest,
        }
    }
}

/// The entities of the received spawn packets, in order.
pub open spec fn received_spawns(packets: Seq<PacketRef>) -> Seq<EntityId>
    decreases packets.len(),
{
    if packets.len() == 0 {
        Seq::empty()
    } else {
        received_spawns(packets.drop_last()) + spawns_of(packets.last())
    }
}

/// The identifier pairs of the received spawn acknowledgements, in order.
pub open spec fn received_acks(packets: Seq<PacketRef>) -> Seq<(EntityId, EntityId)>
    decreases packets.len(),
{
    if packets.len() == 0 {
        Seq::empty()
    } else {
        received_acks(packets.drop_last()) + acks_of(packets.last())
    }
}

/// The received locations, in order.
pub open spec fn received_locations(packets: Seq<PacketRef>) -> Seq<EntityData<Vec3_32>>
    decreases packets.len(),
{
    if packets.len() == 0 {
        Seq::empty()
    } else {
        received_locations(packets.drop_last()) + locations_of(packets.last())
    }
}

/// The heartbeat a client sends to `server`.
pub open spec fn client_heartbeat(server: NetAddr) -> OutView {
    (server, encode(PacketRef::Heartbeat(Heartbeat)), Delivery::ReliableUnordered)
}

/// The network-update side of a client: it sends the spawns and locations of
/// this side to the server and collects what the server sends.
pub struct Client {
    server_addr: NetAddr,
    swap_data: SystemSwapData<ClientSwapData>,
}

impl Client {
    /// The address of the server.
    pub closed spec fn server(&self) -> NetAddr {
        self.server_addr
    }

    /// The data shared with the frame update.
    pub closed spec fn swap_view(&self) -> SystemSwapData<ClientSwapData> {
        self.swap_data
    }

    /// A client of the server at `server_addr()`, with nothing to hand over.
    pub fn new() -> (r: Self)
        ensures
            r.server() == spec_server_addr(),
            !r.swap_view().is_swapped(),
            r.swap_view().value().server_spawned@ == Seq::<EntityId>::empty(),
            r.swap_view().value().client_spawned@ == Seq::<EntityId>::empty(),
            r.swap_view().value().client_spawned_ack@ == Seq::<(EntityId, EntityId)>::empty(),
    {
        Client { server_addr: server_addr(), swap_data: SystemSwapData::new(ClientSwapData::new()) }
    }

    /// Exchanges the data of this side and the frame update.
    pub fn swap(&mut self, frame_data: &mut ClientFrameData)
        ensures
            final(self).server() == old(self).server(),
            final(self).swap_view().value() == old(frame_data).swap_view().value(),
            final(frame_data).swap_view().value() == old(self).swap_view().value(),
            final(self).swap_view().is_swapped(),
            final(frame_data).swap_view().is_swapped(),
    {
        self.swap_data.swap(&mut frame_data.swap_data);
    }

    /// Sends the requests to replicate the entities spawned here and forgets them.
    pub fn update_swap(&mut self, out: &mut Vec<Outgoing>)
        ensures
            sent(final(out)@) == sent(old(out)@) + client_spawn_requests(
                old(self).server(),
                old(self).swap_view().value().client_spawned@,
            ),
            final(self).server() == old(self).server(),
            final(self).swap_view().is_swapped() == old(self).swap_view().is_swapped(),
            final(self).swap_view().value().client_spawned@ == Seq::<EntityId>::empty(),
            final(self).swap_view().value().server_spawned@ == old(self).swap_view().value().server_spawned@,
            final(self).swap_view().value().client_spawned_ack@
                == old(self).swap_view().value().client_spawned_ack@,
    {
        let server = self.server_addr;
        let data = self.swap_data.get_mut();
        let mut i: usize = 0;
        while i < data.client_spawned.len()
            invariant
                i <= data.client_spawned@.len(),
                sent(out@) == sent(old(out)@) + client_spawn_requests(server, data.client_spawned@.take(i as int)),
            decreases data.client_spawned@.len() - i,
        {
            let packet = PacketRef::ClientSpawn(ClientSpawn { entity_id: data.client_spawned[i] });
            let payload = packet.serialize();
            let ghost before = out@;
            out.push(Outgoing { addr: server, payload, delivery: Delivery::ReliableOrdered });
            assert(sent(out@) =~= sent(before).push((server, payload@, Delivery::ReliableOrdered)));
            assert(client_spawn_requests(server, data.client_spawned@.take(i + 1)) =~= client_spawn_requests(
                server,
                data.client_spawned@.take(i as int),
            ).push((server, payload@, Delivery::ReliableOrdered)));
            i = i + 1;
        }
        assert(data.client_spawned@.take(i as int) =~= data.client_spawned@);
        data.client_spawned.clear();
    }

    /// Sends the server the locations that systems wrote during the previous
    /// update.
    pub fn update_state(&self, update_buffer: &UpdateBuffer, out: &mut Vec<Outgoing>)
        requires
            update_buffer.wf(),
        ensures
            sent(final(out)@) == sent(old(out)@) + client_location_updates(
                self.server(),
                update_buffer.previous().flatten(),
            ),
            sent(final(out)@) == sent(old(out)@) + update_buffer.previous().flatten().filter(
                fits_location_packet(),
            ).map_values(location_packet_to(self.server())),
    {
        proof {
            law_client_location_updates(self.server(), update_buffer.previous().flatten());
        }
        let locations = update_buffer.locations();
        let mut i: usize = 0;
        while i < locations.len()
            invariant
                i <= locations@.len(),
                sent(out@) == sent(old(out)@) + client_location_updates(self.server_addr, locations@.take(i as int)),
            decreases locations@.len() - i,
        {
            let l = locations[i];
            assert(locations@.take(i + 1).drop_last() =~= locations@.take(i as int));
            if l.entity_id.get() <= 65535 {
                let packet = PacketRef::Location(Location { entity_id: l.entity_id, location: l.data });
                let payload = packet.serialize();
                let ghost before = out@;
                out.push(Outgoing { addr: self.server_addr, payload, delivery: Delivery::UnreliableSequenced });
                assert(sent(out@) =~= sent(before).push((self.server_addr, payload@, Delivery::UnreliableSequenced)));
            }
            i = i + 1;
        }
        assert(locations@.take(i as int) =~= locations@);
    }

    /// Handles a packet from the server: a spawn acknowledgement or a spawn is
    /// kept for the frame update, a location goes to the update buffer as
    /// written by thread `thread_index`, anything else is ignored.
    pub fn recv(&mut self, packet: PacketRef, update_buffer: &mut UpdateBuffer, thread_index: usize)
        requires
            old(update_buffer).wf(),
            thread_index < old(update_buffer).thread_count(),
        ensures
            ({
                let d = old(self).swap_view().value();
                let f = final(self).swap_view().value();
                &&& final(self).server() == old(self).server()
                &&& final(self).swap_view().is_swapped() == old(self).swap_view().is_swapped()
                &&& f.server_spawned@ == d.server_spawned@ + spawns_of(packet)
                &&& f.client_spawned_ack@ == d.client_spawned_ack@ + acks_of(packet)
                &&& f.client_spawned@ == d.client_spawned@
                &&& final(update_buffer).wf()
                &&& final(update_buffer).thread_count() == old(update_buffer).thread_count()
                &&& final(update_buffer).previous() == old(update_buffer).previous()
                &&& final(update_buffer).written() == appended(
                    old(update_buffer).written(),
                    thread_index as int,
                    locations_of(packet),
                )
            }),
    {
        proof {
            old(update_buffer).lemma_shape();
        }
        let data = self.swap_data.get_mut();
        match packet {
            PacketRef::ClientSpawnAck(p) => {
                data.client_spawned_ack.push((p.client_id, p.server_id));
                proof {
                    lemma_appended_empty(old(update_buffer).written(), thread_index as int);
                }
            },
            PacketRef::Location(p) => {
                update_buffer.push_location(thread_index, p.entity_id, p.location);
                assert(old(update_buffer).written()[thread_index as int].push(
                    EntityData { entity_id: p.entity_id, data: p.location },
                ) =~= old(update_buffer).written()[thread_index as int] + locations_of(packet));
            },
            PacketRef::Spawn(p) => {
                data.server_spawned.push(p.entity_id);
                proof {
                    lemma_appended_empty(old(update_buffer).written(), thread_index as int);
                }
            },
            _ => {
                proof {
                    lemma_appended_empty(old(update_buffer).written(), thread_index as int);
                }
            },
        }
    }

    /// The heartbeat to send to the server.
    pub fn heartbeat(&self) -> (r: Outgoing)
        ensures
            r@ == client_heartbeat(self.server()),
    {
        let payload = PacketRef::Heartbeat(Heartbeat).serialize();
        Outgoing { addr: self.server_addr, payload, delivery: Delivery::ReliableUnordered }
    }

    /// One network update: sends the replication requests and the locations
    /// of the previous update, handles the received socket events in order
    /// (only packets matter; locations go to the update buffer as written by
    /// thread `thread_index`), and ends with a heartbeat. Returns the packets
    /// to send, in order.
    pub fn update(&mut self, update_buffer: &mut UpdateBuffer, thread_index: usize, events: &[SocketEvent]) -> (r: Vec<
        Outgoing,
    >)
        requires
            old(update_buffer).wf(),
            thread_index < old(update_buffer).thread_count(),
        ensures
            ({
                let d = old(self).swap_view().value();
                let f = final(self).swap_view().value();
                let packets = packets_of(events@);
                &&& sent(r@) == client_spawn_requests(old(self).server(), d.client_spawned@)
                    + client_location_updates(old(self).server(), old(update_buffer).previous().flatten())
                    + seq![client_heartbeat(old(self).server())]
                &&& final(self).server() == old(self).server()
                &&& final(self).swap_view().is_swapped() == old(self).swap_view().is_swapped()
                &&& f.client_spawned@ == Seq::<EntityId>::empty()
                &&& f.server_spawned@ == d.server_spawned@ + received_spawns(packets)
                &&& f.client_spawned_ack@ == d.client_spawned_ack@ + received_acks(packets)
                &&& final(update_buffer).wf()
                &&& final(update_buffer).thread_count() == old(update_buffer).thread_count()
                &&& final(update_buffer).previous() == old(update_buffer).previous()
                &&& final(update_buffer).written() == appended(
                    old(update_buffer).written(),
                    thread_index as int,
                    received_locations(packets),
                )
            }),
    {
        let mut out: Vec<Outgoing> = Vec::new();
        self.update_swap(&mut out);
        self.update_state(update_buffer, &mut out);
        let ghost d = self.swap_view().value();
        let ghost sent_before = sent(out@);
        proof {
            old(update_buffer).lemma_shape();
            assert(appended(update_buffer.written(), thread_index as int, Seq::empty()) =~= update_buffer.written());
        }
        let mut i: usize = 0;
        while i < events.len()
            invariant
                i <= events@.len(),
                sent(out@) == sent_before,
                old(update_buffer).written().len() == old(update_buffer).thread_count(),
                self.server() == old(self).server(),
                self.swap_view().is_swapped() == old(self).swap_view().is_swapped(),
                self.swap_view().value().client_spawned@ == Seq::<EntityId>::empty(),
                d.client_spawned@ == Seq::<EntityId>::empty(),
                self.swap_view().value().server_spawned@ == d.server_spawned@ + received_spawns(
                    packets_of(events@.take(i as int)),
                ),
                self.swap_view().value().client_spawned_ack@ == d.client_spawned_ack@ + received_acks(
                    packets_of(events@.take(i as int)),
                ),
                update_buffer.wf(),
                thread_index < update_buffer.thread_count(),
                update_buffer.thread_count() == old(update_buffer).thread_count(),
                update_buffer.previous() == old(update_buffer).previous(),
                update_buffer.written() == appended(
                    old(update_buffer).written(),
                    thread_index as int,
                    received_locations(packets_of(events@.take(i as int))),
                ),
            decreases events@.len() - i,
        {
            let ghost taken = events@.take(i as int);
            assert(events@.take(i + 1).drop_last() =~= taken);
            match events[i] {
                SocketEvent::Packet(_, packet) => {
                    let ghost before = self.swap_view().value();
                    let ghost written_before = update_buffer.written();
                    self.recv(packet, update_buffer, thread_index);
                    proof {
                        let p1 = packets_of(events@.take(i + 1));
                        assert(p1 == packets_of(taken).push(packet));
                        assert(p1.drop_last() =~= packets_of(taken));
                        assert(received_spawns(p1) == received_spawns(packets_of(taken)) + spawns_of(packet));
                        assert(received_acks(p1) == received_acks(packets_of(taken)) + acks_of(packet));
                        assert(received_locations(p1) == received_locations(packets_of(taken)) + locations_of(packet));
                        assert(self.swap_view().value().server_spawned@ =~= d.server_spawned@ + received_spawns(p1));
                        assert(self.swap_view().value().client_spawned_ack@ =~= d.client_spawned_ack@ + received_acks(p1));
                        let w = old(update_buffer).written();
                        let t = thread_index as int;
                        assert((w[t] + received_locations(packets_of(taken))) + locations_of(packet)
                            =~= w[t] + received_locations(p1));
                        assert(written_before[t] == w[t] + received_locations(packets_of(taken)));
                        assert(update_buffer.written() =~= appended(w, t, received_locations(p1)));
                    }
                },
                _ => {
                    assert(packets_of(events@.take(i + 1)) == packets_of(taken));
                },
            }
            i = i + 1;
        }
        assert(events@.take(i as int) =~= events@);
        let heartbeat = self.heartbeat();
        out.push(heartbeat);
        assert(sent(out@) =~= sent_before.push(heartbeat@));
        out
    }
}

/// Position of the first element of `s` that satisfies `p`, if any.
pub open spec fn first_match<A>(s: Seq<A>, p: spec_fn(A) -> bool) -> Option<int>
    decreases s.len(),
{
    if s.len() == 0 {
        None
    } else {
        match first_match(s.drop_last(), p) {
            Some(i) => Some(i),
            None => if p(s.last()) {
                Some(s.len() - 1)
            } else {
                None
            },
        }
    }
}

/// What `first_match` finds: the first element that satisfies the predicate.
pub proof fn lemma_first_match<A>(s: Seq<A>, p: spec_fn(A) -> bool)
    ensures
        first_match(s, p) matches Some(i) ==> 0 <= i < s.len() && p(s[i]) && forall|j: int|
            0 <= j < i ==> !p(#[trigger] s[j]),
        first_match(s, p) is None ==> forall|j: int| 0 <= j < s.len() ==> !p(#[trigger] s[j]),
    decreases s.len(),
{
    if s.len() > 0 {
        lemma_first_match(s.drop_last(), p);
        assert forall|j: int| 0 <= j < s.len() - 1 implies s.drop_last()[j] == s[j] by {}
    }
}

proof fn lemma_first_match_prefix<A>(s: Seq<A>, p: spec_fn(A) -> bool, k: int)
    requires
        0 <= k <= s.len(),
        first_match(s.take(k), p) is Some,
    ensures
        first_match(s, p) == first_match(s.take(k), p),
    decreases s.len() - k,
{
    if k == s.len() {
        assert(s.take(k) =~= s);
    } else {
        assert(s.drop_last().take(k) =~= s.take(k));
        lemma_first_match_prefix(s.drop_last(), p, k);
    }
}

proof fn lemma_first_match_step<A>(s: Seq<A>, p: spec_fn(A) -> bool, k: int)
    requires
        0 <= k < s.len(),
        first_match(s.take(k), p) is None,
    ensures
        first_match(s.take(k + 1), p) == if p(s[k]) {
            Some(k)
        } else {
            None::<int>
        },
{
    assert(s.take(k + 1).drop_last() =~= s.take(k));
}

/// A connected client as the server sees it: its address and the entities it
/// spawned that await the server's identifier, each with the spawn number the
/// server gave the request.
pub type ClientView = (NetAddr, Seq<(u16, EntityId)>);

/// A client connected to the server.
pub struct ConnectedClient {
    pub addr: NetAddr,
    /// Entities spawned by the client which await the server's identifier,
    /// each with its spawn number.
    pub spawned_entities: Vec<(u16, EntityId)>,
}

impl ConnectedClient {
    /// A client at `addr` with nothing pending.
    pub fn new(addr: NetAddr) -> (r: Self)
        ensures
            r.addr == addr,
            r.spawned_entities@ == Seq::<(u16, EntityId)>::empty(),
    {
        ConnectedClient { addr, spawned_entities: Vec::new() }
    }
}

/// The connected clients as the server sees them, in order.
pub open spec fn client_views(cs: Seq<ConnectedClient>) -> Seq<ClientView> {
    cs.map_values(|c: ConnectedClient| (c.addr, c.spawned_entities@))
}

/// The addresses of the clients, in order.
pub open spec fn client_addrs(cs: Seq<ClientView>) -> Seq<NetAddr> {
    cs.map_values(|c: ClientView| c.0)
}

/// Whether an address is not `a`.
pub open spec fn other_than(a: NetAddr) -> spec_fn(NetAddr) -> bool {
    |x: NetAddr| x != a
}

/// The addresses other than `a`, in order.
pub open spec fn addrs_except(addrs: Seq<NetAddr>, a: NetAddr) -> Seq<NetAddr> {
    addrs.filter(other_than(a))
}

/// Whether a client is at `addr`.
pub open spec fn is_at(addr: NetAddr) -> spec_fn(ClientView) -> bool {
    |c: ClientView| c.0 == addr
}

/// Whether a pending entity has spawn number `spawn_id`.
pub open spec fn has_spawn_id(spawn_id: u16) -> spec_fn((u16, EntityId)) -> bool {
    |e: (u16, EntityId)| e.0 == spawn_id
}

/// Whether a client has a pending entity with spawn number `spawn_id`.
pub open spec fn awaits(spawn_id: u16) -> spec_fn(ClientView) -> bool {
    |c: ClientView| first_match(c.1, has_spawn_id(spawn_id)) is Some
}

/// Position of the first client at `addr`.
pub open spec fn client_at(cs: Seq<ClientView>, addr: NetAddr) -> Option<int> {
    first_match(cs, is_at(addr))
}

/// The first client with a pending entity with spawn number `spawn_id`, and
/// the position of the first such entity in its list.
pub open spec fn find_spawn(cs: Seq<ClientView>, spawn_id: u16) -> Option<(int, int)> {
    match first_match(cs, awaits(spawn_id)) {
        Some(c) => Some((c, first_match(cs[c].1, has_spawn_id(spawn_id))->0)),
        None => None,
    }
}

/// The spawn number the server gives the next replication request: the most
/// recently freed one, or else the counter.
pub open spec fn allocated_spawn_id(free: Seq<u16>, next: u16) -> u16 {
    if free.len() > 0 {
        free.last()
    } else {
        next
    }
}

/// What the server's frame update has to hand to its network update, and back.
pub struct ServerSwapData {
    /// Entities spawned on the server, to announce to the clients.
    pub server_spawned: Vec<EntityId>,
    /// Spawn numbers of replication requests from clients.
    pub client_spawned: Vec<u16>,
    /// Spawn numbers of requests, each with the identifier the game gave the entity.
    pub client_spawned_acks: Vec<(u16, EntityId)>,
}

impl ServerSwapData {
    /// Nothing to hand over.
    pub fn new() -> (r: Self)
        ensures
            r.server_spawned@ == Seq::<EntityId>::empty(),
            r.client_spawned@ == Seq::<u16>::empty(),
            r.client_spawned_acks@ == Seq::<(u16, EntityId)>::empty(),
    {
        ServerSwapData { server_spawned: Vec::new(), client_spawned: Vec::new(), client_spawned_acks: Vec::new() }
    }
}

/// The spawn numbers and identifiers of the game's answers to replication
/// requests among `events`, in order.
pub open spec fn spawn_acks(events: Seq<GameEvent>) -> Seq<(u16, EntityId)>
    decreases events.len(),
{
    if events.len() == 0 {
        Seq::empty()
    } else {
        let rest = spawn_acks(events.drop_last());
        match events.last() {
            GameEvent::NetworkClientSpawnAck { spawn_id, entity_id } => rest.push((spawn_id, entity_id)),
            _ => rest,
        }
    }
}

/// The frame-update side of the server.
pub struct ServerFrameData {
    swap_data: SystemSwapData<ServerSwapData>,
}

impl ServerFrameData {
    /// The data shared with the network update.
    pub closed spec fn swap_view(&self) -> SystemSwapData<ServerSwapData> {
        self.swap_data
    }

    /// Nothing handed over yet.
    pub fn new() -> (r: Self)
        ensures
            !r.swap_view().is_swapped(),
            r.swap_view().value().server_spawned@ == Seq::<EntityId>::empty(),
            r.swap_view().value().client_spawned@ == Seq::<u16>::empty(),
            r.swap_view().value().client_spawned_acks@ == Seq::<(u16, EntityId)>::empty(),
    {
        ServerFrameData { swap_data: SystemSwapData::new(ServerSwapData::new()) }
    }

    /// Reports, as system game events of thread `thread_index`, the
    /// replication requests that the network update handed over since the
    /// last call, and queues this frame's replicated spawns and the game's
    /// answers to requests for the network update.
    pub fn update(&mut self, events: &mut EventManager, thread_index: usize)
        requires
            old(events).wf(),
            thread_index < old(events).thread_count(),
            no_despawn(old(events).game_events_view()),
        ensures
            ({
                let d = old(self).swap_view().value();
                let swapped = old(self).swap_view().is_swapped();
                let reported = if swapped {
                    d.client_spawned@.map_values(|s: u16| SystemGameEvent::NetworkClientSpawn(s))
                } else {
                    Seq::empty()
                };
                let e = final(self).swap_view().value();
                let g = old(events).game_events_view();
                &&& final(events).wf()
                &&& final(events).thread_count() == old(events).thread_count()
                &&& final(events).system_events_written() == appended(
                    old(events).system_events_written(),
                    thread_index as int,
                    reported,
                )
                &&& final(events).system_events_previous() == old(events).system_events_previous()
                &&& final(events).frame_events_written() == old(events).frame_events_written()
                &&& final(events).frame_events_previous() == old(events).frame_events_previous()
                &&& final(events).game_events_view() == g
                &&& final(events).input_events_view() == old(events).input_events_view()
                &&& final(events).network_events_view() == old(events).network_events_view()
                &&& !final(self).swap_view().is_swapped()
                &&& e.client_spawned@ == if swapped {
                    Seq::empty()
                } else {
                    d.client_spawned@
                }
                &&& e.server_spawned@ == d.server_spawned@ + replicated_spawns(g)
                &&& e.client_spawned_acks@ == d.client_spawned_acks@ + spawn_acks(g)
            }),
    {
        let ghost d = self.swap_data.value();
        match self.swap_data.swapped() {
            Some(swap_data) => {
                let mut reports: Vec<SystemGameEvent> = Vec::new();
                let mut i: usize = 0;
                while i < swap_data.client_spawned.len()
                    invariant
                        i <= swap_data.client_spawned@.len(),
                        reports@ == swap_data.client_spawned@.take(i as int).map_values(
                            |s: u16| SystemGameEvent::NetworkClientSpawn(s),
                        ),
                    decreases swap_data.client_spawned@.len() - i,
                {
                    reports.push(SystemGameEvent::NetworkClientSpawn(swap_data.client_spawned[i]));
                    assert(reports@ =~= swap_data.client_spawned@.take(i + 1).map_values(
                        |s: u16| SystemGameEvent::NetworkClientSpawn(s),
                    ));
                    i = i + 1;
                }
                assert(swap_data.client_spawned@.take(i as int) =~= swap_data.client_spawned@);
                swap_data.client_spawned.clear();
                push_system_events(events, thread_index, &reports);
            },
            None => {
                proof {
                    events.lemma_shape();
                }
                proof {
                    lemma_appended_empty(old(events).system_events_written(), thread_index as int);
                }
            },
        }
        let game_events = events.game_events();
        let mut spawned = collect_replicated_spawns(game_events);
        let mut acks: Vec<(u16, EntityId)> = Vec::new();
        let mut i: usize = 0;
        while i < game_events.len()
            invariant
                i <= game_events@.len(),
                acks@ == spawn_acks(game_events@.take(i as int)),
            decreases game_events@.len() - i,
        {
            assert(game_events@.take(i + 1).drop_last() =~= game_events@.take(i as int));
            match game_events[i] {
                GameEvent::NetworkClientSpawnAck { spawn_id, entity_id } => {
                    acks.push((spawn_id, entity_id));
                },
                _ => {},
            }
            i = i + 1;
        }
        assert(game_events@.take(i as int) =~= game_events@);
        let data = self.swap_data.get_mut();
        data.server_spawned.append(&mut spawned);
        data.client_spawned_acks.append(&mut acks);
    }
}

/// The addresses of the clients, in order.
fn addrs_of(clients: &Vec<ConnectedClient>) -> (r: Vec<NetAddr>)
    ensures
        r@ == client_addrs(client_views(clients@)),
{
    let mut r: Vec<NetAddr> = Vec::new();
    let mut i: usize = 0;
    while i < clients.len()
        invariant
            i <= clients@.len(),
            r@ == client_addrs(client_views(clients@)).take(i as int),
        decreases clients@.len() - i,
    {
        r.push(clients[i].addr);
        assert(r@ =~= client_addrs(client_views(clients@)).take(i + 1));
        i = i + 1;
    }
    r
}

/// The addresses of `addrs` other than `except`, in order.
fn filter_addrs(addrs: &Vec<NetAddr>, except: NetAddr) -> (r: Vec<NetAddr>)
    ensures
        r@ == addrs_except(addrs@, except),
{
    let mut r: Vec<NetAddr> = Vec::new();
    let mut i: usize = 0;
    while i < addrs.len()
        invariant
            i <= addrs@.len(),
            r@ == addrs@.take(i as int).filter(other_than(except)),
        decreases addrs@.len() - i,
    {
        assert(addrs@.take(i + 1).drop_last() =~= addrs@.take(i as int));
        proof {
            reveal_with_fuel(Seq::filter, 1);
        }
        if addrs[i] != except {
            r.push(addrs[i]);
        }
        i = i + 1;
    }
    assert(addrs@.take(i as int) =~= addrs@);
    r
}

/// Position of the first client at `addr`.
fn find_client(clients: &Vec<ConnectedClient>, addr: NetAddr) -> (r: Option<usize>)
    ensures
        r matches Some(k) ==> client_at(client_views(clients@), addr) == Some(k as int),
        r is None ==> client_at(client_views(clients@), addr) is None,
{
    let ghost cs = client_views(clients@);
    let mut k: usize = 0;
    while k < clients.len()
        invariant
            k <= clients@.len(),
            cs == client_views(clients@),
            first_match(cs.take(k as int), is_at(addr)) is None,
        decreases clients@.len() - k,
    {
        proof {
            lemma_first_match_step(cs, is_at(addr), k as int);
        }
        if clients[k].addr == addr {
            proof {
                lemma_first_match_prefix(cs, is_at(addr), k + 1);
            }
            return Some(k);
        }
        k = k + 1;
    }
    assert(cs.take(k as int) =~= cs);
    None
}

/// Whether a client is not at `addr`.
pub open spec fn not_at(addr: NetAddr) -> spec_fn(ClientView) -> bool {
    |c: ClientView| c.0 != addr
}

/// The broadcast of a location to every client but the one it came from.
pub open spec fn location_relay(cs: Seq<ClientView>, from: NetAddr, l: Location) -> Seq<OutView> {
    broadcast_view(
        addrs_except(client_addrs(cs), from),
        encode(PacketRef::Location(l)),
        Delivery::UnreliableSequenced,
    )
}

/// The broadcasts of the given locations to every client, in order.
pub open spec fn location_broadcasts(addrs: Seq<NetAddr>, locations: Seq<EntityData<Vec3_32>>) -> Seq<OutView>
    decreases locations.len(),
{
    if locations.len() == 0 {
        Seq::empty()
    } else {
        let l = locations.last();
        location_broadcasts(addrs, locations.drop_last()) + broadcast_view(
            addrs,
            encode(PacketRef::Location(Location { entity_id: l.entity_id, location: l.data })),
            Delivery::UnreliableSequenced,
        )
    }
}

/// What the server broadcasts of the locations (law): for each location and
/// each client, in that order, the unreliable location packet of that entity
/// and position addressed to that client; so as many packets as locations
/// times clients.
pub proof fn law_location_broadcasts(addrs: Seq<NetAddr>, locations: Seq<EntityData<Vec3_32>>)
    ensures
        location_broadcasts(addrs, locations).len() == locations.len() * addrs.len(),
        forall|i: int, j: int|
            0 <= i < locations.len() && 0 <= j < addrs.len() ==> #[trigger] location_broadcasts(addrs, locations)[i
                * addrs.len() + j] == location_packet_to(addrs[j])(locations[i]),
    decreases locations.len(),
{
    let n = addrs.len() as int;
    let out = location_broadcasts(addrs, locations);
    if locations.len() > 0 {
        let m = locations.len() - 1;
        let rest = locations.drop_last();
        law_location_broadcasts(addrs, rest);
        assert(m * n + n == locations.len() * n) by (nonlinear_arith)
            requires
                m == locations.len() - 1,
        ;
        assert forall|i: int, j: int| 0 <= i < locations.len() && 0 <= j < n implies #[trigger] out[i * n + j]
            == location_packet_to(addrs[j])(locations[i]) by {
            if i < m {
                assert(i * n + j < m * n) by (nonlinear_arith)
                    requires
                        0 <= i < m,
                        0 <= j < n,
                ;
                assert(0 <= i * n) by (nonlinear_arith)
                    requires
                        0 <= i,
                        0 <= n,
                ;
                assert(rest[i] == locations[i]);
            } else {
                assert(i * n == m * n);
            }
        }
    }
}

/// Where each location packet stands once the broadcasts of `locations` to
/// the clients `cs` follow the packets `before`.
proof fn lemma_broadcasts_after(before: Seq<OutView>, cs: Seq<ClientView>, locations: Seq<EntityData<Vec3_32>>)
    ensures
        (before + location_broadcasts(client_addrs(cs), locations)).len() == before.len() + locations.len()
            * cs.len(),
        forall|i: int, j: int|
            0 <= i < locations.len() && 0 <= j < cs.len() ==> #[trigger] (before + location_broadcasts(
                client_addrs(cs),
                locations,
            ))[before.len() + i * cs.len() + j] == location_packet_to(cs[j].0)(locations[i]),
{
    let addrs = client_addrs(cs);
    law_location_broadcasts(addrs, locations);
    let all = before + location_broadcasts(addrs, locations);
    assert forall|i: int, j: int| 0 <= i < locations.len() && 0 <= j < cs.len() implies #[trigger] all[before.len()
        + i * cs.len() + j] == location_packet_to(cs[j].0)(locations[i]) by {
        let n = cs.len() as int;
        let k = i * n + j;
        assert(0 <= k < locations.len() * n) by (nonlinear_arith)
            requires
                0 <= i < locations.len(),
                0 <= j < n,
                k == i * n + j,
        ;
        assert(addrs.len() == n);
        assert(addrs[j] == cs[j].0);
        assert(location_broadcasts(addrs, locations)[k] == location_packet_to(addrs[j])(locations[i]));
        assert(all[before.len() + k] == location_broadcasts(addrs, locations)[k]);
    }
}

/// The announcements of the given spawned entities to every client, in order.
pub open spec fn spawn_broadcasts(addrs: Seq<NetAddr>, ids: Seq<EntityId>) -> Seq<OutView>
    decreases ids.len(),
{
    if ids.len() == 0 {
        Seq::empty()
    } else {
        spawn_broadcasts(addrs, ids.drop_last()) + broadcast_view(
            addrs,
            encode(PacketRef::Spawn(Spawn { entity_id: ids.last() })),
            Delivery::ReliableOrdered,
        )
    }
}

/// How the server passes on the game's identifier `ack.1` for the request
/// with spawn number `ack.0`: the first client awaiting that number gets the
/// identifier it used and the server's one, and stops awaiting it; every other
/// client (all clients, when none awaited the number) is told of a spawn.
pub open spec fn ack_step(cs: Seq<ClientView>, ack: (u16, EntityId)) -> (Seq<ClientView>, Seq<OutView>) {
    let spawn = encode(PacketRef::Spawn(Spawn { entity_id: ack.1 }));
    match find_spawn(cs, ack.0) {
        Some((c, i)) => {
            let cl = cs[c];
            let ncs = cs.update(c, (cl.0, cl.1.remove(i)));
            let answer = encode(PacketRef::ClientSpawnAck(ClientSpawnAck { client_id: cl.1[i].1, server_id: ack.1 }));
            (
                ncs,
                seq![(cl.0, answer, Delivery::ReliableOrdered)] + broadcast_view(
                    addrs_except(client_addrs(ncs), cl.0),
                    spawn,
                    Delivery::ReliableOrdered,
                ),
            )
        },
        None => (cs, broadcast_view(client_addrs(cs), spawn, Delivery::ReliableOrdered)),
    }
}

/// The clients after passing on the given answers in order, and the packets sent.
pub open spec fn apply_acks(cs: Seq<ClientView>, acks: Seq<(u16, EntityId)>) -> (Seq<ClientView>, Seq<OutView>)
    decreases acks.len(),
{
    if acks.len() == 0 {
        (cs, Seq::empty())
    } else {
        let (c1, o1) = apply_acks(cs, acks.drop_last());
        let (c2, o2) = ack_step(c1, acks.last());
        (c2, o1 + o2)
    }
}

/// Position of the first pending entity with spawn number `spawn_id`.
fn first_pending(entries: &Vec<(u16, EntityId)>, spawn_id: u16) -> (r: Option<usize>)
    ensures
        r matches Some(i) ==> first_match(entries@, has_spawn_id(spawn_id)) == Some(i as int),
        r is None ==> first_match(entries@, has_spawn_id(spawn_id)) is None,
{
    let mut i: usize = 0;
    while i < entries.len()
        invariant
            i <= entries@.len(),
            first_match(entries@.take(i as int), has_spawn_id(spawn_id)) is None,
        decreases entries@.len() - i,
    {
        proof {
            lemma_first_match_step(entries@, has_spawn_id(spawn_id), i as int);
        }
        if entries[i].0 == spawn_id {
            proof {
                lemma_first_match_prefix(entries@, has_spawn_id(spawn_id), i + 1);
            }
            return Some(i);
        }
        i = i + 1;
    }
    assert(entries@.take(i as int) =~= entries@);
    None
}

/// The first client awaiting spawn number `spawn_id`, and the position of the
/// entity in its list.
fn find_pending(clients: &Vec<ConnectedClient>, spawn_id: u16) -> (r: Option<(usize, usize)>)
    ensures
        r matches Some((c, i)) ==> find_spawn(client_views(clients@), spawn_id) == Some((c as int, i as int)),
        r is None ==> find_spawn(client_views(clients@), spawn_id) is None,
{
    let ghost cs = client_views(clients@);
    let mut c: usize = 0;
    while c < clients.len()
        invariant
            c <= clients@.len(),
            cs == client_views(clients@),
            first_match(cs.take(c as int), awaits(spawn_id)) is None,
        decreases clients@.len() - c,
    {
        proof {
            lemma_first_match_step(cs, awaits(spawn_id), c as int);
        }
        match first_pending(&clients[c].spawned_entities, spawn_id) {
            Some(i) => {
                proof {
                    assert(cs[c as int].1 == clients@[c as int].spawned_entities@);
                    lemma_first_match_prefix(cs, awaits(spawn_id), c + 1);
                }
                return Some((c, i));
            },
            None => {
                assert(cs[c as int].1 == clients@[c as int].spawned_entities@);
            },
        }
        c = c + 1;
    }
    assert(cs.take(c as int) =~= cs);
    None
}

/// The network-update side of the server: it tracks the connected clients and
/// their pending replication requests, and relays spawns and locations.
pub struct Server {
    connected_clients: Vec<ConnectedClient>,
    swap_data: SystemSwapData<ServerSwapData>,
    spawn_id_free_list: Vec<u16>,
    next_spawn_id: u16,
}

impl Server {
    /// The connected clients, in order of connection.
    pub closed spec fn clients(&self) -> Seq<ClientView> {
        client_views(self.connected_clients@)
    }

    /// Spawn numbers free for reuse; the last one is reused first.
    pub closed spec fn free_spawn_ids(&self) -> Seq<u16> {
        self.spawn_id_free_list@
    }

    /// The spawn number the counter gives next.
    pub closed spec fn next_spawn(&self) -> u16 {
        self.next_spawn_id
    }

    /// The data shared with the frame update.
    pub closed spec fn swap_view(&self) -> SystemSwapData<ServerSwapData> {
        self.swap_data
    }

    /// Whether a replication request can get a spawn number: one is free, or
    /// the counter has not reached its largest value.
    pub open spec fn spawn_ids_available(&self) -> bool {
        self.free_spawn_ids().len() > 0 || self.next_spawn() < u16::MAX
    }

    /// A server with no clients; the first spawn number is zero.
    pub fn new() -> (r: Self)
        ensures
            r.clients() == Seq::<ClientView>::empty(),
            r.free_spawn_ids() == Seq::<u16>::empty(),
            r.next_spawn() == 0,
            !r.swap_view().is_swapped(),
            r.swap_view().value().server_spawned@ == Seq::<EntityId>::empty(),
            r.swap_view().value().client_spawned@ == Seq::<u16>::empty(),
            r.swap_view().value().client_spawned_acks@ == Seq::<(u16, EntityId)>::empty(),
    {
        let r = Server {
            connected_clients: Vec::new(),
            swap_data: SystemSwapData::new(ServerSwapData::new()),
            spawn_id_free_list: Vec::new(),
            next_spawn_id: 0,
        };
        assert(r.clients() =~= Seq::<ClientView>::empty());
        r
    }

    /// Whether a replication request can get a spawn number.
    pub fn can_allocate_spawn_id(&self) -> (r: bool)
        ensures
            r == self.spawn_ids_available(),
    {
        self.spawn_id_free_list.len() > 0 || self.next_spawn_id < u16::MAX
    }

    /// Whether a client at `addr` is connected.
    pub fn is_connected(&self, addr: NetAddr) -> (r: bool)
        ensures
            r == (client_at(self.clients(), addr) is Some),
    {
        find_client(&self.connected_clients, addr).is_some()
    }

    /// Exchanges the data of this side and the frame update.
    pub fn swap(&mut self, frame_data: &mut ServerFrameData)
        ensures
            final(self).clients() == old(self).clients(),
            final(self).free_spawn_ids() == old(self).free_spawn_ids(),
            final(self).next_spawn() == old(self).next_spawn(),
            final(self).swap_view().value() == old(frame_data).swap_view().value(),
            final(frame_data).swap_view().value() == old(self).swap_view().value(),
            final(self).swap_view().is_swapped(),
            final(frame_data).swap_view().is_swapped(),
    {
        self.swap_data.swap(&mut frame_data.swap_data);
    }

    /// A client connected from `addr`.
    pub fn connect(&mut self, addr: NetAddr)
        ensures
            final(self).clients() == old(self).clients().push((addr, Seq::<(u16, EntityId)>::empty())),
            final(self).free_spawn_ids() == old(self).free_spawn_ids(),
            final(self).next_spawn() == old(self).next_spawn(),
            final(self).swap_view() == old(self).swap_view(),
    {
        self.connected_clients.push(ConnectedClient::new(addr));
        assert(final(self).clients() =~= old(self).clients().push((addr, Seq::<(u16, EntityId)>::empty())));
    }

    /// The client at `addr` disconnected: every client at that address is dropped.
    pub fn disconnect(&mut self, addr: NetAddr)
        ensures
            final(self).clients() == old(self).clients().filter(not_at(addr)),
            final(self).free_spawn_ids() == old(self).free_spawn_ids(),
            final(self).next_spawn() == old(self).next_spawn(),
            final(self).swap_view() == old(self).swap_view(),
    {
        let ghost cs = client_views(self.connected_clients@);
        let mut kept: Vec<ConnectedClient> = Vec::new();
        let mut rest: Vec<ConnectedClient> = Vec::new();
        core::mem::swap(&mut rest, &mut self.connected_clients);
        let ghost n = cs.len();
        while rest.len() > 0
            invariant
                n == cs.len(),
                rest@.len() <= n,
                client_views(rest@) == cs.subrange(n - rest@.len(), n as int),
                client_views(kept@) == cs.subrange(0, n - rest@.len()).filter(not_at(addr)),
            decreases rest@.len(),
        {
            let ghost before = rest@;
            let ghost k = n - rest@.len();
            let c = rest.remove(0);
            proof {
                assert(client_views(before)[0] == (c.addr, c.spawned_entities@));
                assert(cs[k] == client_views(before)[0]);
                assert(rest@ =~= before.subrange(1, before.len() as int));
                assert forall|j: int| 0 <= j < rest@.len() implies client_views(rest@)[j] == cs.subrange(
                    k + 1,
                    n as int,
                )[j] by {
                    assert(client_views(rest@)[j] == client_views(before)[j + 1]);
                    assert(client_views(before)[j + 1] == cs.subrange(k, n as int)[j + 1]);
                }
                assert(client_views(rest@) =~= cs.subrange(k + 1, n as int));
                assert(cs.subrange(0, k + 1).drop_last() =~= cs.subrange(0, k));
                assert(cs.subrange(0, k + 1).last() == cs[k]);
                reveal_with_fuel(Seq::filter, 1);
            }
            if c.addr != addr {
                let ghost before_k = kept@;
                kept.push(c);
                assert(client_views(kept@) =~= client_views(before_k).push((c.addr, c.spawned_entities@)));
            }
        }
        assert(cs.subrange(0, n as int) =~= cs);
        self.connected_clients = kept;
    }

    /// Handles a request from the client at `addr` to replicate `entity_id`:
    /// if that client is connected, the request gets the next spawn number,
    /// the client's entity awaits the server's identifier under that number,
    /// and the number is handed to the frame update.
    pub fn handle_client_spawn(&mut self, entity_id: EntityId, addr: NetAddr)
        requires
            client_at(old(self).clients(), addr) is Some ==> old(self).spawn_ids_available(),
        ensures
            final(self).swap_view().is_swapped() == old(self).swap_view().is_swapped(),
            final(self).swap_view().value().server_spawned@ == old(self).swap_view().value().server_spawned@,
            final(self).swap_view().value().client_spawned_acks@
                == old(self).swap_view().value().client_spawned_acks@,
            match client_at(old(self).clients(), addr) {
                Some(k) => {
                    let sid = allocated_spawn_id(old(self).free_spawn_ids(), old(self).next_spawn());
                    let c = old(self).clients()[k];
                    &&& final(self).clients() == old(self).clients().update(k, (c.0, c.1.push((sid, entity_id))))
                    &&& final(self).swap_view().value().client_spawned@
                        == old(self).swap_view().value().client_spawned@.push(sid)
                    &&& old(self).free_spawn_ids().len() > 0 ==> {
                        &&& final(self).free_spawn_ids() == old(self).free_spawn_ids().drop_last()
                        &&& final(self).next_spawn() == old(self).next_spawn()
                    }
                    &&& old(self).free_spawn_ids().len() == 0 ==> {
                        &&& final(self).free_spawn_ids() == old(self).free_spawn_ids()
                        &&& final(self).next_spawn() == old(self).next_spawn() + 1
                    }
                },
                None => {
                    &&& final(self).clients() == old(self).clients()
                    &&& final(self).free_spawn_ids() == old(self).free_spawn_ids()
                    &&& final(self).next_spawn() == old(self).next_spawn()
                    &&& final(self).swap_view().value().client_spawned@
                        == old(self).swap_view().value().client_spawned@
                },
            },
    {
        proof {
            lemma_first_match(client_views(self.connected_clients@), is_at(addr));
        }
        match find_client(&self.connected_clients, addr) {
            Some(k) => {
                let spawn_id = match self.spawn_id_free_list.pop() {
                    Some(id) => id,
                    None => {
                        let id = self.next_spawn_id;
                        self.next_spawn_id = self.next_spawn_id + 1;
                        id
                    },
                };
                let mut client = self.connected_clients.remove(k);
                client.spawned_entities.push((spawn_id, entity_id));
                self.connected_clients.insert(k, client);
                let data = self.swap_data.get_mut();
                data.client_spawned.push(spawn_id);
                proof {
                    let c = old(self).clients()[k as int];
                    assert(final(self).clients() =~= old(self).clients().update(
                        k as int,
                        (c.0, c.1.push((spawn_id, entity_id))),
                    ));
                }
            },
            None => {},
        }
    }

    /// Handles a location from the client at `addr`: it goes to the update
    /// buffer as written by thread `thread_index` and is relayed to the other
    /// clients.
    pub fn handle_location(
        &self,
        location: Location,
        addr: NetAddr,
        update_buffer: &mut UpdateBuffer,
        thread_index: usize,
        out: &mut Vec<Outgoing>,
    )
        requires
            old(update_buffer).wf(),
            thread_index < old(update_buffer).thread_count(),
        ensures
            final(update_buffer).wf(),
            final(update_buffer).thread_count() == old(update_buffer).thread_count(),
            final(update_buffer).previous() == old(update_buffer).previous(),
            final(update_buffer).written() == appended(
                old(update_buffer).written(),
                thread_index as int,
                seq![EntityData { entity_id: location.entity_id, data: location.location }],
            ),
            sent(final(out)@) == sent(old(out)@) + location_relay(self.clients(), addr, location),
    {
        proof {
            old(update_buffer).lemma_shape();
        }
        update_buffer.push_location(thread_index, location.entity_id, location.location);
        assert(old(update_buffer).written()[thread_index as int].push(
            EntityData { entity_id: location.entity_id, data: location.location },
        ) =~= old(update_buffer).written()[thread_index as int] + seq![
            EntityData { entity_id: location.entity_id, data: location.location },
        ]);
        let addrs = addrs_of(&self.connected_clients);
        let others = filter_addrs(&addrs, addr);
        let payload = PacketRef::Location(location).serialize();
        broadcast(out, &others, &payload, Delivery::UnreliableSequenced);
    }

    /// Handles a packet from `addr`: a peer that is not connected is first
    /// answered with a handshake; a replication request or a location is then
    /// handled, and anything else ignored.
    pub fn recv(
        &mut self,
        addr: NetAddr,
        packet: PacketRef,
        update_buffer: &mut UpdateBuffer,
        thread_index: usize,
        out: &mut Vec<Outgoing>,
    )
        requires
            old(update_buffer).wf(),
            thread_index < old(update_buffer).thread_count(),
            packet is ClientSpawn && client_at(old(self).clients(), addr) is Some ==> old(
                self,
            ).spawn_ids_available(),
        ensures
            ({
                let handshake = if client_at(old(self).clients(), addr) is None {
                    seq![(addr, encode(PacketRef::Connect(Connect)), Delivery::ReliableUnordered)]
                } else {
                    Seq::empty()
                };
                match packet {
                    PacketRef::Location(l) => {
                        &&& sent(final(out)@) == sent(old(out)@) + handshake + location_relay(
                            old(self).clients(),
                            addr,
                            l,
                        )
                        &&& final(update_buffer).written() == appended(
                            old(update_buffer).written(),
                            thread_index as int,
                            seq![EntityData { entity_id: l.entity_id, data: l.location }],
                        )
                    },
                    _ => {
                        &&& sent(final(out)@) == sent(old(out)@) + handshake
                        &&& final(update_buffer).written() == old(update_buffer).written()
                    },
                }
            }),
            final(update_buffer).wf(),
            final(update_buffer).thread_count() == old(update_buffer).thread_count(),
            final(update_buffer).previous() == old(update_buffer).previous(),
            final(self).swap_view().is_swapped() == old(self).swap_view().is_swapped(),
            final(self).swap_view().value().server_spawned@ == old(self).swap_view().value().server_spawned@,
            final(self).swap_view().value().client_spawned_acks@
                == old(self).swap_view().value().client_spawned_acks@,
            match (packet, client_at(old(self).clients(), addr)) {
                (PacketRef::ClientSpawn(c), Some(k)) => {
                    let sid = allocated_spawn_id(old(self).free_spawn_ids(), old(self).next_spawn());
                    let cl = old(self).clients()[k];
                    &&& final(self).clients() == old(self).clients().update(
                        k,
                        (cl.0, cl.1.push((sid, c.entity_id))),
                    )
                    &&& final(self).swap_view().value().client_spawned@
                        == old(self).swap_view().value().client_spawned@.push(sid)
                    &&& old(self).free_spawn_ids().len() > 0 ==> {
                        &&& final(self).free_spawn_ids() == old(self).free_spawn_ids().drop_last()
                        &&& final(self).next_spawn() == old(self).next_spawn()
                    }
                    &&& old(self).free_spawn_ids().len() == 0 ==> {
                        &&& final(self).free_spawn_ids() == old(self).free_spawn_ids()
                        &&& final(self).next_spawn() == old(self).next_spawn() + 1
                    }
                },
                _ => {
                    &&& final(self).clients() == old(self).clients()
                    &&& final(self).free_spawn_ids() == old(self).free_spawn_ids()
                    &&& final(self).next_spawn() == old(self).next_spawn()
                    &&& final(self).swap_view().value().client_spawned@
                        == old(self).swap_view().value().client_spawned@
                },
            },
    {
        if !self.is_connected(addr) {
            let payload = PacketRef::Connect(Connect).serialize();
            let ghost before = out@;
            out.push(Outgoing { addr, payload, delivery: Delivery::ReliableUnordered });
            assert(sent(out@) =~= sent(before) + seq![
                (addr, encode(PacketRef::Connect(Connect)), Delivery::ReliableUnordered),
            ]);
        } else {
            assert(sent(out@) =~= sent(old(out)@) + Seq::<OutView>::empty());
        }
        let ghost after_handshake = sent(out@);
        match packet {
            PacketRef::ClientSpawn(c) => {
                self.handle_client_spawn(c.entity_id, addr);
            },
            PacketRef::Location(l) => {
                self.handle_location(l, addr, update_buffer, thread_index, out);
            },
            _ => {},
        }
    }

    /// Broadcasts to every client the locations that systems wrote during the
    /// previous update.
    pub fn update_state(&self, update_buffer: &UpdateBuffer, out: &mut Vec<Outgoing>)
        requires
            update_buffer.wf(),
        ensures
            sent(final(out)@) == sent(old(out)@) + location_broadcasts(
                client_addrs(self.clients()),
                update_buffer.previous().flatten(),
            ),
            sent(final(out)@).len() == sent(old(out)@).len() + update_buffer.previous().flatten().len()
                * self.clients().len(),
            forall|i: int, j: int|
                0 <= i < update_buffer.previous().flatten().len() && 0 <= j < self.clients().len()
                    ==> #[trigger] sent(final(out)@)[sent(old(out)@).len() + i * self.clients().len() + j]
                    == location_packet_to(self.clients()[j].0)(update_buffer.previous().flatten()[i]),
    {
        proof {
            lemma_broadcasts_after(sent(old(out)@), self.clients(), update_buffer.previous().flatten());
        }
        let locations = update_buffer.locations();
        let addrs = addrs_of(&self.connected_clients);
        let mut i: usize = 0;
        while i < locations.len()
            invariant
                i <= locations@.len(),
                addrs@ == client_addrs(self.clients()),
                sent(out@) == sent(old(out)@) + location_broadcasts(addrs@, locations@.take(i as int)),
            decreases locations@.len() - i,
        {
            let l = locations[i];
            assert(locations@.take(i + 1).drop_last() =~= locations@.take(i as int));
            let payload = PacketRef::Location(Location { entity_id: l.entity_id, location: l.data }).serialize();
            let ghost before = sent(out@);
            broadcast(out, &addrs, &payload, Delivery::UnreliableSequenced);
            assert(sent(out@) =~= sent(old(out)@) + location_broadcasts(addrs@, locations@.take(i + 1)));
            i = i + 1;
        }
        assert(locations@.take(i as int) =~= locations@);
    }

    /// Sends a heartbeat to every client.
    pub fn heartbeat(&self, out: &mut Vec<Outgoing>)
        ensures
            sent(final(out)@) == sent(old(out)@) + broadcast_view(
                client_addrs(self.clients()),
                encode(PacketRef::Heartbeat(Heartbeat)),
                Delivery::ReliableOrdered,
            ),
    {
        let addrs = addrs_of(&self.connected_clients);
        let payload = PacketRef::Heartbeat(Heartbeat).serialize();
        broadcast(out, &addrs, &payload, Delivery::ReliableOrdered);
    }

    /// Passes on the game's identifier for one replication request.
    fn ack_one(&mut self, ack: (u16, EntityId), out: &mut Vec<Outgoing>)
        ensures
            final(self).clients() == ack_step(old(self).clients(), ack).0,
            sent(final(out)@) == sent(old(out)@) + ack_step(old(self).clients(), ack).1,
            final(self).free_spawn_ids() == old(self).free_spawn_ids(),
            final(self).next_spawn() == old(self).next_spawn(),
            final(self).swap_view() == old(self).swap_view(),
    {
        let (spawn_id, entity_id) = ack;
        let spawn = PacketRef::Spawn(Spawn { entity_id }).serialize();
        match find_pending(&self.connected_clients, spawn_id) {
            Some((c, i)) => {
                proof {
                    lemma_first_match(client_views(self.connected_clients@), awaits(spawn_id));
                    lemma_first_match(self.connected_clients@[c as int].spawned_entities@, has_spawn_id(spawn_id));
                }
                let mut client = self.connected_clients.remove(c);
                let (_, client_id) = client.spawned_entities.remove(i);
                let client_addr = client.addr;
                self.connected_clients.insert(c, client);
                proof {
                    let cl = old(self).clients()[c as int];
                    assert(self.clients() =~= old(self).clients().update(c as int, (cl.0, cl.1.remove(i as int))));
                }
                let answer = PacketRef::ClientSpawnAck(ClientSpawnAck { client_id, server_id: entity_id }).serialize();
                let ghost before = sent(out@);
                out.push(Outgoing { addr: client_addr, payload: answer, delivery: Delivery::ReliableOrdered });
                assert(sent(out@) =~= before + seq![(client_addr, answer@, Delivery::ReliableOrdered)]);
                let addrs = addrs_of(&self.connected_clients);
                let others = filter_addrs(&addrs, client_addr);
                broadcast(out, &others, &spawn, Delivery::ReliableOrdered);
                assert(sent(out@) =~= sent(old(out)@) + ack_step(old(self).clients(), ack).1);
            },
            None => {
                let addrs = addrs_of(&self.connected_clients);
                broadcast(out, &addrs, &spawn, Delivery::ReliableOrdered);
            },
        }
    }

    /// Announces the entities spawned on the server to every client, passes
    /// on the game's identifiers for the clients' replication requests, and
    /// forgets both.
    pub fn update_swap(&mut self, out: &mut Vec<Outgoing>)
        ensures
            ({
                let d = old(self).swap_view().value();
                let cs = old(self).clients();
                let acked = apply_acks(cs, d.client_spawned_acks@);
                &&& sent(final(out)@) == sent(old(out)@) + spawn_broadcasts(client_addrs(cs), d.server_spawned@)
                    + acked.1
                &&& final(self).clients() == acked.0
                &&& final(self).free_spawn_ids() == old(self).free_spawn_ids()
                &&& final(self).next_spawn() == old(self).next_spawn()
                &&& final(self).swap_view().is_swapped() == old(self).swap_view().is_swapped()
                &&& final(self).swap_view().value().server_spawned@ == Seq::<EntityId>::empty()
                &&& final(self).swap_view().value().client_spawned_acks@ == Seq::<(u16, EntityId)>::empty()
                &&& final(self).swap_view().value().client_spawned@ == d.client_spawned@
            }),
    {
        let mut spawned: Vec<EntityId> = Vec::new();
        let mut acks: Vec<(u16, EntityId)> = Vec::new();
        {
            let data = self.swap_data.get_mut();
            core::mem::swap(&mut spawned, &mut data.server_spawned);
            core::mem::swap(&mut acks, &mut data.client_spawned_acks);
        }
        let ghost cs = self.clients();
        let addrs = addrs_of(&self.connected_clients);
        let mut i: usize = 0;
        while i < spawned.len()
            invariant
                i <= spawned@.len(),
                addrs@ == client_addrs(cs),
                sent(out@) == sent(old(out)@) + spawn_broadcasts(addrs@, spawned@.take(i as int)),
            decreases spawned@.len() - i,
        {
            assert(spawned@.take(i + 1).drop_last() =~= spawned@.take(i as int));
            let payload = PacketRef::Spawn(Spawn { entity_id: spawned[i] }).serialize();
            broadcast(out, &addrs, &payload, Delivery::ReliableOrdered);
            assert(sent(out@) =~= sent(old(out)@) + spawn_broadcasts(addrs@, spawned@.take(i + 1)));
            i = i + 1;
        }
        assert(spawned@.take(i as int) =~= spawned@);
        let ghost after_spawns = sent(out@);
        let mut k: usize = 0;
        while k < acks.len()
            invariant
                k <= acks@.len(),
                self.clients() == apply_acks(cs, acks@.take(k as int)).0,
                sent(out@) == after_spawns + apply_acks(cs, acks@.take(k as int)).1,
                self.free_spawn_ids() == old(self).free_spawn_ids(),
                self.next_spawn() == old(self).next_spawn(),
                self.swap_view().is_swapped() == old(self).swap_view().is_swapped(),
                self.swap_view().value().server_spawned@ == Seq::<EntityId>::empty(),
                self.swap_view().value().client_spawned_acks@ == Seq::<(u16, EntityId)>::empty(),
                self.swap_view().value().client_spawned@ == old(self).swap_view().value().client_spawned@,
            decreases acks@.len() - k,
        {
            assert(acks@.take(k + 1).drop_last() =~= acks@.take(k as int));
            let ghost before = sent(out@);
            self.ack_one(acks[k], out);
            assert(sent(out@) =~= after_spawns + apply_acks(cs, acks@.take(k + 1)).1);
            k = k + 1;
        }
        assert(acks@.take(k as int) =~= acks@);
    }
}

/// Whether this game runs alone, as a client of a server, or as the server.
#[derive(Clone, Copy, PartialEq, Eq, Structural, Debug)]
pub enum NetworkRole {
    Offline,
    Client,
    Server,
}

/// The role that the game events of a frame switch to, starting from `current`:
/// the last role event wins.
pub open spec fn role_after(current: NetworkRole, events: Seq<GameEvent>) -> NetworkRole
    decreases events.len(),
{
    if events.len() == 0 {
        current
    } else {
        match events.last() {
            GameEvent::NetworkRoleServer => NetworkRole::Server,
            GameEvent::NetworkRoleClient => NetworkRole::Client,
            GameEvent::NetworkRoleOffline => NetworkRole::Offline,
            _ => role_after(current, events.drop_last()),
        }
    }
}

/// Whether some game event switches the role.
pub open spec fn has_role_event(events: Seq<GameEvent>) -> bool {
    exists|i: int|
        0 <= i < events.len() && (events[i] is NetworkRoleServer || events[i] is NetworkRoleClient
            || events[i] is NetworkRoleOffline)
}

/// Whether `e` switches the role.
pub open spec fn is_role_event(e: GameEvent) -> bool {
    e is NetworkRoleServer || e is NetworkRoleClient || e is NetworkRoleOffline
}

/// Without a role event the role stays.
proof fn lemma_role_after_none(current: NetworkRole, events: Seq<GameEvent>)
    requires
        !has_role_event(events),
    ensures
        role_after(current, events) == current,
    decreases events.len(),
{
    if events.len() > 0 {
        let k = events.len() - 1;
        assert(!is_role_event(events[k]));
        assert(!has_role_event(events.drop_last())) by {
            if has_role_event(events.drop_last()) {
                let i = choose|i: int|
                    0 <= i < events.drop_last().len() && (events.drop_last()[i] is NetworkRoleServer
                        || events.drop_last()[i] is NetworkRoleClient || events.drop_last()[i] is NetworkRoleOffline);
                assert(events[i] == events.drop_last()[i]);
            }
        }
        lemma_role_after_none(current, events.drop_last());
    }
}

/// A role event among the first `i + 1` events is one among the first `i`
/// or the event at `i`.
proof fn lemma_has_role_event_step(events: Seq<GameEvent>, i: int)
    requires
        0 <= i < events.len(),
    ensures
        has_role_event(events.take(i + 1)) == (has_role_event(events.take(i)) || is_role_event(events[i])),
{
    let a = events.take(i);
    let b = events.take(i + 1);
    if has_role_event(a) {
        let k = choose|k: int| 0 <= k < a.len() && (a[k] is NetworkRoleServer || a[k] is NetworkRoleClient || a[k] is NetworkRoleOffline);
        assert(b[k] == a[k]);
    }
    if is_role_event(events[i]) {
        assert(b[i] == events[i]);
    }
    if has_role_event(b) {
        let k = choose|k: int| 0 <= k < b.len() && (b[k] is NetworkRoleServer || b[k] is NetworkRoleClient || b[k] is NetworkRoleOffline);
        if k < i {
            assert(a[k] == b[k]);
        }
    }
}

/// Frame data that has nothing handed over and nothing queued.
pub open spec fn is_fresh(u: FrameUpdateImpl) -> bool {
    match u {
        FrameUpdateImpl::Server(d) => {
            &&& !d.swap_view().is_swapped()
            &&& d.swap_view().value().server_spawned@ == Seq::<EntityId>::empty()
            &&& d.swap_view().value().client_spawned@ == Seq::<u16>::empty()
            &&& d.swap_view().value().client_spawned_acks@ == Seq::<(u16, EntityId)>::empty()
        },
        FrameUpdateImpl::Client(d) => {
            &&& !d.swap_view().is_swapped()
            &&& d.swap_view().value().server_spawned@ == Seq::<EntityId>::empty()
            &&& d.swap_view().value().client_spawned@ == Seq::<EntityId>::empty()
            &&& d.swap_view().value().client_spawned_ack@ == Seq::<(EntityId, EntityId)>::empty()
        },
        FrameUpdateImpl::Offline => true,
    }
}

/// The frame-update side of the network system in each role.
pub enum FrameUpdateImpl {
    Server(ServerFrameData),
    Client(ClientFrameData),
    Offline,
}

impl FrameUpdateImpl {
    /// The role.
    pub open spec fn role(&self) -> NetworkRole {
        match self {
            FrameUpdateImpl::Server(_) => NetworkRole::Server,
            FrameUpdateImpl::Client(_) => NetworkRole::Client,
            FrameUpdateImpl::Offline => NetworkRole::Offline,
        }
    }
}

/// The frame-update side of the network system.
pub struct FrameData {
    update_impl: FrameUpdateImpl,
}

impl FrameData {
    /// The frame data of the current role.
    pub closed spec fn update_impl_view(&self) -> &FrameUpdateImpl {
        &self.update_impl
    }

    /// The current role.
    pub open spec fn role(&self) -> NetworkRole {
        self.update_impl_view().role()
    }

    /// Offline.
    pub fn new() -> (r: Self)
        ensures
            r.role() == NetworkRole::Offline,
    {
        FrameData { update_impl: FrameUpdateImpl::Offline }
    }

    /// The current role.
    pub fn network_role(&self) -> (r: NetworkRole)
        ensures
            r == self.role(),
    {
        match &self.update_impl {
            FrameUpdateImpl::Server(_) => NetworkRole::Server,
            FrameUpdateImpl::Client(_) => NetworkRole::Client,
            FrameUpdateImpl::Offline => NetworkRole::Offline,
        }
    }

    /// Switches role as the frame's game events say, starting afresh for the
    /// new role even if it is the same, then runs the frame update of the role
    /// as written by thread `thread_index`.
    pub fn update(&mut self, events: &mut EventManager, thread_index: usize)
        requires
            old(events).wf(),
            thread_index < old(events).thread_count(),
            role_after(old(self).role(), old(events).game_events_view()) != NetworkRole::Offline ==> no_despawn(
                old(events).game_events_view(),
            ),
        ensures
            final(self).role() == role_after(old(self).role(), old(events).game_events_view()),
            final(events).wf(),
            final(events).thread_count() == old(events).thread_count(),
            final(events).game_events_view() == old(events).game_events_view(),
            final(events).frame_events_written() == old(events).frame_events_written(),
            final(events).frame_events_previous() == old(events).frame_events_previous(),
            final(events).system_events_previous() == old(events).system_events_previous(),
            final(events).input_events_view() == old(events).input_events_view(),
            final(events).network_events_view() == old(events).network_events_view(),
            final(self).role() == NetworkRole::Offline ==> final(events).system_events_written() == old(
                events,
            ).system_events_written(),
            ({
                let g = old(events).game_events_view();
                let start = if has_role_event(g) {
                    None
                } else {
                    Some(*old(self).update_impl_view())
                };
                &&& final(self).role() == NetworkRole::Server ==> {
                    let fin = final(self).update_impl_view()->Server_0.swap_view();
                    let (swapped, cs, ss, acks) = match start {
                        Some(FrameUpdateImpl::Server(d)) => (
                            d.swap_view().is_swapped(),
                            d.swap_view().value().client_spawned@,
                            d.swap_view().value().server_spawned@,
                            d.swap_view().value().client_spawned_acks@,
                        ),
                        _ => (false, Seq::<u16>::empty(), Seq::<EntityId>::empty(), Seq::<(u16, EntityId)>::empty()),
                    };
                    &&& !fin.is_swapped()
                    &&& fin.value().client_spawned@ == (if swapped { Seq::<u16>::empty() } else { cs })
                    &&& fin.value().server_spawned@ == ss + replicated_spawns(g)
                    &&& fin.value().client_spawned_acks@ == acks + spawn_acks(g)
                    &&& final(events).system_events_written() == appended(
                        old(events).system_events_written(),
                        thread_index as int,
                        if swapped {
                            cs.map_values(|s: u16| SystemGameEvent::NetworkClientSpawn(s))
                        } else {
                            Seq::empty()
                        },
                    )
                }
                &&& final(self).role() == NetworkRole::Client ==> {
                    let fin = final(self).update_impl_view()->Client_0.swap_view();
                    let (swapped, cs, ss, acks) = match start {
                        Some(FrameUpdateImpl::Client(d)) => (
                            d.swap_view().is_swapped(),
                            d.swap_view().value().client_spawned@,
                            d.swap_view().value().server_spawned@,
                            d.swap_view().value().client_spawned_ack@,
                        ),
                        _ => (
                            false,
                            Seq::<EntityId>::empty(),
                            Seq::<EntityId>::empty(),
                            Seq::<(EntityId, EntityId)>::empty(),
                        ),
                    };
                    &&& !fin.is_swapped()
                    &&& fin.value().client_spawned@ == cs + replicated_spawns(g)
                    &&& fin.value().server_spawned@ == (if swapped { Seq::<EntityId>::empty() } else { ss })
                    &&& fin.value().client_spawned_ack@ == (if swapped {
                        Seq::<(EntityId, EntityId)>::empty()
                    } else {
                        acks
                    })
                    &&& final(events).system_events_written() == appended(
                        old(events).system_events_written(),
                        thread_index as int,
                        if swapped {
                            ss.map_values(|e: EntityId| SystemGameEvent::NetworkSpawn(e)) + acks.map_values(
                                |p: (EntityId, EntityId)|
                                    SystemGameEvent::NetworkClientSpawnAck { client_id: p.0, replicable_id: p.1 },
                            )
                        } else {
                            Seq::empty()
                        },
                    )
                }
            }),
    {
        let game_events = events.game_events();
        let mut i: usize = 0;
        while i < game_events.len()
            invariant
                i <= game_events@.len(),
                self.role() == role_after(old(self).role(), game_events@.take(i as int)),
                has_role_event(game_events@.take(i as int)) ==> is_fresh(self.update_impl),
                !has_role_event(game_events@.take(i as int)) ==> self.update_impl == old(self).update_impl,
            decreases game_events@.len() - i,
        {
            proof {
                lemma_has_role_event_step(game_events@, i as int);
            }
            assert(game_events@.take(i + 1).drop_last() =~= game_events@.take(i as int));
            match game_events[i] {
                GameEvent::NetworkRoleServer => {
                    self.update_impl = FrameUpdateImpl::Server(ServerFrameData::new());
                },
                GameEvent::NetworkRoleClient => {
                    self.update_impl = FrameUpdateImpl::Client(ClientFrameData::new());
                },
                GameEvent::NetworkRoleOffline => {
                    self.update_impl = FrameUpdateImpl::Offline;
                },
                _ => {},
            }
            i = i + 1;
        }
        assert(game_events@.take(i as int) =~= game_events@);
        proof {
            if !has_role_event(game_events@) {
                lemma_role_after_none(old(self).role(), game_events@);
            }
        }
        match &mut self.update_impl {
            FrameUpdateImpl::Server(frame_data) => {
                frame_data.update(events, thread_index);
            },
            FrameUpdateImpl::Client(frame_data) => {
                frame_data.update(events, thread_index);
            },
            FrameUpdateImpl::Offline => {},
        }
    }
}

/// The network-update side of the network system in each role.
pub enum FixedUpdateImpl {
    Offline,
    Client(Box<Client>),
    Server(Box<Server>),
}

impl FixedUpdateImpl {
    /// The role.
    pub open spec fn role(&self) -> NetworkRole {
        match self {
            FixedUpdateImpl::Server(_) => NetworkRole::Server,
            FixedUpdateImpl::Client(_) => NetworkRole::Client,
            FixedUpdateImpl::Offline => NetworkRole::Offline,
        }
    }
}

/// The network-update side of the network system.
pub struct FixedData {
    update_impl: FixedUpdateImpl,
}

impl FixedData {
    /// The network update of the current role.
    pub closed spec fn update_impl_view(&self) -> &FixedUpdateImpl {
        &self.update_impl
    }

    /// The current role.
    pub open spec fn role(&self) -> NetworkRole {
        self.update_impl_view().role()
    }

    /// Offline.
    pub fn new() -> (r: Self)
        ensures
            r.role() == NetworkRole::Offline,
    {
        FixedData { update_impl: FixedUpdateImpl::Offline }
    }

    /// The current role.
    pub fn network_role(&self) -> (r: NetworkRole)
        ensures
            r == self.role(),
    {
        match &self.update_impl {
            FixedUpdateImpl::Server(_) => NetworkRole::Server,
            FixedUpdateImpl::Client(_) => NetworkRole::Client,
            FixedUpdateImpl::Offline => NetworkRole::Offline,
        }
    }

    /// Takes on the role of the frame update, starting afresh if it differs,
    /// and exchanges data with the frame update. Returns whether the role
    /// changed, so that the connection of the old role is to be closed and
    /// one for the new role opened.
    pub fn swap(&mut self, frame_data: &mut FrameData) -> (r: bool)
        ensures
            r == (old(self).role() != old(frame_data).role()),
            final(self).role() == old(frame_data).role(),
            final(frame_data).role() == old(frame_data).role(),
            final(self).role() == NetworkRole::Server ==> {
                let fs = final(self).update_impl_view()->Server_0;
                let ff = final(frame_data).update_impl_view()->Server_0;
                let of = old(frame_data).update_impl_view()->Server_0;
                let os = old(self).update_impl_view()->Server_0;
                &&& fs.swap_view().value() == of.swap_view().value()
                &&& fs.swap_view().is_swapped()
                &&& ff.swap_view().is_swapped()
                &&& !r ==> {
                    &&& ff.swap_view().value() == os.swap_view().value()
                    &&& fs.clients() == os.clients()
                    &&& fs.free_spawn_ids() == os.free_spawn_ids()
                    &&& fs.next_spawn() == os.next_spawn()
                }
                &&& r ==> {
                    &&& ff.swap_view().value().server_spawned@ == Seq::<EntityId>::empty()
                    &&& ff.swap_view().value().client_spawned@ == Seq::<u16>::empty()
                    &&& ff.swap_view().value().client_spawned_acks@ == Seq::<(u16, EntityId)>::empty()
                    &&& fs.clients() == Seq::<ClientView>::empty()
                    &&& fs.free_spawn_ids() == Seq::<u16>::empty()
                    &&& fs.next_spawn() == 0
                }
            },
            final(self).role() == NetworkRole::Client ==> {
                let fs = final(self).update_impl_view()->Client_0;
                let ff = final(frame_data).update_impl_view()->Client_0;
                let of = old(frame_data).update_impl_view()->Client_0;
                let os = old(self).update_impl_view()->Client_0;
                &&& fs.swap_view().value() == of.swap_view().value()
                &&& fs.swap_view().is_swapped()
                &&& ff.swap_view().is_swapped()
                &&& !r ==> {
                    &&& ff.swap_view().value() == os.swap_view().value()
                    &&& fs.server() == os.server()
                }
                &&& r ==> {
                    &&& ff.swap_view().value().server_spawned@ == Seq::<EntityId>::empty()
                    &&& ff.swap_view().value().client_spawned@ == Seq::<EntityId>::empty()
                    &&& ff.swap_view().value().client_spawned_ack@ == Seq::<(EntityId, EntityId)>::empty()
                    &&& fs.server() == spec_server_addr()
                }
            },
    {
        let role = match &frame_data.update_impl {
            FrameUpdateImpl::Server(_) => NetworkRole::Server,
            FrameUpdateImpl::Client(_) => NetworkRole::Client,
            FrameUpdateImpl::Offline => NetworkRole::Offline,
        };
        let changed = self.network_role() != role;
        if changed {
            self.update_impl = match role {
                NetworkRole::Server => FixedUpdateImpl::Server(Box::new(Server::new())),
                NetworkRole::Client => FixedUpdateImpl::Client(Box::new(Client::new())),
                NetworkRole::Offline => FixedUpdateImpl::Offline,
            };
        }
        match &mut self.update_impl {
            FixedUpdateImpl::Server(server) => {
                match &mut frame_data.update_impl {
                    FrameUpdateImpl::Server(frame) => server.swap(frame),
                    _ => {},
                }
            },
            FixedUpdateImpl::Client(client) => {
                match &mut frame_data.update_impl {
                    FrameUpdateImpl::Client(frame) => client.swap(frame),
                    _ => {},
                }
            },
            FixedUpdateImpl::Offline => {},
        }
        changed
    }

    /// The server, when the role is server.
    pub fn server_mut(&mut self) -> (r: Option<&mut Server>)
        ensures
            old(self).role() == NetworkRole::Server <==> r is Some,
            final(self).role() == old(self).role(),
            r matches Some(s) ==> {
                &&& *s == *(old(self).update_impl_view()->Server_0)
                &&& *(final(self).update_impl_view()->Server_0) == *final(s)
            },
    {
        match &mut self.update_impl {
            FixedUpdateImpl::Server(server) => Some(&mut **server),
            _ => None,
        }
    }

    /// The client, when the role is client.
    pub fn client_mut(&mut self) -> (r: Option<&mut Client>)
        ensures
            old(self).role() == NetworkRole::Client <==> r is Some,
            final(self).role() == old(self).role(),
            r matches Some(c) ==> {
                &&& *c == *(old(self).update_impl_view()->Client_0)
                &&& *(final(self).update_impl_view()->Client_0) == *final(c)
            },
    {
        match &mut self.update_impl {
            FixedUpdateImpl::Client(client) => Some(&mut **client),
            _ => None,
        }
    }
}

/// Whether `f` picks `b` out of some element of `s`.
pub open spec fn picked_from<A, B>(s: Seq<A>, f: spec_fn(A) -> Option<B>, b: B) -> bool {
    exists|i: int| 0 <= i < s.len() && f(#[trigger] s[i]) == Some(b)
}

/// What `filter_map` keeps: no more than there were elements, everything
/// that `f` picks, and only what `f` picks.
pub(crate) proof fn lemma_filter_map_picks<A, B>(s: Seq<A>, f: spec_fn(A) -> Option<B>)
    ensures
        s.filter_map(f).len() <= s.len(),
        forall|i: int| 0 <= i < s.len() && f(#[trigger] s[i]) is Some ==> s.filter_map(f).contains(f(s[i])->0),
        forall|j: int| 0 <= j < s.filter_map(f).len() ==> #[trigger] picked_from(s, f, s.filter_map(f)[j]),
    decreases s.len(),
{
    if s.len() > 0 {
        let n = s.len() - 1;
        let rest = s.drop_last();
        lemma_filter_map_picks(rest, f);
        let out = s.filter_map(f);
        let r = rest.filter_map(f);
        assert forall|i: int| 0 <= i < s.len() && f(#[trigger] s[i]) is Some implies out.contains(f(s[i])->0) by {
            if i < n {
                assert(rest[i] == s[i]);
                let k = choose|k: int| 0 <= k < r.len() && r[k] == f(rest[i])->0;
                assert(out[k] == r[k]);
            } else {
                assert(out[out.len() - 1] == f(s[i])->0);
            }
        }
        assert forall|j: int| 0 <= j < out.len() implies #[trigger] picked_from(s, f, out[j]) by {
            if j < r.len() {
                assert(out[j] == r[j]);
                assert(picked_from(rest, f, r[j]));
                let i = choose|i: int| 0 <= i < rest.len() && f(#[trigger] rest[i]) == Some(r[j]);
                assert(s[i] == rest[i]);
            } else {
                assert(f(s[n]) == Some(out[j]));
            }
        }
    }
}

/// The entity that a game event spawns to be replicated, if it does.
pub open spec fn replicated_spawn_of() -> spec_fn(GameEvent) -> Option<EntityId> {
    |e: GameEvent|
        match e {
            GameEvent::Spawn { entity_id, replicate: true } => Some(entity_id),
            _ => None,
        }
}

/// Which spawns are replicated (law): the entity of every game event that
/// spawns an entity to be replicated, and only such entities.
pub proof fn law_replicated_spawns(events: Seq<GameEvent>)
    ensures
        replicated_spawns(events) == events.filter_map(replicated_spawn_of()),
        replicated_spawns(events).len() <= events.len(),
        forall|i: int|
            0 <= i < events.len() && (#[trigger] events[i] matches GameEvent::Spawn { replicate: true, .. })
                ==> replicated_spawns(events).contains(events[i]->Spawn_entity_id),
        forall|j: int|
            0 <= j < replicated_spawns(events).len() ==> #[trigger] picked_from(
                events,
                replicated_spawn_of(),
                replicated_spawns(events)[j],
            ),
    decreases events.len(),
{
    if events.len() > 0 {
        law_replicated_spawns(events.drop_last());
    }
    assert(replicated_spawns(events) =~= events.filter_map(replicated_spawn_of()));
    lemma_filter_map_picks(events, replicated_spawn_of());
}

/// The spawn number and entity of a game event that acknowledges a client's
/// spawn, if it does.
pub open spec fn spawn_ack_of() -> spec_fn(GameEvent) -> Option<(u16, EntityId)> {
    |e: GameEvent|
        match e {
            GameEvent::NetworkClientSpawnAck { spawn_id, entity_id } => Some((spawn_id, entity_id)),
            _ => None,
        }
}

/// Which spawns are acknowledged (law): the spawn number and entity of every
/// game event that acknowledges a client's spawn, and only those.
pub proof fn law_spawn_acks(events: Seq<GameEvent>)
    ensures
        spawn_acks(events) == events.filter_map(spawn_ack_of()),
        spawn_acks(events).len() <= events.len(),
        forall|i: int|
            0 <= i < events.len() && (#[trigger] events[i] is NetworkClientSpawnAck) ==> spawn_acks(events).contains(
                (events[i]->NetworkClientSpawnAck_spawn_id, events[i]->NetworkClientSpawnAck_entity_id),
            ),
        forall|j: int|
            0 <= j < spawn_acks(events).len() ==> #[trigger] picked_from(events, spawn_ack_of(), spawn_acks(events)[j]),
    decreases events.len(),
{
    if events.len() > 0 {
        law_spawn_acks(events.drop_last());
    }
    assert(spawn_acks(events) =~= events.filter_map(spawn_ack_of()));
    lemma_filter_map_picks(events, spawn_ack_of());
}

/// The packet of a socket event, if it carries one.
pub open spec fn packet_of() -> spec_fn(SocketEvent) -> Option<PacketRef> {
    |e: SocketEvent|
        match e {
            SocketEvent::Packet(_, p) => Some(p),
            _ => None,
        }
}

/// Which packets are handled (law): the packet of every socket event that
/// carries one, and nothing else.
pub proof fn law_packets_of(events: Seq<SocketEvent>)
    ensures
        packets_of(events) == events.filter_map(packet_of()),
        packets_of(events).len() <= events.len(),
        forall|i: int|
            0 <= i < events.len() && (#[trigger] events[i] is Packet) ==> packets_of(events).contains(
                events[i]->Packet_1,
            ),
        forall|j: int| 0 <= j < packets_of(events).len() ==> #[trigger] picked_from(events, packet_of(), packets_of(events)[j]),
    decreases events.len(),
{
    if events.len() > 0 {
        law_packets_of(events.drop_last());
    }
    assert(packets_of(events) =~= events.filter_map(packet_of()));
    lemma_filter_map_picks(events, packet_of());
}

/// The entity that a packet reports spawned, if it is a spawn.
pub open spec fn spawn_in() -> spec_fn(PacketRef) -> Option<EntityId> {
    |p: PacketRef|
        match p {
            PacketRef::Spawn(s) => Some(s.entity_id),
            _ => None,
        }
}

/// The identifier pair that a packet acknowledges, if it is a spawn
/// acknowledgement.
pub open spec fn ack_in() -> spec_fn(PacketRef) -> Option<(EntityId, EntityId)> {
    |p: PacketRef|
        match p {
            PacketRef::ClientSpawnAck(a) => Some((a.client_id, a.server_id)),
            _ => None,
        }
}

/// The location that a packet carries, if it is a location.
pub open spec fn location_in() -> spec_fn(PacketRef) -> Option<EntityData<Vec3_32>> {
    |p: PacketRef|
        match p {
            PacketRef::Location(l) => Some(EntityData { entity_id: l.entity_id, data: l.location }),
            _ => None,
        }
}

/// What a client keeps of the packets it receives (law): the entity of every
/// spawn packet, the identifier pair of every spawn acknowledgement and the
/// entity and position of every location packet, in order, and nothing else.
pub proof fn law_received(packets: Seq<PacketRef>)
    ensures
        received_spawns(packets) == packets.filter_map(spawn_in()),
        received_acks(packets) == packets.filter_map(ack_in()),
        received_locations(packets) == packets.filter_map(location_in()),
        forall|i: int|
            0 <= i < packets.len() && (#[trigger] packets[i] is Spawn) ==> received_spawns(packets).contains(
                packets[i]->Spawn_0.entity_id,
            ),
        forall|i: int|
            0 <= i < packets.len() && (#[trigger] packets[i] is ClientSpawnAck) ==> received_acks(packets).contains(
                (packets[i]->ClientSpawnAck_0.client_id, packets[i]->ClientSpawnAck_0.server_id),
            ),
        forall|i: int|
            0 <= i < packets.len() && (#[trigger] packets[i] is Location) ==> received_locations(packets).contains(
                EntityData { entity_id: packets[i]->Location_0.entity_id, data: packets[i]->Location_0.location },
            ),
        forall|j: int|
            0 <= j < received_spawns(packets).len() ==> #[trigger] picked_from(
                packets,
                spawn_in(),
                received_spawns(packets)[j],
            ),
        forall|j: int|
            0 <= j < received_acks(packets).len() ==> #[trigger] picked_from(packets, ack_in(), received_acks(packets)[j]),
        forall|j: int|
            0 <= j < received_locations(packets).len() ==> #[trigger] picked_from(
                packets,
                location_in(),
                received_locations(packets)[j],
            ),
    decreases packets.len(),
{
    if packets.len() > 0 {
        law_received(packets.drop_last());
    }
    assert(received_spawns(packets) =~= packets.filter_map(spawn_in()));
    assert(received_acks(packets) =~= packets.filter_map(ack_in()));
    assert(received_locations(packets) =~= packets.filter_map(location_in()));
    lemma_filter_map_picks(packets, spawn_in());
    lemma_filter_map_picks(packets, ack_in());
    lemma_filter_map_picks(packets, location_in());
}

/// The reliable announcement that entity `e` spawned, addressed to `to`.
pub open spec fn spawn_packet_to(to: NetAddr) -> spec_fn(EntityId) -> OutView {
    |e: EntityId| (to, encode(PacketRef::Spawn(Spawn { entity_id: e })), Delivery::ReliableOrdered)
}

/// What the server announces of spawned entities (law): for each entity and
/// each client, in that order, the reliable spawn packet of that entity
/// addressed to that client; so as many packets as entities times clients.
pub proof fn law_spawn_broadcasts(addrs: Seq<NetAddr>, ids: Seq<EntityId>)
    ensures
        spawn_broadcasts(addrs, ids).len() == ids.len() * addrs.len(),
        forall|i: int, j: int|
            0 <= i < ids.len() && 0 <= j < addrs.len() ==> #[trigger] spawn_broadcasts(addrs, ids)[i * addrs.len() + j]
                == spawn_packet_to(addrs[j])(ids[i]),
    decreases ids.len(),
{
    let n = addrs.len() as int;
    let out = spawn_broadcasts(addrs, ids);
    if ids.len() > 0 {
        let m = ids.len() - 1;
        let rest = ids.drop_last();
        law_spawn_broadcasts(addrs, rest);
        assert(m * n + n == ids.len() * n) by (nonlinear_arith)
            requires
                m == ids.len() - 1,
        ;
        assert forall|i: int, j: int| 0 <= i < ids.len() && 0 <= j < n implies #[trigger] out[i * n + j]
            == spawn_packet_to(addrs[j])(ids[i]) by {
            if i < m {
                assert(i * n + j < m * n) by (nonlinear_arith)
                    requires
                        0 <= i < m,
                        0 <= j < n,
                ;
                assert(0 <= i * n) by (nonlinear_arith)
                    requires
                        0 <= i,
                        0 <= n,
                ;
                assert(rest[i] == ids[i]);
            } else {
                assert(i * n == m * n);
            }
        }
    }
}

/// A broadcast to every address but `a`: each packet carries `payload` with
/// `delivery` to an address of `addrs` other than `a`, and each address of
/// `addrs` other than `a` gets one.
proof fn lemma_broadcast_except(addrs: Seq<NetAddr>, a: NetAddr, payload: Seq<u8>, delivery: Delivery)
    ensures
        forall|k: int|
            0 <= k < broadcast_view(addrs_except(addrs, a), payload, delivery).len() ==> {
                let o = #[trigger] broadcast_view(addrs_except(addrs, a), payload, delivery)[k];
                &&& o.0 != a
                &&& o.1 == payload
                &&& o.2 == delivery
                &&& addrs.contains(o.0)
            },
        forall|c: int|
            0 <= c < addrs.len() && #[trigger] addrs[c] != a ==> broadcast_view(
                addrs_except(addrs, a),
                payload,
                delivery,
            ).contains((addrs[c], payload, delivery)),
{
    let p = other_than(a);
    let f = addrs.filter(p);
    let out = broadcast_view(f, payload, delivery);
    assert forall|k: int| 0 <= k < out.len() implies {
        let o = #[trigger] out[k];
        &&& o.0 != a
        &&& o.1 == payload
        &&& o.2 == delivery
        &&& addrs.contains(o.0)
    } by {
        addrs.lemma_filter_pred(p, k);
        assert(f.contains(f[k]));
        addrs.lemma_filter_contains_rev(p, f[k]);
    }
    assert forall|c: int| 0 <= c < addrs.len() && #[trigger] addrs[c] != a implies out.contains(
        (addrs[c], payload, delivery),
    ) by {
        addrs.lemma_filter_contains(p, c);
        let k = choose|k: int| 0 <= k < f.len() && f[k] == addrs[c];
        assert(out[k] == (addrs[c], payload, delivery));
    }
}

/// Who hears of a location a client sent (law): every other client, and
/// never the client it came from; each gets the unreliable location packet.
pub proof fn law_location_relay(cs: Seq<ClientView>, from: NetAddr, l: Location)
    ensures
        forall|k: int|
            0 <= k < location_relay(cs, from, l).len() ==> {
                let o = #[trigger] location_relay(cs, from, l)[k];
                &&& o.0 != from
                &&& o.1 == encode(PacketRef::Location(l))
                &&& o.2 == Delivery::UnreliableSequenced
                &&& client_addrs(cs).contains(o.0)
            },
        forall|c: int|
            0 <= c < cs.len() && (#[trigger] cs[c]).0 != from ==> location_relay(cs, from, l).contains(
                (cs[c].0, encode(PacketRef::Location(l)), Delivery::UnreliableSequenced),
            ),
{
    let addrs = client_addrs(cs);
    lemma_broadcast_except(addrs, from, encode(PacketRef::Location(l)), Delivery::UnreliableSequenced);
    assert forall|c: int| 0 <= c < cs.len() && (#[trigger] cs[c]).0 != from implies location_relay(
        cs,
        from,
        l,
    ).contains((cs[c].0, encode(PacketRef::Location(l)), Delivery::UnreliableSequenced)) by {
        assert(addrs[c] == cs[c].0);
    }
}

/// How a spawn acknowledgement is passed on (law). When some client awaits
/// the spawn number, the first such client is answered first, with the
/// identifier it used for the entity and the game's one, and no longer awaits
/// that request; every other client, and only those, is told of the spawn.
/// When no client awaits it, the clients stay as they are and every client is
/// told of the spawn.
pub proof fn law_ack_step(cs: Seq<ClientView>, ack: (u16, EntityId))
    ensures
        ({
            let (ncs, out) = ack_step(cs, ack);
            let spawn = encode(PacketRef::Spawn(Spawn { entity_id: ack.1 }));
            &&& find_spawn(cs, ack.0) matches Some((c, i)) ==> {
                &&& 0 <= c < cs.len()
                &&& 0 <= i < cs[c].1.len()
                &&& cs[c].1[i].0 == ack.0
                &&& out.len() >= 1
                &&& out[0] == (
                    cs[c].0,
                    encode(PacketRef::ClientSpawnAck(ClientSpawnAck { client_id: cs[c].1[i].1, server_id: ack.1 })),
                    Delivery::ReliableOrdered,
                )
                &&& ncs == cs.update(c, (cs[c].0, cs[c].1.remove(i)))
                &&& forall|k: int|
                    1 <= k < out.len() ==> (#[trigger] out[k]).0 != cs[c].0 && out[k].1 == spawn && out[k].2
                        == Delivery::ReliableOrdered
                &&& forall|d: int|
                    0 <= d < cs.len() && (#[trigger] cs[d]).0 != cs[c].0 ==> out.contains(
                        (cs[d].0, spawn, Delivery::ReliableOrdered),
                    )
            }
            &&& find_spawn(cs, ack.0) is None ==> {
                &&& ncs == cs
                &&& out.len() == cs.len()
                &&& forall|d: int|
                    0 <= d < cs.len() ==> #[trigger] out[d] == (cs[d].0, spawn, Delivery::ReliableOrdered)
                &&& forall|d: int| 0 <= d < cs.len() ==> first_match((#[trigger] cs[d]).1, has_spawn_id(ack.0)) is None
            }
        }),
{
    let spawn = encode(PacketRef::Spawn(Spawn { entity_id: ack.1 }));
    lemma_first_match(cs, awaits(ack.0));
    match find_spawn(cs, ack.0) {
        Some((c, i)) => {
            lemma_first_match(cs[c].1, has_spawn_id(ack.0));
            let cl = cs[c];
            let ncs = cs.update(c, (cl.0, cl.1.remove(i)));
            let addrs = client_addrs(ncs);
            lemma_broadcast_except(addrs, cl.0, spawn, Delivery::ReliableOrdered);
            let b = broadcast_view(addrs_except(addrs, cl.0), spawn, Delivery::ReliableOrdered);
            let out = ack_step(cs, ack).1;
            assert forall|k: int| 1 <= k < out.len() implies (#[trigger] out[k]).0 != cs[c].0 && out[k].1 == spawn
                && out[k].2 == Delivery::ReliableOrdered by {
                assert(out[k] == b[k - 1]);
            }
            assert forall|d: int| 0 <= d < cs.len() && (#[trigger] cs[d]).0 != cs[c].0 implies out.contains(
                (cs[d].0, spawn, Delivery::ReliableOrdered),
            ) by {
                assert(addrs[d] == cs[d].0);
                assert(b.contains((addrs[d], spawn, Delivery::ReliableOrdered)));
                let k = choose|k: int| 0 <= k < b.len() && b[k] == (addrs[d], spawn, Delivery::ReliableOrdered);
                assert(out[k + 1] == b[k]);
            }
        },
        None => {
            assert forall|d: int| 0 <= d < cs.len() implies first_match((#[trigger] cs[d]).1, has_spawn_id(ack.0))
                is None by {
                assert(!awaits(ack.0)(cs[d]));
            }
        },
    }
}

} // verus!
