use vstd::prelude::*;

use crate::entity::EntityId;
use crate::event::{GameEvent, InputEvent, SystemGameEvent};
use crate::frame_buffer::SpawnedStaticMesh;
use crate::network::NetworkRole;
use crate::packet::Vec3_32;
use crate::resources::ResourceManager;
use crate::world::{World, WorldModel};

verus! {

/// Access to the physics system. It holds no state of its own.
pub struct PhysicsInterface {}

impl PhysicsInterface {
    /// Access to the physics system.
    pub fn new() -> (r: Self) {
        PhysicsInterface {  }
    }
}

/// What the game state asks of rendering during a frame.
pub enum FrameCommand {
    SpawnStaticMesh(SpawnedStaticMesh),
    SpawnGuest(EntityId),
    Despawn(EntityId),
    UpdateEntityId(EntityId, EntityId),
    PushLocation(EntityId, Vec3_32),
}

/// A frame command as values, the resource of a static mesh by its name.
pub enum FrameCommandView {
    SpawnStaticMesh(EntityId, Seq<char>),
    SpawnGuest(EntityId),
    Despawn(EntityId),
    UpdateEntityId(EntityId, EntityId),
    PushLocation(EntityId, Vec3_32),
}

impl View for FrameCommand {
    type V = FrameCommandView;

    open spec fn view(&self) -> FrameCommandView {
        match self {
            FrameCommand::SpawnStaticMesh(m) => FrameCommandView::SpawnStaticMesh(m.entity_id, m.resource.name_view()),
            FrameCommand::SpawnGuest(id) => FrameCommandView::SpawnGuest(*id),
            FrameCommand::Despawn(id) => FrameCommandView::Despawn(*id),
            FrameCommand::UpdateEntityId(a, b) => FrameCommandView::UpdateEntityId(*a, *b),
            FrameCommand::PushLocation(id, l) => FrameCommandView::PushLocation(*id, *l),
        }
    }
}

/// The views of a list of frame commands.
pub open spec fn command_views(s: Seq<FrameCommand>) -> Seq<FrameCommandView> {
    s.map_values(|c: FrameCommand| c@)
}

/// The name of the mesh resource that spawned entities show.
pub open spec fn sphere() -> Seq<char> {
    "sphere"@
}

/// The state of a game controller as values.
#[verifier::ext_equal]
pub struct ControllerModel {
    pub world: WorldModel,
    pub placing: Option<EntityId>,
    pub role: NetworkRole,
}

/// What handling one event does: the next state, the game events written
/// and the frame commands issued.
pub type StepResult = (ControllerModel, Seq<GameEvent>, Seq<FrameCommandView>);

/// Whether the world can take the system game event `ev`.
pub open spec fn system_step_ok(m: ControllerModel, ev: SystemGameEvent) -> bool {
    match ev {
        SystemGameEvent::NetworkSpawn(id) => m.world.remote_spawn_ok(id),
        SystemGameEvent::NetworkSpawnGuest(id) => m.world.remote_spawn_ok(id),
        SystemGameEvent::NetworkDespawn(id) => m.world.despawn_ok(id),
        SystemGameEvent::NetworkClientSpawn(_) => m.world.spawn_ok(),
        SystemGameEvent::NetworkClientSpawnAck { client_id, replicable_id } => m.world.replace_ok(
            client_id,
            replicable_id,
        ),
    }
}

/// What handling the system game event `ev` does. An entity spawned by a
/// peer is made live and shown as a sphere; one despawned is removed; a spawn
/// asked for by a client is made here and acknowledged with the new
/// identifier; an acknowledged spawn of this client replaces its local
/// identifier, also for the entity being placed.
pub open spec fn system_step(m: ControllerModel, ev: SystemGameEvent) -> StepResult {
    match ev {
        SystemGameEvent::NetworkSpawn(id) => (
            ControllerModel { world: m.world.after_remote_spawn(id), ..m },
            seq![GameEvent::Spawn { entity_id: id, replicate: false }],
            seq![FrameCommandView::SpawnStaticMesh(id, sphere())],
        ),
        SystemGameEvent::NetworkSpawnGuest(id) => (
            ControllerModel { world: m.world.after_remote_spawn(id), ..m },
            seq![GameEvent::SpawnGuest { entity_id: id, replicate: false }],
            seq![FrameCommandView::SpawnStaticMesh(id, sphere())],
        ),
        SystemGameEvent::NetworkDespawn(id) => (
            ControllerModel { world: m.world.after_despawn(id), ..m },
            seq![GameEvent::Despawn(id)],
            seq![FrameCommandView::Despawn(id)],
        ),
        SystemGameEvent::NetworkClientSpawn(spawn_id) => {
            let id = m.world.spawned_id();
            (
                ControllerModel { world: m.world.after_spawn(), ..m },
                seq![
                    GameEvent::Spawn { entity_id: id, replicate: false },
                    GameEvent::NetworkClientSpawnAck { spawn_id, entity_id: id },
                ],
                seq![FrameCommandView::SpawnStaticMesh(id, sphere())],
            )
        },
        SystemGameEvent::NetworkClientSpawnAck { client_id, replicable_id } => (
            ControllerModel {
                world: m.world.after_replace(client_id, replicable_id),
                placing: if m.placing == Some(client_id) { Some(replicable_id) } else { m.placing },
                role: m.role,
            },
            seq![GameEvent::UpdateEntityId { old_id: client_id, new_id: replicable_id }],
            seq![FrameCommandView::UpdateEntityId(client_id, replicable_id)],
        ),
    }
}

/// What system game events do to the entity being placed (law): an
/// acknowledged spawn renames it only when it is the acknowledged client
/// entity, and otherwise leaves it as it was; every other system game event
/// leaves it as it was. In particular no system game event starts placing an
/// entity when none was being placed.
pub proof fn law_system_events_keep_placing(m: ControllerModel, ev: SystemGameEvent)
    ensures
        ev matches SystemGameEvent::NetworkClientSpawnAck { client_id, replicable_id } ==> {
            &&& m.placing == Some(client_id) ==> system_step(m, ev).0.placing == Some(replicable_id)
            &&& m.placing != Some(client_id) ==> system_step(m, ev).0.placing == m.placing
        },
        !(ev is NetworkClientSpawnAck) ==> system_step(m, ev).0.placing == m.placing,
        m.placing is None ==> system_step(m, ev).0.placing is None,
        system_step(m, ev).0.role == m.role,
{
}

/// What handling the system game events `evs` in order does.
pub open spec fn system_fold(m: ControllerModel, evs: Seq<SystemGameEvent>) -> StepResult
    decreases evs.len(),
{
    if evs.len() == 0 {
        (m, Seq::empty(), Seq::empty())
    } else {
        let r = system_fold(m, evs.drop_last());
        let t = system_step(r.0, evs.last());
        (t.0, r.1 + t.1, r.2 + t.2)
    }
}

/// Placing across system game events (law): handling any system game events
/// in order never starts placing an entity when none was being placed.
pub proof fn law_system_events_never_start_placing(m: ControllerModel, evs: Seq<SystemGameEvent>)
    requires
        m.placing is None,
    ensures
        system_fold(m, evs).0.placing is None,
    decreases evs.len(),
{
    if evs.len() > 0 {
        law_system_events_never_start_placing(m, evs.drop_last());
        law_system_events_keep_placing(system_fold(m, evs.drop_last()).0, evs.last());
    }
}

/// Whether the world can take each of the system game events `evs` in turn.
pub open spec fn system_all_ok(m: ControllerModel, evs: Seq<SystemGameEvent>) -> bool
    decreases evs.len(),
{
    evs.len() == 0 || (system_all_ok(m, evs.drop_last()) && system_step_ok(
        system_fold(m, evs.drop_last()).0,
        evs.last(),
    ))
}

/// The events before the first one that the world cannot take are not all
/// that there is to take: a longer list with that one is not taken either.
proof fn lemma_system_all_ok_prefix(m: ControllerModel, evs: Seq<SystemGameEvent>, i: int)
    requires
        0 <= i < evs.len(),
        system_all_ok(m, evs.take(i)),
        !system_step_ok(system_fold(m, evs.take(i)).0, evs[i]),
    ensures
        !system_all_ok(m, evs),
    decreases evs.len(),
{
    if i < evs.len() - 1 {
        let shorter = evs.drop_last();
        assert(shorter.take(i) =~= evs.take(i));
        lemma_system_all_ok_prefix(m, shorter, i);
    } else {
        assert(evs.drop_last() =~= evs.take(i));
    }
}

/// Whether the world can take the input event `ev`.
pub open spec fn input_step_ok(m: ControllerModel, ev: InputEvent) -> bool {
    match ev {
        InputEvent::Spawn => m.placing is Some || m.world.spawn_ok(),
        InputEvent::SpawnGuest => m.role == NetworkRole::Client || m.world.spawn_ok(),
        _ => true,
    }
}

/// What handling the input event `ev` does, where `hit` is the point under
/// the cursor, if any. A spawn, when nothing is being placed, makes an entity
/// to be placed; a click places it at `hit`; the server keys switch the role;
/// a guest is spawned unless this game is a client.
pub open spec fn input_step(m: ControllerModel, ev: InputEvent, hit: Option<Vec3_32>) -> StepResult {
    match ev {
        InputEvent::Spawn => if m.placing is None {
            let id = m.world.spawned_id();
            (
                ControllerModel { world: m.world.after_spawn(), placing: Some(id), role: m.role },
                seq![GameEvent::Spawn { entity_id: id, replicate: true }],
                seq![FrameCommandView::SpawnStaticMesh(id, sphere())],
            )
        } else {
            (m, Seq::empty(), Seq::empty())
        },
        InputEvent::MouseButton(true) => match m.placing {
            Some(id) => {
                let m2 = ControllerModel { placing: None, ..m };
                match hit {
                    Some(l) => (
                        m2,
                        seq![GameEvent::StaticMeshLocation(id, l)],
                        seq![FrameCommandView::PushLocation(id, l)],
                    ),
                    None => (m2, Seq::empty(), Seq::empty()),
                }
            },
            None => (m, Seq::empty(), Seq::empty()),
        },
        InputEvent::ServerBegin => (
            ControllerModel { role: NetworkRole::Server, ..m },
            seq![GameEvent::NetworkRoleServer],
            Seq::empty(),
        ),
        InputEvent::ServerConnect => (
            ControllerModel { role: NetworkRole::Client, ..m },
            seq![GameEvent::NetworkRoleClient],
            Seq::empty(),
        ),
        InputEvent::ServerDisconnect => (
            ControllerModel { role: NetworkRole::Offline, ..m },
            seq![GameEvent::NetworkRoleOffline],
            Seq::empty(),
        ),
        InputEvent::SpawnGuest => if m.role != NetworkRole::Client {
            let id = m.world.spawned_id();
            (
                ControllerModel { world: m.world.after_spawn(), ..m },
                seq![GameEvent::SpawnGuest { entity_id: id, replicate: true }],
                seq![FrameCommandView::SpawnGuest(id)],
            )
        } else {
            (m, Seq::empty(), Seq::empty())
        },
        _ => (m, Seq::empty(), Seq::empty()),
    }
}

/// What input events do to the entity being placed (law): a spawn while
/// nothing is being placed spawns a replicated entity and starts placing it,
/// and while something is being placed does nothing at all; a click while an
/// entity is being placed stops placing it, leaving it at the point under the
/// cursor when there is one; no other input event changes what is being
/// placed.
pub proof fn law_input_events_placing(m: ControllerModel, ev: InputEvent, hit: Option<Vec3_32>)
    ensures
        ev == InputEvent::Spawn && m.placing is None ==> {
            &&& input_step(m, ev, hit).0.placing == Some(m.world.spawned_id())
            &&& input_step(m, ev, hit).1 == seq![GameEvent::Spawn { entity_id: m.world.spawned_id(), replicate: true }]
        },
        ev == InputEvent::Spawn && m.placing is Some ==> input_step(m, ev, hit) == (
            m,
            Seq::<GameEvent>::empty(),
            Seq::<FrameCommandView>::empty(),
        ),
        ev == InputEvent::MouseButton(true) && m.placing is Some ==> {
            &&& input_step(m, ev, hit).0.placing is None
            &&& hit matches Some(l) ==> input_step(m, ev, hit).1 == seq![
                GameEvent::StaticMeshLocation(m.placing->0, l),
            ]
        },
        ev != InputEvent::Spawn && ev != InputEvent::MouseButton(true) ==> input_step(m, ev, hit).0.placing
            == m.placing,
        m.placing is None && ev != InputEvent::Spawn ==> input_step(m, ev, hit).0.placing is None,
{
}

/// What handling the input events `evs` in order does.
pub open spec fn input_fold(m: ControllerModel, evs: Seq<InputEvent>, hit: Option<Vec3_32>) -> StepResult
    decreases evs.len(),
{
    if evs.len() == 0 {
        (m, Seq::empty(), Seq::empty())
    } else {
        let r = input_fold(m, evs.drop_last(), hit);
        let t = input_step(r.0, evs.last(), hit);
        (t.0, r.1 + t.1, r.2 + t.2)
    }
}

/// Whether the world can take each of the input events `evs` in turn.
pub open spec fn input_all_ok(m: ControllerModel, evs: Seq<InputEvent>, hit: Option<Vec3_32>) -> bool
    decreases evs.len(),
{
    evs.len() == 0 || (input_all_ok(m, evs.drop_last(), hit) && input_step_ok(
        input_fold(m, evs.drop_last(), hit).0,
        evs.last(),
    ))
}

/// The input events before the first one that the world cannot take are not
/// all that there is to take.
proof fn lemma_input_all_ok_prefix(m: ControllerModel, evs: Seq<InputEvent>, hit: Option<Vec3_32>, i: int)
    requires
        0 <= i < evs.len(),
        input_all_ok(m, evs.take(i), hit),
        !input_step_ok(input_fold(m, evs.take(i), hit).0, evs[i]),
    ensures
        !input_all_ok(m, evs, hit),
    decreases evs.len(),
{
    if i < evs.len() - 1 {
        let shorter = evs.drop_last();
        assert(shorter.take(i) =~= evs.take(i));
        lemma_input_all_ok_prefix(m, shorter, hit, i);
    } else {
        assert(evs.drop_last() =~= evs.take(i));
    }
}

/// What placing goes on at the end of an update: the entity being placed, if
/// any, follows the point under the cursor, if any.
pub open spec fn placement(m: ControllerModel, hit: Option<Vec3_32>) -> (Seq<GameEvent>, Seq<FrameCommandView>) {
    match (m.placing, hit) {
        (Some(id), Some(l)) => (seq![GameEvent::StaticMeshLocation(id, l)], seq![FrameCommandView::PushLocation(id, l)]),
        _ => (Seq::empty(), Seq::empty()),
    }
}

/// An event of an update that the world could not take, by its position.
#[derive(Clone, Copy, PartialEq, Eq, Structural, Debug)]
pub enum UpdateError {
    SystemEvent(usize),
    InputEvent(usize),
}

/// The game state that the player's input changes: the entities of the
/// world, the entity being placed, and the network role.
pub struct GameController {
    physics: PhysicsInterface,
    resource_manager: ResourceManager,
    world: World,
    placing_object: Option<EntityId>,
    network_role: NetworkRole,
}

impl GameController {
    /// The entities of the game.
    pub closed spec fn world_view(&self) -> World {
        self.world
    }

    /// The entity being placed, if any.
    pub closed spec fn placing(&self) -> Option<EntityId> {
        self.placing_object
    }

    /// The network role.
    pub closed spec fn role(&self) -> NetworkRole {
        self.network_role
    }

    /// The physics system that the controller was given.
    pub closed spec fn physics_view(&self) -> PhysicsInterface {
        self.physics
    }

    /// The state as values.
    pub open spec fn model(&self) -> ControllerModel {
        ControllerModel { world: self.world_view().model(), placing: self.placing(), role: self.role() }
    }

    /// The world is well formed.
    pub open spec fn wf(&self) -> bool {
        self.world_view().wf()
    }

    /// A spawned entity, shown as a sphere.
    fn sphere_mesh(&mut self, entity_id: EntityId) -> (r: FrameCommand)
        ensures
            r@ == FrameCommandView::SpawnStaticMesh(entity_id, sphere()),
            *final(self) == *old(self),
    {
        let resource = self.resource_manager.resource("sphere".to_owned());
        proof {
            reveal_strlit("sphere");
        }
        FrameCommand::SpawnStaticMesh(SpawnedStaticMesh { entity_id, resource })
    }

    /// Whether the world can take the system game event `ev`.
    pub fn system_event_ok(&self, ev: SystemGameEvent) -> (r: bool)
        ensures
            r == system_step_ok(self.model(), ev),
    {
        match ev {
            SystemGameEvent::NetworkSpawn(id) => self.world.can_remote_spawn(id),
            SystemGameEvent::NetworkSpawnGuest(id) => self.world.can_remote_spawn(id),
            SystemGameEvent::NetworkDespawn(id) => self.world.contains(id),
            SystemGameEvent::NetworkClientSpawn(_) => self.world.can_spawn(),
            SystemGameEvent::NetworkClientSpawnAck { client_id, replicable_id } => self.world.can_replace(
                client_id,
                replicable_id,
            ),
        }
    }

    /// Handles one system game event, writing game events to `game_events`
    /// and frame commands to `frame`.
    pub fn handle_system_game_event(
        &mut self,
        ev: SystemGameEvent,
        game_events: &mut Vec<GameEvent>,
        frame: &mut Vec<FrameCommand>,
    )
        requires
            old(self).wf(),
            system_step_ok(old(self).model(), ev),
        ensures
            final(self).wf(),
            final(self).model() == system_step(old(self).model(), ev).0,
            final(game_events)@ == old(game_events)@ + system_step(old(self).model(), ev).1,
            command_views(final(frame)@) == command_views(old(frame)@) + system_step(old(self).model(), ev).2,
    {
        let ghost m = self.model();
        match ev {
            SystemGameEvent::NetworkSpawn(id) => {
                self.world.remote_spawn(id);
                game_events.push(GameEvent::Spawn { entity_id: id, replicate: false });
                let c = self.sphere_mesh(id);
                frame.push(c);
            },
            SystemGameEvent::NetworkSpawnGuest(id) => {
                self.world.remote_spawn(id);
                game_events.push(GameEvent::SpawnGuest { entity_id: id, replicate: false });
                let c = self.sphere_mesh(id);
                frame.push(c);
            },
            SystemGameEvent::NetworkDespawn(id) => {
                self.world.despawn(id);
                game_events.push(GameEvent::Despawn(id));
                frame.push(FrameCommand::Despawn(id));
            },
            SystemGameEvent::NetworkClientSpawn(spawn_id) => {
                let id = self.world.spawn();
                game_events.push(GameEvent::Spawn { entity_id: id, replicate: false });
                let c = self.sphere_mesh(id);
                frame.push(c);
                game_events.push(GameEvent::NetworkClientSpawnAck { spawn_id, entity_id: id });
            },
            SystemGameEvent::NetworkClientSpawnAck { client_id, replicable_id } => {
                self.world.local_to_replicable(client_id, replicable_id);
                frame.push(FrameCommand::UpdateEntityId(client_id, replicable_id));
                game_events.push(GameEvent::UpdateEntityId { old_id: client_id, new_id: replicable_id });
                if self.placing_object == Some(client_id) {
                    self.placing_object = Some(replicable_id);
                }
            },
        }
        proof {
            assert(self.model() =~= system_step(m, ev).0);
            assert(command_views(frame@) =~= command_views(old(frame)@) + system_step(m, ev).2);
        }
    }

    /// Handles the system game events of a frame in order. Stops at the first
    /// event that the world cannot take and returns its position, having
    /// handled those before it.
    pub fn handle_system_game_events(
        &mut self,
        events: &[SystemGameEvent],
        game_events: &mut Vec<GameEvent>,
        frame: &mut Vec<FrameCommand>,
    ) -> (r: Result<(), usize>)
        requires
            old(self).wf(),
        ensures
            final(self).wf(),
            ({
                let n = match r {
                    Ok(()) => events@.len() as int,
                    Err(i) => i as int,
                };
                let f = system_fold(old(self).model(), events@.take(n));
                &&& 0 <= n <= events@.len()
                &&& system_all_ok(old(self).model(), events@.take(n))
                &&& (r matches Err(i) ==> i < events@.len() && !system_step_ok(f.0, events@[i as int]))
                &&& final(self).model() == f.0
                &&& final(game_events)@ == old(game_events)@ + f.1
                &&& command_views(final(frame)@) == command_views(old(frame)@) + f.2
            }),
    {
        let ghost m0 = self.model();
        let ghost g0 = game_events@;
        let ghost f0 = command_views(frame@);
        let mut i: usize = 0;
        while i < events.len()
            invariant
                0 <= i <= events@.len(),
                self.wf(),
                m0 == old(self).model(),
                g0 == old(game_events)@,
                f0 == command_views(old(frame)@),
                system_all_ok(m0, events@.take(i as int)),
                self.model() == system_fold(m0, events@.take(i as int)).0,
                game_events@ == g0 + system_fold(m0, events@.take(i as int)).1,
                command_views(frame@) == f0 + system_fold(m0, events@.take(i as int)).2,
            decreases events@.len() - i,
        {
            let ev = events[i];
            if !self.system_event_ok(ev) {
                assert(events@[i as int] == ev);
                return Err(i);
            }
            let ghost before = events@.take(i as int);
            let ghost mi = self.model();
            self.handle_system_game_event(ev, game_events, frame);
            proof {
                let next = events@.take(i + 1);
                assert(next.drop_last() =~= before);
                assert(next.last() == ev);
                let r = system_fold(m0, before);
                let t = system_step(mi, ev);
                assert(game_events@ =~= g0 + (r.1 + t.1));
                assert(command_views(frame@) =~= f0 + (r.2 + t.2));
            }
            i = i + 1;
        }
        assert(events@.take(events@.len() as int) =~= events@);
        Ok(())
    }

    /// Whether the world can take the input event `ev`.
    pub fn input_event_ok(&self, ev: InputEvent) -> (r: bool)
        ensures
            r == input_step_ok(self.model(), ev),
    {
        match ev {
            InputEvent::Spawn => self.placing_object.is_some() || self.world.can_spawn(),
            InputEvent::SpawnGuest => self.network_role == NetworkRole::Client || self.world.can_spawn(),
            _ => true,
        }
    }

    /// Handles one input event, where `hit` is the point under the cursor, if
    /// any, writing game events to `game_events` and frame commands to `frame`.
    pub fn handle_input_event(
        &mut self,
        ev: InputEvent,
        hit: Option<Vec3_32>,
        game_events: &mut Vec<GameEvent>,
        frame: &mut Vec<FrameCommand>,
    )
        requires
            old(self).wf(),
            input_step_ok(old(self).model(), ev),
        ensures
            final(self).wf(),
            final(self).model() == input_step(old(self).model(), ev, hit).0,
            final(game_events)@ == old(game_events)@ + input_step(old(self).model(), ev, hit).1,
            command_views(final(frame)@) == command_views(old(frame)@) + input_step(old(self).model(), ev, hit).2,
    {
        let ghost m = self.model();
        match ev {
            InputEvent::Spawn => {
                if self.placing_object.is_none() {
                    let id = self.world.spawn();
                    game_events.push(GameEvent::Spawn { entity_id: id, replicate: true });
                    let c = self.sphere_mesh(id);
                    frame.push(c);
                    self.placing_object = Some(id);
                }
            },
            InputEvent::MouseButton(true) => {
                if let Some(id) = self.placing_object {
                    self.placing_object = None;
                    if let Some(l) = hit {
                        game_events.push(GameEvent::StaticMeshLocation(id, l));
                        frame.push(FrameCommand::PushLocation(id, l));
                    }
                }
            },
            InputEvent::ServerBegin => {
                game_events.push(GameEvent::NetworkRoleServer);
                self.network_role = NetworkRole::Server;
            },
            InputEvent::ServerConnect => {
                game_events.push(GameEvent::NetworkRoleClient);
                self.network_role = NetworkRole::Client;
            },
            InputEvent::ServerDisconnect => {
                game_events.push(GameEvent::NetworkRoleOffline);
                self.network_role = NetworkRole::Offline;
            },
            InputEvent::SpawnGuest => {
                if self.network_role != NetworkRole::Client {
                    let id = self.world.spawn();
                    game_events.push(GameEvent::SpawnGuest { entity_id: id, replicate: true });
                    frame.push(FrameCommand::SpawnGuest(id));
                }
            },
            _ => {},
        }
        proof {
            assert(self.model() =~= input_step(m, ev, hit).0);
            assert(game_events@ =~= old(game_events)@ + input_step(m, ev, hit).1);
            assert(command_views(frame@) =~= command_views(old(frame)@) + input_step(m, ev, hit).2);
        }
    }

    /// Handles the input events of a frame in order, where `hit` is the point
    /// under the cursor, if any. Stops at the first event that the world
    /// cannot take and returns its position, having handled those before it.
    pub fn handle_input_events(
        &mut self,
        events: &[InputEvent],
        hit: Option<Vec3_32>,
        game_events: &mut Vec<GameEvent>,
        frame: &mut Vec<FrameCommand>,
    ) -> (r: Result<(), usize>)
        requires
            old(self).wf(),
        ensures
            final(self).wf(),
            ({
                let n = match r {
                    Ok(()) => events@.len() as int,
                    Err(i) => i as int,
                };
                let f = input_fold(old(self).model(), events@.take(n), hit);
                &&& 0 <= n <= events@.len()
                &&& input_all_ok(old(self).model(), events@.take(n), hit)
                &&& (r matches Err(i) ==> i < events@.len() && !input_step_ok(f.0, events@[i as int]))
                &&& final(self).model() == f.0
                &&& final(game_events)@ == old(game_events)@ + f.1
                &&& command_views(final(frame)@) == command_views(old(frame)@) + f.2
            }),
    {
        let ghost m0 = self.model();
        let ghost g0 = game_events@;
        let ghost f0 = command_views(frame@);
        let mut i: usize = 0;
        while i < events.len()
            invariant
                0 <= i <= events@.len(),
                self.wf(),
                m0 == old(self).model(),
                g0 == old(game_events)@,
                f0 == command_views(old(frame)@),
                input_all_ok(m0, events@.take(i as int), hit),
                self.model() == input_fold(m0, events@.take(i as int), hit).0,
                game_events@ == g0 + input_fold(m0, events@.take(i as int), hit).1,
                command_views(frame@) == f0 + input_fold(m0, events@.take(i as int), hit).2,
            decreases events@.len() - i,
        {
            let ev = events[i];
            if !self.input_event_ok(ev) {
                assert(events@[i as int] == ev);
                return Err(i);
            }
            let ghost before = events@.take(i as int);
            let ghost mi = self.model();
            self.handle_input_event(ev, hit, game_events, frame);
            proof {
                let next = events@.take(i + 1);
                assert(next.drop_last() =~= before);
                assert(next.last() == ev);
                let r = input_fold(m0, before, hit);
                let t = input_step(mi, ev, hit);
                assert(game_events@ =~= g0 + (r.1 + t.1));
                assert(command_views(frame@) =~= f0 + (r.2 + t.2));
            }
            i = i + 1;
        }
        assert(events@.take(events@.len() as int) =~= events@);
        Ok(())
    }

    /// Updates the game state for a frame: handles the system game events,
    /// then the input events, then moves the entity being placed to the point
    /// under the cursor. `hit` is that point, if any. Game events go to
    /// `game_events`, frame commands to `frame`. Stops at the first event that
    /// the world cannot take.
    pub fn update(
        &mut self,
        system_events: &[SystemGameEvent],
        input_events: &[InputEvent],
        hit: Option<Vec3_32>,
        game_events: &mut Vec<GameEvent>,
        frame: &mut Vec<FrameCommand>,
    ) -> (r: Result<(), UpdateError>)
        requires
            old(self).wf(),
        ensures
            final(self).wf(),
            ({
                let s = system_fold(old(self).model(), system_events@);
                let t = input_fold(s.0, input_events@, hit);
                let p = placement(t.0, hit);
                &&& (r is Ok <==> system_all_ok(old(self).model(), system_events@) && input_all_ok(
                    s.0,
                    input_events@,
                    hit,
                ))
                &&& (r is Ok ==> {
                    &&& final(self).model() == t.0
                    &&& final(game_events)@ == old(game_events)@ + s.1 + t.1 + p.0
                    &&& command_views(final(frame)@) == command_views(old(frame)@) + s.2 + t.2 + p.1
                })
                &&& (r matches Err(UpdateError::SystemEvent(i)) ==> {
                    let f = system_fold(old(self).model(), system_events@.take(i as int));
                    &&& i < system_events@.len()
                    &&& system_all_ok(old(self).model(), system_events@.take(i as int))
                    &&& !system_step_ok(f.0, system_events@[i as int])
                    &&& final(self).model() == f.0
                    &&& final(game_events)@ == old(game_events)@ + f.1
                    &&& command_views(final(frame)@) == command_views(old(frame)@) + f.2
                })
                &&& (r matches Err(UpdateError::InputEvent(i)) ==> {
                    let f = input_fold(s.0, input_events@.take(i as int), hit);
                    &&& system_all_ok(old(self).model(), system_events@)
                    &&& i < input_events@.len()
                    &&& input_all_ok(s.0, input_events@.take(i as int), hit)
                    &&& !input_step_ok(f.0, input_events@[i as int])
                    &&& final(self).model() == f.0
                    &&& final(game_events)@ == old(game_events)@ + s.1 + f.1
                    &&& command_views(final(frame)@) == command_views(old(frame)@) + s.2 + f.2
                })
            }),
    {
        let ghost m0 = self.model();
        match self.handle_system_game_events(system_events, game_events, frame) {
            Ok(()) => {},
            Err(i) => {
                proof {
                    lemma_system_all_ok_prefix(m0, system_events@, i as int);
                }
                return Err(UpdateError::SystemEvent(i));
            },
        }
        assert(system_events@.take(system_events@.len() as int) =~= system_events@);
        let ghost m1 = self.model();
        match self.handle_input_events(input_events, hit, game_events, frame) {
            Ok(()) => {},
            Err(i) => {
                proof {
                    lemma_input_all_ok_prefix(m1, input_events@, hit, i as int);
                }
                return Err(UpdateError::InputEvent(i));
            },
        }
        assert(input_events@.take(input_events@.len() as int) =~= input_events@);
        if let Some(id) = self.placing_object {
            if let Some(l) = hit {
                game_events.push(GameEvent::StaticMeshLocation(id, l));
                frame.push(FrameCommand::PushLocation(id, l));
            }
        }
        proof {
            assert(command_views(frame@) =~= command_views(old(frame)@) + system_fold(m0, system_events@).2
                + input_fold(m1, input_events@, hit).2 + placement(self.model(), hit).1);
        }
        Ok(())
    }

    /// A game with no entities, nothing being placed, offline.
    pub fn new(physics: PhysicsInterface) -> (r: Self)
        ensures
            r.world_view().wf(),
            r.world_view().live() == Seq::<EntityId>::empty(),
            r.world_view().free() == Seq::<EntityId>::empty(),
            r.world_view().counter()@ == 1,
            r.placing() is None,
            r.role() == NetworkRole::Offline,
            r.physics_view() == physics,
    {
        GameController {
            physics,
            resource_manager: ResourceManager::new(),
            world: World::new(),
            placing_object: None,
            network_role: NetworkRole::Offline,
        }
    }

    /// The entity being placed, if any.
    pub fn placing_object(&self) -> (r: Option<EntityId>)
        ensures
            r == self.placing(),
    {
        self.placing_object
    }

    /// The network role.
    pub fn network_role(&self) -> (r: NetworkRole)
        ensures
            r == self.role(),
    {
        self.network_role
    }
}

} // verus!
