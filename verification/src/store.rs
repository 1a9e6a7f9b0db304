//! The component store: which entities live, and which components each of
//! them holds. One typed storage stands for each component kind.
use vstd::prelude::*;
use crate::components::{
    ArrowController, Component, ComponentKind, Connection, Graphic, Motion, Player, Shot,
    Transform, Vision,
};
use crate::storage::{Entity, Storage};
use crate::types::Error;

verus! {

/// What a component store holds.
pub struct StoreView {
    /// How many entities were ever created. They are numbered from 0, and no
    /// number is handed out twice.
    pub created: nat,
    /// The entities that live.
    pub alive: Set<Entity>,
    pub transforms: Map<Entity, Transform>,
    pub motions: Map<Entity, Motion>,
    pub controllers: Map<Entity, ArrowController>,
    pub players: Map<Entity, Player>,
    pub visions: Map<Entity, Vision>,
    pub connections: Map<Entity, Connection>,
    pub shots: Map<Entity, Shot>,
    pub graphics: Map<Entity, Graphic>,
}

impl StoreView {
    /// Whether an entity holds a component of a kind.
    pub open spec fn holds(self, e: Entity, kind: ComponentKind) -> bool {
        match kind {
            ComponentKind::Transform => self.transforms.dom().contains(e),
            ComponentKind::Motion => self.motions.dom().contains(e),
            ComponentKind::ArrowController => self.controllers.dom().contains(e),
            ComponentKind::Player => self.players.dom().contains(e),
            ComponentKind::Vision => self.visions.dom().contains(e),
            ComponentKind::Connection => self.connections.dom().contains(e),
            ComponentKind::Shot => self.shots.dom().contains(e),
            ComponentKind::Graphic => self.graphics.dom().contains(e),
        }
    }

    /// The component of a kind that an entity holds.
    pub open spec fn component(self, e: Entity, kind: ComponentKind) -> Component {
        match kind {
            ComponentKind::Transform => Component::Transform(self.transforms[e]),
            ComponentKind::Motion => Component::Motion(self.motions[e]),
            ComponentKind::ArrowController => Component::ArrowController(self.controllers[e]),
            ComponentKind::Player => Component::Player(self.players[e]),
            ComponentKind::Vision => Component::Vision(self.visions[e]),
            ComponentKind::Connection => Component::Connection(self.connections[e]),
            ComponentKind::Shot => Component::Shot(self.shots[e]),
            ComponentKind::Graphic => Component::Graphic(self.graphics[e]),
        }
    }

    /// Only living entities hold components, every living entity was
    /// created, and no more entities were created than there are numbers.
    pub open spec fn wf(self) -> bool {
        &&& self.created <= u32::MAX + 1
        &&& forall|e: Entity| self.alive.contains(e) ==> e.id < self.created
        &&& forall|e: Entity, kind: ComponentKind| #[trigger]
            self.holds(e, kind) ==> self.alive.contains(e)
    }

    /// The store after an entity was given a component.
    pub open spec fn with(self, e: Entity, c: Component) -> StoreView {
        match c {
            Component::Transform(v) => StoreView { transforms: self.transforms.insert(e, v), ..self },
            Component::Motion(v) => StoreView { motions: self.motions.insert(e, v), ..self },
            Component::ArrowController(v) => StoreView {
                controllers: self.controllers.insert(e, v),
                ..self
            },
            Component::Player(v) => StoreView { players: self.players.insert(e, v), ..self },
            Component::Vision(v) => StoreView { visions: self.visions.insert(e, v), ..self },
            Component::Connection(v) => StoreView {
                connections: self.connections.insert(e, v),
                ..self
            },
            Component::Shot(v) => StoreView { shots: self.shots.insert(e, v), ..self },
            Component::Graphic(v) => StoreView { graphics: self.graphics.insert(e, v), ..self },
        }
    }

    /// The store after the component of a kind was taken from an entity.
    pub open spec fn without(self, e: Entity, kind: ComponentKind) -> StoreView {
        match kind {
            ComponentKind::Transform => StoreView { transforms: self.transforms.remove(e), ..self },
            ComponentKind::Motion => StoreView { motions: self.motions.remove(e), ..self },
            ComponentKind::ArrowController => StoreView {
                controllers: self.controllers.remove(e),
                ..self
            },
            ComponentKind::Player => StoreView { players: self.players.remove(e), ..self },
            ComponentKind::Vision => StoreView { visions: self.visions.remove(e), ..self },
            ComponentKind::Connection => StoreView {
                connections: self.connections.remove(e),
                ..self
            },
            ComponentKind::Shot => StoreView { shots: self.shots.remove(e), ..self },
            ComponentKind::Graphic => StoreView { graphics: self.graphics.remove(e), ..self },
        }
    }

    /// The store after an entity was destroyed: it no longer lives and holds
    /// no component. Its number is not handed out again.
    pub open spec fn destroyed(self, e: Entity) -> StoreView {
        StoreView {
            created: self.created,
            alive: self.alive.remove(e),
            transforms: self.transforms.remove(e),
            motions: self.motions.remove(e),
            controllers: self.controllers.remove(e),
            players: self.players.remove(e),
            visions: self.visions.remove(e),
            connections: self.connections.remove(e),
            shots: self.shots.remove(e),
            graphics: self.graphics.remove(e),
        }
    }

    /// The store after one more entity was created.
    pub open spec fn spawned(self) -> StoreView {
        StoreView {
            created: self.created + 1,
            alive: self.alive.insert(Entity { id: self.created as u32 }),
            ..self
        }
    }

    /// Whether an entity lives and holds every kind of a list.
    pub open spec fn joins(self, e: Entity, kinds: Seq<ComponentKind>) -> bool {
        &&& self.alive.contains(e)
        &&& forall|i: int| 0 <= i < kinds.len() ==> self.holds(e, #[trigger] kinds[i])
    }
}

/// Which entities were created, and which of them live.
struct Roster {
    flags: Vec<bool>,
}

impl Roster {
    #[verifier::type_invariant]
    spec fn inv(self) -> bool {
        self.flags@.len() <= u32::MAX + 1
    }

    spec fn created(self) -> nat {
        self.flags@.len()
    }

    spec fn alive(self) -> Set<Entity> {
        Set::new(|e: Entity| e.id < self.flags@.len() && self.flags@[e.id as int])
    }

    fn new() -> (roster: Roster)
        ensures
            roster.created() == 0,
            roster.alive() == Set::<Entity>::empty(),
    {
        let roster = Roster { flags: Vec::new() };
        assert(roster.alive() =~= Set::<Entity>::empty());
        roster
    }

    fn count(&self) -> (n: u64)
        ensures
            n == self.created(),
            n <= u32::MAX + 1,
            forall|e: Entity| self.alive().contains(e) ==> e.id < n,
    {
        proof {
            use_type_invariant(self);
        }
        self.flags.len() as u64
    }

    fn is_alive(&self, e: Entity) -> (b: bool)
        ensures
            b == self.alive().contains(e),
    {
        let i = e.id as usize;
        i < self.flags.len() && self.flags[i]
    }

    fn create(&mut self) -> (r: Option<Entity>)
        ensures
            r.is_some() == (old(self).created() <= u32::MAX),
            r.is_some() ==> r.unwrap().id == old(self).created() && final(self).created() == old(
                self,
            ).created() + 1 && final(self).alive() == old(self).alive().insert(r.unwrap()),
            r.is_none() ==> *final(self) == *old(self),
    {
        proof {
            use_type_invariant(&*self);
        }
        let n = self.flags.len();
        if n as u64 > u32::MAX as u64 {
            return None;
        }
        let e = Entity { id: n as u32 };
        let mut flags: Vec<bool> = Vec::new();
        core::mem::swap(&mut self.flags, &mut flags);
        flags.push(true);
        self.flags = flags;
        assert(self.alive() =~= old(self).alive().insert(e));
        Some(e)
    }

    fn kill(&mut self, e: Entity) -> (lived: bool)
        ensures
            lived == old(self).alive().contains(e),
            final(self).created() == old(self).created(),
            final(self).alive() == old(self).alive().remove(e),
    {
        proof {
            use_type_invariant(&*self);
        }
        let i = e.id as usize;
        if !(i < self.flags.len() && self.flags[i]) {
            assert(self.alive() =~= self.alive().remove(e));
            return false;
        }
        let mut flags: Vec<bool> = Vec::new();
        core::mem::swap(&mut self.flags, &mut flags);
        flags[i] = false;
        self.flags = flags;
        assert(self.alive() =~= old(self).alive().remove(e));
        true
    }
}

/// The component store.
pub struct ComponentStore {
    roster: Roster,
    transforms: Storage<Transform>,
    motions: Storage<Motion>,
    controllers: Storage<ArrowController>,
    players: Storage<Player>,
    visions: Storage<Vision>,
    connections: Storage<Connection>,
    shots: Storage<Shot>,
    graphics: Storage<Graphic>,
}

impl View for ComponentStore {
    type V = StoreView;

    closed spec fn view(&self) -> StoreView {
        let alive = self.roster.alive();
        StoreView {
            created: self.roster.created(),
            alive,
            transforms: self.transforms@.restrict(alive),
            motions: self.motions@.restrict(alive),
            controllers: self.controllers@.restrict(alive),
            players: self.players@.restrict(alive),
            visions: self.visions@.restrict(alive),
            connections: self.connections@.restrict(alive),
            shots: self.shots@.restrict(alive),
            graphics: self.graphics@.restrict(alive),
        }
    }
}

/// Giving a living entity a value and then looking at the living entities
/// only is the same as looking at the living entities only and then giving
/// that entity the value.
proof fn lemma_insert_alive<T>(held: Map<Entity, T>, alive: Set<Entity>, e: Entity)
    requires
        alive.contains(e),
    ensures
        forall|value: T| #[trigger]
            held.insert(e, value).restrict(alive) == held.restrict(alive).insert(e, value),
{
    assert forall|value: T| #[trigger]
        held.insert(e, value).restrict(alive) == held.restrict(alive).insert(e, value) by {
        assert(held.insert(e, value).restrict(alive) =~= held.restrict(alive).insert(e, value));
    }
}

impl ComponentStore {
    /// A store without entities.
    pub fn new() -> (store: ComponentStore)
        ensures
            store@.wf(),
            store@.created == 0,
            store@.alive == Set::<Entity>::empty(),
            forall|e: Entity, kind: ComponentKind| !#[trigger] store@.holds(e, kind),
    {
        ComponentStore {
            roster: Roster::new(),
            transforms: Storage::new(),
            motions: Storage::new(),
            controllers: Storage::new(),
            players: Storage::new(),
            visions: Storage::new(),
            connections: Storage::new(),
            shots: Storage::new(),
            graphics: Storage::new(),
        }
    }

    /// How many entities were ever created. Every entity that lives has a
    /// smaller number.
    pub fn created(&self) -> (n: u64)
        ensures
            n == self@.created,
            self@.wf(),
    {
        self.roster.count()
    }

    /// Whether an entity lives.
    pub fn is_alive(&self, e: Entity) -> (b: bool)
        ensures
            b == self@.alive.contains(e),
            self@.wf(),
    {
        proof {
            use_type_invariant(&self.roster);
        }
        self.roster.is_alive(e)
    }

    /// Creates an entity without components. `None` once all numbers have
    /// been handed out; the store is then unchanged.
    pub fn create_entity(&mut self) -> (r: Option<Entity>)
        ensures
            final(self)@.wf(),
            r.is_some() == (old(self)@.created <= u32::MAX),
            r.is_some() ==> r.unwrap().id == old(self)@.created && final(self)@ == old(
                self,
            )@.spawned(),
            r.is_none() ==> final(self)@ == old(self)@,
    {
        proof {
            use_type_invariant(&self.roster);
        }
        let r = self.roster.create();
        match r {
            Some(e) => {
                // Whatever a storage still held under this number is not the
                // new entity's.
                self.clear(e);
                proof {
            use_type_invariant(&self.roster);
        }
                proof {
                    let before = old(self)@;
                    assert(self@.transforms =~= before.transforms);
                    assert(self@.motions =~= before.motions);
                    assert(self@.controllers =~= before.controllers);
                    assert(self@.players =~= before.players);
                    assert(self@.visions =~= before.visions);
                    assert(self@.connections =~= before.connections);
                    assert(self@.shots =~= before.shots);
                    assert(self@.graphics =~= before.graphics);
                }
            },
            None => {},
        }
        r
    }

    /// Takes every component of an entity out of the storages.
    fn clear(&mut self, e: Entity)
        ensures
            final(self).roster == old(self).roster,
            final(self).transforms@ == old(self).transforms@.remove(e),
            final(self).motions@ == old(self).motions@.remove(e),
            final(self).controllers@ == old(self).controllers@.remove(e),
            final(self).players@ == old(self).players@.remove(e),
            final(self).visions@ == old(self).visions@.remove(e),
            final(self).connections@ == old(self).connections@.remove(e),
            final(self).shots@ == old(self).shots@.remove(e),
            final(self).graphics@ == old(self).graphics@.remove(e),
    {
        self.transforms.remove(e);
        self.motions.remove(e);
        self.controllers.remove(e);
        self.players.remove(e);
        self.visions.remove(e);
        self.connections.remove(e);
        self.shots.remove(e);
        self.graphics.remove(e);
    }

    /// Destroys an entity: it no longer lives, and every component it held
    /// is gone. Returns whether it lived. Handles to it stay invalid for
    /// good.
    pub fn destroy_entity(&mut self, e: Entity) -> (lived: bool)
        ensures
            final(self)@.wf(),
            lived == old(self)@.alive.contains(e),
            lived ==> final(self)@ == old(self)@.destroyed(e),
            !lived ==> final(self)@ == old(self)@,
    {
        proof {
            use_type_invariant(&self.roster);
        }
        if !self.roster.is_alive(e) {
            return false;
        }
        self.roster.kill(e);
        self.clear(e);
        proof {
            use_type_invariant(&self.roster);
        }
        proof {
            let before = old(self)@;
            assert(self@.transforms =~= before.transforms.remove(e));
            assert(self@.motions =~= before.motions.remove(e));
            assert(self@.controllers =~= before.controllers.remove(e));
            assert(self@.players =~= before.players.remove(e));
            assert(self@.visions =~= before.visions.remove(e));
            assert(self@.connections =~= before.connections.remove(e));
            assert(self@.shots =~= before.shots.remove(e));
            assert(self@.graphics =~= before.graphics.remove(e));
        }
        true
    }

    /// Whether an entity holds a component of a kind.
    pub fn has(&self, e: Entity, kind: ComponentKind) -> (b: bool)
        ensures
            b == self@.holds(e, kind),
            self@.wf(),
    {
        proof {
            use_type_invariant(&self.roster);
        }
        if !self.roster.is_alive(e) {
            return false;
        }
        match kind {
            ComponentKind::Transform => self.transforms.contains(e),
            ComponentKind::Motion => self.motions.contains(e),
            ComponentKind::ArrowController => self.controllers.contains(e),
            ComponentKind::Player => self.players.contains(e),
            ComponentKind::Vision => self.visions.contains(e),
            ComponentKind::Connection => self.connections.contains(e),
            ComponentKind::Shot => self.shots.contains(e),
            ComponentKind::Graphic => self.graphics.contains(e),
        }
    }

    /// Gives a living entity a component, in place of the one of that kind
    /// it held. Nothing else changes. A dead entity is refused, and the
    /// store is then unchanged.
    pub fn insert(&mut self, e: Entity, c: Component) -> (r: Result<(), Error>)
        ensures
            final(self)@.wf(),
            r.is_ok() == old(self)@.alive.contains(e),
            r.is_ok() ==> final(self)@ == old(self)@.with(e, c),
            r.is_err() ==> r == Err::<(), Error>(Error::DeadEntity) && final(self)@ == old(self)@,
    {
        proof {
            use_type_invariant(&self.roster);
        }
        if !self.roster.is_alive(e) {
            return Err(Error::DeadEntity);
        }
        proof {
            let alive = self.roster.alive();
            lemma_insert_alive(self.transforms@, alive, e);
            lemma_insert_alive(self.motions@, alive, e);
            lemma_insert_alive(self.controllers@, alive, e);
            lemma_insert_alive(self.players@, alive, e);
            lemma_insert_alive(self.visions@, alive, e);
            lemma_insert_alive(self.connections@, alive, e);
            lemma_insert_alive(self.shots@, alive, e);
            lemma_insert_alive(self.graphics@, alive, e);
        }
        match c {
            Component::Transform(v) => {
                self.transforms.insert(e, v);
            },
            Component::Motion(v) => {
                self.motions.insert(e, v);
            },
            Component::ArrowController(v) => {
                self.controllers.insert(e, v);
            },
            Component::Player(v) => {
                self.players.insert(e, v);
            },
            Component::Vision(v) => {
                self.visions.insert(e, v);
            },
            Component::Connection(v) => {
                self.connections.insert(e, v);
            },
            Component::Shot(v) => {
                self.shots.insert(e, v);
            },
            Component::Graphic(v) => {
                self.graphics.insert(e, v);
            },
        }
        Ok(())
    }

    /// Takes the component of a kind from an entity and returns it. Nothing
    /// else changes. `None` if the entity held none.
    pub fn remove(&mut self, e: Entity, kind: ComponentKind) -> (held: Option<Component>)
        ensures
            final(self)@.wf(),
            final(self)@ == old(self)@.without(e, kind),
            held.is_some() == old(self)@.holds(e, kind),
            held.is_some() ==> held.unwrap() == old(self)@.component(e, kind),
    {
        proof {
            use_type_invariant(&self.roster);
        }
        if !self.roster.is_alive(e) {
            proof {
                let before = self@;
                assert(before.transforms =~= before.transforms.remove(e));
                assert(before.motions =~= before.motions.remove(e));
                assert(before.controllers =~= before.controllers.remove(e));
                assert(before.players =~= before.players.remove(e));
                assert(before.visions =~= before.visions.remove(e));
                assert(before.connections =~= before.connections.remove(e));
                assert(before.shots =~= before.shots.remove(e));
                assert(before.graphics =~= before.graphics.remove(e));
            }
            return None;
        }
        let ghost before = self@;
        let held = match kind {
            ComponentKind::Transform => match self.transforms.remove(e) {
                Some(v) => Some(Component::Transform(v)),
                None => None,
            },
            ComponentKind::Motion => match self.motions.remove(e) {
                Some(v) => Some(Component::Motion(v)),
                None => None,
            },
            ComponentKind::ArrowController => match self.controllers.remove(e) {
                Some(v) => Some(Component::ArrowController(v)),
                None => None,
            },
            ComponentKind::Player => match self.players.remove(e) {
                Some(v) => Some(Component::Player(v)),
                None => None,
            },
            ComponentKind::Vision => match self.visions.remove(e) {
                Some(v) => Some(Component::Vision(v)),
                None => None,
            },
            ComponentKind::Connection => match self.connections.remove(e) {
                Some(v) => Some(Component::Connection(v)),
                None => None,
            },
            ComponentKind::Shot => match self.shots.remove(e) {
                Some(v) => Some(Component::Shot(v)),
                None => None,
            },
            ComponentKind::Graphic => match self.graphics.remove(e) {
                Some(v) => Some(Component::Graphic(v)),
                None => None,
            },
        };
        proof {
            assert(self@.transforms =~= before.without(e, kind).transforms);
            assert(self@.motions =~= before.without(e, kind).motions);
            assert(self@.controllers =~= before.without(e, kind).controllers);
            assert(self@.players =~= before.without(e, kind).players);
            assert(self@.visions =~= before.without(e, kind).visions);
            assert(self@.connections =~= before.without(e, kind).connections);
            assert(self@.shots =~= before.without(e, kind).shots);
            assert(self@.graphics =~= before.without(e, kind).graphics);
        }
        held
    }

    /// The transform of an entity, if it holds one.
    pub fn transform(&self, e: Entity) -> (r: Option<&Transform>)
        ensures
            self@.wf(),
            r.is_some() == self@.transforms.dom().contains(e),
            r.is_some() ==> *r.unwrap() == self@.transforms[e],
    {
        proof {
            use_type_invariant(&self.roster);
        }
        if self.roster.is_alive(e) {
            self.transforms.get(e)
        } else {
            None
        }
    }

    /// A handle to change the transform of an entity, if it holds one. Nothing
    /// else changes.
    pub fn transform_mut(&mut self, e: Entity) -> (r: Option<&mut Transform>)
        ensures
            final(self)@.wf(),
            r.is_some() == old(self)@.transforms.dom().contains(e),
            r.is_some() ==> *r.unwrap() == old(self)@.transforms[e] && final(self)@ == (StoreView {
                transforms: old(self)@.transforms.insert(e, *final(r.unwrap())),
                ..old(self)@
            }),
            r.is_none() ==> final(self)@ == old(self)@,
    {
        proof {
            use_type_invariant(&self.roster);
        }
        if self.roster.is_alive(e) {
            proof {
                lemma_insert_alive(self.transforms@, self.roster.alive(), e);
            }
            self.transforms.get_mut(e)
        } else {
            None
        }
    }

    /// The motion of an entity, if it holds one.
    pub fn motion(&self, e: Entity) -> (r: Option<&Motion>)
        ensures
            self@.wf(),
            r.is_some() == self@.motions.dom().contains(e),
            r.is_some() ==> *r.unwrap() == self@.motions[e],
    {
        proof {
            use_type_invariant(&self.roster);
        }
        if self.roster.is_alive(e) {
            self.motions.get(e)
        } else {
            None
        }
    }

    /// A handle to change the motion of an entity, if it holds one. Nothing
    /// else changes.
    pub fn motion_mut(&mut self, e: Entity) -> (r: Option<&mut Motion>)
        ensures
            final(self)@.wf(),
            r.is_some() == old(self)@.motions.dom().contains(e),
            r.is_some() ==> *r.unwrap() == old(self)@.motions[e] && final(self)@ == (StoreView {
                motions: old(self)@.motions.insert(e, *final(r.unwrap())),
                ..old(self)@
            }),
            r.is_none() ==> final(self)@ == old(self)@,
    {
        proof {
            use_type_invariant(&self.roster);
        }
        if self.roster.is_alive(e) {
            proof {
                lemma_insert_alive(self.motions@, self.roster.alive(), e);
            }
            self.motions.get_mut(e)
        } else {
            None
        }
    }

    /// The arrow controller of an entity, if it holds one.
    pub fn controller(&self, e: Entity) -> (r: Option<&ArrowController>)
        ensures
            self@.wf(),
            r.is_some() == self@.controllers.dom().contains(e),
            r.is_some() ==> *r.unwrap() == self@.controllers[e],
    {
        proof {
            use_type_invariant(&self.roster);
        }
        if self.roster.is_alive(e) {
            self.controllers.get(e)
        } else {
            None
        }
    }

    /// A handle to change the arrow controller of an entity, if it holds one. Nothing
    /// else changes.
    pub fn controller_mut(&mut self, e: Entity) -> (r: Option<&mut ArrowController>)
        ensures
            final(self)@.wf(),
            r.is_some() == old(self)@.controllers.dom().contains(e),
            r.is_some() ==> *r.unwrap() == old(self)@.controllers[e] && final(self)@ == (StoreView {
                controllers: old(self)@.controllers.insert(e, *final(r.unwrap())),
                ..old(self)@
            }),
            r.is_none() ==> final(self)@ == old(self)@,
    {
        proof {
            use_type_invariant(&self.roster);
        }
        if self.roster.is_alive(e) {
            proof {
                lemma_insert_alive(self.controllers@, self.roster.alive(), e);
            }
            self.controllers.get_mut(e)
        } else {
            None
        }
    }

    /// The player component of an entity, if it holds one.
    pub fn player(&self, e: Entity) -> (r: Option<&Player>)
        ensures
            self@.wf(),
            r.is_some() == self@.players.dom().contains(e),
            r.is_some() ==> *r.unwrap() == self@.players[e],
    {
        proof {
            use_type_invariant(&self.roster);
        }
        if self.roster.is_alive(e) {
            self.players.get(e)
        } else {
            None
        }
    }

    /// A handle to change the player component of an entity, if it holds one. Nothing
    /// else changes.
    pub fn player_mut(&mut self, e: Entity) -> (r: Option<&mut Player>)
        ensures
            final(self)@.wf(),
            r.is_some() == old(self)@.players.dom().contains(e),
            r.is_some() ==> *r.unwrap() == old(self)@.players[e] && final(self)@ == (StoreView {
                players: old(self)@.players.insert(e, *final(r.unwrap())),
                ..old(self)@
            }),
            r.is_none() ==> final(self)@ == old(self)@,
    {
        proof {
            use_type_invariant(&self.roster);
        }
        if self.roster.is_alive(e) {
            proof {
                lemma_insert_alive(self.players@, self.roster.alive(), e);
            }
            self.players.get_mut(e)
        } else {
            None
        }
    }

    /// The vision of an entity, if it holds one.
    pub fn vision(&self, e: Entity) -> (r: Option<&Vision>)
        ensures
            self@.wf(),
            r.is_some() == self@.visions.dom().contains(e),
            r.is_some() ==> *r.unwrap() == self@.visions[e],
    {
        proof {
            use_type_invariant(&self.roster);
        }
        if self.roster.is_alive(e) {
            self.visions.get(e)
        } else {
            None
        }
    }

    /// A handle to change the vision of an entity, if it holds one. Nothing
    /// else changes.
    pub fn vision_mut(&mut self, e: Entity) -> (r: Option<&mut Vision>)
        ensures
            final(self)@.wf(),
            r.is_some() == old(self)@.visions.dom().contains(e),
            r.is_some() ==> *r.unwrap() == old(self)@.visions[e] && final(self)@ == (StoreView {
                visions: old(self)@.visions.insert(e, *final(r.unwrap())),
                ..old(self)@
            }),
            r.is_none() ==> final(self)@ == old(self)@,
    {
        proof {
            use_type_invariant(&self.roster);
        }
        if self.roster.is_alive(e) {
            proof {
                lemma_insert_alive(self.visions@, self.roster.alive(), e);
            }
            self.visions.get_mut(e)
        } else {
            None
        }
    }

    /// The connection of an entity, if it holds one.
    pub fn connection(&self, e: Entity) -> (r: Option<&Connection>)
        ensures
            self@.wf(),
            r.is_some() == self@.connections.dom().contains(e),
            r.is_some() ==> *r.unwrap() == self@.connections[e],
    {
        proof {
            use_type_invariant(&self.roster);
        }
        if self.roster.is_alive(e) {
            self.connections.get(e)
        } else {
            None
        }
    }

    /// A handle to change the connection of an entity, if it holds one. Nothing
    /// else changes.
    pub fn connection_mut(&mut self, e: Entity) -> (r: Option<&mut Connection>)
        ensures
            final(self)@.wf(),
            r.is_some() == old(self)@.connections.dom().contains(e),
            r.is_some() ==> *r.unwrap() == old(self)@.connections[e] && final(self)@ == (StoreView {
                connections: old(self)@.connections.insert(e, *final(r.unwrap())),
                ..old(self)@
            }),
            r.is_none() ==> final(self)@ == old(self)@,
    {
        proof {
            use_type_invariant(&self.roster);
        }
        if self.roster.is_alive(e) {
            proof {
                lemma_insert_alive(self.connections@, self.roster.alive(), e);
            }
            self.connections.get_mut(e)
        } else {
            None
        }
    }

    /// The shot of an entity, if it holds one.
    pub fn shot(&self, e: Entity) -> (r: Option<&Shot>)
        ensures
            self@.wf(),
            r.is_some() == self@.shots.dom().contains(e),
            r.is_some() ==> *r.unwrap() == self@.shots[e],
    {
        proof {
            use_type_invariant(&self.roster);
        }
        if self.roster.is_alive(e) {
            self.shots.get(e)
        } else {
            None
        }
    }

    /// A handle to change the shot of an entity, if it holds one. Nothing
    /// else changes.
    pub fn shot_mut(&mut self, e: Entity) -> (r: Option<&mut Shot>)
        ensures
            final(self)@.wf(),
            r.is_some() == old(self)@.shots.dom().contains(e),
            r.is_some() ==> *r.unwrap() == old(self)@.shots[e] && final(self)@ == (StoreView {
                shots: old(self)@.shots.insert(e, *final(r.unwrap())),
                ..old(self)@
            }),
            r.is_none() ==> final(self)@ == old(self)@,
    {
        proof {
            use_type_invariant(&self.roster);
        }
        if self.roster.is_alive(e) {
            proof {
                lemma_insert_alive(self.shots@, self.roster.alive(), e);
            }
            self.shots.get_mut(e)
        } else {
            None
        }
    }

    /// The graphic of an entity, if it holds one.
    pub fn graphic(&self, e: Entity) -> (r: Option<&Graphic>)
        ensures
            self@.wf(),
            r.is_some() == self@.graphics.dom().contains(e),
            r.is_some() ==> *r.unwrap() == self@.graphics[e],
    {
        proof {
            use_type_invariant(&self.roster);
        }
        if self.roster.is_alive(e) {
            self.graphics.get(e)
        } else {
            None
        }
    }

    /// A handle to change the graphic of an entity, if it holds one. Nothing
    /// else changes.
    pub fn graphic_mut(&mut self, e: Entity) -> (r: Option<&mut Graphic>)
        ensures
            final(self)@.wf(),
            r.is_some() == old(self)@.graphics.dom().contains(e),
            r.is_some() ==> *r.unwrap() == old(self)@.graphics[e] && final(self)@ == (StoreView {
                graphics: old(self)@.graphics.insert(e, *final(r.unwrap())),
                ..old(self)@
            }),
            r.is_none() ==> final(self)@ == old(self)@,
    {
        proof {
            use_type_invariant(&self.roster);
        }
        if self.roster.is_alive(e) {
            proof {
                lemma_insert_alive(self.graphics@, self.roster.alive(), e);
            }
            self.graphics.get_mut(e)
        } else {
            None
        }
    }

    /// Whether an entity lives and holds every kind of a list.
    pub fn joins(&self, e: Entity, kinds: &Vec<ComponentKind>) -> (b: bool)
        ensures
            b == self@.joins(e, kinds@),
            self@.wf(),
    {
        if !self.is_alive(e) {
            return false;
        }
        let mut i: usize = 0;
        while i < kinds.len()
            invariant
                i <= kinds.len(),
                self@.alive.contains(e),
                self@.wf(),
                forall|j: int| 0 <= j < i ==> self@.holds(e, #[trigger] kinds@[j]),
            decreases kinds.len() - i,
        {
            if !self.has(e, kinds[i]) {
                return false;
            }
            i = i + 1;
        }
        true
    }

    /// The entities that live and hold every kind of a list, each once, by
    /// ascending number. With an empty list: every entity that lives.
    pub fn join(&self, kinds: &Vec<ComponentKind>) -> (found: Vec<Entity>)
        ensures
            self@.wf(),
            forall|e: Entity| found@.contains(e) <==> self@.joins(e, kinds@),
            forall|i: int, j: int| 0 <= i < j < found@.len() ==> found@[i].id < found@[j].id,
    {
        let n = self.created();
        let mut found: Vec<Entity> = Vec::new();
        let mut id: u64 = 0;
        while id < n
            invariant
                id <= n,
                n == self@.created,
                n <= u32::MAX + 1,
                self@.wf(),
                forall|e: Entity| found@.contains(e) <==> e.id < id && self@.joins(e, kinds@),
                forall|i: int, j: int| 0 <= i < j < found@.len() ==> found@[i].id < found@[j].id,
            decreases n - id,
        {
            let e = Entity { id: id as u32 };
            if self.joins(e, kinds) {
                let ghost before = found@;
                found.push(e);
                proof {
                    assert forall|f: Entity| found@.contains(f) implies f.id < id + 1
                        && self@.joins(f, kinds@) by {
                        let k = choose|k: int| 0 <= k < found@.len() && found@[k] == f;
                        if k < before.len() {
                            assert(before[k] == f);
                            assert(before.contains(f));
                        }
                    }
                    assert forall|f: Entity| f.id < id + 1 && self@.joins(f, kinds@) implies
                        found@.contains(f) by {
                        if f.id < id {
                            assert(before.contains(f));
                            let k = choose|k: int| 0 <= k < before.len() && before[k] == f;
                            assert(found@[k] == f);
                        } else {
                            assert(f == e);
                            assert(found@[before.len() as int] == e);
                        }
                    }
                    assert forall|i: int, j: int| 0 <= i < j < found@.len() implies found@[i].id
                        < found@[j].id by {
                        if j == before.len() {
                            assert(before[i] == found@[i]);
                            assert(before.contains(found@[i]));
                        } else {
                            assert(before[i] == found@[i]);
                            assert(before[j] == found@[j]);
                        }
                    }
                }
            } else {
                proof {
                    assert forall|f: Entity| f.id < id + 1 && self@.joins(f, kinds@) implies
                        found@.contains(f) by {
                        if f.id == id {
                            assert(f == e);
                        }
                    }
                }
            }
            id = id + 1;
        }
        proof {
            assert forall|e: Entity| self@.joins(e, kinds@) implies found@.contains(e) by {
                assert(self@.alive.contains(e));
            }
        }
        found
    }
}

} // verus!
