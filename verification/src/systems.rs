//! The systems: the logic that runs once per frame over the world.
use vstd::prelude::*;
use crate::components::{Component, ComponentKind, Motion, Transform};
use crate::map::{grid_x, grid_y, in_bounds, on_map_spec, GridMap, CELL_NUMBER};
use crate::network::{messages_view, payload, payload_text, Message, MessageView};
use crate::resources::{ResourceKind, ResourcesView, Selected};
use crate::storage::Entity;
use crate::store::StoreView;
use crate::types::{Cell, Point, Vector};
use crate::world::{World, WorldView};

verus! {

/// Whether a cell lies inside the outer ring of the grid.
pub open spec fn interior(c: Cell) -> bool {
    1 <= c.x <= CELL_NUMBER - 2 && 1 <= c.y <= CELL_NUMBER - 2
}

/// One axis of a movement step. The candidate is the coordinate plus the
/// velocity; it is taken if it lies strictly inside the outer ring, else the
/// coordinate stays as it is for this step.
pub open spec fn step_axis(coord: u32, velocity: i32) -> u32 {
    let candidate = coord + velocity;
    if 0 < candidate < CELL_NUMBER - 1 {
        candidate as u32
    } else {
        coord
    }
}

/// One movement step of a cell: each axis on its own.
pub open spec fn step_cell(cell: Cell, velocity: Vector) -> Cell {
    Cell { x: step_axis(cell.x, velocity.x), y: step_axis(cell.y, velocity.y) }
}

/// A transform after one movement step: the cell steps, and the world
/// position is derived anew from the cell.
pub open spec fn moved(t: Transform, m: Motion) -> Transform {
    let cell = step_cell(t.grid_position, m.velocity);
    Transform {
        position: Transform::placed(cell, t.size),
        grid_position: cell,
        rotation: t.rotation,
        size: t.size,
    }
}

/// A cell after a run of movement steps, one for each velocity.
pub open spec fn step_cells(cell: Cell, velocities: Seq<Vector>) -> Cell
    decreases velocities.len(),
{
    if velocities.len() == 0 {
        cell
    } else {
        step_cell(step_cells(cell, velocities.drop_last()), velocities.last())
    }
}

/// A movement step leaves each coordinate where it is or puts it inside the
/// outer ring. So a cell on the grid stays on the grid, and a cell inside
/// the outer ring stays inside it.
pub proof fn lemma_step_cell(cell: Cell, velocity: Vector)
    ensures
        step_cell(cell, velocity).x == cell.x || 1 <= step_cell(cell, velocity).x <= CELL_NUMBER
            - 2,
        step_cell(cell, velocity).y == cell.y || 1 <= step_cell(cell, velocity).y <= CELL_NUMBER
            - 2,
        in_bounds(cell) ==> in_bounds(step_cell(cell, velocity)),
        interior(cell) ==> interior(step_cell(cell, velocity)),
{
}

/// After any number of movement steps, whatever the velocities, a cell that
/// began inside the outer ring is still inside it, and one that began on the
/// grid is still on the grid.
pub proof fn lemma_step_cells(cell: Cell, velocities: Seq<Vector>)
    ensures
        interior(cell) ==> interior(step_cells(cell, velocities)),
        in_bounds(cell) ==> in_bounds(step_cells(cell, velocities)),
    decreases velocities.len(),
{
    if velocities.len() > 0 {
        lemma_step_cells(cell, velocities.drop_last());
        lemma_step_cell(step_cells(cell, velocities.drop_last()), velocities.last());
    }
}

/// A moved transform is placed on its cell, whatever it was before; it is
/// consistent if it was on the grid.
pub proof fn lemma_moved(t: Transform, m: Motion)
    ensures
        moved(t, m).is_placed(),
        moved(t, m).grid_position == step_cell(t.grid_position, m.velocity),
        in_bounds(t.grid_position) ==> moved(t, m).wf(),
        interior(t.grid_position) ==> interior(moved(t, m).grid_position),
{
    lemma_step_cell(t.grid_position, m.velocity);
}

/// A run of the movement system keeps every entity that was inside the
/// outer ring inside it, and every entity that was on the grid on the grid;
/// the transform of an entity that has a motion is placed on its cell
/// afterwards. No transform appears or disappears.
pub proof fn lemma_movement_effect(w: WorldView, e: Entity)
    requires
        w.store.transforms.dom().contains(e),
    ensures
        MovementSystem::effect(w).store.transforms.dom() == w.store.transforms.dom(),
        interior(w.store.transforms[e].grid_position) ==> interior(
            MovementSystem::effect(w).store.transforms[e].grid_position,
        ),
        in_bounds(w.store.transforms[e].grid_position) ==> in_bounds(
            MovementSystem::effect(w).store.transforms[e].grid_position,
        ),
        w.store.motions.dom().contains(e) ==> MovementSystem::effect(
            w,
        ).store.transforms[e].is_placed(),
        w.store.transforms[e].wf() ==> MovementSystem::effect(w).store.transforms[e].wf(),
{
    assert(MovementSystem::effect(w).store.transforms.dom() =~= w.store.transforms.dom());
    if w.store.motions.dom().contains(e) {
        lemma_moved(w.store.transforms[e], w.store.motions[e]);
    }
}

/// The world after a number of runs of the movement system.
pub open spec fn moved_times(w: WorldView, runs: nat) -> WorldView
    decreases runs,
{
    if runs == 0 {
        w
    } else {
        MovementSystem::effect(moved_times(w, (runs - 1) as nat))
    }
}

/// After any number of runs of the movement system, an entity that began
/// inside the outer ring is still inside it: its cell never touches the
/// ring. An entity that began on the grid is still on the grid.
pub proof fn lemma_movement_border(w: WorldView, e: Entity, runs: nat)
    requires
        w.store.transforms.dom().contains(e),
    ensures
        moved_times(w, runs).store.transforms.dom().contains(e),
        interior(w.store.transforms[e].grid_position) ==> interior(
            moved_times(w, runs).store.transforms[e].grid_position,
        ),
        in_bounds(w.store.transforms[e].grid_position) ==> in_bounds(
            moved_times(w, runs).store.transforms[e].grid_position,
        ),
    decreases runs,
{
    if runs > 0 {
        lemma_movement_border(w, e, (runs - 1) as nat);
        lemma_movement_effect(moved_times(w, (runs - 1) as nat), e);
    }
}

/// Moves every entity that has a transform and a motion by one step.
#[derive(Clone, Copy, Debug, PartialEq, Eq, Structural, Hash)]
pub struct MovementSystem;

impl MovementSystem {
    /// The world after the entities numbered below `n` have moved.
    pub open spec fn partial(w: WorldView, n: nat) -> WorldView {
        WorldView {
            store: StoreView {
                transforms: Map::new(
                    |e: Entity| w.store.transforms.dom().contains(e),
                    |e: Entity|
                        if e.id < n && w.store.motions.dom().contains(e) {
                            moved(w.store.transforms[e], w.store.motions[e])
                        } else {
                            w.store.transforms[e]
                        },
                ),
                ..w.store
            },
            ..w
        }
    }

    /// The world after a run: every transform of an entity that also has a
    /// motion has moved by one step. Nothing else changes.
    pub open spec fn effect(w: WorldView) -> WorldView {
        WorldView {
            store: StoreView {
                transforms: Map::new(
                    |e: Entity| w.store.transforms.dom().contains(e),
                    |e: Entity|
                        if w.store.motions.dom().contains(e) {
                            moved(w.store.transforms[e], w.store.motions[e])
                        } else {
                            w.store.transforms[e]
                        },
                ),
                ..w.store
            },
            ..w
        }
    }

    /// One movement step of a transform.
    pub fn step(t: &Transform, m: &Motion) -> (next: Transform)
        ensures
            next == moved(*t, *m),
    {
        let mut cell = t.grid_position;
        let x: i64 = cell.x as i64 + m.velocity.x as i64;
        let y: i64 = cell.y as i64 + m.velocity.y as i64;
        if x > 0 && x < (CELL_NUMBER - 1) as i64 {
            cell.x = x as u32;
        }
        if y > 0 && y < (CELL_NUMBER - 1) as i64 {
            cell.y = y as u32;
        }
        Transform {
            position: Transform::place(cell, t.size),
            grid_position: cell,
            rotation: t.rotation,
            size: t.size,
        }
    }

    /// Moves every entity that has a transform and a motion by one step.
    pub fn run(&mut self, world: &mut World)
        ensures
            final(world)@ == MovementSystem::effect(old(world)@),
    {
        let n = world.store.created();
        let ghost start = world@;
        let mut id: u64 = 0;
        assert(world@.store.transforms =~= MovementSystem::partial(start, 0).store.transforms);
        while id < n
            invariant
                id <= n,
                n == start.store.created,
                start.store.wf(),
                world@ == MovementSystem::partial(start, id as nat),
            decreases n - id,
        {
            let e = Entity { id: id as u32 };
            let m = match world.store.motion(e) {
                Some(m) => Some(*m),
                None => None,
            };
            match m {
                Some(m) => match world.store.transform_mut(e) {
                    Some(t) => {
                        let next = MovementSystem::step(t, &m);
                        *t = next;
                    },
                    None => {},
                },
                None => {},
            }
            proof {
                assert(world@.store.transforms =~= MovementSystem::partial(
                    start,
                    (id + 1) as nat,
                ).store.transforms);
            }
            id = id + 1;
        }
        proof {
            assert forall|e: Entity| start.store.transforms.dom().contains(e) implies e.id
                < n by {
                assert(start.store.holds(e, ComponentKind::Transform));
            }
            assert(MovementSystem::partial(start, n as nat).store.transforms
                =~= MovementSystem::effect(start).store.transforms);
        }
    }
}

/// A motion steered by input: the velocity is that of the axes, the
/// acceleration stays.
pub open spec fn steered(m: Motion, horizontal: i32, vertical: i32) -> Motion {
    Motion { velocity: Vector { x: horizontal, y: vertical }, acceleration: m.acceleration }
}

/// Turns the axes of the frame's input into the velocity of every entity
/// that has a motion and an arrow controller.
#[derive(Clone, Copy, Debug, PartialEq, Eq, Structural, Hash)]
pub struct InputSystem;

impl InputSystem {
    /// The world after the entities numbered below `n` have been steered.
    pub open spec fn partial(w: WorldView, n: nat) -> WorldView {
        match w.resources.input {
            Some(input) => WorldView {
                store: StoreView {
                    motions: Map::new(
                        |e: Entity| w.store.motions.dom().contains(e),
                        |e: Entity|
                            if e.id < n && w.store.controllers.dom().contains(e) {
                                steered(w.store.motions[e], input.horizontal, input.vertical)
                            } else {
                                w.store.motions[e]
                            },
                    ),
                    ..w.store
                },
                ..w
            },
            None => w,
        }
    }

    /// The world after a run: every motion of an entity that also has an
    /// arrow controller has the axes of the input as its velocity. Nothing
    /// else changes; without an input resource nothing changes at all.
    pub open spec fn effect(w: WorldView) -> WorldView {
        match w.resources.input {
            Some(input) => WorldView {
                store: StoreView {
                    motions: Map::new(
                        |e: Entity| w.store.motions.dom().contains(e),
                        |e: Entity|
                            if w.store.controllers.dom().contains(e) {
                                steered(w.store.motions[e], input.horizontal, input.vertical)
                            } else {
                                w.store.motions[e]
                            },
                    ),
                    ..w.store
                },
                ..w
            },
            None => w,
        }
    }

    /// Gives every entity that has a motion and an arrow controller the axes
    /// of the input as its velocity.
    pub fn run(&mut self, world: &mut World)
        ensures
            final(world)@ == InputSystem::effect(old(world)@),
    {
        let input = match world.resources.input {
            Some(input) => input,
            None => {
                return ;
            },
        };
        let n = world.store.created();
        let ghost start = world@;
        let mut id: u64 = 0;
        assert(world@.store.motions =~= InputSystem::partial(start, 0).store.motions);
        while id < n
            invariant
                id <= n,
                n == start.store.created,
                start.store.wf(),
                start.resources.input == Some(input),
                world@ == InputSystem::partial(start, id as nat),
            decreases n - id,
        {
            let e = Entity { id: id as u32 };
            if world.store.has(e, ComponentKind::ArrowController) {
                match world.store.motion_mut(e) {
                    Some(m) => {
                        m.velocity.x = input.horizontal;
                        m.velocity.y = input.vertical;
                    },
                    None => {},
                }
            }
            proof {
                assert(world@.store.motions =~= InputSystem::partial(
                    start,
                    (id + 1) as nat,
                ).store.motions);
            }
            id = id + 1;
        }
        proof {
            assert forall|e: Entity| start.store.motions.dom().contains(e) implies e.id < n by {
                assert(start.store.holds(e, ComponentKind::Motion));
            }
            assert(InputSystem::partial(start, n as nat).store.motions =~= InputSystem::effect(
                start,
            ).store.motions);
        }
    }
}

/// The messages of the entities numbered below `n`, by ascending number:
/// one for each entity that has a transform and a connection, with the
/// entity's cell as text. Where the entity stands does not matter: one on
/// the outer ring sends like any other.
pub open spec fn messages_below(store: StoreView, n: nat) -> Seq<MessageView>
    decreases n,
{
    if n == 0 {
        Seq::<MessageView>::empty()
    } else {
        let e = Entity { id: (n - 1) as u32 };
        let rest = messages_below(store, (n - 1) as nat);
        if store.transforms.dom().contains(e) && store.connections.dom().contains(e) {
            rest.push(
                MessageView {
                    socket: store.connections[e].socket,
                    payload: payload_text(store.transforms[e].grid_position),
                },
            )
        } else {
            rest
        }
    }
}

/// The messages depend on the transforms and the connections alone.
pub proof fn lemma_messages_below_frame(a: StoreView, b: StoreView, n: nat)
    requires
        a.transforms == b.transforms,
        a.connections == b.connections,
    ensures
        messages_below(a, n) == messages_below(b, n),
    decreases n,
{
    if n > 0 {
        lemma_messages_below_frame(a, b, (n - 1) as nat);
    }
}

/// Queues, for every entity that has a transform and a connection, a
/// message with the entity's cell.
#[derive(Clone, Copy, Debug, PartialEq, Eq, Structural, Hash)]
pub struct NetworkSystem;

impl NetworkSystem {
    /// The world after a run: the messages of all entities are appended to
    /// the outbox. Nothing else changes.
    pub open spec fn effect(w: WorldView) -> WorldView {
        WorldView { outbox: w.outbox + messages_below(w.store, w.store.created), ..w }
    }

    /// Queues one message for every entity that has a transform and a
    /// connection, by ascending entity number.
    pub fn run(&mut self, world: &mut World)
        ensures
            final(world)@ == NetworkSystem::effect(old(world)@),
    {
        let n = world.store.created();
        let ghost start = world@;
        let mut id: u64 = 0;
        assert(world@.outbox =~= start.outbox + messages_below(start.store, 0));
        while id < n
            invariant
                id <= n,
                n == start.store.created,
                start.store.wf(),
                world@ == (WorldView {
                    outbox: start.outbox + messages_below(start.store, id as nat),
                    ..start
                }),
            decreases n - id,
        {
            let e = Entity { id: id as u32 };
            let cell = match world.store.transform(e) {
                Some(t) => Some(t.grid_position),
                None => None,
            };
            let socket = match world.store.connection(e) {
                Some(c) => Some(c.socket),
                None => None,
            };
            match (cell, socket) {
                (Some(cell), Some(socket)) => {
                    let ghost before = world.outbox@;
                    let message = Message { socket, payload: payload(cell) };
                    world.outbox.push(message);
                    assert(messages_view(world.outbox@) =~= messages_view(before).push(
                        message@,
                    ));
                },
                _ => {},
            }
            proof {
                assert(world@.outbox =~= start.outbox + messages_below(
                    start.store,
                    (id + 1) as nat,
                ));
            }
            id = id + 1;
        }
    }
}

/// Reads the transforms and the graphics for drawing. Drawing itself is the
/// renderer's; a run changes nothing.
#[derive(Clone, Copy, Debug, PartialEq, Eq, Structural, Hash)]
pub struct RenderSystem;

impl RenderSystem {
    /// The world after a run: as it was.
    pub open spec fn effect(w: WorldView) -> WorldView {
        w
    }

    /// Changes nothing.
    pub fn run(&mut self, world: &mut World)
        ensures
            final(world)@ == RenderSystem::effect(old(world)@),
    {
    }
}

/// The cell under the mouse; `None` while the mouse is off the map.
pub open spec fn mouse_cell(p: Point) -> Option<Cell> {
    if on_map_spec(p) {
        Some(Cell { x: grid_x(p.x as int) as u32, y: grid_y(p.y as int) as u32 })
    } else {
        None
    }
}

/// The entity of least number below `n` whose transform stands on a cell.
pub open spec fn first_at(store: StoreView, cell: Cell, n: nat) -> Option<Entity>
    decreases n,
{
    if n == 0 {
        None
    } else {
        match first_at(store, cell, (n - 1) as nat) {
            Some(e) => Some(e),
            None => {
                let e = Entity { id: (n - 1) as u32 };
                if store.transforms.dom().contains(e) && store.transforms[e].grid_position
                    == cell {
                    Some(e)
                } else {
                    None
                }
            },
        }
    }
}

/// What `first_at` finds: an entity below `n` that stands on the cell, with
/// no such entity of smaller number; and nothing only if no entity below `n`
/// stands on the cell.
pub proof fn lemma_first_at(store: StoreView, cell: Cell, n: nat)
    requires
        n <= u32::MAX + 1,
    ensures
        match first_at(store, cell, n) {
            Some(e) => {
                &&& e.id < n
                &&& store.transforms.dom().contains(e)
                &&& store.transforms[e].grid_position == cell
                &&& forall|f: Entity|
                    f.id < e.id && store.transforms.dom().contains(f)
                        ==> store.transforms[f].grid_position != cell
            },
            None => forall|f: Entity|
                f.id < n && store.transforms.dom().contains(f)
                    ==> store.transforms[f].grid_position != cell,
        },
    decreases n,
{
    if n > 0 {
        lemma_first_at(store, cell, (n - 1) as nat);
        let last = Entity { id: (n - 1) as u32 };
        assert forall|f: Entity| f.id < n implies f.id < n - 1 || f == last by {}
    }
}

/// Which entity stands on a cell depends on the transforms alone.
pub proof fn lemma_first_at_frame(a: StoreView, b: StoreView, cell: Cell, n: nat)
    requires
        a.transforms == b.transforms,
    ensures
        first_at(a, cell, n) == first_at(b, cell, n),
    decreases n,
{
    if n > 0 {
        lemma_first_at_frame(a, b, cell, (n - 1) as nat);
    }
}

/// Once an entity is found below some number, the same is found below every
/// larger one.
pub proof fn lemma_first_at_stays(store: StoreView, cell: Cell, k: nat, n: nat)
    requires
        k <= n,
        first_at(store, cell, k).is_some(),
    ensures
        first_at(store, cell, n) == first_at(store, cell, k),
    decreases n,
{
    if k < n {
        lemma_first_at_stays(store, cell, k, (n - 1) as nat);
    }
}

/// The selection after a frame, given the entity under the mouse (`hit`)
/// and whether the mouse is pressed.
///
/// Over the selected entity, a press toggles the lock and nothing else
/// happens. Over another entity, a locked selection stays unless the mouse
/// is pressed; otherwise that entity becomes the selection, locked exactly
/// if the mouse is pressed. Over no entity, an unlocked selection is
/// cleared and a locked one stays.
pub open spec fn select(selected: Selected, hit: Option<Entity>, pressed: bool) -> Selected {
    match hit {
        Some(e) => {
            if selected.player == Some(e) {
                if pressed {
                    Selected { player: selected.player, is_clicked: !selected.is_clicked }
                } else {
                    selected
                }
            } else if selected.is_clicked && !pressed {
                selected
            } else {
                Selected { player: Some(e), is_clicked: pressed }
            }
        },
        None => {
            if selected.is_clicked {
                selected
            } else {
                Selected { player: None, is_clicked: false }
            }
        },
    }
}

/// The selection is empty whenever no entity is under the mouse and the
/// selection was not locked; a locked selection is never changed by
/// hovering; and without a press over the selected entity nothing changes.
pub proof fn lemma_select(selected: Selected, hit: Option<Entity>, pressed: bool)
    ensures
        hit.is_none() && !selected.is_clicked ==> select(selected, hit, pressed).player.is_none(),
        selected.is_clicked && !pressed ==> select(selected, hit, pressed) == selected,
        hit.is_some() && hit == selected.player && !pressed ==> select(selected, hit, pressed)
            == selected,
        select(selected, hit, pressed).player == selected.player || select(
            selected,
            hit,
            pressed,
        ).player == hit,
{
}

/// Keeps the selection: hover selects, a click locks and unlocks.
#[derive(Clone, Copy, Debug, PartialEq, Eq, Structural, Hash)]
pub struct SelectionSystem;

impl SelectionSystem {
    /// The entity under the mouse: the one of least number whose transform
    /// stands on the cell under the mouse. `None` while the mouse is off the
    /// map or over a cell without an entity.
    pub open spec fn hit(store: StoreView, mouse: Point) -> Option<Entity> {
        match mouse_cell(mouse) {
            Some(cell) => first_at(store, cell, store.created),
            None => None,
        }
    }

    /// The world after a run: the selection has made its transition for the
    /// entity under the mouse. Nothing else changes; without an input or a
    /// selection resource nothing changes at all.
    pub open spec fn effect(w: WorldView) -> WorldView {
        match (w.resources.input, w.resources.selected) {
            (Some(input), Some(selected)) => WorldView {
                resources: ResourcesView {
                    selected: Some(
                        select(
                            selected,
                            SelectionSystem::hit(w.store, input.mouse_position),
                            input.mouse_pressed,
                        ),
                    ),
                    ..w.resources
                },
                ..w
            },
            _ => w,
        }
    }

    /// The transition of the selection for one frame.
    pub fn select(selected: Selected, hit: Option<Entity>, pressed: bool) -> (next: Selected)
        ensures
            next == select(selected, hit, pressed),
    {
        let mut next = selected;
        match hit {
            Some(e) => {
                if selected.player == Some(e) {
                    if pressed {
                        next.is_clicked = !selected.is_clicked;
                    }
                } else if !(selected.is_clicked && !pressed) {
                    next.player = Some(e);
                    next.is_clicked = pressed;
                }
            },
            None => {
                if !selected.is_clicked {
                    next.player = None;
                }
            },
        }
        next
    }

    /// The entity under a world point, as `hit` names it.
    pub fn entity_at(world: &World, mouse: Point) -> (found: Option<Entity>)
        ensures
            found == SelectionSystem::hit(world@.store, mouse),
    {
        if !GridMap::on_map(mouse) {
            return None;
        }
        let cell = GridMap::grid_position(mouse);
        let n = world.store.created();
        let mut id: u64 = 0;
        while id < n
            invariant
                id <= n,
                n == world@.store.created,
                world@.store.wf(),
                mouse_cell(mouse) == Some(cell),
                first_at(world@.store, cell, id as nat).is_none(),
            decreases n - id,
        {
            let e = Entity { id: id as u32 };
            let stands = match world.store.transform(e) {
                Some(t) => t.grid_position == cell,
                None => false,
            };
            if stands {
                proof {
                    assert(first_at(world@.store, cell, (id + 1) as nat) == Some(e));
                    lemma_first_at_stays(world@.store, cell, (id + 1) as nat, n as nat);
                }
                return Some(e);
            }
            id = id + 1;
        }
        None
    }

    /// Makes the transition of the selection for this frame's mouse.
    pub fn run(&mut self, world: &mut World)
        ensures
            final(world)@ == SelectionSystem::effect(old(world)@),
    {
        let input = match world.resources.input {
            Some(input) => input,
            None => {
                return ;
            },
        };
        let selected = match world.resources.selected {
            Some(selected) => selected,
            None => {
                return ;
            },
        };
        let hit = SelectionSystem::entity_at(world, input.mouse_position);
        world.resources.selected = Some(SelectionSystem::select(selected, hit, input.mouse_pressed));
    }
}

/// Something a system declares to read or write: a component kind or a
/// resource.
#[derive(Clone, Copy, Debug, PartialEq, Eq, Structural, Hash)]
pub enum Access {
    Component(ComponentKind),
    Resource(ResourceKind),
}

/// Any of the systems.
#[derive(Clone, Copy, Debug, PartialEq, Eq, Structural, Hash)]
pub enum System {
    Input(InputSystem),
    Network(NetworkSystem),
    Movement(MovementSystem),
    Selection(SelectionSystem),
    Render(RenderSystem),
}

impl System {
    /// The world after a run of the system.
    pub open spec fn effect(self, w: WorldView) -> WorldView {
        match self {
            System::Input(_) => InputSystem::effect(w),
            System::Network(_) => NetworkSystem::effect(w),
            System::Movement(_) => MovementSystem::effect(w),
            System::Selection(_) => SelectionSystem::effect(w),
            System::Render(_) => RenderSystem::effect(w),
        }
    }

    /// What the system declares to read.
    pub open spec fn reads_spec(self) -> Seq<Access> {
        match self {
            System::Input(_) => seq![
                Access::Resource(ResourceKind::Input),
                Access::Component(ComponentKind::ArrowController),
            ],
            System::Network(_) => seq![Access::Component(ComponentKind::Transform)],
            System::Movement(_) => seq![Access::Component(ComponentKind::Motion)],
            System::Selection(_) => seq![
                Access::Resource(ResourceKind::Input),
                Access::Component(ComponentKind::Transform),
            ],
            System::Render(_) => seq![
                Access::Component(ComponentKind::Transform),
                Access::Component(ComponentKind::Graphic),
            ],
        }
    }

    /// What the system declares to write.
    pub open spec fn writes_spec(self) -> Seq<Access> {
        match self {
            System::Input(_) => seq![Access::Component(ComponentKind::Motion)],
            System::Network(_) => seq![Access::Component(ComponentKind::Connection)],
            System::Movement(_) => seq![Access::Component(ComponentKind::Transform)],
            System::Selection(_) => seq![Access::Resource(ResourceKind::Selected)],
            System::Render(_) => Seq::<Access>::empty(),
        }
    }

    /// Whether the system declares a resource, to read or to write.
    pub open spec fn needs(self, kind: ResourceKind) -> bool {
        self.reads_spec().contains(Access::Resource(kind)) || self.writes_spec().contains(
            Access::Resource(kind),
        )
    }

    /// Whether two systems may run at the same time: neither writes what the
    /// other reads or writes.
    pub open spec fn independent(self, other: System) -> bool {
        &&& forall|a: Access|
            self.writes_spec().contains(a) ==> !other.reads_spec().contains(a)
                && !other.writes_spec().contains(a)
        &&& forall|a: Access|
            other.writes_spec().contains(a) ==> !self.reads_spec().contains(a)
                && !self.writes_spec().contains(a)
    }

    /// Whether the system declares a resource, to read or to write.
    pub fn needs_resource(&self, kind: ResourceKind) -> (b: bool)
        ensures
            b == self.needs(kind),
    {
        let wanted = Access::Resource(kind);
        let reads = self.reads();
        let writes = self.writes();
        let mut i: usize = 0;
        while i < reads.len()
            invariant
                i <= reads@.len(),
                reads@ == self.reads_spec(),
                wanted == Access::Resource(kind),
                forall|j: int| 0 <= j < i ==> reads@[j] != wanted,
            decreases reads.len() - i,
        {
            if reads[i] == wanted {
                assert(self.reads_spec()[i as int] == wanted);

                return true;
            }
            i = i + 1;
        }
        let mut i: usize = 0;
        while i < writes.len()
            invariant
                i <= writes@.len(),
                writes@ == self.writes_spec(),
                wanted == Access::Resource(kind),
                !self.reads_spec().contains(wanted),
                forall|j: int| 0 <= j < i ==> writes@[j] != wanted,
            decreases writes.len() - i,
        {
            if writes[i] == wanted {
                assert(self.writes_spec()[i as int] == wanted);
                return true;
            }
            i = i + 1;
        }
        false
    }

    /// Runs the system once.
    pub fn run(&mut self, world: &mut World)
        ensures
            final(world)@ == old(self).effect(old(world)@),
            *final(self) == *old(self),
    {
        match self {
            System::Input(system) => system.run(world),
            System::Network(system) => system.run(world),
            System::Movement(system) => system.run(world),
            System::Selection(system) => system.run(world),
            System::Render(system) => system.run(world),
        }
    }

    /// What the system declares to read.
    pub fn reads(&self) -> (list: Vec<Access>)
        ensures
            list@ == self.reads_spec(),
    {
        let list = match self {
            System::Input(_) => vec![
                Access::Resource(ResourceKind::Input),
                Access::Component(ComponentKind::ArrowController),
            ],
            System::Network(_) => vec![Access::Component(ComponentKind::Transform)],
            System::Movement(_) => vec![Access::Component(ComponentKind::Motion)],
            System::Selection(_) => vec![
                Access::Resource(ResourceKind::Input),
                Access::Component(ComponentKind::Transform),
            ],
            System::Render(_) => vec![
                Access::Component(ComponentKind::Transform),
                Access::Component(ComponentKind::Graphic),
            ],
        };
        assert(list@ =~= self.reads_spec());
        list
    }

    /// What the system declares to write.
    pub fn writes(&self) -> (list: Vec<Access>)
        ensures
            list@ == self.writes_spec(),
    {
        let list = match self {
            System::Input(_) => vec![Access::Component(ComponentKind::Motion)],
            System::Network(_) => vec![Access::Component(ComponentKind::Connection)],
            System::Movement(_) => vec![Access::Component(ComponentKind::Transform)],
            System::Selection(_) => vec![Access::Resource(ResourceKind::Selected)],
            System::Render(_) => Vec::new(),
        };
        assert(list@ =~= self.writes_spec());
        list
    }
}

/// Two systems that may run at the same time give the same world in either
/// order: running them one after the other is as good as running them
/// together.
pub proof fn lemma_independent_systems_commute(a: System, b: System, w: WorldView)
    requires
        a.independent(b),
    ensures
        a.effect(b.effect(w)) == b.effect(a.effect(w)),
{
    let t = Access::Component(ComponentKind::Transform);
    let m = Access::Component(ComponentKind::Motion);
    let input = System::Input(InputSystem);
    let network = System::Network(NetworkSystem);
    let movement = System::Movement(MovementSystem);
    let selection = System::Selection(SelectionSystem);
    let render = System::Render(RenderSystem);
    assert(movement.writes_spec()[0] == t && movement.writes_spec().contains(t));
    assert(input.writes_spec()[0] == m && input.writes_spec().contains(m));
    assert(network.reads_spec()[0] == t && network.reads_spec().contains(t));
    assert(movement.reads_spec()[0] == m && movement.reads_spec().contains(m));
    assert(selection.reads_spec()[1] == t && selection.reads_spec().contains(t));
    assert(render.reads_spec()[0] == t && render.reads_spec().contains(t));
    assert(network.writes_spec()[0] == Access::Component(ComponentKind::Connection)
        && network.writes_spec().contains(Access::Component(ComponentKind::Connection)));
    assert(selection.writes_spec()[0] == Access::Resource(ResourceKind::Selected)
        && selection.writes_spec().contains(Access::Resource(ResourceKind::Selected)));
    assert(a == input || a == network || a == movement || a == selection || a == render);
    assert(b == input || b == network || b == movement || b == selection || b == render);
    let ab = a.effect(b.effect(w));
    let ba = b.effect(a.effect(w));
    if a == movement || b == movement {
        // Movement writes the transforms, which every other system but the
        // input system reads, and reads the motions, which that one writes.
        assert(!a.independent(b));
    } else if a == b {
        assert(a == render);
    } else {
        lemma_messages_below_frame(w.store, a.effect(w).store, w.store.created);
        lemma_messages_below_frame(w.store, b.effect(w).store, w.store.created);
        if w.resources.input.is_some() {
            let mouse = w.resources.input.unwrap().mouse_position;
            if mouse_cell(mouse).is_some() {
                let cell = mouse_cell(mouse).unwrap();
                lemma_first_at_frame(w.store, a.effect(w).store, cell, w.store.created);
                lemma_first_at_frame(w.store, b.effect(w).store, cell, w.store.created);
            }
        }
        assert(ab.store.motions =~= ba.store.motions);
        assert(ab.store == ba.store);
        assert(ab.resources == ba.resources);
        assert(ab.outbox =~= ba.outbox);
    }
}

} // verus!
