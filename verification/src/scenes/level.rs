//! The level: the scene in which agents walk the grid.
use vstd::prelude::*;
use vstd::string::*;
use crate::components::{
    ArrowController, Component, Connection, Graphic, Motion, Transform, Vision,
};
use crate::dispatcher::{
    declared, is_run_order, listed, names_unique, next_ready, ready, run_all, runs_before,
    schedule, schedule_error, schedule_from, Dispatcher, DispatcherBuilder, DispatcherView,
    EntryView,
};
use crate::input::{Axis, Button, Event};
use crate::map::{default_tiles, in_bounds, view_cells, GridMap, GridMapView};
use crate::scenes::{Switch, SwitchView};
use crate::resources::{Input, ResourcesView, Selected};
use crate::storage::Entity;
use crate::store::StoreView;
use crate::systems::{
    mouse_cell, InputSystem, MovementSystem, NetworkSystem, SelectionSystem, System,
};
use crate::types::{Cell, Point, Vector};
use crate::vision::{shape_offsets, ViewShape};
use crate::world::{World, WorldView};

verus! {

/// Visual size of an agent, in pixels.
pub const AGENT_SIZE: u32 = 6;

/// The declarations of the level's systems: the input system, the network
/// system, the movement system after the input system, and the selection
/// system.
pub open spec fn level_systems() -> Seq<EntryView> {
    seq![
        EntryView {
            system: System::Input(InputSystem),
            name: "sys_input"@,
            deps: Seq::<Seq<char>>::empty(),
        },
        EntryView {
            system: System::Network(NetworkSystem),
            name: "sys_network"@,
            deps: Seq::<Seq<char>>::empty(),
        },
        EntryView {
            system: System::Movement(MovementSystem),
            name: "sys_movement"@,
            deps: seq!["sys_input"@],
        },
        EntryView {
            system: System::Selection(SelectionSystem),
            name: "sys_selection"@,
            deps: Seq::<Seq<char>>::empty(),
        },
    ]
}

/// The level's systems can be scheduled: their names differ, the one
/// dependency names a declared system, and running them as declared is a
/// run order.
pub proof fn lemma_level_systems_schedulable()
    ensures
        schedule_error(level_systems()).is_none(),
{
    reveal_strlit("sys_input");
    reveal_strlit("sys_network");
    reveal_strlit("sys_movement");
    reveal_strlit("sys_selection");
    let entries = level_systems();
    assert("sys_input"@[4] == 'i');
    assert("sys_network"@[4] == 'n');
    assert("sys_movement"@[4] == 'm');
    assert("sys_selection"@[4] == 's');
    assert(names_unique(entries));
    assert forall|i: int, d: int|
        0 <= i < entries.len() && 0 <= d < entries[i].deps.len() implies declared(
        entries,
        #[trigger] entries[i].deps[d],
    ) by {
        assert(i == 2 && d == 0);
        assert(entries[0].name == entries[i].deps[d]);
    }
    let order: Seq<usize> = seq![0usize, 1usize, 2usize, 3usize];
    assert forall|i: usize| i < entries.len() implies #[trigger] listed(order, i) by {
        assert(order[i as int] == i);
    }
    assert forall|k: int, d: int|
        0 <= k < order.len() && 0 <= d < entries[order[k] as int].deps.len() implies runs_before(
        entries,
        order,
        k,
        #[trigger] entries[order[k] as int].deps[d],
    ) by {
        assert(k == 2 && d == 0);
        assert(entries[order[0] as int].name == entries[2].deps[0]);
    }
    assert(is_run_order(entries, order));
}

/// The order in which the level's systems run.
pub open spec fn level_order() -> Seq<usize> {
    seq![0usize, 1usize, 2usize, 3usize]
}

/// The level's systems run as they were declared: the input system, the
/// network system, the movement system, the selection system.
pub proof fn lemma_level_schedule()
    ensures
        schedule(level_systems()) == level_order(),
{
    reveal_strlit("sys_input");
    reveal_strlit("sys_network");
    reveal_strlit("sys_movement");
    reveal_strlit("sys_selection");
    let entries = level_systems();
    let none = Seq::<usize>::empty();
    let one = seq![0usize];
    let two = seq![0usize, 1usize];
    let three = seq![0usize, 1usize, 2usize];
    let four = seq![0usize, 1usize, 2usize, 3usize];
    assert(none.push(0usize) =~= one);
    assert(one.push(1usize) =~= two);
    assert(two.push(2usize) =~= three);
    assert(three.push(3usize) =~= four);
    assert(next_ready(entries, none, 0) == Some(0usize)) by {
        assert(ready(entries, none, 0));
    }
    assert(next_ready(entries, one, 0) == Some(1usize)) by {
        assert(one[0] == 0 && listed(one, 0));
        assert(ready(entries, one, 1));
        assert(next_ready(entries, one, 1) == Some(1usize));
    }
    assert(next_ready(entries, two, 0) == Some(2usize)) by {
        assert(two[0] == 0 && listed(two, 0));
        assert(two[1] == 1 && listed(two, 1));
        assert(entries[two[0] as int].name == entries[2].deps[0]);
        assert(runs_before(entries, two, two.len() as int, entries[2].deps[0]));
        assert(ready(entries, two, 2));
        assert(next_ready(entries, two, 2) == Some(2usize));
        assert(next_ready(entries, two, 1) == Some(2usize));
    }
    assert(next_ready(entries, three, 0) == Some(3usize)) by {
        assert(three[0] == 0 && listed(three, 0));
        assert(three[1] == 1 && listed(three, 1));
        assert(three[2] == 2 && listed(three, 2));
        assert(ready(entries, three, 3));
        assert(next_ready(entries, three, 3) == Some(3usize));
        assert(next_ready(entries, three, 2) == Some(3usize));
        assert(next_ready(entries, three, 1) == Some(3usize));
    }
    assert(schedule_from(entries, four, 0) == four);
    assert(schedule_from(entries, three, 1) == four);
    assert(schedule_from(entries, two, 2) == four);
    assert(schedule_from(entries, one, 3) == four);
    assert(schedule_from(entries, none, 4) == four);
    assert(four =~= level_order());
}

/// The effects of the level's systems on a world, in the order in which
/// they run.
pub open spec fn level_effects(w: WorldView) -> WorldView {
    SelectionSystem::effect(
        MovementSystem::effect(NetworkSystem::effect(InputSystem::effect(w))),
    )
}

/// Running the level's systems in the level's order has the effects of
/// `level_effects`.
pub proof fn lemma_level_run(dispatcher: DispatcherView, w: WorldView)
    requires
        dispatcher.entries == level_systems(),
        dispatcher.order == level_order(),
    ensures
        run_all(dispatcher.systems(), w) == level_effects(w),
{
    let systems = dispatcher.systems();
    let three = systems.drop_last();
    let two = three.drop_last();
    let one = two.drop_last();
    let none = one.drop_last();
    assert(systems.len() == 4);
    assert(systems.last() == System::Selection(SelectionSystem));
    assert(three.last() == System::Movement(MovementSystem));
    assert(two.last() == System::Network(NetworkSystem));
    assert(one.last() == System::Input(InputSystem));
    assert(run_all(none, w) == w);
    assert(run_all(one, w) == InputSystem::effect(w));
    assert(run_all(two, w) == NetworkSystem::effect(InputSystem::effect(w)));
    assert(run_all(three, w) == MovementSystem::effect(
        NetworkSystem::effect(InputSystem::effect(w)),
    ));
}

/// What a level holds.
pub struct LevelSceneView {
    /// Whether the scene has ended; it then leaves the stack at its next
    /// update.
    pub done: bool,
}

/// The level.
pub struct LevelScene {
    done: bool,
    dispatcher: Dispatcher,
}

impl View for LevelScene {
    type V = LevelSceneView;

    closed spec fn view(&self) -> LevelSceneView {
        LevelSceneView { done: self.done }
    }
}

/// The cells that the selected entity sees: those of its vision around the
/// cell of its transform. `None` if nothing is selected, or if the selected
/// entity has no transform or no vision (any more).
pub open spec fn selected_view(w: WorldView) -> Option<Seq<Cell>> {
    match w.resources.selected {
        Some(selected) => match selected.player {
            Some(e) => {
                if w.store.transforms.dom().contains(e) && w.store.visions.dom().contains(e) {
                    Some(view_cells(w.store.visions[e]@, w.store.transforms[e].grid_position))
                } else {
                    None
                }
            },
            None => None,
        },
        None => None,
    }
}

/// The world at the start of a frame, before the systems run: the input
/// resource holds the axes of the decoded input and the mouse of this
/// frame; the map highlights the cell under the mouse, if the mouse is on
/// the map, and the view of the selected entity. A resource that is not
/// there stays away.
pub open spec fn prepared(w: WorldView, mouse: Point, pressed: bool) -> WorldView {
    WorldView {
        resources: ResourcesView {
            input: match w.resources.input {
                Some(_) => Some(
                    Input {
                        horizontal: w.input.horizontal,
                        vertical: w.input.vertical,
                        mouse_position: mouse,
                        mouse_pressed: pressed,
                    },
                ),
                None => None,
            },
            selected: w.resources.selected,
            map: match w.resources.map {
                Some(map) => Some(
                    GridMapView {
                        tiles: map.tiles,
                        selected_tile: match mouse_cell(mouse) {
                            Some(cell) => Some(cell),
                            None => map.selected_tile,
                        },
                        selected_view: selected_view(w),
                    },
                ),
                None => None,
            },
        },
        ..w
    }
}

impl LevelSceneView {
    /// The world after an update of the level: the frame is prepared, then
    /// every system of the level runs once, in the level's order.
    pub open spec fn updated(self, w: WorldView, mouse: Point, pressed: bool) -> WorldView {
        level_effects(prepared(w, mouse, pressed))
    }

    /// What the level asks of the stack when its update returns: to leave
    /// the stack once it has ended, and nothing before.
    pub open spec fn switch(self) -> SwitchView {
        if self.done {
            SwitchView::Pop
        } else {
            SwitchView::Stay
        }
    }

    /// The level after a decoded input signal, given the world after it:
    /// it has ended once the menu button is held.
    pub open spec fn after_input(self, w: WorldView) -> LevelSceneView {
        LevelSceneView { done: self.done || w.input.menu }
    }
}

/// The store after an agent was spawned on a cell: one more entity, which
/// holds a graphic, a transform on the cell, no motion at all, an arrow
/// controller, a connection, and a vision.
pub open spec fn with_agent(
    store: StoreView,
    cell: Cell,
    graphic: Graphic,
    connection: Connection,
    vision: Vision,
) -> StoreView {
    let e = Entity { id: store.created as u32 };
    store.spawned().with(e, Component::Graphic(graphic)).with(
        e,
        Component::Transform(
            Transform {
                position: Transform::placed(cell, AGENT_SIZE),
                grid_position: cell,
                rotation: 0,
                size: AGENT_SIZE,
            },
        ),
    ).with(
        e,
        Component::Motion(
            Motion { velocity: Vector { x: 0, y: 0 }, acceleration: Vector { x: 0, y: 0 } },
        ),
    ).with(e, Component::ArrowController(ArrowController)).with(
        e,
        Component::Connection(connection),
    ).with(e, Component::Vision(vision))
}

impl LevelScene {
    #[verifier::type_invariant]
    spec fn inv(self) -> bool {
        self.dispatcher@.entries == level_systems() && self.dispatcher@.order == level_order()
    }

    /// Starts the level on a world: gives the world a fresh input resource,
    /// an empty selection and the map, and orders the level's systems.
    /// Entities and components stay as they are.
    pub fn new(world: &mut World) -> (scene: LevelScene)
        ensures
            final(world)@ == (WorldView {
                resources: ResourcesView {
                    input: Some(
                        Input {
                            horizontal: 0,
                            vertical: 0,
                            mouse_position: Point { x: 0, y: 0 },
                            mouse_pressed: false,
                        },
                    ),
                    selected: Some(Selected { player: None, is_clicked: false }),
                    map: Some(
                        GridMapView {
                            tiles: default_tiles(),
                            selected_tile: None,
                            selected_view: None,
                        },
                    ),
                },
                ..old(world)@
            }),
            !scene@.done,
    {
        let done = false;
        world.resources.input = Some(Input::new());
        world.resources.selected = Some(Selected::new());
        world.resources.map = Some(GridMap::new());
        let dispatcher = LevelScene::register_systems();
        LevelScene { done, dispatcher }
    }

    /// Spawns an agent on a cell: an entity with a graphic, a transform on
    /// the cell, no motion, an arrow controller, a connection and the
    /// square vision. `None`, and nothing changes, for a cell off the grid
    /// or once all entity numbers have been handed out.
    pub fn spawn_agent(
        world: &mut World,
        cell: Cell,
        graphic: Graphic,
        connection: Connection,
    ) -> (spawned: Option<Entity>)
        ensures
            spawned.is_some() == (in_bounds(cell) && old(world)@.store.created <= u32::MAX),
            spawned.is_none() ==> final(world)@ == old(world)@,
            spawned.is_some() ==> {
                let e = spawned.unwrap();
                &&& e.id == old(world)@.store.created
                &&& final(world)@.store.visions.dom().contains(e)
                &&& final(world)@.store.visions[e]@ == shape_offsets(ViewShape::Square)
                &&& final(world)@ == (WorldView {
                    store: with_agent(
                        old(world)@.store,
                        cell,
                        graphic,
                        connection,
                        final(world)@.store.visions[e],
                    ),
                    ..old(world)@
                })
            },
    {
        let transform = match Transform::new(cell, AGENT_SIZE) {
            Some(transform) => transform,
            None => {
                return None;
            },
        };
        let e = match world.store.create_entity() {
            Some(e) => e,
            None => {
                return None;
            },
        };
        let vision = Vision::default();
        let _ = world.store.insert(e, Component::Graphic(graphic));
        let _ = world.store.insert(e, Component::Transform(transform));
        let _ = world.store.insert(e, Component::Motion(Motion::new()));
        let _ = world.store.insert(e, Component::ArrowController(ArrowController));
        let _ = world.store.insert(e, Component::Connection(connection));
        let _ = world.store.insert(e, Component::Vision(vision));
        Some(e)
    }

    /// Spawns an agent where new agents appear: on the cell under the world
    /// point `(300, 300)`.
    pub fn new_agent(world: &mut World, graphic: Graphic, connection: Connection) -> (spawned:
        Option<Entity>)
        ensures
            spawned.is_some() == (old(world)@.store.created <= u32::MAX),
            spawned.is_none() ==> final(world)@ == old(world)@,
            spawned.is_some() ==> {
                let e = spawned.unwrap();
                &&& e.id == old(world)@.store.created
                &&& final(world)@.store.visions.dom().contains(e)
                &&& final(world)@.store.visions[e]@ == shape_offsets(ViewShape::Square)
                &&& final(world)@ == (WorldView {
                    store: with_agent(
                        old(world)@.store,
                        Cell { x: 5, y: 5 },
                        graphic,
                        connection,
                        final(world)@.store.visions[e],
                    ),
                    ..old(world)@
                })
            },
    {
        let cell = GridMap::grid_position(Point { x: 300, y: 300 });
        LevelScene::spawn_agent(world, cell, graphic, connection)
    }

    /// Gives the selected entity's vision another shape. Returns whether it
    /// did: nothing is selected, or the selected entity has no vision (any
    /// more), and nothing changes.
    pub fn switch_vision(world: &mut World, shape: ViewShape) -> (switched: bool)
        ensures
            switched == match old(world)@.resources.selected {
                Some(selected) => selected.player.is_some() && old(
                    world,
                )@.store.visions.dom().contains(selected.player.unwrap()),
                None => false,
            },
            !switched ==> final(world)@ == old(world)@,
            switched ==> {
                let e = old(world)@.resources.selected.unwrap().player.unwrap();
                &&& final(world)@.store.visions[e]@ == shape_offsets(shape)
                &&& final(world)@ == (WorldView {
                    store: StoreView {
                        visions: old(world)@.store.visions.insert(
                            e,
                            final(world)@.store.visions[e],
                        ),
                        ..old(world)@.store
                    },
                    ..old(world)@
                })
            },
    {
        let e = match world.resources.selected {
            Some(selected) => match selected.player {
                Some(e) => e,
                None => {
                    return false;
                },
            },
            None => {
                return false;
            },
        };
        match world.store.vision_mut(e) {
            Some(vision) => {
                vision.update_view(shape);
                true
            },
            None => false,
        }
    }

    /// Runs one frame of the level: prepares the frame from the decoded
    /// input and the mouse, runs every system once, and asks to leave the
    /// stack if the level has ended.
    pub fn update(&mut self, world: &mut World, mouse: Point, pressed: bool) -> (switch: Switch)
        ensures
            final(world)@ == old(self)@.updated(old(world)@, mouse, pressed),
            final(self)@ == old(self)@,
            switch@ == old(self)@.switch(),
    {
        let ghost start = world@;
        let vertical = world.input.get_axis_raw(Axis::Vertical);
        let horizontal = world.input.get_axis_raw(Axis::Horizontal);
        match &mut world.resources.input {
            Some(input) => {
                input.vertical = vertical;
                input.horizontal = horizontal;
                input.mouse_position = mouse;
                input.mouse_pressed = pressed;
            },
            None => {},
        }
        let selected = match world.resources.selected {
            Some(selected) => selected.player,
            None => None,
        };
        let grid_view = match selected {
            Some(e) => {
                let cell = match world.store.transform(e) {
                    Some(t) => Some(t.grid_position),
                    None => None,
                };
                match (cell, world.store.vision(e)) {
                    (Some(cell), Some(vision)) => Some(GridMap::grid_view(vision.offsets(), cell)),
                    _ => None,
                }
            },
            None => None,
        };
        match &mut world.resources.map {
            Some(map) => {
                if GridMap::on_map(mouse) {
                    let cell = GridMap::grid_position(mouse);
                    map.set_selected_tile(cell);
                }
                map.set_selected_player_view(grid_view);
            },
            None => {},
        }
        assert(world@.resources == prepared(start, mouse, pressed).resources);
        assert(world@ == prepared(start, mouse, pressed));
        proof {
            use_type_invariant(&*self);
            lemma_level_run(self.dispatcher@, world@);
        }
        self.dispatcher.dispatch(world);
        if self.done {
            Switch::Pop
        } else {
            Switch::Stay
        }
    }

    /// Folds a decoded input signal into the input state; the level ends
    /// once the menu button is held.
    pub fn input(&mut self, world: &mut World, ev: Event, started: bool)
        ensures
            final(world)@ == (WorldView {
                input: old(world)@.input.after(ev, started),
                ..old(world)@
            }),
            final(self)@ == old(self)@.after_input(final(world)@),
    {
        proof {
            use_type_invariant(&*self);
        }
        world.input.update_effect(ev, started);
        if world.input.get_button_pressed(Button::Menu) {
            self.done = true;
        }
    }

    /// The name of the scene.
    pub fn name(&self) -> (name: &'static str)
        ensures
            name@ == "LevelScene"@,
    {
        "LevelScene"
    }

    /// Whether the level has ended.
    pub fn is_done(&self) -> (done: bool)
        ensures
            done == self@.done,
    {
        self.done
    }

    /// The dispatcher of the level's systems.
    fn register_systems() -> (dispatcher: Dispatcher)
        ensures
            dispatcher@.entries == level_systems(),
            dispatcher@.order == level_order(),
    {
        let none: [&str; 0] = [];
        let input: [&str; 1] = ["sys_input"];
        let builder = DispatcherBuilder::new()
            .with(System::Input(InputSystem), "sys_input", none.as_slice())
            .with(System::Network(NetworkSystem), "sys_network", none.as_slice())
            .with(System::Movement(MovementSystem), "sys_movement", input.as_slice())
            .with(System::Selection(SelectionSystem), "sys_selection", none.as_slice());
        proof {
            lemma_level_systems_schedulable();
            lemma_level_schedule();
            let declared = level_systems();
            assert(builder@.len() == 4);
            assert(builder@[0].deps =~= declared[0].deps);
            assert(builder@[1].deps =~= declared[1].deps);
            assert(builder@[2].deps =~= declared[2].deps);
            assert(builder@[3].deps =~= declared[3].deps);
            assert(builder@ =~= declared);
        }
        match builder.build() {
            Ok(dispatcher) => dispatcher,
            Err(_) => {
                assert(false);
                vstd::pervasive::unreached()
            },
        }
    }
}

} // verus!
