use tile_world::components::{ArrowController, Component, Connection, Motion, Transform};
use tile_world::dispatcher::{Dispatcher, DispatcherBuilder};
use tile_world::map::GridMap;
use tile_world::resources::{Input, Selected};
use tile_world::systems::{
    InputSystem, MovementSystem, NetworkSystem, RenderSystem, SelectionSystem, System,
};
use tile_world::types::{Cell, Error, Point};
use tile_world::world::World;

fn names(dispatcher: &Dispatcher) -> Vec<String> {
    (0..dispatcher.len()).map(|k| dispatcher.name_at(k).unwrap().clone()).collect()
}

fn position(order: &Vec<String>, name: &str) -> usize {
    order.iter().position(|n| n == name).unwrap()
}

fn level_builder() -> DispatcherBuilder {
    DispatcherBuilder::new()
        .with(System::Input(InputSystem), "sys_input", &[])
        .with(System::Network(NetworkSystem), "sys_network", &[])
        .with(System::Movement(MovementSystem), "sys_movement", &["sys_input"])
        .with(System::Selection(SelectionSystem), "sys_selection", &[])
}

#[test]
fn every_system_runs_once_after_its_dependencies() {
    let dispatcher = level_builder().build().unwrap();
    let order = names(&dispatcher);
    assert_eq!(order, vec!["sys_input", "sys_network", "sys_movement", "sys_selection"]);
    assert_eq!(order.len(), 4);
    for name in ["sys_input", "sys_network", "sys_movement", "sys_selection"] {
        assert_eq!(order.iter().filter(|n| n.as_str() == name).count(), 1);
    }
    assert!(position(&order, "sys_input") < position(&order, "sys_movement"));
    assert_eq!(dispatcher.name_at(4), None);
}

#[test]
fn dependencies_may_be_declared_later() {
    let dispatcher = DispatcherBuilder::new()
        .with(System::Movement(MovementSystem), "move", &["steer", "draw"])
        .with(System::Render(RenderSystem), "draw", &["steer"])
        .with(System::Input(InputSystem), "steer", &[])
        .build()
        .unwrap();
    assert_eq!(names(&dispatcher), vec!["steer", "draw", "move"]);
}

#[test]
fn scheduler_determinism() {
    let first = names(&level_builder().build().unwrap());
    let second = names(&level_builder().build().unwrap());
    assert!(position(&first, "sys_input") < position(&first, "sys_movement"));
    assert!(position(&second, "sys_input") < position(&second, "sys_movement"));
    assert_eq!(first, second);

    let chain = || {
        DispatcherBuilder::new()
            .with(System::Render(RenderSystem), "d", &["c", "b"])
            .with(System::Render(RenderSystem), "c", &["a"])
            .with(System::Render(RenderSystem), "b", &["a"])
            .with(System::Render(RenderSystem), "a", &[])
            .with(System::Render(RenderSystem), "e", &[])
    };
    for order in [names(&chain().build().unwrap()), names(&chain().build().unwrap())] {
        assert_eq!(order.len(), 5);
        assert!(position(&order, "a") < position(&order, "b"));
        assert!(position(&order, "a") < position(&order, "c"));
        assert!(position(&order, "b") < position(&order, "d"));
        assert!(position(&order, "c") < position(&order, "d"));
    }
}

#[test]
fn order_takes_the_first_declaration_that_is_ready() {
    let dispatcher = DispatcherBuilder::new()
        .with(System::Render(RenderSystem), "d", &["c", "b"])
        .with(System::Render(RenderSystem), "c", &["a"])
        .with(System::Render(RenderSystem), "b", &["a"])
        .with(System::Render(RenderSystem), "a", &[])
        .with(System::Render(RenderSystem), "e", &[])
        .build()
        .unwrap();
    assert_eq!(names(&dispatcher), vec!["a", "c", "b", "d", "e"]);
    let dispatcher = DispatcherBuilder::new()
        .with(System::Render(RenderSystem), "z", &[])
        .with(System::Render(RenderSystem), "y", &[])
        .with(System::Render(RenderSystem), "x", &["y", "y", "z"])
        .build()
        .unwrap();
    assert_eq!(names(&dispatcher), vec!["z", "y", "x"]);
}

#[test]
fn empty_dispatcher() {
    let dispatcher = DispatcherBuilder::new().build().unwrap();
    assert_eq!(dispatcher.len(), 0);
    let mut world = World::new();
    dispatcher.dispatch(&mut world);
    assert_eq!(world.store.created(), 0);
    assert_eq!(dispatcher.setup(&world), Ok(()));
}

#[test]
fn duplicate_name_is_a_configuration_error() {
    let r = DispatcherBuilder::new()
        .with(System::Input(InputSystem), "sys", &[])
        .with(System::Movement(MovementSystem), "sys", &[])
        .build();
    assert_eq!(r.err(), Some(Error::DuplicateSystem));
    let r = DispatcherBuilder::new()
        .with(System::Input(InputSystem), "sys", &["nowhere"])
        .with(System::Movement(MovementSystem), "sys", &["sys"])
        .build();
    assert_eq!(r.err(), Some(Error::DuplicateSystem));
}

#[test]
fn unknown_dependency_is_a_configuration_error() {
    let r = DispatcherBuilder::new()
        .with(System::Input(InputSystem), "sys_input", &[])
        .with(System::Movement(MovementSystem), "sys_movement", &["sys_inputs"])
        .build();
    assert_eq!(r.err(), Some(Error::UnknownDependency));
    let r = DispatcherBuilder::new()
        .with(System::Input(InputSystem), "a", &["b"])
        .with(System::Movement(MovementSystem), "b", &["a", "c"])
        .build();
    assert_eq!(r.err(), Some(Error::UnknownDependency));
}

#[test]
fn cycle_is_a_configuration_error() {
    let r = DispatcherBuilder::new()
        .with(System::Input(InputSystem), "a", &["b"])
        .with(System::Movement(MovementSystem), "b", &["a"])
        .build();
    assert_eq!(r.err(), Some(Error::DependencyCycle));
    let r = DispatcherBuilder::new().with(System::Input(InputSystem), "a", &["a"]).build();
    assert_eq!(r.err(), Some(Error::DependencyCycle));
    let r = DispatcherBuilder::new()
        .with(System::Render(RenderSystem), "free", &[])
        .with(System::Input(InputSystem), "a", &["c"])
        .with(System::Movement(MovementSystem), "b", &["a"])
        .with(System::Network(NetworkSystem), "c", &["b"])
        .with(System::Selection(SelectionSystem), "tail", &["c"])
        .build();
    assert_eq!(r.err(), Some(Error::DependencyCycle));
}

#[test]
fn setup_asks_for_the_declared_resources() {
    let dispatcher = level_builder().build().unwrap();
    let mut world = World::new();
    assert_eq!(dispatcher.setup(&world), Err(Error::MissingResource));
    world.resources.input = Some(Input::new());
    assert_eq!(dispatcher.setup(&world), Err(Error::MissingResource));
    world.resources.selected = Some(Selected::new());
    assert_eq!(dispatcher.setup(&world), Ok(()));
    world.resources.map = Some(GridMap::new());
    assert_eq!(dispatcher.setup(&world), Ok(()));

    let quiet = DispatcherBuilder::new()
        .with(System::Movement(MovementSystem), "m", &[])
        .with(System::Network(NetworkSystem), "n", &[])
        .build()
        .unwrap();
    assert_eq!(quiet.setup(&World::new()), Ok(()));
}

#[test]
fn dispatch_runs_the_systems_in_dependency_order() {
    let dispatcher = DispatcherBuilder::new()
        .with(System::Movement(MovementSystem), "sys_movement", &["sys_input"])
        .with(System::Network(NetworkSystem), "sys_network", &["sys_movement"])
        .with(System::Input(InputSystem), "sys_input", &[])
        .build()
        .unwrap();
    assert_eq!(names(&dispatcher), vec!["sys_input", "sys_movement", "sys_network"]);
    let mut world = World::new();
    world.resources.input = Some(Input {
        horizontal: 1,
        vertical: 1,
        mouse_position: Point::new(0, 0),
        mouse_pressed: false,
    });
    let e = world.store.create_entity().unwrap();
    let t = Transform::new(Cell::new(10, 10), 6).unwrap();
    world.store.insert(e, Component::Transform(t)).unwrap();
    world.store.insert(e, Component::Motion(Motion::new())).unwrap();
    world.store.insert(e, Component::ArrowController(ArrowController)).unwrap();
    world.store.insert(e, Component::Connection(Connection { socket: 0 })).unwrap();
    dispatcher.dispatch(&mut world);
    assert_eq!(world.store.transform(e).unwrap().grid_position, Cell::new(11, 11));
    assert_eq!(world.outbox.len(), 1);
    assert_eq!(world.outbox[0].payload, "11:11");
    dispatcher.dispatch(&mut world);
    assert_eq!(world.store.transform(e).unwrap().grid_position, Cell::new(12, 12));
    assert_eq!(world.outbox[1].payload, "12:12");
    assert_eq!(names(&dispatcher), vec!["sys_input", "sys_movement", "sys_network"]);
}
