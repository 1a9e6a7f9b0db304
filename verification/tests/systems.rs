use tile_world::components::{
    ArrowController, Component, ComponentKind, Connection, Motion, Shot, Transform,
};
use tile_world::map::GridMap;
use tile_world::network::payload;
use tile_world::resources::{Input, ResourceKind, Selected};
use tile_world::storage::Entity;
use tile_world::systems::{
    Access, InputSystem, MovementSystem, NetworkSystem, RenderSystem, SelectionSystem, System,
};
use tile_world::types::{Cell, Point, Vector};
use tile_world::world::World;

fn motion(x: i32, y: i32) -> Motion {
    Motion { velocity: Vector::new(x, y), acceleration: Vector::new(0, 0) }
}

fn spawn(world: &mut World, x: u32, y: u32) -> Entity {
    let e = world.store.create_entity().unwrap();
    let t = Transform::new(Cell::new(x, y), 6).unwrap();
    world.store.insert(e, Component::Transform(t)).unwrap();
    e
}

fn cell_of(world: &World, e: Entity) -> Cell {
    world.store.transform(e).unwrap().grid_position
}

fn center_of(x: u32, y: u32) -> Point {
    let corner = GridMap::relative_position(Cell::new(x, y));
    Point::new(corner.x + 25, corner.y + 25)
}

fn frame(world: &mut World, mouse: Point, pressed: bool) {
    world.resources.input = Some(Input {
        horizontal: 0,
        vertical: 0,
        mouse_position: mouse,
        mouse_pressed: pressed,
    });
    SelectionSystem.run(world);
}

#[test]
fn step_moves_each_axis_on_its_own() {
    let t = Transform::new(Cell::new(10, 10), 6).unwrap();
    let next = MovementSystem::step(&t, &motion(1, 0));
    assert_eq!(next.grid_position, Cell::new(11, 10));
    assert_eq!(next.position, Point::new(10 + 11 * 50 + 19, 25 + 10 * 50 + 19));
    assert_eq!(next.size, 6);
    let next = MovementSystem::step(&t, &motion(-2, 3));
    assert_eq!(next.grid_position, Cell::new(8, 13));
    let next = MovementSystem::step(&t, &motion(0, 0));
    assert_eq!(next, t);
}

#[test]
fn step_onto_or_past_the_outer_ring_is_rejected_per_axis() {
    let t = Transform::new(Cell::new(13, 1), 6).unwrap();
    assert_eq!(MovementSystem::step(&t, &motion(1, 0)).grid_position, Cell::new(13, 1));
    assert_eq!(MovementSystem::step(&t, &motion(0, -1)).grid_position, Cell::new(13, 1));
    assert_eq!(MovementSystem::step(&t, &motion(1, 1)).grid_position, Cell::new(13, 2));
    assert_eq!(MovementSystem::step(&t, &motion(-1, -1)).grid_position, Cell::new(12, 1));
    assert_eq!(MovementSystem::step(&t, &motion(5, 5)).grid_position, Cell::new(13, 6));
    assert_eq!(MovementSystem::step(&t, &motion(-13, 12)).grid_position, Cell::new(13, 13));
    assert_eq!(
        MovementSystem::step(&t, &motion(i32::MAX, i32::MIN)).grid_position,
        Cell::new(13, 1)
    );
}

#[test]
fn entity_on_the_outer_ring_can_walk_in_but_never_back() {
    let t = Transform::new(Cell::new(0, 14), 6).unwrap();
    assert_eq!(MovementSystem::step(&t, &motion(0, 0)).grid_position, Cell::new(0, 14));
    let inside = MovementSystem::step(&t, &motion(1, -1));
    assert_eq!(inside.grid_position, Cell::new(1, 13));
    assert_eq!(MovementSystem::step(&inside, &motion(-1, 1)).grid_position, Cell::new(1, 13));
}

#[test]
fn step_derives_the_position_from_the_cell() {
    let mut t = Transform::new(Cell::new(5, 5), 6).unwrap();
    t.position = Point::new(300, 300);
    let next = MovementSystem::step(&t, &motion(0, 0));
    assert_eq!(next.grid_position, Cell::new(5, 5));
    assert_eq!(next.position, Transform::place(Cell::new(5, 5), 6));
    assert_eq!(next.position, Point::new(10 + 250 + 19, 25 + 250 + 19));
}

#[test]
fn movement_border_invariant_after_many_steps() {
    let velocities = [
        (1, 0), (1, 1), (3, -2), (-7, 4), (20, 20), (-20, -20), (0, 1), (2, 2), (-1, -1),
        (13, 0), (0, 13), (-12, 5), (6, -6), (1, 1), (1, 1), (1, 1), (1, 1), (-14, -14),
    ];
    for x in 1..=13 {
        for y in 1..=13 {
            let mut t = Transform::new(Cell::new(x, y), 6).unwrap();
            for round in 0..4 {
                for (vx, vy) in velocities {
                    t = MovementSystem::step(&t, &motion(vx * (round + 1), vy));
                    assert!(1 <= t.grid_position.x && t.grid_position.x <= 13);
                    assert!(1 <= t.grid_position.y && t.grid_position.y <= 13);
                    assert_eq!(t.position, Transform::place(t.grid_position, 6));
                }
            }
        }
    }
}

#[test]
fn movement_system_moves_what_has_transform_and_motion() {
    let mut world = World::new();
    let walker = spawn(&mut world, 5, 5);
    let statue = spawn(&mut world, 6, 6);
    let ghost = world.store.create_entity().unwrap();
    world.store.insert(walker, Component::Motion(motion(1, -1))).unwrap();
    world.store.insert(ghost, Component::Motion(motion(1, 1))).unwrap();
    MovementSystem.run(&mut world);
    assert_eq!(cell_of(&world, walker), Cell::new(6, 4));
    assert_eq!(cell_of(&world, statue), Cell::new(6, 6));
    assert_eq!(world.store.transform(ghost), None);
    assert_eq!(world.store.motion(walker), Some(&motion(1, -1)));
    MovementSystem.run(&mut world);
    assert_eq!(cell_of(&world, walker), Cell::new(7, 3));
}

#[test]
fn input_system_steers_the_controlled_only() {
    let mut world = World::new();
    let steered = world.store.create_entity().unwrap();
    let free = world.store.create_entity().unwrap();
    let start = Motion { velocity: Vector::new(4, 4), acceleration: Vector::new(7, 8) };
    world.store.insert(steered, Component::Motion(start)).unwrap();
    world.store.insert(steered, Component::ArrowController(ArrowController)).unwrap();
    world.store.insert(free, Component::Motion(start)).unwrap();

    InputSystem.run(&mut world);
    assert_eq!(world.store.motion(steered), Some(&start));

    world.resources.input = Some(Input {
        horizontal: 1,
        vertical: -1,
        mouse_position: Point::new(0, 0),
        mouse_pressed: false,
    });
    InputSystem.run(&mut world);
    assert_eq!(
        world.store.motion(steered),
        Some(&Motion { velocity: Vector::new(1, -1), acceleration: Vector::new(7, 8) })
    );
    assert_eq!(world.store.motion(free), Some(&start));
}

#[test]
fn spawn_and_move_by_the_systems() {
    let mut world = World::new();
    let e = spawn(&mut world, 10, 10);
    world.store.insert(e, Component::Motion(Motion::new())).unwrap();
    world.store.insert(e, Component::ArrowController(ArrowController)).unwrap();
    world.resources.input = Some(Input {
        horizontal: 1,
        vertical: 0,
        mouse_position: Point::new(0, 0),
        mouse_pressed: false,
    });
    InputSystem.run(&mut world);
    MovementSystem.run(&mut world);
    let t = *world.store.transform(e).unwrap();
    assert_eq!(t.grid_position, Cell::new(11, 10));
    let corner = GridMap::relative_position(Cell::new(11, 10));
    assert_eq!(t.position, Point::new(corner.x + 19, corner.y + 19));
}

#[test]
fn payload_is_column_colon_row() {
    assert_eq!(payload(Cell::new(0, 0)), "0:0");
    assert_eq!(payload(Cell::new(11, 10)), "11:10");
    assert_eq!(payload(Cell::new(7, 14)), "7:14");
    assert_eq!(payload(Cell::new(100, 9)), "100:9");
    assert_eq!(payload(Cell::new(u32::MAX, 1234567890)), "4294967295:1234567890");
}

#[test]
fn out_of_range_send_is_not_suppressed() {
    let mut world = World::new();
    let e = spawn(&mut world, 0, 0);
    world.store.insert(e, Component::Connection(Connection { socket: 3 })).unwrap();
    world.store.insert(e, Component::Motion(motion(-1, -1))).unwrap();
    MovementSystem.run(&mut world);
    NetworkSystem.run(&mut world);
    assert_eq!(world.outbox.len(), 1);
    assert_eq!(world.outbox[0].socket, 3);
    assert_eq!(world.outbox[0].payload, "0:0");
}

#[test]
fn network_system_queues_one_message_for_each_linked_entity() {
    let mut world = World::new();
    let a = spawn(&mut world, 3, 4);
    let _unlinked = spawn(&mut world, 5, 5);
    let c = spawn(&mut world, 12, 1);
    let homeless = world.store.create_entity().unwrap();
    world.store.insert(a, Component::Connection(Connection { socket: 1 })).unwrap();
    world.store.insert(c, Component::Connection(Connection { socket: 2 })).unwrap();
    world.store.insert(homeless, Component::Connection(Connection { socket: 9 })).unwrap();
    NetworkSystem.run(&mut world);
    let sent: Vec<(u32, String)> =
        world.outbox.iter().map(|m| (m.socket, m.payload.clone())).collect();
    assert_eq!(sent, vec![(1, String::from("3:4")), (2, String::from("12:1"))]);
    NetworkSystem.run(&mut world);
    assert_eq!(world.outbox.len(), 4);
    let taken = world.take_outbox();
    assert_eq!(taken.len(), 4);
    assert_eq!(taken[3].payload, "12:1");
    assert!(world.outbox.is_empty());
    assert_eq!(cell_of(&world, a), Cell::new(3, 4));
}

#[test]
fn render_system_changes_nothing() {
    let mut world = World::new();
    let e = spawn(&mut world, 3, 4);
    world.store.insert(e, Component::Shot(Shot { damage: 2 })).unwrap();
    RenderSystem.run(&mut world);
    assert_eq!(cell_of(&world, e), Cell::new(3, 4));
    assert_eq!(world.store.shot(e), Some(&Shot { damage: 2 }));
    assert!(world.outbox.is_empty());
}

#[test]
fn select_transitions() {
    let a = Entity { id: 0 };
    let b = Entity { id: 1 };
    let nothing = Selected { player: None, is_clicked: false };
    let hover_a = Selected { player: Some(a), is_clicked: false };
    let lock_a = Selected { player: Some(a), is_clicked: true };
    let hover_b = Selected { player: Some(b), is_clicked: false };
    let lock_b = Selected { player: Some(b), is_clicked: true };

    assert_eq!(SelectionSystem::select(nothing, Some(a), false), hover_a);
    assert_eq!(SelectionSystem::select(nothing, Some(a), true), lock_a);
    assert_eq!(SelectionSystem::select(nothing, None, false), nothing);
    assert_eq!(SelectionSystem::select(nothing, None, true), nothing);

    assert_eq!(SelectionSystem::select(hover_a, Some(a), false), hover_a);
    assert_eq!(SelectionSystem::select(hover_a, Some(a), true), lock_a);
    assert_eq!(SelectionSystem::select(hover_a, Some(b), false), hover_b);
    assert_eq!(SelectionSystem::select(hover_a, Some(b), true), lock_b);
    assert_eq!(SelectionSystem::select(hover_a, None, false), nothing);
    assert_eq!(SelectionSystem::select(hover_a, None, true), nothing);

    assert_eq!(SelectionSystem::select(lock_a, Some(a), false), lock_a);
    assert_eq!(SelectionSystem::select(lock_a, Some(a), true), hover_a);
    assert_eq!(SelectionSystem::select(lock_a, Some(b), false), lock_a);
    assert_eq!(SelectionSystem::select(lock_a, Some(b), true), lock_b);
    assert_eq!(SelectionSystem::select(lock_a, None, false), lock_a);
    assert_eq!(SelectionSystem::select(lock_a, None, true), lock_a);
}

#[test]
fn selection_toggle() {
    let mut world = World::new();
    world.resources.selected = Some(Selected::new());
    let e = spawn(&mut world, 5, 5);
    let over = center_of(5, 5);
    let away = center_of(8, 2);

    frame(&mut world, over, false);
    assert_eq!(world.resources.selected, Some(Selected { player: Some(e), is_clicked: false }));

    frame(&mut world, over, true);
    assert_eq!(world.resources.selected, Some(Selected { player: Some(e), is_clicked: true }));

    frame(&mut world, away, false);
    assert_eq!(world.resources.selected, Some(Selected { player: Some(e), is_clicked: true }));

    frame(&mut world, over, false);
    assert_eq!(world.resources.selected, Some(Selected { player: Some(e), is_clicked: true }));

    frame(&mut world, over, true);
    assert_eq!(world.resources.selected, Some(Selected { player: Some(e), is_clicked: false }));

    frame(&mut world, away, false);
    assert_eq!(world.resources.selected, Some(Selected { player: None, is_clicked: false }));
}

#[test]
fn selection_tests_the_cell_not_the_pixel() {
    let mut world = World::new();
    world.resources.selected = Some(Selected::new());
    let e = spawn(&mut world, 5, 5);
    let corner = GridMap::relative_position(Cell::new(5, 5));
    frame(&mut world, corner, false);
    assert_eq!(world.resources.selected.unwrap().player, Some(e));
    frame(&mut world, Point::new(corner.x + 49, corner.y + 49), false);
    assert_eq!(world.resources.selected.unwrap().player, Some(e));
    frame(&mut world, Point::new(corner.x + 50, corner.y), false);
    assert_eq!(world.resources.selected.unwrap().player, None);
    frame(&mut world, Point::new(corner.x - 1, corner.y), false);
    assert_eq!(world.resources.selected.unwrap().player, None);
}

#[test]
fn selection_off_the_map_hits_nothing() {
    let mut world = World::new();
    world.resources.selected = Some(Selected::new());
    let e = spawn(&mut world, 0, 0);
    frame(&mut world, Point::new(10, 25), false);
    assert_eq!(world.resources.selected.unwrap().player, Some(e));
    frame(&mut world, Point::new(9, 25), false);
    assert_eq!(world.resources.selected.unwrap().player, None);
    frame(&mut world, Point::new(-500, -500), true);
    assert_eq!(world.resources.selected.unwrap().player, None);
    assert_eq!(SelectionSystem::entity_at(&world, Point::new(-500, -500)), None);
    assert_eq!(SelectionSystem::entity_at(&world, Point::new(35, 50)), Some(e));
}

#[test]
fn selection_takes_the_first_entity_on_the_cell() {
    let mut world = World::new();
    world.resources.selected = Some(Selected::new());
    let first = spawn(&mut world, 4, 4);
    let second = spawn(&mut world, 4, 4);
    assert_eq!(SelectionSystem::entity_at(&world, center_of(4, 4)), Some(first));
    frame(&mut world, center_of(4, 4), false);
    assert_eq!(world.resources.selected.unwrap().player, Some(first));
    world.store.destroy_entity(first);
    frame(&mut world, center_of(4, 4), false);
    assert_eq!(world.resources.selected.unwrap().player, Some(second));
}

#[test]
fn selection_of_a_second_entity() {
    let mut world = World::new();
    world.resources.selected = Some(Selected::new());
    let a = spawn(&mut world, 2, 2);
    let b = spawn(&mut world, 9, 9);
    frame(&mut world, center_of(2, 2), true);
    assert_eq!(world.resources.selected, Some(Selected { player: Some(a), is_clicked: true }));
    frame(&mut world, center_of(9, 9), false);
    assert_eq!(world.resources.selected, Some(Selected { player: Some(a), is_clicked: true }));
    frame(&mut world, center_of(9, 9), true);
    assert_eq!(world.resources.selected, Some(Selected { player: Some(b), is_clicked: true }));
}

#[test]
fn selection_without_its_resources_changes_nothing() {
    let mut world = World::new();
    spawn(&mut world, 5, 5);
    SelectionSystem.run(&mut world);
    assert_eq!(world.resources.selected, None);
    world.resources.selected = Some(Selected::new());
    SelectionSystem.run(&mut world);
    assert_eq!(world.resources.selected, Some(Selected::new()));
    assert_eq!(world.resources.input, None);
}

#[test]
fn declared_accesses() {
    let input = System::Input(InputSystem);
    let network = System::Network(NetworkSystem);
    let movement = System::Movement(MovementSystem);
    let selection = System::Selection(SelectionSystem);
    let render = System::Render(RenderSystem);
    assert_eq!(
        input.reads(),
        vec![
            Access::Resource(ResourceKind::Input),
            Access::Component(ComponentKind::ArrowController)
        ]
    );
    assert_eq!(input.writes(), vec![Access::Component(ComponentKind::Motion)]);
    assert_eq!(network.reads(), vec![Access::Component(ComponentKind::Transform)]);
    assert_eq!(network.writes(), vec![Access::Component(ComponentKind::Connection)]);
    assert_eq!(movement.reads(), vec![Access::Component(ComponentKind::Motion)]);
    assert_eq!(movement.writes(), vec![Access::Component(ComponentKind::Transform)]);
    assert_eq!(
        selection.reads(),
        vec![
            Access::Resource(ResourceKind::Input),
            Access::Component(ComponentKind::Transform)
        ]
    );
    assert_eq!(selection.writes(), vec![Access::Resource(ResourceKind::Selected)]);
    assert_eq!(render.writes(), Vec::<Access>::new());
    assert!(input.needs_resource(ResourceKind::Input));
    assert!(!input.needs_resource(ResourceKind::Selected));
    assert!(selection.needs_resource(ResourceKind::Selected));
    assert!(selection.needs_resource(ResourceKind::Input));
    assert!(!movement.needs_resource(ResourceKind::Input));
    assert!(!render.needs_resource(ResourceKind::GridMap));
}

#[test]
fn independent_systems_commute() {
    let build = || {
        let mut world = World::new();
        world.resources.selected = Some(Selected::new());
        world.resources.input = Some(Input {
            horizontal: -1,
            vertical: 1,
            mouse_position: center_of(5, 5),
            mouse_pressed: true,
        });
        let e = spawn(&mut world, 5, 5);
        world.store.insert(e, Component::Motion(Motion::new())).unwrap();
        world.store.insert(e, Component::ArrowController(ArrowController)).unwrap();
        world.store.insert(e, Component::Connection(Connection { socket: 1 })).unwrap();
        (world, e)
    };
    let (mut one, e) = build();
    System::Input(InputSystem).run(&mut one);
    System::Network(NetworkSystem).run(&mut one);
    System::Selection(SelectionSystem).run(&mut one);
    let (mut other, _) = build();
    System::Selection(SelectionSystem).run(&mut other);
    System::Network(NetworkSystem).run(&mut other);
    System::Input(InputSystem).run(&mut other);
    assert_eq!(one.store.motion(e), other.store.motion(e));
    assert_eq!(one.store.motion(e).unwrap().velocity, Vector::new(-1, 1));
    assert_eq!(one.resources.selected, other.resources.selected);
    assert_eq!(one.resources.selected, Some(Selected { player: Some(e), is_clicked: true }));
    assert_eq!(one.outbox.len(), 1);
    assert_eq!(one.outbox[0].payload, other.outbox[0].payload);
}
