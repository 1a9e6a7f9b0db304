//! The component kinds. An entity holds at most one value of each kind;
//! absence is meaningful, not an error.
use vstd::prelude::*;
use crate::map::{in_bounds, world_x, world_y, GridMap, CELL_NUMBER, TILE_SIZE};
use crate::types::{Cell, Point, Vector};
use crate::vision::{lemma_shape_offsets_hold_origin, offsets_of, shape_offsets, ViewShape};

verus! {

/// Pixels by which an entity is drawn up and left of the centred position.
pub const PIXEL_BIAS: i64 = 3;

/// What an entity sees: an ordered list of cell offsets relative to the cell
/// it stands on. The list is always that of one of the three shapes.
pub struct Vision {
    view: Vec<(i32, i32)>,
}

impl View for Vision {
    type V = Seq<(i32, i32)>;

    closed spec fn view(&self) -> Seq<(i32, i32)> {
        self.view@
    }
}

impl Vision {
    #[verifier::type_invariant]
    spec fn inv(self) -> bool {
        exists|shape: ViewShape| self.view@ == shape_offsets(shape)
    }

    /// A view of the given shape.
    pub fn new(shape: ViewShape) -> (vision: Vision)
        ensures
            vision@ == shape_offsets(shape),
    {
        Vision { view: offsets_of(shape) }
    }

    /// Replaces the offset list wholesale by that of the given shape. What
    /// the view held before does not matter.
    pub fn update_view(&mut self, shape: ViewShape)
        ensures
            final(self)@ == switched(old(self)@, shape),
            final(self)@ == shape_offsets(shape),
    {
        self.view = offsets_of(shape);
    }

    /// The offset list. It is never empty and always holds the origin.
    pub fn offsets(&self) -> (offsets: &Vec<(i32, i32)>)
        ensures
            offsets@ == self@,
            exists|shape: ViewShape| self@ == shape_offsets(shape),
            self@.len() > 0,
            self@.contains((0i32, 0i32)),
    {
        proof {
            use_type_invariant(self);
            let shape = choose|shape: ViewShape| self.view@ == shape_offsets(shape);
            lemma_shape_offsets_hold_origin(shape);
        }
        &self.view
    }
}

impl Default for Vision {
    /// The square view.
    fn default() -> (vision: Vision)
        ensures
            vision@ == shape_offsets(ViewShape::Square),
    {
        Vision::new(ViewShape::Square)
    }
}

/// The offset list of a view after a switch to a shape: that of the shape,
/// whatever the list was before.
pub open spec fn switched(offsets: Seq<(i32, i32)>, shape: ViewShape) -> Seq<(i32, i32)> {
    shape_offsets(shape)
}

/// A switch is total: after a switch to a shape a view is as a fresh view of
/// that shape, so a second switch to the same shape changes nothing, and a
/// round trip from the square through the diamond and the triangle back to
/// the square gives the list of the first square again.
pub proof fn lemma_view_swap(offsets: Seq<(i32, i32)>, shape: ViewShape)
    ensures
        switched(offsets, shape) == shape_offsets(shape),
        switched(switched(offsets, shape), shape) == switched(offsets, shape),
        switched(
            switched(switched(switched(offsets, ViewShape::Square), ViewShape::Diamond), ViewShape::Triangle),
            ViewShape::Square,
        ) == switched(offsets, ViewShape::Square),
{
}

/// The link of an entity to the network: the handle of a transport that
/// lives outside this library.
#[derive(Clone, Copy, Debug, PartialEq, Eq, Structural, Hash)]
pub struct Connection {
    pub socket: u32,
}

/// The handle of a mesh that lives with the renderer.
#[derive(Clone, Copy, Debug, PartialEq, Eq, Structural, Hash)]
pub struct Graphic {
    pub mesh: u32,
}

/// Offset from a cell's corner at which an entity of a given size is drawn:
/// half a cell inwards, half the entity's size (rounded down) back, and the
/// fixed bias.
pub open spec fn centering(size: int) -> int {
    TILE_SIZE / 2 - size / 2 - PIXEL_BIAS
}

/// A position in the game world. The grid cell is the authoritative
/// position; the world position is derived from it.
#[derive(Clone, Copy, Debug, PartialEq, Eq, Structural, Hash)]
pub struct Transform {
    /// World position at which the entity is drawn.
    pub position: Point,
    /// The cell the entity stands on.
    pub grid_position: Cell,
    /// Rotation in whole degrees.
    pub rotation: i32,
    /// Visual size in pixels.
    pub size: u32,
}

impl Transform {
    /// Whether the world position is the one derived from the grid cell.
    pub open spec fn is_placed(self) -> bool {
        &&& self.position.x == world_x(self.grid_position.x as int) + centering(self.size as int)
        &&& self.position.y == world_y(self.grid_position.y as int) + centering(self.size as int)
    }

    /// Whether the transform is consistent: the cell lies on the grid and the
    /// world position is derived from it.
    pub open spec fn wf(self) -> bool {
        in_bounds(self.grid_position) && self.is_placed()
    }

    /// The world position at which an entity of a given size stands on a
    /// cell: the cell's corner, moved by `centering` on both axes.
    pub open spec fn placed(cell: Cell, size: u32) -> Point {
        Point {
            x: (world_x(cell.x as int) + centering(size as int)) as i64,
            y: (world_y(cell.y as int) + centering(size as int)) as i64,
        }
    }

    /// The world position at which an entity of a given size stands on a cell.
    pub fn place(cell: Cell, size: u32) -> (p: Point)
        ensures
            p == Transform::placed(cell, size),
            p.x == world_x(cell.x as int) + centering(size as int),
            p.y == world_y(cell.y as int) + centering(size as int),
    {
        let corner = GridMap::relative_position(cell);
        let shift: i64 = (TILE_SIZE / 2 - (size / 2) as i64) - PIXEL_BIAS;
        Point { x: corner.x + shift, y: corner.y + shift }
    }

    /// A transform on a cell, unrotated; `None` for a cell off the grid.
    pub fn new(cell: Cell, size: u32) -> (t: Option<Transform>)
        ensures
            t.is_some() == in_bounds(cell),
            t.is_some() ==> {
                &&& t.unwrap().wf()
                &&& t.unwrap().grid_position == cell
                &&& t.unwrap().size == size
                &&& t.unwrap().rotation == 0
            },
    {
        if cell.x < CELL_NUMBER && cell.y < CELL_NUMBER {
            Some(
                Transform {
                    position: Transform::place(cell, size),
                    grid_position: cell,
                    rotation: 0,
                    size,
                },
            )
        } else {
            None
        }
    }
}

/// Motion in the game world. The acceleration is carried along; no system
/// reads it.
#[derive(Clone, Copy, Debug, PartialEq, Eq, Structural, Hash)]
pub struct Motion {
    pub velocity: Vector,
    pub acceleration: Vector,
}

impl Motion {
    /// No motion at all.
    pub fn new() -> (m: Motion)
        ensures
            m.velocity == (Vector { x: 0, y: 0 }),
            m.acceleration == (Vector { x: 0, y: 0 }),
    {
        Motion { velocity: Vector { x: 0, y: 0 }, acceleration: Vector { x: 0, y: 0 } }
    }
}

/// Marks the entities that input steers. An entity without it never
/// receives a velocity from input.
#[derive(Clone, Copy, Debug, PartialEq, Eq, Structural, Hash)]
pub struct ArrowController;

impl Default for ArrowController {
    fn default() -> (c: ArrowController)
        ensures
            c == ArrowController,
    {
        ArrowController
    }
}

/// Largest value of a player's health, food and water.
pub const GAUGE_MAX: u32 = 100;

/// Marks an entity as the player, with its gauges.
#[derive(Clone, Debug)]
pub struct Player {
    pub name: String,
    pub health: u32,
    pub food: u32,
    pub water: u32,
}

impl Player {
    /// Whether the three gauges lie in their range.
    pub open spec fn wf(self) -> bool {
        self.health <= GAUGE_MAX && self.food <= GAUGE_MAX && self.water <= GAUGE_MAX
    }

    /// A player with the given gauges; `None` if one of them is out of range.
    pub fn new(name: String, health: u32, food: u32, water: u32) -> (p: Option<Player>)
        ensures
            p.is_some() == (health <= GAUGE_MAX && food <= GAUGE_MAX && water <= GAUGE_MAX),
            p.is_some() ==> {
                &&& p.unwrap().wf()
                &&& p.unwrap().name == name
                &&& p.unwrap().health == health
                &&& p.unwrap().food == food
                &&& p.unwrap().water == water
            },
    {
        if health <= GAUGE_MAX && food <= GAUGE_MAX && water <= GAUGE_MAX {
            Some(Player { name, health, food, water })
        } else {
            None
        }
    }
}

impl Default for Player {
    fn default() -> (p: Player)
        ensures
            p.name@ == Seq::<char>::empty(),
            p.health == 0,
            p.food == 0,
            p.water == 0,
    {
        Player { name: String::new(), health: 0, food: 0, water: 0 }
    }
}

/// A shot and the damage it deals. No system reads it; it is stored and
/// given back unchanged.
#[derive(Clone, Copy, Debug, PartialEq, Eq, Structural, Hash)]
pub struct Shot {
    pub damage: u32,
}

impl Default for Shot {
    fn default() -> (s: Shot)
        ensures
            s.damage == 0,
    {
        Shot { damage: 0 }
    }
}

/// The names of the component kinds.
#[derive(Clone, Copy, Debug, PartialEq, Eq, Structural, Hash)]
pub enum ComponentKind {
    Transform,
    Motion,
    ArrowController,
    Player,
    Vision,
    Connection,
    Shot,
    Graphic,
}

/// A component value of any kind.
pub enum Component {
    Transform(Transform),
    Motion(Motion),
    ArrowController(ArrowController),
    Player(Player),
    Vision(Vision),
    Connection(Connection),
    Shot(Shot),
    Graphic(Graphic),
}

impl Component {
    /// The kind of a component value.
    pub open spec fn kind_spec(&self) -> ComponentKind {
        match *self {
            Component::Transform(_) => ComponentKind::Transform,
            Component::Motion(_) => ComponentKind::Motion,
            Component::ArrowController(_) => ComponentKind::ArrowController,
            Component::Player(_) => ComponentKind::Player,
            Component::Vision(_) => ComponentKind::Vision,
            Component::Connection(_) => ComponentKind::Connection,
            Component::Shot(_) => ComponentKind::Shot,
            Component::Graphic(_) => ComponentKind::Graphic,
        }
    }

    /// The kind of a component value.
    #[verifier::when_used_as_spec(kind_spec)]
    pub fn kind(&self) -> (k: ComponentKind)
        ensures
            k == self.kind_spec(),
    {
        match self {
            Component::Transform(_) => ComponentKind::Transform,
            Component::Motion(_) => ComponentKind::Motion,
            Component::ArrowController(_) => ComponentKind::ArrowController,
            Component::Player(_) => ComponentKind::Player,
            Component::Vision(_) => ComponentKind::Vision,
            Component::Connection(_) => ComponentKind::Connection,
            Component::Shot(_) => ComponentKind::Shot,
            Component::Graphic(_) => ComponentKind::Graphic,
        }
    }
}

} // verus!
