//! The tile grid: its fixed tile table, the transforms between world space
//! and grid cells, and the highlight state that a renderer draws.
use vstd::prelude::*;
use crate::types::{Cell, Point, Rect};

verus! {

/// Side length of the map in world space.
pub const SIZE: i64 = 750;

/// Number of cells along each side of the map.
pub const CELL_NUMBER: u32 = 15;

/// Side length of one cell in world space: `SIZE / CELL_NUMBER`.
pub const TILE_SIZE: i64 = 50;

/// Horizontal offset of the map's origin in world space.
pub const WIDTH_OFFSET: i64 = 10;

/// Vertical offset of the map's origin in world space.
pub const HEIGHT_OFFSET: i64 = 25;

/// Whether a cell lies on the grid.
pub open spec fn in_bounds(c: Cell) -> bool {
    c.x < CELL_NUMBER && c.y < CELL_NUMBER
}

/// Whether a world point lies within the map, edges included.
pub open spec fn on_map_spec(p: Point) -> bool {
    &&& WIDTH_OFFSET <= p.x <= WIDTH_OFFSET + SIZE
    &&& HEIGHT_OFFSET <= p.y <= HEIGHT_OFFSET + SIZE
}

/// Column of the cell under a world abscissa.
pub open spec fn grid_x(px: int) -> int {
    (px - WIDTH_OFFSET) / (TILE_SIZE as int)
}

/// Row of the cell under a world ordinate.
pub open spec fn grid_y(py: int) -> int {
    (py - HEIGHT_OFFSET) / (TILE_SIZE as int)
}

/// World abscissa of the left edge of a column.
pub open spec fn world_x(cx: int) -> int {
    WIDTH_OFFSET + cx * TILE_SIZE
}

/// World ordinate of the top edge of a row.
pub open spec fn world_y(cy: int) -> int {
    HEIGHT_OFFSET + cy * TILE_SIZE
}

/// The cell size is the map size divided by the cell count.
pub proof fn lemma_cell_size()
    ensures
        TILE_SIZE as int == (SIZE as int) / (CELL_NUMBER as int),
        TILE_SIZE * CELL_NUMBER == SIZE,
{
}

/// The centre of a cell lies in that cell: taking the world position of a
/// cell's corner, moving half a cell inwards and asking for the cell under
/// that point gives the cell back.
pub proof fn lemma_grid_round_trip(c: Cell)
    requires
        in_bounds(c),
    ensures
        grid_x(world_x(c.x as int) + TILE_SIZE / 2) == c.x,
        grid_y(world_y(c.y as int) + TILE_SIZE / 2) == c.y,
{
}

/// Every point of a cell, from its top-left corner up to but not including
/// the next cell's, lies in that cell.
pub proof fn lemma_grid_of_cell_points(cx: int, cy: int, dx: int, dy: int)
    requires
        0 <= dx < TILE_SIZE,
        0 <= dy < TILE_SIZE,
    ensures
        grid_x(world_x(cx) + dx) == cx,
        grid_y(world_y(cy) + dy) == cy,
{
}


/// The kinds of tile.
#[derive(Clone, Copy, Debug, PartialEq, Eq, Structural, Hash)]
pub enum Tile {
    Undefined,
    Wall,
    Grass,
    Water,
}

/// The tile that a code of the tile table stands for: `-1` undefined, `0`
/// wall, `1` floor, `2` water. Other codes stand for nothing.
pub open spec fn tile_of_code(code: int) -> Option<Tile> {
    if code == -1 {
        Some(Tile::Undefined)
    } else if code == 0 {
        Some(Tile::Wall)
    } else if code == 1 {
        Some(Tile::Grass)
    } else if code == 2 {
        Some(Tile::Water)
    } else {
        None
    }
}

impl Tile {
    /// Reads a code of the tile table.
    pub fn from_code(code: i32) -> (t: Option<Tile>)
        ensures
            t == tile_of_code(code as int),
    {
        if code == -1 {
            Some(Tile::Undefined)
        } else if code == 0 {
            Some(Tile::Wall)
        } else if code == 1 {
            Some(Tile::Grass)
        } else if code == 2 {
            Some(Tile::Water)
        } else {
            None
        }
    }

    /// The code that stands for this tile in the tile table.
    pub fn code(self) -> (code: i32)
        ensures
            tile_of_code(code as int) == Some(self),
    {
        match self {
            Tile::Undefined => -1,
            Tile::Wall => 0,
            Tile::Grass => 1,
            Tile::Water => 2,
        }
    }
}

/// The tile table, column by column: the tile of cell `(x, y)` stands at
/// index `x * CELL_NUMBER + y`.
pub const TILESET: [i32; 225] = [
    0, 0, 0, 0, 0, 0, 0, 0, 0, 0, 0, 0, 0, 0, 0,
    0, 1, 1, 1, 1, 1, 1, 1, 1, 1, 1, 1, 1, 1, 0,
    0, 1, 1, 1, 1, 1, 1, 1, 1, 1, 1, 1, 1, 1, 0,
    0, 1, 1, 1, 1, 1, 1, 1, 1, 1, 1, 1, 1, 1, 0,
    0, 1, 1, 1, 1, 1, 1, 1, 1, 1, 1, 1, 1, 1, 0,
    0, 1, 1, 1, 1, 1, 1, 1, 1, 1, 1, 1, 1, 1, 0,
    0, 1, 1, 1, 1, 1, 1, 1, 1, 1, 1, 1, 1, 1, 0,
    0, 1, 1, 1, 1, 1, 1, 1, 1, 1, 1, 1, 1, 1, 0,
    0, 1, 1, 1, 1, 1, 1, 1, 1, 1, 1, 1, 1, 1, 0,
    0, 1, 1, 1, 1, 1, 1, 1, 1, 1, 2, 2, 2, 1, 0,
    0, 1, 1, 1, 1, 1, 1, 1, 1, 1, 2, 2, 2, 1, 0,
    0, 1, 1, 1, 1, 1, 1, 1, 1, 1, 2, 2, 2, 1, 0,
    0, 1, 1, 1, 1, 1, 1, 1, 1, 1, 1, 1, 1, 1, 0,
    0, 1, 1, 1, 1, 1, 1, 1, 1, 1, 1, 1, 1, 1, 0,
    0, 0, 0, 0, 0, 0, 0, 0, 0, 0, 0, 0, 0, 0, 0,
];

/// The tile of cell `(x, y)` in the tile table: a wall around the map, a
/// pond of three cells by three, grass everywhere else.
pub open spec fn default_tile(x: int, y: int) -> Tile {
    if x == 0 || y == 0 || x == CELL_NUMBER - 1 || y == CELL_NUMBER - 1 {
        Tile::Wall
    } else if 9 <= x <= 11 && 10 <= y <= 12 {
        Tile::Water
    } else {
        Tile::Grass
    }
}

/// Index of a cell in the tile table.
pub open spec fn tile_index(x: int, y: int) -> int {
    x * CELL_NUMBER + y
}

/// The tiles of the tile table, each at its `tile_index`.
pub open spec fn default_tiles() -> Seq<Tile> {
    Seq::new(
        (CELL_NUMBER * CELL_NUMBER) as nat,
        |i: int| default_tile(i / (CELL_NUMBER as int), i % (CELL_NUMBER as int)),
    )
}

/// Every code of the tile table stands for the tile that `default_tile` names.
pub proof fn lemma_tileset(x: int, y: int)
    requires
        0 <= x < CELL_NUMBER,
        0 <= y < CELL_NUMBER,
    ensures
        0 <= tile_index(x, y) < TILESET@.len(),
        tile_of_code(TILESET@[tile_index(x, y)] as int) == Some(default_tile(x, y)),
{
}


/// The cell that an offset from a centre cell leads to, if it lies on the grid.
pub open spec fn offset_cell(center: Cell, off: (i32, i32)) -> Option<Cell> {
    let x = center.x + off.0;
    let y = center.y + off.1;
    if 0 <= x < CELL_NUMBER && 0 <= y < CELL_NUMBER {
        Some(Cell { x: x as u32, y: y as u32 })
    } else {
        None
    }
}

/// The cells that a list of offsets covers around a centre cell: each offset
/// added to the centre, in the order of the list, without those that leave
/// the grid.
pub open spec fn view_cells(offsets: Seq<(i32, i32)>, center: Cell) -> Seq<Cell>
    decreases offsets.len(),
{
    if offsets.len() == 0 {
        Seq::<Cell>::empty()
    } else {
        let rest = view_cells(offsets.drop_last(), center);
        match offset_cell(center, offsets.last()) {
            Some(c) => rest.push(c),
            None => rest,
        }
    }
}

/// A cell is among the view cells exactly when some offset of the list leads
/// to it; so every view cell lies on the grid.
pub proof fn lemma_view_cells_members(offsets: Seq<(i32, i32)>, center: Cell, c: Cell)
    ensures
        view_cells(offsets, center).contains(c) <==> exists|i: int|
            0 <= i < offsets.len() && offset_cell(center, #[trigger] offsets[i]) == Some(c),
        view_cells(offsets, center).contains(c) ==> in_bounds(c),
        view_cells(offsets, center).len() <= offsets.len(),
    decreases offsets.len(),
{
    if offsets.len() > 0 {
        let front = offsets.drop_last();
        let rest = view_cells(front, center);
        lemma_view_cells_members(front, center, c);
        let all = view_cells(offsets, center);
        let last = offset_cell(center, offsets.last());
        if all.contains(c) {
            let k = choose|k: int| 0 <= k < all.len() && all[k] == c;
            if k < rest.len() {
                assert(rest[k] == c);
                let i = choose|i: int|
                    0 <= i < front.len() && offset_cell(center, #[trigger] front[i]) == Some(c);
                assert(offsets[i] == front[i]);
            } else {
                assert(last == Some(c));
                assert(offsets[offsets.len() - 1] == offsets.last());
            }
        }
        if exists|i: int|
            0 <= i < offsets.len() && offset_cell(center, #[trigger] offsets[i]) == Some(c) {
            let i = choose|i: int|
                0 <= i < offsets.len() && offset_cell(center, #[trigger] offsets[i]) == Some(c);
            if i < front.len() {
                assert(front[i] == offsets[i]);
                assert(rest.contains(c));
                let k = choose|k: int| 0 <= k < rest.len() && rest[k] == c;
                assert(all[k] == c);
            } else {
                assert(all[all.len() - 1] == c);
            }
        }
    }
}

/// What a map holds: its tiles, and the two highlights a renderer draws.
pub struct GridMapView {
    /// The tile of each cell, at the cell's `tile_index`.
    pub tiles: Seq<Tile>,
    /// The highlighted cell, if one was set.
    pub selected_tile: Option<Cell>,
    /// The highlighted cells of the selected entity's view, if there is one.
    pub selected_view: Option<Seq<Cell>>,
}

/// The tile grid with its highlight state.
pub struct GridMap {
    tiles: Vec<Tile>,
    selected_tile: Option<Cell>,
    selected_view: Option<Vec<Cell>>,
}

impl View for GridMap {
    type V = GridMapView;

    closed spec fn view(&self) -> GridMapView {
        GridMapView {
            tiles: self.tiles@,
            selected_tile: self.selected_tile,
            selected_view: match self.selected_view {
                Some(v) => Some(v@),
                None => None,
            },
        }
    }
}

impl GridMap {
    #[verifier::type_invariant]
    spec fn inv(self) -> bool {
        self.tiles@.len() == CELL_NUMBER * CELL_NUMBER
    }

    /// The map of the tile table, with nothing highlighted.
    pub fn new() -> (map: GridMap)
        ensures
            map@ == (GridMapView {
                tiles: default_tiles(),
                selected_tile: None,
                selected_view: None,
            }),
            forall|x: int, y: int|
                0 <= x < CELL_NUMBER && 0 <= y < CELL_NUMBER ==> #[trigger] map@.tiles[tile_index(
                    x,
                    y,
                )] == default_tile(x, y),
    {
        let mut tiles: Vec<Tile> = Vec::new();
        let mut i: usize = 0;
        while i < 225
            invariant
                i <= 225,
                tiles@.len() == i,
                forall|x: int, y: int|
                    0 <= x < CELL_NUMBER && 0 <= y < CELL_NUMBER && tile_index(x, y) < i
                        ==> #[trigger] tiles@[tile_index(x, y)] == default_tile(x, y),
            decreases 225 - i,
        {
            proof {
                let x = (i / 15) as int;
                let y = (i % 15) as int;
                lemma_tileset(x, y);
                assert(tile_index(x, y) == i);
            }
            match Tile::from_code(TILESET[i]) {
                Some(tile) => tiles.push(tile),
                None => {},
            }
            i = i + 1;
        }
        proof {
            assert forall|k: int| 0 <= k < 225 implies tiles@[k] == default_tiles()[k] by {
                let x = k / 15;
                let y = k % 15;
                assert(tile_index(x, y) == k);
            }
            assert(tiles@ =~= default_tiles());
        }
        GridMap { tiles, selected_tile: None, selected_view: None }
    }

    /// The tile of a cell; `None` for a cell off the grid.
    pub fn tile_at(&self, cell: Cell) -> (t: Option<Tile>)
        ensures
            in_bounds(cell) ==> t == Some(self@.tiles[tile_index(cell.x as int, cell.y as int)]),
            !in_bounds(cell) ==> t.is_none(),
    {
        proof {
            use_type_invariant(self);
        }
        if cell.x < CELL_NUMBER && cell.y < CELL_NUMBER {
            let index: usize = (cell.x * CELL_NUMBER + cell.y) as usize;
            Some(self.tiles[index])
        } else {
            None
        }
    }

    /// The highlighted cell.
    pub fn selected_tile(&self) -> (c: Option<Cell>)
        ensures
            c == self@.selected_tile,
    {
        self.selected_tile
    }

    /// The highlighted view cells.
    pub fn selected_view(&self) -> (v: Option<&Vec<Cell>>)
        ensures
            v.is_some() == self@.selected_view.is_some(),
            v.is_some() ==> v.unwrap()@ == self@.selected_view.unwrap(),
    {
        self.selected_view.as_ref()
    }

    /// Highlights a cell. Nothing else changes.
    pub fn set_selected_tile(&mut self, cell: Cell)
        ensures
            final(self)@ == (GridMapView { selected_tile: Some(cell), ..old(self)@ }),
    {
        proof {
            use_type_invariant(&*self);
        }
        self.selected_tile = Some(cell);
    }

    /// Replaces the highlighted view cells, or clears them. Nothing else
    /// changes.
    pub fn set_selected_player_view(&mut self, view: Option<Vec<Cell>>)
        ensures
            final(self)@ == (GridMapView {
                selected_view: match view {
                    Some(v) => Some(v@),
                    None => None,
                },
                ..old(self)@
            }),
    {
        proof {
            use_type_invariant(&*self);
        }
        self.selected_view = view;
    }

    /// The rectangle that highlights a cell, relative to the map's origin:
    /// the cell without a border of one pixel.
    pub fn tile_rect(cell: Cell) -> (r: Rect)
        ensures
            r.x == cell.x * TILE_SIZE + 1,
            r.y == cell.y * TILE_SIZE + 1,
            r.w == TILE_SIZE - 2,
            r.h == TILE_SIZE - 2,
    {
        Rect {
            x: (cell.x as i64) * TILE_SIZE + 1,
            y: (cell.y as i64) * TILE_SIZE + 1,
            w: TILE_SIZE - 2,
            h: TILE_SIZE - 2,
        }
    }

    /// Whether a world point lies within the map, edges included.
    pub fn on_map(pos: Point) -> (b: bool)
        ensures
            b == on_map_spec(pos),
    {
        if pos.x < 0 + WIDTH_OFFSET || pos.y < 0 + HEIGHT_OFFSET || pos.x > SIZE + WIDTH_OFFSET
            || pos.y > SIZE + HEIGHT_OFFSET {
            return false;
        }
        true
    }

    /// The cell under a world point of the map. A point of the map's far
    /// edges gives a column or a row of `CELL_NUMBER`, one past the grid.
    pub fn grid_position(pos: Point) -> (c: Cell)
        requires
            on_map_spec(pos),
        ensures
            c.x == grid_x(pos.x as int),
            c.y == grid_y(pos.y as int),
            c.x <= CELL_NUMBER,
            c.y <= CELL_NUMBER,
    {
        Cell {
            x: ((pos.x - WIDTH_OFFSET) / TILE_SIZE) as u32,
            y: ((pos.y - HEIGHT_OFFSET) / TILE_SIZE) as u32,
        }
    }

    /// The cell under a world point: `None` for a point that is off the map
    /// or on its far edges, where no cell lies.
    pub fn cell_under(pos: Point) -> (c: Option<Cell>)
        ensures
            c.is_some() <==> on_map_spec(pos) && grid_x(pos.x as int) < CELL_NUMBER && grid_y(
                pos.y as int,
            ) < CELL_NUMBER,
            c.is_some() ==> c.unwrap().x == grid_x(pos.x as int) && c.unwrap().y == grid_y(
                pos.y as int,
            ),
    {
        if GridMap::on_map(pos) {
            let cell = GridMap::grid_position(pos);
            if cell.x < CELL_NUMBER && cell.y < CELL_NUMBER {
                return Some(cell);
            }
        }
        None
    }

    /// The world point of a cell's top-left corner.
    pub fn relative_position(cell: Cell) -> (p: Point)
        ensures
            p.x == world_x(cell.x as int),
            p.y == world_y(cell.y as int),
    {
        Point {
            x: WIDTH_OFFSET + (cell.x as i64) * TILE_SIZE,
            y: HEIGHT_OFFSET + (cell.y as i64) * TILE_SIZE,
        }
    }

    /// The cells that a view covers around a centre cell.
    pub fn grid_view(view: &Vec<(i32, i32)>, center: Cell) -> (cells: Vec<Cell>)
        ensures
            cells@ == view_cells(view@, center),
    {
        let mut cells: Vec<Cell> = Vec::new();
        let mut i: usize = 0;
        while i < view.len()
            invariant
                i <= view.len(),
                cells@ == view_cells(view@.take(i as int), center),
            decreases view.len() - i,
        {
            let off = view[i];
            let x: i64 = center.x as i64 + off.0 as i64;
            let y: i64 = center.y as i64 + off.1 as i64;
            proof {
                assert(view@.take(i + 1).drop_last() == view@.take(i as int));
                assert(view@.take(i + 1).last() == off);
            }
            if 0 <= x && x < CELL_NUMBER as i64 && 0 <= y && y < CELL_NUMBER as i64 {
                cells.push(Cell { x: x as u32, y: y as u32 });
            }
            i = i + 1;
        }
        assert(view@.take(view.len() as int) == view@);
        cells
    }
}

} // verus!
