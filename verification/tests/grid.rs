use tile_world::components::{Transform, Vision};
use tile_world::map::{
    GridMap, Tile, CELL_NUMBER, HEIGHT_OFFSET, SIZE, TILESET, TILE_SIZE, WIDTH_OFFSET,
};
use tile_world::types::{Cell, Point, Rect};
use tile_world::vision::{offsets_of, ViewShape};

#[test]
fn cell_size_is_map_size_over_cell_count() {
    assert_eq!(TILE_SIZE, SIZE / CELL_NUMBER as i64);
    assert_eq!(TILE_SIZE, 50);
}

#[test]
fn grid_round_trip_for_every_cell() {
    for x in 0..CELL_NUMBER {
        for y in 0..CELL_NUMBER {
            let cell = Cell::new(x, y);
            let corner = GridMap::relative_position(cell);
            let center = Point::new(corner.x + TILE_SIZE / 2, corner.y + TILE_SIZE / 2);
            assert!(GridMap::on_map(center));
            assert_eq!(GridMap::grid_position(center), cell);
            assert_eq!(GridMap::cell_under(center), Some(cell));
        }
    }
}

#[test]
fn relative_position_is_the_corner_of_the_cell() {
    assert_eq!(GridMap::relative_position(Cell::new(0, 0)), Point::new(10, 25));
    assert_eq!(GridMap::relative_position(Cell::new(11, 10)), Point::new(560, 525));
    assert_eq!(GridMap::relative_position(Cell::new(14, 14)), Point::new(710, 725));
}

#[test]
fn grid_position_floors_to_the_cell() {
    assert_eq!(GridMap::grid_position(Point::new(300, 300)), Cell::new(5, 5));
    assert_eq!(GridMap::grid_position(Point::new(10, 25)), Cell::new(0, 0));
    assert_eq!(GridMap::grid_position(Point::new(59, 74)), Cell::new(0, 0));
    assert_eq!(GridMap::grid_position(Point::new(60, 75)), Cell::new(1, 1));
    assert_eq!(GridMap::grid_position(Point::new(759, 774)), Cell::new(14, 14));
}

#[test]
fn on_map_includes_the_edges_and_rejects_the_rest() {
    assert!(GridMap::on_map(Point::new(WIDTH_OFFSET, HEIGHT_OFFSET)));
    assert!(GridMap::on_map(Point::new(WIDTH_OFFSET + SIZE, HEIGHT_OFFSET + SIZE)));
    assert!(!GridMap::on_map(Point::new(WIDTH_OFFSET - 1, HEIGHT_OFFSET)));
    assert!(!GridMap::on_map(Point::new(WIDTH_OFFSET, HEIGHT_OFFSET - 1)));
    assert!(!GridMap::on_map(Point::new(WIDTH_OFFSET + SIZE + 1, HEIGHT_OFFSET)));
    assert!(!GridMap::on_map(Point::new(WIDTH_OFFSET, HEIGHT_OFFSET + SIZE + 1)));
    assert!(!GridMap::on_map(Point::new(i64::MIN, i64::MAX)));
}

#[test]
fn far_edge_is_on_the_map_but_over_no_cell() {
    let edge = Point::new(WIDTH_OFFSET + SIZE, HEIGHT_OFFSET + SIZE);
    assert!(GridMap::on_map(edge));
    assert_eq!(GridMap::grid_position(edge), Cell::new(15, 15));
    assert_eq!(GridMap::cell_under(edge), None);
    assert_eq!(GridMap::cell_under(Point::new(0, 0)), None);
}

#[test]
fn view_cells_keep_order_and_drop_what_leaves_the_grid() {
    let square = offsets_of(ViewShape::Square);
    let middle = GridMap::grid_view(&square, Cell::new(5, 5));
    assert_eq!(
        middle,
        vec![
            Cell::new(4, 4),
            Cell::new(5, 4),
            Cell::new(6, 4),
            Cell::new(4, 5),
            Cell::new(5, 5),
            Cell::new(6, 5),
            Cell::new(4, 6),
            Cell::new(5, 6),
            Cell::new(6, 6),
        ]
    );
    let corner = GridMap::grid_view(&square, Cell::new(0, 0));
    assert_eq!(
        corner,
        vec![Cell::new(0, 0), Cell::new(1, 0), Cell::new(0, 1), Cell::new(1, 1)]
    );
    let far = GridMap::grid_view(&square, Cell::new(14, 14));
    assert_eq!(
        far,
        vec![Cell::new(13, 13), Cell::new(14, 13), Cell::new(13, 14), Cell::new(14, 14)]
    );
    let diamond = Vision::new(ViewShape::Diamond);
    assert_eq!(
        GridMap::grid_view(diamond.offsets(), Cell::new(0, 0)),
        vec![Cell::new(0, 0), Cell::new(1, 0), Cell::new(0, 1)]
    );
    assert_eq!(GridMap::grid_view(&Vec::new(), Cell::new(3, 3)), Vec::<Cell>::new());
}

#[test]
fn view_cells_of_extreme_offsets_do_not_overflow() {
    let offsets = vec![(i32::MAX, i32::MIN), (i32::MIN, i32::MAX), (0, 0)];
    let cells = GridMap::grid_view(&offsets, Cell::new(u32::MAX, 3));
    assert_eq!(cells, Vec::<Cell>::new());
    let cells = GridMap::grid_view(&offsets, Cell::new(2, 3));
    assert_eq!(cells, vec![Cell::new(2, 3)]);
}

#[test]
fn tile_codes() {
    assert_eq!(Tile::from_code(-1), Some(Tile::Undefined));
    assert_eq!(Tile::from_code(0), Some(Tile::Wall));
    assert_eq!(Tile::from_code(1), Some(Tile::Grass));
    assert_eq!(Tile::from_code(2), Some(Tile::Water));
    assert_eq!(Tile::from_code(3), None);
    assert_eq!(Tile::from_code(-2), None);
    for tile in [Tile::Undefined, Tile::Wall, Tile::Grass, Tile::Water] {
        assert_eq!(Tile::from_code(tile.code()), Some(tile));
    }
}

#[test]
fn map_holds_the_tile_table() {
    let map = GridMap::new();
    assert_eq!(TILESET.len(), 225);
    for x in 0..CELL_NUMBER {
        for y in 0..CELL_NUMBER {
            let code = TILESET[(x * CELL_NUMBER + y) as usize];
            assert_eq!(map.tile_at(Cell::new(x, y)), Tile::from_code(code));
        }
    }
    assert_eq!(map.tile_at(Cell::new(0, 0)), Some(Tile::Wall));
    assert_eq!(map.tile_at(Cell::new(14, 7)), Some(Tile::Wall));
    assert_eq!(map.tile_at(Cell::new(1, 1)), Some(Tile::Grass));
    assert_eq!(map.tile_at(Cell::new(9, 10)), Some(Tile::Water));
    assert_eq!(map.tile_at(Cell::new(11, 12)), Some(Tile::Water));
    assert_eq!(map.tile_at(Cell::new(10, 9)), Some(Tile::Grass));
    assert_eq!(map.tile_at(Cell::new(15, 0)), None);
    assert_eq!(map.tile_at(Cell::new(0, 15)), None);
}

#[test]
fn highlights_are_presentation_state() {
    let mut map = GridMap::new();
    assert_eq!(map.selected_tile(), None);
    assert_eq!(map.selected_view(), None);
    map.set_selected_tile(Cell::new(3, 4));
    assert_eq!(map.selected_tile(), Some(Cell::new(3, 4)));
    assert_eq!(map.selected_view(), None);
    let view = vec![Cell::new(1, 1), Cell::new(2, 1)];
    map.set_selected_player_view(Some(view.clone()));
    assert_eq!(map.selected_view(), Some(&view));
    assert_eq!(map.selected_tile(), Some(Cell::new(3, 4)));
    map.set_selected_player_view(None);
    assert_eq!(map.selected_view(), None);
    assert_eq!(map.tile_at(Cell::new(1, 1)), Some(Tile::Grass));
}

#[test]
fn tile_rect_leaves_a_border_of_one_pixel() {
    assert_eq!(GridMap::tile_rect(Cell::new(0, 0)), Rect { x: 1, y: 1, w: 48, h: 48 });
    assert_eq!(GridMap::tile_rect(Cell::new(3, 4)), Rect { x: 151, y: 201, w: 48, h: 48 });
}

#[test]
fn transform_is_placed_from_its_cell() {
    let t = Transform::new(Cell::new(11, 10), 6).unwrap();
    assert_eq!(t.grid_position, Cell::new(11, 10));
    assert_eq!(t.position, Point::new(560 + 19, 525 + 19));
    assert_eq!(t.size, 6);
    assert_eq!(t.rotation, 0);
    assert_eq!(Transform::place(Cell::new(0, 0), 0), Point::new(10 + 22, 25 + 22));
    assert_eq!(Transform::place(Cell::new(0, 0), 7), Point::new(10 + 19, 25 + 19));
    assert_eq!(
        Transform::place(Cell::new(0, 0), u32::MAX),
        Point::new(10 + 22 - 2147483647, 25 + 22 - 2147483647)
    );
    assert!(Transform::new(Cell::new(0, 0), 6).is_some());
    assert!(Transform::new(Cell::new(14, 14), 6).is_some());
    assert!(Transform::new(Cell::new(15, 0), 6).is_none());
    assert!(Transform::new(Cell::new(0, 15), 6).is_none());
}
