use tile_world::components::Vision;
use tile_world::vision::{offsets_of, ViewShape};

#[test]
fn square_is_chebyshev_radius_one() {
    let square = offsets_of(ViewShape::Square);
    assert_eq!(square.len(), 9);
    for dx in -1..=1 {
        for dy in -1..=1 {
            assert!(square.contains(&(dx, dy)));
        }
    }
    assert_eq!(
        square,
        vec![(-1, -1), (0, -1), (1, -1), (-1, 0), (0, 0), (1, 0), (-1, 1), (0, 1), (1, 1)]
    );
}

#[test]
fn diamond_is_manhattan_radius_one() {
    let diamond = offsets_of(ViewShape::Diamond);
    assert_eq!(diamond, vec![(0, -1), (-1, 0), (0, 0), (1, 0), (0, 1)]);
    for (dx, dy) in diamond {
        assert!(i32::abs(dx) + i32::abs(dy) <= 1);
    }
}

#[test]
fn triangle_faces_forward() {
    let triangle = offsets_of(ViewShape::Triangle);
    assert_eq!(triangle, vec![(-1, -1), (0, -1), (1, -1), (0, 0)]);
}

#[test]
fn every_shape_holds_the_origin() {
    for shape in [ViewShape::Square, ViewShape::Diamond, ViewShape::Triangle] {
        let vision = Vision::new(shape);
        assert!(!vision.offsets().is_empty());
        assert!(vision.offsets().contains(&(0, 0)));
        assert_eq!(vision.offsets(), &offsets_of(shape));
    }
}

#[test]
fn default_vision_is_the_square() {
    let vision = Vision::default();
    assert_eq!(vision.offsets(), &offsets_of(ViewShape::Square));
}

#[test]
fn view_shape_swap_round_trip() {
    let mut vision = Vision::new(ViewShape::Square);
    let square = vision.offsets().clone();
    vision.update_view(ViewShape::Diamond);
    assert_eq!(vision.offsets(), &offsets_of(ViewShape::Diamond));
    assert_ne!(vision.offsets(), &square);
    vision.update_view(ViewShape::Triangle);
    assert_eq!(vision.offsets(), &offsets_of(ViewShape::Triangle));
    vision.update_view(ViewShape::Square);
    assert_eq!(vision.offsets(), &square);
}

#[test]
fn update_view_is_idempotent() {
    let mut vision = Vision::default();
    vision.update_view(ViewShape::Triangle);
    let once = vision.offsets().clone();
    vision.update_view(ViewShape::Triangle);
    assert_eq!(vision.offsets(), &once);
}
