//! The shapes of an entity's field of view, as lists of cell offsets relative
//! to the cell the entity stands on.
use vstd::prelude::*;

verus! {

/// The three interchangeable view shapes.
#[derive(Clone, Copy, Debug, PartialEq, Eq, Structural, Hash)]
pub enum ViewShape {
    /// Every cell within Chebyshev distance 1.
    Square,
    /// Every cell within Manhattan distance 1.
    Diamond,
    /// The entity's own cell and the three cells of the row in front of it
    /// (towards smaller `y`).
    Triangle,
}

pub open spec fn abs(v: int) -> int {
    if v < 0 { -v } else { v }
}

pub open spec fn chebyshev(off: (i32, i32)) -> int {
    if abs(off.0 as int) >= abs(off.1 as int) { abs(off.0 as int) } else { abs(off.1 as int) }
}

pub open spec fn manhattan(off: (i32, i32)) -> int {
    abs(off.0 as int) + abs(off.1 as int)
}

/// Whether an offset belongs to a shape.
pub open spec fn in_shape(shape: ViewShape, off: (i32, i32)) -> bool {
    match shape {
        ViewShape::Square => chebyshev(off) <= 1,
        ViewShape::Diamond => manhattan(off) <= 1,
        ViewShape::Triangle => off == (0i32, 0i32) || (off.1 == -1 && -1 <= off.0 <= 1),
    }
}

/// The offsets of the square, row by row.
pub open spec fn square_offsets() -> Seq<(i32, i32)> {
    seq![
        (-1i32, -1i32), (0i32, -1i32), (1i32, -1i32),
        (-1i32, 0i32), (0i32, 0i32), (1i32, 0i32),
        (-1i32, 1i32), (0i32, 1i32), (1i32, 1i32),
    ]
}

/// The offsets of the diamond, row by row.
pub open spec fn diamond_offsets() -> Seq<(i32, i32)> {
    seq![(0i32, -1i32), (-1i32, 0i32), (0i32, 0i32), (1i32, 0i32), (0i32, 1i32)]
}

/// The offsets of the triangle, row by row.
pub open spec fn triangle_offsets() -> Seq<(i32, i32)> {
    seq![(-1i32, -1i32), (0i32, -1i32), (1i32, -1i32), (0i32, 0i32)]
}

/// The ordered offset list that stands for a shape.
pub open spec fn shape_offsets(shape: ViewShape) -> Seq<(i32, i32)> {
    match shape {
        ViewShape::Square => square_offsets(),
        ViewShape::Diamond => diamond_offsets(),
        ViewShape::Triangle => triangle_offsets(),
    }
}

/// The offset list of a shape, as a fresh vector.
pub fn offsets_of(shape: ViewShape) -> (v: Vec<(i32, i32)>)
    ensures
        v@ == shape_offsets(shape),
{
    let v: Vec<(i32, i32)> = match shape {
        ViewShape::Square => vec![
            (-1i32, -1i32), (0i32, -1i32), (1i32, -1i32),
            (-1i32, 0i32), (0i32, 0i32), (1i32, 0i32),
            (-1i32, 1i32), (0i32, 1i32), (1i32, 1i32),
        ],
        ViewShape::Diamond => vec![
            (0i32, -1i32), (-1i32, 0i32), (0i32, 0i32), (1i32, 0i32), (0i32, 1i32),
        ],
        ViewShape::Triangle => vec![(-1i32, -1i32), (0i32, -1i32), (1i32, -1i32), (0i32, 0i32)],
    };
    assert(v@ =~= shape_offsets(shape));
    v
}

/// A shape's offset list holds exactly the offsets of the shape, each once.
pub proof fn lemma_shape_offsets_exact(shape: ViewShape)
    ensures
        forall|off: (i32, i32)|
            shape_offsets(shape).contains(off) <==> in_shape(shape, off),
        shape_offsets(shape).no_duplicates(),
{
    let s = shape_offsets(shape);
    assert forall|off: (i32, i32)| in_shape(shape, off) implies s.contains(off) by {
        match shape {
            ViewShape::Square => {
                let i = (off.1 + 1) * 3 + (off.0 + 1);
                assert(0 <= i < 9);
                assert(s[i] == off);
            },
            ViewShape::Diamond => {
                let i = if off.1 == -1 { 0int } else if off.1 == 1 { 4int } else { off.0 + 2 };
                assert(s[i] == off);
            },
            ViewShape::Triangle => {
                let i = if off.1 == -1 { off.0 + 1 } else { 3int };
                assert(s[i] == off);
            },
        }
    }
    assert forall|off: (i32, i32)| s.contains(off) implies in_shape(shape, off) by {
        let i = choose|i: int| 0 <= i < s.len() && s[i] == off;
        assert(s[i] == off);
    }
}

/// No shape's offset list is empty, and each holds the origin: an entity
/// always sees the cell it stands on.
pub proof fn lemma_shape_offsets_hold_origin(shape: ViewShape)
    ensures
        shape_offsets(shape).len() > 0,
        shape_offsets(shape).contains((0i32, 0i32)),
{
    lemma_shape_offsets_exact(shape);
}

} // verus!
