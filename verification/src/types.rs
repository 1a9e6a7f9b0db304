//! Plain value types shared by every module.
use vstd::prelude::*;
use vstd::string::*;

verus! {

/// A grid cell: discrete tile coordinates, the authoritative position of an
/// entity for movement and selection.
#[derive(Clone, Copy, Debug, PartialEq, Eq, Structural, Hash)]
pub struct Cell {
    pub x: u32,
    pub y: u32,
}

/// A point of world space, in whole pixels of window coordinates.
#[derive(Clone, Copy, Debug, PartialEq, Eq, Structural, Hash)]
pub struct Point {
    pub x: i64,
    pub y: i64,
}

/// An axis-aligned rectangle of world space, in whole pixels.
#[derive(Clone, Copy, Debug, PartialEq, Eq, Structural, Hash)]
pub struct Rect {
    pub x: i64,
    pub y: i64,
    pub w: i64,
    pub h: i64,
}

/// A displacement on the grid, in whole cells for each axis.
#[derive(Clone, Copy, Debug, PartialEq, Eq, Structural, Hash)]
pub struct Vector {
    pub x: i32,
    pub y: i32,
}

impl Vector {
    pub fn new(x: i32, y: i32) -> (v: Vector)
        ensures
            v.x == x,
            v.y == y,
    {
        Vector { x, y }
    }
}

/// What can go wrong. Only a configuration can be wrong in a way that stops
/// a scene from starting; everything else degrades silently.
#[derive(Clone, Copy, Debug, PartialEq, Eq, Structural, Hash)]
pub enum Error {
    /// A component was given to an entity that does not live.
    DeadEntity,
    /// Two systems were declared under one name.
    DuplicateSystem,
    /// A system was declared to run after a system that was not declared.
    UnknownDependency,
    /// The declared dependencies form a cycle.
    DependencyCycle,
    /// A system declares a resource that the world does not hold.
    MissingResource,
}

impl Error {
    /// The text of an error.
    pub open spec fn text(self) -> Seq<char> {
        match self {
            Error::DeadEntity => "the entity does not live"@,
            Error::DuplicateSystem => "two systems share a name"@,
            Error::UnknownDependency => "a system depends on a system that was not declared"@,
            Error::DependencyCycle => "the dependencies of the systems form a cycle"@,
            Error::MissingResource => "a system declares a resource that is missing"@,
        }
    }

    /// The text of an error, for whoever reports it.
    pub fn message(&self) -> (text: String)
        ensures
            text@ == self.text(),
    {
        match self {
            Error::DeadEntity => String::from_str("the entity does not live"),
            Error::DuplicateSystem => String::from_str("two systems share a name"),
            Error::UnknownDependency => String::from_str(
                "a system depends on a system that was not declared",
            ),
            Error::DependencyCycle => String::from_str(
                "the dependencies of the systems form a cycle",
            ),
            Error::MissingResource => String::from_str(
                "a system declares a resource that is missing",
            ),
        }
    }
}

impl Cell {
    pub fn new(x: u32, y: u32) -> (c: Cell)
        ensures
            c.x == x,
            c.y == y,
    {
        Cell { x, y }
    }
}

impl Point {
    pub fn new(x: i64, y: i64) -> (p: Point)
        ensures
            p.x == x,
            p.y == y,
    {
        Point { x, y }
    }
}

} // verus!
