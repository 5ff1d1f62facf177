use vstd::prelude::*;

verus! {

/// A point of the drawing plane, in whole drawing units.
#[derive(Clone, Copy, Debug, PartialEq, Eq, Structural)]
pub struct Point {
    pub x: i64,
    pub y: i64,
}

/// A cell position on the occupancy grid.
#[derive(Clone, Copy, Debug, PartialEq, Eq, Structural)]
pub struct Point32 {
    pub x: i32,
    pub y: i32,
}

/// A line segment, ordered from `start` to `end`.
#[derive(Clone, Copy, Debug, PartialEq, Eq, Structural)]
pub struct Section {
    pub start: Point,
    pub end: Point,
}

/// The value of `v` brought into the range of `i32`: values below the range
/// become its minimum, values above it its maximum.
pub open spec fn clamp_to_i32(v: int) -> int {
    if v < i32::MIN {
        i32::MIN as int
    } else if v > i32::MAX {
        i32::MAX as int
    } else {
        v
    }
}

fn clamp_coordinate(v: i64) -> (r: i32)
    ensures
        r == clamp_to_i32(v as int),
{
    if v < -2147483648i64 {
        -2147483648i32
    } else if v > 2147483647i64 {
        2147483647i32
    } else {
        v as i32
    }
}

impl Section {
    pub fn new(point1: Point, point2: Point) -> (s: Section)
        ensures
            s.start == point1,
            s.end == point2,
    {
        Section { start: point1, end: point2 }
    }
}

impl Point {
    pub fn new(x: i64, y: i64) -> (p: Point)
        ensures
            p.x == x,
            p.y == y,
    {
        Point { x, y }
    }

    /// The grid cell of this point; a coordinate outside the grid's number
    /// range lands on the nearest representable cell.
    pub fn to_i32(&self) -> (p: Point32)
        ensures
            p.x == clamp_to_i32(self.x as int),
            p.y == clamp_to_i32(self.y as int),
    {
        Point32 { x: clamp_coordinate(self.x), y: clamp_coordinate(self.y) }
    }
}

impl Point32 {
    pub fn new(x: i32, y: i32) -> (p: Point32)
        ensures
            p.x == x,
            p.y == y,
    {
        Point32 { x, y }
    }
}

} // verus!
