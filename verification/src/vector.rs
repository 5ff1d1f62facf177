use vstd::prelude::*;
use crate::primitives::{Point, Section};

verus! {

/// A displacement on the drawing plane.
#[derive(Clone, Copy, Debug, PartialEq, Eq, Structural)]
pub struct Vector {
    pub x: i64,
    pub y: i64,
}

/// Whether `v` is a value of `i64`.
pub open spec fn fits_i64(v: int) -> bool {
    i64::MIN <= v <= i64::MAX
}

/// The dot product of `(ax, ay)` and `(bx, by)`.
pub open spec fn dot_of(ax: int, ay: int, bx: int, by: int) -> int {
    ax * bx + ay * by
}

/// The cross product (signed parallelogram area) of `(ax, ay)` and `(bx, by)`.
pub open spec fn cross_of(ax: int, ay: int, bx: int, by: int) -> int {
    ax * by - ay * bx
}

/// The product of a number of at most `m` in size and one of at most `n` is
/// at most `m * n` in size.
pub proof fn lemma_product_bound(a: int, b: int, m: int, n: int)
    requires
        -m <= a <= m,
        -n <= b <= n,
    ensures
        -(m * n) <= a * b <= m * n,
{
    assert(-(m * n) <= a * b <= m * n) by (nonlinear_arith)
        requires
            -m <= a <= m,
            -n <= b <= n,
    ;
}

fn wide_product(a: i64, b: i64) -> (r: i128)
    ensures
        r == a * b,
        -0x4000_0000_0000_0000_0000_0000_0000_0000 <= r <= 0x4000_0000_0000_0000_0000_0000_0000_0000,
{
    proof {
        lemma_product_bound(a as int, b as int, 0x8000_0000_0000_0000, 0x8000_0000_0000_0000);
        assert(0x8000_0000_0000_0000int * 0x8000_0000_0000_0000int
            == 0x4000_0000_0000_0000_0000_0000_0000_0000int) by (nonlinear_arith);
    }
    (a as i128) * (b as i128)
}

impl Vector {
    pub fn origin() -> (v: Vector)
        ensures
            v.x == 0,
            v.y == 0,
    {
        Vector { x: 0, y: 0 }
    }

    /// The position vector of `point`.
    pub fn new(point: Point) -> (v: Vector)
        ensures
            v.x == point.x,
            v.y == point.y,
    {
        Vector { x: point.x, y: point.y }
    }

    /// The displacement that leads from `start` to `end`.
    pub fn from_points(start: &Point, end: &Point) -> (v: Vector)
        requires
            fits_i64(end.x - start.x),
            fits_i64(end.y - start.y),
        ensures
            v.x == end.x - start.x,
            v.y == end.y - start.y,
    {
        Vector { x: end.x - start.x, y: end.y - start.y }
    }

    /// The segment that starts at `from` and runs along this vector, with the
    /// vertical axis pointing down: the end lies at `from.y - self.y`.
    pub fn to_line(&self, from: Point) -> (s: Section)
        requires
            fits_i64(from.x + self.x),
            fits_i64(from.y - self.y),
        ensures
            s.start == from,
            s.end.x == from.x + self.x,
            s.end.y == from.y - self.y,
    {
        Section { start: from, end: Point { x: from.x + self.x, y: from.y - self.y } }
    }

    pub fn add(&self, vector: &Vector) -> (v: Vector)
        requires
            fits_i64(self.x + vector.x),
            fits_i64(self.y + vector.y),
        ensures
            v.x == self.x + vector.x,
            v.y == self.y + vector.y,
    {
        Vector { x: self.x + vector.x, y: self.y + vector.y }
    }

    pub fn subtract(&self, vector: &Vector) -> (v: Vector)
        requires
            fits_i64(self.x - vector.x),
            fits_i64(self.y - vector.y),
        ensures
            v.x == self.x - vector.x,
            v.y == self.y - vector.y,
    {
        Vector { x: self.x - vector.x, y: self.y - vector.y }
    }

    /// This vector stretched by the whole factor `n`.
    pub fn product(&self, n: i64) -> (v: Vector)
        requires
            fits_i64(self.x * n),
            fits_i64(self.y * n),
        ensures
            v.x == self.x * n,
            v.y == self.y * n,
    {
        let x: i128 = wide_product(self.x, n);
        let y: i128 = wide_product(self.y, n);
        Vector { x: x as i64, y: y as i64 }
    }

    pub fn dot(&self, vector: &Vector) -> (d: i128)
        requires
            dot_of(self.x as int, self.y as int, vector.x as int, vector.y as int) <= i128::MAX,
        ensures
            d == dot_of(self.x as int, self.y as int, vector.x as int, vector.y as int),
    {
        let a: i128 = wide_product(self.x, vector.x);
        let b: i128 = wide_product(self.y, vector.y);
        a + b
    }

    /// Whether the two vectors span no area: their cross product is zero.
    pub fn is_collinear_with(&self, vector: &Vector) -> (b: bool)
        ensures
            b == (cross_of(self.x as int, self.y as int, vector.x as int, vector.y as int) == 0),
    {
        let a: i128 = wide_product(self.x, vector.y);
        let b: i128 = wide_product(self.y, vector.x);
        a == b
    }

    pub fn is_equal_to(&self, vector: &Vector) -> (b: bool)
        ensures
            b == (self.x == vector.x && self.y == vector.y),
    {
        self.x == vector.x && self.y == vector.y
    }

    /// This vector turned by a quarter: `(-y, x)`.
    pub fn perpendicular(&self) -> (v: Vector)
        requires
            self.y > i64::MIN,
        ensures
            v.x == -self.y,
            v.y == self.x,
    {
        Vector { x: -self.y, y: self.x }
    }
}

} // verus!
