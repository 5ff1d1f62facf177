use vstd::prelude::*;
use crate::primitives::{Point, Section};
use crate::vector::{Vector, lemma_product_bound};

verus! {

/// The largest size of a coordinate for which the distance computations of
/// this module stay within machine integers.
pub const PLANE_LIMIT: i64 = 524_288;

/// How far a probe segment reaches along an offset vector.
pub const PROBE_REACH: i64 = 999;

/// The offset between a point and a line as a fraction: the vector
/// `(x / scale, y / scale)`, with a positive `scale`.
#[derive(Clone, Copy, Debug, PartialEq, Eq, Structural)]
pub struct Offset {
    pub x: i64,
    pub y: i64,
    pub scale: i64,
}

/// Whether both coordinates of `p` are at most `limit` in size.
pub open spec fn point_within(p: Point, limit: int) -> bool {
    -limit <= p.x <= limit && -limit <= p.y <= limit
}

/// Whether both ends of `s` are at most `limit` in size.
pub open spec fn section_within(s: Section, limit: int) -> bool {
    point_within(s.start, limit) && point_within(s.end, limit)
}

/// The coordinates of `p` as mathematical integers.
pub open spec fn at(p: Point) -> (int, int) {
    (p.x as int, p.y as int)
}

/// On which side of the line from `a` to `b` the point `p` lies: the cross
/// product of `b - a` and `p - a`. Zero means that `p` is on the line.
pub open spec fn side(a: (int, int), b: (int, int), p: (int, int)) -> int {
    (b.0 - a.0) * (p.1 - a.1) - (b.1 - a.1) * (p.0 - a.0)
}

/// The orientation test for two segments: the ends of each lie on opposite
/// sides of the other's line, or on it.
pub open spec fn segments_cross(
    a1: (int, int),
    b1: (int, int),
    a2: (int, int),
    b2: (int, int),
) -> bool {
    side(a2, b2, a1) * side(a2, b2, b1) <= 0 && side(a1, b1, a2) * side(a1, b1, b2) <= 0
}

/// The squared length of `line`.
pub open spec fn squared_length(line: Section) -> int {
    let dx = line.end.x - line.start.x;
    let dy = line.end.y - line.start.y;
    dx * dx + dy * dy
}

/// The number by which the offset to `line` is divided: the squared length
/// of the line, or 1 for a line whose ends coincide.
pub open spec fn offset_scale(line: Section) -> int {
    if line.start == line.end {
        1
    } else {
        squared_length(line)
    }
}

/// The offset between `point` and the line through `line`, multiplied by
/// `offset_scale(line)`. The offset itself leads from `point` to the nearest
/// point of the line: it is the vector from `point` to the line's start
/// without its part along the line. On whole coordinates it is a fraction,
/// and this is its numerator. For a line whose ends coincide the offset
/// leads from `point` to that end.
pub open spec fn offset_numerator(line: Section, point: Point) -> (int, int) {
    let dx = line.end.x - line.start.x;
    let dy = line.end.y - line.start.y;
    let ux = line.start.x - point.x;
    let uy = line.start.y - point.y;
    if dx == 0 && dy == 0 {
        (ux, uy)
    } else {
        let dd = dx * dx + dy * dy;
        let t = ux * dx + uy * dy;
        (ux * dd - dx * t, uy * dd - dy * t)
    }
}

/// Whether the offset between `point` and the line through `line` is zero.
pub open spec fn offset_is_zero(line: Section, point: Point) -> bool {
    offset_numerator(line, point) == (0int, 0int)
}

/// The far end of the probe segment that leaves `p` along the vector
/// `offset`, with the vertical axis pointing down.
pub open spec fn probe_end(p: Point, offset: (int, int)) -> (int, int) {
    (p.x + PROBE_REACH * offset.0, p.y - PROBE_REACH * offset.1)
}

/// Boundary membership of one point: its offset to the edge's line is zero,
/// and the probe segment from it along that offset, which then ends where
/// it starts, meets the edge under the orientation test.
pub open spec fn point_on_edge(edge: Section, p: Point) -> bool {
    offset_is_zero(edge, p) && segments_cross(
        at(p),
        probe_end(p, (0int, 0int)),
        at(edge.start),
        at(edge.end),
    )
}

/// Boundary membership of an exit: both of its ends pass the test against
/// the same edge.
pub open spec fn exit_on_edge(edge: Section, exit: Section) -> bool {
    point_on_edge(edge, exit.start) && point_on_edge(edge, exit.end)
}

/// The edges of the closed polygon `points`: each point joined to the next,
/// and the last back to the first.
pub open spec fn edges_of(points: Seq<Point>) -> Seq<Section> {
    Seq::new(
        points.len(),
        |i: int|
            (Section {
                start: points[i],
                end: if i + 1 == points.len() {
                    points[0]
                } else {
                    points[i + 1]
                },
            }),
    )
}

/// A product is at most zero exactly when its factors have opposite signs or
/// one of them is zero.
pub proof fn lemma_opposite_signs(a: int, b: int)
    ensures
        (a * b <= 0) == ((a <= 0 && b >= 0) || (a >= 0 && b <= 0)),
{
    assert((a * b <= 0) == ((a <= 0 && b >= 0) || (a >= 0 && b <= 0))) by (nonlinear_arith);
}

/// For a line of positive length the offset is the line's normal stretched by
/// the side value of the point: it is zero exactly for the points of the line.
pub proof fn lemma_offset_zero_iff_on_line(line: Section, point: Point)
    requires
        line.start != line.end,
    ensures
        offset_is_zero(line, point) == (side(at(line.start), at(line.end), at(point)) == 0),
{
    let dx = line.end.x - line.start.x;
    let dy = line.end.y - line.start.y;
    let ux = line.start.x - point.x;
    let uy = line.start.y - point.y;
    let s = side(at(line.start), at(line.end), at(point));
    let dd = dx * dx + dy * dy;
    let t = ux * dx + uy * dy;
    assert(s == dy * ux - dx * uy) by (nonlinear_arith)
        requires
            s == dx * (-uy) - dy * (-ux),
    ;
    assert(ux * dd - dx * t == dy * s) by (nonlinear_arith)
        requires
            dd == dx * dx + dy * dy,
            t == ux * dx + uy * dy,
            s == dy * ux - dx * uy,
    ;
    assert(uy * dd - dy * t == -(dx * s)) by (nonlinear_arith)
        requires
            dd == dx * dx + dy * dy,
            t == ux * dx + uy * dy,
            s == dy * ux - dx * uy,
    ;
    assert(dx != 0 || dy != 0);
    assert((dy * s == 0 && dx * s == 0) == (s == 0)) by (nonlinear_arith)
        requires
            dx != 0 || dy != 0,
    ;
}

/// The offset is at a right angle to the line and leads from the point to a
/// point of the line: with both sides multiplied by the scale, the point
/// moved by the offset has side value zero.
pub proof fn lemma_offset_leads_to_line(line: Section, point: Point)
    requires
        line.start != line.end,
    ensures
        offset_scale(line) > 0,
        offset_numerator(line, point).0 * (line.end.x - line.start.x) + offset_numerator(
            line,
            point,
        ).1 * (line.end.y - line.start.y) == 0,
        (line.end.x - line.start.x) * (offset_scale(line) * (point.y - line.start.y)
            + offset_numerator(line, point).1) - (line.end.y - line.start.y) * (offset_scale(line)
            * (point.x - line.start.x) + offset_numerator(line, point).0) == 0,
{
    let dx = line.end.x - line.start.x;
    let dy = line.end.y - line.start.y;
    let ux = line.start.x - point.x;
    let uy = line.start.y - point.y;
    let dd = dx * dx + dy * dy;
    let t = ux * dx + uy * dy;
    let nx = ux * dd - dx * t;
    let ny = uy * dd - dy * t;
    assert(dx != 0 || dy != 0);
    assert(dd > 0) by (nonlinear_arith)
        requires
            dd == dx * dx + dy * dy,
            dx != 0 || dy != 0,
    ;
    assert(nx * dx + ny * dy == 0) by (nonlinear_arith)
        requires
            dd == dx * dx + dy * dy,
            t == ux * dx + uy * dy,
            nx == ux * dd - dx * t,
            ny == uy * dd - dy * t,
    ;
    assert(dx * (dd * (-uy) + ny) - dy * (dd * (-ux) + nx) == 0) by (nonlinear_arith)
        requires
            dd == dx * dx + dy * dy,
            t == ux * dx + uy * dy,
            nx == ux * dd - dx * t,
            ny == uy * dd - dy * t,
    ;
    assert(point.y - line.start.y == -uy);
    assert(point.x - line.start.x == -ux);
}

/// On a line of positive length the boundary test of a point holds exactly
/// for the points of the line: a point off the line fails it, however near.
pub proof fn lemma_point_on_edge_iff_on_line(edge: Section, p: Point)
    requires
        edge.start != edge.end,
    ensures
        point_on_edge(edge, p) == (side(at(edge.start), at(edge.end), at(p)) == 0),
{
    lemma_offset_zero_iff_on_line(edge, p);
    let s = side(at(edge.start), at(edge.end), at(p));
    if s == 0 {
        assert(probe_end(p, (0int, 0int)) == at(p));
        assert(side(at(p), at(p), at(edge.start)) == 0) by (nonlinear_arith);
        assert(side(at(p), at(p), at(edge.end)) == 0) by (nonlinear_arith);
        assert(s * s == 0) by (nonlinear_arith)
            requires
                s == 0,
        ;
        assert(side(at(p), at(p), at(edge.start)) * side(at(p), at(p), at(edge.end)) == 0);
    }
}

/// On an edge whose ends coincide the boundary test holds for that one
/// point.
pub proof fn lemma_point_on_edge_without_length(edge: Section)
    requires
        edge.start == edge.end,
    ensures
        point_on_edge(edge, edge.start),
{
    let p = at(edge.start);
    assert(probe_end(edge.start, (0int, 0int)) == p);
    assert(side(p, p, p) == 0) by (nonlinear_arith);
    assert(side(p, p, p) * side(p, p, p) == 0) by (nonlinear_arith)
        requires
            side(p, p, p) == 0,
    ;
}

/// An exit is attached to an edge of positive length exactly when both of
/// its ends are points of the edge's line: an exit that lies on the edge is
/// attached, and one that runs beside it at a distance is not.
pub proof fn lemma_exit_on_edge_iff_on_line(edge: Section, exit: Section)
    requires
        edge.start != edge.end,
    ensures
        exit_on_edge(edge, exit) == (side(at(edge.start), at(edge.end), at(exit.start)) == 0
            && side(at(edge.start), at(edge.end), at(exit.end)) == 0),
{
    lemma_point_on_edge_iff_on_line(edge, exit.start);
    lemma_point_on_edge_iff_on_line(edge, exit.end);
}

pub fn is_in_plane(p: &Point) -> (b: bool)
    ensures
        b == point_within(*p, PLANE_LIMIT as int),
{
    -PLANE_LIMIT <= p.x && p.x <= PLANE_LIMIT && -PLANE_LIMIT <= p.y && p.y <= PLANE_LIMIT
}

pub fn polygon_to_sections(points: &Vec<Point>) -> (sections: Vec<Section>)
    ensures
        sections@ == edges_of(points@),
{
    let n: usize = points.len();
    let mut sections: Vec<Section> = Vec::with_capacity(n);
    let mut i: usize = 0;
    while i < n
        invariant
            n == points.len(),
            i <= n,
            sections@ == edges_of(points@).take(i as int),
        decreases n - i,
    {
        let next: usize = if i + 1 == n { 0 } else { i + 1 };
        sections.push(Section { start: points[i], end: points[next] });
        i = i + 1;
        assert(sections@ =~= edges_of(points@).take(i as int));
    }
    assert(edges_of(points@).take(n as int) =~= edges_of(points@));
    sections
}

/// The sign of `v`: -1, 0 or 1.
pub open spec fn sign_of(v: int) -> int {
    if v < 0 {
        -1
    } else if v == 0 {
        0
    } else {
        1
    }
}

/// The product of two differences of coordinates, as its size and whether it
/// is below zero. The size may exceed every signed machine integer.
fn sized_product(a: i128, b: i128) -> (r: (bool, u128))
    requires
        -0xFFFF_FFFF_FFFF_FFFF <= a <= 0xFFFF_FFFF_FFFF_FFFF,
        -0xFFFF_FFFF_FFFF_FFFF <= b <= 0xFFFF_FFFF_FFFF_FFFF,
    ensures
        r.0 ==> a * b == -(r.1 as int) && r.1 > 0,
        !r.0 ==> a * b == r.1 as int,
{
    let m: u128 = if a < 0 {
        (-a) as u128
    } else {
        a as u128
    };
    let n: u128 = if b < 0 {
        (-b) as u128
    } else {
        b as u128
    };
    proof {
        lemma_product_bound(m as int, n as int, 0xFFFF_FFFF_FFFF_FFFF, 0xFFFF_FFFF_FFFF_FFFF);
        assert(0xFFFF_FFFF_FFFF_FFFFint * 0xFFFF_FFFF_FFFF_FFFFint
            == 0xFFFF_FFFF_FFFF_FFFE_0000_0000_0000_0001int) by (nonlinear_arith);
        assert(0 <= m * n) by (nonlinear_arith)
            requires
                0 <= m,
                0 <= n,
        ;
        assert(a * b == m * n || a * b == -(m * n)) by (nonlinear_arith)
            requires
                a == m || a == -m,
                b == n || b == -n,
        ;
        assert(((a < 0) != (b < 0)) ==> a * b <= 0) by (nonlinear_arith);
        assert(((a < 0) == (b < 0)) ==> a * b >= 0) by (nonlinear_arith);
    }
    let size: u128 = m * n;
    ((a < 0) != (b < 0) && size != 0, size)
}

fn side_sign(a: &Point, b: &Point, p: &Point) -> (r: i8)
    ensures
        r == sign_of(side(at(*a), at(*b), at(*p))),
{
    let bx: i128 = b.x as i128 - a.x as i128;
    let by: i128 = b.y as i128 - a.y as i128;
    let px: i128 = p.x as i128 - a.x as i128;
    let py: i128 = p.y as i128 - a.y as i128;
    let first: (bool, u128) = sized_product(bx, py);
    let second: (bool, u128) = sized_product(by, px);
    if first.0 == second.0 {
        if first.1 == second.1 {
            0
        } else if (first.1 > second.1) != first.0 {
            1
        } else {
            -1
        }
    } else if first.0 {
        -1
    } else {
        1
    }
}

/// The orientation test on two segments.
pub fn is_lines_intersects(line1: Section, line2: Section) -> (b: bool)
    ensures
        b == segments_cross(at(line1.start), at(line1.end), at(line2.start), at(line2.end)),
{
    let s1: i8 = side_sign(&line2.start, &line2.end, &line1.start);
    let s2: i8 = side_sign(&line2.start, &line2.end, &line1.end);
    let s3: i8 = side_sign(&line1.start, &line1.end, &line2.start);
    let s4: i8 = side_sign(&line1.start, &line1.end, &line2.end);
    proof {
        lemma_opposite_signs(
            side(at(line2.start), at(line2.end), at(line1.start)),
            side(at(line2.start), at(line2.end), at(line1.end)),
        );
        lemma_opposite_signs(
            side(at(line1.start), at(line1.end), at(line2.start)),
            side(at(line1.start), at(line1.end), at(line2.end)),
        );
    }
    ((s1 <= 0 && s2 >= 0) || (s1 >= 0 && s2 <= 0)) && ((s3 <= 0 && s4 >= 0) || (s3 >= 0 && s4
        <= 0))
}

/// The offset that leads from `point` to the line through `line`, as a
/// fraction over the squared length of the line.
pub fn get_vector_to_line(line: Section, point: Point) -> (o: Offset)
    requires
        section_within(line, PLANE_LIMIT as int),
        point_within(point, PLANE_LIMIT as int),
    ensures
        o.scale > 0,
        o.scale == offset_scale(line),
        (o.x as int, o.y as int) == offset_numerator(line, point),
{
    let dx: i128 = line.end.x as i128 - line.start.x as i128;
    let dy: i128 = line.end.y as i128 - line.start.y as i128;
    let ux: i128 = line.start.x as i128 - point.x as i128;
    let uy: i128 = line.start.y as i128 - point.y as i128;
    if dx == 0 && dy == 0 {
        return Offset { x: ux as i64, y: uy as i64, scale: 1 };
    }
    proof {
        lemma_product_bound(dx as int, dx as int, 0x10_0000, 0x10_0000);
        lemma_product_bound(dy as int, dy as int, 0x10_0000, 0x10_0000);
        lemma_product_bound(ux as int, dx as int, 0x10_0000, 0x10_0000);
        lemma_product_bound(uy as int, dy as int, 0x10_0000, 0x10_0000);
        lemma_offset_leads_to_line(line, point);
    }
    let dd: i128 = dx * dx + dy * dy;
    let t: i128 = ux * dx + uy * dy;
    proof {
        lemma_product_bound(ux as int, dd as int, 0x10_0000, 0x200_0000_0000);
        lemma_product_bound(uy as int, dd as int, 0x10_0000, 0x200_0000_0000);
        lemma_product_bound(dx as int, t as int, 0x10_0000, 0x200_0000_0000);
        lemma_product_bound(dy as int, t as int, 0x10_0000, 0x200_0000_0000);
    }
    let ox: i128 = ux * dd - dx * t;
    let oy: i128 = uy * dd - dy * t;
    Offset { x: ox as i64, y: oy as i64, scale: dd as i64 }
}

/// The boundary-membership test of one exit end against one edge: first
/// whether the offset between the point and the edge's line is zero, then
/// whether the probe segment along that offset meets the edge.
pub fn is_point_on_edge(edge: Section, p: Point) -> (b: bool)
    ensures
        b == point_on_edge(edge, p),
{
    let without_offset: bool = if edge.start == edge.end {
        p == edge.start
    } else {
        side_sign(&edge.start, &edge.end, &p) == 0
    };
    proof {
        if edge.start != edge.end {
            lemma_offset_zero_iff_on_line(edge, p);
        }
    }
    if !without_offset {
        return false;
    }
    let probe: Section = Vector::origin().product(PROBE_REACH).to_line(p);
    is_lines_intersects(probe, edge)
}

/// The boundary-membership test of an exit against one edge.
pub fn is_exit_on_edge(edge: Section, exit: Section) -> (b: bool)
    ensures
        b == exit_on_edge(edge, exit),
{
    is_point_on_edge(edge, exit.start) && is_point_on_edge(edge, exit.end)
}

} // verus!
