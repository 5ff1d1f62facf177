use vstd::prelude::*;
use crate::primitives::{Point, Section};

verus! {

/// The kind of a drawn straight wall.
pub const WALL_SEGMENT: i32 = 0;

/// The kind of a drawn rectangle, given by two opposite corners.
pub const RECTANGLE: i32 = 1;

/// The kind of a drawn exit.
pub const EXIT: i32 = 4;

/// A drawn shape: its kind and its two defining points.
#[derive(Clone, Debug)]
pub struct DrawingObject {
    pub id: String,
    pub object_type: i32,
    pub points: [Point; 2],
}

/// A wall segment.
#[derive(Clone, Copy, Debug, PartialEq, Eq, Structural)]
pub struct Wall {
    pub start: Point,
    pub end: Point,
}

/// The walls that one object stands for: a wall segment is itself, a
/// rectangle is its four edges in the order top, right, bottom, left, each
/// starting where the one before ended, and any other kind is nothing.
pub open spec fn walls_of(object: DrawingObject) -> Seq<Wall> {
    let p = object.points[0];
    let q = object.points[1];
    if object.object_type == WALL_SEGMENT {
        seq![(Wall { start: p, end: q })]
    } else if object.object_type == RECTANGLE {
        seq![
            (Wall { start: p, end: Point { x: q.x, y: p.y } }),
            (Wall { start: Point { x: q.x, y: p.y }, end: q }),
            (Wall { start: q, end: Point { x: p.x, y: q.y } }),
            (Wall { start: Point { x: p.x, y: q.y }, end: p }),
        ]
    } else {
        Seq::empty()
    }
}

/// The walls of all `objects`, in the objects' order.
pub open spec fn all_walls(objects: Seq<DrawingObject>) -> Seq<Wall>
    decreases objects.len(),
{
    if objects.len() == 0 {
        Seq::empty()
    } else {
        all_walls(objects.drop_last()) + walls_of(objects.last())
    }
}

/// A rectangle stands for four walls that trace its outline once: each wall
/// starts where the one before ended, and the last ends where the first
/// started.
pub proof fn lemma_rectangle_walls_closed(object: DrawingObject)
    requires
        object.object_type == RECTANGLE,
    ensures
        walls_of(object).len() == 4,
        walls_of(object)[0].start == object.points[0],
        walls_of(object)[2].start == object.points[1],
        walls_of(object)[0].end == walls_of(object)[1].start,
        walls_of(object)[1].end == walls_of(object)[2].start,
        walls_of(object)[2].end == walls_of(object)[3].start,
        walls_of(object)[3].end == walls_of(object)[0].start,
{
}

impl Wall {
    pub fn to_line(&self) -> (s: Section)
        ensures
            s.start == self.start,
            s.end == self.end,
    {
        Section { start: self.start, end: self.end }
    }

    pub fn from_object(object: &DrawingObject) -> (walls: Vec<Wall>)
        ensures
            walls@ == walls_of(*object),
    {
        let mut walls: Vec<Wall> = Vec::new();
        let p: Point = object.points[0];
        let q: Point = object.points[1];
        if object.object_type == WALL_SEGMENT {
            walls.push(Wall { start: p, end: q });
        } else if object.object_type == RECTANGLE {
            walls.push(Wall { start: p, end: Point::new(q.x, p.y) });
            walls.push(Wall { start: Point::new(q.x, p.y), end: q });
            walls.push(Wall { start: q, end: Point::new(p.x, q.y) });
            walls.push(Wall { start: Point::new(p.x, q.y), end: p });
        }
        assert(walls@ =~= walls_of(*object));
        walls
    }
}

/// The wall segments of a whole drawing.
pub fn walls(objects: &Vec<DrawingObject>) -> (all: Vec<Wall>)
    ensures
        all@ == all_walls(objects@),
{
    let mut all: Vec<Wall> = Vec::new();
    let mut i: usize = 0;
    while i < objects.len()
        invariant
            i <= objects.len(),
            all@ == all_walls(objects@.take(i as int)),
        decreases objects.len() - i,
    {
        let found: Vec<Wall> = Wall::from_object(&objects[i]);
        let ghost before = all@;
        let mut j: usize = 0;
        while j < found.len()
            invariant
                j <= found.len(),
                all@ == before + found@.take(j as int),
            decreases found.len() - j,
        {
            all.push(found[j]);
            j = j + 1;
            assert(all@ =~= before + found@.take(j as int));
        }
        assert(found@.take(found.len() as int) =~= found@);
        assert(objects@.take(i + 1).drop_last() =~= objects@.take(i as int));
        i = i + 1;
    }
    assert(objects@.take(objects.len() as int) =~= objects@);
    all
}

} // verus!
