use vstd::prelude::*;
use crate::primitives::{Point, Point32, clamp_to_i32};
use crate::wall::{DrawingObject, EXIT, RECTANGLE, WALL_SEGMENT};

verus! {

/// One order to the drawing primitive of the occupancy grid.
#[derive(Clone, Copy, Debug, PartialEq, Eq, Structural)]
pub enum DrawCommand {
    /// A straight line between two cells.
    Line { from: Point32, to: Point32 },
    /// The outline of an axis-parallel rectangle, not filled.
    Outline { x: i32, y: i32, width: i32, height: i32 },
}

/// Why no grid can be made.
#[derive(Clone, Copy, Debug, PartialEq, Eq, Structural)]
pub enum RasterError {
    /// The width or the height of the grid is not positive.
    InvalidDimensions,
}

/// The grid cell of `p`.
pub open spec fn cell_of(p: Point) -> Point32 {
    Point32 { x: clamp_to_i32(p.x as int) as i32, y: clamp_to_i32(p.y as int) as i32 }
}

/// The smaller of two numbers.
pub open spec fn smaller(a: int, b: int) -> int {
    if a <= b {
        a
    } else {
        b
    }
}

/// The distance between two numbers.
pub open spec fn distance(a: int, b: int) -> int {
    if a <= b {
        b - a
    } else {
        a - b
    }
}

/// Whether objects of this kind leave a mark on the grid.
pub open spec fn is_drawn(object_type: i32) -> bool {
    object_type == WALL_SEGMENT || object_type == RECTANGLE || object_type == EXIT
}

/// What one object draws: walls and exits a line between the cells of their
/// two points, a rectangle its outline from the corner with the smaller
/// coordinates, and any other kind nothing. An extent too large for the
/// grid's numbers is cut to the largest one.
pub open spec fn command_of(object: DrawingObject) -> Option<DrawCommand> {
    let p = cell_of(object.points[0]);
    let q = cell_of(object.points[1]);
    if object.object_type == WALL_SEGMENT || object.object_type == EXIT {
        Some(DrawCommand::Line { from: p, to: q })
    } else if object.object_type == RECTANGLE {
        Some(
            DrawCommand::Outline {
                x: smaller(p.x as int, q.x as int) as i32,
                y: smaller(p.y as int, q.y as int) as i32,
                width: clamp_to_i32(distance(p.x as int, q.x as int)) as i32,
                height: clamp_to_i32(distance(p.y as int, q.y as int)) as i32,
            },
        )
    } else {
        None
    }
}

/// What all `objects` draw, in the objects' order.
pub open spec fn commands_of(objects: Seq<DrawingObject>) -> Seq<DrawCommand>
    decreases objects.len(),
{
    if objects.len() == 0 {
        Seq::empty()
    } else {
        match command_of(objects.last()) {
            Some(c) => commands_of(objects.drop_last()).push(c),
            None => commands_of(objects.drop_last()),
        }
    }
}

/// A drawing without walls, rectangles and exits leaves the grid empty.
pub proof fn lemma_nothing_drawn(objects: Seq<DrawingObject>)
    requires
        forall|i: int| 0 <= i < objects.len() ==> !is_drawn(#[trigger] objects[i].object_type),
    ensures
        commands_of(objects).len() == 0,
    decreases objects.len(),
{
    if objects.len() > 0 {
        let rest = objects.drop_last();
        assert forall|i: int| 0 <= i < rest.len() implies !is_drawn(
            #[trigger] rest[i].object_type,
        ) by {
            assert(rest[i] == objects[i]);
        }
        lemma_nothing_drawn(rest);
        assert(!is_drawn(objects[objects.len() - 1].object_type));
    }
}

fn extent(a: i32, b: i32) -> (r: i32)
    ensures
        r == clamp_to_i32(distance(a as int, b as int)),
{
    let d: i64 = if a <= b {
        b as i64 - a as i64
    } else {
        a as i64 - b as i64
    };
    if d > 2147483647i64 {
        2147483647i32
    } else {
        d as i32
    }
}

/// The drawing order for one object, if it draws anything.
pub fn draw_command(object: &DrawingObject) -> (c: Option<DrawCommand>)
    ensures
        c == command_of(*object),
{
    let p: Point32 = object.points[0].to_i32();
    let q: Point32 = object.points[1].to_i32();
    if object.object_type == WALL_SEGMENT || object.object_type == EXIT {
        Some(DrawCommand::Line { from: p, to: q })
    } else if object.object_type == RECTANGLE {
        let x: i32 = if p.x <= q.x {
            p.x
        } else {
            q.x
        };
        let y: i32 = if p.y <= q.y {
            p.y
        } else {
            q.y
        };
        Some(DrawCommand::Outline { x, y, width: extent(p.x, q.x), height: extent(p.y, q.y) })
    } else {
        None
    }
}

/// The drawing orders that turn `objects` into an occupancy grid of the given
/// size. A grid needs a positive width and height; the objects themselves
/// are not judged.
pub fn raster_commands(width: i32, height: i32, objects: &Vec<DrawingObject>) -> (r: Result<
    Vec<DrawCommand>,
    RasterError,
>)
    ensures
        (width <= 0 || height <= 0) <==> r == Err::<Vec<DrawCommand>, RasterError>(
            RasterError::InvalidDimensions,
        ),
        (width > 0 && height > 0) <==> r is Ok,
        r is Ok ==> r->Ok_0@ == commands_of(objects@),
{
    if width <= 0 || height <= 0 {
        return Err(RasterError::InvalidDimensions);
    }
    let mut commands: Vec<DrawCommand> = Vec::new();
    let mut i: usize = 0;
    while i < objects.len()
        invariant
            i <= objects.len(),
            commands@ == commands_of(objects@.take(i as int)),
        decreases objects.len() - i,
    {
        assert(objects@.take(i + 1).drop_last() =~= objects@.take(i as int));
        match draw_command(&objects[i]) {
            Some(c) => {
                commands.push(c);
            },
            None => {},
        }
        i = i + 1;
    }
    assert(objects@.take(objects.len() as int) =~= objects@);
    Ok(commands)
}

} // verus!
