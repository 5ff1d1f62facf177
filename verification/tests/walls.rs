use floorplan::primitives::{Point, Section};
use floorplan::wall::{walls, DrawingObject, Wall, EXIT, RECTANGLE, WALL_SEGMENT};

fn object(id: &str, object_type: i32, a: (i64, i64), b: (i64, i64)) -> DrawingObject {
    DrawingObject {
        id: String::from(id),
        object_type,
        points: [Point::new(a.0, a.1), Point::new(b.0, b.1)],
    }
}

fn wall(a: (i64, i64), b: (i64, i64)) -> Wall {
    Wall { start: Point::new(a.0, a.1), end: Point::new(b.0, b.1) }
}

#[test]
fn rectangle_gives_its_four_edges_in_order() {
    let found = Wall::from_object(&object("r", RECTANGLE, (0, 0), (10, 5)));
    assert_eq!(
        found,
        vec![
            wall((0, 0), (10, 0)),
            wall((10, 0), (10, 5)),
            wall((10, 5), (0, 5)),
            wall((0, 5), (0, 0)),
        ]
    );
}

#[test]
fn rectangle_edges_trace_the_perimeter_once() {
    let found = Wall::from_object(&object("r", RECTANGLE, (0, 0), (10, 5)));
    assert_eq!(found.len(), 4);
    for i in 0..4 {
        assert_eq!(found[i].end, found[(i + 1) % 4].start);
    }
    assert_eq!(found[0].start, Point::new(0, 0));
    assert_eq!(found[3].end, Point::new(0, 0));
}

#[test]
fn rectangle_from_other_corners() {
    let found = Wall::from_object(&object("r", RECTANGLE, (7, 9), (-2, 3)));
    assert_eq!(
        found,
        vec![
            wall((7, 9), (-2, 9)),
            wall((-2, 9), (-2, 3)),
            wall((-2, 3), (7, 3)),
            wall((7, 3), (7, 9)),
        ]
    );
}

#[test]
fn wall_segment_gives_itself() {
    let found = Wall::from_object(&object("w", WALL_SEGMENT, (0, 0), (10, 10)));
    assert_eq!(found, vec![wall((0, 0), (10, 10))]);
}

#[test]
fn exits_and_unknown_kinds_give_no_wall() {
    assert!(Wall::from_object(&object("e", EXIT, (0, 0), (10, 10))).is_empty());
    assert!(Wall::from_object(&object("x", 2, (0, 0), (10, 10))).is_empty());
    assert!(Wall::from_object(&object("x", 3, (0, 0), (10, 10))).is_empty());
    assert!(Wall::from_object(&object("x", -1, (0, 0), (10, 10))).is_empty());
}

#[test]
fn walls_of_a_drawing_keep_the_objects_order() {
    let drawing = vec![
        object("a", WALL_SEGMENT, (1, 2), (3, 4)),
        object("b", EXIT, (5, 5), (6, 6)),
        object("c", RECTANGLE, (0, 0), (2, 1)),
        object("d", WALL_SEGMENT, (9, 9), (8, 8)),
    ];
    assert_eq!(
        walls(&drawing),
        vec![
            wall((1, 2), (3, 4)),
            wall((0, 0), (2, 0)),
            wall((2, 0), (2, 1)),
            wall((2, 1), (0, 1)),
            wall((0, 1), (0, 0)),
            wall((9, 9), (8, 8)),
        ]
    );
}

#[test]
fn walls_of_an_empty_drawing() {
    assert!(walls(&Vec::new()).is_empty());
}

#[test]
fn wall_to_line_keeps_both_ends() {
    let line = wall((1, 2), (3, 4)).to_line();
    assert_eq!(line, Section::new(Point::new(1, 2), Point::new(3, 4)));
}
