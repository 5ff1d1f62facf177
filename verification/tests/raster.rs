use floorplan::primitives::{Point, Point32};
use floorplan::raster::{draw_command, raster_commands, DrawCommand, RasterError};
use floorplan::wall::{DrawingObject, EXIT, RECTANGLE, WALL_SEGMENT};

fn drawn(object_type: i32, a: (i64, i64), b: (i64, i64)) -> DrawingObject {
    DrawingObject {
        id: String::from("o"),
        object_type,
        points: [Point::new(a.0, a.1), Point::new(b.0, b.1)],
    }
}

#[test]
fn grid_needs_positive_dimensions() {
    let drawing = vec![drawn(WALL_SEGMENT, (0, 0), (5, 5))];
    assert_eq!(raster_commands(0, 10, &drawing), Err(RasterError::InvalidDimensions));
    assert_eq!(raster_commands(10, 0, &drawing), Err(RasterError::InvalidDimensions));
    assert_eq!(raster_commands(-1, -1, &drawing), Err(RasterError::InvalidDimensions));
    assert!(raster_commands(1, 1, &drawing).is_ok());
}

#[test]
fn walls_and_exits_are_drawn_as_lines() {
    let drawing = vec![drawn(WALL_SEGMENT, (1, 2), (3, 4)), drawn(EXIT, (9, 8), (7, 6))];
    assert_eq!(
        raster_commands(100, 100, &drawing),
        Ok(vec![
            DrawCommand::Line { from: Point32::new(1, 2), to: Point32::new(3, 4) },
            DrawCommand::Line { from: Point32::new(9, 8), to: Point32::new(7, 6) },
        ])
    );
}

#[test]
fn rectangle_is_drawn_from_its_smaller_corner() {
    let expected = Some(DrawCommand::Outline { x: 2, y: 3, width: 8, height: 4 });
    assert_eq!(draw_command(&drawn(RECTANGLE, (2, 3), (10, 7))), expected);
    assert_eq!(draw_command(&drawn(RECTANGLE, (10, 7), (2, 3))), expected);
    assert_eq!(draw_command(&drawn(RECTANGLE, (10, 3), (2, 7))), expected);
}

#[test]
fn other_kinds_are_not_drawn() {
    assert_eq!(draw_command(&drawn(2, (0, 0), (1, 1))), None);
    assert_eq!(draw_command(&drawn(3, (0, 0), (1, 1))), None);
    assert_eq!(draw_command(&drawn(5, (0, 0), (1, 1))), None);
}

#[test]
fn drawing_without_drawn_kinds_leaves_the_grid_empty() {
    let drawing = vec![drawn(2, (0, 0), (5, 5)), drawn(3, (1, 1), (2, 2)), drawn(7, (0, 0), (1, 1))];
    assert_eq!(raster_commands(50, 50, &drawing), Ok(Vec::new()));
    assert_eq!(raster_commands(50, 50, &Vec::new()), Ok(Vec::new()));
}

#[test]
fn far_coordinates_land_on_the_nearest_cell() {
    let found = draw_command(&drawn(WALL_SEGMENT, (i64::MIN, 5_000_000_000), (-3, i64::MAX)));
    assert_eq!(
        found,
        Some(DrawCommand::Line {
            from: Point32::new(i32::MIN, i32::MAX),
            to: Point32::new(-3, i32::MAX),
        })
    );
}

#[test]
fn rectangle_extent_is_cut_to_the_largest_number() {
    let found = draw_command(&drawn(RECTANGLE, (i64::MIN, -1), (i64::MAX, 2_147_483_646)));
    assert_eq!(
        found,
        Some(DrawCommand::Outline { x: i32::MIN, y: -1, width: i32::MAX, height: i32::MAX })
    );
}

#[test]
fn point_to_cell() {
    assert_eq!(Point::new(12, -7).to_i32(), Point32::new(12, -7));
    assert_eq!(Point::new(2_147_483_648, -2_147_483_649).to_i32(), Point32::new(i32::MAX, i32::MIN));
    assert_eq!(Point::new(2_147_483_647, -2_147_483_648).to_i32(), Point32::new(i32::MAX, i32::MIN));
}
