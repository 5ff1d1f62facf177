use floorplan::geometry::{
    get_vector_to_line, is_exit_on_edge, is_in_plane, is_lines_intersects, is_point_on_edge,
    polygon_to_sections, Offset, PLANE_LIMIT,
};
use floorplan::primitives::{Point, Section};
use floorplan::vector::Vector;

fn section(a: (i64, i64), b: (i64, i64)) -> Section {
    Section::new(Point::new(a.0, a.1), Point::new(b.0, b.1))
}

#[test]
fn vector_construction() {
    assert_eq!(Vector::origin(), Vector { x: 0, y: 0 });
    assert_eq!(Vector::new(Point::new(3, -4)), Vector { x: 3, y: -4 });
    assert_eq!(Vector::from_points(&Point::new(1, 2), &Point::new(4, -2)), Vector { x: 3, y: -4 });
}

#[test]
fn vector_arithmetic() {
    let a = Vector { x: 3, y: 4 };
    let b = Vector { x: -1, y: 2 };
    assert_eq!(a.add(&b), Vector { x: 2, y: 6 });
    assert_eq!(a.subtract(&b), Vector { x: 4, y: 2 });
    assert_eq!(a.product(999), Vector { x: 2997, y: 3996 });
    assert_eq!(a.product(-2), Vector { x: -6, y: -8 });
    assert_eq!(a.dot(&b), 5);
    assert_eq!(a.perpendicular(), Vector { x: -4, y: 3 });
}

#[test]
fn vector_products_of_large_numbers() {
    let a = Vector { x: i64::MAX, y: i64::MIN };
    let b = Vector { x: i64::MAX, y: 1 };
    assert_eq!(a.dot(&b), (i64::MAX as i128) * (i64::MAX as i128) + (i64::MIN as i128));
    assert!(a.is_collinear_with(&a));
    assert!(!a.is_collinear_with(&b));
}

#[test]
fn vector_predicates() {
    let a = Vector { x: 2, y: 4 };
    assert!(a.is_collinear_with(&Vector { x: -3, y: -6 }));
    assert!(a.is_collinear_with(&Vector::origin()));
    assert!(!a.is_collinear_with(&Vector { x: 2, y: 5 }));
    assert!(a.is_equal_to(&Vector { x: 2, y: 4 }));
    assert!(!a.is_equal_to(&Vector { x: 4, y: 2 }));
}

#[test]
fn vector_to_line_points_up_on_a_downward_axis() {
    let line = Vector { x: 3, y: 4 }.to_line(Point::new(10, 10));
    assert_eq!(line, section((10, 10), (13, 6)));
}

#[test]
fn polygon_edges_wrap_around() {
    let points = vec![Point::new(0, 0), Point::new(4, 0), Point::new(4, 3)];
    assert_eq!(
        polygon_to_sections(&points),
        vec![section((0, 0), (4, 0)), section((4, 0), (4, 3)), section((4, 3), (0, 0))]
    );
}

#[test]
fn polygon_edges_of_small_polygons() {
    assert!(polygon_to_sections(&Vec::new()).is_empty());
    assert_eq!(polygon_to_sections(&vec![Point::new(2, 2)]), vec![section((2, 2), (2, 2))]);
    assert_eq!(
        polygon_to_sections(&vec![Point::new(1, 1), Point::new(2, 2)]),
        vec![section((1, 1), (2, 2)), section((2, 2), (1, 1))]
    );
}

#[test]
fn offset_leads_from_the_point_to_the_line() {
    let line = section((0, 0), (10, 0));
    assert_eq!(get_vector_to_line(line, Point::new(3, 4)), Offset { x: 0, y: -400, scale: 100 });
    assert_eq!(get_vector_to_line(line, Point::new(3, -4)), Offset { x: 0, y: 400, scale: 100 });
    assert_eq!(get_vector_to_line(line, Point::new(25, 0)), Offset { x: 0, y: 0, scale: 100 });
    let upright = section((0, 0), (0, 10));
    assert_eq!(get_vector_to_line(upright, Point::new(3, 4)), Offset { x: -300, y: 0, scale: 100 });
}

#[test]
fn offset_in_whole_units_where_it_is_whole() {
    let found = get_vector_to_line(section((0, 0), (10, 0)), Point::new(3, 4));
    assert_eq!((found.x / found.scale, found.y / found.scale), (0, -4));
    assert_eq!((found.x % found.scale, found.y % found.scale), (0, 0));
    let found = get_vector_to_line(section((0, 0), (0, 10)), Point::new(3, 4));
    assert_eq!((found.x / found.scale, found.y / found.scale), (-3, 0));
    assert_eq!((found.x % found.scale, found.y % found.scale), (0, 0));
}

#[test]
fn offset_to_a_slanted_line_is_a_fraction() {
    let slanted = section((1, 1), (4, 5));
    assert_eq!(get_vector_to_line(slanted, Point::new(7, 9)), Offset { x: 0, y: 0, scale: 25 });
    assert_eq!(get_vector_to_line(slanted, Point::new(1, 6)), Offset { x: 60, y: -45, scale: 25 });
}

#[test]
fn point_moved_by_its_offset_lies_on_the_line() {
    let lines = [section((1, 1), (4, 5)), section((0, 0), (10, 0)), section((-7, 3), (2, -9))];
    let points = [Point::new(1, 6), Point::new(3, 4), Point::new(-20, 15), Point::new(0, 0)];
    for line in lines {
        let dx = (line.end.x - line.start.x) as i128;
        let dy = (line.end.y - line.start.y) as i128;
        for point in points {
            let found = get_vector_to_line(line, point);
            let (x, y, scale) = (found.x as i128, found.y as i128, found.scale as i128);
            assert_eq!(scale, dx * dx + dy * dy);
            assert_eq!(x * dx + y * dy, 0);
            let moved_x = scale * (point.x - line.start.x) as i128 + x;
            let moved_y = scale * (point.y - line.start.y) as i128 + y;
            assert_eq!(dx * moved_y - dy * moved_x, 0);
        }
    }
}

#[test]
fn offset_to_a_line_without_length() {
    let line = section((1, 1), (1, 1));
    assert_eq!(get_vector_to_line(line, Point::new(4, 5)), Offset { x: -3, y: -4, scale: 1 });
    assert_eq!(get_vector_to_line(line, Point::new(1, 1)), Offset { x: 0, y: 0, scale: 1 });
}

#[test]
fn offset_at_the_plane_limit() {
    let l = PLANE_LIMIT;
    let line = section((-l, -l), (l, l));
    let found = get_vector_to_line(line, Point::new(l, -l));
    let cube: i128 = (l as i128) * (l as i128) * (l as i128);
    assert_eq!(found.x as i128, -8 * cube);
    assert_eq!(found.y as i128, 8 * cube);
    assert_eq!(found.scale as i128, 8 * (l as i128) * (l as i128));
    assert_eq!(
        found,
        Offset { x: -1152921504606846976, y: 1152921504606846976, scale: 2199023255552 }
    );
}

#[test]
fn orientation_test_on_segments() {
    assert!(is_lines_intersects(section((0, 0), (4, 4)), section((0, 4), (4, 0))));
    assert!(is_lines_intersects(section((0, 0), (4, 0)), section((4, 0), (4, 4))));
    assert!(is_lines_intersects(section((0, 0), (4, 0)), section((2, 0), (2, 5))));
    assert!(!is_lines_intersects(section((0, 0), (4, 0)), section((0, 1), (4, 1))));
    assert!(!is_lines_intersects(section((0, 0), (4, 0)), section((5, -1), (5, 1))));
    assert!(!is_lines_intersects(section((0, 0), (1, 1)), section((3, 0), (0, 3))));
}

#[test]
fn orientation_test_at_the_ends_of_the_number_range() {
    let rising = section((i64::MIN, i64::MIN), (i64::MAX, i64::MAX));
    let falling = section((i64::MIN, i64::MAX), (i64::MAX, i64::MIN));
    assert!(is_lines_intersects(rising, falling));
    assert!(is_lines_intersects(rising, rising));
    let low = section((i64::MIN, i64::MIN), (i64::MAX, i64::MIN));
    let high = section((i64::MIN, i64::MAX), (i64::MAX, i64::MAX));
    assert!(!is_lines_intersects(low, high));
    assert!(is_lines_intersects(low, rising));
    assert!(!is_lines_intersects(low, section((i64::MIN, i64::MIN + 1), (i64::MAX, i64::MAX))));
}

#[test]
fn point_on_an_edge_without_length() {
    let edge = section((3, 3), (3, 3));
    assert!(is_point_on_edge(edge, Point::new(3, 3)));
    assert!(!is_point_on_edge(edge, Point::new(3, 4)));
    assert!(!is_point_on_edge(edge, Point::new(0, 0)));
}

#[test]
fn point_on_edge_only_on_its_line() {
    let edge = section((0, 0), (10, 0));
    assert!(is_point_on_edge(edge, Point::new(0, 0)));
    assert!(is_point_on_edge(edge, Point::new(5, 0)));
    assert!(is_point_on_edge(edge, Point::new(10, 0)));
    assert!(!is_point_on_edge(edge, Point::new(5, 1)));
    assert!(!is_point_on_edge(edge, Point::new(5, -1)));
}

#[test]
fn exit_on_an_edge_is_attached() {
    let edge = section((0, 0), (10, 0));
    assert!(is_exit_on_edge(edge, section((2, 0), (5, 0))));
    assert!(is_exit_on_edge(edge, section((5, 0), (2, 0))));
    assert!(is_exit_on_edge(edge, section((0, 0), (10, 0))));
    let slanted = section((0, 0), (6, 8));
    assert!(is_exit_on_edge(slanted, section((3, 4), (6, 8))));
}

#[test]
fn exit_beside_an_edge_is_not_attached() {
    let edge = section((0, 0), (10, 0));
    assert!(!is_exit_on_edge(edge, section((2, 1), (5, 1))));
    assert!(!is_exit_on_edge(edge, section((2, -3), (5, -3))));
    let slanted = section((0, 0), (6, 8));
    assert!(!is_exit_on_edge(slanted, section((3, 5), (6, 9))));
}

#[test]
fn exit_that_only_touches_an_edge_is_not_attached() {
    let edge = section((0, 0), (10, 0));
    assert!(!is_exit_on_edge(edge, section((10, 0), (10, 5))));
    assert!(!is_exit_on_edge(edge, section((5, 0), (5, 3))));
}

#[test]
fn plane_limit() {
    assert!(is_in_plane(&Point::new(PLANE_LIMIT, -PLANE_LIMIT)));
    assert!(!is_in_plane(&Point::new(PLANE_LIMIT + 1, 0)));
    assert!(!is_in_plane(&Point::new(0, -PLANE_LIMIT - 1)));
}
