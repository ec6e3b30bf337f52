use pixelz_rs::{interpolate_line, Coordinate};

fn cells(points: &[(i32, i32)]) -> Vec<Coordinate> {
    points.iter().map(|&(x, y)| Coordinate { x, y }).collect()
}

#[test]
fn degenerate_segment_is_a_single_cell() {
    assert_eq!(interpolate_line(2, 5, 2, 5), cells(&[(2, 5)]));
    assert_eq!(interpolate_line(0, 0, 0, 0), cells(&[(0, 0)]));
    assert_eq!(interpolate_line(-4, 9, -4, 9), cells(&[(-4, 9)]));
}

#[test]
fn horizontal_segment() {
    assert_eq!(interpolate_line(0, 0, 3, 0), cells(&[(0, 0), (1, 0), (2, 0), (3, 0)]));
    assert_eq!(interpolate_line(3, 0, 0, 0), cells(&[(3, 0), (2, 0), (1, 0), (0, 0)]));
    assert_eq!(interpolate_line(-1, 7, 2, 7), cells(&[(-1, 7), (0, 7), (1, 7), (2, 7)]));
}

#[test]
fn vertical_segment() {
    assert_eq!(interpolate_line(0, 0, 0, 3), cells(&[(0, 0), (0, 1), (0, 2), (0, 3)]));
    assert_eq!(interpolate_line(0, 3, 0, 0), cells(&[(0, 3), (0, 2), (0, 1), (0, 0)]));
    assert_eq!(interpolate_line(5, -2, 5, 1), cells(&[(5, -2), (5, -1), (5, 0), (5, 1)]));
}

#[test]
fn diagonal_segment() {
    assert_eq!(interpolate_line(0, 0, 3, 3), cells(&[(0, 0), (1, 1), (2, 2), (3, 3)]));
    assert_eq!(interpolate_line(0, 0, 3, -3), cells(&[(0, 0), (1, -1), (2, -2), (3, -3)]));
    assert_eq!(interpolate_line(0, 0, -3, 3), cells(&[(0, 0), (-1, 1), (-2, 2), (-3, 3)]));
}

#[test]
fn negative_direction_diagonal_is_the_reverse() {
    let back: Vec<Coordinate> = interpolate_line(3, 3, 0, 0);
    assert_eq!(back.first(), Some(&Coordinate { x: 3, y: 3 }));
    assert_eq!(back.last(), Some(&Coordinate { x: 0, y: 0 }));
    assert_eq!(back, cells(&[(3, 3), (2, 2), (1, 1), (0, 0)]));

    let mut forth: Vec<Coordinate> = interpolate_line(0, 0, 3, 3);
    forth.reverse();
    assert_eq!(back, forth);
}

#[test]
fn shallow_segment_has_one_cell_per_column() {
    let path: Vec<Coordinate> = interpolate_line(0, 0, 5, 2);
    assert_eq!(path.len(), 6);
    for (i, c) in path.iter().enumerate() {
        assert_eq!(c.x, i as i32);
    }
    for pair in path.windows(2) {
        assert!(pair[0].y <= pair[1].y);
    }
    assert_eq!(path, cells(&[(0, 0), (1, 0), (2, 1), (3, 1), (4, 2), (5, 2)]));
}

#[test]
fn steep_segment_has_one_cell_per_row() {
    let path: Vec<Coordinate> = interpolate_line(0, 0, 2, 5);
    assert_eq!(path.len(), 6);
    for (i, c) in path.iter().enumerate() {
        assert_eq!(c.y, i as i32);
    }
    for pair in path.windows(2) {
        assert!(pair[0].x <= pair[1].x);
    }
    assert_eq!(path, cells(&[(0, 0), (0, 1), (1, 2), (1, 3), (2, 4), (2, 5)]));
}

#[test]
fn every_octant() {
    assert_eq!(interpolate_line(0, 0, 4, 1), cells(&[(0, 0), (1, 0), (2, 1), (3, 1), (4, 1)]));
    assert_eq!(interpolate_line(0, 0, 1, 4), cells(&[(0, 0), (0, 1), (1, 2), (1, 3), (1, 4)]));
    assert_eq!(interpolate_line(0, 0, -1, 4), cells(&[(0, 0), (0, 1), (-1, 2), (-1, 3), (-1, 4)]));
    assert_eq!(interpolate_line(0, 0, -4, 1), cells(&[(0, 0), (-1, 0), (-2, 1), (-3, 1), (-4, 1)]));
    assert_eq!(
        interpolate_line(0, 0, -4, -1),
        cells(&[(0, 0), (-1, 0), (-2, -1), (-3, -1), (-4, -1)])
    );
    assert_eq!(
        interpolate_line(0, 0, -1, -4),
        cells(&[(0, 0), (0, -1), (-1, -2), (-1, -3), (-1, -4)])
    );
    assert_eq!(interpolate_line(0, 0, 1, -4), cells(&[(0, 0), (0, -1), (1, -2), (1, -3), (1, -4)]));
    assert_eq!(interpolate_line(0, 0, 4, -1), cells(&[(0, 0), (1, 0), (2, -1), (3, -1), (4, -1)]));
}

#[test]
fn a_half_is_rounded_away_from_the_start() {
    // Half way along, the exact line passes between two rows.
    assert_eq!(interpolate_line(0, 0, 2, 1), cells(&[(0, 0), (1, 1), (2, 1)]));
    assert_eq!(interpolate_line(0, 0, 1, 2), cells(&[(0, 0), (1, 1), (1, 2)]));
    assert_eq!(interpolate_line(0, 0, 2, -1), cells(&[(0, 0), (1, -1), (2, -1)]));
    assert_eq!(interpolate_line(0, 0, -2, -1), cells(&[(0, 0), (-1, -1), (-2, -1)]));
}

#[test]
fn general_slope_is_not_its_own_reverse() {
    let back: Vec<Coordinate> = interpolate_line(2, 1, 0, 0);
    assert_eq!(back, cells(&[(2, 1), (1, 0), (0, 0)]));

    let mut forth: Vec<Coordinate> = interpolate_line(0, 0, 2, 1);
    forth.reverse();
    assert_ne!(back, forth);
}

#[test]
fn end_points_next_to_the_limits_of_i32() {
    assert_eq!(
        interpolate_line(i32::MAX - 3, i32::MIN, i32::MAX, i32::MIN + 2),
        cells(&[
            (i32::MAX - 3, i32::MIN),
            (i32::MAX - 2, i32::MIN + 1),
            (i32::MAX - 1, i32::MIN + 1),
            (i32::MAX, i32::MIN + 2),
        ])
    );
    assert_eq!(
        interpolate_line(i32::MIN + 1, i32::MAX, i32::MIN, i32::MAX - 3),
        cells(&[
            (i32::MIN + 1, i32::MAX),
            (i32::MIN + 1, i32::MAX - 1),
            (i32::MIN, i32::MAX - 2),
            (i32::MIN, i32::MAX - 3),
        ])
    );
}

#[test]
fn long_segment() {
    let path: Vec<Coordinate> = interpolate_line(-50_000, 20_000, 50_000, -13_333);
    assert_eq!(path.len(), 100_001);
    assert_eq!(path[0], Coordinate { x: -50_000, y: 20_000 });
    assert_eq!(path[100_000], Coordinate { x: 50_000, y: -13_333 });
    // 30000 * 33333 / 100000 = 9999.9, which rounds to 10000.
    assert_eq!(path[30_000], Coordinate { x: -20_000, y: 10_000 });
    // 50001 * 33333 / 100000 = 16666.83..., which rounds to 16667.
    assert_eq!(path[50_001], Coordinate { x: 1, y: 3_333 });
}
