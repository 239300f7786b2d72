use lines_are_rusty::geom::segment_quads;
use lines_are_rusty::model::{Line, Point};

fn sample_point(width: u32) -> Point {
    Point { width, ..Default::default() }
}

#[test]
fn test_segment_quads() {
    let line = Line::with_points(sample_point(10), &[(0, 0), (3, 4), (6, 4)][..]);
    assert_eq!(
        segment_quads(&line),
        vec![-4, 3, -1, 7, 7, 1, 4, -3, 3, 9, 6, 9, 6, -1, 3, -1]
    );
}

#[test]
fn quad_count_is_eight_per_segment() {
    for n in 2..7i64 {
        let coords: Vec<(i64, i64)> = (0..n).map(|i| (3 * i, i)).collect();
        let line = Line::with_points(sample_point(4), &coords[..]);
        assert_eq!(segment_quads(&line).len() as i64, 8 * (n - 1));
    }
}

#[test]
fn empty_and_single_point_lines_have_no_quads() {
    let empty = Line::with_points(sample_point(4), &[][..]);
    assert_eq!(segment_quads(&empty), Vec::<i64>::new());
    let single = Line::with_points(sample_point(4), &[(5, 5)][..]);
    assert_eq!(segment_quads(&single), Vec::<i64>::new());
}

#[test]
fn duplicate_points_fall_back_to_zero_offset() {
    // A zero-length segment keeps its (degenerate) quad: four coincident
    // corner pairs, so the output length stays a multiple of eight.
    let line = Line::with_points(sample_point(10), &[(2, 3), (2, 3)][..]);
    assert_eq!(segment_quads(&line), vec![2, 3, 2, 3, 2, 3, 2, 3]);
}

#[test]
fn offsets_are_perpendicular_and_scaled() {
    // Axis-aligned segment of length 7, width 6: offset is (0, 3).
    let line = Line::with_points(sample_point(6), &[(1, 1), (8, 1)][..]);
    assert_eq!(segment_quads(&line), vec![1, 4, 8, 4, 8, -2, 1, -2]);
}
