use lines_are_rusty::bbox::BoundingBox;
use lines_are_rusty::model::{Color, BrushType, Layer, Line, Page, Point};

fn point(x: i64, y: i64, width: u32) -> Point {
    Point { x, y, width, pressure: 0 }
}

fn line_of(points: Vec<Point>) -> Line {
    Line { points, color: Color::Black, brush_type: BrushType::Pen }
}

#[test]
fn enclose_point_covers_the_stroke_radius() {
    let b = BoundingBox::new().enclose_point(&point(10, 20, 8));
    assert_eq!((b.min_x, b.min_y, b.max_x, b.max_y), (6, 16, 14, 24));
}

#[test]
fn empty_page_yields_the_empty_sentinel() {
    let page = Page { layers: vec![] };
    let b = BoundingBox::new().enclose_page(&page);
    assert_eq!((b.min_x, b.min_y), (i64::MAX, i64::MAX));
    assert_eq!((b.max_x, b.max_y), (i64::MIN, i64::MIN));
    // Layers without lines contribute nothing either, however often
    // they are enclosed.
    let hollow = Page { layers: vec![Layer { lines: vec![] }, Layer { lines: vec![] }] };
    let b = b.enclose_page(&hollow).enclose_page(&hollow);
    assert_eq!((b.min_x, b.min_y), (i64::MAX, i64::MAX));
    assert_eq!((b.max_x, b.max_y), (i64::MIN, i64::MIN));
}

#[test]
fn enclosure_result_is_order_independent() {
    let pts = vec![point(-3, 9, 2), point(40, -7, 6), point(0, 0, 10)];
    let mut rev = pts.clone();
    rev.reverse();
    let a = BoundingBox::new().enclose_line(&line_of(pts));
    let b = BoundingBox::new().enclose_line(&line_of(rev));
    assert_eq!((a.min_x, a.min_y, a.max_x, a.max_y), (b.min_x, b.min_y, b.max_x, b.max_y));
    assert_eq!((a.min_x, a.min_y, a.max_x, a.max_y), (-5, -10, 43, 10));
}

#[test]
fn single_point_line_bounds_a_width_sized_square() {
    let w: u32 = 12;
    let b = BoundingBox::new().enclose_line(&line_of(vec![point(100, -50, w)]));
    assert_eq!(b.max_x - b.min_x, w as i64);
    assert_eq!(b.max_y - b.min_y, w as i64);
    assert_eq!(b.min_x + b.max_x, 2 * 100);
    assert_eq!(b.min_y + b.max_y, 2 * -50);
}

#[test]
fn enclose_page_walks_every_layer_and_line() {
    let page = Page {
        layers: vec![
            Layer { lines: vec![line_of(vec![point(0, 0, 2)])] },
            Layer { lines: vec![line_of(vec![point(5, 5, 2)]), line_of(vec![point(-5, 2, 4)])] },
        ],
    };
    let b = BoundingBox::new().enclose_page(&page);
    assert_eq!((b.min_x, b.min_y, b.max_x, b.max_y), (-7, -1, 6, 6));
}
