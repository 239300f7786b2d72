//! The page model: points, lines, layers, pages and per-layer palettes.
//!
//! The tree is produced by a decoder outside this crate and is read-only
//! here. Coordinates and stroke widths are integer coordinate units bounded
//! by [`MAX_COORD`], which keeps every geometric computation free of
//! overflow.

use vstd::prelude::*;

verus! {

/// Largest magnitude a coordinate or stroke width may have.
pub const MAX_COORD: i64 = 0x10_0000;

/// Semantic palette slot of a stroke. The concrete output color comes from
/// the containing layer's [`LayerColor`].
#[derive(Clone, Copy, Debug, PartialEq, Eq, Structural)]
pub enum Color {
    Black,
    Grey,
    White,
    Blue,
    Red,
    Yellow,
    Green,
    Pink,
    GrayOverlapping,
}

/// Pen family of a stroke; highlighters follow a special color rule.
#[derive(Clone, Copy, Debug, PartialEq, Eq, Structural)]
pub enum BrushType {
    Pen,
    Pencil,
    Brush,
    Highlighter,
    Eraser,
}

/// One concrete output color string per semantic [`Color`], for one layer.
pub struct LayerColor {
    pub black: String,
    pub grey: String,
    pub white: String,
    pub blue: String,
    pub red: String,
    pub yellow: String,
    pub green: String,
    pub pink: String,
    pub gray_overlapping: String,
}

impl Default for LayerColor {
    /// The structural default palette: every slot is the empty string.
    fn default() -> (r: LayerColor)
        ensures
            r.black@ == Seq::<char>::empty(),
            r.grey@ == Seq::<char>::empty(),
            r.white@ == Seq::<char>::empty(),
            r.blue@ == Seq::<char>::empty(),
            r.red@ == Seq::<char>::empty(),
            r.yellow@ == Seq::<char>::empty(),
            r.green@ == Seq::<char>::empty(),
            r.pink@ == Seq::<char>::empty(),
            r.gray_overlapping@ == Seq::<char>::empty(),
    {
        LayerColor {
            black: String::new(),
            grey: String::new(),
            white: String::new(),
            blue: String::new(),
            red: String::new(),
            yellow: String::new(),
            green: String::new(),
            pink: String::new(),
            gray_overlapping: String::new(),
        }
    }
}

/// One pressure sample of a stroke: position, stroke diameter at this
/// sample, and the raw pressure (carried for fidelity, unused by geometry).
#[derive(Clone, Copy, Debug, PartialEq, Eq, Structural)]
pub struct Point {
    pub x: i64,
    pub y: i64,
    pub width: u32,
    pub pressure: u32,
}

impl Default for Point {
    /// The origin sample: zero coordinates, width and pressure.
    fn default() -> (r: Point)
        ensures
            r == (Point { x: 0i64, y: 0i64, width: 0u32, pressure: 0u32 }),
    {
        Point { x: 0, y: 0, width: 0, pressure: 0 }
    }
}

impl Point {
    /// Coordinates and width are within the bounds the geometry relies on.
    pub open spec fn wf(self) -> bool {
        &&& -MAX_COORD <= self.x <= MAX_COORD
        &&& -MAX_COORD <= self.y <= MAX_COORD
        &&& self.width <= MAX_COORD
    }
}

/// One continuous pen gesture: its samples in drawing order, its semantic
/// color and its pen family. A line with fewer than two points has no
/// renderable segments.
pub struct Line {
    pub points: Vec<Point>,
    pub color: Color,
    pub brush_type: BrushType,
}

impl Line {
    pub open spec fn wf(self) -> bool {
        forall|i: int| 0 <= i < self.points@.len() ==> (#[trigger] self.points@[i]).wf()
    }

    /// Builds a line through the given coordinates, taking stroke width and
    /// pressure from `template`; color and brush fall back to a plain pen.
    pub fn with_points(template: Point, coords: &[(i64, i64)]) -> (r: Line)
        ensures
            r.points@.len() == coords@.len(),
            forall|i: int|
                0 <= i < coords@.len() ==> {
                    let p = #[trigger] r.points@[i];
                    &&& p.x == coords@[i].0
                    &&& p.y == coords@[i].1
                    &&& p.width == template.width
                    &&& p.pressure == template.pressure
                },
            r.color == Color::Black,
            r.brush_type == BrushType::Pen,
    {
        let mut points: Vec<Point> = Vec::new();
        let mut i: usize = 0;
        while i < coords.len()
            invariant
                i <= coords@.len(),
                points@.len() == i,
                forall|k: int|
                    0 <= k < i ==> {
                        let p = #[trigger] points@[k];
                        &&& p.x == coords@[k].0
                        &&& p.y == coords@[k].1
                        &&& p.width == template.width
                        &&& p.pressure == template.pressure
                    },
            decreases coords@.len() - i,
        {
            let c = coords[i];
            points.push(Point { x: c.0, y: c.1, width: template.width, pressure: template.pressure });
            i = i + 1;
        }
        Line { points, color: Color::Black, brush_type: BrushType::Pen }
    }
}

/// A user-visible grouping of lines within a page.
pub struct Layer {
    pub lines: Vec<Line>,
}

impl Layer {
    pub open spec fn wf(self) -> bool {
        forall|i: int| 0 <= i < self.lines@.len() ==> (#[trigger] self.lines@[i]).wf()
    }
}

/// An ordered sequence of layers.
pub struct Page {
    pub layers: Vec<Layer>,
}

impl Page {
    pub open spec fn wf(self) -> bool {
        forall|i: int| 0 <= i < self.layers@.len() ==> (#[trigger] self.layers@[i]).wf()
    }
}

} // verus!
