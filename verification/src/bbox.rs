//! Axis-aligned bounding box accumulation for auto-cropping.
//!
//! A box is folded over points, lines and whole pages. Each point is
//! enclosed together with its own stroke radius (half its width), so thick
//! strokes are never clipped. The empty box keeps `min` at the largest and
//! `max` at the smallest representable value, so any real enclosure strictly
//! shrinks `min` and grows `max`; a box that is still empty after
//! accumulation signals that there is nothing to crop to.

use crate::model::{Layer, Line, Page, Point};
use vstd::prelude::*;

verus! {

/// The mathematical value of a box: (min x, min y, max x, max y).
pub type Rect = (int, int, int, int);

/// The bounding rectangle of the ink seen so far.
pub struct BoundingBox {
    pub min_x: i64,
    pub min_y: i64,
    pub max_x: i64,
    pub max_y: i64,
}

impl View for BoundingBox {
    type V = Rect;

    open spec fn view(&self) -> Rect {
        (self.min_x as int, self.min_y as int, self.max_x as int, self.max_y as int)
    }
}

/// The empty box: any enclosed point shrinks `min` and grows `max`.
pub open spec fn empty_rect() -> Rect {
    (i64::MAX as int, i64::MAX as int, i64::MIN as int, i64::MIN as int)
}

/// Stroke radius of a point: half its stroke width.
pub open spec fn pt_radius(p: Point) -> int {
    (p.width as int) / 2
}

pub open spec fn pt_lo_x(p: Point) -> int {
    p.x - pt_radius(p)
}

pub open spec fn pt_lo_y(p: Point) -> int {
    p.y - pt_radius(p)
}

pub open spec fn pt_hi_x(p: Point) -> int {
    p.x + pt_radius(p)
}

pub open spec fn pt_hi_y(p: Point) -> int {
    p.y + pt_radius(p)
}

/// Grows `r` to cover the stroke-radius square around `p`.
pub open spec fn rect_enclose_point(r: Rect, p: Point) -> Rect {
    (
        vstd::math::min(r.0, pt_lo_x(p)),
        vstd::math::min(r.1, pt_lo_y(p)),
        vstd::math::max(r.2, pt_hi_x(p)),
        vstd::math::max(r.3, pt_hi_y(p)),
    )
}

/// Folds [`rect_enclose_point`] over a sequence of points, in order.
pub open spec fn rect_enclose_points(r: Rect, s: Seq<Point>) -> Rect
    decreases s.len(),
{
    if s.len() == 0 {
        r
    } else {
        rect_enclose_point(rect_enclose_points(r, s.drop_last()), s.last())
    }
}

/// All points of a sequence of lines, in drawing order.
pub open spec fn lines_points(lines: Seq<Line>) -> Seq<Point>
    decreases lines.len(),
{
    if lines.len() == 0 {
        Seq::empty()
    } else {
        lines_points(lines.drop_last()) + lines.last().points@
    }
}

/// All points of a sequence of layers, in drawing order.
pub open spec fn layers_points(layers: Seq<Layer>) -> Seq<Point>
    decreases layers.len(),
{
    if layers.len() == 0 {
        Seq::empty()
    } else {
        layers_points(layers.drop_last()) + lines_points(layers.last().lines@)
    }
}

/// All points of a page, in drawing order.
pub open spec fn page_points(page: Page) -> Seq<Point> {
    layers_points(page.layers@)
}

/// Folding over a concatenation encloses the first part, then the second.
pub proof fn lemma_rect_enclose_points_append(r: Rect, s1: Seq<Point>, s2: Seq<Point>)
    ensures
        rect_enclose_points(r, s1 + s2) == rect_enclose_points(rect_enclose_points(r, s1), s2),
    decreases s2.len(),
{
    if s2.len() == 0 {
        assert(s1 + s2 =~= s1);
    } else {
        lemma_rect_enclose_points_append(r, s1, s2.drop_last());
        assert((s1 + s2).drop_last() =~= s1 + s2.drop_last());
    }
}

/// `e` lies within the seed box `r` and covers the radius square of every
/// point of `s`.
pub open spec fn rect_covers(e: Rect, r: Rect, s: Seq<Point>) -> bool {
    &&& e.0 <= r.0
    &&& e.1 <= r.1
    &&& e.2 >= r.2
    &&& e.3 >= r.3
    &&& forall|i: int|
        0 <= i < s.len() ==> {
            let p = #[trigger] s[i];
            &&& e.0 <= pt_lo_x(p)
            &&& e.1 <= pt_lo_y(p)
            &&& e.2 >= pt_hi_x(p)
            &&& e.3 >= pt_hi_y(p)
        }
}

/// Every side of `e` is attained, by the seed box `r` or by some point of
/// `s`.
pub open spec fn rect_attained(e: Rect, r: Rect, s: Seq<Point>) -> bool {
    &&& (e.0 == r.0 || exists|i: int| 0 <= i < s.len() && e.0 == pt_lo_x(#[trigger] s[i]))
    &&& (e.1 == r.1 || exists|i: int| 0 <= i < s.len() && e.1 == pt_lo_y(#[trigger] s[i]))
    &&& (e.2 == r.2 || exists|i: int| 0 <= i < s.len() && e.2 == pt_hi_x(#[trigger] s[i]))
    &&& (e.3 == r.3 || exists|i: int| 0 <= i < s.len() && e.3 == pt_hi_y(#[trigger] s[i]))
}

/// The enclosure of a point sequence is exactly the tightest box around
/// the seed box and the points: it covers all of them, and each of its
/// sides is attained by one of them.
pub proof fn lemma_rect_enclose_points_bounds(r: Rect, s: Seq<Point>)
    ensures
        rect_covers(rect_enclose_points(r, s), r, s),
        rect_attained(rect_enclose_points(r, s), r, s),
    decreases s.len(),
{
    if s.len() > 0 {
        let s0 = s.drop_last();
        let e0 = rect_enclose_points(r, s0);
        let e = rect_enclose_points(r, s);
        lemma_rect_enclose_points_bounds(r, s0);
        assert(forall|i: int| 0 <= i < s0.len() ==> s[i] == #[trigger] s0[i]);
        assert forall|i: int| 0 <= i < s.len() implies {
            let p = #[trigger] s[i];
            &&& e.0 <= pt_lo_x(p)
            &&& e.1 <= pt_lo_y(p)
            &&& e.2 >= pt_hi_x(p)
            &&& e.3 >= pt_hi_y(p)
        } by {
            if i < s.len() - 1 {
                assert(s[i] == s0[i]);
            } else {
                assert(s[i] == s.last());
            }
        }
        assert(rect_covers(e, r, s));
        if e.0 != pt_lo_x(s.last()) {
            assert(e.0 == e0.0);
            if e0.0 != r.0 {
                let j = choose|j: int| 0 <= j < s0.len() && e0.0 == pt_lo_x(#[trigger] s0[j]);
                assert(e.0 == pt_lo_x(s[j]));
            }
        } else {
            assert(e.0 == pt_lo_x(s[s.len() - 1]));
        }
        if e.1 != pt_lo_y(s.last()) {
            assert(e.1 == e0.1);
            if e0.1 != r.1 {
                let j = choose|j: int| 0 <= j < s0.len() && e0.1 == pt_lo_y(#[trigger] s0[j]);
                assert(e.1 == pt_lo_y(s[j]));
            }
        } else {
            assert(e.1 == pt_lo_y(s[s.len() - 1]));
        }
        if e.2 != pt_hi_x(s.last()) {
            assert(e.2 == e0.2);
            if e0.2 != r.2 {
                let j = choose|j: int| 0 <= j < s0.len() && e0.2 == pt_hi_x(#[trigger] s0[j]);
                assert(e.2 == pt_hi_x(s[j]));
            }
        } else {
            assert(e.2 == pt_hi_x(s[s.len() - 1]));
        }
        if e.3 != pt_hi_y(s.last()) {
            assert(e.3 == e0.3);
            if e0.3 != r.3 {
                let j = choose|j: int| 0 <= j < s0.len() && e0.3 == pt_hi_y(#[trigger] s0[j]);
                assert(e.3 == pt_hi_y(s[j]));
            }
        } else {
            assert(e.3 == pt_hi_y(s[s.len() - 1]));
        }
    }
}

/// Law: enclosure is order-independent in its result. Two point sequences
/// that hold the same points (as a multiset) fold to the same box from any
/// seed, even though min and max are taken along different accumulation
/// paths.
pub proof fn lemma_enclose_order_independent(r: Rect, s1: Seq<Point>, s2: Seq<Point>)
    requires
        s1.to_multiset() == s2.to_multiset(),
    ensures
        rect_enclose_points(r, s1) == rect_enclose_points(r, s2),
{
    broadcast use vstd::seq_lib::group_to_multiset_ensures;

    let e1 = rect_enclose_points(r, s1);
    let e2 = rect_enclose_points(r, s2);
    lemma_rect_enclose_points_bounds(r, s1);
    lemma_rect_enclose_points_bounds(r, s2);
    assert forall|p: Point| s1.contains(p) implies s2.contains(p) by {
        assert(s1.to_multiset().count(p) > 0);
    }
    assert forall|p: Point| s2.contains(p) implies s1.contains(p) by {
        assert(s2.to_multiset().count(p) > 0);
    }
    assert(e1.0 <= e2.0 && e2.0 <= e1.0) by {
        if e2.0 != r.0 {
            let i = choose|i: int| 0 <= i < s2.len() && e2.0 == pt_lo_x(#[trigger] s2[i]);
            assert(s2.contains(s2[i]));
            let j = choose|j: int| 0 <= j < s1.len() && s1[j] == s2[i];
            assert(e1.0 <= pt_lo_x(s1[j]));
        }
        if e1.0 != r.0 {
            let i = choose|i: int| 0 <= i < s1.len() && e1.0 == pt_lo_x(#[trigger] s1[i]);
            assert(s1.contains(s1[i]));
            let j = choose|j: int| 0 <= j < s2.len() && s2[j] == s1[i];
            assert(e2.0 <= pt_lo_x(s2[j]));
        }
    }
    assert(e1.1 <= e2.1 && e2.1 <= e1.1) by {
        if e2.1 != r.1 {
            let i = choose|i: int| 0 <= i < s2.len() && e2.1 == pt_lo_y(#[trigger] s2[i]);
            assert(s2.contains(s2[i]));
            let j = choose|j: int| 0 <= j < s1.len() && s1[j] == s2[i];
            assert(e1.1 <= pt_lo_y(s1[j]));
        }
        if e1.1 != r.1 {
            let i = choose|i: int| 0 <= i < s1.len() && e1.1 == pt_lo_y(#[trigger] s1[i]);
            assert(s1.contains(s1[i]));
            let j = choose|j: int| 0 <= j < s2.len() && s2[j] == s1[i];
            assert(e2.1 <= pt_lo_y(s2[j]));
        }
    }
    assert(e1.2 <= e2.2 && e2.2 <= e1.2) by {
        if e2.2 != r.2 {
            let i = choose|i: int| 0 <= i < s2.len() && e2.2 == pt_hi_x(#[trigger] s2[i]);
            assert(s2.contains(s2[i]));
            let j = choose|j: int| 0 <= j < s1.len() && s1[j] == s2[i];
            assert(e1.2 >= pt_hi_x(s1[j]));
        }
        if e1.2 != r.2 {
            let i = choose|i: int| 0 <= i < s1.len() && e1.2 == pt_hi_x(#[trigger] s1[i]);
            assert(s1.contains(s1[i]));
            let j = choose|j: int| 0 <= j < s2.len() && s2[j] == s1[i];
            assert(e2.2 >= pt_hi_x(s2[j]));
        }
    }
    assert(e1.3 <= e2.3 && e2.3 <= e1.3) by {
        if e2.3 != r.3 {
            let i = choose|i: int| 0 <= i < s2.len() && e2.3 == pt_hi_y(#[trigger] s2[i]);
            assert(s2.contains(s2[i]));
            let j = choose|j: int| 0 <= j < s1.len() && s1[j] == s2[i];
            assert(e1.3 >= pt_hi_y(s1[j]));
        }
        if e1.3 != r.3 {
            let i = choose|i: int| 0 <= i < s1.len() && e1.3 == pt_hi_y(#[trigger] s1[i]);
            assert(s1.contains(s1[i]));
            let j = choose|j: int| 0 <= j < s2.len() && s2[j] == s1[i];
            assert(e2.3 >= pt_hi_y(s2[j]));
        }
    }
}

/// Law: enclosing a point into the empty box yields exactly the point's
/// stroke-radius square: min at its coordinates minus the radius, max at
/// its coordinates plus the radius.
pub proof fn lemma_enclose_point_empty(p: Point)
    requires
        p.wf(),
    ensures
        rect_enclose_point(empty_rect(), p) == (pt_lo_x(p), pt_lo_y(p), pt_hi_x(p), pt_hi_y(p)),
{
    vstd::arithmetic::div_mod::lemma_div_pos_is_pos(p.width as int, 2);
    vstd::arithmetic::div_mod::lemma_div_nonincreasing(p.width as int, 2);
}

/// All layers of `layers` hold no lines at all.
pub open spec fn layers_have_no_lines(layers: Seq<Layer>) -> bool {
    forall|i: int| 0 <= i < layers.len() ==> (#[trigger] layers[i]).lines@.len() == 0
}

proof fn lemma_layers_points_empty(layers: Seq<Layer>)
    requires
        layers_have_no_lines(layers),
    ensures
        layers_points(layers) == Seq::<Point>::empty(),
    decreases layers.len(),
{
    if layers.len() > 0 {
        assert(layers_have_no_lines(layers.drop_last()));
        lemma_layers_points_empty(layers.drop_last());
        assert(layers.last() == layers[layers.len() - 1]);
        assert(layers_points(layers) =~= Seq::<Point>::empty());
    }
}

/// Law: a page with no layers, or whose layers hold no lines, contributes
/// no points, so enclosing it leaves any box unchanged — in particular the
/// empty box stays the empty sentinel, however often it is applied.
pub proof fn lemma_enclose_empty_page(r: Rect, page: Page)
    requires
        layers_have_no_lines(page.layers@),
    ensures
        page_points(page) == Seq::<Point>::empty(),
        rect_enclose_points(r, page_points(page)) == r,
{
    lemma_layers_points_empty(page.layers@);
}

/// Law: the box of a line through a single point of even width is a
/// square of exactly that width, centered on the point.
pub proof fn lemma_single_point_box(line: Line)
    requires
        line.wf(),
        line.points@.len() == 1,
        line.points@[0].width % 2 == 0,
    ensures
        ({
            let e = rect_enclose_points(empty_rect(), line.points@);
            let p = line.points@[0];
            &&& e.2 - e.0 == p.width
            &&& e.3 - e.1 == p.width
            &&& e.0 + e.2 == 2 * p.x
            &&& e.1 + e.3 == 2 * p.y
        }),
{
    let s = line.points@;
    let p = s[0];
    assert(p.wf());
    assert(s.drop_last().len() == 0);
    assert(rect_enclose_points(empty_rect(), s.drop_last()) == empty_rect());
    assert(s.last() == p);
    assert(rect_enclose_points(empty_rect(), s) == rect_enclose_point(empty_rect(), p));
    lemma_enclose_point_empty(p);
    vstd::arithmetic::div_mod::lemma_fundamental_div_mod(p.width as int, 2);
}

impl BoundingBox {
    /// The empty box.
    pub fn new() -> (r: BoundingBox)
        ensures
            r@ == empty_rect(),
    {
        BoundingBox { min_x: i64::MAX, min_y: i64::MAX, max_x: i64::MIN, max_y: i64::MIN }
    }

    /// Expands the box to cover the square of `point`'s own stroke radius
    /// centered on its coordinates.
    pub fn enclose_point(self, point: &Point) -> (r: BoundingBox)
        requires
            point.wf(),
        ensures
            r@ == rect_enclose_point(self@, *point),
    {
        let radius: i64 = (point.width / 2) as i64;
        let lo_x: i64 = point.x - radius;
        let lo_y: i64 = point.y - radius;
        let hi_x: i64 = point.x + radius;
        let hi_y: i64 = point.y + radius;
        BoundingBox {
            min_x: if lo_x < self.min_x { lo_x } else { self.min_x },
            min_y: if lo_y < self.min_y { lo_y } else { self.min_y },
            max_x: if hi_x > self.max_x { hi_x } else { self.max_x },
            max_y: if hi_y > self.max_y { hi_y } else { self.max_y },
        }
    }

    /// Encloses every point of `line`, in order.
    pub fn enclose_line(self, line: &Line) -> (r: BoundingBox)
        requires
            line.wf(),
        ensures
            r@ == rect_enclose_points(self@, line.points@),
    {
        let ghost b0 = self@;
        let mut b = self;
        let mut i: usize = 0;
        while i < line.points.len()
            invariant
                i <= line.points@.len(),
                line.wf(),
                b@ == rect_enclose_points(b0, line.points@.take(i as int)),
            decreases line.points@.len() - i,
        {
            b = b.enclose_point(&line.points[i]);
            proof {
                let taken = line.points@.take(i + 1);
                assert(taken.drop_last() =~= line.points@.take(i as int));
                assert(taken.last() == line.points@[i as int]);
            }
            i = i + 1;
        }
        proof {
            assert(line.points@.take(line.points@.len() as int) =~= line.points@);
        }
        b
    }

    /// Encloses every line of every layer of `page`, in order.
    pub fn enclose_page(self, page: &Page) -> (r: BoundingBox)
        requires
            page.wf(),
        ensures
            r@ == rect_enclose_points(self@, page_points(*page)),
    {
        let ghost b0 = self@;
        let mut b = self;
        let mut k: usize = 0;
        while k < page.layers.len()
            invariant
                k <= page.layers@.len(),
                page.wf(),
                b@ == rect_enclose_points(b0, layers_points(page.layers@.take(k as int))),
            decreases page.layers@.len() - k,
        {
            let layer = &page.layers[k];
            let ghost outer = layers_points(page.layers@.take(k as int));
            let mut j: usize = 0;
            while j < layer.lines.len()
                invariant
                    j <= layer.lines@.len(),
                    page.wf(),
                    k < page.layers@.len(),
                    *layer == page.layers@[k as int],
                    outer == layers_points(page.layers@.take(k as int)),
                    b@ == rect_enclose_points(
                        rect_enclose_points(b0, outer),
                        lines_points(layer.lines@.take(j as int)),
                    ),
                decreases layer.lines@.len() - j,
            {
                assert(layer.lines@[j as int].wf());
                b = b.enclose_line(&layer.lines[j]);
                proof {
                    let taken = layer.lines@.take(j + 1);
                    assert(taken.drop_last() =~= layer.lines@.take(j as int));
                    assert(taken.last() == layer.lines@[j as int]);
                    lemma_rect_enclose_points_append(
                        rect_enclose_points(b0, outer),
                        lines_points(layer.lines@.take(j as int)),
                        layer.lines@[j as int].points@,
                    );
                }
                j = j + 1;
            }
            proof {
                assert(layer.lines@.take(layer.lines@.len() as int) =~= layer.lines@);
                let taken = page.layers@.take(k + 1);
                assert(taken.drop_last() =~= page.layers@.take(k as int));
                assert(taken.last() == page.layers@[k as int]);
                lemma_rect_enclose_points_append(b0, outer, lines_points(layer.lines@));
            }
            k = k + 1;
        }
        proof {
            assert(page.layers@.take(page.layers@.len() as int) =~= page.layers@);
        }
        b
    }
}

} // verus!
