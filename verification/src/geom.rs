//! Stroke geometry: per-segment perpendicular offsets and the flat
//! quadrilateral coordinates that widen a polyline into renderable ink.
//!
//! For each consecutive point pair of a line, the direction vector is
//! rotated a quarter turn counter-clockwise and scaled to a target
//! distance, giving a displacement perpendicular to travel. Lengths are
//! integer square roots and the scaling is truncating division, so the
//! whole computation is exact integer arithmetic. A zero-length segment
//! (duplicate consecutive points) gets the zero vector as its offset, so
//! it still yields a (degenerate) quad rather than an error.

use crate::model::{Line, Point, MAX_COORD};
use vstd::arithmetic::div_mod::{lemma_div_nonincreasing, lemma_div_pos_is_pos};
use vstd::prelude::*;

verus! {

/// `r` is the integer square root of `n`.
pub open spec fn is_sqrt_floor(n: int, r: int) -> bool {
    &&& 0 <= r
    &&& r * r <= n
    &&& n < (r + 1) * (r + 1)
}

/// The integer square root (rounded down) of `n`.
pub open spec fn sqrt_floor(n: int) -> int {
    choose|r: int| is_sqrt_floor(n, r)
}

/// At most one integer qualifies as the rounded-down square root.
pub proof fn lemma_sqrt_floor_unique(n: int, a: int, b: int)
    requires
        is_sqrt_floor(n, a),
        is_sqrt_floor(n, b),
    ensures
        a == b,
{
    if a < b {
        assert((a + 1) * (a + 1) <= b * b) by (nonlinear_arith)
            requires
                0 <= a,
                0 <= b,
                a < b,
        ;
    }
    if b < a {
        assert((b + 1) * (b + 1) <= a * a) by (nonlinear_arith)
            requires
                0 <= a,
                0 <= b,
                b < a,
        ;
    }
}

/// A witness pins down the value of [`sqrt_floor`].
pub proof fn lemma_sqrt_floor_eq(n: int, r: int)
    requires
        is_sqrt_floor(n, r),
    ensures
        sqrt_floor(n) == r,
{
    assert(is_sqrt_floor(n, sqrt_floor(n)));
    lemma_sqrt_floor_unique(n, sqrt_floor(n), r);
}

/// Integer square root, rounded down.
fn isqrt(n: u64) -> (r: u64)
    ensures
        is_sqrt_floor(n as int, r as int),
{
    let mut lo: u64 = 0;
    let mut hi: u64 = 0x1_0000_0000;
    proof {
        assert(n < 0x1_0000_0000int * 0x1_0000_0000int);
    }
    while lo + 1 < hi
        invariant
            lo < hi <= 0x1_0000_0000u64,
            lo * lo <= n,
            n < hi * hi,
        decreases hi - lo,
    {
        let half: u64 = (hi - lo) / 2;
        proof {
            vstd::arithmetic::div_mod::lemma_div_is_strictly_smaller((hi - lo) as int, 2);
            vstd::arithmetic::div_mod::lemma_div_non_zero((hi - lo) as int, 2);
        }
        let mid: u64 = lo + half;
        proof {
            assert(mid * mid <= 0xffff_ffffu64 * 0xffff_ffffu64) by (nonlinear_arith)
                requires
                    mid <= 0xffff_ffffu64,
            ;
        }
        if mid * mid <= n {
            lo = mid;
        } else {
            hi = mid;
        }
    }
    proof {
        assert(hi == lo + 1);
    }
    lo
}

/// Division truncating toward zero (the sign-symmetric quotient).
pub open spec fn div_tz(n: int, d: int) -> int {
    if n >= 0 {
        n / d
    } else {
        -((-n) / d)
    }
}

/// Quotient of `n` by `d`, truncating toward zero.
fn div_trunc(n: i64, d: u64) -> (q: i64)
    requires
        1 <= d,
        i64::MIN < n,
    ensures
        q == div_tz(n as int, d as int),
        n >= 0 ==> 0 <= q <= n,
        n < 0 ==> n <= q <= 0,
{
    if n >= 0 {
        let m: u64 = n as u64;
        let q0: u64 = m / d;
        proof {
            lemma_div_nonincreasing(m as int, d as int);
            lemma_div_pos_is_pos(m as int, d as int);
        }
        q0 as i64
    } else {
        let m: u64 = (-n) as u64;
        let q0: u64 = m / d;
        proof {
            lemma_div_nonincreasing(m as int, d as int);
            lemma_div_pos_is_pos(m as int, d as int);
        }
        -(q0 as i64)
    }
}

/// A per-segment perpendicular displacement.
#[derive(Clone, Copy, Debug, PartialEq, Eq, Structural)]
pub struct Offset {
    pub x: i64,
    pub y: i64,
}

/// Squared length of the segment from `p` to `q`.
pub open spec fn sq_len(p: Point, q: Point) -> int {
    (q.x - p.x) * (q.x - p.x) + (q.y - p.y) * (q.y - p.y)
}

/// X component of the segment's perpendicular offset: the direction vector,
/// rotated a quarter turn counter-clockwise, scaled to `dist`. Zero-length
/// segments fall back to the zero vector.
pub open spec fn offset_x_spec(p: Point, q: Point, dist: int) -> int {
    let len = sqrt_floor(sq_len(p, q));
    if len == 0 {
        0
    } else {
        div_tz(-(q.y - p.y) * dist, len)
    }
}

/// Y component of the segment's perpendicular offset.
pub open spec fn offset_y_spec(p: Point, q: Point, dist: int) -> int {
    let len = sqrt_floor(sq_len(p, q));
    if len == 0 {
        0
    } else {
        div_tz((q.x - p.x) * dist, len)
    }
}

/// Number of renderable segments of a point sequence.
pub open spec fn seg_count(s: Seq<Point>) -> int {
    if s.len() < 2 {
        0
    } else {
        s.len() - 1
    }
}

/// The offset of one segment.
fn segment_offset(p: &Point, q: &Point, dist: i64) -> (o: Offset)
    requires
        p.wf(),
        q.wf(),
        0 <= dist <= MAX_COORD,
    ensures
        o.x == offset_x_spec(*p, *q, dist as int),
        o.y == offset_y_spec(*p, *q, dist as int),
        -0x200_0000_0000 <= o.x <= 0x200_0000_0000,
        -0x200_0000_0000 <= o.y <= 0x200_0000_0000,
{
    let dx: i64 = q.x - p.x;
    let dy: i64 = q.y - p.y;
    proof {
        assert(0 <= dx * dx + dy * dy <= 0x800_0000_0000 && 0 <= dx * dx && 0 <= dy * dy)
            by (nonlinear_arith)
            requires
                -0x20_0000 <= dx <= 0x20_0000,
                -0x20_0000 <= dy <= 0x20_0000,
        ;
    }
    let sq2: i64 = dx * dx + dy * dy;
    let sq: u64 = sq2 as u64;
    let len: u64 = isqrt(sq);
    proof {
        lemma_sqrt_floor_eq(sq as int, len as int);
        assert(sq_len(*p, *q) == sq as int);
    }
    if len == 0 {
        Offset { x: 0, y: 0 }
    } else {
        proof {
            assert(-0x200_0000_0000 <= (-dy) * dist <= 0x200_0000_0000
                && -0x200_0000_0000 <= dx * dist <= 0x200_0000_0000) by (nonlinear_arith)
                requires
                    -0x20_0000 <= dx <= 0x20_0000,
                    -0x20_0000 <= dy <= 0x20_0000,
                    0 <= dist <= 0x10_0000,
            ;
        }
        let nx: i64 = -dy * dist;
        let ny: i64 = dx * dist;
        let ox: i64 = div_trunc(nx, len);
        let oy: i64 = div_trunc(ny, len);
        Offset { x: ox, y: oy }
    }
}

impl Line {
    /// One perpendicular displacement per consecutive point pair, each
    /// scaled to `offset_distance`.
    pub fn offsets(&self, offset_distance: i64) -> (r: Vec<Offset>)
        requires
            self.wf(),
            0 <= offset_distance <= MAX_COORD,
        ensures
            r@.len() == seg_count(self.points@),
            forall|i: int|
                0 <= i < r@.len() ==> {
                    let o = #[trigger] r@[i];
                    &&& o.x == offset_x_spec(
                        self.points@[i],
                        self.points@[i + 1],
                        offset_distance as int,
                    )
                    &&& o.y == offset_y_spec(
                        self.points@[i],
                        self.points@[i + 1],
                        offset_distance as int,
                    )
                    &&& -0x200_0000_0000 <= o.x <= 0x200_0000_0000
                    &&& -0x200_0000_0000 <= o.y <= 0x200_0000_0000
                },
    {
        let mut r: Vec<Offset> = Vec::new();
        if self.points.len() < 2 {
            return r;
        }
        let n: usize = self.points.len() - 1;
        let mut i: usize = 0;
        while i < n
            invariant
                self.wf(),
                0 <= offset_distance <= MAX_COORD,
                n == self.points@.len() - 1,
                i <= n,
                r@.len() == i,
                forall|k: int|
                    0 <= k < i ==> {
                        let o = #[trigger] r@[k];
                        &&& o.x == offset_x_spec(
                            self.points@[k],
                            self.points@[k + 1],
                            offset_distance as int,
                        )
                        &&& o.y == offset_y_spec(
                            self.points@[k],
                            self.points@[k + 1],
                            offset_distance as int,
                        )
                        &&& -0x200_0000_0000 <= o.x <= 0x200_0000_0000
                        &&& -0x200_0000_0000 <= o.y <= 0x200_0000_0000
                    },
            decreases n - i,
        {
            let o = segment_offset(&self.points[i], &self.points[i + 1], offset_distance);
            r.push(o);
            i = i + 1;
        }
        r
    }
}

/// Target offset distance of a line: half the stroke width of its first
/// point, or zero for an empty line.
pub open spec fn line_offset_dist(s: Seq<Point>) -> int {
    if s.len() == 0 {
        0
    } else {
        (s[0].width as int) / 2
    }
}

/// The eight coordinates of segment `i`'s quad stand at `coords[8*i..]`:
/// start plus offset, end plus offset, end minus offset, start minus
/// offset, x before y.
pub open spec fn quad_at(coords: Seq<i64>, pts: Seq<Point>, i: int) -> bool {
    let d = line_offset_dist(pts);
    let ox = offset_x_spec(pts[i], pts[i + 1], d);
    let oy = offset_y_spec(pts[i], pts[i + 1], d);
    &&& coords[8 * i] == pts[i].x + ox
    &&& coords[8 * i + 1] == pts[i].y + oy
    &&& coords[8 * i + 2] == pts[i + 1].x + ox
    &&& coords[8 * i + 3] == pts[i + 1].y + oy
    &&& coords[8 * i + 4] == pts[i + 1].x - ox
    &&& coords[8 * i + 5] == pts[i + 1].y - oy
    &&& coords[8 * i + 6] == pts[i].x - ox
    &&& coords[8 * i + 7] == pts[i].y - oy
}

/// Flat quadrilateral coordinates enclosing each segment of `line`: eight
/// values (four corners, x then y) per segment, so the length is always a
/// multiple of eight; an empty or single-point line yields no coordinates.
pub fn segment_quads(line: &Line) -> (coords: Vec<i64>)
    requires
        line.wf(),
    ensures
        coords@.len() == 8 * seg_count(line.points@),
        forall|i: int| 0 <= i < seg_count(line.points@) ==> #[trigger] quad_at(
            coords@,
            line.points@,
            i,
        ),
{
    let offset_distance: i64 = if line.points.is_empty() {
        0
    } else {
        (line.points[0].width / 2) as i64
    };
    let offsets = line.offsets(offset_distance);
    let mut coords: Vec<i64> = Vec::new();
    let mut i: usize = 0;
    while i < offsets.len()
        invariant
            line.wf(),
            offsets@.len() == seg_count(line.points@),
            offset_distance == line_offset_dist(line.points@),
            forall|k: int|
                0 <= k < offsets@.len() ==> {
                    let o = #[trigger] offsets@[k];
                    &&& o.x == offset_x_spec(
                        line.points@[k],
                        line.points@[k + 1],
                        offset_distance as int,
                    )
                    &&& o.y == offset_y_spec(
                        line.points@[k],
                        line.points@[k + 1],
                        offset_distance as int,
                    )
                    &&& -0x200_0000_0000 <= o.x <= 0x200_0000_0000
                    &&& -0x200_0000_0000 <= o.y <= 0x200_0000_0000
                },
            i <= offsets@.len(),
            coords@.len() == 8 * i,
            forall|k: int| 0 <= k < i ==> #[trigger] quad_at(coords@, line.points@, k),
        decreases offsets@.len() - i,
    {
        let p1 = &line.points[i];
        let p2 = &line.points[i + 1];
        let ox: i64 = offsets[i].x;
        let oy: i64 = offsets[i].y;
        let ghost before = coords@;
        coords.push(p1.x + ox);
        coords.push(p1.y + oy);
        coords.push(p2.x + ox);
        coords.push(p2.y + oy);
        coords.push(p2.x - ox);
        coords.push(p2.y - oy);
        coords.push(p1.x - ox);
        coords.push(p1.y - oy);
        proof {
            assert(before.len() == 8 * i);
            assert(forall|j: int| 0 <= j < before.len() ==> coords@[j] == before[j]);
            assert(quad_at(coords@, line.points@, i as int));
            assert forall|k: int| 0 <= k < i implies #[trigger] quad_at(
                coords@,
                line.points@,
                k,
            ) by {
                assert(quad_at(before, line.points@, k));
                assert(8 * k + 7 < before.len());
            }
        }
        i = i + 1;
    }
    coords
}

} // verus!
