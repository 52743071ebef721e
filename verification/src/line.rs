//! Directed line segments on the lattice: the points a segment passes
//! through, the orientation predicate, and the segment-intersection policy.

use vstd::prelude::*;
use vstd::math::abs;

use crate::coordinate::SigilCoordinate;
use crate::numeric::{spec_gcd, gcd_u32, lemma_gcd_zero, lemma_gcd_divides, lemma_div_exact};

verus! {

/// A directed segment drawn between two lattice coordinates.
#[derive(Clone, Copy, PartialEq, Eq, Structural, Debug)]
pub struct Line {
    pub start: SigilCoordinate,
    pub end: SigilCoordinate,
}

/// How three points turn when visited in order.
#[derive(Clone, Copy, PartialEq, Eq, Structural, Debug)]
pub enum Orientation {
    Collinear,
    Clockwise,
    CounterClockwise,
}

/// The 2D cross product `(b - a) x (c - b)`, negated to match the
/// clockwise-positive sign convention used throughout.
pub open spec fn cross_of(a: (int, int), b: (int, int), c: (int, int)) -> int {
    (b.1 - a.1) * (c.0 - b.0) - (b.0 - a.0) * (c.1 - b.1)
}

/// Turn classification: zero cross product means collinear, positive means
/// clockwise, negative means counter-clockwise.
pub open spec fn spec_orientation(a: (int, int), b: (int, int), c: (int, int)) -> Orientation {
    let v = cross_of(a, b, c);
    if v == 0 {
        Orientation::Collinear
    } else if v > 0 {
        Orientation::Clockwise
    } else {
        Orientation::CounterClockwise
    }
}

/// Classifies the turn taken by the path `a`, `b`, `c`, exactly, in integer
/// arithmetic.
pub fn orientation(a: SigilCoordinate, b: SigilCoordinate, c: SigilCoordinate) -> (r: Orientation)
    ensures
        r == spec_orientation(a@, b@, c@),
{
    let f1: i64 = b.y as i64 - a.y as i64;
    let f2: i64 = c.x as i64 - b.x as i64;
    let f3: i64 = b.x as i64 - a.x as i64;
    let f4: i64 = c.y as i64 - b.y as i64;
    proof {
        lemma_product_bound(f1 as int, f2 as int);
        lemma_product_bound(f3 as int, f4 as int);
    }
    let v: i128 = (f1 as i128) * (f2 as i128) - (f3 as i128) * (f4 as i128);
    if v == 0 {
        Orientation::Collinear
    } else if v > 0 {
        Orientation::Clockwise
    } else {
        Orientation::CounterClockwise
    }
}

/// The product of two values the size of an `i32` difference stays far
/// inside the range of an `i128`.
proof fn lemma_product_bound(a: int, b: int)
    requires
        -0x1_0000_0000 <= a <= 0x1_0000_0000,
        -0x1_0000_0000 <= b <= 0x1_0000_0000,
    ensures
        -0x1_0000_0000_0000_0000_0000 <= a * b <= 0x1_0000_0000_0000_0000_0000,
{
    assert(-0x1_0000_0000_0000_0000_0000 <= a * b <= 0x1_0000_0000_0000_0000_0000)
        by (nonlinear_arith)
        requires
            -0x1_0000_0000 <= a <= 0x1_0000_0000,
            -0x1_0000_0000 <= b <= 0x1_0000_0000,
    ;
}

/// Horizontal displacement of a segment.
pub open spec fn delta_x(l: Line) -> int {
    l.end.x - l.start.x
}

/// Vertical displacement of a segment.
pub open spec fn delta_y(l: Line) -> int {
    l.end.y - l.start.y
}

/// Number of lattice steps along a segment: the greatest common divisor of
/// the displacement magnitudes (zero for a degenerate segment).
pub open spec fn step_count(l: Line) -> nat {
    spec_gcd(abs(delta_x(l)) as nat, abs(delta_y(l)) as nat)
}

/// The `i`-th lattice point touched by a segment, counting from the start.
/// The step is the displacement reduced by the step count.
pub open spec fn point_on(l: Line, i: int) -> (int, int) {
    (
        l.start.x + i * (delta_x(l) / step_count(l) as int),
        l.start.y + i * (delta_y(l) / step_count(l) as int),
    )
}

/// Whether a segment passes through the given coordinate.
pub open spec fn touches(l: Line, c: SigilCoordinate) -> bool {
    exists|i: int| 0 <= i <= step_count(l) && point_on(l, i) == c@
}

/// The first point of a segment is its start; the last is its end.
pub proof fn lemma_line_points_ends(l: Line)
    ensures
        point_on(l, 0) == l.start@,
        point_on(l, step_count(l) as int) == l.end@,
{
    let ax = abs(delta_x(l));
    let ay = abs(delta_y(l));
    let g = step_count(l) as int;
    if l.start@ == l.end@ {
        assert(ax == 0 && ay == 0);
        assert(g == 0);
    } else {
        lemma_gcd_zero(ax as nat, ay as nat);
        lemma_gcd_divides(ax as nat, ay as nat);
        lemma_abs_div_exact(delta_x(l), g);
        lemma_abs_div_exact(delta_y(l), g);
    }
}

/// If `d` divides the magnitude of `x` then `g * (x / g) == x`, signs
/// included.
proof fn lemma_abs_div_exact(x: int, g: int)
    requires
        g > 0,
        abs(x) as int % g == 0,
    ensures
        g * (x / g) == x,
        x >= 0 ==> x / g >= 0,
        x < 0 ==> x / g <= 0,
        abs(x / g) as int == abs(x) as int / g,
{
    if x >= 0 {
        lemma_div_exact(x, g);
        vstd::arithmetic::div_mod::lemma_div_pos_is_pos(x, g);
    } else {
        lemma_div_exact(-x, g);
        let k = (-x) / g;
        vstd::arithmetic::div_mod::lemma_div_pos_is_pos(-x, g);
        assert(g * (-k) == -(g * k)) by (nonlinear_arith);
        assert(x == g * (-k));
        vstd::arithmetic::div_mod::lemma_div_multiples_vanish(-k, g);
        assert(x / g == -k);
    }
}

impl Line {
    /// Every lattice coordinate this segment touches, in order from `start`
    /// to `end` inclusive: the displacement is reduced by the greatest
    /// common divisor of its magnitudes and walked one step at a time.
    /// A degenerate segment yields its single point.
    #[verifier::loop_isolation(false)]
    pub fn coordinates(&self) -> (r: Vec<SigilCoordinate>)
        ensures
            r@.len() == step_count(*self) + 1,
            forall|i: int| 0 <= i < r@.len() ==> r@[i]@ == point_on(*self, i),
    {
        let mut result: Vec<SigilCoordinate> = Vec::new();
        result.push(self.start);
        if self.start.x == self.end.x && self.start.y == self.end.y {
            proof {
                assert(step_count(*self) == 0);
                assert(result@[0]@ == point_on(*self, 0));
            }
            return result;
        }
        let dx: i64 = self.end.x as i64 - self.start.x as i64;
        let dy: i64 = self.end.y as i64 - self.start.y as i64;
        let ax: u32 = if dx < 0 {
            (-dx) as u32
        } else {
            dx as u32
        };
        let ay: u32 = if dy < 0 {
            (-dy) as u32
        } else {
            dy as u32
        };
        let g: u32 = gcd_u32(ax, ay);
        proof {
            lemma_gcd_zero(ax as nat, ay as nat);
            lemma_gcd_divides(ax as nat, ay as nat);
        }
        let sxm: u32 = ax / g;
        let sym: u32 = ay / g;
        let sx: i64 = if dx < 0 {
            -(sxm as i64)
        } else {
            sxm as i64
        };
        let sy: i64 = if dy < 0 {
            -(sym as i64)
        } else {
            sym as i64
        };
        proof {
            lemma_abs_div_exact(dx as int, g as int);
            lemma_abs_div_exact(dy as int, g as int);
            assert(sx as int == delta_x(*self) / step_count(*self) as int);
            assert(sy as int == delta_y(*self) / step_count(*self) as int);
        }
        let ghost gi = g as int;
        proof {
            assert(result@[0]@ == point_on(*self, 0));
        }
        let mut i: u64 = 1;
        while i <= g as u64
            invariant
                1 <= i <= g as u64 + 1,
                result@.len() == i,
                forall|j: int| 0 <= j < i ==> result@[j]@ == point_on(*self, j),
            decreases g + 1 - i,
        {
            proof {
                lemma_point_in_box(self.start.x as int, dx as int, sx as int, gi, i as int);
                lemma_point_in_box(self.start.y as int, dy as int, sy as int, gi, i as int);
            }
            let px: i64 = self.start.x as i64 + (i as i64) * sx;
            let py: i64 = self.start.y as i64 + (i as i64) * sy;
            result.push(SigilCoordinate { x: px as i32, y: py as i32 });
            i = i + 1;
        }
        result
    }
}

/// Whether point `b` lies inside the bounding box of points `a` and `c`.
pub open spec fn on_segment(a: (int, int), b: (int, int), c: (int, int)) -> bool {
    &&& b.0 <= vstd::math::max(a.0, c.0)
    &&& b.0 >= vstd::math::min(a.0, c.0)
    &&& b.1 <= vstd::math::max(a.1, c.1)
    &&& b.1 >= vstd::math::min(a.1, c.1)
}

/// Whether the bounding boxes of two segments touch at most edge-to-edge:
/// on each axis, one segment's range ends where the other's begins (or they
/// are disjoint altogether).
pub open spec fn boxes_detached(a: Line, b: Line) -> bool {
    &&& (vstd::math::min(a.start.x as int, a.end.x as int) >= vstd::math::max(
        b.start.x as int,
        b.end.x as int,
    ) || vstd::math::max(a.start.x as int, a.end.x as int) <= vstd::math::min(
        b.start.x as int,
        b.end.x as int,
    ))
    &&& (vstd::math::min(a.start.y as int, a.end.y as int) >= vstd::math::max(
        b.start.y as int,
        b.end.y as int,
    ) || vstd::math::max(a.start.y as int, a.end.y as int) <= vstd::math::min(
        b.start.y as int,
        b.end.y as int,
    ))
}

/// The segment-intersection policy. Two segments intersect when they cross
/// or overlap, with two deliberate exemptions: a pair that could be pulled
/// apart by moving a single endpoint off the other's carrier line does not
/// count (this lets chains meet point-to-point), and collinear segments
/// whose boxes merely touch end-to-end do not count either.
pub open spec fn spec_intersects(l1: Line, l2: Line) -> bool {
    let o1 = spec_orientation(l1.start@, l1.end@, l2.start@);
    let o2 = spec_orientation(l1.start@, l1.end@, l2.end@);
    let o3 = spec_orientation(l2.start@, l2.end@, l1.start@);
    let o4 = spec_orientation(l2.start@, l2.end@, l1.end@);
    if (o1 == Orientation::Collinear) != (o2 == Orientation::Collinear) {
        false
    } else if (o3 == Orientation::Collinear) != (o4 == Orientation::Collinear) {
        false
    } else if o1 == Orientation::Collinear && o2 == Orientation::Collinear && boxes_detached(
        l2,
        l1,
    ) {
        false
    } else if o2 == Orientation::Collinear && o3 == Orientation::Collinear && boxes_detached(
        l1,
        l2,
    ) {
        false
    } else if o1 != o2 && o3 != o4 {
        true
    } else if o1 == Orientation::Collinear && on_segment(l1.start@, l2.start@, l1.end@) {
        true
    } else if o2 == Orientation::Collinear && on_segment(l1.start@, l2.end@, l1.end@) {
        true
    } else if o3 == Orientation::Collinear && on_segment(l2.start@, l1.start@, l2.end@) {
        true
    } else if o4 == Orientation::Collinear && on_segment(l2.start@, l1.end@, l2.end@) {
        true
    } else {
        false
    }
}

/// The smaller of two values.
fn min_i32(a: i32, b: i32) -> (r: i32)
    ensures
        r as int == vstd::math::min(a as int, b as int),
{
    if a < b {
        a
    } else {
        b
    }
}

/// The larger of two values.
fn max_i32(a: i32, b: i32) -> (r: i32)
    ensures
        r as int == vstd::math::max(a as int, b as int),
{
    if a > b {
        a
    } else {
        b
    }
}

/// Whether point `b` lies inside the bounding box of points `a` and `c`.
fn on_segment_exec(a: SigilCoordinate, b: SigilCoordinate, c: SigilCoordinate) -> (r: bool)
    ensures
        r == on_segment(a@, b@, c@),
{
    b.x <= max_i32(a.x, c.x) && b.x >= min_i32(a.x, c.x) && b.y <= max_i32(a.y, c.y) && b.y
        >= min_i32(a.y, c.y)
}

/// Whether the bounding boxes of segments `a` and `b` touch at most
/// edge-to-edge.
fn boxes_detached_exec(a: &Line, b: &Line) -> (r: bool)
    ensures
        r == boxes_detached(*a, *b),
{
    (min_i32(a.start.x, a.end.x) >= max_i32(b.start.x, b.end.x) || max_i32(a.start.x, a.end.x)
        <= min_i32(b.start.x, b.end.x)) && (min_i32(a.start.y, a.end.y) >= max_i32(
        b.start.y,
        b.end.y,
    ) || max_i32(a.start.y, a.end.y) <= min_i32(b.start.y, b.end.y))
}

impl Line {
    /// Segment-intersection test via the four orientation triples, with the
    /// two exemptions of [`spec_intersects`]: one-point detachment and
    /// collinear end-to-end extension.
    pub fn intersects(&self, other: &Self) -> (r: bool)
        ensures
            r == spec_intersects(*self, *other),
    {
        let o1 = orientation(self.start, self.end, other.start);
        let o2 = orientation(self.start, self.end, other.end);
        let o3 = orientation(other.start, other.end, self.start);
        let o4 = orientation(other.start, other.end, self.end);

        // A pair that shares only one point with the other's carrier line
        // can be detached by moving that point: not an intersection.
        if (o1 == Orientation::Collinear) != (o2 == Orientation::Collinear) {
            return false;
        }
        if (o3 == Orientation::Collinear) != (o4 == Orientation::Collinear) {
            return false;
        }

        // Collinear segments that only extend one another end-to-end.
        if o1 == Orientation::Collinear && o2 == Orientation::Collinear
            && boxes_detached_exec(other, self) {
            return false;
        }
        if o2 == Orientation::Collinear && o3 == Orientation::Collinear
            && boxes_detached_exec(self, other) {
            return false;
        }

        // General case: each segment's endpoints fall on opposite sides of
        // the other.
        if o1 != o2 && o3 != o4 {
            return true;
        }

        // Collinear containment special cases.
        if o1 == Orientation::Collinear && on_segment_exec(self.start, other.start, self.end) {
            return true;
        }
        if o2 == Orientation::Collinear && on_segment_exec(self.start, other.end, self.end) {
            return true;
        }
        if o3 == Orientation::Collinear && on_segment_exec(other.start, self.start, other.end) {
            return true;
        }
        if o4 == Orientation::Collinear && on_segment_exec(other.start, self.end, other.end) {
            return true;
        }

        false
    }
}

/// A partial walk along an axis stays between the two endpoints: with
/// `g * s == d` and `0 <= i <= g`, the value `b + i * s` lies between `b`
/// and `b + d`.
proof fn lemma_point_in_box(b: int, d: int, s: int, g: int, i: int)
    requires
        g >= 1,
        0 <= i <= g,
        g * s == d,
        i32::MIN <= b <= i32::MAX,
        i32::MIN <= b + d <= i32::MAX,
    ensures
        i32::MIN <= b + i * s <= i32::MAX,
        -abs(d) <= i * s <= abs(d) as int,
{
    if s >= 0 {
        assert(0 <= i * s <= g * s) by (nonlinear_arith)
            requires
                0 <= i <= g,
                s >= 0,
        ;
    } else {
        assert(g * s <= i * s <= 0) by (nonlinear_arith)
            requires
                0 <= i <= g,
                s < 0,
        ;
    }
}

} // verus!
