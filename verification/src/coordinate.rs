//! Integer lattice coordinates and their mapping to continuous positions.
//!
//! A coordinate is a signed 2D lattice point. Continuous positions are kept
//! in whole world units: the lattice spacing is an integer scalar, so a
//! coordinate's position is exact and the nearest-lattice-point inverse can
//! be computed in integer arithmetic.

use vstd::prelude::*;

verus! {

/// Distance between two neighbouring lattice points, in world units.
pub const SIGIL_DISTANCE: i64 = 23;

/// A 2D integer lattice point identifying a rune slot.
#[derive(Clone, Copy, PartialEq, Eq, Structural, Debug, Hash)]
pub struct SigilCoordinate {
    pub x: i32,
    pub y: i32,
}

impl View for SigilCoordinate {
    type V = (int, int);

    open spec fn view(&self) -> (int, int) {
        (self.x as int, self.y as int)
    }
}

impl SigilCoordinate {
    pub fn new(x: i32, y: i32) -> (r: Self)
        ensures
            r.x == x,
            r.y == y,
    {
        SigilCoordinate { x, y }
    }

    /// The continuous position of this lattice point: the coordinate scaled
    /// by the lattice spacing, one world unit per axis component.
    pub fn position(&self) -> (r: (i64, i64))
        ensures
            r.0 == self.x as int * SIGIL_DISTANCE as int,
            r.1 == self.y as int * SIGIL_DISTANCE as int,
    {
        (self.x as i64 * SIGIL_DISTANCE, self.y as i64 * SIGIL_DISTANCE)
    }

    /// The nearest lattice point to a continuous position: per axis,
    /// `floor(p / spacing + 1/2)`, computed exactly over the integers.
    pub fn from_position(position: (i64, i64)) -> (r: Self)
        requires
            i32::MIN <= round_to_lattice(position.0 as int) <= i32::MAX,
            i32::MIN <= round_to_lattice(position.1 as int) <= i32::MAX,
        ensures
            r.x == round_to_lattice(position.0 as int),
            r.y == round_to_lattice(position.1 as int),
    {
        SigilCoordinate {
            x: round_axis(position.0),
            y: round_axis(position.1),
        }
    }
}

/// `floor(p / SIGIL_DISTANCE + 1/2)` as a single integer division.
pub open spec fn round_to_lattice(p: int) -> int {
    (2 * p + SIGIL_DISTANCE as int) / (2 * SIGIL_DISTANCE as int)
}

/// Rounds one axis of a continuous position to the nearest lattice index.
fn round_axis(p: i64) -> (r: i32)
    requires
        i32::MIN <= round_to_lattice(p as int) <= i32::MAX,
    ensures
        r == round_to_lattice(p as int),
{
    proof {
        let n = 2 * (p as int) + SIGIL_DISTANCE as int;
        let d = 2 * SIGIL_DISTANCE as int;
        vstd::arithmetic::div_mod::lemma_fundamental_div_mod(n, d);
        vstd::arithmetic::div_mod::lemma_mod_division_less_than_divisor(n, d);
        assert(n == d * (n / d) + n % d);
        assert(0 <= n % d < d);
        assert(i32::MIN <= n / d <= i32::MAX);
        assert(d * (i32::MIN as int) <= d * (n / d) <= d * (i32::MAX as int)) by (nonlinear_arith)
            requires
                d == 46,
                i32::MIN <= n / d <= i32::MAX,
        ;
        assert(46 * (i32::MIN as int) <= n <= 46 * (i32::MAX as int) + 45);
    }
    let numerator: i64 = 2 * p + SIGIL_DISTANCE;
    let denominator: i64 = 2 * SIGIL_DISTANCE;
    // Rust's `/` truncates toward zero; adjust to floor division.
    let q: i64 = numerator / denominator;
    let r: i64 = numerator % denominator;
    let floored: i64 = if r < 0 { q - 1 } else { q };
    floored as i32
}

/// The position map is injective and exactly inverted by rounding:
/// mapping a coordinate to its continuous position and back returns the
/// same coordinate.
pub proof fn lemma_position_round_trip(c: SigilCoordinate)
    ensures
        round_to_lattice(c.x as int * SIGIL_DISTANCE as int) == c.x as int,
        round_to_lattice(c.y as int * SIGIL_DISTANCE as int) == c.y as int,
{
    lemma_round_exact(c.x as int);
    lemma_round_exact(c.y as int);
}

proof fn lemma_round_exact(v: int)
    ensures
        round_to_lattice(v * SIGIL_DISTANCE as int) == v,
{
    let s = SIGIL_DISTANCE as int;
    assert(2 * (v * s) + s == v * (2 * s) + s) by (nonlinear_arith);
    vstd::arithmetic::div_mod::lemma_div_multiples_vanish_fancy(v, s, 2 * s);
}

} // verus!
