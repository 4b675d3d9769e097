//! Points in the plane and the rounded Euclidean distance between them.

use vstd::prelude::*;

verus! {

/// A city: a point `(x, y)` with integer coordinates.
#[derive(Copy, Clone, Debug, PartialEq, Eq, Structural)]
pub struct Coordinate(pub i32, pub i32);

/// Cities are points; a city is referred to by its index in the input list.
pub type City = Coordinate;

/// The input list of cities.
pub type Cities = Vec<Coordinate>;

/// Squared Euclidean distance between two points.
pub open spec fn dist_sq(a: Coordinate, b: Coordinate) -> int {
    let dx = a.0 - b.0;
    let dy = a.1 - b.1;
    dx * dx + dy * dy
}

/// `r` is the integer nearest to the square root of `s`, that is
/// `r - 1/2 <= sqrt(s) < r + 1/2`. For an integer `s` the square root is
/// never exactly halfway between two integers, so no tie arises.
pub open spec fn is_rounded_root(s: int, r: int) -> bool {
    &&& 0 <= r
    &&& s <= r * r + r
    &&& (r == 0 || r * r - r < s)
}

/// The square root of `s`, rounded to the nearest integer.
pub open spec fn round_sqrt(s: int) -> int {
    choose|r: int| #[trigger] is_rounded_root(s, r)
}

/// The cost of travelling between two cities: the Euclidean distance,
/// rounded to the nearest integer.
pub open spec fn distance(a: Coordinate, b: Coordinate) -> int {
    round_sqrt(dist_sq(a, b))
}

/// Every non-negative integer has a rounded square root.
pub proof fn lemma_rounded_root_exists(s: int)
    requires
        0 <= s,
    ensures
        exists|r: int| #[trigger] is_rounded_root(s, r),
    decreases s,
{
    if s == 0 {
        assert(is_rounded_root(0, 0));
    } else {
        lemma_rounded_root_exists(s - 1);
        let r = choose|r: int| #[trigger] is_rounded_root(s - 1, r);
        if s <= r * r + r {
            assert(is_rounded_root(s, r));
        } else {
            assert((r + 1) * (r + 1) - (r + 1) == r * r + r) by (nonlinear_arith);
            assert((r + 1) * (r + 1) + (r + 1) == r * r + 3 * r + 2) by (nonlinear_arith);
            assert(is_rounded_root(s, r + 1));
        }
    }
}

/// The rounded square root is unique.
pub proof fn lemma_rounded_root_unique(s: int, r1: int, r2: int)
    requires
        is_rounded_root(s, r1),
        is_rounded_root(s, r2),
    ensures
        r1 == r2,
{
    assert forall|a: int, b: int|
        #![auto]
        0 <= a < b && is_rounded_root(s, a) && is_rounded_root(s, b) implies false by {
        assert(b * b - b >= a * a + a) by (nonlinear_arith)
            requires
                0 <= a < b,
        ;
    }
    if r1 < r2 {
        assert(false);
    } else if r2 < r1 {
        assert(false);
    }
}

/// `round_sqrt` is the rounded square root of every non-negative integer.
pub proof fn lemma_round_sqrt(s: int)
    requires
        0 <= s,
    ensures
        is_rounded_root(s, round_sqrt(s)),
{
    lemma_rounded_root_exists(s);
}

/// The distance from a city to itself is zero, and the distance is the same
/// in both directions.
pub proof fn lemma_distance_symmetric(a: Coordinate, b: Coordinate)
    ensures
        distance(a, b) == distance(b, a),
        distance(a, a) == 0,
{
    let dx = a.0 - b.0;
    let dy = a.1 - b.1;
    assert(dx * dx == (-dx) * (-dx)) by (nonlinear_arith);
    assert(dy * dy == (-dy) * (-dy)) by (nonlinear_arith);
    assert(dist_sq(a, b) == dist_sq(b, a));
    assert(dist_sq(a, a) == 0);
    lemma_round_sqrt(0);
    lemma_rounded_root_unique(0, round_sqrt(0), 0);
}

/// Rounded square root of `s` by bisection on the smallest `r` with
/// `s <= r * r + r`.
fn round_sqrt_u128(s: u128) -> (r: u64)
    requires
        s < 0x4_0000_0000_0000_0000u128,
    ensures
        r as int == round_sqrt(s as int),
        r <= 0x4_0000_0000u64,
{
    let mut lo: u128 = 0;
    let mut hi: u128 = 0x4_0000_0000;
    assert(s <= hi * hi + hi) by (nonlinear_arith)
        requires
            hi == 0x4_0000_0000u128,
            s < 0x4_0000_0000_0000_0000u128,
    ;
    while lo < hi
        invariant
            lo <= hi <= 0x4_0000_0000u128,
            s <= hi * hi + hi,
            lo == 0 || lo * lo - lo < s,
        decreases hi - lo,
    {
        let mid: u128 = lo + (hi - lo) / 2;
        assert(mid * mid + mid <= 0x4_0000_0000u128 * 0x4_0000_0000u128 + 0x4_0000_0000u128)
            by (nonlinear_arith)
            requires
                mid <= 0x4_0000_0000u128,
        ;
        if s <= mid * mid + mid {
            hi = mid;
        } else {
            assert((mid + 1) * (mid + 1) - (mid + 1) == mid * mid + mid) by (nonlinear_arith);
            lo = mid + 1;
        }
    }
    proof {
        lemma_round_sqrt(s as int);
        lemma_rounded_root_unique(s as int, lo as int, round_sqrt(s as int));
    }
    lo as u64
}

/// Euclidean distance between two cities, rounded to the nearest integer.
pub fn euclidean_2d(c1: Coordinate, c2: Coordinate) -> (r: u64)
    ensures
        r as int == distance(c1, c2),
        r <= 0x4_0000_0000u64,
{
    let dx: i64 = c1.0 as i64 - c2.0 as i64;
    let dy: i64 = c1.1 as i64 - c2.1 as i64;
    let ax: u128 = if dx < 0 { (-dx) as u128 } else { dx as u128 };
    let ay: u128 = if dy < 0 { (-dy) as u128 } else { dy as u128 };
    assert(ax * ax == dx * dx && ay * ay == dy * dy) by (nonlinear_arith)
        requires
            ax == dx || ax == -dx,
            ay == dy || ay == -dy,
    ;
    assert(ax * ax + ay * ay < 0x4_0000_0000_0000_0000u128) by (nonlinear_arith)
        requires
            ax < 0x1_0000_0000u128,
            ay < 0x1_0000_0000u128,
    ;
    let s: u128 = ax * ax + ay * ay;
    round_sqrt_u128(s)
}

} // verus!
