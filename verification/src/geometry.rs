//! Distances on the map.
//!
//! Longitude and latitude are taken as the two axes of a plane on which one
//! degree of either spans `FEET_PER_DEGREE` feet, the length of sixty nautical
//! miles. All distances are exact integers or their floors.

use vstd::prelude::*;
use crate::snapshot::Position;

verus! {

/// The feet that one degree spans on the map.
pub const FEET_PER_DEGREE: u64 = 364_567;

/// Coordinates are held in millionths of a degree.
pub const COORD_UNITS_PER_DEGREE: u64 = 1_000_000;

/// The square of the distance of two positions, in squared millionths of a
/// degree.
pub open spec fn distance_squared(a: Position, b: Position) -> int {
    (a.lon - b.lon) * (a.lon - b.lon) + (a.lat - b.lat) * (a.lat - b.lat)
}

/// Whether `root` is the square root of `n`, rounded down.
pub open spec fn is_floor_sqrt(n: int, root: int) -> bool {
    0 <= root && root * root <= n < (root + 1) * (root + 1)
}

/// The square root of `n`, rounded down.
pub open spec fn floor_sqrt_spec(n: int) -> int {
    choose|root: int| is_floor_sqrt(n, root)
}

/// A squared distance on the map, scaled so that its square root is a
/// number of feet.
pub open spec fn feet_squared(distance_squared: int) -> int {
    distance_squared * (FEET_PER_DEGREE * FEET_PER_DEGREE) / (COORD_UNITS_PER_DEGREE
        * COORD_UNITS_PER_DEGREE) as int
}

/// The whole feet in a distance on the map, given by its square.
pub open spec fn lateral_feet(distance_squared: int) -> int {
    floor_sqrt_spec(feet_squared(distance_squared))
}

/// Whether a distance on the map, given by its square, is no more than
/// `max_feet` feet.
pub open spec fn within_feet(distance_squared: int, max_feet: int) -> bool {
    distance_squared * (FEET_PER_DEGREE * FEET_PER_DEGREE) <= max_feet * max_feet * (
    COORD_UNITS_PER_DEGREE * COORD_UNITS_PER_DEGREE)
}

/// The largest squared distance on the map that is no more than `max_feet`
/// feet.
pub open spec fn reach_squared(max_feet: int) -> int {
    max_feet * max_feet * (COORD_UNITS_PER_DEGREE * COORD_UNITS_PER_DEGREE) / (FEET_PER_DEGREE
        * FEET_PER_DEGREE) as int
}

/// No number has two floors of its square root.
pub proof fn lemma_floor_sqrt_unique(n: int, a: int, b: int)
    requires
        is_floor_sqrt(n, a),
        is_floor_sqrt(n, b),
    ensures
        a == b,
{
    if a < b {
        assert((a + 1) * (a + 1) <= b * b) by (nonlinear_arith)
            requires
                0 <= a,
                a + 1 <= b,
        ;
    } else if b < a {
        assert((b + 1) * (b + 1) <= a * a) by (nonlinear_arith)
            requires
                0 <= b,
                b + 1 <= a,
        ;
    }
}

/// A root that passes `is_floor_sqrt` is the one that `floor_sqrt_spec` names.
pub proof fn lemma_floor_sqrt_is(n: int, root: int)
    requires
        is_floor_sqrt(n, root),
    ensures
        floor_sqrt_spec(n) == root,
{
    lemma_floor_sqrt_unique(n, root, floor_sqrt_spec(n));
}

/// No squared distance is negative.
pub proof fn lemma_distance_squared_is_not_negative(a: Position, b: Position)
    ensures
        0 <= distance_squared(a, b),
{
    let dx = a.lon - b.lon;
    let dy = a.lat - b.lat;
    assert(0 <= dx * dx) by (nonlinear_arith);
    assert(0 <= dy * dy) by (nonlinear_arith);
}

/// Every number from 0 on has a floor of its square root.
pub proof fn lemma_floor_sqrt_exists(n: int)
    requires
        0 <= n,
    ensures
        is_floor_sqrt(n, floor_sqrt_spec(n)),
    decreases n,
{
    if n == 0 {
        assert(is_floor_sqrt(0, 0));
    } else {
        lemma_floor_sqrt_exists(n - 1);
        let below = floor_sqrt_spec(n - 1);
        if (below + 1) * (below + 1) <= n {
            assert((below + 1) * (below + 1) == n);
            assert(n < (below + 2) * (below + 2)) by (nonlinear_arith)
                requires
                    (below + 1) * (below + 1) == n,
                    0 <= below,
            ;
            assert(is_floor_sqrt(n, below + 1));
        } else {
            assert(is_floor_sqrt(n, below));
        }
    }
}

/// A distance that is no more than `max_feet` feet has no more than
/// `max_feet` whole feet.
pub proof fn lemma_feet_within_reach(distance_squared: int, max_feet: int)
    requires
        0 <= max_feet,
        0 <= distance_squared,
        within_feet(distance_squared, max_feet),
    ensures
        0 <= lateral_feet(distance_squared) <= max_feet,
{
    let k: int = FEET_PER_DEGREE * FEET_PER_DEGREE;
    let u: int = COORD_UNITS_PER_DEGREE * COORD_UNITS_PER_DEGREE;
    assert(k == 132_909_097_489 && u == 1_000_000_000_000);
    let scaled = distance_squared * k;
    let bound = max_feet * max_feet;
    assert(0 <= scaled) by (nonlinear_arith)
        requires
            0 <= distance_squared,
            scaled == distance_squared * k,
            k > 0,
    ;
    assert(scaled <= bound * u);
    vstd::arithmetic::div_mod::lemma_div_is_ordered(scaled, bound * u, u);
    vstd::arithmetic::div_mod::lemma_div_multiples_vanish(bound, u);
    vstd::arithmetic::div_mod::lemma_div_pos_is_pos(scaled, u);
    let n = feet_squared(distance_squared);
    assert(n == scaled / u);
    assert(0 <= n <= bound);
    lemma_floor_sqrt_exists(n);
    let root = floor_sqrt_spec(n);
    if root > max_feet {
        assert(root * root >= (max_feet + 1) * (max_feet + 1)) by (nonlinear_arith)
            requires
                root >= max_feet + 1,
                max_feet >= 0,
        ;
        assert((max_feet + 1) * (max_feet + 1) > max_feet * max_feet) by (nonlinear_arith)
            requires
                max_feet >= 0,
        ;
    }
}

/// A squared distance is within the reach of `max_feet` exactly if the
/// distance is no more than `max_feet` feet.
pub proof fn lemma_reach_squared(distance_squared: int, max_feet: int)
    ensures
        distance_squared <= reach_squared(max_feet) <==> within_feet(distance_squared, max_feet),
{
    let k: int = FEET_PER_DEGREE * FEET_PER_DEGREE;
    let n: int = max_feet * max_feet * (COORD_UNITS_PER_DEGREE * COORD_UNITS_PER_DEGREE);
    assert(k == 132_909_097_489);
    let q = n / k;
    vstd::arithmetic::div_mod::lemma_fundamental_div_mod(n, k);
    vstd::arithmetic::div_mod::lemma_mod_bound(n, k);
    assert(n == k * q + n % k);
    if distance_squared <= q {
        assert(distance_squared * k <= q * k) by (nonlinear_arith)
            requires
                distance_squared <= q,
                k > 0,
        ;
        assert(q * k == k * q) by (nonlinear_arith);
    } else {
        assert(distance_squared * k >= (q + 1) * k) by (nonlinear_arith)
            requires
                distance_squared >= q + 1,
                k > 0,
        ;
        assert((q + 1) * k == k * q + k) by (nonlinear_arith);
    }
}

/// The square of the distance of two positions.
pub fn squared_distance(a: Position, b: Position) -> (d2: u128)
    ensures
        d2 == distance_squared(a, b),
        d2 < 0x2_0000_0000_0000_0000,
{
    let dx: i128 = a.lon as i128 - b.lon as i128;
    let dy: i128 = a.lat as i128 - b.lat as i128;
    assert(0 <= dx * dx <= 0xffff_ffff * 0xffff_ffff) by (nonlinear_arith)
        requires
            -0xffff_ffff <= dx <= 0xffff_ffff,
    ;
    assert(0 <= dy * dy <= 0xffff_ffff * 0xffff_ffff) by (nonlinear_arith)
        requires
            -0xffff_ffff <= dy <= 0xffff_ffff,
    ;
    let sum: i128 = dx * dx + dy * dy;
    sum as u128
}

/// The square root of `n`, rounded down.
pub fn floor_sqrt(n: u128) -> (root: u64)
    ensures
        is_floor_sqrt(n as int, root as int),
        root == floor_sqrt_spec(n as int),
{
    let mut low: u128 = 0;
    let mut high: u128 = 0x1_0000_0000_0000_0000;
    assert(high * high > n) by (nonlinear_arith)
        requires
            high == 0x1_0000_0000_0000_0000,
            n <= u128::MAX,
    ;
    while high - low > 1
        invariant
            low < high <= 0x1_0000_0000_0000_0000,
            low * low <= n < high * high,
        decreases high - low,
    {
        let mid: u128 = low + (high - low) / 2;
        assert(mid * mid <= 0xffff_ffff_ffff_ffff * 0xffff_ffff_ffff_ffff) by (nonlinear_arith)
            requires
                0 <= mid <= 0xffff_ffff_ffff_ffff,
        ;
        if mid * mid <= n {
            low = mid;
        } else {
            high = mid;
        }
    }
    proof {
        lemma_floor_sqrt_is(n as int, low as int);
    }
    low as u64
}

/// The whole feet in a distance on the map, given by its square.
pub fn feet_of(distance_squared: u128) -> (feet: u64)
    requires
        distance_squared < 0x2_0000_0000_0000_0000,
    ensures
        feet == lateral_feet(distance_squared as int),
{
    let feet: u128 = FEET_PER_DEGREE as u128;
    let units: u128 = COORD_UNITS_PER_DEGREE as u128;
    assert(feet == 364_567 && units == 1_000_000);
    let k: u128 = feet * feet;
    let u: u128 = units * units;
    assert(distance_squared * k <= 0x2_0000_0000_0000_0000 * 132_909_097_489) by (nonlinear_arith)
        requires
            distance_squared < 0x2_0000_0000_0000_0000,
            k == 132_909_097_489,
    ;
    floor_sqrt(distance_squared * k / u)
}

/// The largest squared distance on the map that is no more than `max_feet`
/// feet.
pub fn reach_of(max_feet: u32) -> (reach: u128)
    ensures
        reach == reach_squared(max_feet as int),
        reach <= i128::MAX,
        forall|distance_squared: int|
            distance_squared <= reach <==> #[trigger] within_feet(
                distance_squared,
                max_feet as int,
            ),
{
    let feet: u128 = FEET_PER_DEGREE as u128;
    let units: u128 = COORD_UNITS_PER_DEGREE as u128;
    assert(feet == 364_567 && units == 1_000_000);
    let k: u128 = feet * feet;
    let u: u128 = units * units;
    let m: u128 = max_feet as u128;
    assert(m * m <= 0xffff_ffff * 0xffff_ffff) by (nonlinear_arith)
        requires
            0 <= m <= 0xffff_ffff,
    ;
    assert(m * m * u <= 0xffff_ffff * 0xffff_ffff * 1_000_000_000_000) by (nonlinear_arith)
        requires
            0 <= m * m <= 0xffff_ffff * 0xffff_ffff,
            u == 1_000_000_000_000,
    ;
    let reach = m * m * u / k;
    assert forall|distance_squared: int|
        distance_squared <= reach <==> #[trigger] within_feet(
            distance_squared,
            max_feet as int,
        ) by {
        lemma_reach_squared(distance_squared, max_feet as int);
    }
    reach
}

} // verus!
