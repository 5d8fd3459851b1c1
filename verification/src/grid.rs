//! Grid building: converts a center coordinate, a map size and a resolution
//! into two evenly spaced coordinate axes and their row-major cross product
//! of sample points.
//!
//! Coordinates are fixed point: one unit is one millionth of a degree.

use vstd::prelude::*;
use vstd::arithmetic::div_mod::{
    lemma_fundamental_div_mod, lemma_fundamental_div_mod_converse, lemma_div_multiples_vanish,
};

verus! {

/// Meters per degree of latitude in the local flat-Earth approximation.
pub const METERS_PER_LAT_DEGREE: i64 = 111000;

/// Fixed-point scale of coordinates: one unit is one millionth of a degree.
pub const COORD_SCALE: i64 = 1_000_000;

/// Half of `COORD_SCALE`, used to center the axes on the input coordinate.
pub const HALF_COORD_SCALE: i64 = 500_000;

/// Largest map size in meters that the grid builder accepts; keeps every
/// intermediate product comfortably inside `i64`.
pub const MAX_SIZE_M: i64 = 100_000_000;

/// Largest magnitude of a center coordinate, in millionths of a degree.
pub const MAX_CENTER_UDEG: i64 = 360_000_000;

/// Floor division of `n` by a positive divisor, agreeing with the
/// mathematical (Euclidean) `/` used in specifications.
fn floor_div(n: i64, d: i64) -> (q: i64)
    requires
        0 < d,
        i64::MIN < n,
    ensures
        q == n as int / d as int,
        n >= 0 ==> 0 <= q <= n,
        n < 0 ==> n <= q <= 0,
{
    if n >= 0 {
        let nn: u64 = n as u64;
        let dd: u64 = d as u64;
        let q0: u64 = nn / dd;
        proof {
            vstd::arithmetic::div_mod::lemma_div_nonincreasing(nn as int, dd as int);
            vstd::arithmetic::div_mod::lemma_div_pos_is_pos(nn as int, dd as int);
        }
        q0 as i64
    } else {
        let m: u64 = (-n) as u64;
        let dd: u64 = d as u64;
        let q0: u64 = m / dd;
        let r: u64 = m % dd;
        proof {
            vstd::arithmetic::div_mod::lemma_div_nonincreasing(m as int, dd as int);
            vstd::arithmetic::div_mod::lemma_div_pos_is_pos(m as int, dd as int);
            lemma_fundamental_div_mod(m as int, dd as int);
        }
        if r == 0 {
            proof {
                // n == d * (-q0), so n / d == -q0.
                lemma_div_multiples_vanish(-(q0 as int), d as int);
                assert(d as int * -(q0 as int) == -(d as int * (q0 as int))) by (nonlinear_arith);
            }
            -(q0 as i64)
        } else {
            proof {
                // n == (-q0 - 1) * d + (d - r) with 0 <= d - r < d.
                assert((-(q0 as int) - 1) * (d as int) + ((d as int) - (r as int)) == -((
                (d as int) * (q0 as int) + (r as int)))) by (nonlinear_arith);
                lemma_fundamental_div_mod_converse(
                    n as int,
                    d as int,
                    -(q0 as int) - 1,
                    (d as int) - (r as int),
                );
                // q0 < m, so -(q0) - 1 >= -m == n.
                assert((q0 as int) < m as int) by (nonlinear_arith)
                    requires
                        (d as int) * (q0 as int) + (r as int) == m as int,
                        0 < r < d,
                        0 <= q0,
                ;
            }
            -(q0 as i64) - 1
        }
    }
}

/// Number of points per axis: `floor(size_m / resolution_m)`.
pub open spec fn axis_len(size_m: int, resolution_m: int) -> int {
    size_m / resolution_m
}

/// Numerator of the offset of axis point `i` from the center, in
/// meter-scaled fixed point: `(0.5 * size_m - i * resolution_m) * COORD_SCALE`.
pub open spec fn axis_offset_num(size_m: int, resolution_m: int, i: int) -> int {
    size_m * HALF_COORD_SCALE - i * resolution_m * COORD_SCALE
}

/// Value of axis point `i`, in millionths of a degree: the center minus the
/// meter offset converted to degrees through `meters_per_degree`.
pub open spec fn axis_value(
    center_udeg: int,
    size_m: int,
    resolution_m: int,
    meters_per_degree: int,
    i: int,
) -> int {
    center_udeg - axis_offset_num(size_m, resolution_m, i) / meters_per_degree
}

/// Builds one coordinate axis of `floor(size_m / resolution_m)` points,
/// spaced `resolution_m` meters apart and centered on `center_udeg`.
///
/// `meters_per_degree` is the local flat-Earth conversion factor: the
/// latitude constant `METERS_PER_LAT_DEGREE` for the latitude axis, or that
/// constant shrunk by the cosine of the latitude for the longitude axis.
pub fn build_axis(
    center_udeg: i64,
    size_m: i64,
    resolution_m: i64,
    meters_per_degree: i64,
) -> (axis: Vec<i64>)
    requires
        0 < size_m <= MAX_SIZE_M,
        0 < resolution_m <= MAX_SIZE_M,
        0 < meters_per_degree <= METERS_PER_LAT_DEGREE,
        -MAX_CENTER_UDEG <= center_udeg <= MAX_CENTER_UDEG,
    ensures
        axis@.len() == axis_len(size_m as int, resolution_m as int),
        forall|i: int|
            0 <= i < axis@.len() ==> axis@[i] == axis_value(
                center_udeg as int,
                size_m as int,
                resolution_m as int,
                meters_per_degree as int,
                i,
            ),
        forall|i: int| 0 <= i && i + 1 < axis@.len() ==> #[trigger] axis@[i] < axis@[i + 1],
{
    let len_u: u64 = (size_m as u64) / (resolution_m as u64);
    proof {
        lemma_fundamental_div_mod(size_m as int, resolution_m as int);
        vstd::arithmetic::div_mod::lemma_div_nonincreasing(size_m as int, resolution_m as int);
        vstd::arithmetic::div_mod::lemma_div_pos_is_pos(size_m as int, resolution_m as int);
        // len * resolution_m <= size_m, hence every per-point product fits.
        assert((len_u as int) * (resolution_m as int) <= size_m as int) by (nonlinear_arith)
            requires
                size_m as int == (resolution_m as int) * (len_u as int) + (size_m as int
                    % resolution_m as int),
                size_m as int % resolution_m as int >= 0,
        ;
    }
    let len: usize = len_u as usize;
    let mut axis: Vec<i64> = Vec::new();
    let step: i64 = resolution_m * COORD_SCALE;
    let mut num: i64 = size_m * HALF_COORD_SCALE;
    let mut i: usize = 0;
    while i < len
        invariant
            0 <= i <= len,
            len == axis_len(size_m as int, resolution_m as int),
            (len as int) * (resolution_m as int) <= size_m as int,
            0 < size_m <= MAX_SIZE_M,
            0 < resolution_m <= MAX_SIZE_M,
            0 < meters_per_degree <= METERS_PER_LAT_DEGREE,
            -MAX_CENTER_UDEG <= center_udeg <= MAX_CENTER_UDEG,
            step == resolution_m * COORD_SCALE,
            num == axis_offset_num(size_m as int, resolution_m as int, i as int),
            axis@.len() == i,
            forall|k: int|
                0 <= k < i ==> axis@[k] == axis_value(
                    center_udeg as int,
                    size_m as int,
                    resolution_m as int,
                    meters_per_degree as int,
                    k,
                ),
        decreases len - i,
    {
        proof {
            // Bound the numerator: i * resolution_m <= len * resolution_m <= size_m.
            assert((i as int) * (resolution_m as int) * COORD_SCALE <= (len as int) * (
            resolution_m as int) * COORD_SCALE <= (size_m as int) * COORD_SCALE)
                by (nonlinear_arith)
                requires
                    0 <= i <= len,
                    0 < resolution_m,
                    (len as int) * (resolution_m as int) <= size_m as int,
                    COORD_SCALE == 1_000_000,
            ;
            assert((size_m as int) * COORD_SCALE <= MAX_SIZE_M as int * 1_000_000)
                by (nonlinear_arith)
                requires
                    0 < size_m <= MAX_SIZE_M,
                    COORD_SCALE == 1_000_000,
                    MAX_SIZE_M == 100_000_000,
            ;
            assert((size_m as int) * HALF_COORD_SCALE <= MAX_SIZE_M as int * 500_000)
                by (nonlinear_arith)
                requires
                    0 < size_m <= MAX_SIZE_M,
                    HALF_COORD_SCALE == 500_000,
                    MAX_SIZE_M == 100_000_000,
            ;
        }
        let off: i64 = floor_div(num, meters_per_degree);
        axis.push(center_udeg - off);
        proof {
            assert((i + 1) * (resolution_m as int) * COORD_SCALE == (i as int) * (
            resolution_m as int) * COORD_SCALE + (resolution_m as int) * COORD_SCALE)
                by (nonlinear_arith);
        }
        num = num - step;
        i = i + 1;
    }
    proof {
        assert forall|k: int| 0 <= k && k + 1 < axis@.len() implies #[trigger] axis@[k] < axis@[k
            + 1] by {
            lemma_axis_strictly_increasing(
                center_udeg as int,
                size_m as int,
                resolution_m as int,
                meters_per_degree as int,
                k,
            );
        }
    }
    axis
}

/// Two consecutive axis points are a strictly positive fixed-point step
/// apart: the axes are strictly increasing.
pub proof fn lemma_axis_strictly_increasing(
    center_udeg: int,
    size_m: int,
    resolution_m: int,
    meters_per_degree: int,
    i: int,
)
    requires
        0 < resolution_m,
        0 < meters_per_degree <= METERS_PER_LAT_DEGREE,
        0 <= i,
    ensures
        axis_value(center_udeg, size_m, resolution_m, meters_per_degree, i) < axis_value(
            center_udeg,
            size_m,
            resolution_m,
            meters_per_degree,
            i + 1,
        ),
{
    let d = meters_per_degree;
    let n1 = axis_offset_num(size_m, resolution_m, i);
    let n2 = axis_offset_num(size_m, resolution_m, i + 1);
    assert(n2 == n1 - resolution_m * COORD_SCALE) by {
        assert((i + 1) * resolution_m * COORD_SCALE == i * resolution_m * COORD_SCALE
            + resolution_m * COORD_SCALE) by (nonlinear_arith);
    };
    assert(resolution_m * COORD_SCALE >= COORD_SCALE) by (nonlinear_arith)
        requires
            resolution_m >= 1,
            COORD_SCALE == 1_000_000,
    ;
    lemma_fundamental_div_mod(n1, d);
    vstd::arithmetic::div_mod::lemma_mod_division_less_than_divisor(n1, d);
    lemma_fundamental_div_mod(n2, d);
    vstd::arithmetic::div_mod::lemma_mod_division_less_than_divisor(n2, d);
    // n2 <= n1 - d, so the quotient of n2 is strictly below that of n1.
    assert(n2 / d < n1 / d) by (nonlinear_arith)
        requires
            0 < d,
            n2 <= n1 - d,
            n1 == d * (n1 / d) + n1 % d,
            0 <= n1 % d < d,
            n2 == d * (n2 / d) + n2 % d,
            0 <= n2 % d < d,
    ;
}

/// The quotient of a sum is the sum of the quotients, up to one unit.
proof fn lemma_div_sum_bounds(a: int, b: int, d: int)
    requires
        0 < d,
    ensures
        a / d + b / d <= (a + b) / d <= a / d + b / d + 1,
{
    lemma_fundamental_div_mod(a, d);
    vstd::arithmetic::div_mod::lemma_mod_division_less_than_divisor(a, d);
    lemma_fundamental_div_mod(b, d);
    vstd::arithmetic::div_mod::lemma_mod_division_less_than_divisor(b, d);
    assert(d * (a / d) + d * (b / d) == d * (a / d + b / d)) by (nonlinear_arith);
    assert(d * (a / d + b / d + 1) == d * (a / d + b / d) + d) by (nonlinear_arith);
    if a % d + b % d < d {
        lemma_fundamental_div_mod_converse(a + b, d, a / d + b / d, a % d + b % d);
    } else {
        lemma_fundamental_div_mod_converse(a + b, d, a / d + b / d + 1, a % d + b % d - d);
    }
}

/// The axis is centered on the input coordinate: each pair of points taken
/// symmetrically from the two ends of the axis sums, up to one fixed-point
/// unit, to twice the center minus one converted step-sized offset `m`
/// (between one and two resolution steps, so each symmetric pair's midpoint
/// sits about half a step below the center, and the axis mean does too).
pub proof fn lemma_axis_centered(
    center_udeg: int,
    size_m: int,
    resolution_m: int,
    meters_per_degree: int,
    i: int,
)
    requires
        0 < size_m,
        0 < resolution_m,
        0 < meters_per_degree,
        0 <= i < axis_len(size_m, resolution_m),
    ensures
        ({
            let n = axis_len(size_m, resolution_m);
            let m = size_m * COORD_SCALE - (n - 1) * resolution_m * COORD_SCALE;
            let lo = axis_value(center_udeg, size_m, resolution_m, meters_per_degree, i);
            let hi = axis_value(center_udeg, size_m, resolution_m, meters_per_degree, n - 1 - i);
            &&& resolution_m * COORD_SCALE <= m < 2 * resolution_m * COORD_SCALE
            &&& 2 * center_udeg - m / meters_per_degree <= lo + hi <= 2 * center_udeg - m
                / meters_per_degree + 1
        }),
{
    let d = meters_per_degree;
    let n = axis_len(size_m, resolution_m);
    let j = n - 1 - i;
    let a = axis_offset_num(size_m, resolution_m, i);
    let b = axis_offset_num(size_m, resolution_m, j);
    let m = size_m * COORD_SCALE - (n - 1) * resolution_m * COORD_SCALE;
    assert(a + b == m) by (nonlinear_arith)
        requires
            a == size_m * HALF_COORD_SCALE - i * resolution_m * COORD_SCALE,
            b == size_m * HALF_COORD_SCALE - j * resolution_m * COORD_SCALE,
            m == size_m * COORD_SCALE - (n - 1) * resolution_m * COORD_SCALE,
            j == n - 1 - i,
            HALF_COORD_SCALE == 500_000,
            COORD_SCALE == 1_000_000,
    ;
    // n == size_m / resolution_m, so size_m - (n - 1) * resolution_m lies in
    // [resolution_m, 2 * resolution_m).
    lemma_fundamental_div_mod(size_m, resolution_m);
    vstd::arithmetic::div_mod::lemma_mod_division_less_than_divisor(size_m, resolution_m);
    assert(resolution_m * COORD_SCALE <= m < 2 * resolution_m * COORD_SCALE) by (nonlinear_arith)
        requires
            m == size_m * COORD_SCALE - (n - 1) * resolution_m * COORD_SCALE,
            size_m == resolution_m * n + size_m % resolution_m,
            0 <= size_m % resolution_m < resolution_m,
            0 < resolution_m,
            COORD_SCALE == 1_000_000,
    ;
    lemma_div_sum_bounds(a, b, d);
}

/// Row-major cross product: the point at flat index `k` pairs the longitude
/// at `k / lat_len` (outer, varying slower) with the latitude at
/// `k % lat_len` (inner, varying faster).
pub open spec fn cross_point(lon: Seq<i64>, lat: Seq<i64>, k: int) -> (i64, i64) {
    (lon[k / lat.len() as int], lat[k % lat.len() as int])
}

/// Builds the full sample-point set: the row-major cross product of the
/// longitude axis (outer) and the latitude axis (inner). Heights are later
/// matched to these points purely by index, so this ordering is part of the
/// contract.
pub fn build_positions(lon_axis: &Vec<i64>, lat_axis: &Vec<i64>) -> (points: Vec<(i64, i64)>)
    ensures
        points@.len() == lon_axis@.len() * lat_axis@.len(),
        forall|k: int|
            0 <= k < points@.len() ==> #[trigger] points@[k] == cross_point(
                lon_axis@,
                lat_axis@,
                k,
            ),
        forall|i: int, j: int|
            0 <= i < lon_axis@.len() && 0 <= j < lat_axis@.len() ==> points@[i * lat_axis@.len()
                + j] == (#[trigger] lon_axis@[i], #[trigger] lat_axis@[j]),
{
    let lat_len: usize = lat_axis.len();
    let lon_len: usize = lon_axis.len();
    let mut points: Vec<(i64, i64)> = Vec::new();
    let mut i: usize = 0;
    while i < lon_len
        invariant
            0 <= i <= lon_len,
            lon_len == lon_axis@.len(),
            lat_len == lat_axis@.len(),
            points@.len() == i * lat_len,
            forall|k: int|
                0 <= k < points@.len() ==> #[trigger] points@[k] == cross_point(
                    lon_axis@,
                    lat_axis@,
                    k,
                ),
        decreases lon_len - i,
    {
        let mut j: usize = 0;
        while j < lat_len
            invariant
                0 <= i < lon_len,
                0 <= j <= lat_len,
                lon_len == lon_axis@.len(),
                lat_len == lat_axis@.len(),
                points@.len() == i * lat_len + j,
                forall|k: int|
                    0 <= k < points@.len() ==> #[trigger] points@[k] == cross_point(
                        lon_axis@,
                        lat_axis@,
                        k,
                    ),
            decreases lat_len - j,
        {
            proof {
                assert((i as int) * (lat_len as int) + (lat_len as int) <= (lon_len as int) * (
                lat_len as int)) by (nonlinear_arith)
                    requires
                        0 <= i < lon_len,
                        0 < lat_len,
                ;
                lemma_fundamental_div_mod_converse(
                    (i as int) * (lat_len as int) + (j as int),
                    lat_len as int,
                    i as int,
                    j as int,
                );
            }
            points.push((lon_axis[i], lat_axis[j]));
            j = j + 1;
        }
        proof {
            assert((i as int) * (lat_len as int) + (lat_len as int) == ((i + 1) as int) * (
            lat_len as int)) by (nonlinear_arith);
        }
        i = i + 1;
    }
    proof {
        if lat_len == 0 {
            assert((lon_len as int) * 0 == 0) by (nonlinear_arith);
        }
        assert forall|i2: int, j2: int|
            0 <= i2 < lon_axis@.len() && 0 <= j2 < lat_axis@.len() implies points@[i2
            * lat_axis@.len() + j2] == (#[trigger] lon_axis@[i2], #[trigger] lat_axis@[j2]) by {
            assert(i2 * (lat_len as int) + j2 < (lon_len as int) * (lat_len as int))
                by (nonlinear_arith)
                requires
                    0 <= i2 < lon_len,
                    0 <= j2 < lat_len,
            ;
            assert(0 <= i2 * (lat_len as int) + j2) by (nonlinear_arith)
                requires
                    0 <= i2,
                    0 <= j2,
                    0 < lat_len,
            ;
            lemma_fundamental_div_mod_converse(
                i2 * (lat_len as int) + j2,
                lat_len as int,
                i2,
                j2,
            );
        }
    }
    points
}

/// The point set is a pure function of the two axes: any two sequences that
/// both satisfy the cross-product contract are equal, so point ordering is
/// deterministic and reproducible for identical inputs.
pub proof fn lemma_positions_deterministic(
    p1: Seq<(i64, i64)>,
    p2: Seq<(i64, i64)>,
    lon: Seq<i64>,
    lat: Seq<i64>,
)
    requires
        p1.len() == lon.len() * lat.len(),
        p2.len() == lon.len() * lat.len(),
        forall|k: int| 0 <= k < p1.len() ==> #[trigger] p1[k] == cross_point(lon, lat, k),
        forall|k: int| 0 <= k < p2.len() ==> #[trigger] p2[k] == cross_point(lon, lat, k),
    ensures
        p1 == p2,
{
    assert forall|k: int| 0 <= k < p1.len() implies p1[k] == p2[k] by {
        assert(p1[k] == cross_point(lon, lat, k));
        assert(p2[k] == cross_point(lon, lat, k));
    }
    assert(p1 =~= p2);
}

} // verus!
