//! Squared distances between quantised vectors, and between a vector and a box.

use crate::bytes::{i16_from_le, le_i16};
use vstd::prelude::*;

verus! {

/// Number of coordinates of a vector.
pub const DIMS: usize = 14;

/// Number of coordinates of a vector padded to a full register.
pub const PADDED_DIMS: usize = 16;

/// Bytes of one stored vector: its coordinates and four bytes of padding.
pub const STRIDE: usize = 32;

/// Sum of the squared differences of the first `m` coordinates.
pub open spec fn partial_distance(a: Seq<i16>, b: Seq<i16>, m: nat) -> int
    decreases m,
{
    if m == 0 {
        0
    } else {
        partial_distance(a, b, (m - 1) as nat) + (a[m - 1] - b[m - 1]) * (a[m - 1] - b[m - 1])
    }
}

/// Squared Euclidean distance of two vectors.
pub open spec fn distance(a: Seq<i16>, b: Seq<i16>) -> int {
    partial_distance(a, b, DIMS as nat)
}

/// How far `q` lies outside `[lo, hi]` along one axis.
pub open spec fn gap(q: int, lo: int, hi: int) -> int {
    if q < lo {
        lo - q
    } else if q > hi {
        q - hi
    } else {
        0
    }
}

/// Sum of the squared gaps of the first `m` coordinates.
pub open spec fn partial_box_distance(q: Seq<i16>, lo: Seq<i16>, hi: Seq<i16>, m: nat) -> int
    decreases m,
{
    if m == 0 {
        0
    } else {
        let g = gap(q[m - 1] as int, lo[m - 1] as int, hi[m - 1] as int);
        partial_box_distance(q, lo, hi, (m - 1) as nat) + g * g
    }
}

/// Squared Euclidean distance of a vector from a box.
pub open spec fn box_distance(q: Seq<i16>, lo: Seq<i16>, hi: Seq<i16>) -> int {
    partial_box_distance(q, lo, hi, DIMS as nat)
}

/// Row `r` of a table that stores `DIMS` values per row.
pub open spec fn row(flat: Seq<i16>, r: int) -> Seq<i16> {
    flat.subrange(r * DIMS as int, r * DIMS as int + DIMS as int)
}

/// The vector whose coordinates start the byte sequence `record`.
pub open spec fn record_vector(record: Seq<u8>) -> Seq<i16> {
    Seq::new(DIMS as nat, |d: int| le_i16(record, 2 * d))
}

/// `v` lies in the box with corners `lo` and `hi`.
pub open spec fn in_box(v: Seq<i16>, lo: Seq<i16>, hi: Seq<i16>) -> bool {
    forall|d: int| 0 <= d < DIMS ==> lo[d] <= #[trigger] v[d] && v[d] <= hi[d]
}

/// The largest squared difference of two coordinates.
pub open spec fn max_term() -> int {
    0xffffint * 0xffff
}

proof fn lemma_square(x: int)
    requires
        -0xffff <= x <= 0xffff,
    ensures
        0 <= x * x <= max_term(),
{
    assert(0 <= x * x <= 0xffff * 0xffff) by (nonlinear_arith)
        requires
            -0xffff <= x <= 0xffff,
    ;
}

/// A partial distance is not negative and is bounded by the number of its terms.
pub proof fn partial_distance_bounds(a: Seq<i16>, b: Seq<i16>, m: nat)
    ensures
        0 <= partial_distance(a, b, m) <= m * max_term(),
    decreases m,
{
    if m > 0 {
        partial_distance_bounds(a, b, (m - 1) as nat);
        lemma_square(a[m - 1] - b[m - 1]);
        assert(m * max_term() == (m - 1) * max_term() + max_term()) by (nonlinear_arith);
    }
}

/// A partial box distance is not negative and is bounded by the number of its terms.
pub proof fn partial_box_distance_bounds(q: Seq<i16>, lo: Seq<i16>, hi: Seq<i16>, m: nat)
    ensures
        0 <= partial_box_distance(q, lo, hi, m) <= m * max_term(),
    decreases m,
{
    if m > 0 {
        partial_box_distance_bounds(q, lo, hi, (m - 1) as nat);
        lemma_square(gap(q[m - 1] as int, lo[m - 1] as int, hi[m - 1] as int));
        assert(m * max_term() == (m - 1) * max_term() + max_term()) by (nonlinear_arith);
    }
}

/// Partial distances depend on the coordinates they sum over only.
pub proof fn partial_distance_ext(
    a: Seq<i16>,
    b: Seq<i16>,
    a2: Seq<i16>,
    b2: Seq<i16>,
    m: nat,
)
    requires
        forall|d: int| 0 <= d < m ==> #[trigger] a[d] == a2[d],
        forall|d: int| 0 <= d < m ==> #[trigger] b[d] == b2[d],
    ensures
        partial_distance(a, b, m) == partial_distance(a2, b2, m),
    decreases m,
{
    if m > 0 {
        partial_distance_ext(a, b, a2, b2, (m - 1) as nat);
        assert(a[m - 1] == a2[m - 1] && b[m - 1] == b2[m - 1]);
    }
}

proof fn partial_distance_symmetric(a: Seq<i16>, b: Seq<i16>, m: nat)
    ensures
        partial_distance(a, b, m) == partial_distance(b, a, m),
    decreases m,
{
    if m > 0 {
        partial_distance_symmetric(a, b, (m - 1) as nat);
        let x = a[m - 1] - b[m - 1];
        let y = b[m - 1] - a[m - 1];
        assert(x * x == y * y) by (nonlinear_arith)
            requires
                x == -y,
        ;
    }
}

/// The distance is symmetric.
pub proof fn distance_symmetric(a: Seq<i16>, b: Seq<i16>)
    ensures
        distance(a, b) == distance(b, a),
{
    partial_distance_symmetric(a, b, DIMS as nat);
}

proof fn partial_distance_zero(a: Seq<i16>, b: Seq<i16>, m: nat)
    ensures
        partial_distance(a, b, m) == 0 <==> forall|d: int|
            0 <= d < m ==> #[trigger] a[d] == b[d],
    decreases m,
{
    if m > 0 {
        partial_distance_zero(a, b, (m - 1) as nat);
        partial_distance_bounds(a, b, (m - 1) as nat);
        let x = a[m - 1] - b[m - 1];
        assert(x * x >= 0 && (x * x == 0 <==> x == 0)) by (nonlinear_arith);
        if partial_distance(a, b, m) == 0 {
            assert forall|d: int| 0 <= d < m implies #[trigger] a[d] == b[d] by {
                if d == m - 1 {
                    assert(x == 0);
                }
            }
        } else {
            if forall|d: int| 0 <= d < m ==> #[trigger] a[d] == b[d] {
                assert(a[m - 1] == b[m - 1]);
            }
        }
    }
}

/// Two vectors are at distance zero exactly when all their coordinates agree; so a value that
/// stands for "missing" on both sides adds nothing.
pub proof fn distance_zero_iff_equal(a: Seq<i16>, b: Seq<i16>)
    ensures
        distance(a, b) == 0 <==> forall|d: int| 0 <= d < DIMS ==> #[trigger] a[d] == b[d],
{
    partial_distance_zero(a, b, DIMS as nat);
}

proof fn partial_distance_of_one_difference(a: Seq<i16>, b: Seq<i16>, d: int, m: nat)
    requires
        0 <= d < m,
        forall|e: int| 0 <= e < m && e != d ==> #[trigger] a[e] == b[e],
    ensures
        partial_distance(a, b, m) == (a[d] - b[d]) * (a[d] - b[d]),
    decreases m,
{
    if d == m - 1 {
        partial_distance_zero(a, b, (m - 1) as nat);
    } else {
        partial_distance_of_one_difference(a, b, d, (m - 1) as nat);
        assert(a[m - 1] == b[m - 1]);
    }
}

/// Where two vectors differ in one coordinate only, their distance is the square of that
/// difference; so a value that is missing on one side counts as far as it is off.
pub proof fn distance_of_one_difference(a: Seq<i16>, b: Seq<i16>, d: int)
    requires
        0 <= d < DIMS,
        forall|e: int| 0 <= e < DIMS && e != d ==> #[trigger] a[e] == b[e],
    ensures
        distance(a, b) == (a[d] - b[d]) * (a[d] - b[d]),
{
    partial_distance_of_one_difference(a, b, d, DIMS as nat);
}

proof fn partial_box_bounds_distance(
    q: Seq<i16>,
    v: Seq<i16>,
    lo: Seq<i16>,
    hi: Seq<i16>,
    m: nat,
)
    requires
        m <= DIMS,
        in_box(v, lo, hi),
    ensures
        partial_box_distance(q, lo, hi, m) <= partial_distance(q, v, m),
    decreases m,
{
    if m > 0 {
        partial_box_bounds_distance(q, v, lo, hi, (m - 1) as nat);
        let d = m - 1;
        assert(lo[d] <= v[d] <= hi[d]);
        let g = gap(q[d] as int, lo[d] as int, hi[d] as int);
        let x = q[d] - v[d];
        assert(g * g <= x * x) by (nonlinear_arith)
            requires
                0 <= g,
                g <= x || g <= -x,
        ;
    }
}

/// No vector inside a box is nearer to a query than the box itself.
pub proof fn box_distance_bounds_distance(q: Seq<i16>, v: Seq<i16>, lo: Seq<i16>, hi: Seq<i16>)
    requires
        in_box(v, lo, hi),
    ensures
        box_distance(q, lo, hi) <= distance(q, v),
{
    partial_box_bounds_distance(q, v, lo, hi, DIMS as nat);
}

/// Squared distance of `v` from row `ci` of the table `centroids`.
pub fn sq_dist_i16(v: &[i16; DIMS], centroids: &[i16], ci: usize) -> (d: i64)
    requires
        (ci + 1) * DIMS <= centroids.len(),
    ensures
        d == distance(v@, row(centroids@, ci as int)),
        0 <= d <= DIMS * max_term(),
{
    let base: usize = ci * DIMS;
    let ghost b = row(centroids@, ci as int);
    let mut d: i64 = 0;
    for k in 0..DIMS
        invariant
            (ci + 1) * DIMS <= centroids.len(),
            base == ci * DIMS,
            b == row(centroids@, ci as int),
            d == partial_distance(v@, b, k as nat),
            0 <= d <= k * max_term(),
    {
        let diff: i64 = v[k] as i64 - centroids[base + k] as i64;
        proof {
            assert(b[k as int] == centroids@[base + k]);
            lemma_square(diff as int);
            partial_distance_bounds(v@, b, (k + 1) as nat);
        }
        d += diff * diff;
    }
    d
}

/// Squared distance of `query` from the vector that starts `record`.
pub fn dist_scalar(query: &[i16; DIMS], record: &[u8]) -> (dist: i64)
    requires
        2 * DIMS <= record@.len(),
    ensures
        dist == distance(query@, record_vector(record@)),
        0 <= dist <= DIMS * max_term(),
{
    let ghost r = record_vector(record@);
    let mut dist: i64 = 0;
    for d in 0..DIMS
        invariant
            2 * DIMS <= record@.len(),
            r == record_vector(record@),
            dist == partial_distance(query@, r, d as nat),
            0 <= dist <= d * max_term(),
    {
        let off: usize = d * 2;
        let rv: i16 = i16_from_le(record[off], record[off + 1]);
        let diff: i64 = query[d] as i64 - rv as i64;
        proof {
            assert(r[d as int] == rv);
            lemma_square(diff as int);
            partial_distance_bounds(query@, r, (d + 1) as nat);
        }
        dist += diff * diff;
    }
    dist
}

/// Squared distance of `query` from box `ci` of the tables of box corners.
pub fn bbox_lower_bound(
    query: &[i16; DIMS],
    bbox_min: &[i16],
    bbox_max: &[i16],
    ci: usize,
) -> (lb: i64)
    requires
        (ci + 1) * DIMS <= bbox_min.len(),
        (ci + 1) * DIMS <= bbox_max.len(),
    ensures
        lb == box_distance(query@, row(bbox_min@, ci as int), row(bbox_max@, ci as int)),
        0 <= lb <= DIMS * max_term(),
{
    let base: usize = ci * DIMS;
    let ghost los = row(bbox_min@, ci as int);
    let ghost his = row(bbox_max@, ci as int);
    let mut lb: i64 = 0;
    for d in 0..DIMS
        invariant
            (ci + 1) * DIMS <= bbox_min.len(),
            (ci + 1) * DIMS <= bbox_max.len(),
            base == ci * DIMS,
            los == row(bbox_min@, ci as int),
            his == row(bbox_max@, ci as int),
            lb == partial_box_distance(query@, los, his, d as nat),
            0 <= lb <= d * max_term(),
    {
        let q: i32 = query[d] as i32;
        let lo: i32 = bbox_min[base + d] as i32;
        let hi: i32 = bbox_max[base + d] as i32;
        let diff: i32 = if q < lo {
            lo - q
        } else if q > hi {
            q - hi
        } else {
            0
        };
        proof {
            assert(los[d as int] == bbox_min@[base + d]);
            assert(his[d as int] == bbox_max@[base + d]);
            lemma_square(diff as int);
            partial_box_distance_bounds(query@, los, his, (d + 1) as nat);
        }
        lb += (diff as i64) * (diff as i64);
    }
    lb
}

/// `query` followed by zeros up to the width of a register.
pub open spec fn padded(query: Seq<i16>) -> Seq<i16> {
    Seq::new(PADDED_DIMS as nat, |d: int| if d < DIMS { query[d] } else { 0 })
}

/// Pads a query to the width of a register.
pub fn pad_query_i16(query: &[i16; DIMS]) -> (res: [i16; PADDED_DIMS])
    ensures
        res@ == padded(query@),
{
    let mut res: [i16; PADDED_DIMS] = [0i16; PADDED_DIMS];
    for d in 0..DIMS
        invariant
            forall|e: int| 0 <= e < d ==> #[trigger] res@[e] == query@[e],
            forall|e: int| d <= e < PADDED_DIMS ==> #[trigger] res@[e] == 0,
    {
        res[d] = query[d];
    }
    assert(res@ =~= padded(query@));
    res
}

/// The lanes of a record, padding included.
pub open spec fn record_lanes(record: Seq<u8>) -> Seq<i16> {
    Seq::new(PADDED_DIMS as nat, |d: int| le_i16(record, 2 * d))
}

/// `x` brought into the range of 16-bit numbers by wrapping around.
pub open spec fn wrap_i16(x: int) -> int {
    (x + 0x8000) % 0x1_0000 - 0x8000
}

/// `x` brought into the range of 32-bit numbers by wrapping around.
pub open spec fn wrap_i32(x: int) -> int {
    (x + 0x8000_0000) % 0x1_0000_0000 - 0x8000_0000
}

/// Sum of the squares of the wrapped differences of the first `m` lanes.
pub open spec fn lane_sum(a: Seq<i16>, b: Seq<i16>, m: nat) -> int
    decreases m,
{
    if m == 0 {
        0
    } else {
        let x = wrap_i16(a[m - 1] - b[m - 1]);
        lane_sum(a, b, (m - 1) as nat) + x * x
    }
}

/// Squared distance in register arithmetic: differences wrap to 16 bits, the sum to 32.
pub open spec fn lane_distance(a: Seq<i16>, b: Seq<i16>) -> int {
    wrap_i32(lane_sum(a, b, PADDED_DIMS as nat))
}

proof fn lane_sum_bounds(a: Seq<i16>, b: Seq<i16>, m: nat)
    ensures
        0 <= lane_sum(a, b, m) <= m * 0x4000_0000,
    decreases m,
{
    if m > 0 {
        lane_sum_bounds(a, b, (m - 1) as nat);
        let x = wrap_i16(a[m - 1] - b[m - 1]);
        assert(0 <= x * x <= 0x4000_0000) by (nonlinear_arith)
            requires
                -0x8000 <= x <= 0x8000,
        ;
    }
}

proof fn lane_sum_is_distance(a: Seq<i16>, b: Seq<i16>, m: nat)
    requires
        forall|d: int| 0 <= d < m ==> -0x8000 <= (#[trigger] a[d]) - b[d] < 0x8000,
    ensures
        lane_sum(a, b, m) == partial_distance(a, b, m),
    decreases m,
{
    if m > 0 {
        lane_sum_is_distance(a, b, (m - 1) as nat);
        assert(-0x8000 <= a[m - 1] - b[m - 1] < 0x8000);
    }
}

/// Register arithmetic finds the distance of a query from a record with zero padding, if the
/// differences of the coordinates fit into 16 bits and the distance into 32.
pub proof fn lane_distance_is_distance(query: Seq<i16>, record: Seq<u8>)
    requires
        forall|d: int|
            0 <= d < DIMS ==> -0x8000 <= (#[trigger] query[d]) - record_vector(record)[d] < 0x8000,
        distance(query, record_vector(record)) < 0x8000_0000,
        forall|b: int| 2 * DIMS <= b < STRIDE ==> #[trigger] record[b] == 0,
    ensures
        lane_distance(padded(query), record_lanes(record)) == distance(
            query,
            record_vector(record),
        ),
{
    let a = padded(query);
    let b = record_lanes(record);
    let r = record_vector(record);
    assert(b[14] == 0) by {
        assert(record[28] == 0 && record[29] == 0);
    }
    assert(b[15] == 0) by {
        assert(record[30] == 0 && record[31] == 0);
    }
    assert forall|d: int| 0 <= d < PADDED_DIMS implies -0x8000 <= (#[trigger] a[d]) - b[d]
        < 0x8000 by {
        if d < DIMS {
            assert(-0x8000 <= query[d] - r[d] < 0x8000);
        } else {
            assert(d == 14 || d == 15);
        }
    }
    lane_sum_is_distance(a, b, PADDED_DIMS as nat);
    partial_distance_ext(a, b, query, r, DIMS as nat);
    partial_distance_bounds(query, r, DIMS as nat);
    assert(partial_distance(a, b, 15) == partial_distance(a, b, 14));
    assert(partial_distance(a, b, 16) == partial_distance(a, b, 15));
}

/// Quantised features: values from 0 to 10 000, or -10 000 for the two that may be missing.
pub open spec fn is_quantised(v: Seq<i16>) -> bool {
    forall|d: int|
        0 <= d < DIMS ==> -10_000 <= (#[trigger] v[d]) <= 10_000 && (d != 5 && d != 6 ==> 0 <= v[d])
}

proof fn quantised_distance_bound(a: Seq<i16>, b: Seq<i16>, m: nat)
    requires
        is_quantised(a),
        is_quantised(b),
        m <= DIMS,
    ensures
        partial_distance(a, b, m) <= m * 100_000_000 + (if m > 5 { 300_000_000int } else { 0 })
            + (if m > 6 { 300_000_000int } else { 0 }),
    decreases m,
{
    if m > 0 {
        quantised_distance_bound(a, b, (m - 1) as nat);
        let d = m - 1;
        assert(-10_000 <= a[d] <= 10_000 && -10_000 <= b[d] <= 10_000);
        let x = a[d] - b[d];
        if d == 5 || d == 6 {
            assert(x * x <= 400_000_000) by (nonlinear_arith)
                requires
                    -20_000 <= x <= 20_000,
            ;
        } else {
            assert(0 <= a[d] && 0 <= b[d]);
            assert(x * x <= 100_000_000) by (nonlinear_arith)
                requires
                    -10_000 <= x <= 10_000,
            ;
        }
    }
}

/// Between quantised features register arithmetic is exact.
pub proof fn lanes_exact_for_features(query: Seq<i16>, record: Seq<u8>)
    requires
        is_quantised(query),
        is_quantised(record_vector(record)),
        forall|b: int| 2 * DIMS <= b < STRIDE ==> #[trigger] record[b] == 0,
    ensures
        lane_distance(padded(query), record_lanes(record)) == distance(
            query,
            record_vector(record),
        ),
{
    quantised_distance_bound(query, record_vector(record), DIMS as nat);
    assert forall|d: int| 0 <= d < DIMS implies -0x8000 <= (#[trigger] query[d]) - record_vector(
        record,
    )[d] < 0x8000 by {
        assert(-10_000 <= record_vector(record)[d] <= 10_000);
    }
    lane_distance_is_distance(query, record);
}

/// Squared distance of a padded query from a record, in register arithmetic.
pub fn dist_lanes(query: &[i16; PADDED_DIMS], record: &[u8]) -> (dist: i64)
    requires
        STRIDE <= record@.len(),
    ensures
        dist == lane_distance(query@, record_lanes(record@)),
{
    let ghost r = record_lanes(record@);
    let mut sum: i64 = 0;
    for d in 0..PADDED_DIMS
        invariant
            STRIDE <= record@.len(),
            r == record_lanes(record@),
            sum == lane_sum(query@, r, d as nat),
            0 <= sum <= d * 0x4000_0000,
    {
        let off: usize = d * 2;
        let rv: i16 = i16_from_le(record[off], record[off + 1]);
        let diff: i64 = query[d].wrapping_sub(rv) as i64;
        proof {
            assert(r[d as int] == rv);
            assert(diff == wrap_i16(query@[d as int] - rv));
            assert(0 <= diff * diff <= 0x4000_0000) by (nonlinear_arith)
                requires
                    -0x8000 <= diff <= 0x8000,
            ;
            lane_sum_bounds(query@, r, (d + 1) as nat);
        }
        sum += diff * diff;
    }
    let wrapped: i64 = sum % 0x1_0000_0000;
    if wrapped < 0x8000_0000 {
        wrapped
    } else {
        wrapped - 0x1_0000_0000
    }
}

} // verus!
