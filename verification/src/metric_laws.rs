//! What the distances are, term by term.

use crate::bytes::le_i16;
use crate::metric::{
    box_distance, distance, gap, in_box, lane_distance, lane_sum, padded, partial_box_distance,
    partial_distance, record_lanes, record_vector, row, wrap_i16,
};
use vstd::prelude::*;

verus! {


/// The distance of two vectors is the sum of the squares of the differences of all 14
/// coordinates.
pub proof fn distance_terms(a: Seq<i16>, b: Seq<i16>)
    ensures
        distance(a, b) == (a[0] - b[0]) * (a[0] - b[0]) + (a[1] - b[1]) * (a[1] - b[1]) + (a[2]
            - b[2]) * (a[2] - b[2]) + (a[3] - b[3]) * (a[3] - b[3]) + (a[4] - b[4]) * (a[4] - b[4])
            + (a[5] - b[5]) * (a[5] - b[5]) + (a[6] - b[6]) * (a[6] - b[6]) + (a[7] - b[7]) * (a[7]
            - b[7]) + (a[8] - b[8]) * (a[8] - b[8]) + (a[9] - b[9]) * (a[9] - b[9]) + (a[10]
            - b[10]) * (a[10] - b[10]) + (a[11] - b[11]) * (a[11] - b[11]) + (a[12] - b[12]) * (
        a[12] - b[12]) + (a[13] - b[13]) * (a[13] - b[13]),
{
    reveal_with_fuel(partial_distance, 15);
}

/// How far `q` lies outside the range from `lo` to `hi`.
pub proof fn gap_terms(q: int, lo: int, hi: int)
    ensures
        q < lo ==> gap(q, lo, hi) == lo - q,
        q >= lo && q > hi ==> gap(q, lo, hi) == q - hi,
        q >= lo && q <= hi ==> gap(q, lo, hi) == 0,
{
}

/// The distance of a vector from a box is the sum of the squares of its gaps in all 14
/// coordinates.
pub proof fn box_distance_terms(q: Seq<i16>, lo: Seq<i16>, hi: Seq<i16>)
    ensures
        ({
            let g = |d: int|
                if q[d] < lo[d] {
                    lo[d] - q[d]
                } else if q[d] > hi[d] {
                    q[d] - hi[d]
                } else {
                    0
                };
            box_distance(q, lo, hi) == g(0) * g(0) + g(1) * g(1) + g(2) * g(2) + g(3) * g(3) + g(4)
                * g(4) + g(5) * g(5) + g(6) * g(6) + g(7) * g(7) + g(8) * g(8) + g(9) * g(9) + g(10)
                * g(10) + g(11) * g(11) + g(12) * g(12) + g(13) * g(13)
        }),
{
    reveal_with_fuel(partial_box_distance, 15);
}

/// The distance from a box is attained: some vector of the box is as near as the box is said to
/// be, if the box holds any.
pub proof fn box_distance_attained(q: Seq<i16>, lo: Seq<i16>, hi: Seq<i16>) -> (v: Seq<i16>)
    requires
        forall|d: int| 0 <= d < 14 ==> lo[d] <= #[trigger] hi[d],
    ensures
        v.len() == 14,
        forall|d: int| 0 <= d < 14 ==> lo[d] <= #[trigger] v[d] && v[d] <= hi[d],
        distance(q, v) == box_distance(q, lo, hi),
{
    let v = Seq::new(
        14,
        |d: int|
            if q[d] < lo[d] {
                lo[d]
            } else if q[d] > hi[d] {
                hi[d]
            } else {
                q[d]
            },
    );
    assert forall|d: int| 0 <= d < 14 implies lo[d] <= #[trigger] v[d] && v[d] <= hi[d] by {
        assert(lo[d] <= hi[d]);
    }
    partial_attained(q, v, lo, hi, 14);
    v
}

proof fn partial_attained(q: Seq<i16>, v: Seq<i16>, lo: Seq<i16>, hi: Seq<i16>, m: nat)
    requires
        m <= 14,
        forall|d: int|
            0 <= d < 14 ==> #[trigger] v[d] == if q[d] < lo[d] {
                lo[d]
            } else if q[d] > hi[d] {
                hi[d]
            } else {
                q[d]
            },
    ensures
        partial_distance(q, v, m) == partial_box_distance(q, lo, hi, m),
    decreases m,
{
    if m > 0 {
        partial_attained(q, v, lo, hi, (m - 1) as nat);
        let d = m - 1;
        let x = q[d] - v[d];
        let g = gap(q[d] as int, lo[d] as int, hi[d] as int);
        assert(x == g || x == -g);
        assert(x * x == g * g) by (nonlinear_arith)
            requires
                x == g || x == -g,
        ;
    }
}

/// Rows of a table, and vectors in records, hold 14 consecutive numbers.
pub proof fn row_numbers(flat: Seq<i16>, record: Seq<u8>, r: int, d: int)
    requires
        0 <= d < 14,
        0 <= r,
        14 * (r + 1) <= flat.len(),
    ensures
        row(flat, r).len() == 14,
        row(flat, r)[d] == flat[14 * r + d],
        record_vector(record).len() == 14,
        record_vector(record)[d] == le_i16(record, 2 * d),
{
}

/// A vector is in a box exactly if each coordinate lies between those of the corners.
pub proof fn in_box_means(v: Seq<i16>, lo: Seq<i16>, hi: Seq<i16>)
    ensures
        in_box(v, lo, hi) <==> forall|d: int|
            0 <= d < 14 ==> lo[d] <= #[trigger] v[d] && v[d] <= hi[d],
{
}

/// A padded query and the lanes of a record have 16 places; the query's last two are zero.
pub proof fn lanes(query: Seq<i16>, record: Seq<u8>, d: int)
    requires
        0 <= d < 16,
    ensures
        padded(query).len() == 16,
        padded(query)[d] == if d < 14 { query[d] } else { 0i16 },
        record_lanes(record).len() == 16,
        record_lanes(record)[d] == le_i16(record, 2 * d),
{
}

/// Sum of the squares of the first `m` numbers.
pub open spec fn square_sum(x: Seq<int>, m: nat) -> int
    decreases m,
{
    if m == 0 {
        0
    } else {
        square_sum(x, (m - 1) as nat) + x[m - 1] * x[m - 1]
    }
}

proof fn lane_sum_wraps(a: Seq<i16>, b: Seq<i16>, x: Seq<int>, m: nat)
    requires
        m <= 16,
        forall|i: int|
            0 <= i < 16 ==> -0x8000 <= #[trigger] x[i] && x[i] < 0x8000 && (x[i] - (a[i] - b[i]))
                % 0x1_0000 == 0,
    ensures
        lane_sum(a, b, m) == square_sum(x, m),
    decreases m,
{
    if m > 0 {
        lane_sum_wraps(a, b, x, (m - 1) as nat);
        let i = m - 1;
        assert(-0x8000 <= x[i] && x[i] < 0x8000 && (x[i] - (a[i] - b[i])) % 0x1_0000 == 0);
        assert(x[i] == wrap_i16(a[i] - b[i]));
    }
}

/// Register arithmetic gives the one 32-bit number that differs by a multiple of 2^32 from the
/// sum of the squares of the lanes' differences, each of which is the one 16-bit number that
/// differs by a multiple of 2^16 from the true difference.
pub proof fn lane_distance_wraps(a: Seq<i16>, b: Seq<i16>, x: Seq<int>)
    requires
        forall|i: int|
            0 <= i < 16 ==> -0x8000 <= #[trigger] x[i] && x[i] < 0x8000 && (x[i] - (a[i] - b[i]))
                % 0x1_0000 == 0,
    ensures
        -0x8000_0000 <= lane_distance(a, b) < 0x8000_0000,
        (lane_distance(a, b) - (x[0] * x[0] + x[1] * x[1] + x[2] * x[2] + x[3] * x[3] + x[4] * x[4]
            + x[5] * x[5] + x[6] * x[6] + x[7] * x[7] + x[8] * x[8] + x[9] * x[9] + x[10] * x[10]
            + x[11] * x[11] + x[12] * x[12] + x[13] * x[13] + x[14] * x[14] + x[15] * x[15]))
            % 0x1_0000_0000 == 0,
{
    lane_sum_wraps(a, b, x, 16);
    reveal_with_fuel(square_sum, 17);
}

} // verus!
