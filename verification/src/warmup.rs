//! The queries that warm up an index before it serves requests.

use crate::metric::DIMS;
use vstd::prelude::*;

verus! {

/// How many queries warm up an index.
pub const WARMUP_QUERIES: usize = 500;

/// State of the generator before its first step.
pub const WARMUP_SEED: u32 = 0x1234_5678;

/// One step of the linear congruential generator.
pub open spec fn next_state(state: u32) -> u32 {
    ((state * 1_664_525 + 1_013_904_223) % 0x1_0000_0000) as u32
}

/// State of the generator after `i` steps.
pub open spec fn warmup_state(i: int) -> u32
    decreases i,
{
    if i <= 0 {
        WARMUP_SEED
    } else {
        next_state(warmup_state(i - 1))
    }
}

/// The coordinate that the upper half of a state stands for.
pub open spec fn state_coordinate(state: u32) -> i16 {
    ((state as int / 0x1_0000) % 20_001 - 10_000) as i16
}

/// Query `r`: its coordinates come from consecutive states.
pub open spec fn warmup_query(r: int) -> Seq<i16> {
    Seq::new(DIMS as nat, |d: int| state_coordinate(warmup_state(r * DIMS + d + 1)))
}

/// The coordinates of a warm-up query lie in the range of quantised features.
pub proof fn warmup_query_in_range(r: int, d: int)
    requires
        0 <= d < DIMS,
    ensures
        -10_000 <= warmup_query(r)[d] <= 10_000,
{
}

/// The queries that warm up an index.
pub fn warmup_queries() -> (queries: Vec<[i16; DIMS]>)
    ensures
        queries@.len() == WARMUP_QUERIES,
        forall|r: int| 0 <= r < WARMUP_QUERIES ==> (#[trigger] queries@[r])@ == warmup_query(r),
{
    let mut queries: Vec<[i16; DIMS]> = Vec::with_capacity(WARMUP_QUERIES);
    let mut state: u32 = WARMUP_SEED;
    for r in 0..WARMUP_QUERIES
        invariant
            state == warmup_state(r * DIMS as int),
            queries@.len() == r,
            forall|i: int| 0 <= i < r ==> (#[trigger] queries@[i])@ == warmup_query(i),
    {
        let mut q = [0i16; DIMS];
        for d in 0..DIMS
            invariant
                state == warmup_state(r * DIMS + d),
                forall|i: int|
                    0 <= i < d ==> #[trigger] q@[i] == state_coordinate(
                        warmup_state(r * DIMS + i + 1),
                    ),
        {
            let product: u32 = state.wrapping_mul(1_664_525);
            let ghost before = state;
            state = product.wrapping_add(1_013_904_223);
            assert(state == next_state(before));
            assert(r * DIMS + d >= 0) by (nonlinear_arith)
                requires
                    r >= 0,
                    d >= 0,
            ;
            assert(state == warmup_state(r * DIMS + d + 1));
            assert(state >> 16 == state / 0x1_0000) by (bit_vector);
            q[d] = (((state >> 16) % 20_001) as i32 - 10_000) as i16;
        }
        assert(q@ =~= warmup_query(r as int));
        queries.push(q);
    }
    queries
}

/// The generator multiplies and adds, and keeps the low 32 bits.
pub proof fn generator_step(state: u32)
    ensures
        exists|q: int|
            0 <= q && next_state(state) + #[trigger] (q * 0x1_0000_0000) == 1_664_525 * state
                + 1_013_904_223,
{
    let x = state * 1_664_525 + 1_013_904_223;
    let q = x / 0x1_0000_0000;
    assert(next_state(state) + q * 0x1_0000_0000 == x);
}

/// Coordinate `d` of query `r` comes from the upper half of the state after as many steps as there
/// are coordinates up to it, the first step being from a fixed state: ten thousand less than the
/// remainder of that half by 20 001.
pub proof fn warmup_coordinates(r: int, d: int, i: int)
    requires
        0 <= d < 14,
        0 <= i,
    ensures
        warmup_query(r).len() == 14,
        (warmup_state(14 * r + d + 1) as int / 65_536 - (warmup_query(r)[d] + 10_000)) % 20_001
            == 0,
        -10_000 <= warmup_query(r)[d] <= 10_000,
        WARMUP_QUERIES == 500,
        warmup_state(0) == 0x1234_5678,
        warmup_state(i + 1) == next_state(warmup_state(i)),
{
}

} // verus!
