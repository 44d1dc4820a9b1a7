//! Queries and statistics for benchmarks.

use crate::metric::DIMS;
use vstd::prelude::*;

verus! {

/// A 64-bit linear congruential generator.
#[derive(Clone)]
pub struct Lcg64 {
    state: u64,
}

/// The state after `state`.
pub open spec fn lcg64_step(state: u64) -> u64 {
    ((state * 6_364_136_223_846_793_005 + 1_442_695_040_888_963_407) % 0x1_0000_0000_0000_0000)
        as u64
}

impl View for Lcg64 {
    type V = u64;

    /// Its state.
    closed spec fn view(&self) -> u64 {
        self.state
    }
}

impl Lcg64 {
    /// A generator that starts at `seed`.
    pub fn new(seed: u64) -> (res: Lcg64)
        ensures
            res@ == seed,
    {
        Lcg64 { state: seed }
    }

    /// Takes a step and gives the new state.
    pub fn next_u64(&mut self) -> (res: u64)
        ensures
            res == lcg64_step(old(self)@),
            final(self)@ == res,
    {
        let product: u64 = self.state.wrapping_mul(6_364_136_223_846_793_005);
        self.state = product.wrapping_add(1_442_695_040_888_963_407);
        self.state
    }
}

/// Place of the quantile `numerator` / `denominator` among `len` values.
pub open spec fn quantile_place(len: int, numerator: int, denominator: int) -> int {
    ((len - 1) * numerator) / denominator
}

/// The quantile `numerator` / `denominator` of sorted values; zero if there are none.
pub open spec fn quantile(sorted: Seq<u128>, numerator: int, denominator: int) -> u128 {
    if sorted.len() == 0 {
        0
    } else {
        sorted[quantile_place(sorted.len() as int, numerator, denominator)]
    }
}

/// The quantile `numerator` / `denominator` of sorted values; zero if there are none.
pub fn percentile(sorted: &[u128], numerator: usize, denominator: usize) -> (res: u128)
    requires
        sorted.len() > 0 ==> denominator > 0 && (sorted.len() - 1) * numerator <= usize::MAX
            && quantile_place(sorted.len() as int, numerator as int, denominator as int)
            < sorted.len(),
    ensures
        res == if sorted@.len() == 0 {
            0
        } else {
            sorted@[quantile_place(sorted@.len() as int, numerator as int, denominator as int)]
        },
        res == quantile(sorted@, numerator as int, denominator as int),
{
    if sorted.len() == 0 {
        return 0;
    }
    assert(0 <= (sorted.len() - 1) * numerator) by (nonlinear_arith)
        requires
            sorted.len() > 0,
            numerator >= 0,
    ;
    let idx: usize = ((sorted.len() - 1) * numerator) / denominator;
    sorted[idx]
}

/// A quantile of at most one has a place among the values, and a higher quantile has no
/// earlier one.
pub proof fn quantile_places_ordered(len: int, a: int, b: int, denominator: int)
    requires
        len > 0,
        0 <= a <= b <= denominator,
        denominator > 0,
    ensures
        0 <= quantile_place(len, a, denominator) <= quantile_place(len, b, denominator) < len,
        quantile_place(len, 0, denominator) == 0,
        quantile_place(len, denominator, denominator) == len - 1,
{
    let m = len - 1;
    assert(0 <= m * a <= m * b <= m * denominator) by (nonlinear_arith)
        requires
            m >= 0,
            0 <= a <= b <= denominator,
    ;
    vstd::arithmetic::div_mod::lemma_div_is_ordered(0, m * a, denominator);
    vstd::arithmetic::div_mod::lemma_div_is_ordered(m * a, m * b, denominator);
    vstd::arithmetic::div_mod::lemma_div_is_ordered(m * b, m * denominator, denominator);
    vstd::arithmetic::div_mod::lemma_div_by_multiple(m, denominator);
    assert(0int / denominator == 0) by (nonlinear_arith)
        requires
            denominator > 0,
    ;
}

/// The record that a random number picks out of `count`.
pub open spec fn picked(random: u64, count: usize) -> usize {
    random as usize % count
}

/// The record that a random number picks out of `count`.
pub fn pick(random: u64, count: usize) -> (idx: usize)
    requires
        count > 0,
    ensures
        idx == random as usize % count,
        idx == picked(random, count),
        idx < count,
{
    random as usize % count
}

/// `x` brought into the range of 16-bit numbers by clamping.
pub open spec fn clamp_i16(x: int) -> int {
    if x < i16::MIN {
        i16::MIN as int
    } else if x > i16::MAX {
        i16::MAX as int
    } else {
        x
    }
}

/// The shift that a random number stands for, from -50 to 50.
pub open spec fn shift(random: u64) -> int {
    (random as int / 256) % 101 - 50
}

/// `query` with its first coordinate shifted by a random amount.
pub open spec fn jittered(query: Seq<i16>, random: u64) -> Seq<i16> {
    query.update(0, clamp_i16(query[0] + shift(random)) as i16)
}

/// Shifts the first coordinate of a query by a random amount; it does not leave its range.
pub fn jitter(query: [i16; DIMS], random: u64) -> (res: [i16; DIMS])
    ensures
        res@ == query@.update(0, clamp_i16(query@[0] + shift(random)) as i16),
        res@ == jittered(query@, random),
{
    let mut res: [i16; DIMS] = query;
    assert(random >> 8 == random / 256) by (bit_vector);
    let delta: i32 = ((random >> 8) % 101) as i32 - 50;
    let moved: i32 = query[0] as i32 + delta;
    res[0] = if moved < -0x8000 {
        i16::MIN
    } else if moved > 0x7fff {
        i16::MAX
    } else {
        moved as i16
    };
    res
}

/// A benchmark query is near the record that it was made from: it differs in the first
/// coordinate only, by at most 50.
pub proof fn jitter_is_small(query: Seq<i16>, random: u64)
    requires
        query.len() == DIMS,
    ensures
        -50 <= clamp_i16(query[0] + shift(random)) - query[0] <= 50,
        i16::MIN <= clamp_i16(query[0] + shift(random)) <= i16::MAX,
{
}

/// The generator multiplies and adds, and keeps the low 64 bits.
pub proof fn generator_step(state: u64)
    ensures
        exists|q: int|
            0 <= q && lcg64_step(state) + #[trigger] (q * 0x1_0000_0000_0000_0000)
                == 6_364_136_223_846_793_005 * state + 1_442_695_040_888_963_407,
{
    let x = state * 6_364_136_223_846_793_005 + 1_442_695_040_888_963_407;
    let q = x / 0x1_0000_0000_0000_0000;
    assert(lcg64_step(state) + q * 0x1_0000_0000_0000_0000 == x);
}

/// The place of a quantile is the last one that is not beyond its share of the distance from the
/// first value to the last.
pub proof fn quantile_is_last_before(len: int, numerator: int, denominator: int)
    requires
        denominator > 0,
    ensures
        quantile_place(len, numerator, denominator) * denominator <= (len - 1) * numerator,
        (len - 1) * numerator < (quantile_place(len, numerator, denominator) + 1) * denominator,
{
    let x = (len - 1) * numerator;
    let p = x / denominator;
    assert(p * denominator <= x < (p + 1) * denominator) by (nonlinear_arith)
        requires
            p == x / denominator,
            denominator > 0,
    ;
}

/// The shift comes from the bits above the lowest eight: its distance from the least one is
/// their remainder by 101. What would leave the range of a coordinate stops at its end.
pub proof fn shift_and_clamp(random: u64, x: int)
    ensures
        (random as int / 256 - (shift(random) + 50)) % 101 == 0,
        -50 <= shift(random) <= 50,
        -32_768 <= x <= 32_767 ==> clamp_i16(x) == x,
        x < -32_768 ==> clamp_i16(x) == -32_768,
        x > 32_767 ==> clamp_i16(x) == 32_767,
{
}

/// A quantile is one of the values: no more than its share of the steps from the first to the
/// last lie before it, and one step more would be more than that. Of sorted values the quantile
/// zero is the least and the quantile one the greatest; of no values it is zero.
pub proof fn quantile_is_value(sorted: Seq<u128>, numerator: int, denominator: int) -> (p: int)
    requires
        denominator > 0,
        0 <= numerator <= denominator,
        forall|i: int, j: int| 0 <= i <= j < sorted.len() ==> sorted[i] <= sorted[j],
    ensures
        sorted.len() == 0 ==> quantile(sorted, numerator, denominator) == 0,
        sorted.len() > 0 ==> 0 <= p < sorted.len() && quantile(sorted, numerator, denominator)
            == sorted[p] && p * denominator <= (sorted.len() - 1) * numerator < (p + 1)
            * denominator,
        forall|i: int|
            0 <= i < sorted.len() ==> quantile(sorted, 0, denominator) <= #[trigger] sorted[i]
                && sorted[i] <= quantile(sorted, denominator, denominator),
{
    let len = sorted.len() as int;
    if len > 0 {
        quantile_places_ordered(len, 0, numerator, denominator);
        quantile_places_ordered(len, numerator, denominator, denominator);
        quantile_is_last_before(len, numerator, denominator);
    }
    quantile_place(len, numerator, denominator)
}

/// A random number picks what is left of it, as a machine word, after as many times the number of
/// records as fit into it were taken away.
pub proof fn picks_by_remainder(random: u64, count: usize) -> (times: int)
    requires
        0 < count,
    ensures
        0 <= times,
        picked(random, count) < count,
        random as usize == times * count + picked(random, count),
{
    let word = random as usize as int;
    let c = count as int;
    assert(word == (word / c) * c + word % c && word / c >= 0) by (nonlinear_arith)
        requires
            c > 0,
            word >= 0,
    ;
    word / c
}

/// A shifted query differs from the query in its first coordinate only. That one is moved by the
/// shift, unless it would leave its range; then it stops at the end of it.
pub proof fn jitter_moves_first(query: Seq<i16>, random: u64, d: int)
    requires
        query.len() == 14,
        0 < d < 14,
    ensures
        jittered(query, random).len() == 14,
        jittered(query, random)[d] == query[d],
        ({
            let goal = query[0] + (random as int / 256) % 101 - 50;
            let moved = jittered(query, random)[0];
            &&& -32_768 <= goal <= 32_767 ==> moved == goal
            &&& goal < -32_768 ==> moved == -32_768
            &&& goal > 32_767 ==> moved == 32_767
        }),
{
}

} // verus!
