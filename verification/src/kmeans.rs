//! Training of the cluster centroids.

use crate::metric::{distance, row, sq_dist_i16, DIMS};
use crate::parallel::{par_map, thread_count};
use vstd::prelude::*;

verus! {

/// Number of clusters of a large data set.
pub const NLIST: usize = 2048;

/// Number of training rounds at most.
pub const KMEANS_ITERS: usize = 10;

/// Number of vectors that training looks at, at most.
pub const SAMPLE_SIZE: usize = 131_072;

/// Number of clusters made of `n` vectors.
pub open spec fn cluster_total(n: int) -> int {
    if n < NLIST { n } else { NLIST as int }
}

/// Number of vectors sampled out of `n`.
pub open spec fn sample_total(n: int) -> int {
    if n < SAMPLE_SIZE { n } else { SAMPLE_SIZE as int }
}

/// The vectors sampled out of `n`: evenly spaced from the first on.
pub open spec fn sampled(n: int) -> Seq<usize> {
    Seq::new(sample_total(n) as nat, |i: int| (i * (n / sample_total(n))) as usize)
}

/// The centroids that training starts with: evenly spaced vectors of the sample.
pub open spec fn initial_centroids(
    vs: Seq<[i16; DIMS]>,
    sample: Seq<usize>,
    nlist: int,
) -> Seq<i16> {
    Seq::new(
        (nlist * DIMS) as nat,
        |x: int|
            vs[sample[(x / DIMS as int) * sample.len() as int / nlist] as int]@[x % DIMS as int],
    )
}

/// `r` is the first of the rows of `centroids` that are nearest to `v`.
pub open spec fn is_nearest(v: Seq<i16>, centroids: Seq<i16>, nlist: int, r: int) -> bool {
    &&& 0 <= r < nlist
    &&& forall|c: int|
        0 <= c < nlist ==> distance(v, row(centroids, r)) <= #[trigger] distance(
            v,
            row(centroids, c),
        )
    &&& forall|c: int|
        0 <= c < r ==> distance(v, row(centroids, r)) < #[trigger] distance(v, row(centroids, c))
}

/// The first of the rows of `centroids` that are nearest to `v`.
pub open spec fn nearest(v: Seq<i16>, centroids: Seq<i16>, nlist: int) -> int {
    choose|r: int| is_nearest(v, centroids, nlist, r)
}

/// There is only one nearest row.
pub proof fn nearest_unique(v: Seq<i16>, centroids: Seq<i16>, nlist: int, r: int)
    requires
        is_nearest(v, centroids, nlist, r),
    ensures
        nearest(v, centroids, nlist) == r,
{
    let s = nearest(v, centroids, nlist);
    assert(is_nearest(v, centroids, nlist, s));
    assert(distance(v, row(centroids, r)) <= distance(v, row(centroids, s)));
    assert(distance(v, row(centroids, s)) <= distance(v, row(centroids, r)));
}

/// One of the rows is nearest, if there is any.
pub proof fn nearest_exists(v: Seq<i16>, centroids: Seq<i16>, nlist: int)
    requires
        nlist > 0,
    ensures
        is_nearest(v, centroids, nlist, nearest(v, centroids, nlist)),
    decreases nlist,
{
    if nlist == 1 {
        assert(is_nearest(v, centroids, 1, 0));
    } else {
        let last = nlist - 1;
        nearest_exists(v, centroids, last);
        let r = nearest(v, centroids, last);
        let s = if distance(v, row(centroids, last)) < distance(v, row(centroids, r)) {
            last
        } else {
            r
        };
        assert(is_nearest(v, centroids, nlist, s));
    }
}

/// The first of the `nlist` centroids that are nearest to `v`; zero if there is none.
pub fn nearest_i16(v: &[i16; DIMS], centroids: &[i16], nlist: usize) -> (best: u32)
    requires
        nlist * DIMS <= centroids.len(),
        nlist <= u32::MAX,
    ensures
        nlist == 0 ==> best == 0,
        nlist > 0 ==> is_nearest(v@, centroids@, nlist as int, best as int) && best == nearest(
            v@,
            centroids@,
            nlist as int,
        ),
{
    let mut best: u32 = 0;
    let mut best_d: i64 = i64::MAX;
    for ci in 0..nlist
        invariant
            nlist * DIMS <= centroids.len(),
            nlist <= u32::MAX,
            ci == 0 ==> best == 0 && best_d == i64::MAX,
            ci > 0 ==> is_nearest(v@, centroids@, ci as int, best as int) && best_d == distance(
                v@,
                row(centroids@, best as int),
            ),
    {
        assert((ci + 1) * DIMS <= nlist * DIMS) by (nonlinear_arith)
            requires
                ci < nlist,
        ;
        let d: i64 = sq_dist_i16(v, centroids, ci);
        if d < best_d {
            best_d = d;
            best = ci as u32;
        }
    }
    proof {
        if nlist > 0 {
            nearest_unique(v@, centroids@, nlist as int, best as int);
        }
    }
    best
}

/// Evenly spaced indices of the vectors to train on.
pub fn sample_indices(n: usize) -> (sample: Vec<usize>)
    ensures
        sample@ == sampled(n as int),
        forall|i: int| 0 <= i < sample@.len() ==> (#[trigger] sample@[i]) < n,
{
    let size: usize = if n < SAMPLE_SIZE { n } else { SAMPLE_SIZE };
    let mut sample: Vec<usize> = Vec::new();
    if size > 0 {
        let step: usize = n / size;
        for i in 0..size
            invariant
                0 < size <= n,
                size == sample_total(n as int),
                step == n / size,
                sample@ == sampled(n as int).take(i as int),
                forall|j: int| 0 <= j < sample@.len() ==> (#[trigger] sample@[j]) < n,
        {
            assert(i * step < n) by (nonlinear_arith)
                requires
                    i < size,
                    step == n / size,
                    0 < size <= n,
            ;
            sample.push(i * step);
            assert(sample@ =~= sampled(n as int).take(i + 1));
        }
    }
    assert(sample@ =~= sampled(n as int));
    sample
}

/// The centroids to start with: evenly spaced vectors of the sample.
pub fn deterministic_init(
    vectors: &[[i16; DIMS]],
    sample: &[usize],
    nlist: usize,
) -> (flat: Vec<i16>)
    requires
        nlist > 0 ==> sample.len() > 0,
        forall|i: int| 0 <= i < sample@.len() ==> (#[trigger] sample@[i]) < vectors@.len(),
        nlist * DIMS <= usize::MAX,
        nlist * sample.len() <= u64::MAX,
    ensures
        flat@ == initial_centroids(vectors@, sample@, nlist as int),
{
    let mut flat: Vec<i16> = Vec::new();
    let ghost goal = initial_centroids(vectors@, sample@, nlist as int);
    for c in 0..nlist
        invariant
            nlist > 0 ==> sample.len() > 0,
            forall|i: int| 0 <= i < sample@.len() ==> (#[trigger] sample@[i]) < vectors@.len(),
            nlist * DIMS <= usize::MAX,
            nlist * sample.len() <= u64::MAX,
            goal == initial_centroids(vectors@, sample@, nlist as int),
            flat@ == goal.take(c * DIMS),
            c * DIMS <= goal.len(),
    {
        let ghost len = sample@.len() as int;
        assert(c * len < nlist * len) by (nonlinear_arith)
            requires
                c < nlist,
                len > 0,
        ;
        assert(c * len / (nlist as int) < len) by (nonlinear_arith)
            requires
                c * len < nlist * len,
                nlist > 0,
        ;
        let si: usize = (c as u64 * sample.len() as u64 / nlist as u64) as usize;
        let v: [i16; DIMS] = vectors[sample[si]];
        assert((c + 1) * DIMS <= nlist * DIMS) by (nonlinear_arith)
            requires
                c < nlist,
        ;
        for d in 0..DIMS
            invariant
                c < nlist,
                (c + 1) * DIMS <= goal.len(),
                goal == initial_centroids(vectors@, sample@, nlist as int),
                si == c * sample@.len() as int / nlist as int,
                v == vectors@[sample@[si as int] as int],
                flat@ == goal.take(c * DIMS + d),
        {
            let ghost x = c * DIMS + d;
            assert(x / DIMS as int == c && x % DIMS as int == d);
            flat.push(v[d]);
            assert(flat@ =~= goal.take(x + 1));
        }
    }
    assert(flat@ =~= goal);
    flat
}

/// The nearest centroid of each sampled vector.
pub open spec fn assigned(
    vs: Seq<[i16; DIMS]>,
    sample: Seq<usize>,
    centroids: Seq<i16>,
    nlist: int,
) -> Seq<u32> {
    Seq::new(sample.len(), |i: int| nearest(vs[sample[i] as int]@, centroids, nlist) as u32)
}

/// Finds the nearest centroid of each sampled vector, on all threads.
pub fn assign(
    vectors: &[[i16; DIMS]],
    sample: &[usize],
    centroids: &[i16],
    nlist: usize,
) -> (assignments: Vec<u32>)
    requires
        0 < nlist <= u32::MAX,
        nlist * DIMS <= centroids.len(),
        forall|i: int| 0 <= i < sample@.len() ==> (#[trigger] sample@[i]) < vectors@.len(),
    ensures
        assignments@ == assigned(vectors@, sample@, centroids@, nlist as int),
        forall|i: int| 0 <= i < assignments@.len() ==> (#[trigger] assignments@[i]) < nlist,
{
    let find = |si: &usize| -> (r: u32)
        requires
            *si < vectors@.len(),
            0 < nlist <= u32::MAX,
            nlist * DIMS <= centroids.len(),
        ensures
            r < nlist,
            r == nearest(vectors@[*si as int]@, centroids@, nlist as int),
        { nearest_i16(&vectors[*si], centroids, nlist) };
    let assignments: Vec<u32> = par_map(sample, find);
    assert(assignments@ =~= assigned(vectors@, sample@, centroids@, nlist as int));
    assignments
}

/// Sum of coordinate `d` over those of the sampled vectors `lo..hi` that are assigned to `c`.
pub open spec fn cluster_sum(
    vs: Seq<[i16; DIMS]>,
    sample: Seq<usize>,
    assignments: Seq<u32>,
    c: int,
    d: int,
    lo: int,
    hi: int,
) -> int
    decreases hi - lo,
{
    if hi <= lo {
        0
    } else {
        cluster_sum(vs, sample, assignments, c, d, lo, hi - 1) + if assignments[hi - 1] == c {
            vs[sample[hi - 1] as int]@[d] as int
        } else {
            0
        }
    }
}

/// Number of those of the assignments `lo..hi` that are `c`.
pub open spec fn cluster_size(assignments: Seq<u32>, c: int, lo: int, hi: int) -> int
    decreases hi - lo,
{
    if hi <= lo {
        0
    } else {
        cluster_size(assignments, c, lo, hi - 1) + if assignments[hi - 1] == c { 1int } else { 0 }
    }
}

/// The sum over a cluster is at most `i16::MIN` or `i16::MAX` per member away from zero.
pub proof fn cluster_sum_bounds(
    vs: Seq<[i16; DIMS]>,
    sample: Seq<usize>,
    assignments: Seq<u32>,
    c: int,
    d: int,
    lo: int,
    hi: int,
)
    requires
        lo <= hi,
    ensures
        0 <= cluster_size(assignments, c, lo, hi) <= hi - lo,
        i16::MIN * cluster_size(assignments, c, lo, hi) <= cluster_sum(
            vs,
            sample,
            assignments,
            c,
            d,
            lo,
            hi,
        ) <= i16::MAX * cluster_size(assignments, c, lo, hi),
    decreases hi - lo,
{
    if lo < hi {
        cluster_sum_bounds(vs, sample, assignments, c, d, lo, hi - 1);
    }
}

/// The sums and sizes over two neighbouring ranges add up.
pub proof fn cluster_sum_splits(
    vs: Seq<[i16; DIMS]>,
    sample: Seq<usize>,
    assignments: Seq<u32>,
    c: int,
    d: int,
    lo: int,
    mid: int,
    hi: int,
)
    requires
        lo <= mid <= hi,
    ensures
        cluster_sum(vs, sample, assignments, c, d, lo, hi) == cluster_sum(
            vs,
            sample,
            assignments,
            c,
            d,
            lo,
            mid,
        ) + cluster_sum(vs, sample, assignments, c, d, mid, hi),
        cluster_size(assignments, c, lo, hi) == cluster_size(assignments, c, lo, mid)
            + cluster_size(assignments, c, mid, hi),
    decreases hi - mid,
{
    if mid < hi {
        cluster_sum_splits(vs, sample, assignments, c, d, lo, mid, hi - 1);
    }
}

/// The sums and the sizes of the clusters over a range of the sample.
pub struct Sums {
    /// Sum of the members of each cluster, row by row.
    pub sums: Vec<i64>,
    /// Number of members of each cluster.
    pub counts: Vec<u32>,
}

impl Sums {
    /// These are the sums and sizes over the sampled vectors `lo..hi`.
    pub open spec fn covers(
        self,
        vs: Seq<[i16; DIMS]>,
        sample: Seq<usize>,
        assignments: Seq<u32>,
        nlist: int,
        lo: int,
        hi: int,
    ) -> bool {
        &&& self.sums@.len() == nlist * DIMS
        &&& self.counts@.len() == nlist
        &&& forall|x: int|
            0 <= x < self.sums@.len() ==> #[trigger] self.sums@[x] == cluster_sum(
                vs,
                sample,
                assignments,
                x / DIMS as int,
                x % DIMS as int,
                lo,
                hi,
            )
        &&& forall|c: int|
            0 <= c < nlist ==> #[trigger] self.counts@[c] == cluster_size(assignments, c, lo, hi)
    }
}

/// Sums up the clusters over the sampled vectors `start..end`.
pub fn sum_range(
    vectors: &[[i16; DIMS]],
    sample: &[usize],
    assignments: &[u32],
    nlist: usize,
    start: usize,
    end: usize,
) -> (part: Sums)
    requires
        start <= end <= sample.len(),
        sample.len() <= u32::MAX,
        assignments@.len() == sample@.len(),
        nlist * DIMS <= usize::MAX,
        forall|i: int| 0 <= i < sample@.len() ==> (#[trigger] sample@[i]) < vectors@.len(),
        forall|i: int| 0 <= i < assignments@.len() ==> (#[trigger] assignments@[i]) < nlist,
    ensures
        part.covers(vectors@, sample@, assignments@, nlist as int, start as int, end as int),
{
    let ghost vs = vectors@;
    let ghost sa = sample@;
    let ghost a = assignments@;
    let ghost lo = start as int;
    let mut sums: Vec<i64> = vec![0i64; nlist * DIMS];
    let mut counts: Vec<u32> = vec![0u32; nlist];
    for i in start..end
        invariant
            vs == vectors@,
            sa == sample@,
            a == assignments@,
            lo == start,
            start <= end <= sample.len(),
            sample.len() <= u32::MAX,
            assignments@.len() == sample@.len(),
            nlist * DIMS <= usize::MAX,
            forall|i: int| 0 <= i < sample@.len() ==> (#[trigger] sample@[i]) < vectors@.len(),
            forall|i: int| 0 <= i < assignments@.len() ==> (#[trigger] assignments@[i]) < nlist,
            sums@.len() == nlist * DIMS,
            counts@.len() == nlist,
            forall|x: int|
                0 <= x < sums@.len() ==> #[trigger] sums@[x] == cluster_sum(
                    vs,
                    sa,
                    a,
                    x / DIMS as int,
                    x % DIMS as int,
                    lo,
                    i as int,
                ),
            forall|c: int|
                0 <= c < nlist ==> #[trigger] counts@[c] == cluster_size(a, c, lo, i as int),
    {
        let ci: usize = assignments[i] as usize;
        let ghost before = sums@;
        proof {
            cluster_sum_bounds(vs, sa, a, ci as int, 0, lo, i as int);
        }
        let count: u32 = counts[ci];
        counts[ci] = count + 1;
        let v: [i16; DIMS] = vectors[sample[i]];
        assert((ci + 1) * DIMS <= nlist * DIMS) by (nonlinear_arith)
            requires
                ci < nlist,
        ;
        let base: usize = ci * DIMS;
        for d in 0..DIMS
            invariant
                vs == vectors@,
                sa == sample@,
                a == assignments@,
                0 <= lo <= i,
                i < sample@.len() <= u32::MAX,
                i < a.len(),
                ci == a[i as int],
                v == vs[sa[i as int] as int],
                base == ci * DIMS,
                base + DIMS <= sums@.len() <= usize::MAX,
                sums@.len() == before.len(),
                forall|x: int|
                    0 <= x < before.len() ==> #[trigger] before[x] == cluster_sum(
                        vs,
                        sa,
                        a,
                        x / DIMS as int,
                        x % DIMS as int,
                        lo,
                        i as int,
                    ),
                forall|x: int|
                    0 <= x < sums@.len() ==> #[trigger] sums@[x] == before[x] + if base <= x < base
                        + d {
                        v@[x - base] as int
                    } else {
                        0
                    },
        {
            let ghost x = base + d;
            proof {
                assert(x / DIMS as int == ci && x % DIMS as int == d);
                cluster_sum_bounds(vs, sa, a, ci as int, d as int, lo, i as int);
                assert(sums@[x] == before[x]);
                assert(before[x] == cluster_sum(vs, sa, a, ci as int, d as int, lo, i as int));
            }
            let sum: i64 = sums[base + d];
            sums[base + d] = sum + v[d] as i64;
        }
        proof {
            assert forall|x: int| 0 <= x < sums@.len() implies #[trigger] sums@[x] == cluster_sum(
                vs,
                sa,
                a,
                x / DIMS as int,
                x % DIMS as int,
                lo,
                i + 1,
            ) by {
                assert(base <= x < base + DIMS <==> x / DIMS as int == ci);
                if x / DIMS as int == ci {
                    assert(x - base == x % DIMS as int);
                }
            }
        }
    }
    Sums { sums, counts }
}

/// Where part `t` of a sample of `total` starts, for parts of `chunk` each.
pub open spec fn part_start(t: int, chunk: int, total: int) -> int {
    if t * chunk < total { t * chunk } else { total }
}

/// Sums up the clusters over the whole sample, in one part per thread; what comes out does not
/// depend on the number of threads.
pub fn sum_in_parts(
    vectors: &[[i16; DIMS]],
    sample: &[usize],
    assignments: &[u32],
    nlist: usize,
    nthreads: usize,
) -> (whole: Sums)
    requires
        0 < nthreads,
        sample.len() + nthreads <= usize::MAX,
        sample.len() <= u32::MAX,
        assignments@.len() == sample@.len(),
        nlist * DIMS <= usize::MAX,
        forall|i: int| 0 <= i < sample@.len() ==> (#[trigger] sample@[i]) < vectors@.len(),
        forall|i: int| 0 <= i < assignments@.len() ==> (#[trigger] assignments@[i]) < nlist,
    ensures
        whole.covers(vectors@, sample@, assignments@, nlist as int, 0, sample@.len() as int),
{
    let ghost vs = vectors@;
    let ghost sa = sample@;
    let ghost a = assignments@;
    let total: usize = sample.len();
    let chunk: usize = (total + nthreads - 1) / nthreads;
    assert(total <= chunk * nthreads <= total + nthreads - 1) by (nonlinear_arith)
        requires
            chunk == (total + nthreads - 1) / nthreads as int,
            nthreads > 0,
    ;
    let mut tids: Vec<usize> = Vec::new();
    for t in 0..nthreads
        invariant
            tids@.len() == t,
            forall|i: int| 0 <= i < t ==> #[trigger] tids@[i] == i,
    {
        tids.push(t);
    }
    let sum_part = |tid: &usize| -> (part: Sums)
        requires
            *tid < nthreads,
            chunk * nthreads <= usize::MAX,
            total == sample.len(),
            total <= u32::MAX,
            assignments@.len() == sample@.len(),
            nlist * DIMS <= usize::MAX,
            forall|i: int| 0 <= i < sample@.len() ==> (#[trigger] sample@[i]) < vectors@.len(),
            forall|i: int| 0 <= i < assignments@.len() ==> (#[trigger] assignments@[i]) < nlist,
        ensures
            part.covers(
                vectors@,
                sample@,
                assignments@,
                nlist as int,
                part_start(*tid as int, chunk as int, total as int),
                part_start(*tid + 1, chunk as int, total as int),
            ),
        {
            assert(*tid * chunk <= chunk * nthreads) by (nonlinear_arith)
                requires
                    *tid < nthreads,
            ;
            assert((*tid + 1) * chunk == *tid * chunk + chunk) by (nonlinear_arith);
            let at: usize = *tid * chunk;
            let start: usize = if at < total { at } else { total };
            let end: usize = if chunk < total - start { start + chunk } else { total };
            sum_range(vectors, sample, assignments, nlist, start, end)
        };
    let parts: Vec<Sums> = par_map(tids.as_slice(), sum_part);
    let mut sums: Vec<i64> = vec![0i64; nlist * DIMS];
    let mut counts: Vec<u32> = vec![0u32; nlist];
    assert(part_start(0, chunk as int, total as int) == 0) by {
        assert(0 * chunk == 0) by (nonlinear_arith);
    }
    for t in 0..parts.len()
        invariant
            vs == vectors@,
            sa == sample@,
            a == assignments@,
            total == sa.len(),
            total <= u32::MAX,
            parts@.len() == nthreads,
            nlist * DIMS <= usize::MAX,
            sums@.len() == nlist * DIMS,
            counts@.len() == nlist,
            forall|i: int|
                0 <= i < parts@.len() ==> (#[trigger] parts@[i]).covers(
                    vs,
                    sa,
                    a,
                    nlist as int,
                    part_start(i, chunk as int, total as int),
                    part_start(i + 1, chunk as int, total as int),
                ),
            forall|x: int|
                0 <= x < sums@.len() ==> #[trigger] sums@[x] == cluster_sum(
                    vs,
                    sa,
                    a,
                    x / DIMS as int,
                    x % DIMS as int,
                    0,
                    part_start(t as int, chunk as int, total as int),
                ),
            forall|c: int|
                0 <= c < nlist ==> #[trigger] counts@[c] == cluster_size(
                    a,
                    c,
                    0,
                    part_start(t as int, chunk as int, total as int),
                ),
    {
        let ghost lo = part_start(t as int, chunk as int, total as int);
        let ghost hi = part_start(t + 1, chunk as int, total as int);
        let part: &Sums = &parts[t];
        assert(0 <= lo <= hi <= total) by {
            assert(0 <= t * chunk <= (t + 1) * chunk) by (nonlinear_arith);
        }
        for x in 0..nlist * DIMS
            invariant
                nlist * DIMS <= usize::MAX,
                0 <= lo <= hi <= total <= u32::MAX,
                sums@.len() == nlist * DIMS,
                part.covers(vs, sa, a, nlist as int, lo, hi),
                forall|y: int|
                    0 <= y < sums@.len() ==> #[trigger] sums@[y] == cluster_sum(
                        vs,
                        sa,
                        a,
                        y / DIMS as int,
                        y % DIMS as int,
                        0,
                        if y < x { hi } else { lo },
                    ),
        {
            proof {
                let c = x as int / DIMS as int;
                let d = x as int % DIMS as int;
                cluster_sum_splits(vs, sa, a, c, d, 0, lo, hi);
                cluster_sum_bounds(vs, sa, a, c, d, 0, hi);
                cluster_sum_bounds(vs, sa, a, c, d, 0, lo);
            }
            let sum: i64 = sums[x];
            sums[x] = sum + part.sums[x];
        }
        for c in 0..nlist
            invariant
                0 <= lo <= hi <= total <= u32::MAX,
                counts@.len() == nlist,
                part.covers(vs, sa, a, nlist as int, lo, hi),
                forall|y: int|
                    0 <= y < nlist ==> #[trigger] counts@[y] == cluster_size(
                        a,
                        y,
                        0,
                        if y < c { hi } else { lo },
                    ),
        {
            proof {
                cluster_sum_splits(vs, sa, a, c as int, 0, 0, lo, hi);
                cluster_sum_bounds(vs, sa, a, c as int, 0, 0, hi);
            }
            let count: u32 = counts[c];
            counts[c] = count + part.counts[c];
        }
    }
    assert(part_start(nthreads as int, chunk as int, total as int) == total) by {
        assert(nthreads * chunk == chunk * nthreads) by (nonlinear_arith);
    }
    Sums { sums, counts }
}

/// The quotient of `sum` and `count`, rounded to the nearest integer, half away from zero.
pub open spec fn rounded_mean(sum: int, count: int) -> int {
    if sum >= 0 {
        (2 * sum + count) / (2 * count)
    } else {
        -((2 * -sum + count) / (2 * count))
    }
}

/// No integer is nearer to the quotient than the rounded mean, and one half is rounded away
/// from zero.
pub proof fn rounded_mean_is_nearest(sum: int, count: int)
    requires
        count > 0,
    ensures
        ({
            let r = rounded_mean(sum, count);
            &&& -count <= 2 * (r * count - sum) <= count
            &&& 2 * (r * count - sum) == count ==> sum > 0
            &&& 2 * (r * count - sum) == -count ==> sum < 0
        }),
{
    let a = if sum >= 0 { sum } else { -sum };
    let r = (2 * a + count) / (2 * count);
    assert(2 * count * r <= 2 * a + count < 2 * count * r + 2 * count) by (nonlinear_arith)
        requires
            r == (2 * a + count) / (2 * count),
            count > 0,
    ;
    assert(2 * count * r == 2 * (r * count)) by (nonlinear_arith);
    assert(a == 0 ==> r == 0) by (nonlinear_arith)
        requires
            r == (2 * a + count) / (2 * count),
            count > 0,
    ;
    assert((-r) * count == -(r * count)) by (nonlinear_arith);
}

/// The mean of `count` values that add up to `sum`, rounded half away from zero.
pub fn mean_i16(sum: i64, count: u32) -> (mean: i16)
    requires
        count > 0,
        i16::MIN * count <= sum <= i16::MAX * count,
    ensures
        mean == rounded_mean(sum as int, count as int),
{
    let c: i64 = count as i64;
    let a: i64 = if sum >= 0 { sum } else { -sum };
    let r: i64 = (2 * a + c) / (2 * c);
    assert(0 <= r <= 32768 && (a <= 32767 * c ==> r <= 32767)) by (nonlinear_arith)
        requires
            r == (2 * a + c) / (2 * c),
            c > 0,
            0 <= a <= 32768 * c,
    ;
    if sum >= 0 {
        r as i16
    } else {
        (-r) as i16
    }
}

/// The centroids moved to the means of their members; one without members stays.
pub open spec fn moved(
    vs: Seq<[i16; DIMS]>,
    sample: Seq<usize>,
    assignments: Seq<u32>,
    centroids: Seq<i16>,
) -> Seq<i16> {
    let n = sample.len() as int;
    Seq::new(
        centroids.len(),
        |x: int|
            {
                let c = x / DIMS as int;
                let size = cluster_size(assignments, c, 0, n);
                if size > 0 {
                    rounded_mean(
                        cluster_sum(vs, sample, assignments, c, x % DIMS as int, 0, n),
                        size,
                    ) as i16
                } else {
                    centroids[x]
                }
            },
    )
}

/// Moves each centroid to the mean of its members.
pub fn move_centroids(
    vectors: &[[i16; DIMS]],
    sample: &[usize],
    assignments: &[u32],
    nlist: usize,
    totals: &Sums,
    centroids: &mut Vec<i16>,
)
    requires
        nlist * DIMS <= usize::MAX,
        old(centroids)@.len() == nlist * DIMS,
        totals.covers(vectors@, sample@, assignments@, nlist as int, 0, sample@.len() as int),
    ensures
        final(centroids)@ == moved(vectors@, sample@, assignments@, old(centroids)@),
{
    let ghost vs = vectors@;
    let ghost sa = sample@;
    let ghost a = assignments@;
    let ghost n = sample@.len() as int;
    let ghost start = centroids@;
    let ghost goal = moved(vs, sa, a, start);
    for ci in 0..nlist
        invariant
            vs == vectors@,
            sa == sample@,
            a == assignments@,
            n == sa.len(),
            goal == moved(vs, sa, a, start),
            nlist * DIMS <= usize::MAX,
            start.len() == nlist * DIMS,
            centroids@.len() == nlist * DIMS,
            totals.covers(vs, sa, a, nlist as int, 0, n),
            forall|x: int|
                0 <= x < start.len() ==> #[trigger] centroids@[x] == if x < ci * DIMS {
                    goal[x]
                } else {
                    start[x]
                },
    {
        assert((ci + 1) * DIMS <= nlist * DIMS) by (nonlinear_arith)
            requires
                ci < nlist,
        ;
        assert((ci + 1) * DIMS == ci * DIMS + DIMS) by (nonlinear_arith);
        let count: u32 = totals.counts[ci];
        let base: usize = ci * DIMS;
        if count > 0 {
            for d in 0..DIMS
                invariant
                    vs == vectors@,
                    sa == sample@,
                    a == assignments@,
                    n == sa.len(),
                    goal == moved(vs, sa, a, start),
                    start.len() == nlist * DIMS,
                    centroids@.len() == nlist * DIMS,
                    totals.covers(vs, sa, a, nlist as int, 0, n),
                    ci < nlist,
                    base == ci * DIMS,
                    base + DIMS <= nlist * DIMS <= usize::MAX,
                    count > 0,
                    count == cluster_size(a, ci as int, 0, n),
                    forall|x: int|
                        0 <= x < start.len() ==> #[trigger] centroids@[x] == if x < base + d {
                            goal[x]
                        } else {
                            start[x]
                        },
            {
                let ghost x = base + d;
                proof {
                    assert(x / DIMS as int == ci && x % DIMS as int == d);
                    cluster_sum_bounds(vs, sa, a, ci as int, d as int, 0, n);
                }
                let mean: i16 = mean_i16(totals.sums[base + d], count);
                assert(goal[x] == mean);
                centroids[base + d] = mean;
            }
        } else {
            assert forall|x: int| base <= x < base + DIMS implies goal[x] == start[x] by {
                assert(x / DIMS as int == ci);
                assert(totals.counts@[ci as int] == cluster_size(a, ci as int, 0, n));
            }
        }
    }
    assert(centroids@ =~= goal);
}

/// Number of places at which two lists of the same length differ.
pub open spec fn differences(a: Seq<u32>, b: Seq<u32>, m: int) -> int
    decreases m,
{
    if m <= 0 {
        0
    } else {
        differences(a, b, m - 1) + if a[m - 1] != b[m - 1] { 1int } else { 0 }
    }
}

proof fn differences_zero(a: Seq<u32>, b: Seq<u32>, m: int)
    requires
        0 <= m <= a.len(),
        a.len() == b.len(),
    ensures
        differences(a, b, m) >= 0,
        differences(a, b, m) == 0 <==> a.take(m) == b.take(m),
    decreases m,
{
    if m == 0 {
        assert(a.take(0) =~= b.take(0));
    } else {
        differences_zero(a, b, m - 1);
        assert(a.take(m) =~= a.take(m - 1).push(a[m - 1]));
        assert(b.take(m) =~= b.take(m - 1).push(b[m - 1]));
        if a.take(m) == b.take(m) {
            assert(a.take(m)[m - 1] == b.take(m)[m - 1]);
            assert(a.take(m - 1) =~= a.take(m).take(m - 1));
            assert(b.take(m - 1) =~= b.take(m).take(m - 1));
        }
    }
}

/// Counts the assignments that changed.
pub fn reassignments(new: &[u32], previous: &[u32]) -> (changed: usize)
    requires
        new.len() == previous.len(),
    ensures
        changed == differences(new@, previous@, new@.len() as int),
        changed == 0 <==> new@ == previous@,
{
    let mut changed: usize = 0;
    for i in 0..new.len()
        invariant
            new.len() == previous.len(),
            changed <= i,
            changed == differences(new@, previous@, i as int),
    {
        if new[i] != previous[i] {
            changed += 1;
        }
    }
    proof {
        differences_zero(new@, previous@, new@.len() as int);
        assert(new@.take(new@.len() as int) =~= new@);
        assert(previous@.take(new@.len() as int) =~= previous@);
    }
    changed
}

/// The centroids after at most `rounds` more rounds: each round assigns the sample and moves
/// the centroids, and a round that changes no assignment is the last one.
pub open spec fn kmeans(
    vs: Seq<[i16; DIMS]>,
    sample: Seq<usize>,
    nlist: int,
    centroids: Seq<i16>,
    previous: Seq<u32>,
    rounds: nat,
) -> Seq<i16>
    decreases rounds,
{
    if rounds == 0 {
        centroids
    } else {
        let a = assigned(vs, sample, centroids, nlist);
        let next = moved(vs, sample, a, centroids);
        if a == previous {
            next
        } else {
            kmeans(vs, sample, nlist, next, a, (rounds - 1) as nat)
        }
    }
}

/// The centroids trained on `vs`.
pub open spec fn trained(vs: Seq<[i16; DIMS]>) -> Seq<i16> {
    let n = vs.len() as int;
    let nlist = cluster_total(n);
    let sample = sampled(n);
    kmeans(
        vs,
        sample,
        nlist,
        initial_centroids(vs, sample, nlist),
        Seq::new(sample.len(), |i: int| 0u32),
        KMEANS_ITERS as nat,
    )
}

/// Trains the centroids of the clusters of `vectors`.
pub fn train(vectors: &[[i16; DIMS]]) -> (centroids: Vec<i16>)
    ensures
        centroids@ == trained(vectors@),
        centroids@.len() == cluster_total(vectors@.len() as int) * DIMS,
{
    let n: usize = vectors.len();
    let nlist: usize = if n < NLIST { n } else { NLIST };
    let sample: Vec<usize> = sample_indices(n);
    assert(nlist * sample@.len() <= 2048 * 131_072) by (nonlinear_arith)
        requires
            nlist <= 2048,
            sample@.len() <= 131_072,
    ;
    let mut centroids: Vec<i16> = deterministic_init(vectors, sample.as_slice(), nlist);
    if nlist == 0 {
        proof {
            kmeans_of_nothing(
                vectors@,
                centroids@,
                Seq::new(sample@.len(), |i: int| 0u32),
                KMEANS_ITERS as nat,
            );
        }
        return centroids;
    }
    let mut previous: Vec<u32> = vec![0u32; sample.len()];
    assert(previous@ =~= Seq::new(sample@.len(), |i: int| 0u32));
    let mut round: usize = 0;
    let nthreads: usize = thread_count();
    let ghost vs = vectors@;
    let ghost sa = sample@;
    let ghost goal = trained(vs);
    while round < KMEANS_ITERS
        invariant_except_break
            goal == kmeans(
                vs,
                sa,
                nlist as int,
                centroids@,
                previous@,
                (KMEANS_ITERS - round) as nat,
            ),
        invariant
            vs == vectors@,
            sa == sample@,
            0 < nlist <= NLIST,
            sa.len() <= SAMPLE_SIZE,
            0 < nthreads <= 0xffff,
            forall|i: int| 0 <= i < sa.len() ==> (#[trigger] sa[i]) < vs.len(),
            centroids@.len() == nlist * DIMS,
            previous@.len() == sa.len(),
            round <= KMEANS_ITERS,
        ensures
            goal == centroids@,
            centroids@.len() == nlist * DIMS,
        decreases KMEANS_ITERS - round,
    {
        let current: Vec<u32> = assign(vectors, sample.as_slice(), centroids.as_slice(), nlist);
        let changed: usize = reassignments(current.as_slice(), previous.as_slice());
        let totals: Sums = sum_in_parts(
            vectors,
            sample.as_slice(),
            current.as_slice(),
            nlist,
            nthreads,
        );
        move_centroids(
            vectors,
            sample.as_slice(),
            current.as_slice(),
            nlist,
            &totals,
            &mut centroids,
        );
        previous = current;
        round += 1;
        if changed == 0 {
            break;
        }
    }
    centroids
}

/// Training on nothing leaves no centroids.
proof fn kmeans_of_nothing(
    vs: Seq<[i16; DIMS]>,
    centroids: Seq<i16>,
    previous: Seq<u32>,
    rounds: nat,
)
    requires
        centroids.len() == 0,
        previous.len() == 0,
    ensures
        kmeans(vs, sampled(0), 0, centroids, previous, rounds) == centroids,
{
    if rounds > 0 {
        let a = assigned(vs, sampled(0), centroids, 0);
        assert(a =~= previous);
        assert(moved(vs, sampled(0), a, centroids) =~= centroids);
    }
}

} // verus!
