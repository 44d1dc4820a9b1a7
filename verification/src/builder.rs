//! From labelled vectors to an index file.

use crate::build_laws::built_is_sound;
use crate::index_file::{
    bbox_maxs, bbox_mins, centroids, cluster_count, complete, has_tables, header_error,
    labels_start, offsets, record_count, stored_label, stored_vector,
};
use crate::index_writer::{encode_index, record_byte, Tables};
use crate::kmeans::{cluster_size, cluster_total, nearest, nearest_i16, train, trained, NLIST};
use crate::metric::{in_box, row, DIMS, STRIDE};
use crate::parallel::par_map;
use crate::top::label_of;
use crate::types::Label;
use vstd::prelude::*;

verus! {

/// Number of those of the first `m` assignments that name a cluster before `c`.
pub open spec fn below(a: Seq<u32>, c: int, m: int) -> int
    decreases m,
{
    if m <= 0 {
        0
    } else {
        below(a, c, m - 1) + if a[m - 1] < c { 1int } else { 0 }
    }
}

/// The place of vector `i` in the file: after the clusters before its own, and after the
/// members of its own cluster that came before it.
pub open spec fn place(a: Seq<u32>, i: int) -> int {
    below(a, a[i] as int, a.len() as int) + cluster_size(a, a[i] as int, 0, i)
}

/// `order` lists the vectors by their places.
pub open spec fn is_grouping(a: Seq<u32>, order: Seq<usize>) -> bool {
    &&& order.len() == a.len()
    &&& forall|i: int|
        0 <= i < a.len() ==> 0 <= #[trigger] place(a, i) < a.len() && order[place(a, i)] == i
    &&& forall|p: int|
        0 <= p < a.len() ==> (#[trigger] order[p]) < a.len() && place(a, order[p] as int) == p
}

/// One more cluster adds its members.
pub(crate) proof fn below_next(a: Seq<u32>, c: int, m: int)
    requires
        0 <= m,
    ensures
        below(a, c + 1, m) == below(a, c, m) + cluster_size(a, c, 0, m),
    decreases m,
{
    if m > 0 {
        below_next(a, c, m - 1);
    }
}

/// Later clusters start later.
pub(crate) proof fn below_monotone(a: Seq<u32>, c: int, c2: int, m: int)
    requires
        c <= c2,
        0 <= m,
    ensures
        0 <= below(a, c, m) <= below(a, c2, m) <= m,
    decreases m,
{
    if m > 0 {
        below_monotone(a, c, c2, m - 1);
    }
}

pub(crate) proof fn below_ends(a: Seq<u32>, nlist: int, m: int)
    requires
        0 <= m <= a.len(),
        forall|i: int| 0 <= i < a.len() ==> (#[trigger] a[i]) < nlist,
    ensures
        below(a, 0, m) == 0,
        below(a, nlist, m) == m,
    decreases m,
{
    if m > 0 {
        below_ends(a, nlist, m - 1);
        assert(a[m - 1] < nlist);
    }
}

proof fn size_monotone(a: Seq<u32>, c: int, m: int, m2: int)
    requires
        0 <= m <= m2,
    ensures
        0 <= cluster_size(a, c, 0, m) <= cluster_size(a, c, 0, m2) <= m2,
    decreases m2,
{
    if m < m2 {
        size_monotone(a, c, m, m2 - 1);
    } else if m > 0 {
        size_monotone(a, c, m - 1, m2 - 1);
    }
}

/// A vector stands between the start and the end of its cluster.
pub(crate) proof fn place_in_cluster(a: Seq<u32>, i: int)
    requires
        0 <= i < a.len(),
    ensures
        0 <= below(a, a[i] as int, a.len() as int) <= place(a, i) < below(
            a,
            a[i] + 1,
            a.len() as int,
        ) <= a.len(),
{
    let c = a[i] as int;
    below_next(a, c, a.len() as int);
    below_monotone(a, c, c + 1, a.len() as int);
    size_monotone(a, c, 0, i);
    size_monotone(a, c, i + 1, a.len() as int);
}

/// Every place lies in some cluster.
pub(crate) proof fn cluster_of_place(a: Seq<u32>, p: int, m: int) -> (c: int)
    requires
        0 <= m,
        0 <= p < below(a, m, a.len() as int),
        below(a, 0, a.len() as int) == 0,
    ensures
        0 <= c < m,
        below(a, c, a.len() as int) <= p < below(a, c + 1, a.len() as int),
    decreases m,
{
    if p < below(a, m - 1, a.len() as int) {
        cluster_of_place(a, p, m - 1)
    } else {
        m - 1
    }
}

/// A place lies in one cluster only.
pub(crate) proof fn clusters_disjoint(a: Seq<u32>, p: int, c: int, c2: int)
    requires
        below(a, c, a.len() as int) <= p < below(a, c + 1, a.len() as int),
        below(a, c2, a.len() as int) <= p < below(a, c2 + 1, a.len() as int),
    ensures
        c == c2,
{
    if c < c2 {
        below_monotone(a, c + 1, c2, a.len() as int);
    } else if c2 < c {
        below_monotone(a, c2 + 1, c, a.len() as int);
    }
}

/// The vectors at the places of cluster `c` are those assigned to `c`.
pub proof fn grouping_by_cluster(a: Seq<u32>, order: Seq<usize>, c: int, p: int)
    requires
        is_grouping(a, order),
        0 <= p < a.len(),
    ensures
        below(a, c, a.len() as int) <= p < below(a, c + 1, a.len() as int) <==> a[order[p] as int]
            == c,
{
    let i = order[p] as int;
    assert(place(a, i) == p);
    place_in_cluster(a, i);
    if below(a, c, a.len() as int) <= p < below(a, c + 1, a.len() as int) {
        clusters_disjoint(a, p, c, a[i] as int);
    }
}

/// Where each of `nlist` clusters starts, and where the last one ends.
pub fn cluster_starts(assignments: &[u32], nlist: usize) -> (starts: Vec<u32>)
    requires
        assignments.len() <= u32::MAX,
        nlist < usize::MAX,
        forall|i: int| 0 <= i < assignments@.len() ==> (#[trigger] assignments@[i]) < nlist,
    ensures
        starts@.len() == nlist + 1,
        forall|c: int|
            0 <= c <= nlist ==> #[trigger] starts@[c] == below(
                assignments@,
                c,
                assignments@.len() as int,
            ),
{
    let ghost a = assignments@;
    let ghost n = a.len() as int;
    let mut counts: Vec<u32> = vec![0u32; nlist];
    for i in 0..assignments.len()
        invariant
            a == assignments@,
            n == a.len(),
            n <= u32::MAX,
            counts@.len() == nlist,
            forall|i: int| 0 <= i < a.len() ==> (#[trigger] a[i]) < nlist,
            forall|c: int|
                0 <= c < nlist ==> #[trigger] counts@[c] == cluster_size(a, c, 0, i as int),
    {
        let c: usize = assignments[i] as usize;
        proof {
            size_monotone(a, c as int, 0, i as int);
        }
        let count: u32 = counts[c];
        counts[c] = count + 1;
    }
    let mut starts: Vec<u32> = Vec::new();
    let mut running: u32 = 0;
    proof {
        below_ends(a, nlist as int, n);
    }
    for c in 0..nlist
        invariant
            a == assignments@,
            n == a.len(),
            n <= u32::MAX,
            counts@.len() == nlist,
            forall|c: int| 0 <= c < nlist ==> #[trigger] counts@[c] == cluster_size(a, c, 0, n),
            running == below(a, c as int, n),
            starts@.len() == c,
            forall|j: int| 0 <= j < c ==> #[trigger] starts@[j] == below(a, j, n),
    {
        starts.push(running);
        proof {
            below_next(a, c as int, n);
            below_monotone(a, c as int, c + 1, n);
        }
        running = running + counts[c];
    }
    starts.push(running);
    starts
}

/// Lists the vectors cluster by cluster, those of a cluster in the order in which they came.
pub fn group_by_cluster(assignments: &[u32], starts: &[u32], nlist: usize) -> (order: Vec<usize>)
    requires
        assignments.len() <= u32::MAX,
        forall|i: int| 0 <= i < assignments@.len() ==> (#[trigger] assignments@[i]) < nlist,
        starts@.len() == nlist + 1,
        forall|c: int|
            0 <= c <= nlist ==> #[trigger] starts@[c] == below(
                assignments@,
                c,
                assignments@.len() as int,
            ),
    ensures
        is_grouping(assignments@, order@),
{
    let ghost a = assignments@;
    let ghost n = a.len() as int;
    let mut next: Vec<usize> = Vec::new();
    for c in 0..nlist
        invariant
            starts@.len() == nlist + 1,
            next@.len() == c,
            forall|j: int| 0 <= j < c ==> #[trigger] next@[j] == starts@[j],
    {
        next.push(starts[c] as usize);
    }
    let mut order: Vec<usize> = vec![0usize; assignments.len()];
    for i in 0..assignments.len()
        invariant
            a == assignments@,
            n == a.len(),
            n <= u32::MAX,
            next@.len() == nlist,
            order@.len() == n,
            forall|i: int| 0 <= i < a.len() ==> (#[trigger] a[i]) < nlist,
            forall|c: int|
                0 <= c < nlist ==> #[trigger] next@[c] == below(a, c, n) + cluster_size(
                    a,
                    c,
                    0,
                    i as int,
                ),
            forall|j: int| 0 <= j < i ==> order@[#[trigger] place(a, j)] == j,
            forall|c: int, p: int|
                #![trigger next@[c], order@[p]]
                0 <= c < nlist && below(a, c, n) <= p < next@[c] ==> order@[p] < i && place(
                    a,
                    order@[p] as int,
                ) == p,
    {
        let c: usize = assignments[i] as usize;
        let p: usize = next[c];
        let ghost before = order@;
        let ghost next_before = next@;
        proof {
            place_in_cluster(a, i as int);
            size_monotone(a, c as int, i + 1, n);
            assert(p == place(a, i as int));
        }
        order[p] = i;
        next[c] = p + 1;
        proof {
            assert forall|j: int| 0 <= j < i + 1 implies order@[#[trigger] place(a, j)] == j by {
                if j < i {
                    place_in_cluster(a, j);
                    if place(a, j) == p {
                        clusters_disjoint(a, p as int, c as int, a[j] as int);
                        size_monotone(a, c as int, j + 1, i as int);
                    }
                }
            }
            assert forall|e: int, r: int|
                #![trigger next@[e], order@[r]]
                0 <= e < nlist && below(a, e, n) <= r < next@[e] implies order@[r] < i + 1 && place(
                a,
                order@[r] as int,
            ) == r by {
                if r != p {
                    below_monotone(a, 0, e, n);
                    below_next(a, e, n);
                    below_monotone(a, e, e + 1, n);
                    size_monotone(a, e, i + 1, n);
                    if e != c {
                        assert(next_before[e] == next@[e]);
                    }
                    assert(next_before[e] == below(a, e, n) + cluster_size(a, e, 0, i as int));
                    assert(before[r] < i);
                }
            }
        }
    }
    proof {
        below_ends(a, nlist as int, n);
        assert forall|i: int| 0 <= i < n implies 0 <= #[trigger] place(a, i) < n && order@[place(
            a,
            i,
        )] == i by {
            place_in_cluster(a, i);
        }
        assert forall|p: int| 0 <= p < n implies (#[trigger] order@[p]) < n && place(
            a,
            order@[p] as int,
        ) == p by {
            let c = cluster_of_place(a, p, nlist as int);
            below_next(a, c, n);
            assert(next@[c] == below(a, c + 1, n));
        }
    }
    order
}

/// The least coordinate `d` of those of the first `m` vectors that are assigned to `c`.
pub open spec fn lowest(vs: Seq<[i16; DIMS]>, a: Seq<u32>, c: int, d: int, m: int) -> i16
    decreases m,
{
    if m <= 0 {
        i16::MAX
    } else {
        let r = lowest(vs, a, c, d, m - 1);
        if a[m - 1] == c && vs[m - 1]@[d] < r {
            vs[m - 1]@[d]
        } else {
            r
        }
    }
}

/// The greatest coordinate `d` of those of the first `m` vectors that are assigned to `c`.
pub open spec fn highest(vs: Seq<[i16; DIMS]>, a: Seq<u32>, c: int, d: int, m: int) -> i16
    decreases m,
{
    if m <= 0 {
        i16::MIN
    } else {
        let r = highest(vs, a, c, d, m - 1);
        if a[m - 1] == c && vs[m - 1]@[d] > r {
            vs[m - 1]@[d]
        } else {
            r
        }
    }
}

/// The lower corners of the tightest boxes of the clusters; zero for a cluster without members.
pub open spec fn lower_corners(vs: Seq<[i16; DIMS]>, a: Seq<u32>, nlist: int) -> Seq<i16> {
    let n = a.len() as int;
    Seq::new(
        (nlist * DIMS) as nat,
        |x: int|
            if cluster_size(a, x / DIMS as int, 0, n) == 0 {
                0i16
            } else {
                lowest(vs, a, x / DIMS as int, x % DIMS as int, n)
            },
    )
}

/// The upper corners of the tightest boxes of the clusters; zero for a cluster without members.
pub open spec fn upper_corners(vs: Seq<[i16; DIMS]>, a: Seq<u32>, nlist: int) -> Seq<i16> {
    let n = a.len() as int;
    Seq::new(
        (nlist * DIMS) as nat,
        |x: int|
            if cluster_size(a, x / DIMS as int, 0, n) == 0 {
                0i16
            } else {
                highest(vs, a, x / DIMS as int, x % DIMS as int, n)
            },
    )
}

/// The least and the greatest coordinate bound those of every member of the cluster.
proof fn extremes_bound(vs: Seq<[i16; DIMS]>, a: Seq<u32>, c: int, d: int, m: int, i: int)
    requires
        0 <= i < m,
        a[i] == c,
    ensures
        lowest(vs, a, c, d, m) <= vs[i]@[d] <= highest(vs, a, c, d, m),
        cluster_size(a, c, 0, m) > 0,
    decreases m,
{
    if i < m - 1 {
        extremes_bound(vs, a, c, d, m - 1, i);
    } else {
        size_monotone(a, c, 0, m - 1);
    }
}

/// The corners of the box of a cluster are coordinates of its members.
pub proof fn extremes_attained(vs: Seq<[i16; DIMS]>, a: Seq<u32>, c: int, d: int, m: int)
    requires
        cluster_size(a, c, 0, m) > 0,
    ensures
        exists|i: int| 0 <= i < m && a[i] == c && #[trigger] vs[i]@[d] == lowest(vs, a, c, d, m),
        exists|i: int| 0 <= i < m && a[i] == c && #[trigger] vs[i]@[d] == highest(vs, a, c, d, m),
    decreases m,
{
    let last = m - 1;
    if cluster_size(a, c, 0, last) > 0 {
        extremes_attained(vs, a, c, d, last);
        let lo = lowest(vs, a, c, d, last);
        let hi = highest(vs, a, c, d, last);
        let i = choose|i: int| 0 <= i < last && a[i] == c && #[trigger] vs[i]@[d] == lo;
        let j = choose|i: int| 0 <= i < last && a[i] == c && #[trigger] vs[i]@[d] == hi;
        let i2 = if a[last] == c && vs[last]@[d] < lo { last } else { i };
        let j2 = if a[last] == c && vs[last]@[d] > hi { last } else { j };
        assert(vs[i2]@[d] == lowest(vs, a, c, d, m));
        assert(vs[j2]@[d] == highest(vs, a, c, d, m));
    } else {
        size_monotone(a, c, 0, last);
        extremes_of_none(vs, a, c, d, last);
        assert(a[last] == c);
        assert(vs[last]@[d] == lowest(vs, a, c, d, m));
        assert(vs[last]@[d] == highest(vs, a, c, d, m));
    }
}

proof fn extremes_of_none(vs: Seq<[i16; DIMS]>, a: Seq<u32>, c: int, d: int, m: int)
    requires
        cluster_size(a, c, 0, m) <= 0,
        0 <= m,
    ensures
        lowest(vs, a, c, d, m) == i16::MAX,
        highest(vs, a, c, d, m) == i16::MIN,
    decreases m,
{
    if m > 0 {
        size_monotone(a, c, 0, m - 1);
        extremes_of_none(vs, a, c, d, m - 1);
    }
}

/// Every vector lies in the box of its cluster.
pub proof fn corners_enclose(vs: Seq<[i16; DIMS]>, a: Seq<u32>, nlist: int, i: int)
    requires
        vs.len() == a.len(),
        0 <= i < a.len(),
        0 <= a[i] < nlist,
    ensures
        in_box(
            vs[i]@,
            row(lower_corners(vs, a, nlist), a[i] as int),
            row(upper_corners(vs, a, nlist), a[i] as int),
        ),
{
    let c = a[i] as int;
    let n = a.len() as int;
    let lo = row(lower_corners(vs, a, nlist), c);
    let hi = row(upper_corners(vs, a, nlist), c);
    assert((c + 1) * DIMS <= nlist * DIMS) by (nonlinear_arith)
        requires
            c < nlist,
    ;
    assert forall|d: int|
        0 <= d < DIMS implies lo[d] <= #[trigger] vs[i]@[d] && vs[i]@[d] <= hi[d] by {
        let x = c * DIMS + d;
        assert(x / DIMS as int == c && x % DIMS as int == d);
        extremes_bound(vs, a, c, d, n, i);
    }
}

/// The corners of the tightest boxes of the clusters.
pub fn bounding_boxes(vectors: &[[i16; DIMS]], assignments: &[u32], nlist: usize) -> (boxes: (
    Vec<i16>,
    Vec<i16>,
))
    requires
        vectors.len() == assignments.len(),
        nlist * DIMS <= usize::MAX,
        forall|i: int| 0 <= i < assignments@.len() ==> (#[trigger] assignments@[i]) < nlist,
    ensures
        boxes.0@ == lower_corners(vectors@, assignments@, nlist as int),
        boxes.1@ == upper_corners(vectors@, assignments@, nlist as int),
{
    let ghost vs = vectors@;
    let ghost a = assignments@;
    let ghost n = a.len() as int;
    let total: usize = nlist * DIMS;
    let mut mins: Vec<i16> = vec![i16::MAX; total];
    let mut maxs: Vec<i16> = vec![i16::MIN; total];
    let mut filled: Vec<bool> = vec![false; nlist];
    for i in 0..vectors.len()
        invariant
            vs == vectors@,
            a == assignments@,
            vectors.len() == assignments.len(),
            total == nlist * DIMS,
            mins@.len() == total,
            maxs@.len() == total,
            filled@.len() == nlist,
            forall|i: int| 0 <= i < a.len() ==> (#[trigger] a[i]) < nlist,
            forall|x: int|
                0 <= x < total ==> #[trigger] mins@[x] == lowest(
                    vs,
                    a,
                    x / DIMS as int,
                    x % DIMS as int,
                    i as int,
                ),
            forall|x: int|
                0 <= x < total ==> #[trigger] maxs@[x] == highest(
                    vs,
                    a,
                    x / DIMS as int,
                    x % DIMS as int,
                    i as int,
                ),
            forall|c: int|
                0 <= c < nlist ==> #[trigger] filled@[c] == (cluster_size(a, c, 0, i as int) > 0),
    {
        let ci: usize = assignments[i] as usize;
        let v: [i16; DIMS] = vectors[i];
        assert((ci + 1) * DIMS <= nlist * DIMS) by (nonlinear_arith)
            requires
                ci < nlist,
        ;
        let base: usize = ci * DIMS;
        for d in 0..DIMS
            invariant
                i < vs.len(),
                vs.len() == a.len(),
                ci == a[i as int],
                v == vs[i as int],
                base == ci * DIMS,
                base + DIMS <= total,
                mins@.len() == total,
                maxs@.len() == total,
                forall|x: int|
                    0 <= x < total ==> #[trigger] mins@[x] == lowest(
                        vs,
                        a,
                        x / DIMS as int,
                        x % DIMS as int,
                        if base <= x < base + d { i + 1 } else { i as int },
                    ),
                forall|x: int|
                    0 <= x < total ==> #[trigger] maxs@[x] == highest(
                        vs,
                        a,
                        x / DIMS as int,
                        x % DIMS as int,
                        if base <= x < base + d { i + 1 } else { i as int },
                    ),
        {
            let ghost x = base + d;
            assert(x / DIMS as int == ci && x % DIMS as int == d);
            let vd: i16 = v[d];
            if vd < mins[base + d] {
                mins[base + d] = vd;
            }
            if vd > maxs[base + d] {
                maxs[base + d] = vd;
            }
        }
        filled[ci] = true;
        proof {
            size_monotone(a, ci as int, 0, i as int);
            assert forall|x: int| 0 <= x < total implies #[trigger] mins@[x] == lowest(
                vs,
                a,
                x / DIMS as int,
                x % DIMS as int,
                i + 1,
            ) by {
                assert(base <= x < base + DIMS <==> x / DIMS as int == ci);
            }
            assert forall|x: int| 0 <= x < total implies #[trigger] maxs@[x] == highest(
                vs,
                a,
                x / DIMS as int,
                x % DIMS as int,
                i + 1,
            ) by {
                assert(base <= x < base + DIMS <==> x / DIMS as int == ci);
            }
        }
    }
    for c in 0..nlist
        invariant
            vs == vectors@,
            a == assignments@,
            n == a.len(),
            total == nlist * DIMS,
            mins@.len() == total,
            maxs@.len() == total,
            filled@.len() == nlist,
            forall|c: int|
                0 <= c < nlist ==> #[trigger] filled@[c] == (cluster_size(a, c, 0, n) > 0),
            forall|x: int|
                0 <= x < total ==> #[trigger] mins@[x] == if x < c * DIMS {
                    lower_corners(vs, a, nlist as int)[x]
                } else {
                    lowest(vs, a, x / DIMS as int, x % DIMS as int, n)
                },
            forall|x: int|
                0 <= x < total ==> #[trigger] maxs@[x] == if x < c * DIMS {
                    upper_corners(vs, a, nlist as int)[x]
                } else {
                    highest(vs, a, x / DIMS as int, x % DIMS as int, n)
                },
    {
        assert((c + 1) * DIMS <= nlist * DIMS) by (nonlinear_arith)
            requires
                c < nlist,
        ;
        assert((c + 1) * DIMS == c * DIMS + DIMS) by (nonlinear_arith);
        let ghost lows = lower_corners(vs, a, nlist as int);
        let ghost highs = upper_corners(vs, a, nlist as int);
        proof {
            size_monotone(a, c as int, 0, n);
        }
        if !filled[c] {
            let base: usize = c * DIMS;
            for d in 0..DIMS
                invariant
                    n == a.len(),
                    total == nlist * DIMS,
                    base == c * DIMS,
                    base + DIMS <= total,
                    mins@.len() == total,
                    maxs@.len() == total,
                    lows == lower_corners(vs, a, nlist as int),
                    highs == upper_corners(vs, a, nlist as int),
                    cluster_size(a, c as int, 0, n) == 0,
                    forall|x: int|
                        0 <= x < total ==> #[trigger] mins@[x] == if x < base + d {
                            lows[x]
                        } else {
                            lowest(vs, a, x / DIMS as int, x % DIMS as int, n)
                        },
                    forall|x: int|
                        0 <= x < total ==> #[trigger] maxs@[x] == if x < base + d {
                            highs[x]
                        } else {
                            highest(vs, a, x / DIMS as int, x % DIMS as int, n)
                        },
            {
                let ghost x = base + d;
                assert(x / DIMS as int == c && x % DIMS as int == d);
                mins[base + d] = 0;
                maxs[base + d] = 0;
            }
        } else {
            assert forall|x: int| c * DIMS <= x < c * DIMS + DIMS implies lows[x] == lowest(
                vs,
                a,
                x / DIMS as int,
                x % DIMS as int,
                n,
            ) && highs[x] == highest(vs, a, x / DIMS as int, x % DIMS as int, n) by {
                assert(x / DIMS as int == c);
            }
        }
    }
    assert(mins@ =~= lower_corners(vs, a, nlist as int));
    assert(maxs@ =~= upper_corners(vs, a, nlist as int));
    (mins, maxs)
}

/// The cluster of each vector of `vs`: the one with the nearest trained centroid.
pub open spec fn clustered(vs: Seq<[i16; DIMS]>) -> Seq<u32> {
    Seq::new(
        vs.len(),
        |i: int| nearest(vs[i]@, trained(vs), cluster_total(vs.len() as int)) as u32,
    )
}

/// `f` is the index file of the vectors `vs` with the labels `labels`.
pub open spec fn is_index_of(f: Seq<u8>, vs: Seq<[i16; DIMS]>, labels: Seq<u8>) -> bool {
    let n = vs.len() as int;
    let k = cluster_total(n);
    let a = clustered(vs);
    &&& header_error(f) is None
    &&& cluster_count(f) == k
    &&& record_count(f) == n
    &&& centroids(f) == trained(vs)
    &&& bbox_mins(f) == lower_corners(vs, a, k)
    &&& bbox_maxs(f) == upper_corners(vs, a, k)
    &&& forall|c: int| 0 <= c <= k ==> #[trigger] offsets(f)[c] == below(a, c, n)
    &&& forall|i: int|
        0 <= i < n ==> 0 <= #[trigger] place(a, i) < n && stored_vector(f, place(a, i)) == vs[i]@
            && stored_label(f, place(a, i)) == labels[i]
    &&& forall|j: int, b: int|
        0 <= j < n && 2 * DIMS <= b < STRIDE ==> #[trigger] record_byte(f, j, b) == 0
    &&& f.len() == labels_start(k, n) + n
}

/// Makes the index file of labelled vectors.
pub fn build_index(vectors: &[[i16; DIMS]], labels: &[u8]) -> (file: Vec<u8>)
    requires
        vectors.len() == labels.len(),
        vectors.len() <= u32::MAX,
    ensures
        is_index_of(file@, vectors@, labels@),
        complete(file@),
        has_tables(file@),
{
    let n: usize = vectors.len();
    let nlist: usize = if n < NLIST { n } else { NLIST };
    let centroids: Vec<i16> = train(vectors);
    let flat: &[i16] = centroids.as_slice();
    let find = |v: &[i16; DIMS]| -> (r: u32)
        requires
            0 < nlist <= u32::MAX,
            nlist * DIMS <= flat.len(),
        ensures
            r < nlist,
            r == nearest(v@, flat@, nlist as int),
        { nearest_i16(v, flat, nlist) };
    let assignments: Vec<u32> = par_map(vectors, find);
    let ghost a = assignments@;
    assert(a =~= clustered(vectors@));
    assert forall|i: int| 0 <= i < a.len() implies (#[trigger] a[i]) < nlist by {
        assert(call_ensures(find, (&vectors@[i],), a[i]));
    }
    let starts: Vec<u32> = cluster_starts(assignments.as_slice(), nlist);
    let order: Vec<usize> = group_by_cluster(assignments.as_slice(), starts.as_slice(), nlist);
    let boxes: (Vec<i16>, Vec<i16>) = bounding_boxes(vectors, assignments.as_slice(), nlist);
    let tables = Tables {
        centroids: flat,
        bbox_min: boxes.0.as_slice(),
        bbox_max: boxes.1.as_slice(),
        offsets: starts.as_slice(),
        vectors,
        labels,
        order: order.as_slice(),
    };
    let file: Vec<u8> = encode_index(&tables);
    proof {
        assert forall|i: int| 0 <= i < n implies 0 <= #[trigger] place(a, i) < n && stored_vector(
            file@,
            place(a, i),
        ) == vectors@[i]@ && stored_label(file@, place(a, i)) == labels@[i] by {
            assert(order@[place(a, i)] == i);
        }
        built_is_sound(file@, vectors@, labels@);
    }
    file
}

/// The byte that stands for the name of a label.
pub open spec fn byte_of(name: Seq<char>) -> u8 {
    if name == "fraud"@ {
        1
    } else {
        0
    }
}

/// The byte that stands for the name of a label: one for fraud, zero for anything else.
pub fn label_byte(name: &str) -> (byte: u8)
    ensures
        byte == byte_of(name@),
{
    if name.to_owned() == "fraud".to_owned() {
        1
    } else {
        0
    }
}

/// What is read of a label byte is what its name says: fraud exactly if it is so called.
pub proof fn label_reads_back(name: Seq<char>)
    ensures
        label_of(byte_of(name)) == Label::Fraud <==> name == "fraud"@,
        name == "fraud"@ ==> byte_of(name) == 1,
        name != "fraud"@ ==> byte_of(name) == 0,
{
}

} // verus!
