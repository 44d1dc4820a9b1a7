//! Which clusters a query looks at: those with the nearest centroids.

use crate::metric::{distance, row, sq_dist_i16, DIMS};
use vstd::prelude::*;

verus! {

/// Distance of a query from the centroid of cluster `c`.
pub open spec fn centroid_distance(q: Seq<i16>, centroids: Seq<i16>, c: int) -> int {
    distance(q, row(centroids, c))
}

/// Cluster `a` ranks before cluster `b`: its centroid is nearer, or as near and listed earlier.
pub open spec fn ranks_before(q: Seq<i16>, centroids: Seq<i16>, a: int, b: int) -> bool {
    let da = centroid_distance(q, centroids, a);
    let db = centroid_distance(q, centroids, b);
    da < db || (da == db && a < b)
}

/// `p` lists the first `m` (or all, if fewer) of the clusters `0..k` in the order of their ranks.
pub open spec fn is_ranking(
    q: Seq<i16>,
    centroids: Seq<i16>,
    k: int,
    m: int,
    p: Seq<usize>,
) -> bool {
    &&& p.len() == if m < k { m } else { k }
    &&& forall|i: int| 0 <= i < p.len() ==> (#[trigger] p[i]) < k
    &&& forall|i: int, j: int|
        0 <= i < j < p.len() ==> ranks_before(
            q,
            centroids,
            #[trigger] p[i] as int,
            #[trigger] p[j] as int,
        )
    &&& forall|c: int, i: int|
        #![trigger p.contains(c as usize), p[i]]
        0 <= c < k && !p.contains(c as usize) && 0 <= i < p.len() ==> ranks_before(
            q,
            centroids,
            p[i] as int,
            c,
        )
}

/// The clusters that rank first.
pub open spec fn ranking(q: Seq<i16>, centroids: Seq<i16>, k: int, m: int) -> Seq<usize> {
    choose|p: Seq<usize>| is_ranking(q, centroids, k, m, p)
}

proof fn ranking_prefix(
    q: Seq<i16>,
    centroids: Seq<i16>,
    k: int,
    m: int,
    p: Seq<usize>,
    r: Seq<usize>,
    n: int,
)
    requires
        is_ranking(q, centroids, k, m, p),
        is_ranking(q, centroids, k, m, r),
        0 <= n <= p.len(),
        k <= usize::MAX,
    ensures
        forall|i: int| 0 <= i < n ==> p[i] == r[i],
    decreases n,
{
    if n > 0 {
        ranking_prefix(q, centroids, k, m, p, r, n - 1);
        let i = n - 1;
        let a = p[i] as int;
        let b = r[i] as int;
        if ranks_before(q, centroids, a, b) {
            ranking_smaller_is_listed(q, centroids, k, m, p, r, i);
        } else if ranks_before(q, centroids, b, a) {
            ranking_smaller_is_listed(q, centroids, k, m, r, p, i);
        }
    }
}

proof fn ranking_smaller_is_listed(
    q: Seq<i16>,
    centroids: Seq<i16>,
    k: int,
    m: int,
    p: Seq<usize>,
    r: Seq<usize>,
    i: int,
)
    requires
        is_ranking(q, centroids, k, m, p),
        is_ranking(q, centroids, k, m, r),
        0 <= i < p.len(),
        k <= usize::MAX,
        forall|j: int| 0 <= j < i ==> p[j] == r[j],
    ensures
        !ranks_before(q, centroids, p[i] as int, r[i] as int),
{
    let a = p[i] as int;
    if !ranks_before(q, centroids, a, r[i] as int) {
    } else if r.contains(a as usize) {
        let j = choose|j: int| 0 <= j < r.len() && r[j] == a as usize;
        if j < i {
            assert(p[j] == r[j]);
            assert(ranks_before(q, centroids, p[j] as int, p[i] as int));
        } else if j > i {
            assert(ranks_before(q, centroids, r[i] as int, r[j] as int));
        }
    } else {
        assert(!r.contains(a as usize));
        assert(ranks_before(q, centroids, r[i] as int, a));
    }
}

/// There is only one ranking.
pub proof fn ranking_unique(q: Seq<i16>, centroids: Seq<i16>, k: int, m: int, p: Seq<usize>)
    requires
        is_ranking(q, centroids, k, m, p),
        k <= usize::MAX,
    ensures
        p == ranking(q, centroids, k, m),
{
    let r = ranking(q, centroids, k, m);
    assert(is_ranking(q, centroids, k, m, r));
    ranking_prefix(q, centroids, k, m, p, r, p.len() as int);
    assert(p =~= r);
}

/// The rank order is transitive.
pub proof fn ranks_before_transitive(q: Seq<i16>, centroids: Seq<i16>, a: int, b: int, c: int)
    requires
        ranks_before(q, centroids, a, b),
        ranks_before(q, centroids, b, c),
    ensures
        ranks_before(q, centroids, a, c),
{
}

/// Putting cluster `k` in its place among the first clusters gives the ranking of one cluster
/// more.
proof fn ranking_step(
    q: Seq<i16>,
    cs: Seq<i16>,
    k: int,
    m: int,
    old_best: Seq<usize>,
    base: Seq<usize>,
    i: int,
    best: Seq<usize>,
)
    requires
        0 <= k < usize::MAX,
        0 < m,
        is_ranking(q, cs, k, m, old_best),
        old_best.len() < m ==> forall|c: int|
            0 <= c < k ==> #[trigger] old_best.contains(c as usize),
        base == if old_best.len() < m { old_best } else { old_best.drop_last() },
        old_best.len() == m ==> ranks_before(q, cs, k, old_best.last() as int),
        0 <= i <= base.len(),
        forall|j: int| i <= j < base.len() ==> ranks_before(q, cs, k, #[trigger] base[j] as int),
        forall|j: int| 0 <= j < i ==> ranks_before(q, cs, #[trigger] base[j] as int, k),
        best == base.insert(i, k as usize),
    ensures
        is_ranking(q, cs, k + 1, m, best),
        best.len() < m ==> forall|c: int| 0 <= c < k + 1 ==> #[trigger] best.contains(c as usize),
{
    assert(best[i] == k as usize);
    assert forall|c: int|
        #![trigger best.contains(c as usize)]
        0 <= c < k && base.contains(c as usize) implies best.contains(c as usize) by {
        let j = choose|j: int| 0 <= j < base.len() && base[j] == c as usize;
        if j < i {
            assert(best[j] == c as usize);
        } else {
            assert(best[j + 1] == c as usize);
        }
    }
    assert(best.contains(k as usize));
    assert forall|a: int, b: int| 0 <= a < b < best.len() implies ranks_before(
        q,
        cs,
        #[trigger] best[a] as int,
        #[trigger] best[b] as int,
    ) by {
        let x = if a < i { a } else { a - 1 };
        let y = if b < i { b } else { b - 1 };
        if a != i && b != i {
            assert(ranks_before(q, cs, old_best[x] as int, old_best[y] as int));
        }
    }
    assert forall|c: int, j: int|
        #![trigger best.contains(c as usize), best[j]]
        0 <= c < k + 1 && !best.contains(c as usize) && 0 <= j < best.len() implies ranks_before(
        q,
        cs,
        best[j] as int,
        c,
    ) by {
        assert(c < k);
        assert(!base.contains(c as usize));
        if old_best.contains(c as usize) {
            let x = choose|x: int| 0 <= x < old_best.len() && old_best[x] == c as usize;
            assert(old_best.len() == m);
            if x < base.len() {
                assert(base[x] == c as usize);
            }
            assert(old_best.last() == c as usize);
            if j != i {
                let y = if j < i { j } else { j - 1 };
                assert(ranks_before(q, cs, old_best[y] as int, old_best[x] as int));
            }
        } else {
            assert(old_best.len() == m);
            let l = old_best.len() - 1;
            assert(ranks_before(q, cs, old_best[l] as int, c));
            if j == i {
                ranks_before_transitive(q, cs, k, old_best.last() as int, c);
            } else {
                let y = if j < i { j } else { j - 1 };
                assert(ranks_before(q, cs, old_best[y] as int, c));
            }
        }
    }
    if best.len() < m {
        assert forall|c: int| 0 <= c < k + 1 implies #[trigger] best.contains(c as usize) by {
            if c < k {
                assert(old_best.contains(c as usize));
            }
        }
    }
}

/// A cluster that ranks after all of a full list leaves it the ranking.
proof fn ranking_skip(q: Seq<i16>, cs: Seq<i16>, k: int, m: int, best: Seq<usize>)
    requires
        0 <= k < usize::MAX,
        is_ranking(q, cs, k, m, best),
        best.len() == m,
        m > 0 ==> ranks_before(q, cs, best.last() as int, k),
    ensures
        is_ranking(q, cs, k + 1, m, best),
{
    assert forall|c: int, j: int|
        #![trigger best.contains(c as usize), best[j]]
        0 <= c < k + 1 && !best.contains(c as usize) && 0 <= j < best.len() implies ranks_before(
        q,
        cs,
        best[j] as int,
        c,
    ) by {
        if c == k && j < best.len() - 1 {
            assert(ranks_before(q, cs, best[j] as int, best[best.len() - 1] as int));
            ranks_before_transitive(q, cs, best[j] as int, best.last() as int, k);
        }
    }
}

/// The place of cluster `k` among ranked clusters: before it stand those that rank before it.
proof fn rank_place(q: Seq<i16>, cs: Seq<i16>, base: Seq<usize>, k: int) -> (i: int)
    requires
        forall|a: int, b: int|
            0 <= a < b < base.len() ==> ranks_before(
                q,
                cs,
                #[trigger] base[a] as int,
                #[trigger] base[b] as int,
            ),
        forall|a: int| 0 <= a < base.len() ==> (#[trigger] base[a]) < k,
    ensures
        0 <= i <= base.len(),
        forall|j: int| i <= j < base.len() ==> ranks_before(q, cs, k, #[trigger] base[j] as int),
        forall|j: int| 0 <= j < i ==> ranks_before(q, cs, #[trigger] base[j] as int, k),
    decreases base.len(),
{
    if base.len() == 0 {
        0
    } else if ranks_before(q, cs, base.last() as int, k) {
        assert forall|j: int| 0 <= j < base.len() implies ranks_before(
            q,
            cs,
            #[trigger] base[j] as int,
            k,
        ) by {
            if j < base.len() - 1 {
                assert(ranks_before(q, cs, base[j] as int, base[base.len() - 1] as int));
            }
        }
        base.len() as int
    } else {
        let rest = base.drop_last();
        let i = rank_place(q, cs, rest, k);
        assert forall|j: int| i <= j < base.len() implies ranks_before(
            q,
            cs,
            k,
            #[trigger] base[j] as int,
        ) by {
            if j < base.len() - 1 {
                assert(ranks_before(q, cs, k, rest[j] as int));
            }
        }
        assert forall|j: int|
            0 <= j < i implies ranks_before(q, cs, #[trigger] base[j] as int, k) by {
            assert(ranks_before(q, cs, rest[j] as int, k));
        }
        i
    }
}

proof fn ranking_made(q: Seq<i16>, cs: Seq<i16>, k: int, m: int) -> (p: Seq<usize>)
    requires
        0 <= k <= usize::MAX,
        0 < m,
    ensures
        is_ranking(q, cs, k, m, p),
        p.len() < m ==> forall|c: int| 0 <= c < k ==> #[trigger] p.contains(c as usize),
    decreases k,
{
    if k == 0 {
        Seq::empty()
    } else {
        let c = k - 1;
        let p = ranking_made(q, cs, c, m);
        if p.len() == m && ranks_before(q, cs, p.last() as int, c) {
            ranking_skip(q, cs, c, m, p);
            p
        } else {
            let base = if p.len() < m { p } else { p.drop_last() };
            let i = rank_place(q, cs, base, c);
            ranking_step(q, cs, c, m, p, base, i, base.insert(i, c as usize));
            base.insert(i, c as usize)
        }
    }
}

/// There is a ranking of any clusters.
pub proof fn ranking_exists(q: Seq<i16>, centroids: Seq<i16>, k: int, m: int)
    requires
        0 <= k <= usize::MAX,
        0 < m,
    ensures
        is_ranking(q, centroids, k, m, ranking(q, centroids, k, m)),
{
    let p = ranking_made(q, centroids, k, m);
    assert(is_ranking(q, centroids, k, m, p));
}

/// A ranking that has room for all clusters lists all of them.
pub proof fn ranking_covers(q: Seq<i16>, centroids: Seq<i16>, k: int, m: int)
    requires
        0 <= k <= usize::MAX,
        0 < m,
        k <= m,
    ensures
        forall|c: int| 0 <= c < k ==> #[trigger] ranking(q, centroids, k, m).contains(c as usize),
{
    let p = ranking_made(q, centroids, k, k + 1);
    assert(is_ranking(q, centroids, k, m, p));
    ranking_unique(q, centroids, k, m, p);
}

/// The `m` clusters whose centroids are nearest to `query`, nearest first.
pub fn nearest_clusters(
    query: &[i16; DIMS],
    centroids: &[i16],
    k: usize,
    m: usize,
) -> (p: Vec<usize>)
    requires
        k * DIMS <= centroids.len(),
    ensures
        is_ranking(query@, centroids@, k as int, m as int, p@),
        p@ == ranking(query@, centroids@, k as int, m as int),
{
    let mut best: Vec<usize> = Vec::new();
    let mut dists: Vec<i64> = Vec::new();
    let ghost q = query@;
    let ghost cs = centroids@;
    for ci in 0..k
        invariant
            k * DIMS <= centroids.len(),
            q == query@,
            cs == centroids@,
            is_ranking(q, cs, ci as int, m as int, best@),
            best@.len() < m ==> forall|c: int|
                0 <= c < ci ==> #[trigger] best@.contains(c as usize),
            dists@.len() == best@.len(),
            forall|i: int|
                0 <= i < dists@.len() ==> #[trigger] dists@[i] == centroid_distance(
                    q,
                    cs,
                    best@[i] as int,
                ),
    {
        assert((ci + 1) * DIMS <= k * DIMS) by (nonlinear_arith)
            requires
                ci < k,
        ;
        let dist: i64 = sq_dist_i16(query, centroids, ci);
        let ghost old_best = best@;
        let len: usize = best.len();
        if len < m || (len > 0 && dist < dists[len - 1]) {
            if len == m {
                best.pop();
                dists.pop();
            }
            let ghost base = best@;
            let ghost base_d = dists@;
            let mut i: usize = best.len();
            while i > 0 && dist < dists[i - 1]
                invariant
                    i <= dists@.len(),
                    dists@ == base_d,
                    forall|j: int| i <= j < dists@.len() ==> dist < #[trigger] dists@[j],
                decreases i,
            {
                i -= 1;
            }
            best.insert(i, ci);
            dists.insert(i, dist);
            proof {
                assert forall|j: int| i <= j < base.len() implies ranks_before(
                    q,
                    cs,
                    ci as int,
                    #[trigger] base[j] as int,
                ) by {
                    assert(dist < base_d[j]);
                }
                assert forall|j: int| 0 <= j < i implies ranks_before(
                    q,
                    cs,
                    #[trigger] base[j] as int,
                    ci as int,
                ) by {
                    assert(base_d[i - 1] <= dist);
                    if j < i - 1 {
                        assert(ranks_before(q, cs, old_best[j] as int, old_best[i - 1] as int));
                        ranks_before_transitive(
                            q,
                            cs,
                            base[j] as int,
                            base[i - 1] as int,
                            ci as int,
                        );
                    }
                }
                ranking_step(q, cs, ci as int, m as int, old_best, base, i as int, best@);
            }
        } else {
            proof {
                ranking_skip(q, cs, ci as int, m as int, old_best);
            }
        }
    }
    proof {
        ranking_unique(q, cs, k as int, m as int, best@);
    }
    best
}

} // verus!
