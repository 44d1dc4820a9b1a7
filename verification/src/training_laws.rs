//! What training does to the centroids.

use crate::kmeans::{
    assigned, cluster_size, cluster_sum, cluster_sum_bounds, cluster_total, differences,
    initial_centroids, is_nearest, kmeans, moved, nearest, nearest_exists, nearest_unique,
    part_start, rounded_mean, rounded_mean_is_nearest, sample_total, sampled, trained, Sums,
};
use crate::metric::{distance, row};
use vstd::prelude::*;

verus! {

/// There are at most 2048 clusters, and at most 131 072 vectors are sampled, evenly spaced from
/// the first on; with fewer vectors, each is a cluster and is sampled.
pub proof fn cluster_and_sample_numbers(n: int, i: int)
    requires
        0 < n <= usize::MAX,
        0 <= i < n,
        i < 131_072,
    ensures
        cluster_total(n) == if n < 2048 { n } else { 2048 },
        cluster_total(0) == 0,
        sample_total(0) == 0,
        sampled(0).len() == 0,
        sample_total(n) == if n < 131_072 { n } else { 131_072 },
        sampled(n).len() == if n < 131_072 { n } else { 131_072 },
        n < 131_072 ==> sampled(n)[i] == i,
        n >= 131_072 ==> sampled(n)[i] == i * (n / 131_072),
{
    if n < 131_072 {
        assert(n / n == 1) by (nonlinear_arith)
            requires
                n > 0,
        ;
    } else {
        assert(0 <= i * (n / 131_072) <= n) by (nonlinear_arith)
            requires
                0 <= i < 131_072,
                n >= 131_072,
        ;
    }
}

/// Training starts with evenly spaced vectors of the sample.
pub proof fn first_centroids(
    vs: Seq<[i16; 14]>,
    sample: Seq<usize>,
    nlist: int,
    c: int,
    d: int,
)
    requires
        0 <= c < nlist,
        0 <= d < 14,
    ensures
        initial_centroids(vs, sample, nlist).len() == 14 * nlist,
        initial_centroids(vs, sample, nlist)[14 * c + d] == vs[sample[(c * sample.len()) as int
            / nlist] as int]@[d],
{
    let x = 14 * c + d;
    assert(x / 14 == c && x % 14 == d);
    assert(x < 14 * nlist);
}

/// The nearest centroid: none is nearer, and none that is as near comes earlier.
pub proof fn nearest_centroid(v: Seq<i16>, centroids: Seq<i16>, nlist: int, c: int)
    requires
        0 <= c < nlist,
    ensures
        ({
            let r = nearest(v, centroids, nlist);
            &&& 0 <= r < nlist
            &&& distance(v, row(centroids, r)) <= distance(v, row(centroids, c))
            &&& distance(v, row(centroids, r)) == distance(v, row(centroids, c)) ==> r <= c
        }),
{
    nearest_exists(v, centroids, nlist);
}

/// Each sampled vector is assigned to its nearest centroid.
pub proof fn assignments(
    vs: Seq<[i16; 14]>,
    sample: Seq<usize>,
    centroids: Seq<i16>,
    nlist: int,
    i: int,
    c: int,
)
    requires
        0 <= i < sample.len(),
        0 <= c < nlist <= u32::MAX,
    ensures
        assigned(vs, sample, centroids, nlist).len() == sample.len(),
        ({
            let v = vs[sample[i] as int]@;
            let r = assigned(vs, sample, centroids, nlist)[i] as int;
            &&& 0 <= r < nlist
            &&& distance(v, row(centroids, r)) <= distance(v, row(centroids, c))
            &&& distance(v, row(centroids, r)) == distance(v, row(centroids, c)) ==> r <= c
        }),
{
    nearest_centroid(vs[sample[i] as int]@, centroids, nlist, c);
}

/// A single vector adds one to the size of its cluster, and its coordinates to the sums of it;
/// no vector adds nothing.
pub proof fn one_member(
    vs: Seq<[i16; 14]>,
    sample: Seq<usize>,
    a: Seq<u32>,
    c: int,
    d: int,
    i: int,
)
    ensures
        cluster_size(a, c, i, i) == 0,
        cluster_sum(vs, sample, a, c, d, i, i) == 0,
        cluster_size(a, c, i, i + 1) == if a[i] == c { 1int } else { 0 },
        cluster_sum(vs, sample, a, c, d, i, i + 1) == if a[i] == c {
            vs[sample[i] as int]@[d] as int
        } else {
            0
        },
{
    reveal_with_fuel(cluster_size, 2);
    reveal_with_fuel(cluster_sum, 2);
}

/// The size of a cluster is the number of vectors assigned to it.
pub proof fn size_is_number(a: Seq<u32>, c: u32)
    ensures
        cluster_size(a, c as int, 0, a.len() as int) == a.filter(|x: u32| x == c).len(),
    decreases a.len(),
{
    reveal(Seq::filter);
    if a.len() > 0 {
        let rest = a.drop_last();
        size_is_number(rest, c);
        size_of_prefix(a, rest, c as int, rest.len() as int);
    }
}

proof fn size_of_prefix(a: Seq<u32>, b: Seq<u32>, c: int, m: int)
    requires
        m <= a.len(),
        m <= b.len(),
        forall|i: int| 0 <= i < m ==> a[i] == b[i],
    ensures
        cluster_size(a, c, 0, m) == cluster_size(b, c, 0, m),
    decreases m,
{
    if m > 0 {
        size_of_prefix(a, b, c, m - 1);
    }
}

/// What is summed up is the sum and the size of each cluster over a range.
pub proof fn sums_cover(
    part: Sums,
    vs: Seq<[i16; 14]>,
    sample: Seq<usize>,
    a: Seq<u32>,
    nlist: int,
    lo: int,
    hi: int,
    c: int,
    d: int,
)
    requires
        part.covers(vs, sample, a, nlist, lo, hi),
        0 <= c < nlist,
        0 <= d < 14,
    ensures
        part.sums@.len() == 14 * nlist,
        part.counts@.len() == nlist,
        part.sums@[14 * c + d] == cluster_sum(vs, sample, a, c, d, lo, hi),
        part.counts@[c] == cluster_size(a, c, lo, hi),
{
    let x = 14 * c + d;
    assert(x / 14 == c && x % 14 == d);
    assert(part.sums@[x] == cluster_sum(vs, sample, a, x / 14, x % 14, lo, hi));
    assert(part.counts@[c] == cluster_size(a, c, lo, hi));
}

/// A round of training moves each coordinate of a cluster with members, however many they are, to
/// the integer nearest to their mean, away from zero where two are as near; a cluster without
/// members stays where it is.
pub proof fn centroids_move_to_means(
    vs: Seq<[i16; 14]>,
    sample: Seq<usize>,
    a: Seq<u32>,
    centroids: Seq<i16>,
    c: int,
    d: int,
)
    requires
        0 <= c,
        14 * (c + 1) <= centroids.len(),
        0 <= d < 14,
    ensures
        moved(vs, sample, a, centroids).len() == centroids.len(),
        ({
            let r = moved(vs, sample, a, centroids)[14 * c + d];
            let size = cluster_size(a, c, 0, sample.len() as int);
            let sum = cluster_sum(vs, sample, a, c, d, 0, sample.len() as int);
            &&& size == 0 ==> r == centroids[14 * c + d]
            &&& size > 0 ==> -size <= 2 * (r * size - sum) <= size
            &&& size > 0 && 2 * (r * size - sum) == size ==> sum > 0
            &&& size > 0 && 2 * (r * size - sum) == -size ==> sum < 0
            &&& size >= 0
        }),
{
    let n = sample.len() as int;
    let x = 14 * c + d;
    assert(x / 14 == c && x % 14 == d);
    let size = cluster_size(a, c, 0, n);
    let sum = cluster_sum(vs, sample, a, c, d, 0, n);
    cluster_sum_bounds(vs, sample, a, c, d, 0, n);
    if size > 0 {
        let m = rounded_mean(sum, size);
        rounded_mean_is_nearest(sum, size);
        assert(-32_768 <= m <= 32_767) by (nonlinear_arith)
            requires
                -size <= 2 * (m * size - sum) <= size,
                -32_768 * size <= sum <= 32_767 * size,
                size > 0,
        ;
    }
}

/// Assignments that differ are counted one by one.
pub proof fn counted_differences(a: Seq<u32>, b: Seq<u32>, m: int)
    ensures
        differences(a, b, 0) == 0,
        m > 0 ==> differences(a, b, m) == differences(a, b, m - 1) + if a[m - 1] == b[m - 1] {
            0int
        } else {
            1
        },
{
}

/// The parts of a sample follow one another and stop at its end.
pub proof fn parts_of_sample(t: int, chunk: int, total: int)
    ensures
        t * chunk <= total ==> part_start(t, chunk, total) == t * chunk,
        t * chunk >= total ==> part_start(t, chunk, total) == total,
{
}

/// A round assigns the sample to the centroids and moves these. It is the last one if no
/// assignment changed; otherwise the rounds that are left follow.
pub proof fn training_round(
    vs: Seq<[i16; 14]>,
    sample: Seq<usize>,
    nlist: int,
    centroids: Seq<i16>,
    previous: Seq<u32>,
    rounds: nat,
)
    ensures
        kmeans(vs, sample, nlist, centroids, previous, 0) == centroids,
        rounds > 0 ==> ({
            let a = assigned(vs, sample, centroids, nlist);
            let next = moved(vs, sample, a, centroids);
            &&& a == previous ==> kmeans(vs, sample, nlist, centroids, previous, rounds) == next
            &&& a != previous ==> kmeans(vs, sample, nlist, centroids, previous, rounds) == kmeans(
                vs,
                sample,
                nlist,
                next,
                a,
                (rounds - 1) as nat,
            )
        }),
{
}

/// Training takes at most ten rounds; before the first, every vector counts as assigned to
/// cluster zero.
pub proof fn training_start(vs: Seq<[i16; 14]>)
    ensures
        ({
            let n = vs.len() as int;
            let k = if n < 2048 { n } else { 2048 };
            let sample = sampled(n);
            trained(vs) == kmeans(
                vs,
                sample,
                k,
                initial_centroids(vs, sample, k),
                Seq::new(sample.len(), |i: int| 0u32),
                10,
            )
        }),
{
}

/// The last round of training: the centroids and the assignments in it.
proof fn last_round(
    vs: Seq<[i16; 14]>,
    sample: Seq<usize>,
    nlist: int,
    centroids: Seq<i16>,
    previous: Seq<u32>,
    rounds: nat,
) -> (res: (Seq<i16>, Seq<u32>))
    requires
        rounds > 0,
    ensures
        res.0.len() == centroids.len(),
        res.1 == assigned(vs, sample, res.0, nlist),
        kmeans(vs, sample, nlist, centroids, previous, rounds) == moved(
            vs,
            sample,
            res.1,
            res.0,
        ),
    decreases rounds,
{
    let a = assigned(vs, sample, centroids, nlist);
    let next = moved(vs, sample, a, centroids);
    if a == previous || rounds == 1 {
        assert(rounds == 1 ==> kmeans(vs, sample, nlist, next, a, 0) == next);
        (centroids, a)
    } else {
        last_round(vs, sample, nlist, next, a, (rounds - 1) as nat)
    }
}

/// The centroids that training ends with are the means of the vectors that were nearest to the
/// centroids before, each coordinate rounded to the nearest integer, away from zero where two
/// are as near. Only a cluster that no sampled vector was nearest to keeps its centroid.
pub proof fn trained_centroids_are_means(vs: Seq<[i16; 14]>) -> (res: (Seq<i16>, Seq<u32>))
    requires
        0 < vs.len() <= usize::MAX,
    ensures
        ({
            let n = vs.len() as int;
            let k = if n < 2048 { n } else { 2048 };
            let sample = sampled(n);
            let before = res.0;
            let a = res.1;
            &&& before.len() == 14 * k && a.len() == sample.len() && trained(vs).len() == 14 * k
            &&& forall|i: int| 0 <= i < a.len() ==> (#[trigger] a[i]) < k
            &&& forall|i: int, c: int|
                #![trigger a[i], row(before, c)]
                0 <= i < a.len() && 0 <= c < k ==> distance(
                    vs[sample[i] as int]@,
                    row(before, a[i] as int),
                ) <= distance(vs[sample[i] as int]@, row(before, c))
            &&& forall|c: int, d: int|
                #![trigger cluster_sum(vs, sample, a, c, d, 0, sample.len() as int)]
                0 <= c < k && 0 <= d < 14 ==> {
                    let r = trained(vs)[14 * c + d];
                    let size = cluster_size(a, c, 0, sample.len() as int);
                    let sum = cluster_sum(vs, sample, a, c, d, 0, sample.len() as int);
                    &&& size == 0 ==> r == before[14 * c + d]
                    &&& size > 0 ==> -size <= 2 * (r * size - sum) <= size
                    &&& size > 0 && 2 * (r * size - sum) == size ==> sum > 0
                    &&& size > 0 && 2 * (r * size - sum) == -size ==> sum < 0
                    &&& size >= 0
                }
        }),
{
    let n = vs.len() as int;
    let k: int = if n < 2048 { n } else { 2048 };
    let sample = sampled(n);
    let start = initial_centroids(vs, sample, k);
    assert(start.len() == 14 * k);
    let res = last_round(
        vs,
        sample,
        k,
        start,
        Seq::new(sample.len(), |i: int| 0u32),
        10,
    );
    let before = res.0;
    let a = res.1;
    training_start(vs);
    assert(trained(vs) == moved(vs, sample, a, before));
    assert forall|i: int| 0 <= i < a.len() implies (#[trigger] a[i]) < k by {
        assignments(vs, sample, before, k, i, 0);
    }
    assert forall|i: int, c: int|
        #![trigger a[i], row(before, c)]
        0 <= i < a.len() && 0 <= c < k implies distance(
        vs[sample[i] as int]@,
        row(before, a[i] as int),
    ) <= distance(vs[sample[i] as int]@, row(before, c)) by {
        assignments(vs, sample, before, k, i, c);
    }
    assert forall|c: int, d: int|
        #![trigger cluster_sum(vs, sample, a, c, d, 0, sample.len() as int)]
        0 <= c < k && 0 <= d < 14 implies {
        let r = trained(vs)[14 * c + d];
        let size = cluster_size(a, c, 0, sample.len() as int);
        let sum = cluster_sum(vs, sample, a, c, d, 0, sample.len() as int);
        &&& size == 0 ==> r == before[14 * c + d]
        &&& size > 0 ==> -size <= 2 * (r * size - sum) <= size
        &&& size > 0 && 2 * (r * size - sum) == size ==> sum > 0
        &&& size > 0 && 2 * (r * size - sum) == -size ==> sum < 0
        &&& size >= 0
    } by {
        centroids_move_to_means(vs, sample, a, before, c, d);
    }
    assert(before.len() == 14 * k && a.len() == sample.len());
    assert(trained(vs).len() == 14 * k);
    res
}

/// Where the vectors come in pairs, the size of a cluster and its sums are those of its pair.
proof fn pair_sums(vs: Seq<[i16; 14]>, sample: Seq<usize>, a: Seq<u32>, c: int, d: int, m: int)
    requires
        0 <= m <= a.len(),
        0 <= c,
        forall|i: int| 0 <= i < a.len() ==> #[trigger] a[i] == i / 2,
        forall|i: int| 0 <= i < sample.len() ==> #[trigger] sample[i] == i,
        sample.len() == a.len(),
    ensures
        cluster_size(a, c, 0, m) == if m <= 2 * c {
            0int
        } else if m == 2 * c + 1 {
            1
        } else {
            2
        },
        cluster_sum(vs, sample, a, c, d, 0, m) == if m <= 2 * c {
            0int
        } else if m == 2 * c + 1 {
            vs[2 * c]@[d] as int
        } else {
            vs[2 * c]@[d] + vs[2 * c + 1]@[d]
        },
    decreases m,
{
    if m > 0 {
        pair_sums(vs, sample, a, c, d, m - 1);
        assert(a[m - 1] == (m - 1) / 2);
        assert(sample[m - 1] == m - 1);
    }
}

/// A round moves the centroids to the means of the pairs, wherever they were.
proof fn pairs_move(
    vs: Seq<[i16; 14]>,
    sample: Seq<usize>,
    a: Seq<u32>,
    centroids: Seq<i16>,
    means: Seq<Seq<i16>>,
    goal: Seq<i16>,
)
    requires
        vs.len() == 4096,
        a.len() == 4096,
        sample.len() == 4096,
        centroids.len() == 14 * 2048,
        goal.len() == 14 * 2048,
        forall|i: int| 0 <= i < a.len() ==> #[trigger] a[i] == i / 2,
        forall|i: int| 0 <= i < sample.len() ==> #[trigger] sample[i] == i,
        forall|j: int, d: int|
            #![trigger means[j][d]]
            0 <= j < 2048 && 0 <= d < 14 ==> {
                let off = 2 * means[j][d] - (vs[2 * j]@[d] + vs[2 * j + 1]@[d]);
                &&& -1 <= off <= 1
                &&& off == 1 ==> vs[2 * j]@[d] + vs[2 * j + 1]@[d] > 0
                &&& off == -1 ==> vs[2 * j]@[d] + vs[2 * j + 1]@[d] < 0
            },
        forall|x: int| 0 <= x < goal.len() ==> #[trigger] goal[x] == means[x / 14][x % 14],
    ensures
        moved(vs, sample, a, centroids) == goal,
{
    let next = moved(vs, sample, a, centroids);
    assert forall|x: int| 0 <= x < next.len() implies next[x] == goal[x] by {
        let c = x / 14;
        let d = x % 14;
        assert(x == 14 * c + d);
        pair_sums(vs, sample, a, c, d, 4096);
        centroids_move_to_means(vs, sample, a, centroids, c, d);
        let r = next[x];
        let m = means[c][d];
        let sum = vs[2 * c]@[d] + vs[2 * c + 1]@[d];
        assert(-2 <= 2 * (r * 2 - sum) <= 2);
        assert(goal[x] == m);
        assert(r == m);
    }
    assert(next =~= goal);
}

/// Each vector of a pair is nearest to the centroid of the pair.
proof fn pairs_assigned(
    vs: Seq<[i16; 14]>,
    sample: Seq<usize>,
    centroids: Seq<i16>,
    a: Seq<u32>,
)
    requires
        vs.len() == 4096,
        sample.len() == 4096,
        a.len() == 4096,
        forall|i: int| 0 <= i < a.len() ==> #[trigger] a[i] == i / 2,
        forall|i: int| 0 <= i < sample.len() ==> #[trigger] sample[i] == i,
        forall|x: int, j: int|
            #![trigger distance(vs[x]@, row(centroids, j))]
            0 <= x < 4096 && 0 <= j < 2048 && j != x / 2 ==> distance(
                vs[x]@,
                row(centroids, x / 2),
            ) < distance(vs[x]@, row(centroids, j)),
    ensures
        assigned(vs, sample, centroids, 2048) == a,
{
    let b = assigned(vs, sample, centroids, 2048);
    assert forall|x: int| 0 <= x < 4096 implies b[x] == a[x] by {
        assert(sample[x] == x && a[x] == x / 2);
        assert(is_nearest(vs[x]@, centroids, 2048, x / 2));
        nearest_unique(vs[x]@, centroids, 2048, x / 2);
    }
    assert(b =~= a);
}

/// Pairs of vectors that lie apart from each other become clusters, and their centroids end at
/// the means of the pairs: of 4096 vectors in pairs, whose members are nearer to the first vector
/// of their pair than to that of any other, and nearer to the mean of their pair than to that of
/// any other, training gives the means.
pub proof fn pairs_train_to_means(vs: Seq<[i16; 14]>, means: Seq<Seq<i16>>, j: int, d: int)
    requires
        vs.len() == 4096,
        forall|j: int, d: int|
            #![trigger means[j][d]]
            0 <= j < 2048 && 0 <= d < 14 ==> {
                let off = 2 * means[j][d] - (vs[2 * j]@[d] + vs[2 * j + 1]@[d]);
                &&& -1 <= off <= 1
                &&& off == 1 ==> vs[2 * j]@[d] + vs[2 * j + 1]@[d] > 0
                &&& off == -1 ==> vs[2 * j]@[d] + vs[2 * j + 1]@[d] < 0
            },
        forall|j: int| 0 <= j < 2048 ==> (#[trigger] means[j]).len() == 14,
        forall|x: int, j: int|
            #![trigger distance(vs[x]@, means[j])]
            0 <= x < 4096 && 0 <= j < 2048 && j != x / 2 ==> distance(vs[x]@, means[x / 2])
                < distance(vs[x]@, means[j]),
        forall|x: int, j: int|
            #![trigger vs[x], vs[2 * j]]
            0 <= x < 4096 && 0 <= j < 2048 && j != x / 2 ==> distance(vs[x]@, vs[2 * (x / 2)]@)
                < distance(vs[x]@, vs[2 * j]@),
        0 <= j < 2048,
        0 <= d < 14,
    ensures
        trained(vs)[14 * j + d] == means[j][d],
{
    let sample = sampled(4096);
    let start = initial_centroids(vs, sample, 2048);
    let zeros = Seq::new(4096, |i: int| 0u32);
    let a = Seq::new(4096, |i: int| (i / 2) as u32);
    let goal = Seq::new(14 * 2048, |x: int| means[x / 14][x % 14]);
    assert forall|i: int| 0 <= i < 4096 implies #[trigger] sample[i] == i by {
        cluster_and_sample_numbers(4096, i);
    }
    assert(sample.len() == 4096);
    assert forall|c: int| 0 <= c < 2048 implies #[trigger] row(start, c) == vs[2 * c]@ by {
        assert forall|e: int| 0 <= e < 14 implies row(start, c)[e] == vs[2 * c]@[e] by {
            first_centroids(vs, sample, 2048, c, e);
            assert(sample[2 * c] == 2 * c);
            assert((c * 4096) / 2048 == 2 * c);
        }
        assert(row(start, c) =~= vs[2 * c]@);
    }
    assert forall|x: int, j: int|
        #![trigger distance(vs[x]@, row(start, j))]
        0 <= x < 4096 && 0 <= j < 2048 && j != x / 2 implies distance(vs[x]@, row(start, x / 2))
        < distance(vs[x]@, row(start, j)) by {
        assert(row(start, x / 2) == vs[2 * (x / 2)]@);
        assert(row(start, j) == vs[2 * j]@);
    }
    pairs_assigned(vs, sample, start, a);
    pairs_move(vs, sample, a, start, means, goal);
    assert(zeros[2] != a[2]);
    training_round(vs, sample, 2048, start, zeros, 10);
    assert forall|c: int| 0 <= c < 2048 implies #[trigger] row(goal, c) == means[c] by {
        assert forall|e: int| 0 <= e < 14 implies row(goal, c)[e] == means[c][e] by {
            let x = 14 * c + e;
            assert(x / 14 == c && x % 14 == e);
        }
        assert(means[c].len() == 14);
        assert(row(goal, c) =~= means[c]);
    }
    assert forall|x: int, j: int|
        #![trigger distance(vs[x]@, row(goal, j))]
        0 <= x < 4096 && 0 <= j < 2048 && j != x / 2 implies distance(vs[x]@, row(goal, x / 2))
        < distance(vs[x]@, row(goal, j)) by {
        assert(row(goal, x / 2) == means[x / 2]);
        assert(row(goal, j) == means[j]);
        assert(distance(vs[x]@, means[x / 2]) < distance(vs[x]@, means[j]));
    }
    pairs_assigned(vs, sample, goal, a);
    pairs_move(vs, sample, a, goal, means, goal);
    training_round(vs, sample, 2048, goal, a, 9);
    training_start(vs);
    assert(trained(vs) == goal);
    let x = 14 * j + d;
    assert(x / 14 == j && x % 14 == d);
}

} // verus!
