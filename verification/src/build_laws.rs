//! What holds of every index file that was built.

use crate::builder::{
    below, below_ends, below_monotone, below_next, cluster_of_place, clustered, corners_enclose,
    is_index_of, place, place_in_cluster,
};
use crate::index_file::{
    bbox_maxs, bbox_mins, centroids, cluster_count, complete, has_tables, offsets, record_count,
    stored_label, stored_vector,
};
use crate::index_writer::same_contents_same_file;
use crate::kmeans::{cluster_size, cluster_total, is_nearest, nearest_exists, trained};
use crate::metric::{distance, distance_zero_iff_equal, in_box, partial_distance_bounds, row, DIMS};
use crate::probes::ranks_before;
use crate::search::{
    ambiguous, fast_entries, final_entries, probed, record_distance, searchable, NPROBE_FAST,
    NPROBE_SLOW,
};
use crate::top::verdict;
use crate::search_laws::{
    ambiguous_search_is_exact, answers_exactly, are_nearest, complete_is_searchable, depth,
    enclosed, in_cluster, partitioned, probed_is_ranking, records_of, search_finds_nearest,
    small_search_is_exact,
};
use vstd::prelude::*;

verus! {

/// A cluster has a member for each rank below its size.
proof fn member_of_rank(a: Seq<u32>, c: int, r: int, m: int) -> (i: int)
    requires
        0 <= m <= a.len(),
        0 <= r < cluster_size(a, c, 0, m),
    ensures
        0 <= i < m,
        a[i] == c,
        cluster_size(a, c, 0, i) == r,
    decreases m,
{
    if r < cluster_size(a, c, 0, m - 1) {
        member_of_rank(a, c, r, m - 1)
    } else {
        m - 1
    }
}

/// At each place between the start and the end of a cluster stands one of its members.
pub(crate) proof fn member_at_place(a: Seq<u32>, c: int, p: int) -> (i: int)
    requires
        below(a, c, a.len() as int) <= p < below(a, c + 1, a.len() as int),
    ensures
        0 <= i < a.len(),
        a[i] == c,
        place(a, i) == p,
{
    below_next(a, c, a.len() as int);
    member_of_rank(a, c, p - below(a, c, a.len() as int), a.len() as int)
}

/// The cluster of a vector is one of the clusters.
proof fn clustered_in_range(vs: Seq<[i16; DIMS]>)
    requires
        vs.len() <= u32::MAX,
    ensures
        forall|i: int|
            0 <= i < vs.len() ==> (#[trigger] clustered(vs)[i]) < cluster_total(vs.len() as int)
                && is_nearest(
                vs[i]@,
                trained(vs),
                cluster_total(vs.len() as int),
                clustered(vs)[i] as int,
            ),
{
    let k = cluster_total(vs.len() as int);
    assert forall|i: int| 0 <= i < vs.len() implies (#[trigger] clustered(vs)[i]) < k && is_nearest(
        vs[i]@,
        trained(vs),
        k,
        clustered(vs)[i] as int,
    ) by {
        nearest_exists(vs[i]@, trained(vs), k);
    }
}

/// The index file of labelled vectors can be opened and is complete; its clusters follow one
/// another from the first record to the last, and their boxes enclose them.
pub proof fn built_is_sound(f: Seq<u8>, vs: Seq<[i16; DIMS]>, labels: Seq<u8>)
    requires
        is_index_of(f, vs, labels),
        vs.len() <= u32::MAX,
    ensures
        complete(f),
        has_tables(f),
        partitioned(f),
        enclosed(f),
{
    let n = vs.len() as int;
    let k = cluster_total(n);
    let a = clustered(vs);
    clustered_in_range(vs);
    below_ends(a, k, n);
    assert forall|c: int| 0 <= c <= k implies #[trigger] offsets(f)[c] <= n by {
        below_monotone(a, c, k, n);
    }
    assert forall|c: int, e: int| 0 <= c <= e <= k implies #[trigger] offsets(f)[c]
        <= #[trigger] offsets(f)[e] by {
        below_monotone(a, c, e, n);
    }
    assert forall|c: int, j: int| 0 <= c < k && #[trigger] in_cluster(f, c, j) implies in_box(
        stored_vector(f, j),
        row(bbox_mins(f), c),
        row(bbox_maxs(f), c),
    ) by {
        assert(offsets(f)[c] == below(a, c, n) && offsets(f)[c + 1] == below(a, c + 1, n));
        let i = member_at_place(a, c, j);
        assert(stored_vector(f, place(a, i)) == vs[i]@);
        corners_enclose(vs, a, k, i);
    }
}

/// In the index file of labelled vectors every record stands in the cluster whose centroid is
/// nearest to it, and carries the label of its vector.
pub proof fn built_records(f: Seq<u8>, vs: Seq<[i16; DIMS]>, labels: Seq<u8>, c: int, j: int) -> (i:
    int)
    requires
        is_index_of(f, vs, labels),
        vs.len() <= u32::MAX,
        0 <= c < cluster_count(f),
        in_cluster(f, c, j),
    ensures
        0 <= i < vs.len(),
        stored_vector(f, j) == vs[i]@,
        stored_label(f, j) == labels[i],
        is_nearest(stored_vector(f, j), centroids(f), cluster_count(f), c),
{
    let n = vs.len() as int;
    let a = clustered(vs);
    clustered_in_range(vs);
    assert(offsets(f)[c] == below(a, c, n) && offsets(f)[c + 1] == below(a, c + 1, n));
    let i = member_at_place(a, c, j);
    assert(stored_vector(f, place(a, i)) == vs[i]@);
    assert(a[i] < cluster_total(n));
    i
}

/// Labelled vectors have one index file only, however many threads build it.
pub proof fn built_unique(f: Seq<u8>, g: Seq<u8>, vs: Seq<[i16; DIMS]>, labels: Seq<u8>)
    requires
        is_index_of(f, vs, labels),
        is_index_of(g, vs, labels),
        vs.len() <= u32::MAX,
    ensures
        f == g,
{
    let n = vs.len() as int;
    let k = cluster_total(n);
    let a = clustered(vs);
    clustered_in_range(vs);
    below_ends(a, k, n);
    assert forall|c: int| 0 <= c < offsets(f).len() implies offsets(f)[c] == offsets(g)[c] by {}
    assert(offsets(f) =~= offsets(g));
    assert forall|j: int| 0 <= j < n implies #[trigger] stored_vector(f, j) == stored_vector(g, j)
        && stored_label(f, j) == stored_label(g, j) by {
        let c = cluster_of_place(a, j, k);
        let i = member_at_place(a, c, j);
        assert(stored_vector(f, place(a, i)) == vs[i]@);
        assert(stored_vector(g, place(a, i)) == vs[i]@);
    }
    assert forall|j: int|
        0 <= j < n implies #[trigger] stored_label(f, j) == stored_label(g, j) by {
        assert(stored_vector(f, j) == stored_vector(g, j));
    }
    same_contents_same_file(f, g);
}

/// A search in the index file of labelled vectors reads nothing outside it, and finds the
/// nearest of the vectors in the clusters that it looks at.
pub proof fn built_search_finds_nearest(
    f: Seq<u8>,
    vs: Seq<[i16; DIMS]>,
    labels: Seq<u8>,
    q: Seq<i16>,
) -> (chosen: Seq<int>)
    requires
        is_index_of(f, vs, labels),
        vs.len() <= u32::MAX,
    ensures
        searchable(f, q),
        are_nearest(f, q, final_entries(f, q), chosen, records_of(f, probed(f, q), depth(f, q))),
{
    built_is_sound(f, vs, labels);
    complete_is_searchable(f, q);
    search_finds_nearest(f, q)
}

/// A search in the index file for one of its vectors finds a neighbour at distance zero.
pub proof fn built_finds_itself(
    f: Seq<u8>,
    vs: Seq<[i16; DIMS]>,
    labels: Seq<u8>,
    i: int,
) -> (e: int)
    requires
        is_index_of(f, vs, labels),
        vs.len() <= u32::MAX,
        0 <= i < vs.len(),
    ensures
        0 <= e < final_entries(f, vs[i]@).len(),
        final_entries(f, vs[i]@)[e].0 == 0,
{
    let n = vs.len() as int;
    let k = cluster_total(n);
    let a = clustered(vs);
    let q = vs[i]@;
    let c = a[i] as int;
    let j = place(a, i);
    clustered_in_range(vs);
    assert(is_nearest(q, centroids(f), k, c));
    probed_is_ranking(f, q);
    let p = probed(f, q);
    assert(p[0] == c) by {
        if p.contains(c as usize) {
            let at = choose|at: int| 0 <= at < p.len() && p[at] == c as usize;
            if at > 0 {
                assert(ranks_before(q, centroids(f), p[0] as int, p[at] as int));
                assert(distance(q, row(centroids(f), c)) <= distance(
                    q,
                    row(centroids(f), p[0] as int),
                ));
            }
        } else {
            assert(ranks_before(q, centroids(f), p[0] as int, c));
            assert(distance(q, row(centroids(f), c)) <= distance(
                q,
                row(centroids(f), p[0] as int),
            ));
        }
    }
    place_in_cluster(a, i);
    assert(offsets(f)[c] == below(a, c, n) && offsets(f)[c + 1] == below(a, c + 1, n));
    assert(in_cluster(f, p[0] as int, j));
    let seen = records_of(f, p, depth(f, q));
    assert(seen(j));
    let chosen = built_search_finds_nearest(f, vs, labels, q);
    assert(record_distance(f, q, j) == 0) by {
        assert(stored_vector(f, place(a, i)) == q);
        distance_zero_iff_equal(q, q);
    }
    let s = final_entries(f, q);
    if chosen.contains(j) {
        choose|e: int| 0 <= e < chosen.len() && chosen[e] == j
    } else {
        assert(s[0].0 <= 0);
        assert(seen(chosen[0]));
        partial_distance_bounds(q, stored_vector(f, chosen[0]), DIMS as nat);
        0
    }
}

/// A search among a few vectors is exact: in an index file of at most as many vectors as there
/// are clusters in the first pass, the neighbours are the nearest of all vectors.
pub proof fn built_small_search_is_exact(
    f: Seq<u8>,
    vs: Seq<[i16; DIMS]>,
    labels: Seq<u8>,
    q: Seq<i16>,
) -> (chosen: Seq<int>)
    requires
        is_index_of(f, vs, labels),
        vs.len() <= NPROBE_FAST,
    ensures
        answers_exactly(f, q, chosen),
        record_count(f) == vs.len(),
{
    built_is_sound(f, vs, labels);
    small_search_is_exact(f, q)
}

/// A search among more vectors is exact where the first vote is ambiguous: in an index file of
/// at most as many vectors as clusters may be looked at, the neighbours are the nearest of all
/// vectors then.
pub proof fn built_ambiguous_search_is_exact(
    f: Seq<u8>,
    vs: Seq<[i16; DIMS]>,
    labels: Seq<u8>,
    q: Seq<i16>,
) -> (chosen: Seq<int>)
    requires
        is_index_of(f, vs, labels),
        vs.len() <= NPROBE_SLOW,
        ambiguous(verdict(fast_entries(f, q))),
    ensures
        answers_exactly(f, q, chosen),
        record_count(f) == vs.len(),
{
    built_is_sound(f, vs, labels);
    ambiguous_search_is_exact(f, q)
}

} // verus!
