//! How vectors are laid out in an index file.

use crate::build_laws::built_is_sound;
use crate::builder::{
    below, below_monotone, below_next, clustered, clusters_disjoint, corners_enclose,
    extremes_attained, is_grouping, is_index_of, lower_corners, place, place_in_cluster,
    upper_corners,
};
use crate::bytes::le_u32;
use crate::index_file::{
    bbox_maxs, bbox_mins, centroids, header_error, offsets, stored_label, stored_vector,
};
use crate::index_writer::record_byte;
use crate::kmeans::{cluster_size, trained};
use crate::metric::{distance, row};
use crate::training_laws::nearest_centroid;
use vstd::prelude::*;

verus! {

/// The records before a cluster are those that are assigned to earlier clusters.
pub proof fn records_before_cluster(a: Seq<u32>, c: int)
    ensures
        below(a, c, a.len() as int) == a.filter(|x: u32| x < c).len(),
    decreases a.len(),
{
    reveal(Seq::filter);
    if a.len() > 0 {
        let rest = a.drop_last();
        records_before_cluster(rest, c);
        below_of_prefix(a, rest, c, rest.len() as int);
    }
}

proof fn below_of_prefix(a: Seq<u32>, b: Seq<u32>, c: int, m: int)
    requires
        m <= a.len(),
        m <= b.len(),
        forall|i: int| 0 <= i < m ==> a[i] == b[i],
    ensures
        below(a, c, m) == below(b, c, m),
    decreases m,
{
    if m > 0 {
        below_of_prefix(a, b, c, m - 1);
    }
}

/// A grouping lists every vector once, in the order of the clusters, and those of a cluster in
/// the order in which they came.
pub proof fn grouping_is_sorted(a: Seq<u32>, order: Seq<usize>, p: int, r: int, i: int)
    requires
        is_grouping(a, order),
        0 <= p < r < a.len(),
        0 <= i < a.len(),
    ensures
        order.len() == a.len(),
        order[p] < a.len(),
        order[p] != order[r],
        order.contains(i as usize),
        a[order[p] as int] < a[order[r] as int] || (a[order[p] as int] == a[order[r] as int]
            && order[p] < order[r]),
{
    let x = order[p] as int;
    let y = order[r] as int;
    assert(place(a, x) == p && place(a, y) == r);
    assert(order[place(a, i)] == i);
    place_in_cluster(a, x);
    place_in_cluster(a, y);
    let n = a.len() as int;
    if a[x] > a[y] {
        below_monotone(a, a[y] + 1, a[x] as int, n);
    } else if a[x] == a[y] && x > y {
        sizes_grow(a, a[x] as int, y, x);
    }
}

proof fn sizes_grow(a: Seq<u32>, c: int, lo: int, hi: int)
    requires
        0 <= lo <= hi <= a.len(),
    ensures
        cluster_size(a, c, 0, lo) <= cluster_size(a, c, 0, hi),
    decreases hi - lo,
{
    if lo < hi {
        sizes_grow(a, c, lo, hi - 1);
    }
}

/// A cluster with a member has a size.
proof fn member_counts(a: Seq<u32>, c: int, i: int, m: int)
    requires
        0 <= i < m <= a.len(),
        a[i] == c,
    ensures
        cluster_size(a, c, 0, m) > 0,
    decreases m,
{
    if i == m - 1 {
        sizes_grow(a, c, 0, i);
    } else {
        member_counts(a, c, i, m - 1);
    }
}

/// A cluster without a member has none.
proof fn no_member_no_size(a: Seq<u32>, c: int, m: int)
    requires
        0 <= m <= a.len(),
        forall|i: int| 0 <= i < m ==> a[i] != c,
    ensures
        cluster_size(a, c, 0, m) == 0,
    decreases m,
{
    if m > 0 {
        no_member_no_size(a, c, m - 1);
    }
}

/// The corners of the box of a cluster are the least and the greatest coordinate of its members,
/// or zero if it has none.
pub proof fn box_corners(vs: Seq<[i16; 14]>, a: Seq<u32>, nlist: int, c: int, d: int)
    requires
        vs.len() == a.len(),
        0 <= c < nlist,
        0 <= d < 14,
    ensures
        lower_corners(vs, a, nlist).len() == 14 * nlist,
        upper_corners(vs, a, nlist).len() == 14 * nlist,
        (forall|i: int| 0 <= i < a.len() ==> #[trigger] a[i] != c) ==> {
            &&& lower_corners(vs, a, nlist)[14 * c + d] == 0
            &&& upper_corners(vs, a, nlist)[14 * c + d] == 0
        },
        forall|i: int|
            0 <= i < a.len() && #[trigger] a[i] == c ==> lower_corners(vs, a, nlist)[14 * c + d]
                <= vs[i]@[d] <= upper_corners(vs, a, nlist)[14 * c + d],
        (exists|i: int| 0 <= i < a.len() && #[trigger] a[i] == c) ==> exists|i: int, j: int|
            0 <= i < a.len() && 0 <= j < a.len() && a[i] == c && a[j] == c && #[trigger] vs[i]@[d]
                == lower_corners(vs, a, nlist)[14 * c + d] && #[trigger] vs[j]@[d]
                == upper_corners(vs, a, nlist)[14 * c + d],
{
    let n = a.len() as int;
    let x = 14 * c + d;
    assert(x / 14 == c && x % 14 == d && x < 14 * nlist);
    let lo = lower_corners(vs, a, nlist);
    let hi = upper_corners(vs, a, nlist);
    if forall|i: int| 0 <= i < a.len() ==> #[trigger] a[i] != c {
        no_member_no_size(a, c, n);
    }
    assert forall|i: int| 0 <= i < a.len() && #[trigger] a[i] == c implies lo[x] <= vs[i]@[d]
        <= hi[x] by {
        corners_enclose(vs, a, nlist, i);
        assert(row(lo, c)[d] == lo[x] && row(hi, c)[d] == hi[x]);
    }
    if exists|i: int| 0 <= i < a.len() && #[trigger] a[i] == c {
        let e = choose|i: int| 0 <= i < a.len() && #[trigger] a[i] == c;
        member_counts(a, c, e, n);
        extremes_attained(vs, a, c, d, n);
        let i = choose|i: int| 0 <= i < n && a[i] == c && #[trigger] vs[i]@[d] == lo[x];
        let j = choose|i: int| 0 <= i < n && a[i] == c && #[trigger] vs[i]@[d] == hi[x];
        assert(vs[i]@[d] == lo[x] && vs[j]@[d] == hi[x]);
    }
}

/// Every vector belongs to the cluster whose trained centroid is nearest to it, and to the first
/// of those that are as near.
pub proof fn vectors_clustered(vs: Seq<[i16; 14]>, i: int, c: int)
    requires
        vs.len() <= u32::MAX,
        0 <= i < vs.len(),
        0 <= c < if vs.len() < 2048 { vs.len() as int } else { 2048 },
    ensures
        clustered(vs).len() == vs.len(),
        ({
            let r = clustered(vs)[i] as int;
            &&& 0 <= r < if vs.len() < 2048 { vs.len() as int } else { 2048 }
            &&& distance(vs[i]@, row(trained(vs), r)) <= distance(vs[i]@, row(trained(vs), c))
            &&& distance(vs[i]@, row(trained(vs), r)) == distance(vs[i]@, row(trained(vs), c)) ==> r
                <= c
        }),
{
    let k: int = if vs.len() < 2048 { vs.len() as int } else { 2048 };
    nearest_centroid(vs[i]@, trained(vs), k, c);
}

/// The file of labelled vectors: its header, its length, its centroids and its padding.
pub proof fn built_frame(f: Seq<u8>, vs: Seq<[i16; 14]>, labels: Seq<u8>, j: int, b: int)
    requires
        is_index_of(f, vs, labels),
        vs.len() <= u32::MAX,
    ensures
        header_error(f) is None,
        le_u32(f, 8) == if vs.len() < 2048 { vs.len() as int } else { 2048 },
        le_u32(f, 12) == vs.len(),
        f.len() == 24 + 88 * le_u32(f, 8) + 33 * vs.len(),
        centroids(f) == trained(vs),
        0 <= j < vs.len() && 28 <= b < 32 ==> f[24 + 88 * le_u32(f, 8) + 32 * j + b] == 0,
{
    if 0 <= j < vs.len() && 28 <= b < 32 {
        assert(record_byte(f, j, b) == 0);
    }
}

/// The file of labelled vectors holds each of them once, with its label.
pub proof fn built_holds_all(f: Seq<u8>, vs: Seq<[i16; 14]>, labels: Seq<u8>) -> (places: Seq<int>)
    requires
        is_index_of(f, vs, labels),
        vs.len() <= u32::MAX,
    ensures
        places.len() == vs.len(),
        forall|i: int, j: int| 0 <= i < j < places.len() ==> places[i] != places[j],
        forall|i: int|
            0 <= i < places.len() ==> 0 <= #[trigger] places[i] < vs.len() && stored_vector(
                f,
                places[i],
            ) == vs[i]@ && stored_label(f, places[i]) == labels[i],
{
    let a = clustered(vs);
    let places = Seq::new(vs.len(), |i: int| place(a, i));
    assert forall|i: int, j: int| 0 <= i < j < places.len() implies places[i] != places[j] by {
        places_apart(a, i, j);
    }
    assert forall|i: int| 0 <= i < places.len() implies 0 <= #[trigger] places[i] < vs.len()
        && stored_vector(f, places[i]) == vs[i]@ && stored_label(f, places[i]) == labels[i] by {
        assert(0 <= place(a, i) < vs.len());
    }
    places
}

proof fn places_apart(a: Seq<u32>, i: int, j: int)
    requires
        0 <= i < j < a.len(),
    ensures
        place(a, i) != place(a, j),
{
    let n = a.len() as int;
    place_in_cluster(a, i);
    place_in_cluster(a, j);
    if a[i] == a[j] {
        sizes_grow(a, a[i] as int, i + 1, j);
    } else if place(a, i) == place(a, j) {
        clusters_disjoint(a, place(a, i), a[i] as int, a[j] as int);
    }
}

/// In the file of labelled vectors the box of a cluster is tight: its corners are the least and
/// the greatest coordinates of the records of the cluster, each of which some record has; a
/// cluster without records has a box of zeros.
pub proof fn built_boxes_tight(f: Seq<u8>, vs: Seq<[i16; 14]>, labels: Seq<u8>, c: int, d: int)
    requires
        is_index_of(f, vs, labels),
        vs.len() <= u32::MAX,
        0 <= c < le_u32(f, 8),
        0 <= d < 14,
    ensures
        ({
            let lo = bbox_mins(f)[14 * c + d];
            let hi = bbox_maxs(f)[14 * c + d];
            let start = offsets(f)[c];
            let end = offsets(f)[c + 1];
            &&& start == end ==> lo == 0 && hi == 0
            &&& forall|j: int|
                start <= j < end ==> lo <= (#[trigger] stored_vector(f, j))[d]
                    && stored_vector(f, j)[d] <= hi
            &&& start < end ==> exists|j: int, h: int|
                start <= j < end && start <= h < end && (#[trigger] stored_vector(f, j))[d] == lo
                    && (#[trigger] stored_vector(f, h))[d] == hi
        }),
{
    let n = vs.len() as int;
    let k = le_u32(f, 8) as int;
    let a = clustered(vs);
    let start = offsets(f)[c] as int;
    let end = offsets(f)[c + 1] as int;
    let x = 14 * c + d;
    let lo = lower_corners(vs, a, k);
    let hi = upper_corners(vs, a, k);
    box_corners(vs, a, k, c, d);
    assert(start == below(a, c, n) && end == below(a, c + 1, n));
    below_next(a, c, n);
    built_is_sound(f, vs, labels);
    if start == end {
        assert forall|i: int| 0 <= i < a.len() implies #[trigger] a[i] != c by {
            if a[i] == c {
                member_counts(a, c, i, n);
            }
        }
    }
    assert forall|j: int| start <= j < end implies lo[x] <= (#[trigger] stored_vector(f, j))[d]
        && stored_vector(f, j)[d] <= hi[x] by {
        let i = crate::build_laws::member_at_place(a, c, j);
        assert(stored_vector(f, place(a, i)) == vs[i]@);
        assert(a[i] == c);
    }
    if start < end {
        let e = crate::build_laws::member_at_place(a, c, start);
        assert(a[e] == c);
        let (i, j) = choose|i: int, j: int|
            0 <= i < a.len() && 0 <= j < a.len() && a[i] == c && a[j] == c && #[trigger] vs[i]@[d]
                == lo[x] && #[trigger] vs[j]@[d] == hi[x];
        place_in_cluster(a, i);
        place_in_cluster(a, j);
        assert(stored_vector(f, place(a, i)) == vs[i]@);
        assert(stored_vector(f, place(a, j)) == vs[j]@);
    }
}

} // verus!
