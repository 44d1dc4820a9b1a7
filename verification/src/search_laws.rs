//! What holds of every search.

use crate::index_file::{
    bbox_maxs, bbox_mins, centroids, cluster_count, complete, label_place, offsets, record_count,
    stored_label, stored_vector,
};
use crate::metric::{
    box_distance_bounds_distance, distance, in_box, partial_distance_bounds, row, DIMS,
};
use crate::probes::{is_ranking, ranking_covers, ranking_exists, ranks_before};
use crate::search::{
    ambiguous, cluster_readable, fast_count, fast_entries, final_entries, neighbors, probed, pruned,
    record_distance, refine, scan_cluster, scan_list, scan_range, searchable, NPROBE_FAST,
    NPROBE_SLOW,
};
use crate::top::{accepts, label_of, offer, verdict, worst, worst_is_worst, Entry, K};
use crate::types::Label;
use vstd::prelude::*;
use vstd::set_lib::{lemma_int_range, lemma_len_subset, set_int_range};

verus! {

/// The clusters of `f` follow one another.
pub open spec fn ordered(f: Seq<u8>) -> bool {
    forall|c: int, e: int|
        0 <= c <= e <= cluster_count(f) ==> #[trigger] offsets(f)[c] <= #[trigger] offsets(f)[e]
}

/// The clusters of `f` follow one another from the first record to the last.
pub open spec fn partitioned(f: Seq<u8>) -> bool {
    &&& ordered(f)
    &&& offsets(f)[0] == 0
    &&& offsets(f)[cluster_count(f)] == record_count(f)
}

/// Record `j` belongs to cluster `c`.
pub open spec fn in_cluster(f: Seq<u8>, c: int, j: int) -> bool {
    offsets(f)[c] <= j < offsets(f)[c + 1]
}

/// Each box of `f` encloses the records of its cluster.
pub open spec fn enclosed(f: Seq<u8>) -> bool {
    forall|c: int, j: int|
        0 <= c < cluster_count(f) && #[trigger] in_cluster(f, c, j) ==> in_box(
            stored_vector(f, j),
            row(bbox_mins(f), c),
            row(bbox_maxs(f), c),
        )
}

/// The clusters to probe are the nearest ones.
pub proof fn probed_is_ranking(f: Seq<u8>, q: Seq<i16>)
    ensures
        is_ranking(q, centroids(f), cluster_count(f), NPROBE_SLOW as int, probed(f, q)),
{
    ranking_exists(q, centroids(f), cluster_count(f), NPROBE_SLOW as int);
}

/// A scan of a cluster of a complete file reads nothing outside it, whatever was kept before.
pub proof fn complete_is_readable(f: Seq<u8>, q: Seq<i16>, s: Seq<Entry>, c: int)
    requires
        complete(f),
        0 <= c < cluster_count(f),
    ensures
        label_place(f, 0) <= f.len(),
        cluster_readable(f, q, s, c),
{
    assert(offsets(f)[c + 1] <= record_count(f));
}

/// A search in a complete file reads nothing outside it.
pub proof fn complete_is_searchable(f: Seq<u8>, q: Seq<i16>)
    requires
        complete(f),
    ensures
        searchable(f, q),
{
    probed_is_ranking(f, q);
    let p = probed(f, q);
    let fast = fast_count(f);
    let s = fast_entries(f, q);
    let k = cluster_count(f);
    assert(p.len() >= fast);
    assert forall|t: Seq<Entry>, c: int|
        0 <= c < k implies #[trigger] cluster_readable(f, q, t, c) by {
        complete_is_readable(f, q, t, c);
    }
    assert forall|i: int| 0 <= i < fast implies cluster_readable(
        f,
        q,
        #[trigger] scan_list(f, q, Seq::empty(), p, i),
        p[i] as int,
    ) by {
        assert(p[i] < k);
    }
    assert forall|i: int|
        fast <= i < p.len() && !pruned(
            f,
            q,
            #[trigger] refine(f, q, s, p, fast, i),
            p[i] as int,
        ) implies cluster_readable(f, q, refine(f, q, s, p, fast, i), p[i] as int) by {
        assert(p[i] < k);
    }
}

/// The distance of a record fits an `i64`.
proof fn record_distance_exact(f: Seq<u8>, q: Seq<i16>, j: int)
    ensures
        record_distance(f, q, j) == distance(q, stored_vector(f, j)),
{
    partial_distance_bounds(q, stored_vector(f, j), DIMS as nat);
}

/// Records that are all refused change nothing.
proof fn scan_refused(f: Seq<u8>, q: Seq<i16>, s: Seq<Entry>, start: int, end: int)
    requires
        forall|j: int| start <= j < end ==> !accepts(s, #[trigger] record_distance(f, q, j) as int),
    ensures
        scan_range(f, q, s, start, end) == s,
    decreases end - start,
{
    if start < end {
        scan_refused(f, q, s, start, end - 1);
        assert(!accepts(s, record_distance(f, q, end - 1) as int));
    }
}

/// Where the boxes enclose their clusters, a cluster that is passed over could not have changed
/// anything.
pub proof fn pruning_is_lossless(f: Seq<u8>, q: Seq<i16>, s: Seq<Entry>, c: int)
    requires
        enclosed(f),
        0 <= c < cluster_count(f),
        pruned(f, q, s, c),
    ensures
        scan_cluster(f, q, s, c) == s,
{
    let start = offsets(f)[c] as int;
    let end = offsets(f)[c + 1] as int;
    assert forall|j: int| start <= j < end implies !accepts(
        s,
        #[trigger] record_distance(f, q, j) as int,
    ) by {
        assert(in_cluster(f, c, j));
        box_distance_bounds_distance(
            q,
            stored_vector(f, j),
            row(bbox_mins(f), c),
            row(bbox_maxs(f), c),
        );
        record_distance_exact(f, q, j);
    }
    scan_refused(f, q, s, start, end);
}

/// Where the boxes enclose their clusters, passing clusters over gives what scanning them all
/// gives.
pub proof fn refine_scans_all(
    f: Seq<u8>,
    q: Seq<i16>,
    s: Seq<Entry>,
    p: Seq<usize>,
    from: int,
    to: int,
)
    requires
        enclosed(f),
        0 <= from <= to <= p.len(),
        forall|i: int| 0 <= i < p.len() ==> (#[trigger] p[i]) < cluster_count(f),
    ensures
        refine(f, q, scan_list(f, q, s, p, from), p, from, to) == scan_list(f, q, s, p, to),
    decreases to - from,
{
    if from < to {
        refine_scans_all(f, q, s, p, from, to - 1);
        let t = scan_list(f, q, s, p, to - 1);
        assert(p[to - 1] < cluster_count(f));
        if pruned(f, q, t, p[to - 1] as int) {
            pruning_is_lossless(f, q, t, p[to - 1] as int);
        }
    }
}

/// How many of the probed clusters have their records looked at: those of the first pass, and
/// all of them where the vote of the first pass is ambiguous.
pub open spec fn depth(f: Seq<u8>, q: Seq<i16>) -> int {
    if ambiguous(verdict(fast_entries(f, q))) {
        probed(f, q).len() as int
    } else {
        fast_count(f)
    }
}

/// Where the boxes enclose their clusters, a search keeps what a scan of all clusters that it
/// looks at keeps.
pub proof fn search_scans_depth(f: Seq<u8>, q: Seq<i16>)
    requires
        enclosed(f),
    ensures
        final_entries(f, q) == scan_list(f, q, Seq::empty(), probed(f, q), depth(f, q)),
        depth(f, q) <= NPROBE_SLOW,
        !ambiguous(verdict(fast_entries(f, q))) ==> depth(f, q) <= NPROBE_FAST,
{
    probed_is_ranking(f, q);
    refine_scans_all(
        f,
        q,
        Seq::empty(),
        probed(f, q),
        fast_count(f),
        probed(f, q).len() as int,
    );
}

/// The entries `s` are the records `chosen`, which are the nearest of the records seen.
pub open spec fn are_nearest(
    f: Seq<u8>,
    q: Seq<i16>,
    s: Seq<Entry>,
    chosen: Seq<int>,
    seen: spec_fn(int) -> bool,
) -> bool {
    &&& s.len() == chosen.len()
    &&& s.len() <= K
    &&& forall|i: int|
        0 <= i < s.len() ==> seen(#[trigger] chosen[i]) && s[i] == (
            record_distance(f, q, chosen[i]),
            stored_label(f, chosen[i]),
        )
    &&& forall|i: int, j: int| 0 <= i < j < s.len() ==> chosen[i] != chosen[j]
    &&& forall|r: int|
        #![trigger seen(r)]
        #![trigger chosen.contains(r)]
        seen(r) && !chosen.contains(r) ==> s.len() == K && forall|i: int|
            0 <= i < s.len() ==> (#[trigger] s[i]).0 <= record_distance(f, q, r)
}

/// Offering a record that was not seen yet keeps the nearest ones.
proof fn offer_keeps_nearest(
    f: Seq<u8>,
    q: Seq<i16>,
    s: Seq<Entry>,
    chosen: Seq<int>,
    seen: spec_fn(int) -> bool,
    j: int,
) -> (next: Seq<int>)
    requires
        are_nearest(f, q, s, chosen, seen),
        !seen(j),
    ensures
        are_nearest(
            f,
            q,
            offer(s, record_distance(f, q, j), stored_label(f, j)),
            next,
            |r: int| seen(r) || r == j,
        ),
{
    let d = record_distance(f, q, j);
    let t = offer(s, d, stored_label(f, j));
    let seen2 = |r: int| seen(r) || r == j;
    if s.len() < K {
        let next = chosen.push(j);
        assert forall|i: int| 0 <= i < t.len() implies seen2(#[trigger] next[i]) && t[i] == (
            record_distance(f, q, next[i]),
            stored_label(f, next[i]),
        ) by {
            if i < s.len() {
                assert(seen(chosen[i]));
            }
        }
        assert forall|i: int, l: int| 0 <= i < l < t.len() implies next[i] != next[l] by {
            assert(seen(chosen[i]));
        }
        assert forall|r: int| #[trigger] seen2(r) implies next.contains(r) by {
            if r == j {
                assert(next[s.len() as int] == j);
            } else {
                assert(chosen.contains(r));
                let i = choose|i: int| 0 <= i < chosen.len() && chosen[i] == r;
                assert(next[i] == r);
            }
        }
        next
    } else {
        worst_is_worst(s);
        let w = worst(s);
        if accepts(s, d as int) {
            let next = chosen.update(w, j);
            assert forall|i: int| 0 <= i < t.len() implies seen2(#[trigger] next[i]) && t[i] == (
                record_distance(f, q, next[i]),
                stored_label(f, next[i]),
            ) by {
                assert(seen(chosen[i]));
            }
            assert forall|i: int, l: int| 0 <= i < l < t.len() implies next[i] != next[l] by {
                assert(seen(chosen[i]) && seen(chosen[l]));
            }
            assert forall|r: int|
                #![trigger seen2(r)]
                #![trigger next.contains(r)]
                seen2(r) && !next.contains(r) implies t.len() == K && forall|i: int|
                0 <= i < t.len() ==> (#[trigger] t[i]).0 <= record_distance(f, q, r) by {
                assert(next[w] == j);
                assert(r != j);
                if chosen.contains(r) {
                    let i = choose|i: int| 0 <= i < chosen.len() && chosen[i] == r;
                    if i != w {
                        assert(next[i] == r);
                    }
                    assert(s[w].0 == record_distance(f, q, r));
                } else {
                    assert(seen(r));
                    assert(s[w].0 <= record_distance(f, q, r));
                }
                assert forall|i: int| 0 <= i < t.len() implies (#[trigger] t[i]).0
                    <= record_distance(f, q, r) by {
                    if i != w {
                        assert(t[i] == s[i]);
                    }
                }
            }
            next
        } else {
            assert forall|i: int| 0 <= i < t.len() implies seen2(#[trigger] chosen[i]) by {
                assert(seen(chosen[i]));
            }
            assert forall|r: int|
                #![trigger seen2(r)]
                #![trigger chosen.contains(r)]
                seen2(r) && !chosen.contains(r) implies t.len() == K && forall|i: int|
                0 <= i < t.len() ==> (#[trigger] t[i]).0 <= record_distance(f, q, r) by {
                if r == j {
                    assert forall|i: int| 0 <= i < t.len() implies (#[trigger] t[i]).0
                        <= record_distance(f, q, r) by {
                        assert(s[i].0 <= s[w].0);
                    }
                } else {
                    assert(seen(r));
                }
            }
            chosen
        }
    }
}

/// Entries that are the nearest of some records are so whichever way these are told.
proof fn nearest_by_any_name(
    f: Seq<u8>,
    q: Seq<i16>,
    s: Seq<Entry>,
    chosen: Seq<int>,
    seen: spec_fn(int) -> bool,
    seen2: spec_fn(int) -> bool,
)
    requires
        are_nearest(f, q, s, chosen, seen),
        forall|r: int| #[trigger] seen(r) == #[trigger] seen2(r),
    ensures
        are_nearest(f, q, s, chosen, seen2),
{
    assert forall|i: int| 0 <= i < s.len() implies seen2(#[trigger] chosen[i]) by {
        assert(seen(chosen[i]));
    }
    assert forall|r: int|
        #![trigger seen2(r)]
        #![trigger chosen.contains(r)]
        seen2(r) && !chosen.contains(r) implies s.len() == K && forall|i: int|
        0 <= i < s.len() ==> (#[trigger] s[i]).0 <= record_distance(f, q, r) by {
        assert(seen(r));
    }
}

/// Scanning records that were not seen yet keeps the nearest ones.
proof fn scan_range_keeps_nearest(
    f: Seq<u8>,
    q: Seq<i16>,
    s: Seq<Entry>,
    chosen: Seq<int>,
    seen: spec_fn(int) -> bool,
    start: int,
    end: int,
) -> (next: Seq<int>)
    requires
        are_nearest(f, q, s, chosen, seen),
        forall|j: int| start <= j < end ==> !#[trigger] seen(j),
    ensures
        are_nearest(
            f,
            q,
            scan_range(f, q, s, start, end),
            next,
            |r: int| seen(r) || start <= r < end,
        ),
    decreases end - start,
{
    let all = |r: int| seen(r) || start <= r < end;
    if end <= start {
        nearest_by_any_name(f, q, s, chosen, seen, all);
        chosen
    } else {
        let part = |r: int| seen(r) || start <= r < end - 1;
        let before = scan_range_keeps_nearest(f, q, s, chosen, seen, start, end - 1);
        assert(!seen(end - 1));
        let next = offer_keeps_nearest(
            f,
            q,
            scan_range(f, q, s, start, end - 1),
            before,
            part,
            end - 1,
        );
        nearest_by_any_name(
            f,
            q,
            scan_range(f, q, s, start, end),
            next,
            |r: int| part(r) || r == end - 1,
            all,
        );
        next
    }
}

/// The records of the first `m` clusters of the list `p`.
pub open spec fn records_of(f: Seq<u8>, p: Seq<usize>, m: int) -> spec_fn(int) -> bool {
    |j: int| exists|x: int| 0 <= x < m && in_cluster(f, #[trigger] p[x] as int, j)
}

/// Different clusters of an ordered file share no record.
pub proof fn clusters_apart(f: Seq<u8>, c: int, e: int, j: int)
    requires
        ordered(f),
        0 <= c < cluster_count(f),
        0 <= e < cluster_count(f),
        in_cluster(f, c, j),
        in_cluster(f, e, j),
    ensures
        c == e,
{
    if c < e {
        assert(offsets(f)[c + 1] <= offsets(f)[e]);
    } else if e < c {
        assert(offsets(f)[e + 1] <= offsets(f)[c]);
    }
}

/// Scanning different clusters in turn keeps the nearest of their records.
pub proof fn scan_list_keeps_nearest(
    f: Seq<u8>,
    q: Seq<i16>,
    p: Seq<usize>,
    m: int,
) -> (chosen: Seq<int>)
    requires
        ordered(f),
        0 <= m <= p.len(),
        forall|i: int| 0 <= i < p.len() ==> (#[trigger] p[i]) < cluster_count(f),
        forall|i: int, j: int| 0 <= i < j < p.len() ==> p[i] != p[j],
    ensures
        are_nearest(f, q, scan_list(f, q, Seq::empty(), p, m), chosen, records_of(f, p, m)),
    decreases m,
{
    if m == 0 {
        let none = Seq::<int>::empty();
        assert(are_nearest(f, q, scan_list(f, q, Seq::empty(), p, 0), none, records_of(f, p, 0)));
        none
    } else {
        let before = scan_list_keeps_nearest(f, q, p, m - 1);
        let seen = records_of(f, p, m - 1);
        let c = p[m - 1] as int;
        let start = offsets(f)[c] as int;
        let end = offsets(f)[c + 1] as int;
        assert forall|j: int| start <= j < end implies !#[trigger] seen(j) by {
            if seen(j) {
                let x = choose|x: int| 0 <= x < m - 1 && in_cluster(f, #[trigger] p[x] as int, j);
                clusters_apart(f, p[x] as int, c, j);
            }
        }
        let s = scan_list(f, q, Seq::empty(), p, m - 1);
        let next = scan_range_keeps_nearest(f, q, s, before, seen, start, end);
        let all = records_of(f, p, m);
        let now = |r: int| seen(r) || start <= r < end;
        assert forall|r: int| #[trigger] now(r) == #[trigger] all(r) by {
            if seen(r) {
                let x = choose|x: int| 0 <= x < m - 1 && in_cluster(f, #[trigger] p[x] as int, r);
                assert(in_cluster(f, p[x] as int, r));
            }
            if start <= r < end {
                assert(in_cluster(f, p[m - 1] as int, r));
            }
            if all(r) {
                let x = choose|x: int| 0 <= x < m && in_cluster(f, #[trigger] p[x] as int, r);
                if x < m - 1 {
                    assert(in_cluster(f, p[x] as int, r));
                }
            }
        }
        nearest_by_any_name(f, q, scan_list(f, q, Seq::empty(), p, m), next, now, all);
        next
    }
}

/// In an ordered file whose boxes enclose their clusters, the neighbours of a query are the
/// labels of the nearest records of the clusters that the search looks at: at most
/// `NPROBE_FAST` of the nearest clusters, or up to `NPROBE_SLOW` of them where the vote is
/// ambiguous.
pub proof fn search_finds_nearest(f: Seq<u8>, q: Seq<i16>) -> (chosen: Seq<int>)
    requires
        ordered(f),
        enclosed(f),
    ensures
        are_nearest(f, q, final_entries(f, q), chosen, records_of(f, probed(f, q), depth(f, q))),
        neighbors(f, q) == verdict(final_entries(f, q)),
{
    search_scans_depth(f, q);
    probed_is_ranking(f, q);
    let p = probed(f, q);
    assert forall|i: int, j: int| 0 <= i < j < p.len() implies p[i] != p[j] by {
        assert(ranks_before(q, centroids(f), p[i] as int, p[j] as int));
    }
    scan_list_keeps_nearest(f, q, p, depth(f, q))
}

/// Where as many records are looked at as there are, the nearest ones are all of them or `K`.
proof fn nearest_of_all_count(
    f: Seq<u8>,
    q: Seq<i16>,
    s: Seq<Entry>,
    chosen: Seq<int>,
    n: int,
)
    requires
        0 <= n,
        are_nearest(f, q, s, chosen, |j: int| 0 <= j < n),
    ensures
        chosen.len() == if n < K { n } else { K as int },
{
    let all = |j: int| 0 <= j < n;
    let range = set_int_range(0, n);
    let picked = chosen.to_set();
    lemma_int_range(0, n);
    chosen.unique_seq_to_set();
    assert(picked.subset_of(range)) by {
        assert forall|r: int| picked.contains(r) implies range.contains(r) by {
            let i = choose|i: int| 0 <= i < chosen.len() && chosen[i] == r;
            assert(all(chosen[i]));
        }
    }
    lemma_len_subset(picked, range);
    if s.len() < K {
        assert(range.subset_of(picked)) by {
            assert forall|r: int| range.contains(r) implies picked.contains(r) by {
                assert(all(r));
                assert(chosen.contains(r));
            }
        }
        lemma_len_subset(range, picked);
    }
}

/// `chosen` are the nearest of all records of `f`, and the answer to `q` is made of their labels:
/// as many records as there are, but at most `K`, each once, none of which is farther than a
/// record left out; places without a record count as legitimate.
pub open spec fn answers_exactly(f: Seq<u8>, q: Seq<i16>, chosen: Seq<int>) -> bool {
    let n = record_count(f);
    &&& are_nearest(f, q, final_entries(f, q), chosen, |j: int| 0 <= j < n)
    &&& chosen.len() == if n < K { n } else { K as int }
    &&& forall|i: int|
        0 <= i < K ==> #[trigger] neighbors(f, q)[i] == if i < chosen.len() {
            label_of(stored_label(f, chosen[i]))
        } else {
            Label::Legit
        }
}

/// A search whose clusters are all looked at is exact.
proof fn full_depth_is_exact(f: Seq<u8>, q: Seq<i16>) -> (chosen: Seq<int>)
    requires
        partitioned(f),
        cluster_count(f) <= NPROBE_SLOW,
        final_entries(f, q) == scan_list(f, q, Seq::empty(), probed(f, q), cluster_count(f)),
    ensures
        answers_exactly(f, q, chosen),
{
    let k = cluster_count(f);
    let p = probed(f, q);
    let s = final_entries(f, q);
    probed_is_ranking(f, q);
    ranking_covers(q, centroids(f), k, NPROBE_SLOW as int);
    assert forall|i: int, j: int| 0 <= i < j < p.len() implies p[i] != p[j] by {
        assert(ranks_before(q, centroids(f), p[i] as int, p[j] as int));
    }
    let chosen = scan_list_keeps_nearest(f, q, p, k);
    let some = records_of(f, p, k);
    let n = record_count(f);
    let all = |j: int| 0 <= j < n;
    assert forall|r: int| #[trigger] some(r) == #[trigger] all(r) by {
        if some(r) {
            let x = choose|x: int| 0 <= x < k && in_cluster(f, #[trigger] p[x] as int, r);
            let c = p[x] as int;
            assert(offsets(f)[0] <= offsets(f)[c] && offsets(f)[c + 1] <= offsets(f)[k]);
        }
        if all(r) {
            let c = cluster_of_record(f, r, k);
            assert(p.contains(c as usize));
            let x = choose|x: int| 0 <= x < p.len() && p[x] == c as usize;
            assert(in_cluster(f, p[x] as int, r));
        }
    }
    nearest_by_any_name(f, q, s, chosen, some, all);
    nearest_of_all_count(f, q, s, chosen, n);
    assert forall|i: int| 0 <= i < K implies #[trigger] neighbors(f, q)[i] == if i < chosen.len() {
        label_of(stored_label(f, chosen[i]))
    } else {
        Label::Legit
    } by {
        if i < chosen.len() {
            assert(all(chosen[i]));
        }
    }
    chosen
}

/// In a file of few clusters a search is exact: the neighbours are the labels of the nearest of
/// all records.
pub proof fn small_search_is_exact(f: Seq<u8>, q: Seq<i16>) -> (chosen: Seq<int>)
    requires
        partitioned(f),
        cluster_count(f) <= NPROBE_FAST,
    ensures
        are_nearest(f, q, final_entries(f, q), chosen, |j: int| 0 <= j < record_count(f)),
        answers_exactly(f, q, chosen),
{
    let k = cluster_count(f);
    probed_is_ranking(f, q);
    assert(probed(f, q).len() == k && fast_count(f) == k);
    assert(refine(f, q, fast_entries(f, q), probed(f, q), k, k) == fast_entries(f, q));
    full_depth_is_exact(f, q)
}

/// Where the first vote is ambiguous, a search in a file of no more clusters than may be looked
/// at is exact, although it passes clusters over: the neighbours are the labels of the nearest
/// of all records.
pub proof fn ambiguous_search_is_exact(f: Seq<u8>, q: Seq<i16>) -> (chosen: Seq<int>)
    requires
        partitioned(f),
        enclosed(f),
        cluster_count(f) <= NPROBE_SLOW,
        ambiguous(verdict(fast_entries(f, q))),
    ensures
        are_nearest(f, q, final_entries(f, q), chosen, |j: int| 0 <= j < record_count(f)),
        answers_exactly(f, q, chosen),
{
    probed_is_ranking(f, q);
    search_scans_depth(f, q);
    full_depth_is_exact(f, q)
}

/// A record before the end of cluster `m - 1` belongs to one of the first `m` clusters.
proof fn cluster_of_record(f: Seq<u8>, r: int, m: int) -> (c: int)
    requires
        0 <= m <= cluster_count(f),
        offsets(f)[0] == 0,
        0 <= r < offsets(f)[m],
    ensures
        0 <= c < m,
        in_cluster(f, c, r),
    decreases m,
{
    if r < offsets(f)[m - 1] {
        cluster_of_record(f, r, m - 1)
    } else {
        m - 1
    }
}

/// No entry lies farther than `bound`, and all places are taken.
pub open spec fn full_within(s: Seq<Entry>, bound: int) -> bool {
    &&& s.len() == K
    &&& forall|i: int| 0 <= i < s.len() ==> (#[trigger] s[i]).0 <= bound
}

proof fn offer_stays_within(s: Seq<Entry>, d: i64, label: u8, bound: int)
    requires
        full_within(s, bound),
    ensures
        full_within(offer(s, d, label), bound),
{
    if accepts(s, d as int) {
        worst_is_worst(s);
    }
}

proof fn scan_stays_within(
    f: Seq<u8>,
    q: Seq<i16>,
    s: Seq<Entry>,
    start: int,
    end: int,
    bound: int,
)
    requires
        full_within(s, bound),
    ensures
        full_within(scan_range(f, q, s, start, end), bound),
    decreases end - start,
{
    if start < end {
        scan_stays_within(f, q, s, start, end - 1, bound);
        offer_stays_within(
            scan_range(f, q, s, start, end - 1),
            record_distance(f, q, end - 1),
            stored_label(f, end - 1),
            bound,
        );
    }
}

/// Looking at more clusters brings nearer neighbours only: none of the entries kept then lies
/// farther than the farthest one before.
pub proof fn more_clusters_never_worsen(
    f: Seq<u8>,
    q: Seq<i16>,
    s: Seq<Entry>,
    p: Seq<usize>,
    from: int,
    to: int,
    bound: int,
)
    requires
        full_within(s, bound),
    ensures
        full_within(refine(f, q, s, p, from, to), bound),
    decreases to - from,
{
    if from < to {
        more_clusters_never_worsen(f, q, s, p, from, to - 1, bound);
        let t = refine(f, q, s, p, from, to - 1);
        let c = p[to - 1] as int;
        scan_stays_within(f, q, t, offsets(f)[c] as int, offsets(f)[c + 1] as int, bound);
    }
}

} // verus!
