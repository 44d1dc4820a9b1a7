//! The two passes of a search, step by step and as a whole.

use crate::index_file::{
    bbox_maxs, bbox_mins, centroids, cluster_count, offsets, record_count, stored_label,
    stored_vector,
};
use crate::metric::{box_distance, distance, partial_distance_bounds, row};
use crate::metric_laws::distance_terms;
use crate::probes::{ranking, ranking_exists, ranks_before};
use crate::search::{
    ambiguous, checksum, fast_count, fast_entries, final_entries, line_count, neighbors, probed,
    pruned, record_distance, refine, scan_cluster, scan_list, scan_range, xor_lines, xor_numbers,
};
use crate::search_laws::{
    ambiguous_search_is_exact, enclosed, in_cluster, ordered, partitioned, probed_is_ranking,
    records_of, scan_list_keeps_nearest,
};
use crate::decision_laws::fraud_count_of_five;
use crate::top::{accepts, label_of, offer, verdict, worst, worst_is_worst, Entry};
use crate::types::Label;
use vstd::prelude::*;

verus! {

/// A record is kept if there is room among five, or if some entry lies farther than it.
pub proof fn kept_if_nearer(s: Seq<Entry>, d: int)
    requires
        s.len() > 0,
    ensures
        accepts(s, d) <==> s.len() < 5 || exists|i: int|
            0 <= i < s.len() && d < (#[trigger] s[i]).0,
{
    worst_is_worst(s);
}

/// An empty list of entries has room.
pub proof fn empty_has_room(d: int)
    ensures
        accepts(Seq::<Entry>::empty(), d),
{
}

/// What an offered record changes: with fewer than five entries it is appended. Otherwise it
/// takes the place of the first of the farthest entries, if that one lies farther than it, and
/// is dropped if none does.
pub proof fn offered_record(s: Seq<Entry>, d: i64, label: u8, w: int)
    ensures
        s.len() < 5 ==> offer(s, d, label) == s.push((d, label)),
        s.len() == 5 && (forall|i: int| 0 <= i < 5 ==> (#[trigger] s[i]).0 <= d) ==> s == offer(
            s,
            d,
            label,
        ),
        s.len() == 5 && 0 <= w < 5 && s[w].0 > d && (forall|i: int|
            0 <= i < 5 ==> (#[trigger] s[i]).0 <= s[w].0) && (forall|i: int|
            0 <= i < w ==> (#[trigger] s[i]).0 < s[w].0) ==> offer(s, d, label) == s.update(
            w,
            (d, label),
        ),
{
    if s.len() == 5 {
        worst_is_worst(s);
        let v = worst(s);
        if 0 <= w < 5 && (forall|i: int| 0 <= i < 5 ==> (#[trigger] s[i]).0 <= s[w].0) && (forall|
            i: int,
        |
            0 <= i < w ==> (#[trigger] s[i]).0 < s[w].0) {
            assert(s[v].0 <= s[w].0);
            assert(s[w].0 <= s[v].0);
            if v < w {
                assert(s[v].0 < s[w].0);
            } else if w < v {
                assert(s[w].0 < s[v].0);
            }
            assert(v == w);
        }
    }
}

/// The byte one stands for fraud, and any other for a legitimate transaction.
pub proof fn label_bytes(b: u8)
    ensures
        label_of(b) == Label::Fraud <==> b == 1,
{
}

/// Five labels come out of the entries: fraud where an entry has the label byte one, and
/// legitimate everywhere else.
pub proof fn verdict_labels(s: Seq<Entry>, i: int)
    requires
        0 <= i < 5,
    ensures
        verdict(s).len() == 5,
        verdict(s)[i] == Label::Fraud <==> i < s.len() && s[i].1 == 1,
{
}

/// A record is as far from a query as the sum of the squared differences of all 14 coordinates.
pub proof fn record_distance_terms(f: Seq<u8>, q: Seq<i16>, j: int)
    ensures
        ({
            let v = stored_vector(f, j);
            record_distance(f, q, j) == (q[0] - v[0]) * (q[0] - v[0]) + (q[1] - v[1]) * (q[1]
                - v[1]) + (q[2] - v[2]) * (q[2] - v[2]) + (q[3] - v[3]) * (q[3] - v[3]) + (q[4]
                - v[4]) * (q[4] - v[4]) + (q[5] - v[5]) * (q[5] - v[5]) + (q[6] - v[6]) * (q[6]
                - v[6]) + (q[7] - v[7]) * (q[7] - v[7]) + (q[8] - v[8]) * (q[8] - v[8]) + (q[9]
                - v[9]) * (q[9] - v[9]) + (q[10] - v[10]) * (q[10] - v[10]) + (q[11] - v[11]) * (
            q[11] - v[11]) + (q[12] - v[12]) * (q[12] - v[12]) + (q[13] - v[13]) * (q[13] - v[13])
        }),
{
    partial_distance_bounds(q, stored_vector(f, j), 14);
    distance_terms(q, stored_vector(f, j));
}

/// A scan of records offers one after the other, each with its distance and its label.
pub proof fn scanned_records(f: Seq<u8>, q: Seq<i16>, s: Seq<Entry>, start: int, end: int)
    ensures
        end <= start ==> scan_range(f, q, s, start, end) == s,
        start < end ==> scan_range(f, q, s, start, end) == offer(
            scan_range(f, q, s, start, end - 1),
            record_distance(f, q, end - 1),
            stored_label(f, end - 1),
        ),
{
}

/// A scan of a cluster is a scan of its records: those from its offset up to the next one.
pub proof fn scanned_cluster(f: Seq<u8>, q: Seq<i16>, s: Seq<Entry>, c: int)
    ensures
        scan_cluster(f, q, s, c) == scan_range(
            f,
            q,
            s,
            offsets(f)[c] as int,
            offsets(f)[c + 1] as int,
        ),
{
}

/// A scan of clusters scans one after the other.
pub proof fn scanned_clusters(f: Seq<u8>, q: Seq<i16>, s: Seq<Entry>, p: Seq<usize>, m: int)
    ensures
        scan_list(f, q, s, p, 0) == s,
        m > 0 ==> scan_list(f, q, s, p, m) == scan_cluster(
            f,
            q,
            scan_list(f, q, s, p, m - 1),
            p[m - 1] as int,
        ),
{
}

/// A cluster is passed over exactly if there are five entries and none of them lies farther
/// than its box.
pub proof fn passed_over(f: Seq<u8>, q: Seq<i16>, s: Seq<Entry>, c: int)
    requires
        s.len() <= 5,
    ensures
        pruned(f, q, s, c) <==> s.len() == 5 && forall|i: int|
            0 <= i < 5 ==> (#[trigger] s[i]).0 <= box_distance(
                q,
                row(bbox_mins(f), c),
                row(bbox_maxs(f), c),
            ),
{
    if s.len() == 5 {
        worst_is_worst(s);
    }
}

/// The second pass takes the clusters in turn, and scans those that are not passed over.
pub proof fn second_pass(
    f: Seq<u8>,
    q: Seq<i16>,
    s: Seq<Entry>,
    p: Seq<usize>,
    from: int,
    to: int,
)
    ensures
        to <= from ==> refine(f, q, s, p, from, to) == s,
        from < to ==> ({
            let t = refine(f, q, s, p, from, to - 1);
            refine(f, q, s, p, from, to) == if pruned(f, q, t, p[to - 1] as int) {
                t
            } else {
                scan_cluster(f, q, t, p[to - 1] as int)
            }
        }),
{
}

/// A first vote is ambiguous exactly if two or three of its five labels are fraud, wherever they
/// stand.
pub proof fn ambiguous_by_count(l: Seq<Label>)
    requires
        l.len() == 5,
    ensures
        ambiguous(l) <==> 2 <= (if l[0] == Label::Fraud { 1int } else { 0 }) + (if l[1]
            == Label::Fraud { 1int } else { 0 }) + (if l[2] == Label::Fraud { 1int } else { 0 })
            + (if l[3] == Label::Fraud { 1int } else { 0 }) + (if l[4] == Label::Fraud {
            1int
        } else { 0 }) <= 3,
{
    fraud_count_of_five(l);
}

/// A ranking lists as many clusters as asked for, or all if there are fewer, each once, in the
/// order of the distances of their centroids from the query, with the earlier cluster first where
/// two are as far; and no cluster left out would come before one of them.
pub proof fn ranked_clusters(q: Seq<i16>, table: Seq<i16>, k: int, m: int)
    requires
        0 <= k <= usize::MAX,
        0 < m,
    ensures
        ({
            let p = ranking(q, table, k, m);
            let far = |c: int| distance(q, row(table, c));
            &&& p.len() == if k < m { k } else { m }
            &&& forall|i: int| 0 <= i < p.len() ==> (#[trigger] p[i]) < k
            &&& forall|i: int, j: int|
                #![trigger p[i], p[j]]
                0 <= i < j < p.len() ==> p[i] != p[j] && (far(p[i] as int) < far(p[j] as int) || (
                far(p[i] as int) == far(p[j] as int) && p[i] < p[j]))
            &&& forall|c: int, i: int|
                #![trigger p.contains(c as usize), p[i]]
                0 <= c < k && !p.contains(c as usize) && 0 <= i < p.len() ==> far(p[i] as int)
                    < far(c) || (far(p[i] as int) == far(c) && p[i] < c)
        }),
{
    ranking_exists(q, table, k, m);
    let p = ranking(q, table, k, m);
    assert forall|i: int, j: int|
        #![trigger p[i], p[j]]
        0 <= i < j < p.len() implies ranks_before(q, table, p[i] as int, p[j] as int) by {}
    assert forall|c: int, i: int|
        #![trigger p.contains(c as usize), p[i]]
        0 <= c < k && !p.contains(c as usize) && 0 <= i < p.len() implies ranks_before(
        q,
        table,
        p[i] as int,
        c,
    ) by {}
}

/// A query may look at the first hundred clusters of the ranking by the centroids of the file.
pub proof fn probed_clusters(f: Seq<u8>, q: Seq<i16>)
    ensures
        probed(f, q) == ranking(q, centroids(f), cluster_count(f), 100),
{
}

/// The first pass scans the eight nearest clusters, or all if there are fewer, and starts with
/// no entries.
pub proof fn first_pass(f: Seq<u8>, q: Seq<i16>)
    ensures
        fast_count(f) == if cluster_count(f) < 8 { cluster_count(f) } else { 8 },
        fast_entries(f, q) == scan_list(
            f,
            q,
            Seq::empty(),
            probed(f, q),
            if cluster_count(f) < 8 { cluster_count(f) } else { 8 },
        ),
{
}

/// The first pass keeps five records of the eight nearest clusters such that none that it looks
/// at and drops is nearer; or all of them, if they are fewer than five.
pub proof fn first_pass_keeps_nearest(f: Seq<u8>, q: Seq<i16>) -> (chosen: Seq<int>)
    requires
        ordered(f),
    ensures
        ({
            let s = fast_entries(f, q);
            let p = probed(f, q);
            let looked_at = |r: int|
                exists|x: int|
                    0 <= x < 8 && x < p.len() && offsets(f)[(#[trigger] p[x]) as int] <= r
                        < offsets(f)[p[x] + 1];
            &&& s.len() == chosen.len() && s.len() <= 5
            &&& forall|i: int|
                0 <= i < s.len() ==> looked_at(#[trigger] chosen[i]) && s[i].0 == record_distance(
                    f,
                    q,
                    chosen[i],
                ) && s[i].1 == stored_label(f, chosen[i])
            &&& forall|i: int, j: int| 0 <= i < j < s.len() ==> chosen[i] != chosen[j]
            &&& forall|r: int, i: int|
                #![trigger chosen.contains(r), s[i]]
                looked_at(r) && !chosen.contains(r) ==> s.len() == 5 && (0 <= i < 5 ==> s[i].0
                    <= record_distance(f, q, r))
        }),
{
    probed_is_ranking(f, q);
    let p = probed(f, q);
    assert forall|i: int, j: int| 0 <= i < j < p.len() implies p[i] != p[j] by {
        assert(ranks_before(q, centroids(f), p[i] as int, p[j] as int));
    }
    let m = fast_count(f);
    let chosen = scan_list_keeps_nearest(f, q, p, m);
    let s = fast_entries(f, q);
    let seen = records_of(f, p, m);
    let looked_at = |r: int|
        exists|x: int|
            0 <= x < 8 && x < p.len() && offsets(f)[(#[trigger] p[x]) as int] <= r
                < offsets(f)[p[x] + 1];
    assert forall|r: int| #[trigger] seen(r) == #[trigger] looked_at(r) by {
        if seen(r) {
            let x = choose|x: int| 0 <= x < m && in_cluster(f, #[trigger] p[x] as int, r);
            assert(offsets(f)[p[x] as int] <= r < offsets(f)[p[x] + 1]);
        }
        if looked_at(r) {
            let x = choose|x: int|
                0 <= x < 8 && x < p.len() && offsets(f)[(#[trigger] p[x]) as int] <= r
                    < offsets(f)[p[x] + 1];
            assert(in_cluster(f, p[x] as int, r));
        }
    }
    assert forall|i: int| 0 <= i < s.len() implies looked_at(#[trigger] chosen[i]) by {
        assert(seen(chosen[i]));
    }
    assert forall|r: int, i: int|
        #![trigger chosen.contains(r), s[i]]
        looked_at(r) && !chosen.contains(r) implies s.len() == 5 && (0 <= i < 5 ==> s[i].0
        <= record_distance(f, q, r)) by {
        assert(seen(r));
    }
    chosen
}

/// The answer of a search is that of the first pass, unless two or three of its five labels are
/// fraud; then it is that of the second pass, which goes on with the clusters after the first
/// eight, and with what the first pass kept.
pub proof fn passes(f: Seq<u8>, q: Seq<i16>)
    ensures
        ({
            let s = fast_entries(f, q);
            let l = verdict(s);
            let count = (if l[0] == Label::Fraud { 1int } else { 0 }) + (if l[1] == Label::Fraud {
                1int
            } else { 0 }) + (if l[2] == Label::Fraud { 1int } else { 0 }) + (if l[3]
                == Label::Fraud { 1int } else { 0 }) + (if l[4] == Label::Fraud {
                1int
            } else { 0 });
            let p = probed(f, q);
            let eight = if cluster_count(f) < 8 { cluster_count(f) } else { 8 };
            let t = refine(f, q, s, p, eight, p.len() as int);
            &&& count == 2 || count == 3 ==> final_entries(f, q) == t
            &&& count == 2 || count == 3 ==> neighbors(f, q) == verdict(t)
            &&& count != 2 && count != 3 ==> final_entries(f, q) == s && neighbors(f, q) == l
        }),
{
    ambiguous_by_count(verdict(fast_entries(f, q)));
}

/// Where two or three of the five labels of the first pass are fraud, wherever they stand, a
/// search in a file of at most a hundred clusters gives the labels of the nearest of all records,
/// if the clusters follow one another and their boxes enclose them: as many records as there are,
/// but at most five, each once, none of them farther than a record left out.
pub proof fn two_or_three_frauds_widen(f: Seq<u8>, q: Seq<i16>) -> (chosen: Seq<int>)
    requires
        partitioned(f),
        enclosed(f),
        cluster_count(f) <= 100,
        ({
            let l = verdict(fast_entries(f, q));
            2 <= (if l[0] == Label::Fraud { 1int } else { 0 }) + (if l[1] == Label::Fraud {
                1int
            } else { 0 }) + (if l[2] == Label::Fraud { 1int } else { 0 }) + (if l[3]
                == Label::Fraud { 1int } else { 0 }) + (if l[4] == Label::Fraud {
                1int
            } else { 0 }) <= 3
        }),
    ensures
        chosen.len() == if record_count(f) < 5 { record_count(f) } else { 5 },
        forall|i: int| 0 <= i < chosen.len() ==> 0 <= #[trigger] chosen[i] < record_count(f),
        forall|i: int, j: int| 0 <= i < j < chosen.len() ==> chosen[i] != chosen[j],
        forall|r: int, i: int|
            #![trigger record_distance(f, q, r), chosen[i]]
            0 <= r < record_count(f) && !chosen.contains(r) && 0 <= i < chosen.len()
                ==> record_distance(f, q, chosen[i]) <= record_distance(f, q, r),
        forall|i: int|
            0 <= i < 5 ==> (#[trigger] neighbors(f, q)[i] == Label::Fraud <==> i < chosen.len()
                && stored_label(f, chosen[i]) == 1),
{
    ambiguous_by_count(verdict(fast_entries(f, q)));
    let chosen = ambiguous_search_is_exact(f, q);
    let s = final_entries(f, q);
    let n = record_count(f);
    let all = |j: int| 0 <= j < n;
    assert forall|i: int| 0 <= i < chosen.len() implies 0 <= #[trigger] chosen[i] < n by {
        assert(all(chosen[i]));
    }
    assert forall|r: int, i: int|
        #![trigger record_distance(f, q, r), chosen[i]]
        0 <= r < n && !chosen.contains(r) && 0 <= i < chosen.len() implies record_distance(
        f,
        q,
        chosen[i],
    ) <= record_distance(f, q, r) by {
        assert(all(r));
        assert(s[i].0 <= record_distance(f, q, r));
        assert(all(chosen[i]));
    }
    chosen
}

/// How many of the first `m` records have the label byte one.
spec fn marked(f: Seq<u8>, records: Seq<int>, m: int) -> int
    decreases m,
{
    if m <= 0 {
        0
    } else {
        marked(f, records, m - 1) + if stored_label(f, records[m - 1]) == 1 { 1int } else { 0 }
    }
}

proof fn marked_by_set(f: Seq<u8>, records: Seq<int>, m: int)
    requires
        0 <= m <= records.len(),
        records.no_duplicates(),
    ensures
        marked(f, records, m) == records.take(m).to_set().filter(
            |r: int| stored_label(f, r) == 1,
        ).len(),
        records.take(m).to_set().finite(),
    decreases m,
{
    let is_marked = |r: int| stored_label(f, r) == 1;
    let now = records.take(m).to_set();
    vstd::seq_lib::seq_to_set_is_finite(records.take(m));
    if m == 0 {
        assert(now =~= Set::empty());
        assert(now.filter(is_marked) =~= Set::empty());
    } else {
        marked_by_set(f, records, m - 1);
        let shorter = records.take(m - 1);
        let longer = records.take(m);
        let before = shorter.to_set();
        let r = records[m - 1];
        assert(now =~= before.insert(r)) by {
            assert forall|e: int| now.contains(e) <==> before.insert(r).contains(e) by {
                if now.contains(e) {
                    let i = choose|i: int|
                        0 <= i < longer.len() && longer[i] == e;
                    if i < m - 1 {
                        assert(shorter[i] == e);
                    }
                }
                if before.contains(e) {
                    let i = choose|i: int|
                        0 <= i < shorter.len() && shorter[i] == e;
                    assert(longer[i] == e);
                }
                assert(longer[m - 1] == r);
            }
        }
        assert(!before.contains(r)) by {
            if before.contains(r) {
                let i = choose|i: int|
                    0 <= i < shorter.len() && shorter[i] == r;
                assert(records[i] == records[m - 1]);
            }
        }
        if is_marked(r) {
            assert(now.filter(is_marked) =~= before.filter(is_marked).insert(r));
        } else {
            assert(now.filter(is_marked) =~= before.filter(is_marked));
        }
    }
}

/// Two lists of the same five records have as many with the label byte one.
proof fn same_records_same_marks(f: Seq<u8>, a: Seq<int>, b: Seq<int>)
    requires
        a.len() == 5,
        b.len() == 5,
        a.no_duplicates(),
        b.no_duplicates(),
        forall|i: int| 0 <= i < 5 ==> b.contains(#[trigger] a[i]),
    ensures
        marked(f, a, 5) == marked(f, b, 5),
{
    marked_by_set(f, a, 5);
    marked_by_set(f, b, 5);
    assert(a.take(5) =~= a && b.take(5) =~= b);
    a.unique_seq_to_set();
    b.unique_seq_to_set();
    assert(a.to_set().subset_of(b.to_set())) by {
        assert forall|e: int| a.to_set().contains(e) implies b.to_set().contains(e) by {
            let i = choose|i: int| 0 <= i < a.len() && a[i] == e;
            assert(b.contains(a[i]));
        }
    }
    vstd::set_lib::lemma_subset_equality(a.to_set(), b.to_set());
}

/// `first` are the five nearest records of the first eight clusters of the ranking, and no other
/// record of these is as near as one of them.
pub open spec fn are_first_five(f: Seq<u8>, q: Seq<i16>, first: Seq<int>) -> bool {
    let p = ranking(q, centroids(f), cluster_count(f), 100);
    let looked_at = |r: int|
        exists|x: int|
            0 <= x < 8 && x < p.len() && offsets(f)[(#[trigger] p[x]) as int] <= r < offsets(
                f,
            )[p[x] + 1];
    &&& first.len() == 5
    &&& forall|i: int, j: int| 0 <= i < j < 5 ==> first[i] != first[j]
    &&& forall|i: int| 0 <= i < 5 ==> looked_at(#[trigger] first[i])
    &&& forall|r: int, i: int|
        #![trigger record_distance(f, q, r), first[i]]
        looked_at(r) && !first.contains(r) && 0 <= i < 5 ==> record_distance(f, q, first[i])
            < record_distance(f, q, r)
}

/// The first pass finds the five nearest records of the first eight clusters.
proof fn first_five_found(f: Seq<u8>, q: Seq<i16>, first: Seq<int>)
    requires
        ordered(f),
        are_first_five(f, q, first),
    ensures
        ({
            let l = verdict(fast_entries(f, q));
            (if l[0] == Label::Fraud { 1int } else { 0 }) + (if l[1] == Label::Fraud {
                1int
            } else { 0 }) + (if l[2] == Label::Fraud { 1int } else { 0 }) + (if l[3]
                == Label::Fraud { 1int } else { 0 }) + (if l[4] == Label::Fraud {
                1int
            } else { 0 }) == marked(f, first, 5)
        }),
{
    let p = probed(f, q);
    let looked_at = |r: int|
        exists|x: int|
            0 <= x < 8 && x < p.len() && offsets(f)[(#[trigger] p[x]) as int] <= r < offsets(
                f,
            )[p[x] + 1];
    let chosen = first_pass_keeps_nearest(f, q);
    let s = fast_entries(f, q);
    if s.len() < 5 {
        assert forall|i: int| 0 <= i < 5 implies chosen.contains(#[trigger] first[i]) by {
            assert(looked_at(first[i]));
            assert(chosen.contains(first[i]) || s[0].0 <= record_distance(f, q, first[i]));
        }
        first.unique_seq_to_set();
        chosen.unique_seq_to_set();
        vstd::seq_lib::seq_to_set_is_finite(chosen);
        assert(first.to_set().subset_of(chosen.to_set())) by {
            assert forall|e: int|
                first.to_set().contains(e) implies chosen.to_set().contains(e) by {
                let i = choose|i: int| 0 <= i < first.len() && first[i] == e;
                assert(chosen.contains(first[i]));
            }
        }
        vstd::set_lib::lemma_len_subset(first.to_set(), chosen.to_set());
    }
    assert(s.len() == 5);
    assert forall|i: int| 0 <= i < 5 implies first.contains(#[trigger] chosen[i]) by {
        if !first.contains(chosen[i]) {
            assert(looked_at(chosen[i]));
            if forall|j: int| 0 <= j < 5 ==> chosen.contains(#[trigger] first[j]) {
                some_left_out(chosen, first, i);
            } else {
                let j = choose|j: int| 0 <= j < 5 && !chosen.contains(#[trigger] first[j]);
                assert(looked_at(first[j]));
                assert(s[i].0 <= record_distance(f, q, first[j]));
                assert(record_distance(f, q, first[j]) < record_distance(f, q, chosen[i]));
            }
        }
    }
    same_records_same_marks(f, chosen, first);
    reveal_with_fuel(marked, 6);
    assert(s[0].1 == stored_label(f, chosen[0]) && s[1].1 == stored_label(f, chosen[1]) && s[2].1
        == stored_label(f, chosen[2]) && s[3].1 == stored_label(f, chosen[3]) && s[4].1
        == stored_label(f, chosen[4]));
}

/// Of five different places one is left over by four others.
proof fn some_left_out(chosen: Seq<int>, first: Seq<int>, i: int)
    requires
        chosen.len() == 5,
        first.len() == 5,
        forall|x: int, y: int| 0 <= x < y < 5 ==> chosen[x] != chosen[y],
        forall|x: int, y: int| 0 <= x < y < 5 ==> first[x] != first[y],
        forall|j: int| 0 <= j < 5 ==> chosen.contains(#[trigger] first[j]),
        0 <= i < 5,
    ensures
        first.contains(chosen[i]),
{
    first.unique_seq_to_set();
    chosen.unique_seq_to_set();
    vstd::seq_lib::seq_to_set_is_finite(chosen);
    vstd::seq_lib::seq_to_set_is_finite(first);
    assert(first.to_set().subset_of(chosen.to_set())) by {
        assert forall|e: int| first.to_set().contains(e) implies chosen.to_set().contains(e) by {
            let j = choose|j: int| 0 <= j < first.len() && first[j] == e;
            assert(chosen.contains(first[j]));
        }
    }
    vstd::set_lib::lemma_subset_equality(first.to_set(), chosen.to_set());
    assert(chosen.contains(chosen[i]));
    assert(first.to_set().contains(chosen[i]));
}

/// Whenever two or three of the five nearest records of the first eight clusters of the ranking
/// are fraud, the answer is made of the nearest of all records, in a file of at most a hundred
/// clusters that follow one another and whose boxes enclose them.
pub proof fn ambiguous_first_five_widen(
    f: Seq<u8>,
    q: Seq<i16>,
    first: Seq<int>,
) -> (chosen: Seq<int>)
    requires
        partitioned(f),
        enclosed(f),
        cluster_count(f) <= 100,
        are_first_five(f, q, first),
        2 <= (if stored_label(f, first[0]) == 1 { 1int } else { 0 }) + (if stored_label(f, first[1])
            == 1 { 1int } else { 0 }) + (if stored_label(f, first[2]) == 1 { 1int } else { 0 }) + (
        if stored_label(f, first[3]) == 1 { 1int } else { 0 }) + (if stored_label(f, first[4])
            == 1 { 1int } else { 0 }) <= 3,
    ensures
        chosen.len() == 5,
        forall|i: int| 0 <= i < 5 ==> 0 <= #[trigger] chosen[i] < record_count(f),
        forall|i: int, j: int| 0 <= i < j < 5 ==> chosen[i] != chosen[j],
        forall|r: int, i: int|
            #![trigger record_distance(f, q, r), chosen[i]]
            0 <= r < record_count(f) && !chosen.contains(r) && 0 <= i < 5 ==> record_distance(
                f,
                q,
                chosen[i],
            ) <= record_distance(f, q, r),
        forall|i: int|
            0 <= i < 5 ==> (#[trigger] neighbors(f, q)[i] == Label::Fraud <==> stored_label(
                f,
                chosen[i],
            ) == 1),
{
    first_five_found(f, q, first);
    reveal_with_fuel(marked, 6);
    let chosen = two_or_three_frauds_widen(f, q);
    assert(record_count(f) >= 5) by {
        five_records_exist(f, q, first);
    }
    chosen
}

/// Five different records are looked at, so there are at least five.
proof fn five_records_exist(f: Seq<u8>, q: Seq<i16>, first: Seq<int>)
    requires
        partitioned(f),
        are_first_five(f, q, first),
    ensures
        record_count(f) >= 5,
{
    probed_is_ranking(f, q);
    let p = probed(f, q);
    let n = record_count(f);
    let looked_at = |r: int|
        exists|x: int|
            0 <= x < 8 && x < p.len() && offsets(f)[(#[trigger] p[x]) as int] <= r < offsets(
                f,
            )[p[x] + 1];
    assert forall|i: int| 0 <= i < 5 implies 0 <= #[trigger] first[i] < n by {
        assert(looked_at(first[i]));
        let x = choose|x: int|
            0 <= x < 8 && x < p.len() && offsets(f)[(#[trigger] p[x]) as int] <= first[i] < offsets(
                f,
            )[p[x] + 1];
        assert(p[x] < cluster_count(f));
        assert(offsets(f)[p[x] + 1] <= offsets(f)[cluster_count(f)]);
    }
    first.unique_seq_to_set();
    vstd::set_lib::lemma_int_range(0, n);
    assert(first.to_set().subset_of(vstd::set_lib::set_int_range(0, n))) by {
        assert forall|e: int| first.to_set().contains(e) implies 0 <= e < n by {
            let i = choose|i: int| 0 <= i < first.len() && first[i] == e;
            assert(0 <= first[i] < n);
        }
    }
    vstd::set_lib::lemma_len_subset(first.to_set(), vstd::set_lib::set_int_range(0, n));
}

/// Whenever fewer than two or more than three of the five nearest records of the first eight
/// clusters of the ranking are fraud, as many of the five neighbours are.
pub proof fn clear_first_five_decide(f: Seq<u8>, q: Seq<i16>, first: Seq<int>)
    requires
        ordered(f),
        are_first_five(f, q, first),
    ensures
        ({
            let count = (if stored_label(f, first[0]) == 1 { 1int } else { 0 }) + (if stored_label(
                f,
                first[1],
            ) == 1 { 1int } else { 0 }) + (if stored_label(f, first[2]) == 1 {
                1int
            } else { 0 }) + (if stored_label(f, first[3]) == 1 { 1int } else { 0 }) + (
            if stored_label(f, first[4]) == 1 { 1int } else { 0 });
            count < 2 || count > 3 ==> ({
                let l = neighbors(f, q);
                (if l[0] == Label::Fraud { 1int } else { 0 }) + (if l[1] == Label::Fraud {
                    1int
                } else { 0 }) + (if l[2] == Label::Fraud { 1int } else { 0 }) + (if l[3]
                    == Label::Fraud { 1int } else { 0 }) + (if l[4] == Label::Fraud {
                    1int
                } else { 0 }) == count
            })
        }),
{
    first_five_found(f, q, first);
    reveal_with_fuel(marked, 6);
    passes(f, q);
}

/// The farthest entry is the first of those that no entry exceeds.
pub proof fn worst_entry(s: Seq<Entry>, i: int)
    requires
        s.len() > 0,
        0 <= i < s.len(),
    ensures
        0 <= worst(s) < s.len(),
        s[i].0 <= s[worst(s)].0,
        i < worst(s) ==> s[i].0 < s[worst(s)].0,
{
    worst_is_worst(s);
}

/// What a warm-up reads: every offset, and one byte of each 64 from the records on, up to the end
/// of the file, all combined by exclusive or.
pub proof fn warmup_reads(f: Seq<u8>, table: Seq<u32>, seed: u64, start: int, m: int)
    ensures
        xor_numbers(table, 0) == 0,
        m > 0 ==> xor_numbers(table, m) == xor_numbers(table, m - 1) ^ (table[m - 1] as u64),
        xor_lines(f, seed, start, 0) == seed,
        m > 0 ==> xor_lines(f, seed, start, m) == xor_lines(f, seed, start, m - 1) ^ (f[start + 64
            * (m - 1)] as u64),
        start + 64 * (line_count(f, start) - 1) < f.len() <= start + 64 * line_count(f, start),
        ({
            let k = cluster_count(f);
            let records = 24 + 88 * k;
            checksum(f) == xor_lines(
                f,
                xor_numbers(offsets(f), k + 1),
                records,
                line_count(f, records),
            )
        }),
{
}

} // verus!
