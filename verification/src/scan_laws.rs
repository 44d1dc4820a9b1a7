//! What holds of every scan, whatever entries were kept before it.

use crate::index_file::{cluster_count, offsets, stored_label};
use crate::search::{record_distance, scan_cluster, scan_list, scan_range};
use crate::search_laws::{clusters_apart, in_cluster, ordered, records_of};
use crate::top::{accepts, offer, worst, worst_is_worst, Entry, K};
use vstd::multiset::Multiset;
use vstd::prelude::*;

verus! {

/// Record `j` as it is offered to a query.
pub open spec fn entry_of(f: Seq<u8>, q: Seq<i16>, j: int) -> Entry {
    (record_distance(f, q, j), stored_label(f, j))
}

/// What a scan of the records from `start` up to `end` offers.
pub open spec fn range_entries(f: Seq<u8>, q: Seq<i16>, start: int, end: int) -> Multiset<Entry>
    decreases end - start,
{
    if end <= start {
        Multiset::empty()
    } else {
        range_entries(f, q, start, end - 1).insert(entry_of(f, q, end - 1))
    }
}

/// What a scan of the clusters `p[0]`, .., `p[m - 1]` offers.
pub open spec fn list_entries(f: Seq<u8>, q: Seq<i16>, p: Seq<usize>, m: int) -> Multiset<Entry>
    decreases m,
{
    if m <= 0 {
        Multiset::empty()
    } else {
        let c = p[m - 1] as int;
        list_entries(f, q, p, m - 1).add(
            range_entries(f, q, offsets(f)[c] as int, offsets(f)[c + 1] as int),
        )
    }
}

/// `kept` are the nearest of the entries `offered`: as many as there are, but at most `K`, each
/// of them offered, and none farther than one that was offered and is not kept.
pub open spec fn are_best(kept: Seq<Entry>, offered: Multiset<Entry>) -> bool {
    &&& kept.to_multiset().subset_of(offered)
    &&& kept.len() == if offered.len() < K { offered.len() as int } else { K as int }
    &&& forall|e: Entry, i: int|
        0 <= i < kept.len() && #[trigger] offered.sub(kept.to_multiset()).count(e) > 0 ==> (
        #[trigger] kept[i]).0 <= e.0
}

/// Offering an entry keeps the nearest ones.
proof fn offer_keeps_best(s: Seq<Entry>, offered: Multiset<Entry>, d: i64, label: u8)
    requires
        are_best(s, offered),
    ensures
        are_best(offer(s, d, label), offered.insert((d, label))),
{
    broadcast use vstd::multiset::group_multiset_axioms;
    broadcast use vstd::multiset::group_multiset_properties;

    let e0 = (d, label);
    let t = offer(s, d, label);
    let more = offered.insert(e0);
    let held = s.to_multiset();
    s.to_multiset_ensures();
    t.to_multiset_ensures();
    assert(more.len() == offered.len() + 1);
    if s.len() < K {
        assert(offered.sub(held).len() == 0);
        assert(held =~= offered) by {
            assert forall|e: Entry| held.count(e) == offered.count(e) by {
                assert(held.count(e) <= offered.count(e));
                assert(offered.sub(held).count(e) == 0);
            }
        }
        assert(t.to_multiset() =~= more);
        assert forall|e: Entry, i: int|
            0 <= i < t.len() && #[trigger] more.sub(t.to_multiset()).count(e) > 0 implies (
        #[trigger] t[i]).0 <= e.0 by {
            assert(more.sub(t.to_multiset()).count(e) == 0);
        }
    } else {
        worst_is_worst(s);
        let w = worst(s);
        if accepts(s, d as int) {
            vstd::seq_lib::to_multiset_update(s, w, e0);
            assert(s.contains(s[w]));
            assert(held.count(s[w]) > 0);
            assert(t.to_multiset() =~= held.insert(e0).remove(s[w]));
            assert forall|e: Entry| t.to_multiset().count(e) <= more.count(e) by {
                assert(held.count(e) <= offered.count(e));
            }
            assert forall|e: Entry, i: int|
                0 <= i < t.len() && #[trigger] more.sub(t.to_multiset()).count(e) > 0 implies (
            #[trigger] t[i]).0 <= e.0 by {
                assert(held.count(e) <= offered.count(e));
                assert(t[i].0 <= s[w].0) by {
                    if i != w {
                        assert(t[i] == s[i]);
                    }
                }
                if e != s[w] {
                    assert(offered.sub(held).count(e) > 0);
                    assert(s[w].0 <= e.0);
                }
            }
        } else {
            assert forall|e: Entry| held.count(e) <= more.count(e) by {
                assert(held.count(e) <= offered.count(e));
            }
            assert forall|e: Entry, i: int|
                0 <= i < t.len() && #[trigger] more.sub(t.to_multiset()).count(e) > 0 implies (
            #[trigger] t[i]).0 <= e.0 by {
                assert(held.count(e) <= offered.count(e));
                assert(s[i].0 <= s[w].0);
                if e != e0 {
                    assert(offered.sub(held).count(e) > 0);
                } else {
                    assert(s[w].0 <= d);
                }
            }
        }
    }
}

/// Scanning records keeps the nearest ones.
proof fn range_keeps_best(
    f: Seq<u8>,
    q: Seq<i16>,
    s: Seq<Entry>,
    offered: Multiset<Entry>,
    start: int,
    end: int,
)
    requires
        are_best(s, offered),
    ensures
        are_best(
            scan_range(f, q, s, start, end),
            offered.add(range_entries(f, q, start, end)),
        ),
    decreases end - start,
{
    broadcast use vstd::multiset::group_multiset_axioms;

    if end <= start {
        assert(offered.add(Multiset::empty()) =~= offered);
    } else {
        range_keeps_best(f, q, s, offered, start, end - 1);
        let part = range_entries(f, q, start, end - 1);
        let e = entry_of(f, q, end - 1);
        offer_keeps_best(scan_range(f, q, s, start, end - 1), offered.add(part), e.0, e.1);
        assert(offered.add(part).insert(e) =~= offered.add(part.insert(e)));
    }
}

/// Entries that are the nearest of those offered so far are, after a scan of clusters, the
/// nearest of those and the scanned records together.
pub proof fn scan_keeps_best(
    f: Seq<u8>,
    q: Seq<i16>,
    s: Seq<Entry>,
    offered: Multiset<Entry>,
    p: Seq<usize>,
    m: int,
)
    requires
        are_best(s, offered),
    ensures
        are_best(scan_list(f, q, s, p, m), offered.add(list_entries(f, q, p, m))),
    decreases m,
{
    broadcast use vstd::multiset::group_multiset_axioms;

    if m <= 0 {
        assert(offered.add(Multiset::empty()) =~= offered);
    } else {
        scan_keeps_best(f, q, s, offered, p, m - 1);
        let before = list_entries(f, q, p, m - 1);
        let c = p[m - 1] as int;
        let start = offsets(f)[c] as int;
        let end = offsets(f)[c + 1] as int;
        range_keeps_best(f, q, scan_list(f, q, s, p, m - 1), offered.add(before), start, end);
        let new = range_entries(f, q, start, end);
        assert(offered.add(before).add(new) =~= offered.add(before.add(new)));
    }
}

/// A scan of clusters keeps, of the entries that were there and the records of the clusters
/// together, the nearest ones: as many as there are, but at most `K`.
pub proof fn scan_keeps_best_of_both(
    f: Seq<u8>,
    q: Seq<i16>,
    s: Seq<Entry>,
    p: Seq<usize>,
    m: int,
)
    requires
        s.len() <= K,
    ensures
        are_best(scan_list(f, q, s, p, m), s.to_multiset().add(list_entries(f, q, p, m))),
{
    broadcast use vstd::multiset::group_multiset_axioms;

    s.to_multiset_ensures();
    assert(are_best(s, s.to_multiset()));
    scan_keeps_best(f, q, s, s.to_multiset(), p, m);
}

/// The records from `start` up to `end`.
spec fn range_records(start: int, end: int) -> Seq<int> {
    Seq::new((if start < end { end - start } else { 0 }) as nat, |i: int| start + i)
}

/// The entries of records.
pub open spec fn entries_of(f: Seq<u8>, q: Seq<i16>, records: Seq<int>) -> Seq<Entry> {
    Seq::new(records.len(), |i: int| entry_of(f, q, records[i]))
}

proof fn range_entries_are_records(f: Seq<u8>, q: Seq<i16>, start: int, end: int)
    ensures
        range_entries(f, q, start, end) == entries_of(
            f,
            q,
            range_records(start, end),
        ).to_multiset(),
    decreases end - start,
{
    let all = entries_of(f, q, range_records(start, end));
    all.to_multiset_ensures();
    if end <= start {
        assert(all.to_multiset().len() == 0);
        vstd::multiset::lemma_multiset_empty_len(all.to_multiset());
    } else {
        range_entries_are_records(f, q, start, end - 1);
        let part = entries_of(f, q, range_records(start, end - 1));
        assert(all =~= part.push(entry_of(f, q, end - 1)));
        part.to_multiset_ensures();
    }
}

/// A scan of different clusters of an ordered file offers each of their records once.
pub proof fn records_offered_once(
    f: Seq<u8>,
    q: Seq<i16>,
    p: Seq<usize>,
    m: int,
) -> (records: Seq<int>)
    requires
        ordered(f),
        0 <= m <= p.len(),
        forall|i: int| 0 <= i < p.len() ==> (#[trigger] p[i]) < cluster_count(f),
        forall|i: int, j: int| 0 <= i < j < p.len() ==> p[i] != p[j],
    ensures
        records.no_duplicates(),
        forall|r: int| #[trigger] records.contains(r) <==> records_of(f, p, m)(r),
        list_entries(f, q, p, m) == entries_of(f, q, records).to_multiset(),
    decreases m,
{
    if m == 0 {
        let none = Seq::<int>::empty();
        entries_of(f, q, none).to_multiset_ensures();
        vstd::multiset::lemma_multiset_empty_len(entries_of(f, q, none).to_multiset());
        none
    } else {
        let before = records_offered_once(f, q, p, m - 1);
        let c = p[m - 1] as int;
        let start = offsets(f)[c] as int;
        let end = offsets(f)[c + 1] as int;
        let new = range_records(start, end);
        let records = before + new;
        range_entries_are_records(f, q, start, end);
        vstd::seq_lib::lemma_multiset_commutative(
            entries_of(f, q, before),
            entries_of(f, q, new),
        );
        assert(entries_of(f, q, records) =~= entries_of(f, q, before) + entries_of(f, q, new));
        assert forall|r: int| before.contains(r) implies !in_cluster(f, c, r) by {
            let x = choose|x: int| 0 <= x < m - 1 && in_cluster(f, #[trigger] p[x] as int, r);
            if in_cluster(f, c, r) {
                clusters_apart(f, p[x] as int, c, r);
            }
        }
        assert forall|i: int, j: int|
            0 <= i < records.len() && 0 <= j < records.len() && i != j implies records[i]
            != records[j] by {
            let n = before.len() as int;
            if i < n && j >= n {
                assert(before.contains(before[i]));
            } else if i >= n && j < n {
                assert(before.contains(before[j]));
            }
        }
        assert forall|r: int| #[trigger] records.contains(r) <==> records_of(f, p, m)(r) by {
            if records.contains(r) {
                let i = choose|i: int| 0 <= i < records.len() && records[i] == r;
                if i < before.len() {
                    assert(before.contains(before[i]));
                    let x = choose|x: int|
                        0 <= x < m - 1 && in_cluster(f, #[trigger] p[x] as int, r);
                    assert(in_cluster(f, p[x] as int, r));
                } else {
                    assert(in_cluster(f, p[m - 1] as int, r));
                }
            }
            if records_of(f, p, m)(r) {
                let x = choose|x: int| 0 <= x < m && in_cluster(f, #[trigger] p[x] as int, r);
                if x < m - 1 {
                    assert(records_of(f, p, m - 1)(r));
                    assert(before.contains(r));
                    let i = choose|i: int| 0 <= i < before.len() && before[i] == r;
                    assert(records[i] == r);
                } else {
                    assert(records[before.len() + (r - start)] == r);
                }
            }
        }
        records
    }
}

/// Scanning the clusters of two lists in turn is scanning those of the joined list.
pub proof fn scans_join(
    f: Seq<u8>,
    q: Seq<i16>,
    s: Seq<Entry>,
    a: Seq<usize>,
    b: Seq<usize>,
)
    ensures
        scan_list(f, q, scan_list(f, q, s, a, a.len() as int), b, b.len() as int) == scan_list(
            f,
            q,
            s,
            a + b,
            (a + b).len() as int,
        ),
{
    scans_join_up_to(f, q, s, a, b, b.len() as int);
}

proof fn scans_join_up_to(
    f: Seq<u8>,
    q: Seq<i16>,
    s: Seq<Entry>,
    a: Seq<usize>,
    b: Seq<usize>,
    m: int,
)
    requires
        0 <= m <= b.len(),
    ensures
        scan_list(f, q, scan_list(f, q, s, a, a.len() as int), b, m) == scan_list(
            f,
            q,
            s,
            a + b,
            a.len() + m,
        ),
    decreases m,
{
    if m == 0 {
        scan_of_prefix(f, q, s, a, b, a.len() as int);
    } else {
        scans_join_up_to(f, q, s, a, b, m - 1);
        assert((a + b)[a.len() + m - 1] == b[m - 1]);
    }
}

proof fn scan_of_prefix(
    f: Seq<u8>,
    q: Seq<i16>,
    s: Seq<Entry>,
    a: Seq<usize>,
    b: Seq<usize>,
    m: int,
)
    requires
        0 <= m <= a.len(),
    ensures
        scan_list(f, q, s, a, m) == scan_list(f, q, s, a + b, m),
    decreases m,
{
    if m > 0 {
        scan_of_prefix(f, q, s, a, b, m - 1);
        assert((a + b)[m - 1] == a[m - 1]);
    }
}

/// Scanning clusters that hold no records changes nothing; nor does scanning no cluster.
pub proof fn empty_scan_changes_nothing(
    f: Seq<u8>,
    q: Seq<i16>,
    s: Seq<Entry>,
    p: Seq<usize>,
    m: int,
)
    requires
        m <= p.len(),
        forall|i: int|
            0 <= i < m ==> offsets(f)[(#[trigger] p[i]) + 1] <= offsets(f)[p[i] as int],
    ensures
        scan_list(f, q, s, p, m) == s,
    decreases m,
{
    if m > 0 {
        empty_scan_changes_nothing(f, q, s, p, m - 1);
        let c = p[m - 1] as int;
        assert(offsets(f)[c + 1] <= offsets(f)[c]);
        assert(scan_cluster(f, q, s, c) == s);
    }
}

} // verus!
