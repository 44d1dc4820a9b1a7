//! Nearest-neighbour search in an index file.

use crate::bytes::{le_i16, read_i16, read_u32};
use crate::index_file::{
    bbox_maxs, bbox_mins, centroids, cluster_count, complete, data_start, dims, has_tables,
    header_error, i16_table, label_place, labels_start, offsets, openable, record_at, record_count,
    record_end, stored_label, stored_vector, u32_table, IndexError, HEADER_SIZE, IVF_MAGIC,
};
use crate::metric::{
    bbox_lower_bound, box_distance, dist_scalar, distance, record_vector, row, DIMS, STRIDE,
};
use crate::probes::{is_ranking, nearest_clusters, ranking};
use crate::scorer::{fraud_count, fraud_neighbor_count};
use crate::search_laws::complete_is_searchable;
use crate::top::{accepts, offer, verdict, Entry, Top, K};
use crate::types::Label;
use crate::warmup::{warmup_queries, warmup_query, WARMUP_QUERIES};
use vstd::prelude::*;

verus! {

/// Clusters that every query scans.
pub const NPROBE_FAST: usize = 8;

/// Clusters that a query scans at most.
pub const NPROBE_SLOW: usize = 100;

/// Distance of record `j` of `f` from `q`.
pub open spec fn record_distance(f: Seq<u8>, q: Seq<i16>, j: int) -> i64 {
    distance(q, stored_vector(f, j)) as i64
}

/// The entries kept after the records from `start` up to `end` were offered in turn.
pub open spec fn scan_range(
    f: Seq<u8>,
    q: Seq<i16>,
    s: Seq<Entry>,
    start: int,
    end: int,
) -> Seq<Entry>
    decreases end - start,
{
    if end <= start {
        s
    } else {
        offer(
            scan_range(f, q, s, start, end - 1),
            record_distance(f, q, end - 1),
            stored_label(f, end - 1),
        )
    }
}

/// The entries kept after the records of cluster `c` were offered in turn.
pub open spec fn scan_cluster(f: Seq<u8>, q: Seq<i16>, s: Seq<Entry>, c: int) -> Seq<Entry> {
    scan_range(f, q, s, offsets(f)[c] as int, offsets(f)[c + 1] as int)
}

/// The entries kept after the clusters `p[0]`, .., `p[m - 1]` were scanned in turn.
pub open spec fn scan_list(
    f: Seq<u8>,
    q: Seq<i16>,
    s: Seq<Entry>,
    p: Seq<usize>,
    m: int,
) -> Seq<Entry>
    decreases m,
{
    if m <= 0 {
        s
    } else {
        scan_cluster(f, q, scan_list(f, q, s, p, m - 1), p[m - 1] as int)
    }
}

/// Cluster `c` is passed over: all places are taken, and its box is no nearer than any of them.
pub open spec fn pruned(f: Seq<u8>, q: Seq<i16>, s: Seq<Entry>, c: int) -> bool {
    s.len() == K && !accepts(s, box_distance(q, row(bbox_mins(f), c), row(bbox_maxs(f), c)))
}

/// The entries kept after those of the clusters `p[from]`, .., `p[to - 1]` were scanned that
/// are not passed over.
pub open spec fn refine(
    f: Seq<u8>,
    q: Seq<i16>,
    s: Seq<Entry>,
    p: Seq<usize>,
    from: int,
    to: int,
) -> Seq<Entry>
    decreases to - from,
{
    if to <= from {
        s
    } else {
        let t = refine(f, q, s, p, from, to - 1);
        if pruned(f, q, t, p[to - 1] as int) {
            t
        } else {
            scan_cluster(f, q, t, p[to - 1] as int)
        }
    }
}

/// Two or three of the five votes are fraud: one vote more could turn the verdict.
pub open spec fn ambiguous(labels: Seq<Label>) -> bool {
    fraud_count(labels) == 2 || fraud_count(labels) == 3
}

/// The clusters that a query may scan, nearest centroid first.
pub open spec fn probed(f: Seq<u8>, q: Seq<i16>) -> Seq<usize> {
    ranking(q, centroids(f), cluster_count(f), NPROBE_SLOW as int)
}

/// How many of the probed clusters every query scans.
pub open spec fn fast_count(f: Seq<u8>) -> int {
    if cluster_count(f) < NPROBE_FAST { cluster_count(f) } else { NPROBE_FAST as int }
}

/// The entries kept after the clusters that every query scans.
pub open spec fn fast_entries(f: Seq<u8>, q: Seq<i16>) -> Seq<Entry> {
    scan_list(f, q, Seq::empty(), probed(f, q), fast_count(f))
}

/// The entries kept at the end: those of the nearest clusters, and of more clusters where the
/// vote of the nearest ones is ambiguous.
pub open spec fn final_entries(f: Seq<u8>, q: Seq<i16>) -> Seq<Entry> {
    let s = fast_entries(f, q);
    if ambiguous(verdict(s)) {
        refine(f, q, s, probed(f, q), fast_count(f), probed(f, q).len() as int)
    } else {
        s
    }
}

/// The labels of the neighbours of `q` in the index file `f`.
pub open spec fn neighbors(f: Seq<u8>, q: Seq<i16>) -> Seq<Label> {
    verdict(final_entries(f, q))
}

/// A scan of the records from `start` up to `end` stays within the records and labels of `f`.
pub open spec fn range_readable(
    f: Seq<u8>,
    q: Seq<i16>,
    s: Seq<Entry>,
    start: int,
    end: int,
) -> bool {
    forall|j: int|
        start <= j < end ==> j < record_count(f) && (accepts(
            #[trigger] scan_range(f, q, s, start, j),
            record_distance(f, q, j) as int,
        ) ==> label_place(f, j) < f.len())
}

/// A scan of cluster `c` stays within the records and labels of `f`.
pub open spec fn cluster_readable(f: Seq<u8>, q: Seq<i16>, s: Seq<Entry>, c: int) -> bool {
    range_readable(f, q, s, offsets(f)[c] as int, offsets(f)[c + 1] as int)
}

/// A search for `q` reads nothing outside `f`.
pub open spec fn searchable(f: Seq<u8>, q: Seq<i16>) -> bool {
    let p = probed(f, q);
    let fast = fast_count(f);
    let s = fast_entries(f, q);
    &&& label_place(f, 0) <= f.len()
    &&& forall|i: int|
        0 <= i < fast ==> cluster_readable(
            f,
            q,
            #[trigger] scan_list(f, q, Seq::empty(), p, i),
            p[i] as int,
        )
    &&& ambiguous(verdict(s)) ==> forall|i: int|
        fast <= i < p.len() && !pruned(f, q, #[trigger] refine(f, q, s, p, fast, i), p[i] as int)
            ==> cluster_readable(f, q, refine(f, q, s, p, fast, i), p[i] as int)
}

/// The first `m` numbers of `table` combined by exclusive or.
pub open spec fn xor_numbers(table: Seq<u32>, m: int) -> u64
    decreases m,
{
    if m <= 0 {
        0
    } else {
        xor_numbers(table, m - 1) ^ (table[m - 1] as u64)
    }
}

/// `seed` and the bytes of `f` at `m` places, 64 bytes apart from `start` on, combined by
/// exclusive or.
pub open spec fn xor_lines(f: Seq<u8>, seed: u64, start: int, m: int) -> u64
    decreases m,
{
    if m <= 0 {
        seed
    } else {
        xor_lines(f, seed, start, m - 1) ^ (f[start + 64 * (m - 1)] as u64)
    }
}

/// How many places there are in `f`, 64 bytes apart from `start` on.
pub open spec fn line_count(f: Seq<u8>, start: int) -> int {
    (f.len() - start + 63) / 64
}

/// The exclusive or of all offsets of `f` and of one byte in each 64 after the tables.
pub open spec fn checksum(f: Seq<u8>) -> u64 {
    let start = data_start(cluster_count(f));
    xor_lines(f, xor_numbers(offsets(f), cluster_count(f) + 1), start, line_count(f, start))
}

/// Whether `bytes` can be opened: the tables that a right header announces are there.
pub fn can_open(bytes: &[u8]) -> (res: bool)
    ensures
        res == (header_error(bytes@) is None ==> has_tables(bytes@)),
        res == openable(bytes@),
{
    if bytes.len() < HEADER_SIZE {
        return true;
    }
    for i in 0..IVF_MAGIC.len()
        invariant
            HEADER_SIZE <= bytes.len(),
            forall|j: int| 0 <= j < i ==> bytes@[j] == IVF_MAGIC@[j],
    {
        if bytes[i] != IVF_MAGIC[i] {
            assert(bytes@.take(8)[i as int] != IVF_MAGIC@[i as int]);
            return true;
        }
    }
    assert(bytes@.take(8) =~= IVF_MAGIC@);
    let k: u64 = read_u32(bytes, 8) as u64;
    let dims: usize = read_u32(bytes, 16) as usize;
    dims != DIMS || 20 + k * 84 + (k + 1) * 4 <= bytes.len() as u64
}

/// An index file opened for search.
pub struct SearchIndex<'a> {
    data: &'a [u8],
    k_clusters: usize,
    n: usize,
    centroids_i16: Vec<i16>,
    bbox_min: Vec<i16>,
    bbox_max: Vec<i16>,
    offsets: Vec<u32>,
    data_byte: usize,
}

impl<'a> View for SearchIndex<'a> {
    type V = Seq<u8>;

    /// The bytes of the file.
    closed spec fn view(&self) -> Seq<u8> {
        self.data@
    }
}

/// Reads `count` signed numbers from `start` on.
fn read_i16_table(bytes: &[u8], start: usize, count: usize) -> (table: Vec<i16>)
    requires
        start + 2 * count <= bytes.len(),
    ensures
        table@ == i16_table(bytes@, start as int, count as int),
{
    let mut table: Vec<i16> = Vec::with_capacity(count);
    for i in 0..count
        invariant
            start + 2 * count <= bytes.len(),
            table@ == i16_table(bytes@, start as int, i as int),
    {
        table.push(read_i16(bytes, start + i * 2));
        assert(table@ =~= i16_table(bytes@, start as int, i + 1));
    }
    table
}

/// Reads `count` unsigned numbers from `start` on.
fn read_u32_table(bytes: &[u8], start: usize, count: usize) -> (table: Vec<u32>)
    requires
        start + 4 * count <= bytes.len(),
    ensures
        table@ == u32_table(bytes@, start as int, count as int),
{
    let mut table: Vec<u32> = Vec::with_capacity(count);
    for i in 0..count
        invariant
            start + 4 * count <= bytes.len(),
            table@ == u32_table(bytes@, start as int, i as int),
    {
        table.push(read_u32(bytes, start + i * 4));
        assert(table@ =~= u32_table(bytes@, start as int, i + 1));
    }
    table
}

impl<'a> SearchIndex<'a> {
    /// The tables in memory are those of the file.
    #[verifier::type_invariant]
    spec fn wf(self) -> bool {
        &&& header_error(self.data@) is None
        &&& has_tables(self.data@)
        &&& self.k_clusters == cluster_count(self.data@)
        &&& self.n == record_count(self.data@)
        &&& self.centroids_i16@ == centroids(self.data@)
        &&& self.bbox_min@ == bbox_mins(self.data@)
        &&& self.bbox_max@ == bbox_maxs(self.data@)
        &&& self.offsets@ == offsets(self.data@)
        &&& self.data_byte == data_start(cluster_count(self.data@))
    }

    /// Opens an index file, given as its bytes, which hold all tables if the header is right.
    pub fn open(bytes: &'a [u8]) -> (res: Result<SearchIndex<'a>, IndexError>)
        requires
            header_error(bytes@) is None ==> has_tables(bytes@),
        ensures
            match res {
                Ok(index) => header_error(bytes@) is None && index@ == bytes@,
                Err(e) => header_error(bytes@) == Some(e),
            },
    {
        if bytes.len() < HEADER_SIZE {
            return Err(IndexError::TooSmall);
        }
        for i in 0..IVF_MAGIC.len()
            invariant
                HEADER_SIZE <= bytes.len(),
                forall|j: int| 0 <= j < i ==> bytes@[j] == IVF_MAGIC@[j],
        {
            if bytes[i] != IVF_MAGIC[i] {
                assert(bytes@.take(8)[i as int] != IVF_MAGIC@[i as int]);
                return Err(IndexError::InvalidMagic);
            }
        }
        assert(bytes@.take(8) =~= IVF_MAGIC@);
        let k_clusters: usize = read_u32(bytes, 8) as usize;
        let n: usize = read_u32(bytes, 12) as usize;
        let dims: usize = read_u32(bytes, 16) as usize;
        if dims != DIMS {
            return Err(IndexError::UnexpectedDims);
        }
        let centroids_len: usize = k_clusters * DIMS;
        let bbox_byte: usize = HEADER_SIZE + centroids_len * 2;
        let bbox_max_byte: usize = bbox_byte + centroids_len * 2;
        let offsets_byte: usize = bbox_max_byte + centroids_len * 2;
        let data_byte: usize = offsets_byte + (k_clusters + 1) * 4;
        Ok(
            SearchIndex {
                data: bytes,
                k_clusters,
                n,
                centroids_i16: read_i16_table(bytes, HEADER_SIZE, centroids_len),
                bbox_min: read_i16_table(bytes, bbox_byte, centroids_len),
                bbox_max: read_i16_table(bytes, bbox_max_byte, centroids_len),
                offsets: read_u32_table(bytes, offsets_byte, k_clusters + 1),
                data_byte,
            },
        )
    }

    /// Number of records.
    pub fn count(&self) -> (n: usize)
        ensures
            n == record_count(self@),
    {
        proof {
            use_type_invariant(self);
        }
        self.n
    }

    /// Number of clusters.
    pub fn k_clusters(&self) -> (k: usize)
        ensures
            k == cluster_count(self@),
    {
        proof {
            use_type_invariant(self);
        }
        self.k_clusters
    }

    /// The centroids of the clusters, row by row.
    pub fn centroids_i16(&self) -> (table: &[i16])
        ensures
            table@ == centroids(self@),
    {
        proof {
            use_type_invariant(self);
        }
        self.centroids_i16.as_slice()
    }

    /// Whether the file holds all that it announces. If so, any query can be searched for.
    pub fn is_complete(&self) -> (res: bool)
        ensures
            res == complete(self@),
            res ==> forall|q: Seq<i16>| #[trigger] searchable(self@, q),
    {
        proof {
            use_type_invariant(self);
            assert forall|q: Seq<i16>| complete(self@) implies #[trigger] searchable(self@, q) by {
                complete_is_searchable(self@, q);
            }
        }
        let len: u64 = self.data.len() as u64;
        let need: u64 = self.data_byte as u64 + self.n as u64 * 33;
        if need > len {
            return false;
        }
        for c in 0..self.offsets.len()
            invariant
                self.offsets@ == offsets(self@),
                self.offsets@.len() == cluster_count(self@) + 1,
                self.n == record_count(self@),
                forall|i: int| 0 <= i < c ==> #[trigger] offsets(self@)[i] <= record_count(self@),
        {
            if self.offsets[c] as usize > self.n {
                assert(offsets(self@)[c as int] > record_count(self@));
                return false;
            }
        }
        true
    }

    /// Offers the records of cluster `ci` to `top`, one after the other.
    pub fn scan_cluster(&self, query: &[i16; DIMS], ci: usize, top: &mut Top)
        requires
            ci < cluster_count(self@),
            label_place(self@, 0) <= self@.len(),
            old(top).wf(),
            cluster_readable(self@, query@, old(top)@, ci as int),
        ensures
            final(top).wf(),
            final(top)@ == scan_cluster(self@, query@, old(top)@, ci as int),
    {
        proof {
            use_type_invariant(self);
        }
        let ghost f = self@;
        let ghost q = query@;
        let ghost s = top@;
        let data: &[u8] = self.data;
        let data_byte: usize = self.data_byte;
        assert(self.n * STRIDE + data_byte <= data.len());
        let labels_byte: usize = data_byte + self.n * STRIDE;
        let start: usize = self.offsets[ci] as usize;
        let end: usize = self.offsets[ci + 1] as usize;
        let mut j: usize = start;
        while j < end
            invariant
                f == data@,
                q == query@,
                data_byte == data_start(cluster_count(f)),
                labels_byte == labels_start(cluster_count(f), record_count(f)),
                labels_byte <= data.len(),
                start <= j,
                if start <= end { j <= end } else { j == start },
                range_readable(f, q, s, start as int, end as int),
                top.wf(),
                top@ == scan_range(f, q, s, start as int, j as int),
            decreases end - j,
        {
            assert(j < record_count(f));
            assert(data_byte + (j + 1) * STRIDE <= labels_byte);
            let base: usize = data_byte + j * STRIDE;
            let record: &[u8] = &data[base..base + STRIDE];
            let dist: i64 = dist_scalar(query, record);
            assert(record_vector(record@) =~= stored_vector(f, j as int)) by {
                assert forall|d: int| 0 <= d < DIMS implies record_vector(record@)[d]
                    == stored_vector(f, j as int)[d] by {
                    assert(record@[2 * d] == f[base + 2 * d]);
                    assert(record@[2 * d + 1] == f[base + 2 * d + 1]);
                }
            }
            if top.accepts(dist) {
                top.insert(dist, data[labels_byte + j]);
            }
            j += 1;
        }
        assert(end <= start ==> scan_range(f, q, s, start as int, end as int) == s);
        assert(scan_range(f, q, s, start as int, start as int) == s);
    }

    /// Scans the clusters listed in `clusters`, in their order.
    pub fn scan_clusters(&self, query: &[i16; DIMS], clusters: &[usize], top: &mut Top)
        requires
            forall|i: int|
                0 <= i < clusters@.len() ==> (#[trigger] clusters@[i]) < cluster_count(self@),
            label_place(self@, 0) <= self@.len(),
            old(top).wf(),
            forall|i: int|
                0 <= i < clusters@.len() ==> cluster_readable(
                    self@,
                    query@,
                    #[trigger] scan_list(self@, query@, old(top)@, clusters@, i),
                    clusters@[i] as int,
                ),
        ensures
            final(top).wf(),
            final(top)@ == scan_list(
                self@,
                query@,
                old(top)@,
                clusters@,
                clusters@.len() as int,
            ),
    {
        let ghost s = top@;
        for i in 0..clusters.len()
            invariant
                forall|i: int|
                    0 <= i < clusters@.len() ==> (#[trigger] clusters@[i]) < cluster_count(self@),
                label_place(self@, 0) <= self@.len(),
                top.wf(),
                top@ == scan_list(self@, query@, s, clusters@, i as int),
                forall|i: int|
                    0 <= i < clusters@.len() ==> cluster_readable(
                        self@,
                        query@,
                        #[trigger] scan_list(self@, query@, s, clusters@, i),
                        clusters@[i] as int,
                    ),
        {
            self.scan_cluster(query, clusters[i], top);
        }
    }

    /// Scans the nearest clusters and, where their vote is ambiguous, more of them.
    pub fn search_impl(&self, query: &[i16; DIMS]) -> (res: [Label; K])
        requires
            searchable(self@, query@),
        ensures
            res@ == neighbors(self@, query@),
    {
        proof {
            use_type_invariant(self);
        }
        let ghost f = self@;
        let ghost q = query@;
        let probed: Vec<usize> = nearest_clusters(
            query,
            self.centroids_i16.as_slice(),
            self.k_clusters,
            NPROBE_SLOW,
        );
        let ghost p = probed@;
        let fast: usize = if self.k_clusters < NPROBE_FAST { self.k_clusters } else { NPROBE_FAST };
        let mut top = Top::new();
        let first: &[usize] = &probed.as_slice()[0..fast];
        proof {
            assert forall|i: int| 0 <= i <= fast implies #[trigger] scan_list(
                f,
                q,
                Seq::empty(),
                first@,
                i,
            ) == scan_list(f, q, Seq::empty(), p, i) by {
                scan_list_prefix(f, q, Seq::empty(), first@, p, i);
            }
        }
        self.scan_clusters(query, first, &mut top);
        let result: [Label; K] = top.labels();
        let fraud_count: usize = fraud_neighbor_count(&result);
        if fraud_count == 2 || fraud_count == 3 {
            let ghost s = top@;
            let mut i: usize = fast;
            while i < probed.len()
                invariant
                    f == self@,
                    q == query@,
                    p == probed@,
                    self.bbox_min@ == bbox_mins(f),
                    self.bbox_max@ == bbox_maxs(f),
                    is_ranking(q, centroids(f), cluster_count(f), NPROBE_SLOW as int, p),
                    label_place(f, 0) <= f.len(),
                    fast <= i <= p.len(),
                    top.wf(),
                    top@ == refine(f, q, s, p, fast as int, i as int),
                    forall|i: int|
                        fast <= i < p.len() && !pruned(
                            f,
                            q,
                            #[trigger] refine(f, q, s, p, fast as int, i),
                            p[i] as int,
                        ) ==> cluster_readable(
                            f,
                            q,
                            refine(f, q, s, p, fast as int, i),
                            p[i] as int,
                        ),
                decreases probed.len() - i,
            {
                let ci: usize = probed[i];
                assert(ci < cluster_count(f));
                assert((ci + 1) * DIMS <= cluster_count(f) * DIMS) by (nonlinear_arith)
                    requires
                        ci < cluster_count(f),
                ;
                let lb: i64 = bbox_lower_bound(
                    query,
                    self.bbox_min.as_slice(),
                    self.bbox_max.as_slice(),
                    ci,
                );
                if !top.closed_to(lb) {
                    self.scan_cluster(query, ci, &mut top);
                }
                i += 1;
            }
            top.labels()
        } else {
            result
        }
    }

    /// The labels of the neighbours of `query`.
    pub fn search(&self, query: &[i16; DIMS]) -> (res: [Label; K])
        requires
            searchable(self@, query@),
        ensures
            res@ == neighbors(self@, query@),
    {
        self.search_impl(query)
    }

    /// The labels of the neighbours of the vector that was quantised to `query`. The vector
    /// itself has no influence on them.
    pub fn search_with_vector<V>(&self, _vector: &V, query: &[i16; DIMS]) -> (res: [Label; K])
        requires
            searchable(self@, query@),
        ensures
            res@ == neighbors(self@, query@),
    {
        self.search(query)
    }

    /// The coordinates of record `idx`, if the file holds it.
    pub fn vector_at(&self, idx: usize) -> (res: Option<[i16; DIMS]>)
        ensures
            match res {
                Some(v) => idx < record_count(self@) && record_end(self@, idx as int)
                    <= self@.len() && v@ == stored_vector(self@, idx as int),
                None => idx >= record_count(self@) || record_end(self@, idx as int)
                    > self@.len(),
            },
            res is Some == record_at(self@, idx as int) is Some,
            res matches Some(v) ==> record_at(self@, idx as int) == Some(v@),
    {
        proof {
            use_type_invariant(self);
        }
        if idx >= self.n {
            return None;
        }
        let data: &[u8] = self.data;
        let rest: usize = data.len() - self.data_byte;
        if idx >= rest / STRIDE {
            return None;
        }
        let start: usize = self.data_byte + idx * STRIDE;
        let mut v: [i16; DIMS] = [0i16; DIMS];
        for d in 0..DIMS
            invariant
                start + STRIDE <= data.len(),
                forall|e: int| 0 <= e < d ==> #[trigger] v@[e] == le_i16(data@, start + 2 * e),
        {
            v[d] = read_i16(data, start + d * 2);
        }
        assert(v@ =~= stored_vector(self@, idx as int));
        Some(v)
    }

    /// Reads the offsets, and one byte of every cache line after the tables, so that the pages
    /// of the file are in memory.
    pub fn touch(&self) -> (sum: u64)
        ensures
            sum == checksum(self@),
    {
        proof {
            use_type_invariant(self);
        }
        let mut sum: u64 = 0;
        for i in 0..self.offsets.len()
            invariant
                self.offsets@ == offsets(self@),
                sum == xor_numbers(offsets(self@), i as int),
        {
            sum = sum ^ self.offsets[i] as u64;
        }
        let ghost seed = sum;
        let data: &[u8] = self.data;
        let start: usize = self.data_byte;
        let mut place: usize = start;
        let ghost mut m: int = 0;
        while place < data.len()
            invariant
                data@ == self@,
                start <= place,
                0 <= m,
                place < data.len() ==> place == start + 64 * m,
                place >= data.len() ==> m == line_count(data@, start as int),
                sum == xor_lines(data@, seed, start as int, m),
            decreases data.len() - place,
        {
            sum = sum ^ data[place] as u64;
            proof {
                m = m + 1;
            }
            if data.len() - place <= 64 {
                place = data.len();
            } else {
                place = place + 64;
            }
        }
        sum
    }

    /// Brings the file into memory and searches for the warm-up queries. Gives back what was
    /// read and found.
    pub fn warmup(&self) -> (res: (u64, Vec<[Label; K]>))
        requires
            forall|r: int|
                0 <= r < WARMUP_QUERIES ==> searchable(self@, #[trigger] warmup_query(r)),
        ensures
            res.0 == checksum(self@),
            res.1@.len() == WARMUP_QUERIES,
            forall|r: int|
                0 <= r < WARMUP_QUERIES ==> (#[trigger] res.1@[r])@ == neighbors(
                    self@,
                    warmup_query(r),
                ),
    {
        let sum: u64 = self.touch();
        let queries: Vec<[i16; DIMS]> = warmup_queries();
        let mut found: Vec<[Label; K]> = Vec::with_capacity(WARMUP_QUERIES);
        for r in 0..queries.len()
            invariant
                queries@.len() == WARMUP_QUERIES,
                forall|r: int|
                    0 <= r < WARMUP_QUERIES ==> (#[trigger] queries@[r])@ == warmup_query(r),
                forall|r: int|
                    0 <= r < WARMUP_QUERIES ==> searchable(self@, #[trigger] warmup_query(r)),
                found@.len() == r,
                forall|i: int|
                    0 <= i < r ==> (#[trigger] found@[i])@ == neighbors(self@, warmup_query(i)),
        {
            assert(searchable(self@, warmup_query(r as int)));
            found.push(self.search(&queries[r]));
        }
        (sum, found)
    }
}

/// Scanning the first clusters of a list does not depend on the rest of it.
proof fn scan_list_prefix(
    f: Seq<u8>,
    q: Seq<i16>,
    s: Seq<Entry>,
    a: Seq<usize>,
    b: Seq<usize>,
    m: int,
)
    requires
        m <= a.len(),
        m <= b.len(),
        forall|i: int| 0 <= i < m ==> a[i] == b[i],
    ensures
        scan_list(f, q, s, a, m) == scan_list(f, q, s, b, m),
    decreases m,
{
    if m > 0 {
        scan_list_prefix(f, q, s, a, b, m - 1);
    }
}

} // verus!
