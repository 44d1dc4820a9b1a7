use fraud_knn::builder::build_index;
use fraud_knn::index_file::{IndexError, IVF_MAGIC};
use fraud_knn::index_writer::{encode_index, Tables};
use fraud_knn::metric::{dist_scalar, DIMS, STRIDE};
use fraud_knn::search::{can_open, SearchIndex};
use fraud_knn::top::Top;
use fraud_knn::types::Label;
use fraud_knn::warmup::warmup_queries;

fn quantize(v: f32) -> i16 {
    (v * 10_000.0).round().clamp(i16::MIN as f32, i16::MAX as f32) as i16
}

fn make_index(records: &[([f32; DIMS], u8)]) -> Vec<u8> {
    let n = records.len();
    let k: usize = 1;
    let mut f: Vec<u8> = Vec::new();

    f.extend_from_slice(&IVF_MAGIC);
    f.extend_from_slice(&(k as u32).to_le_bytes());
    f.extend_from_slice(&(n as u32).to_le_bytes());
    f.extend_from_slice(&(DIMS as u32).to_le_bytes());

    let centroid_f32 = [0.0f32; DIMS];
    for &v in &centroid_f32 {
        f.extend_from_slice(&quantize(v).to_le_bytes());
    }

    for _ in 0..DIMS {
        f.extend_from_slice(&0i16.to_le_bytes());
    }
    for _ in 0..DIMS {
        f.extend_from_slice(&0i16.to_le_bytes());
    }

    f.extend_from_slice(&0u32.to_le_bytes());
    f.extend_from_slice(&(n as u32).to_le_bytes());

    for (vec, _) in records {
        for &v in vec {
            f.extend_from_slice(&quantize(v).to_le_bytes());
        }
        f.extend_from_slice(&[0u8; 4]);
    }
    for (_, label) in records {
        f.push(*label);
    }
    f
}

#[test]
fn header_validates_magic() {
    let mut f: Vec<u8> = Vec::new();
    f.extend_from_slice(b"BADMAGIC");
    f.extend_from_slice(&1u32.to_le_bytes());
    f.extend_from_slice(&1u32.to_le_bytes());
    f.extend_from_slice(&14u32.to_le_bytes());
    let result = SearchIndex::open(&f);
    assert!(result.is_err());
    assert_eq!(result.err(), Some(IndexError::InvalidMagic));
}

#[test]
fn header_validates_dims() {
    let mut f: Vec<u8> = Vec::new();
    f.extend_from_slice(&IVF_MAGIC);
    f.extend_from_slice(&1u32.to_le_bytes());
    f.extend_from_slice(&1u32.to_le_bytes());
    f.extend_from_slice(&13u32.to_le_bytes());
    f.extend_from_slice(&[0u8; 28]);
    f.extend_from_slice(&0u32.to_le_bytes());
    f.extend_from_slice(&1u32.to_le_bytes());
    f.extend_from_slice(&[0u8; 32]);
    f.extend_from_slice(&[0u8]);
    let result = SearchIndex::open(&f);
    assert!(result.is_err());
    assert_eq!(result.err(), Some(IndexError::UnexpectedDims));
}

#[test]
fn search_returns_correct_labels_20_vectors() {
    let mut records: Vec<([f32; DIMS], u8)> = Vec::new();
    for i in 0..15usize {
        let mut v = [0.0f32; DIMS];
        v[0] = 0.01 * i as f32;
        records.push((v, 0));
    }
    for _ in 0..5 {
        records.push(([1.0f32; DIMS], 1));
    }

    let f = make_index(&records);
    let idx = SearchIndex::open(&f).unwrap();
    assert_eq!(idx.count(), 20);

    let query = [quantize(0.0); DIMS];
    let neighbors = idx.search(&query);
    let fraud_count = neighbors.iter().filter(|&&l| l == Label::Fraud).count();
    assert_eq!(fraud_count, 0, "expected all legit neighbors");
}

#[test]
fn search_returns_fraud_when_nearest() {
    let mut records: Vec<([f32; DIMS], u8)> = Vec::new();
    for _ in 0..5 {
        records.push(([0.0f32; DIMS], 1));
    }
    for _ in 0..15 {
        records.push(([1.0f32; DIMS], 0));
    }

    let f = make_index(&records);
    let idx = SearchIndex::open(&f).unwrap();

    let query = [quantize(0.0); DIMS];
    let neighbors = idx.search(&query);
    let fraud_count = neighbors.iter().filter(|&&l| l == Label::Fraud).count();
    assert_eq!(fraud_count, 5, "expected all fraud neighbors");
}

#[test]
fn sentinel_both_contribute_zero() {
    let mut q = [0i16; DIMS];
    q[5] = quantize(-1.0);
    let mut r = [0u8; STRIDE];
    r[10..12].copy_from_slice(&quantize(-1.0).to_le_bytes());
    let dist = dist_scalar(&q, &r);
    assert_eq!(dist, 0, "both sentinels → 0 distance");
}

#[test]
fn sentinel_one_side_contributes_penalty() {
    let mut q = [0i16; DIMS];
    q[5] = quantize(-1.0);
    let dist = dist_scalar(&q, &[0u8; STRIDE]);
    let diff = quantize(-1.0) as i64;
    assert_eq!(dist, diff * diff);
}

#[test]
fn centroids_are_i16() {
    let records: Vec<([f32; DIMS], u8)> = vec![([0.5f32; DIMS], 0)];
    let f = make_index(&records);
    let idx = SearchIndex::open(&f).unwrap();
    assert_eq!(idx.k_clusters(), 1);
    for d in 0..DIMS {
        assert_eq!(idx.centroids_i16()[d], quantize(0.0));
    }
}

#[test]
fn a_short_file_is_too_small() {
    assert_eq!(SearchIndex::open(&[0u8; 19]).err(), Some(IndexError::TooSmall));
    assert_eq!(SearchIndex::open(&[]).err(), Some(IndexError::TooSmall));
}

#[test]
fn errors_have_messages() {
    assert_eq!(IndexError::TooSmall.message(), "file too small");
    assert_eq!(IndexError::InvalidMagic.message(), "invalid magic bytes");
    assert_eq!(IndexError::UnexpectedDims.message(), "unexpected dims in index header");
}

#[test]
fn missing_tables_are_noticed() {
    let f = make_index(&[([0.5f32; DIMS], 0)]);
    assert!(can_open(&f));
    let tables_end = 20 + 3 * 28 + 8;
    assert!(can_open(&f[..tables_end]));
    assert!(!can_open(&f[..tables_end - 1]));
    // A wrong header is reported when the file is opened.
    assert!(can_open(&f[..19]));
    assert!(can_open(b"BADMAGIC------------"));
}

#[test]
fn missing_records_are_noticed() {
    let f = make_index(&[([0.5f32; DIMS], 0)]);
    assert!(SearchIndex::open(&f).unwrap().is_complete());
    assert!(!SearchIndex::open(&f[..f.len() - 1]).unwrap().is_complete());
}

#[test]
fn offsets_past_the_records_are_noticed() {
    let mut f = make_index(&[([0.5f32; DIMS], 0)]);
    let last_offset = 20 + 3 * 28 + 4;
    f[last_offset] = 2;
    assert!(!SearchIndex::open(&f).unwrap().is_complete());
}

#[test]
fn fewer_records_than_votes_leave_legit_votes() {
    let f = make_index(&[([0.0f32; DIMS], 1), ([0.1f32; DIMS], 1)]);
    let idx = SearchIndex::open(&f).unwrap();
    assert_eq!(
        idx.search(&[0; DIMS]),
        [Label::Fraud, Label::Fraud, Label::Legit, Label::Legit, Label::Legit]
    );
}

#[test]
fn an_empty_index_finds_nothing() {
    let f = build_index(&[], &[]);
    let idx = SearchIndex::open(&f).unwrap();
    assert!(idx.is_complete());
    assert_eq!((idx.count(), idx.k_clusters()), (0, 0));
    assert_eq!(idx.search(&[123; DIMS]), [Label::Legit; 5]);
}

#[test]
fn equally_near_records_come_first_served() {
    // Six records at the same distance: the first five stay.
    let mut records: Vec<([f32; DIMS], u8)> = vec![([0.2f32; DIMS], 0); 5];
    records.push(([0.2f32; DIMS], 1));
    let f = make_index(&records);
    assert_eq!(SearchIndex::open(&f).unwrap().search(&[0; DIMS]), [Label::Legit; 5]);
}

#[test]
fn a_nearer_record_takes_the_place_of_the_farthest() {
    let mut records: Vec<([f32; DIMS], u8)> = Vec::new();
    for i in 0..5 {
        let mut v = [0.0f32; DIMS];
        v[0] = [0.3, 0.5, 0.4, 0.5, 0.2][i];
        records.push((v, 0));
    }
    let mut v = [0.0f32; DIMS];
    v[0] = 0.1;
    records.push((v, 1));
    let f = make_index(&records);
    // The second record is the first of the two farthest.
    assert_eq!(
        SearchIndex::open(&f).unwrap().search(&[0; DIMS]),
        [Label::Legit, Label::Fraud, Label::Legit, Label::Legit, Label::Legit]
    );
}

/// One record per entry, each in a cluster of its own: centroid, vector and label. Only the first
/// coordinate differs from zero.
fn one_per_cluster(entries: &[(i16, i16, u8)]) -> Vec<u8> {
    let k = entries.len();
    let mut centroids = vec![0i16; k * DIMS];
    let mut corners = vec![0i16; k * DIMS];
    let mut vectors = vec![[0i16; DIMS]; k];
    let mut labels = vec![0u8; k];
    for (i, &(centroid, value, label)) in entries.iter().enumerate() {
        centroids[i * DIMS] = centroid;
        corners[i * DIMS] = value;
        vectors[i][0] = value;
        labels[i] = label;
    }
    let offsets: Vec<u32> = (0..=k as u32).collect();
    let order: Vec<usize> = (0..k).collect();
    encode_index(&Tables {
        centroids: &centroids,
        bbox_min: &corners,
        bbox_max: &corners,
        offsets: &offsets,
        vectors: &vectors,
        labels: &labels,
        order: &order,
    })
}

fn frauds(labels: [Label; 5]) -> usize {
    labels.iter().filter(|&&l| l == Label::Fraud).count()
}

#[test]
fn a_clear_vote_stops_after_eight_clusters() {
    // The ninth cluster holds a fraud at distance zero, but its centroid is the farthest.
    let mut entries: Vec<(i16, i16, u8)> = Vec::new();
    for i in 0..8 {
        entries.push((10 * i, 100, 0));
    }
    entries.push((5000, 0, 1));
    let f = one_per_cluster(&entries);
    let idx = SearchIndex::open(&f).unwrap();
    assert!(idx.is_complete());
    assert_eq!(frauds(idx.search(&[0; DIMS])), 0);
}

#[test]
fn an_ambiguous_vote_looks_at_more_clusters() {
    let mut entries: Vec<(i16, i16, u8)> = Vec::new();
    for i in 0..8 {
        entries.push((10 * i, 100, if i < 2 { 1 } else { 0 }));
    }
    entries.push((5000, 0, 1));
    entries.push((6000, 0, 1));
    let f = one_per_cluster(&entries);
    let idx = SearchIndex::open(&f).unwrap();
    // Two of the first five are fraud; the two records at distance zero replace the first two,
    // which are as far as all others.
    assert_eq!(frauds(idx.search(&[0; DIMS])), 2);
    let mut turned = entries.clone();
    turned[0].1 = 50;
    turned[1].1 = 50;
    let f = one_per_cluster(&turned);
    assert_eq!(frauds(SearchIndex::open(&f).unwrap().search(&[0; DIMS])), 4);
}

#[test]
fn no_more_than_a_hundred_clusters_are_looked_at() {
    let mut entries: Vec<(i16, i16, u8)> = Vec::new();
    for i in 0..100 {
        entries.push((i, 100, if i < 2 { 1 } else { 0 }));
    }
    entries.push((9000, 0, 1));
    entries[0].1 = 50;
    entries[1].1 = 50;
    let f = one_per_cluster(&entries);
    assert_eq!(frauds(SearchIndex::open(&f).unwrap().search(&[0; DIMS])), 2);
    // As the hundredth cluster it is looked at.
    let mut nearer = entries.clone();
    nearer.remove(99);
    let f = one_per_cluster(&nearer);
    assert_eq!(frauds(SearchIndex::open(&f).unwrap().search(&[0; DIMS])), 3);
}

#[test]
fn a_far_box_is_passed_over() {
    // A box that does not enclose its record hides it, once five records are nearer.
    let mut entries: Vec<(i16, i16, u8)> = Vec::new();
    for i in 0..8 {
        entries.push((10 * i, 50 + i, if i < 3 { 1 } else { 0 }));
    }
    entries.push((5000, 0, 1));
    let mut f = one_per_cluster(&entries);
    assert_eq!(frauds(SearchIndex::open(&f).unwrap().search(&[0; DIMS])), 4);
    let k = entries.len();
    let corner = 8 * DIMS * 2;
    for start in [20 + k * 28, 20 + 2 * k * 28] {
        f[start + corner..start + corner + 2].copy_from_slice(&5000i16.to_le_bytes());
    }
    assert_eq!(frauds(SearchIndex::open(&f).unwrap().search(&[0; DIMS])), 3);
}

#[test]
fn the_float_vector_has_no_influence() {
    let f = make_index(&[([0.0f32; DIMS], 1), ([0.7f32; DIMS], 0)]);
    let idx = SearchIndex::open(&f).unwrap();
    let query = [7000i16; DIMS];
    assert_eq!(idx.search_with_vector(&[0.0f32; DIMS], &query), idx.search(&query));
    assert_eq!(idx.search_with_vector(&[0.9f32; DIMS], &query), idx.search(&query));
}

#[test]
fn records_can_be_read() {
    let mut v = [0.25f32; DIMS];
    v[13] = -1.0;
    let f = make_index(&[([0.5f32; DIMS], 0), (v, 1)]);
    let idx = SearchIndex::open(&f).unwrap();
    let mut expected = [2500i16; DIMS];
    expected[13] = -10_000;
    assert_eq!(idx.vector_at(0), Some([5000; DIMS]));
    assert_eq!(idx.vector_at(1), Some(expected));
    assert_eq!(idx.vector_at(2), None);
    assert_eq!(idx.vector_at(usize::MAX), None);
    let cut = &f[..f.len() - 2 - 1];
    assert_eq!(SearchIndex::open(cut).unwrap().vector_at(1), None);
}

#[test]
fn warmup_queries_follow_the_generator() {
    let queries = warmup_queries();
    assert_eq!(queries.len(), 500);
    assert_eq!(
        queries[0],
        [18, 2526, -309, 9292, 4013, 8024, 9917, -7843, -7458, 3230, -1683, -3549, 7260, 3312]
    );
    assert_eq!(
        queries[1],
        [-4428, -1623, 9343, 7978, 9261, -8316, -553, 389, 2597, -8294, 2376, 185, 9260, 6242]
    );
    for q in &queries {
        assert!(q.iter().all(|&c| (-10_000..=10_000).contains(&c)));
    }
}

#[test]
fn warmup_reads_the_file_and_searches() {
    let f = make_index(&[([0.0f32; DIMS], 1), ([0.3f32; DIMS], 0), ([-1.0f32; DIMS], 1)]);
    let idx = SearchIndex::open(&f).unwrap();
    let (sum, found) = idx.warmup();
    let mut expected: u64 = 3;
    for b in f[20 + 3 * 28 + 8..].iter().step_by(64) {
        expected ^= *b as u64;
    }
    assert_eq!(sum, expected);
    assert_eq!(idx.touch(), expected);
    assert_eq!(found.len(), 500);
    for (labels, q) in found.iter().zip(warmup_queries().iter()) {
        assert_eq!(*labels, idx.search(q));
    }
}

#[test]
fn scans_can_be_joined() {
    let values: [i16; 12] = [900, 40, 300, 7, 650, 40, 20, 810, 5, 77, 300, 1];
    let entries: Vec<(i16, i16, u8)> =
        values.iter().enumerate().map(|(i, &v)| (i as i16, v, (i % 2) as u8)).collect();
    let f = one_per_cluster(&entries);
    let idx = SearchIndex::open(&f).unwrap();
    let query = [0i16; DIMS];
    let all: Vec<usize> = vec![3, 0, 11, 7, 1, 2, 9, 4, 8, 5];
    let mut whole = Top::new();
    idx.scan_clusters(&query, &all, &mut whole);
    for cut in 0..=all.len() {
        let mut top = Top::new();
        idx.scan_clusters(&query, &all[..cut], &mut top);
        let before = top.labels();
        idx.scan_clusters(&query, &[], &mut top);
        assert_eq!(top.labels(), before);
        idx.scan_clusters(&query, &all[cut..], &mut top);
        assert_eq!(top.labels(), whole.labels());
    }
    // The nearest of the scanned records are those of the clusters 11, 8, 3, 1 and 5.
    assert_eq!(frauds(whole.labels()), 4);
}

#[test]
fn a_scan_keeps_what_was_nearer_before() {
    let f = one_per_cluster(&[(0, 10, 0), (1, 3, 0), (2, 30, 0), (3, 20, 0)]);
    let idx = SearchIndex::open(&f).unwrap();
    let mut top = Top::new();
    for dist in [4, 150, 9, 5000] {
        top.insert(dist, 1);
    }
    // Distances 4, 9, 9, 100 and 150 are the least of the old and the new ones.
    idx.scan_clusters(&[0; DIMS], &[0, 1, 2, 3], &mut top);
    assert_eq!(frauds(top.labels()), 3);
    assert!(top.accepts(149) && !top.accepts(150));
}

#[test]
fn clusters_without_records_change_nothing() {
    let f = encode_index(&Tables {
        centroids: &[0; 2 * DIMS],
        bbox_min: &[0; 2 * DIMS],
        bbox_max: &[0; 2 * DIMS],
        offsets: &[0, 0, 1],
        vectors: &[[1; DIMS]],
        labels: &[1],
        order: &[0],
    });
    let idx = SearchIndex::open(&f).unwrap();
    let mut top = Top::new();
    idx.scan_clusters(&[0; DIMS], &[0, 0], &mut top);
    assert_eq!(frauds(top.labels()), 0);
    idx.scan_clusters(&[0; DIMS], &[1, 0], &mut top);
    assert_eq!(frauds(top.labels()), 1);
}

#[test]
fn an_ambiguous_search_is_exact_up_to_a_hundred_clusters() {
    // Nearer centroids do not mean nearer records here.
    let mut entries: Vec<(i16, i16, u8)> = Vec::new();
    for i in 0..100i16 {
        entries.push((i, 500 - ((i * 37) % 100), (i % 5 < 2) as u8));
    }
    let f = one_per_cluster(&entries);
    let idx = SearchIndex::open(&f).unwrap();
    let first: Vec<(i16, i16, u8)> = entries[..8].to_vec();
    let count = |mut records: Vec<(i16, i16, u8)>| {
        records.sort_by_key(|r| r.1);
        records[..5].iter().filter(|r| r.2 == 1).count()
    };
    let fast = count(first);
    assert!(fast == 2 || fast == 3);
    assert_eq!(frauds(idx.search(&[0; DIMS])), count(entries));
}
