use fraud_knn::builder::{
    bounding_boxes, build_index, cluster_starts, group_by_cluster, label_byte,
};
use fraud_knn::index_writer::{encode_index, Tables};
use fraud_knn::kmeans::{
    assign, deterministic_init, mean_i16, nearest_i16, reassignments, sample_indices, sum_in_parts,
    sum_range, train,
};
use fraud_knn::metric::DIMS;
use fraud_knn::search::SearchIndex;
use fraud_knn::types::Label;

fn point(x: i16) -> [i16; DIMS] {
    let mut v = [0i16; DIMS];
    v[0] = x;
    v
}

/// Deterministic vectors over a wide range.
fn scattered(n: usize) -> Vec<[i16; DIMS]> {
    let mut state = 1u32;
    let mut vectors = Vec::new();
    for _ in 0..n {
        let mut v = [0i16; DIMS];
        for c in v.iter_mut() {
            state = state.wrapping_mul(1_103_515_245).wrapping_add(12_345);
            *c = ((state >> 16) % 10_001) as i16;
        }
        vectors.push(v);
    }
    vectors
}

fn square_distance(a: &[i16; DIMS], b: &[i16; DIMS]) -> i64 {
    a.iter().zip(b).map(|(x, y)| (*x as i64 - *y as i64).pow(2)).sum()
}

#[test]
fn the_first_nearest_centroid_is_taken() {
    let mut centroids: Vec<i16> = Vec::new();
    for x in [50i16, 10, 30, 10] {
        centroids.extend_from_slice(&point(x));
    }
    assert_eq!(nearest_i16(&point(12), &centroids, 4), 1);
    assert_eq!(nearest_i16(&point(20), &centroids, 4), 1);
    assert_eq!(nearest_i16(&point(21), &centroids, 4), 2);
    assert_eq!(nearest_i16(&point(12), &centroids, 1), 0);
    assert_eq!(nearest_i16(&point(12), &centroids, 0), 0);
}

#[test]
fn samples_are_evenly_spaced() {
    assert_eq!(sample_indices(4), vec![0, 1, 2, 3]);
    assert_eq!(sample_indices(0), Vec::<usize>::new());
    let sample = sample_indices(400_000);
    assert_eq!(sample.len(), 131_072);
    assert_eq!(&sample[..3], &[0, 3, 6]);
    assert_eq!(sample[131_071], 393_213);
}

#[test]
fn centroids_start_at_sampled_vectors() {
    let vectors: Vec<[i16; DIMS]> = (0..10).map(point).collect();
    let sample: Vec<usize> = vec![1, 3, 5, 7, 9];
    let flat = deterministic_init(&vectors, &sample, 2);
    assert_eq!(flat[..DIMS], point(1));
    assert_eq!(flat[DIMS..], point(5));
}

#[test]
fn means_are_rounded_half_away_from_zero() {
    for sum in -25i64..=25 {
        for count in 1u32..=6 {
            let expected = (sum as f64 / count as f64).round() as i16;
            assert_eq!(mean_i16(sum, count), expected);
        }
    }
    assert_eq!(mean_i16(i16::MIN as i64 * 131_072, 131_072), i16::MIN);
    assert_eq!(mean_i16(i16::MAX as i64 * 131_072, 131_072), i16::MAX);
}

#[test]
fn sums_do_not_depend_on_the_number_of_threads() {
    let vectors = scattered(97);
    let sample: Vec<usize> = (0..97).collect();
    let centroids = deterministic_init(&vectors, &sample, 5);
    let assignments = assign(&vectors, &sample, &centroids, 5);
    let whole = sum_range(&vectors, &sample, &assignments, 5, 0, 97);
    for threads in [1, 2, 3, 7, 97, 200] {
        let parts = sum_in_parts(&vectors, &sample, &assignments, 5, threads);
        assert_eq!(parts.sums, whole.sums);
        assert_eq!(parts.counts, whole.counts);
    }
    assert_eq!(whole.counts.iter().sum::<u32>(), 97);
}

#[test]
fn assignments_keep_their_order() {
    let vectors: Vec<[i16; DIMS]> = (0..100).map(|i| point(i * 10)).collect();
    let sample: Vec<usize> = (0..100).collect();
    let mut centroids: Vec<i16> = Vec::new();
    centroids.extend_from_slice(&point(0));
    centroids.extend_from_slice(&point(990));
    let assignments = assign(&vectors, &sample, &centroids, 2);
    for (i, a) in assignments.iter().enumerate() {
        assert_eq!(*a, if i < 50 { 0 } else { 1 });
    }
}

#[test]
fn changes_are_counted() {
    assert_eq!(reassignments(&[1, 2, 3], &[1, 0, 0]), 2);
    assert_eq!(reassignments(&[1, 2, 3], &[1, 2, 3]), 0);
    assert_eq!(reassignments(&[], &[]), 0);
}

#[test]
fn few_vectors_are_their_own_centroids() {
    let vectors = vec![point(5), point(-3), point(400)];
    let centroids = train(&vectors);
    for (i, v) in vectors.iter().enumerate() {
        assert_eq!(centroids[i * DIMS..(i + 1) * DIMS], *v);
    }
}

#[test]
fn clusters_are_laid_out_in_order() {
    let assignments = [2u32, 0, 2, 1, 0];
    let starts = cluster_starts(&assignments, 4);
    assert_eq!(starts, vec![0, 2, 3, 5, 5]);
    assert_eq!(group_by_cluster(&assignments, &starts, 4), vec![1, 4, 3, 0, 2]);
}

#[test]
fn boxes_are_tight() {
    let mut a = [3i16; DIMS];
    a[1] = -7;
    let b = [5i16; DIMS];
    let (mins, maxs) = bounding_boxes(&[a, b, point(9)], &[0, 0, 2], 3);
    let mut lo = [3i16; DIMS];
    lo[1] = -7;
    assert_eq!(mins[..DIMS], lo);
    assert_eq!(maxs[..DIMS], [5i16; DIMS]);
    // An empty cluster has an empty box at the origin.
    assert_eq!(mins[DIMS..2 * DIMS], [0i16; DIMS]);
    assert_eq!(maxs[DIMS..2 * DIMS], [0i16; DIMS]);
    assert_eq!(mins[2 * DIMS..], point(9));
    assert_eq!(maxs[2 * DIMS..], point(9));
}

#[test]
fn tables_are_written_byte_for_byte() {
    let vectors = [point(1), point(-2)];
    let file = encode_index(&Tables {
        centroids: &point(-1),
        bbox_min: &point(-2),
        bbox_max: &point(1),
        offsets: &[0, 2],
        vectors: &vectors,
        labels: &[0, 1],
        order: &[1, 0],
    });
    let mut expected: Vec<u8> = b"RINHIVF5".to_vec();
    for header in [1u32, 2, 14] {
        expected.extend_from_slice(&header.to_le_bytes());
    }
    for row in [point(-1), point(-2), point(1)] {
        for c in row {
            expected.extend_from_slice(&c.to_le_bytes());
        }
    }
    for offset in [0u32, 2] {
        expected.extend_from_slice(&offset.to_le_bytes());
    }
    for row in [point(-2), point(1)] {
        for c in row {
            expected.extend_from_slice(&c.to_le_bytes());
        }
        expected.extend_from_slice(&[0; 4]);
    }
    expected.extend_from_slice(&[1, 0]);
    assert_eq!(file, expected);
}

#[test]
fn a_built_index_opens_and_holds_every_vector() {
    let vectors = scattered(300);
    let labels: Vec<u8> = (0..300).map(|i| (i % 3 == 0) as u8).collect();
    let file = build_index(&vectors, &labels);
    assert_eq!(file.len(), 20 + 3 * 300 * 28 + 301 * 4 + 300 * 33);
    let index = SearchIndex::open(&file).unwrap();
    assert!(index.is_complete());
    assert_eq!((index.count(), index.k_clusters()), (300, 300));
    let mut stored: Vec<[i16; DIMS]> = (0..300).map(|i| index.vector_at(i).unwrap()).collect();
    let mut given = vectors.clone();
    stored.sort();
    given.sort();
    assert_eq!(stored, given);
}

#[test]
fn building_twice_gives_the_same_bytes() {
    let vectors = scattered(2500);
    let labels: Vec<u8> = (0..2500).map(|i| (i % 2) as u8).collect();
    let file = build_index(&vectors, &labels);
    assert_eq!(file, build_index(&vectors, &labels));
    let index = SearchIndex::open(&file).unwrap();
    assert!(index.is_complete());
    assert_eq!(index.k_clusters(), 2048);
}

#[test]
fn a_built_vector_finds_itself() {
    let vectors = scattered(40);
    for i in 0..vectors.len() {
        let mut labels = vec![0u8; 40];
        labels[i] = 1;
        let file = build_index(&vectors, &labels);
        let found = SearchIndex::open(&file).unwrap().search(&vectors[i]);
        assert_eq!(found.iter().filter(|&&l| l == Label::Fraud).count(), 1);
    }
}

#[test]
fn few_clusters_are_searched_exactly() {
    let vectors = scattered(8);
    let query = [4000i16; DIMS];
    let mut ranked: Vec<usize> = (0..8).collect();
    ranked.sort_by_key(|&i| square_distance(&query, &vectors[i]));
    for count in 0..=5 {
        let mut labels = vec![1u8; 8];
        for &i in &ranked[count..5] {
            labels[i] = 0;
        }
        let file = build_index(&vectors, &labels);
        let found = SearchIndex::open(&file).unwrap().search(&query);
        assert_eq!(found.iter().filter(|&&l| l == Label::Fraud).count(), count);
    }
}

#[test]
fn names_of_labels_become_bytes() {
    assert_eq!(label_byte("fraud"), 1);
    assert_eq!(label_byte("legit"), 0);
    assert_eq!(label_byte("Fraud"), 0);
    assert_eq!(label_byte(""), 0);
}

#[test]
fn a_pruned_search_agrees_with_a_full_scan() {
    // Every vector is the centroid of its own cluster, so the nearest clusters hold the nearest
    // vectors.
    let vectors = scattered(300);
    let labels: Vec<u8> = (0..300).map(|i| (i % 2 == 0) as u8).collect();
    let file = build_index(&vectors, &labels);
    let index = SearchIndex::open(&file).unwrap();
    for shift in 0..50i16 {
        let query = [shift * 200; DIMS];
        let mut ranked: Vec<usize> = (0..300).collect();
        ranked.sort_by_key(|&i| square_distance(&query, &vectors[i]));
        let expected = ranked[..5].iter().filter(|&&i| labels[i] == 1).count();
        let found = index.search(&query);
        assert_eq!(found.iter().filter(|&&l| l == Label::Fraud).count(), expected);
    }
}
