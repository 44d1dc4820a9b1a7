use fraud_knn::bytes::{i16_from_le, push_i16, push_u32, read_i16, read_u32};
use fraud_knn::metric::{
    bbox_lower_bound, dist_lanes, dist_scalar, pad_query_i16, sq_dist_i16, DIMS, PADDED_DIMS, STRIDE,
};
use fraud_knn::probes::nearest_clusters;

fn record(v: &[i16; DIMS]) -> Vec<u8> {
    let mut r: Vec<u8> = v.iter().flat_map(|c| c.to_le_bytes()).collect();
    r.resize(STRIDE, 0);
    r
}

#[test]
fn integers_round_trip() {
    for v in [0i16, 1, -1, 255, 256, i16::MIN, i16::MAX, -10_000] {
        let mut out: Vec<u8> = vec![7];
        push_i16(&mut out, v);
        assert_eq!(out[1..], v.to_le_bytes());
        assert_eq!(read_i16(&out, 1), v);
        assert_eq!(i16_from_le(out[1], out[2]), v);
    }
    for v in [0u32, 1, 255, 256, 65_536, 0x1234_5678, u32::MAX] {
        let mut out: Vec<u8> = vec![7, 7];
        push_u32(&mut out, v);
        assert_eq!(out[2..], v.to_le_bytes());
        assert_eq!(read_u32(&out, 2), v);
    }
}

#[test]
fn distances_add_up_squares() {
    let mut a = [0i16; DIMS];
    a[0] = 3;
    a[13] = -4;
    assert_eq!(dist_scalar(&a, &record(&[0; DIMS])), 25);
    let mut table = vec![0i16; 3 * DIMS];
    table[2 * DIMS] = 3;
    assert_eq!(sq_dist_i16(&a, &table, 1), 25);
    assert_eq!(sq_dist_i16(&a, &table, 2), 16);
}

#[test]
fn distance_is_symmetric_and_zero_only_for_equals() {
    let a = [5i16; DIMS];
    let mut b = a;
    assert_eq!(dist_scalar(&a, &record(&b)), 0);
    b[7] = -9;
    assert_eq!(dist_scalar(&a, &record(&b)), 196);
    assert_eq!(dist_scalar(&b, &record(&a)), 196);
}

#[test]
fn the_largest_distance_fits() {
    let lo = [i16::MIN; DIMS];
    let hi = [i16::MAX; DIMS];
    assert_eq!(dist_scalar(&lo, &record(&hi)), 14 * 65_535 * 65_535);
}

#[test]
fn a_box_is_no_farther_than_what_it_holds() {
    let mins = vec![-10i16; DIMS];
    let maxs = vec![10i16; DIMS];
    assert_eq!(bbox_lower_bound(&[0; DIMS], &mins, &maxs, 0), 0);
    assert_eq!(bbox_lower_bound(&[10; DIMS], &mins, &maxs, 0), 0);
    assert_eq!(bbox_lower_bound(&[12; DIMS], &mins, &maxs, 0), 14 * 4);
    assert_eq!(bbox_lower_bound(&[-13; DIMS], &mins, &maxs, 0), 14 * 9);
    for inside in [-10i16, -3, 0, 10] {
        assert!(dist_scalar(&[12; DIMS], &record(&[inside; DIMS])) >= 14 * 4);
    }
}

#[test]
fn queries_are_padded_with_zeros() {
    let mut q = [0i16; DIMS];
    for (i, c) in q.iter_mut().enumerate() {
        *c = i as i16 + 1;
    }
    let padded: [i16; PADDED_DIMS] = pad_query_i16(&q);
    assert_eq!(padded, [1, 2, 3, 4, 5, 6, 7, 8, 9, 10, 11, 12, 13, 14, 0, 0]);
}

#[test]
fn lanes_agree_on_quantised_features() {
    let mut q = [10_000i16; DIMS];
    q[5] = -10_000;
    q[6] = -10_000;
    let mut v = [0i16; DIMS];
    v[5] = 10_000;
    v[6] = 10_000;
    let r = record(&v);
    assert_eq!(dist_scalar(&q, &r), 2_000_000_000);
    assert_eq!(dist_lanes(&pad_query_i16(&q), &r), 2_000_000_000);
}

#[test]
fn lanes_wrap_outside_their_range() {
    let q = [10_000i16; DIMS];
    let r = record(&[-10_000; DIMS]);
    let exact = 14i64 * 400_000_000;
    assert_eq!(dist_scalar(&q, &r), exact);
    assert_eq!(dist_lanes(&pad_query_i16(&q), &r), exact as i32 as i64);
    let far = record(&[i16::MIN; DIMS]);
    let wrapped = (1i16.wrapping_sub(i16::MIN)) as i64;
    assert_eq!(
        dist_lanes(&pad_query_i16(&[1; DIMS]), &far),
        (14 * wrapped * wrapped) as i32 as i64
    );
}

#[test]
fn clusters_are_ranked_by_centroid() {
    let mut centroids = vec![0i16; 5 * DIMS];
    for (c, x) in [30i16, 10, 20, 10, 0].iter().enumerate() {
        centroids[c * DIMS] = *x;
    }
    assert_eq!(nearest_clusters(&[0; DIMS], &centroids, 5, 3), vec![4, 1, 3]);
    assert_eq!(nearest_clusters(&[0; DIMS], &centroids, 5, 9), vec![4, 1, 3, 2, 0]);
    assert_eq!(nearest_clusters(&[0; DIMS], &centroids, 0, 3), Vec::<usize>::new());
}
