use fraud_knn::bench::{jitter, percentile, pick, Lcg64};
use fraud_knn::metric::DIMS;

#[test]
fn the_generator_is_fixed() {
    let mut rng = Lcg64::new(0xd7f151ea5eed);
    assert_eq!(rng.next_u64(), 2_070_527_515_962_819_576);
    assert_eq!(rng.next_u64(), 13_725_286_475_431_672_807);
    let mut copy = rng.clone();
    assert_eq!(rng.next_u64(), 11_564_735_576_470_282_730);
    assert_eq!(copy.next_u64(), 11_564_735_576_470_282_730);
}

#[test]
fn percentiles_pick_from_sorted_values() {
    let values: Vec<u128> = (0..200).map(|i| i * 10).collect();
    assert_eq!(percentile(&values, 95, 100), 1890);
    assert_eq!(percentile(&values, 99, 100), 1970);
    assert_eq!(percentile(&values, 0, 100), 0);
    assert_eq!(percentile(&values, 100, 100), 1990);
    assert_eq!(percentile(&[7], 95, 100), 7);
    assert_eq!(percentile(&[], 95, 100), 0);
    assert_eq!(percentile(&[], 1, 0), 0);
}

#[test]
fn records_are_picked_by_remainder() {
    assert_eq!(pick(10, 3), 1);
    assert_eq!(pick(u64::MAX, 10), 5);
}

#[test]
fn queries_are_shifted_a_little() {
    let query = [100i16; DIMS];
    let mut expected = query;
    expected[0] = 50;
    assert_eq!(jitter(query, 0), expected);
    assert_eq!(jitter(query, 255), expected);
    expected[0] = 51;
    assert_eq!(jitter(query, 256), expected);
    expected[0] = 150;
    assert_eq!(jitter(query, 100 * 256), expected);
    expected[0] = 50;
    assert_eq!(jitter(query, 101 * 256), expected);
    assert_eq!(jitter([i16::MIN; DIMS], 0), [i16::MIN; DIMS]);
    assert_eq!(jitter([i16::MAX; DIMS], 100 * 256), [i16::MAX; DIMS]);
}
