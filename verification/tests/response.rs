use fraud_knn::builder::build_index;
use fraud_knn::metric::DIMS;
use fraud_knn::response::{answer, fraud_response};
use fraud_knn::search::SearchIndex;

const TEXTS: [&str; 6] = [
    r#"{"approved":true,"fraud_score":0.0}"#,
    r#"{"approved":true,"fraud_score":0.2}"#,
    r#"{"approved":true,"fraud_score":0.4}"#,
    r#"{"approved":false,"fraud_score":0.6}"#,
    r#"{"approved":false,"fraud_score":0.8}"#,
    r#"{"approved":false,"fraud_score":1.0}"#,
];

#[test]
fn there_are_six_answers() {
    for count in 0..6 {
        assert_eq!(fraud_response(count), TEXTS[count]);
    }
}

#[test]
fn answers_are_json() {
    for count in 0..6usize {
        let parsed: serde_json::Value = serde_json::from_str(fraud_response(count)).unwrap();
        assert_eq!(parsed["approved"].as_bool(), Some(count < 3));
        assert_eq!(parsed["fraud_score"].as_f64(), Some(count as f64 * 2.0 / 10.0));
    }
}

#[test]
fn requests_that_cannot_be_served_are_approved() {
    let file = build_index(&[[0; DIMS]; 5], &[1; 5]);
    let index = SearchIndex::open(&file).unwrap();
    assert_eq!(answer(None, Some(&[0; DIMS])), TEXTS[0]);
    assert_eq!(answer(Some(&index), None), TEXTS[0]);
    assert_eq!(answer(None, None), TEXTS[0]);
    assert_eq!(answer(Some(&index), Some(&[0; DIMS])), TEXTS[5]);
}

#[test]
fn answers_count_the_frauds() {
    for count in 0..6usize {
        let mut labels = [0u8; 5];
        for label in labels.iter_mut().take(count) {
            *label = 1;
        }
        let file = build_index(&[[100; DIMS]; 5], &labels);
        let index = SearchIndex::open(&file).unwrap();
        assert_eq!(answer(Some(&index), Some(&[0; DIMS])), TEXTS[count]);
    }
}
