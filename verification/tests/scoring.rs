use fraud_knn::scorer::{fraud_neighbor_count, score};
use fraud_knn::top::labels_to_result;
use fraud_knn::types::Label;

fn float_score(neighbors: [Label; 5]) -> (f32, bool) {
    let (fifths, approved) = score(neighbors);
    (fifths as f32 / 5.0, approved)
}

#[test]
fn all_legit() {
    let (score, approved) = float_score([Label::Legit; 5]);
    assert_eq!(score, 0.0);
    assert!(approved);
}

#[test]
fn all_fraud() {
    let (score, approved) = float_score([Label::Fraud; 5]);
    assert_eq!(score, 1.0);
    assert!(!approved);
}

#[test]
fn three_fraud_is_denied() {
    let neighbors = [Label::Fraud, Label::Fraud, Label::Fraud, Label::Legit, Label::Legit];
    let (score, approved) = float_score(neighbors);
    assert_eq!(score, 0.6);
    assert!(!approved);
}

#[test]
fn two_fraud_is_approved() {
    let neighbors = [Label::Fraud, Label::Fraud, Label::Legit, Label::Legit, Label::Legit];
    let (score, approved) = float_score(neighbors);
    assert_eq!(score, 0.4);
    assert!(approved);
}

#[test]
fn more_fraud_never_helps() {
    let mut neighbors = [Label::Legit; 5];
    let mut approved_before = true;
    for i in 0..5 {
        neighbors[i] = Label::Fraud;
        let (fifths, approved) = score(neighbors);
        assert_eq!(fifths, i + 1);
        assert!(approved_before || !approved);
        approved_before = approved;
    }
}

#[test]
fn fraud_is_counted_at_every_place() {
    for i in 0..5 {
        let mut neighbors = [Label::Legit; 5];
        neighbors[i] = Label::Fraud;
        assert_eq!(fraud_neighbor_count(&neighbors), 1);
    }
}

#[test]
fn only_the_byte_one_is_fraud() {
    let labels = labels_to_result(&[(0, 1), (0, 0), (0, 2), (0, 255), (i64::MAX, 1)]);
    assert_eq!(labels, [Label::Fraud, Label::Legit, Label::Legit, Label::Legit, Label::Fraud]);
}
