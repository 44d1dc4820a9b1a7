use chrono::{DateTime, Utc};
use fraud_knn::clock::Timestamp;
use fraud_knn::types::{
    Customer, LastTransaction, Merchant, Single, Terminal, Transaction, TransactionPayload,
};
use fraud_knn::vectorizer::{default_mcc_risk, Feature, Vectorizer, ONE};

fn single(x: f32) -> Single {
    Single { bits: x.to_bits() }
}

fn float(s: Single) -> f32 {
    f32::from_bits(s.bits)
}

fn at(text: &str) -> Timestamp {
    let t: DateTime<Utc> = text.parse().unwrap();
    Timestamp::new(t.timestamp(), t.timestamp_subsec_nanos()).unwrap()
}

fn value(feature: Feature) -> f32 {
    match feature {
        Feature::Ratio { numerator, denominator } => numerator as f32 / denominator as f32,
        Feature::Quotient { value, divisor } => (float(value) / divisor as f32).clamp(0.0, 1.0),
        Feature::RelativeQuotient { value, base, divisor } => {
            ((float(value) / float(base)) / divisor as f32).clamp(0.0, 1.0)
        }
        Feature::Value { value } => float(value),
        Feature::Missing => -1.0,
    }
}

fn mcc_map(entries: &[(&str, f32)]) -> Vec<(String, Single)> {
    entries.iter().map(|(k, v)| (k.to_string(), single(*v))).collect()
}

fn base_payload() -> TransactionPayload {
    TransactionPayload {
        id: "test".into(),
        transaction: Transaction {
            amount: single(500.0),
            installments: 1,
            requested_at: at("2026-01-05T12:00:00Z"), // Monday noon
        },
        customer: Customer {
            avg_amount: single(1000.0),
            tx_count_24h: 2,
            known_merchants: vec!["MERC-001".to_string()],
        },
        merchant: Merchant {
            id: "MERC-001".into(),
            mcc: "5912".into(),
            avg_amount: single(300.0),
        },
        terminal: Terminal {
            is_online: false,
            card_present: true,
            km_from_home: single(10.0),
        },
        last_transaction: None,
    }
}

fn features_for(payload: &TransactionPayload) -> [Feature; 14] {
    Vectorizer::new(mcc_map(&[("5912", 0.20)])).vectorize(payload)
}

fn vec_for(payload: &TransactionPayload) -> [f32; 14] {
    features_for(payload).map(value)
}

// dim 0: amount

#[test]
fn dim0_normal() {
    let mut p = base_payload();
    p.transaction.amount = single(5000.0);
    assert!((vec_for(&p)[0] - 0.5).abs() < 1e-5);
}

#[test]
fn dim0_clamped_above_max() {
    let mut p = base_payload();
    p.transaction.amount = single(15_000.0);
    assert_eq!(vec_for(&p)[0], 1.0);
}

#[test]
fn dim0_zero() {
    let mut p = base_payload();
    p.transaction.amount = single(0.0);
    assert_eq!(vec_for(&p)[0], 0.0);
}

// dim 1: installments

#[test]
fn dim1_normal() {
    let mut p = base_payload();
    p.transaction.installments = 6;
    assert!((vec_for(&p)[1] - 0.5).abs() < 1e-5);
}

#[test]
fn dim1_clamped_above_max() {
    let mut p = base_payload();
    p.transaction.installments = 24;
    assert_eq!(vec_for(&p)[1], 1.0);
}

#[test]
fn dim1_zero() {
    let mut p = base_payload();
    p.transaction.installments = 0;
    assert_eq!(vec_for(&p)[1], 0.0);
}

// dim 2: amount_vs_avg

#[test]
fn dim2_normal() {
    // amount=500, avg=1000 → (0.5) / 10 = 0.05
    let mut p = base_payload();
    p.transaction.amount = single(500.0);
    p.customer.avg_amount = single(1000.0);
    assert!((vec_for(&p)[2] - 0.05).abs() < 1e-5);
}

#[test]
fn dim2_clamped_above_max() {
    // amount=10000, avg=100 → ratio=100 → /10 = 10 → clamped 1.0
    let mut p = base_payload();
    p.transaction.amount = single(10_000.0);
    p.customer.avg_amount = single(100.0);
    assert_eq!(vec_for(&p)[2], 1.0);
}

// dim 3: hour_of_day

#[test]
fn dim3_midnight() {
    let mut p = base_payload();
    p.transaction.requested_at = at("2026-01-05T00:00:00Z");
    assert_eq!(vec_for(&p)[3], 0.0);
}

#[test]
fn dim3_last_hour() {
    let mut p = base_payload();
    p.transaction.requested_at = at("2026-01-05T23:00:00Z");
    assert_eq!(vec_for(&p)[3], 1.0);
}

#[test]
fn dim3_noon() {
    let mut p = base_payload();
    p.transaction.requested_at = at("2026-01-05T12:00:00Z");
    assert!((vec_for(&p)[3] - 12.0 / 23.0).abs() < 1e-5);
}

// dim 4: day_of_week

#[test]
fn dim4_monday() {
    // 2026-01-05 is Monday (Jan 1=Thu → +4 = Mon)
    let mut p = base_payload();
    p.transaction.requested_at = at("2026-01-05T12:00:00Z");
    assert_eq!(vec_for(&p)[4], 0.0);
}

#[test]
fn dim4_sunday() {
    // 2026-01-11 is Sunday
    let mut p = base_payload();
    p.transaction.requested_at = at("2026-01-11T12:00:00Z");
    assert_eq!(vec_for(&p)[4], 1.0);
}

// dim 5: minutes_since_last_tx

#[test]
fn dim5_sentinel_when_no_last_tx() {
    let p = base_payload();
    assert_eq!(vec_for(&p)[5], -1.0);
}

#[test]
fn dim5_normal() {
    // 720 minutes ago → 720/1440 = 0.5
    let mut p = base_payload();
    p.transaction.requested_at = at("2026-01-05T12:00:00Z");
    p.last_transaction = Some(LastTransaction {
        timestamp: at("2026-01-05T00:00:00Z"),
        km_from_current: single(0.0),
    });
    assert!((vec_for(&p)[5] - 0.5).abs() < 1e-5);
}

#[test]
fn dim5_clamped_above_max() {
    let mut p = base_payload();
    p.transaction.requested_at = at("2026-01-06T12:00:00Z");
    p.last_transaction = Some(LastTransaction {
        timestamp: at("2026-01-05T00:00:00Z"), // 36h ago
        km_from_current: single(0.0),
    });
    assert_eq!(vec_for(&p)[5], 1.0);
}

// dim 6: km_from_last_tx

#[test]
fn dim6_sentinel_when_no_last_tx() {
    let p = base_payload();
    assert_eq!(vec_for(&p)[6], -1.0);
}

#[test]
fn dim6_normal() {
    let mut p = base_payload();
    p.last_transaction = Some(LastTransaction {
        timestamp: at("2026-01-05T06:00:00Z"),
        km_from_current: single(500.0),
    });
    assert!((vec_for(&p)[6] - 0.5).abs() < 1e-5);
}

#[test]
fn dim6_clamped_above_max() {
    let mut p = base_payload();
    p.last_transaction = Some(LastTransaction {
        timestamp: at("2026-01-05T06:00:00Z"),
        km_from_current: single(2000.0),
    });
    assert_eq!(vec_for(&p)[6], 1.0);
}

// dim 7: km_from_home

#[test]
fn dim7_normal() {
    let mut p = base_payload();
    p.terminal.km_from_home = single(500.0);
    assert!((vec_for(&p)[7] - 0.5).abs() < 1e-5);
}

#[test]
fn dim7_clamped() {
    let mut p = base_payload();
    p.terminal.km_from_home = single(2000.0);
    assert_eq!(vec_for(&p)[7], 1.0);
}

#[test]
fn dim7_zero() {
    let mut p = base_payload();
    p.terminal.km_from_home = single(0.0);
    assert_eq!(vec_for(&p)[7], 0.0);
}

// dim 8: tx_count_24h

#[test]
fn dim8_normal() {
    let mut p = base_payload();
    p.customer.tx_count_24h = 10;
    assert!((vec_for(&p)[8] - 0.5).abs() < 1e-5);
}

#[test]
fn dim8_clamped() {
    let mut p = base_payload();
    p.customer.tx_count_24h = 40;
    assert_eq!(vec_for(&p)[8], 1.0);
}

// dim 9: is_online

#[test]
fn dim9_online() {
    let mut p = base_payload();
    p.terminal.is_online = true;
    assert_eq!(vec_for(&p)[9], 1.0);
}

#[test]
fn dim9_in_person() {
    let mut p = base_payload();
    p.terminal.is_online = false;
    assert_eq!(vec_for(&p)[9], 0.0);
}

// dim 10: card_present

#[test]
fn dim10_present() {
    let mut p = base_payload();
    p.terminal.card_present = true;
    assert_eq!(vec_for(&p)[10], 1.0);
}

#[test]
fn dim10_absent() {
    let mut p = base_payload();
    p.terminal.card_present = false;
    assert_eq!(vec_for(&p)[10], 0.0);
}

// dim 11: unknown_merchant

#[test]
fn dim11_known_merchant() {
    let mut p = base_payload();
    p.merchant.id = "MERC-001".into();
    p.customer.known_merchants = vec!["MERC-001".to_string()];
    assert_eq!(vec_for(&p)[11], 0.0);
}

#[test]
fn dim11_unknown_merchant() {
    let mut p = base_payload();
    p.merchant.id = "MERC-999".into();
    p.customer.known_merchants = vec!["MERC-001".to_string()];
    assert_eq!(vec_for(&p)[11], 1.0);
}

// dim 12: mcc_risk

#[test]
fn dim12_known_mcc() {
    let mut p = base_payload();
    p.merchant.mcc = "5912".into();
    assert!((vec_for(&p)[12] - 0.20).abs() < 1e-5);
}

#[test]
fn dim12_unknown_mcc_defaults_to_0_5() {
    let mut p = base_payload();
    p.merchant.mcc = "9999".into();
    assert!((vec_for(&p)[12] - 0.5).abs() < 1e-5);
}

// dim 13: merchant_avg_amount

#[test]
fn dim13_normal() {
    let mut p = base_payload();
    p.merchant.avg_amount = single(5000.0);
    assert!((vec_for(&p)[13] - 0.5).abs() < 1e-5);
}

#[test]
fn dim13_clamped() {
    let mut p = base_payload();
    p.merchant.avg_amount = single(20_000.0);
    assert_eq!(vec_for(&p)[13], 1.0);
}

#[test]
fn fractions_are_exact() {
    let mut p = base_payload();
    p.transaction.installments = 5;
    p.customer.tx_count_24h = u32::MAX;
    p.last_transaction = Some(LastTransaction {
        timestamp: at("2026-01-05T11:59:00.500Z"),
        km_from_current: single(7.0),
    });
    let f = features_for(&p);
    assert_eq!(f[1], Feature::Ratio { numerator: 5, denominator: 12 });
    assert_eq!(f[3], Feature::Ratio { numerator: 12, denominator: 23 });
    assert_eq!(f[4], Feature::Ratio { numerator: 0, denominator: 6 });
    assert_eq!(f[5], Feature::Ratio { numerator: 0, denominator: 1440 });
    assert_eq!(f[6], Feature::Quotient { value: single(7.0), divisor: 1000 });
    assert_eq!(f[8], Feature::Ratio { numerator: 20, denominator: 20 });
    for feature in f {
        if let Feature::Ratio { numerator, denominator } = feature {
            assert!(numerator <= denominator && denominator > 0);
        }
    }
}

#[test]
fn a_last_transaction_in_the_future_counts_as_just_now() {
    let mut p = base_payload();
    p.last_transaction = Some(LastTransaction {
        timestamp: at("2026-01-05T18:00:00Z"),
        km_from_current: single(0.0),
    });
    assert_eq!(features_for(&p)[5], Feature::Ratio { numerator: 0, denominator: 1440 });
}

#[test]
fn only_the_last_transaction_can_be_missing() {
    let f = features_for(&base_payload());
    for (d, feature) in f.iter().enumerate() {
        assert_eq!(*feature == Feature::Missing, d == 5 || d == 6);
    }
    let mut p = base_payload();
    p.last_transaction = Some(LastTransaction {
        timestamp: at("2026-01-05T06:00:00Z"),
        km_from_current: single(1.0),
    });
    assert!(!features_for(&p).contains(&Feature::Missing));
}

#[test]
fn the_last_risk_of_a_category_counts() {
    let v = Vectorizer::new(mcc_map(&[("5912", 0.20), ("1111", 0.75), ("5912", 0.90)]));
    let p = base_payload();
    assert_eq!(value(v.vectorize(&p)[12]), 0.90);
    let none = Vectorizer::new(Vec::new());
    assert_eq!(value(none.vectorize(&p)[12]), 0.5);
}

#[test]
fn any_known_merchant_will_do() {
    let mut p = base_payload();
    p.customer.known_merchants = vec!["A".into(), "B".into(), "MERC-001".into()];
    assert_eq!(vec_for(&p)[11], 0.0);
    p.customer.known_merchants = Vec::new();
    assert_eq!(vec_for(&p)[11], 1.0);
}

#[test]
fn default_risks_are_hundredths() {
    let expected: Vec<(String, f32)> = [
        ("5411", 0.15),
        ("5812", 0.30),
        ("5912", 0.20),
        ("5944", 0.45),
        ("7801", 0.80),
        ("7802", 0.75),
        ("7995", 0.85),
        ("4511", 0.35),
        ("5311", 0.25),
        ("5999", 0.50),
    ]
    .into_iter()
    .map(|(k, v)| (k.to_string(), v))
    .collect();
    let actual: Vec<(String, f32)> =
        default_mcc_risk().into_iter().map(|(k, h)| (k, h as f32 / 100.0)).collect();
    assert_eq!(actual, expected);
}

#[test]
fn risks_in_the_unit_range_stay_there() {
    let v = Vectorizer::new(mcc_map(&[("1", 0.0), ("2", 1.0), ("3", 0.999)]));
    for mcc in ["1", "2", "3", "4"] {
        let mut p = base_payload();
        p.merchant.mcc = mcc.into();
        let risk = value(v.vectorize(&p)[12]);
        assert!((0.0..=1.0).contains(&risk));
        assert!(risk.to_bits() <= ONE);
    }
    assert_eq!(f32::from_bits(ONE), 1.0);
}
