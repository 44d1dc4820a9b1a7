use fraud_knn::builder::build_index;
use fraud_knn::evaluation::{
    evaluate, format_mismatch, format_neighbors, listed, parse_args, request_id, score_text, Case,
    Command, Counters, Mismatch,
};
use fraud_knn::metric::DIMS;
use fraud_knn::search::SearchIndex;
use fraud_knn::types::Label;

fn parse(args: &[&str]) -> Result<Command, String> {
    let owned: Vec<String> = args.iter().map(|a| a.to_string()).collect();
    parse_args(&owned)
}

fn settings(args: &[&str]) -> (String, String, bool, bool) {
    match parse(args) {
        Ok(Command::Run { config }) => (
            config.dataset_path,
            config.index_path,
            config.edge_only,
            config.show_all_mismatches,
        ),
        _ => panic!("no run"),
    }
}

fn fault(args: &[&str]) -> String {
    match parse(args) {
        Err(text) => text,
        Ok(_) => panic!("no fault"),
    }
}

#[test]
fn defaults_without_arguments() {
    assert_eq!(
        settings(&[]),
        ("spec/test/test-data.json".to_string(), "resources/index.bin".to_string(), false, false)
    );
}

#[test]
fn arguments_are_taken_in_turn() {
    assert_eq!(
        settings(&["--edge-only", "--index", "i", "--dataset", "d", "--all-mismatches"]),
        ("d".to_string(), "i".to_string(), true, true)
    );
    // The later value counts, and a value may look like an argument.
    assert_eq!(settings(&["--index", "a", "--index", "--help"]).1, "--help");
}

#[test]
fn help_is_given_when_it_is_reached() {
    assert!(matches!(parse(&["--help"]), Ok(Command::Help)));
    assert!(matches!(parse(&["--edge-only", "-h", "nonsense"]), Ok(Command::Help)));
    assert_eq!(fault(&["nonsense", "-h"]), "unknown argument: nonsense");
}

#[test]
fn faults_are_named() {
    assert_eq!(fault(&["--dataset"]), "missing value for --dataset");
    assert_eq!(fault(&["--dataset", "d", "--index"]), "missing value for --index");
    assert_eq!(fault(&["--Index", "i"]), "unknown argument: --Index");
    assert_eq!(fault(&[""]), "unknown argument: ");
}

#[test]
fn decisions_are_counted() {
    let mut counters = Counters::new();
    assert_eq!(counters.record(true, true), None);
    assert_eq!(counters.record(false, false), None);
    assert_eq!(counters.record(false, false), None);
    assert_eq!(counters.record(true, false), Some(Mismatch::FalsePositive));
    assert_eq!(counters.record(false, true), Some(Mismatch::FalseNegative));
    assert_eq!(counters.record(false, true), Some(Mismatch::FalseNegative));
    assert_eq!(counters, Counters { tp: 2, tn: 1, fp: 1, fn_: 2 });
    assert_eq!(Mismatch::FalsePositive.name(), "FP");
    assert_eq!(Mismatch::FalseNegative.name(), "FN");
}

#[test]
fn the_first_twenty_mismatches_are_listed() {
    assert_eq!(listed(0, false), (0, 0));
    assert_eq!(listed(19, false), (19, 0));
    assert_eq!(listed(20, false), (20, 0));
    assert_eq!(listed(21, false), (20, 1));
    assert_eq!(listed(21, true), (21, 0));
}

#[test]
fn requests_without_identifier_are_marked() {
    assert_eq!(request_id(Some("tx-1")), "tx-1");
    assert_eq!(request_id(Some("")), "");
    assert_eq!(request_id(None), "<missing-id>");
}

#[test]
fn neighbors_are_letters() {
    assert_eq!(
        format_neighbors(&[Label::Legit, Label::Fraud, Label::Fraud, Label::Legit, Label::Legit]),
        "[L,F,F,L,L]"
    );
}

#[test]
fn scores_are_printed_as_floats_are() {
    for count in 0..6usize {
        assert_eq!(score_text(count), format!("{}", count as f32 / 5.0));
    }
}

#[test]
fn mismatches_are_one_line() {
    let neighbors = [Label::Fraud, Label::Fraud, Label::Legit, Label::Fraud, Label::Legit];
    assert_eq!(
        format_mismatch("tx-9", true, "0.4", false, score_text(3), &neighbors, "FP"),
        "FP id=tx-9 expected_approved=true expected_score=0.4 actual_approved=false \
         actual_score=0.6 fraud_neighbors=3 neighbors=[F,F,L,F,L]"
    );
    assert_eq!(
        format_mismatch("", false, "1", true, score_text(0), &[Label::Legit; 5], "FN"),
        "FN id= expected_approved=false expected_score=1 actual_approved=true \
         actual_score=0 fraud_neighbors=0 neighbors=[L,L,L,L,L]"
    );
}

#[test]
fn evaluation_counts_and_lists() {
    let mut vectors = vec![[0i16; DIMS]; 5];
    vectors.extend_from_slice(&[[9000i16; DIMS]; 5]);
    let file = build_index(&vectors, &[0, 0, 0, 0, 0, 1, 1, 1, 1, 1]);
    let index = SearchIndex::open(&file).unwrap();
    let case = |id: &str, expected_approved: bool, x: i16| Case {
        id: id.to_string(),
        expected_approved,
        expected_score: (if expected_approved { "0.2" } else { "0.8" }).to_string(),
        query: [x; DIMS],
    };
    let cases = [
        case("a", true, 0),
        case("b", true, 9000),
        case("c", false, 0),
        case("d", false, 9000),
        case("e", true, 100),
    ];
    let report = evaluate(&index, &cases);
    assert_eq!(report.counters, Counters { tp: 1, tn: 2, fp: 1, fn_: 1 });
    assert_eq!(
        report.mismatches,
        vec![
            "FP id=b expected_approved=true expected_score=0.2 actual_approved=false \
             actual_score=1 fraud_neighbors=5 neighbors=[F,F,F,F,F]",
            "FN id=c expected_approved=false expected_score=0.8 actual_approved=true \
             actual_score=0 fraud_neighbors=0 neighbors=[L,L,L,L,L]",
        ]
    );
    assert!(evaluate(&index, &[]).mismatches.is_empty());
}
