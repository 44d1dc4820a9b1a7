//! Evaluation of the decisions on a labelled dataset.

use crate::metric::DIMS;
use crate::response::{bool_text, digit};
use crate::scorer::{fraud_count, fraud_count_bound, fraud_neighbor_count, is_approved, score};
use crate::search::{neighbors, searchable, SearchIndex};
use crate::top::K;
use crate::types::Label;
use vstd::prelude::*;

verus! {

/// How many mismatches are listed unless all are asked for.
pub const MISMATCHES_SHOWN: usize = 20;

/// What an evaluation works on.
pub struct Config {
    pub dataset_path: String,
    pub index_path: String,
    pub edge_only: bool,
    pub show_all_mismatches: bool,
}

/// What the command line asks for.
pub enum Command {
    /// An evaluation.
    Run { config: Config },
    /// The usage text.
    Help,
}

/// The contents of a `Config`.
pub struct Settings {
    pub dataset: Seq<char>,
    pub index: Seq<char>,
    pub edge_only: bool,
    pub show_all: bool,
}

/// What a command line comes to.
pub enum Parsed {
    Run { settings: Settings },
    Help,
    Fault { text: Seq<char> },
}

impl View for Config {
    type V = Settings;

    open spec fn view(&self) -> Settings {
        Settings {
            dataset: self.dataset_path@,
            index: self.index_path@,
            edge_only: self.edge_only,
            show_all: self.show_all_mismatches,
        }
    }
}

/// The settings of an empty command line.
pub open spec fn default_settings() -> Settings {
    Settings {
        dataset: "spec/test/test-data.json"@,
        index: "resources/index.bin"@,
        edge_only: false,
        show_all: false,
    }
}

/// The characters of each argument.
pub open spec fn texts(args: Seq<String>) -> Seq<Seq<char>> {
    Seq::new(args.len(), |i: int| args[i]@)
}

/// What the arguments from `i` on make of the settings so far.
pub open spec fn parse_from(args: Seq<Seq<char>>, i: int, s: Settings) -> Parsed
    decreases args.len() - i,
{
    if i >= args.len() {
        Parsed::Run { settings: s }
    } else if args[i] == "--dataset"@ {
        if i + 1 < args.len() {
            parse_from(args, i + 2, Settings { dataset: args[i + 1], ..s })
        } else {
            Parsed::Fault { text: "missing value for --dataset"@ }
        }
    } else if args[i] == "--index"@ {
        if i + 1 < args.len() {
            parse_from(args, i + 2, Settings { index: args[i + 1], ..s })
        } else {
            Parsed::Fault { text: "missing value for --index"@ }
        }
    } else if args[i] == "--edge-only"@ {
        parse_from(args, i + 1, Settings { edge_only: true, ..s })
    } else if args[i] == "--all-mismatches"@ {
        parse_from(args, i + 1, Settings { show_all: true, ..s })
    } else if args[i] == "--help"@ || args[i] == "-h"@ {
        Parsed::Help
    } else {
        Parsed::Fault { text: "unknown argument: "@ + args[i] }
    }
}

/// What a result of `parse_args` stands for.
pub open spec fn outcome(res: Result<Command, String>) -> Parsed {
    match res {
        Ok(Command::Run { config }) => Parsed::Run { settings: config@ },
        Ok(Command::Help) => Parsed::Help,
        Err(text) => Parsed::Fault { text: text@ },
    }
}

/// Whether `a` and `b` hold the same characters.
fn same_text(a: &String, b: &str) -> (res: bool)
    ensures
        res == (a@ == b@),
{
    *a == b.to_owned()
}

/// Reads a command line, given without the name of the program.
pub fn parse_args(args: &[String]) -> (res: Result<Command, String>)
    ensures
        outcome(res) == parse_from(texts(args@), 0, default_settings()),
{
    let ghost all = texts(args@);
    let mut config = Config {
        dataset_path: "spec/test/test-data.json".to_owned(),
        index_path: "resources/index.bin".to_owned(),
        edge_only: false,
        show_all_mismatches: false,
    };
    let mut i: usize = 0;
    while i < args.len()
        invariant
            all == texts(args@),
            i <= args.len(),
            parse_from(all, i as int, config@) == parse_from(all, 0, default_settings()),
        decreases args.len() - i,
    {
        let arg: &String = &args[i];
        assert(all[i as int] == arg@);
        if same_text(arg, "--dataset") {
            if args.len() - i < 2 {
                return Err("missing value for --dataset".to_owned());
            }
            config.dataset_path = args[i + 1].clone();
            i += 2;
        } else if same_text(arg, "--index") {
            if args.len() - i < 2 {
                return Err("missing value for --index".to_owned());
            }
            config.index_path = args[i + 1].clone();
            i += 2;
        } else if same_text(arg, "--edge-only") {
            config.edge_only = true;
            i += 1;
        } else if same_text(arg, "--all-mismatches") {
            config.show_all_mismatches = true;
            i += 1;
        } else if same_text(arg, "--help") || same_text(arg, "-h") {
            return Ok(Command::Help);
        } else {
            let mut text: String = "unknown argument: ".to_owned();
            text.append(arg.as_str());
            return Err(text);
        }
    }
    Ok(Command::Run { config })
}

/// A decision that is not the expected one.
#[derive(Clone, Copy, Debug, PartialEq, Eq, Structural)]
pub enum Mismatch {
    /// Refused, though it should be approved.
    FalsePositive,
    /// Approved, though it should be refused.
    FalseNegative,
}

/// The short name of a mismatch.
pub open spec fn kind_text(kind: Mismatch) -> Seq<char> {
    match kind {
        Mismatch::FalsePositive => "FP"@,
        Mismatch::FalseNegative => "FN"@,
    }
}

impl Mismatch {
    /// Its short name.
    pub fn name(&self) -> (text: &'static str)
        ensures
            text@ == kind_text(*self),
    {
        match self {
            Mismatch::FalsePositive => "FP",
            Mismatch::FalseNegative => "FN",
        }
    }
}

/// How an actual decision differs from the expected one, if it does.
pub open spec fn mismatch(expected_approved: bool, actual_approved: bool) -> Option<Mismatch> {
    if expected_approved && !actual_approved {
        Some(Mismatch::FalsePositive)
    } else if !expected_approved && actual_approved {
        Some(Mismatch::FalseNegative)
    } else {
        None
    }
}

/// How many decisions were right and wrong; fraud counts as positive.
#[derive(Clone, Copy, Debug, PartialEq, Eq, Structural)]
pub struct Counters {
    pub tp: usize,
    pub tn: usize,
    pub fp: usize,
    pub fn_: usize,
}

impl Counters {
    /// All decisions that were counted.
    pub open spec fn total(self) -> int {
        self.tp + self.tn + self.fp + self.fn_
    }

    /// The counters after one more decision.
    pub open spec fn counting(self, expected_approved: bool, actual_approved: bool) -> Counters {
        if expected_approved && actual_approved {
            Counters { tn: (self.tn + 1) as usize, ..self }
        } else if !expected_approved && !actual_approved {
            Counters { tp: (self.tp + 1) as usize, ..self }
        } else if expected_approved {
            Counters { fp: (self.fp + 1) as usize, ..self }
        } else {
            Counters { fn_: (self.fn_ + 1) as usize, ..self }
        }
    }

    /// No decision counted yet.
    pub fn new() -> (res: Counters)
        ensures
            res == (Counters { tp: 0, tn: 0, fp: 0, fn_: 0 }),
    {
        Counters { tp: 0, tn: 0, fp: 0, fn_: 0 }
    }

    /// Counts one decision, and tells how it was wrong.
    pub fn record(&mut self, expected_approved: bool, actual_approved: bool) -> (res: Option<
        Mismatch,
    >)
        requires
            old(self).total() < usize::MAX,
        ensures
            *final(self) == old(self).counting(expected_approved, actual_approved),
            res == mismatch(expected_approved, actual_approved),
    {
        if expected_approved {
            if actual_approved {
                self.tn += 1;
                None
            } else {
                self.fp += 1;
                Some(Mismatch::FalsePositive)
            }
        } else if actual_approved {
            self.fn_ += 1;
            Some(Mismatch::FalseNegative)
        } else {
            self.tp += 1;
            None
        }
    }
}

/// Every decision is counted once, and as wrong exactly if it is a mismatch.
pub proof fn every_decision_counts(c: Counters, expected_approved: bool, actual_approved: bool)
    requires
        c.total() < usize::MAX,
    ensures
        c.counting(expected_approved, actual_approved).total() == c.total() + 1,
        ({
            let d = c.counting(expected_approved, actual_approved);
            d.fp + d.fn_ == c.fp + c.fn_ + if mismatch(expected_approved, actual_approved) is Some {
                1int
            } else {
                0
            }
        }),
{
}

/// How many of `total` mismatches are listed.
pub open spec fn shown(total: int, show_all: bool) -> int {
    if show_all || total < MISMATCHES_SHOWN {
        total
    } else {
        MISMATCHES_SHOWN as int
    }
}

/// How many mismatches are listed, and how many are left out.
pub fn listed(total: usize, show_all: bool) -> (res: (usize, usize))
    ensures
        res.0 == shown(total as int, show_all),
        res.0 + res.1 == total,
{
    if show_all || total < MISMATCHES_SHOWN {
        (total, 0)
    } else {
        (MISMATCHES_SHOWN, total - MISMATCHES_SHOWN)
    }
}

/// The characters of an identifier that may be missing.
pub open spec fn given_text(id: Option<&str>) -> Option<Seq<char>> {
    match id {
        Some(given) => Some(given@),
        None => None,
    }
}

/// The identifier of a request, or what stands for it where there is none.
pub open spec fn id_text(id: Option<Seq<char>>) -> Seq<char> {
    match id {
        Some(given) => given,
        None => "<missing-id>"@,
    }
}

/// The identifier of a request, or what stands for it where there is none.
pub fn request_id<'a>(id: Option<&'a str>) -> (text: &'a str)
    ensures
        text@ == match id {
            Some(given) => given@,
            None => "<missing-id>"@,
        },
        text@ == id_text(given_text(id)),
{
    match id {
        Some(given) => given,
        None => "<missing-id>",
    }
}

/// One letter for a label.
pub open spec fn label_letter(label: Label) -> Seq<char> {
    match label {
        Label::Legit => "L"@,
        Label::Fraud => "F"@,
    }
}

/// The letters of the first `m` labels, with commas between them.
pub open spec fn joined(labels: Seq<Label>, m: int) -> Seq<char>
    decreases m,
{
    if m <= 0 {
        Seq::empty()
    } else if m == 1 {
        label_letter(labels[0])
    } else {
        joined(labels, m - 1) + ","@ + label_letter(labels[m - 1])
    }
}

/// Labels as a list of letters in square brackets.
pub open spec fn neighbors_text(labels: Seq<Label>) -> Seq<char> {
    "["@ + joined(labels, labels.len() as int) + "]"@
}

/// Writes neighbours as a list of letters.
pub fn format_neighbors(neighbors: &[Label; K]) -> (text: String)
    ensures
        text@ == neighbors_text(neighbors@),
{
    let mut text: String = "[".to_owned();
    assert("["@ + joined(neighbors@, 0) =~= "["@);
    for i in 0..K
        invariant
            text@ == "["@ + joined(neighbors@, i as int),
    {
        if i > 0 {
            text.append(",");
        }
        match neighbors[i] {
            Label::Legit => text.append("L"),
            Label::Fraud => text.append("F"),
        }
        assert(text@ =~= "["@ + joined(neighbors@, i + 1));
    }
    text.append("]");
    text
}

/// `count` / 5 as it is printed: without decimals if it is whole.
pub open spec fn score_number(count: int) -> Seq<char> {
    if count == 0 {
        seq!['0']
    } else if count == K {
        seq!['1']
    } else {
        seq!['0', '.', digit(2 * count)]
    }
}

/// Writes the fraud score of a transaction of whose neighbours `fraud_count` are fraud.
pub fn score_text(fraud_count: usize) -> (text: &'static str)
    requires
        fraud_count <= K,
    ensures
        text@ == score_number(fraud_count as int),
{
    proof {
        reveal_strlit("0");
        reveal_strlit("0.2");
        reveal_strlit("0.4");
        reveal_strlit("0.6");
        reveal_strlit("0.8");
        reveal_strlit("1");
    }
    let text = if fraud_count == 0 {
        "0"
    } else if fraud_count == 1 {
        "0.2"
    } else if fraud_count == 2 {
        "0.4"
    } else if fraud_count == 3 {
        "0.6"
    } else if fraud_count == 4 {
        "0.8"
    } else {
        "1"
    };
    assert(text@ =~= score_number(fraud_count as int));
    text
}

/// `count` as a single digit.
fn count_text(count: usize) -> (text: &'static str)
    requires
        count <= K,
    ensures
        text@ == seq![digit(count as int)],
{
    proof {
        reveal_strlit("0");
        reveal_strlit("1");
        reveal_strlit("2");
        reveal_strlit("3");
        reveal_strlit("4");
        reveal_strlit("5");
    }
    let text = if count == 0 {
        "0"
    } else if count == 1 {
        "1"
    } else if count == 2 {
        "2"
    } else if count == 3 {
        "3"
    } else if count == 4 {
        "4"
    } else {
        "5"
    };
    assert(text@ =~= seq![digit(count as int)]);
    text
}

/// `truth` in words.
fn truth_text(truth: bool) -> (text: &'static str)
    ensures
        text@ == bool_text(truth),
{
    if truth {
        "true"
    } else {
        "false"
    }
}

/// A line on a mismatch.
pub open spec fn mismatch_text(
    request_id: Seq<char>,
    expected_approved: bool,
    expected_score: Seq<char>,
    actual_approved: bool,
    actual_score: Seq<char>,
    neighbors: Seq<Label>,
    kind: Seq<char>,
) -> Seq<char> {
    kind + " id="@ + request_id + " expected_approved="@ + bool_text(expected_approved)
        + " expected_score="@ + expected_score + " actual_approved="@ + bool_text(actual_approved)
        + " actual_score="@ + actual_score + " fraud_neighbors="@ + seq![
        digit(fraud_count(neighbors) as int),
    ] + " neighbors="@ + neighbors_text(neighbors)
}

/// Writes a line on a mismatch; the scores are given as they are to be printed.
pub fn format_mismatch(
    request_id: &str,
    expected_approved: bool,
    expected_score: &str,
    actual_approved: bool,
    actual_score: &str,
    neighbors: &[Label; K],
    kind: &str,
) -> (text: String)
    ensures
        text@ == mismatch_text(
            request_id@,
            expected_approved,
            expected_score@,
            actual_approved,
            actual_score@,
            neighbors@,
            kind@,
        ),
{
    let mut text: String = kind.to_owned();
    text.append(" id=");
    text.append(request_id);
    text.append(" expected_approved=");
    text.append(truth_text(expected_approved));
    text.append(" expected_score=");
    text.append(expected_score);
    text.append(" actual_approved=");
    text.append(truth_text(actual_approved));
    text.append(" actual_score=");
    text.append(actual_score);
    text.append(" fraud_neighbors=");
    text.append(count_text(fraud_neighbor_count(neighbors)));
    text.append(" neighbors=");
    text.append(format_neighbors(neighbors).as_str());
    text
}

/// One entry of a dataset.
pub struct Case {
    /// The identifier of its request.
    pub id: String,
    /// Whether it should be approved.
    pub expected_approved: bool,
    /// The score that it should get, as it is to be printed.
    pub expected_score: String,
    /// Its quantised vector.
    pub query: [i16; DIMS],
}

/// The result of an evaluation.
pub struct Report {
    /// How many decisions were right and wrong.
    pub counters: Counters,
    /// A line for every mismatch.
    pub mismatches: Vec<String>,
}

/// Whether a search in `f` approves `case`.
pub open spec fn approves(f: Seq<u8>, case: Case) -> bool {
    is_approved(fraud_count(neighbors(f, case.query@)) as int)
}

/// The counters after the first `m` cases.
pub open spec fn tally(f: Seq<u8>, cases: Seq<Case>, m: int) -> Counters
    decreases m,
{
    if m <= 0 {
        Counters { tp: 0, tn: 0, fp: 0, fn_: 0 }
    } else {
        tally(f, cases, m - 1).counting(cases[m - 1].expected_approved, approves(f, cases[m - 1]))
    }
}

/// The line on a case that is decided otherwise than expected.
pub open spec fn case_text(f: Seq<u8>, case: Case, kind: Mismatch) -> Seq<char> {
    let found = neighbors(f, case.query@);
    mismatch_text(
        case.id@,
        case.expected_approved,
        case.expected_score@,
        approves(f, case),
        score_number(fraud_count(found) as int),
        found,
        kind_text(kind),
    )
}

/// The lines on the mismatches among the first `m` cases.
pub open spec fn mismatch_lines(f: Seq<u8>, cases: Seq<Case>, m: int) -> Seq<Seq<char>>
    decreases m,
{
    if m <= 0 {
        Seq::empty()
    } else {
        let lines = mismatch_lines(f, cases, m - 1);
        match mismatch(cases[m - 1].expected_approved, approves(f, cases[m - 1])) {
            Some(kind) => lines.push(case_text(f, cases[m - 1], kind)),
            None => lines,
        }
    }
}

/// Each case is counted once, and every wrong decision has a line.
pub proof fn tally_is_complete(f: Seq<u8>, cases: Seq<Case>, m: int)
    requires
        0 <= m <= cases.len(),
        cases.len() <= usize::MAX,
    ensures
        tally(f, cases, m).total() == m,
        tally(f, cases, m).fp + tally(f, cases, m).fn_ == mismatch_lines(f, cases, m).len(),
    decreases m,
{
    if m > 0 {
        tally_is_complete(f, cases, m - 1);
        every_decision_counts(
            tally(f, cases, m - 1),
            cases[m - 1].expected_approved,
            approves(f, cases[m - 1]),
        );
    }
}

/// Decides all cases and compares the decisions with the expected ones.
pub fn evaluate(index: &SearchIndex, cases: &[Case]) -> (report: Report)
    requires
        forall|i: int|
            0 <= i < cases@.len() ==> searchable(index@, (#[trigger] cases@[i]).query@),
    ensures
        report.counters == tally(index@, cases@, cases@.len() as int),
        texts(report.mismatches@) == mismatch_lines(index@, cases@, cases@.len() as int),
{
    let mut counters = Counters::new();
    let mut mismatches: Vec<String> = Vec::new();
    assert(texts(mismatches@) =~= mismatch_lines(index@, cases@, 0));
    for i in 0..cases.len()
        invariant
            forall|i: int|
                0 <= i < cases@.len() ==> searchable(index@, (#[trigger] cases@[i]).query@),
            counters == tally(index@, cases@, i as int),
            texts(mismatches@) == mismatch_lines(index@, cases@, i as int),
    {
        let case: &Case = &cases[i];
        let found: [Label; K] = index.search(&case.query);
        let (fraud_count, approved) = score(found);
        proof {
            tally_is_complete(index@, cases@, i as int);
            fraud_count_bound(found@);
        }
        if let Some(kind) = counters.record(case.expected_approved, approved) {
            let line: String = format_mismatch(
                case.id.as_str(),
                case.expected_approved,
                case.expected_score.as_str(),
                approved,
                score_text(fraud_count),
                &found,
                kind.name(),
            );
            let ghost before = mismatches@;
            mismatches.push(line);
            assert(texts(mismatches@) =~= texts(before).push(line@));
        }
    }
    Report { counters, mismatches }
}

} // verus!
