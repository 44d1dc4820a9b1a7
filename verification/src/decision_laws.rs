//! What the decision on a transaction, the answer to a request and the evaluation come to.

use crate::evaluation::{
    approves, id_text, joined, kind_text, label_letter, mismatch, mismatch_lines, mismatch_text,
    neighbors_text, score_number, shown, tally, Case, Counters, Mismatch,
};
use crate::response::{counted, response_text};
use crate::scorer::{fraud_count, fraud_count_bound, is_approved};
use crate::search::neighbors;
use crate::types::Label;
use vstd::prelude::*;

verus! {

/// Fraud labels are counted wherever they stand.
pub proof fn fraud_count_is_number(labels: Seq<Label>)
    ensures
        fraud_count(labels) == labels.filter(|l: Label| l == Label::Fraud).len(),
    decreases labels.len(),
{
    let is_fraud = |l: Label| l == Label::Fraud;
    reveal(Seq::filter);
    if labels.len() > 0 {
        fraud_count_is_number(labels.drop_last());
    }
}

/// Among five labels, each one adds one to the count exactly if it is fraud.
pub proof fn fraud_count_of_five(labels: Seq<Label>)
    requires
        labels.len() == 5,
    ensures
        fraud_count(labels) == (if labels[0] == Label::Fraud { 1int } else { 0 }) + (if labels[1]
            == Label::Fraud { 1int } else { 0 }) + (if labels[2] == Label::Fraud {
            1int
        } else { 0 }) + (if labels[3] == Label::Fraud { 1int } else { 0 }) + (if labels[4] == Label::Fraud {
            1int
        } else { 0 }),
{
    let l4 = labels.drop_last();
    let l3 = l4.drop_last();
    let l2 = l3.drop_last();
    let l1 = l2.drop_last();
    let l0 = l1.drop_last();
    assert(fraud_count(l0) == 0);
    assert(l1.last() == labels[0] && l2.last() == labels[1] && l3.last() == labels[2] && l4.last()
        == labels[3]);
    assert(fraud_count(l1) == fraud_count(l0) + if l1.last() == Label::Fraud { 1nat } else { 0 });
    assert(fraud_count(l2) == fraud_count(l1) + if l2.last() == Label::Fraud { 1nat } else { 0 });
    assert(fraud_count(l3) == fraud_count(l2) + if l3.last() == Label::Fraud { 1nat } else { 0 });
    assert(fraud_count(l4) == fraud_count(l3) + if l4.last() == Label::Fraud { 1nat } else { 0 });
}

/// A transaction is approved exactly if fewer than three of its neighbours are fraud.
pub proof fn approved_under_three(count: int)
    ensures
        is_approved(count) <==> count < 3,
{
}

/// There is one answer for each number of frauds.
pub proof fn answer_texts()
    ensures
        response_text(0) == "{\"approved\":true,\"fraud_score\":0.0}"@,
        response_text(1) == "{\"approved\":true,\"fraud_score\":0.2}"@,
        response_text(2) == "{\"approved\":true,\"fraud_score\":0.4}"@,
        response_text(3) == "{\"approved\":false,\"fraud_score\":0.6}"@,
        response_text(4) == "{\"approved\":false,\"fraud_score\":0.8}"@,
        response_text(5) == "{\"approved\":false,\"fraud_score\":1.0}"@,
{
    reveal_strlit("{\"approved\":");
    reveal_strlit(",\"fraud_score\":");
    reveal_strlit("}");
    reveal_strlit("true");
    reveal_strlit("false");
    reveal_strlit("{\"approved\":true,\"fraud_score\":0.0}");
    reveal_strlit("{\"approved\":true,\"fraud_score\":0.2}");
    reveal_strlit("{\"approved\":true,\"fraud_score\":0.4}");
    reveal_strlit("{\"approved\":false,\"fraud_score\":0.6}");
    reveal_strlit("{\"approved\":false,\"fraud_score\":0.8}");
    reveal_strlit("{\"approved\":false,\"fraud_score\":1.0}");
    assert(response_text(0) =~= "{\"approved\":true,\"fraud_score\":0.0}"@);
    assert(response_text(1) =~= "{\"approved\":true,\"fraud_score\":0.2}"@);
    assert(response_text(2) =~= "{\"approved\":true,\"fraud_score\":0.4}"@);
    assert(response_text(3) =~= "{\"approved\":false,\"fraud_score\":0.6}"@);
    assert(response_text(4) =~= "{\"approved\":false,\"fraud_score\":0.8}"@);
    assert(response_text(5) =~= "{\"approved\":false,\"fraud_score\":1.0}"@);
}

/// The neighbours of a query are five labels.
proof fn five_neighbors(f: Seq<u8>, q: Seq<i16>)
    ensures
        neighbors(f, q).len() == 5,
{
}

/// Wherever there is an index and a query, the answer is that for the number of fraud labels
/// among the five neighbours of the query, whatever the query holds.
pub proof fn answer_is_on_neighbors(f: Seq<u8>, q: Seq<i16>)
    ensures
        response_text(counted(Some(f), Some(q))) == response_text(
            fraud_count(neighbors(f, q)) as int,
        ),
        ({
            let l = neighbors(f, q);
            counted(Some(f), Some(q)) == (if l[0] == Label::Fraud { 1int } else { 0 }) + (if l[1]
                == Label::Fraud { 1int } else { 0 }) + (if l[2] == Label::Fraud { 1int } else { 0 })
                + (if l[3] == Label::Fraud { 1int } else { 0 }) + (if l[4] == Label::Fraud {
                1int
            } else { 0 })
        }),
{
    five_neighbors(f, q);
    fraud_count_of_five(neighbors(f, q));
}

/// Without an index, or without a query, the answer is that for no fraud.
pub proof fn answer_without_search(index: Option<Seq<u8>>, query: Option<Seq<i16>>)
    requires
        index is None || query is None,
    ensures
        counted(index, query) == 0,
{
}

/// A case whose neighbours hold three frauds or more counts as positive, and any other as
/// negative; it is true exactly if refusal was expected of a positive one, or approval of a
/// negative one. Nothing else is counted.
pub proof fn case_counts_by_frauds(f: Seq<u8>, cases: Seq<Case>, m: int)
    requires
        0 < m <= cases.len(),
        cases.len() <= usize::MAX,
    ensures
        ({
            let l = neighbors(f, cases[m - 1].query@);
            let c = (if l[0] == Label::Fraud { 1int } else { 0 }) + (if l[1] == Label::Fraud {
                1int
            } else { 0 }) + (if l[2] == Label::Fraud { 1int } else { 0 }) + (if l[3]
                == Label::Fraud { 1int } else { 0 }) + (if l[4] == Label::Fraud {
                1int
            } else { 0 });
            let good = cases[m - 1].expected_approved;
            let before = tally(f, cases, m - 1);
            let after = tally(f, cases, m);
            &&& after.tp == before.tp + if c >= 3 && !good { 1int } else { 0 }
            &&& after.fp == before.fp + if c >= 3 && good { 1int } else { 0 }
            &&& after.tn == before.tn + if c <= 2 && good { 1int } else { 0 }
            &&& after.fn_ == before.fn_ + if c <= 2 && !good { 1int } else { 0 }
        }),
{
    let l = neighbors(f, cases[m - 1].query@);
    five_neighbors(f, cases[m - 1].query@);
    fraud_count_of_five(l);
    crate::evaluation::tally_is_complete(f, cases, m - 1);
}

/// Nothing is counted or listed of no cases.
pub proof fn no_cases(f: Seq<u8>, cases: Seq<Case>)
    ensures
        tally(f, cases, 0) == (Counters { tp: 0, tn: 0, fp: 0, fn_: 0 }),
        mismatch_lines(f, cases, 0) == Seq::<Seq<char>>::empty(),
{
}

/// A case is listed exactly if its neighbours hold three frauds or more and approval was
/// expected, or fewer and refusal was expected; the lines stand in the order of the cases.
pub proof fn case_listed_by_frauds(f: Seq<u8>, cases: Seq<Case>, m: int)
    requires
        0 < m <= cases.len(),
    ensures
        ({
            let case = cases[m - 1];
            let l = neighbors(f, case.query@);
            let c = (if l[0] == Label::Fraud { 1int } else { 0 }) + (if l[1] == Label::Fraud {
                1int
            } else { 0 }) + (if l[2] == Label::Fraud { 1int } else { 0 }) + (if l[3]
                == Label::Fraud { 1int } else { 0 }) + (if l[4] == Label::Fraud {
                1int
            } else { 0 });
            let before = mismatch_lines(f, cases, m - 1);
            let after = mismatch_lines(f, cases, m);
            if c >= 3 && case.expected_approved {
                after == before.push(
                    mismatch_text(
                        case.id@,
                        true,
                        case.expected_score@,
                        false,
                        score_number(c),
                        l,
                        "FP"@,
                    ),
                )
            } else if c <= 2 && !case.expected_approved {
                after == before.push(
                    mismatch_text(
                        case.id@,
                        false,
                        case.expected_score@,
                        true,
                        score_number(c),
                        l,
                        "FN"@,
                    ),
                )
            } else {
                after == before
            }
        }),
{
    five_neighbors(f, cases[m - 1].query@);
    fraud_count_of_five(neighbors(f, cases[m - 1].query@));
}

/// The decision that an evaluation counts for a query is the one in the answer to it: the answer
/// says approved exactly if the case is counted as negative.
pub proof fn evaluation_agrees_with_answer(f: Seq<u8>, case: Case)
    ensures
        approves(f, case) ==> response_text(counted(Some(f), Some(case.query@))).subrange(12, 16)
            == "true"@,
        !approves(f, case) ==> response_text(counted(Some(f), Some(case.query@))).subrange(12, 17)
            == "false"@,
{
    let q = case.query@;
    five_neighbors(f, q);
    fraud_count_bound(neighbors(f, q));
    answer_texts();
    reveal_strlit("true");
    reveal_strlit("false");
    reveal_strlit("{\"approved\":true,\"fraud_score\":0.0}");
    reveal_strlit("{\"approved\":true,\"fraud_score\":0.2}");
    reveal_strlit("{\"approved\":true,\"fraud_score\":0.4}");
    reveal_strlit("{\"approved\":false,\"fraud_score\":0.6}");
    reveal_strlit("{\"approved\":false,\"fraud_score\":0.8}");
    reveal_strlit("{\"approved\":false,\"fraud_score\":1.0}");
    let t = response_text(counted(Some(f), Some(q)));
    if approves(f, case) {
        assert(t.subrange(12, 16) =~= "true"@);
    } else {
        assert(t.subrange(12, 17) =~= "false"@);
    }
}

/// One decision more: the four outcomes.
pub proof fn outcomes(c: Counters, expected_approved: bool, actual_approved: bool)
    requires
        c.total() < usize::MAX,
    ensures
        ({
            let d = c.counting(expected_approved, actual_approved);
            &&& d.tp == c.tp + if !expected_approved && !actual_approved { 1int } else { 0 }
            &&& d.tn == c.tn + if expected_approved && actual_approved { 1int } else { 0 }
            &&& d.fp == c.fp + if expected_approved && !actual_approved { 1int } else { 0 }
            &&& d.fn_ == c.fn_ + if !expected_approved && actual_approved { 1int } else { 0 }
        }),
        c.total() == c.tp + c.tn + c.fp + c.fn_,
        mismatch(expected_approved, actual_approved) is None <==> expected_approved
            == actual_approved,
        mismatch(expected_approved, actual_approved) == Some(Mismatch::FalsePositive) <==> (
        expected_approved && !actual_approved),
        kind_text(Mismatch::FalsePositive) == "FP"@,
        kind_text(Mismatch::FalseNegative) == "FN"@,
{
}

/// A score is printed as a fifth: without decimals if it is whole.
pub proof fn score_texts()
    ensures
        score_number(0) == "0"@,
        score_number(1) == "0.2"@,
        score_number(2) == "0.4"@,
        score_number(3) == "0.6"@,
        score_number(4) == "0.8"@,
        score_number(5) == "1"@,
{
    reveal_strlit("0");
    reveal_strlit("0.2");
    reveal_strlit("0.4");
    reveal_strlit("0.6");
    reveal_strlit("0.8");
    reveal_strlit("1");
    assert(score_number(0) =~= "0"@);
    assert(score_number(1) =~= "0.2"@);
    assert(score_number(2) =~= "0.4"@);
    assert(score_number(3) =~= "0.6"@);
    assert(score_number(4) =~= "0.8"@);
    assert(score_number(5) =~= "1"@);
}

/// Five labels are printed in eleven characters: brackets around five letters, in order, with
/// commas between them.
pub proof fn five_letters(l: Seq<Label>)
    requires
        l.len() == 5,
    ensures
        ({
            let t = neighbors_text(l);
            let letter = |i: int| if l[i] == Label::Fraud { 'F' } else { 'L' };
            t == seq![
                '[',
                letter(0),
                ',',
                letter(1),
                ',',
                letter(2),
                ',',
                letter(3),
                ',',
                letter(4),
                ']',
            ]
        }),
{
    reveal_strlit("[");
    reveal_strlit("]");
    reveal_strlit(",");
    reveal_strlit("L");
    reveal_strlit("F");
    let letter = |i: int| if l[i] == Label::Fraud { 'F' } else { 'L' };
    assert(label_letter(l[0]) =~= seq![letter(0)]);
    assert(label_letter(l[1]) =~= seq![letter(1)]);
    assert(label_letter(l[2]) =~= seq![letter(2)]);
    assert(label_letter(l[3]) =~= seq![letter(3)]);
    assert(label_letter(l[4]) =~= seq![letter(4)]);
    assert(joined(l, 1) =~= seq![letter(0)]);
    assert(joined(l, 2) =~= seq![letter(0), ',', letter(1)]);
    assert(joined(l, 3) =~= seq![letter(0), ',', letter(1), ',', letter(2)]);
    assert(joined(l, 4) =~= seq![letter(0), ',', letter(1), ',', letter(2), ',', letter(3)]);
    assert(joined(l, 5) =~= seq![
        letter(0),
        ',',
        letter(1),
        ',',
        letter(2),
        ',',
        letter(3),
        ',',
        letter(4),
    ]);
    assert(neighbors_text(l) =~= seq![
        '[',
        letter(0),
        ',',
        letter(1),
        ',',
        letter(2),
        ',',
        letter(3),
        ',',
        letter(4),
        ']',
    ]);
}

/// The line on a mismatch names, in this order, its kind, the request, both decisions with their
/// scores, the number of frauds and the neighbours.
pub proof fn mismatch_line(
    id: Seq<char>,
    expected: bool,
    expected_score: Seq<char>,
    actual: bool,
    actual_score: Seq<char>,
    l: Seq<Label>,
    kind: Seq<char>,
)
    requires
        l.len() == 5,
    ensures
        ({
            let word = |b: bool| if b { "true"@ } else { "false"@ };
            let count = (if l[0] == Label::Fraud { 1int } else { 0 }) + (if l[1] == Label::Fraud {
                1int
            } else { 0 }) + (if l[2] == Label::Fraud { 1int } else { 0 }) + (if l[3]
                == Label::Fraud { 1int } else { 0 }) + (if l[4] == Label::Fraud {
                1int
            } else { 0 });
            mismatch_text(id, expected, expected_score, actual, actual_score, l, kind) == kind
                + " id="@ + id + " expected_approved="@ + word(expected) + " expected_score="@
                + expected_score + " actual_approved="@ + word(actual) + " actual_score="@
                + actual_score + " fraud_neighbors="@ + seq![(('0' as int) + count) as char]
                + " neighbors="@ + neighbors_text(l)
        }),
{
    fraud_count_of_five(l);
}

/// All mismatches are listed if that is asked for or there are at most twenty, and twenty
/// otherwise.
pub proof fn listed_number(total: int, show_all: bool)
    ensures
        shown(total, true) == total,
        total <= 20 ==> shown(total, show_all) == total,
        total >= 20 ==> shown(total, false) == 20,
{
}

/// A request goes by its own identifier, whatever that is; only one without is marked.
pub proof fn request_ids(given: Seq<char>)
    ensures
        id_text(Some(given)) == given,
        id_text(None) == "<missing-id>"@,
{
}

} // verus!
