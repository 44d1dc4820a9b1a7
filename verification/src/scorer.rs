//! From the labels of the neighbours to a decision.

use crate::top::K;
use crate::types::Label;
use vstd::prelude::*;

verus! {

/// Number of fraud labels.
pub open spec fn fraud_count(labels: Seq<Label>) -> nat
    decreases labels.len(),
{
    if labels.len() == 0 {
        0
    } else {
        fraud_count(labels.drop_last()) + if labels.last() == Label::Fraud { 1nat } else { 0 }
    }
}

/// There are no more fraud labels than labels.
pub proof fn fraud_count_bound(labels: Seq<Label>)
    ensures
        fraud_count(labels) <= labels.len(),
    decreases labels.len(),
{
    if labels.len() > 0 {
        fraud_count_bound(labels.drop_last());
    }
}

/// How many of the neighbours are fraud.
pub fn fraud_neighbor_count(neighbors: &[Label; K]) -> (count: usize)
    ensures
        count == fraud_count(neighbors@),
        count <= K,
{
    let mut count: usize = 0;
    for i in 0..K
        invariant
            count == fraud_count(neighbors@.take(i as int)),
            count <= i,
    {
        assert(neighbors@.take(i + 1).drop_last() =~= neighbors@.take(i as int));
        if neighbors[i] == Label::Fraud {
            count += 1;
        }
    }
    assert(neighbors@.take(K as int) =~= neighbors@);
    count
}

/// A transaction is approved if the share of fraud among its neighbours is under six tenths.
pub open spec fn is_approved(fraud_count: int) -> bool {
    10 * fraud_count < 6 * K
}

/// The fraud score, in fifths, and whether the transaction is approved.
pub fn score(neighbors: [Label; K]) -> (res: (usize, bool))
    ensures
        res.0 == fraud_count(neighbors@),
        res.1 == is_approved(fraud_count(neighbors@) as int),
{
    let fraud_count: usize = fraud_neighbor_count(&neighbors);
    (fraud_count, 10 * fraud_count < 6 * K)
}

/// Fraud among the neighbours counts against a transaction: with more of it, nothing is
/// approved that was refused with less.
pub proof fn approval_monotone(a: Seq<Label>, b: Seq<Label>)
    requires
        fraud_count(a) <= fraud_count(b),
        is_approved(fraud_count(b) as int),
    ensures
        is_approved(fraud_count(a) as int),
{
}

} // verus!
