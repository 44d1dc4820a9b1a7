//! The answers to requests.

use crate::metric::DIMS;
use crate::scorer::{fraud_count, fraud_count_bound, fraud_neighbor_count, is_approved};
use crate::search::{neighbors, searchable, SearchIndex};
use crate::top::K;
use crate::types::Label;
use vstd::prelude::*;

verus! {

/// A decimal digit.
pub open spec fn digit(d: int) -> char {
    ('0' as int + d) as char
}

/// `truth` as JSON.
pub open spec fn bool_text(truth: bool) -> Seq<char> {
    if truth {
        "true"@
    } else {
        "false"@
    }
}

/// `fifths` / 5, with one decimal.
pub open spec fn score_decimal(fifths: int) -> Seq<char> {
    seq![digit(2 * fifths / 10), '.', digit(2 * fifths % 10)]
}

/// The JSON answer to a transaction of whose neighbours `count` are fraud.
pub open spec fn response_text(count: int) -> Seq<char> {
    "{\"approved\":"@ + bool_text(is_approved(count)) + ",\"fraud_score\":"@ + score_decimal(count)
        + "}"@
}

/// The answer to a transaction of whose neighbours `fraud_count` are fraud.
pub fn fraud_response(fraud_count: usize) -> (text: &'static str)
    requires
        fraud_count <= K,
    ensures
        text@ == response_text(fraud_count as int),
{
    proof {
        reveal_strlit("{\"approved\":");
        reveal_strlit(",\"fraud_score\":");
        reveal_strlit("}");
        reveal_strlit("true");
        reveal_strlit("false");
        reveal_strlit("{\"approved\":true,\"fraud_score\":0.0}");
        reveal_strlit("{\"approved\":true,\"fraud_score\":0.2}");
        reveal_strlit("{\"approved\":true,\"fraud_score\":0.4}");
        reveal_strlit("{\"approved\":false,\"fraud_score\":0.6}");
        reveal_strlit("{\"approved\":false,\"fraud_score\":0.8}");
        reveal_strlit("{\"approved\":false,\"fraud_score\":1.0}");
    }
    let text = if fraud_count == 0 {
        "{\"approved\":true,\"fraud_score\":0.0}"
    } else if fraud_count == 1 {
        "{\"approved\":true,\"fraud_score\":0.2}"
    } else if fraud_count == 2 {
        "{\"approved\":true,\"fraud_score\":0.4}"
    } else if fraud_count == 3 {
        "{\"approved\":false,\"fraud_score\":0.6}"
    } else if fraud_count == 4 {
        "{\"approved\":false,\"fraud_score\":0.8}"
    } else {
        "{\"approved\":false,\"fraud_score\":1.0}"
    };
    assert(text@ =~= response_text(fraud_count as int));
    text
}

/// How many of the neighbours of a request are fraud: none, where there is no index or the
/// request could not be read.
pub open spec fn counted(index: Option<Seq<u8>>, query: Option<Seq<i16>>) -> int {
    match (index, query) {
        (Some(f), Some(q)) => fraud_count(neighbors(f, q)) as int,
        _ => 0,
    }
}

/// The bytes behind an index that may be missing.
pub open spec fn index_bytes(index: Option<&SearchIndex>) -> Option<Seq<u8>> {
    match index {
        Some(i) => Some(i@),
        None => None,
    }
}

/// The coordinates of a query that may be missing.
pub open spec fn query_coordinates(query: Option<&[i16; DIMS]>) -> Option<Seq<i16>> {
    match query {
        Some(q) => Some(q@),
        None => None,
    }
}

/// The answer to a request. Without an index, and for a request that could not be read, it is
/// the one that approves with score zero.
pub fn answer(index: Option<&SearchIndex>, query: Option<&[i16; DIMS]>) -> (text: &'static str)
    requires
        index matches Some(i) ==> query matches Some(q) ==> searchable(i@, q@),
    ensures
        text@ == response_text(counted(index_bytes(index), query_coordinates(query))),
        index matches Some(i) ==> query matches Some(q) ==> text@ == response_text(
            fraud_count(neighbors(i@, q@)) as int,
        ),
        index is None || query is None ==> text@ == response_text(0),
{
    match index {
        Some(i) => match query {
            Some(q) => {
                let found: [Label; K] = i.search_with_vector(q, q);
                fraud_response(fraud_neighbor_count(&found))
            },
            None => fraud_response(0),
        },
        None => fraud_response(0),
    }
}

/// A request that cannot be served is approved with score zero.
pub proof fn unserved_is_approved(index: Option<Seq<u8>>, query: Option<Seq<i16>>)
    requires
        index is None || query is None,
    ensures
        response_text(counted(index, query)) == "{\"approved\":true,\"fraud_score\":0.0}"@,
{
    reveal_strlit("{\"approved\":");
    reveal_strlit(",\"fraud_score\":");
    reveal_strlit("}");
    reveal_strlit("true");
    reveal_strlit("{\"approved\":true,\"fraud_score\":0.0}");
    assert(response_text(0) =~= "{\"approved\":true,\"fraud_score\":0.0}"@);
}

/// No more neighbours are fraud than vote, so there are six answers.
pub proof fn counted_bound(index: Option<Seq<u8>>, query: Option<Seq<i16>>)
    ensures
        0 <= counted(index, query) <= K,
{
    if index is Some && query is Some {
        fraud_count_bound(neighbors(index->0, query->0));
    }
}

/// Different counts get different answers, so the score can be read off the answer.
pub proof fn answers_differ(a: int, b: int)
    requires
        0 <= a <= K,
        0 <= b <= K,
        response_text(a) == response_text(b),
    ensures
        a == b,
{
    reveal_strlit("{\"approved\":");
    reveal_strlit(",\"fraud_score\":");
    reveal_strlit("}");
    reveal_strlit("true");
    reveal_strlit("false");
    let s = response_text(a);
    let t = response_text(b);
    let n = s.len() as int;
    assert(s[n - 2] == digit(2 * a % 10));
    assert(t[n - 2] == digit(2 * b % 10));
    assert(s[n - 4] == digit(2 * a / 10));
    assert(t[n - 4] == digit(2 * b / 10));
}

} // verus!
