//! Transactions and the verdict on them.

use crate::clock::Timestamp;
use vstd::prelude::*;

verus! {

/// What a reference transaction turned out to be.
#[derive(Clone, Copy, Debug, PartialEq, Eq, Structural)]
pub enum Label {
    Legit,
    Fraud,
}

/// A number in the single-precision format of IEEE 754, by its bits.
#[derive(Clone, Copy, Debug, PartialEq, Eq, Structural)]
pub struct Single {
    pub bits: u32,
}

/// What is asked for.
pub struct Transaction {
    pub amount: Single,
    pub installments: u32,
    pub requested_at: Timestamp,
}

/// Who asks.
pub struct Customer {
    pub avg_amount: Single,
    pub tx_count_24h: u32,
    pub known_merchants: Vec<String>,
}

/// Who is paid.
pub struct Merchant {
    pub id: String,
    pub mcc: String,
    pub avg_amount: Single,
}

/// Where the card is used.
pub struct Terminal {
    pub is_online: bool,
    pub card_present: bool,
    pub km_from_home: Single,
}

/// The transaction of the same customer before this one.
pub struct LastTransaction {
    pub timestamp: Timestamp,
    pub km_from_current: Single,
}

/// A request for a verdict.
pub struct TransactionPayload {
    pub id: String,
    pub transaction: Transaction,
    pub customer: Customer,
    pub merchant: Merchant,
    pub terminal: Terminal,
    pub last_transaction: Option<LastTransaction>,
}

} // verus!
