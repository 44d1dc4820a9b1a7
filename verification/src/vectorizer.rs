//! From a transaction to the coordinates of its vector.
//!
//! Every coordinate is described exactly: as a fraction of two integers, or as a quotient of
//! single-precision numbers that remains to be computed.

use crate::clock::{day_of_week, hour_of_day, nanos_between, whole_minutes};
use crate::metric::DIMS;
use crate::types::{Single, TransactionPayload};
use vstd::hash_map::StringHashMap;
use vstd::prelude::*;

verus! {

/// Amount of a transaction from which on its coordinate is one.
pub const MAX_AMOUNT: u32 = 10_000;

/// Number of installments from which on their coordinate is one.
pub const MAX_INSTALLMENTS: u32 = 12;

/// Multiple of the average amount of the customer from which on its coordinate is one.
pub const AMOUNT_VS_AVG_RATIO: u32 = 10;

/// Minutes since the last transaction from which on their coordinate is one: a day.
pub const MAX_MINUTES: u32 = 1440;

/// Kilometres from which on a coordinate of distance is one.
pub const MAX_KM: u32 = 1000;

/// Transactions within a day from which on their coordinate is one.
pub const MAX_TX_COUNT_24H: u32 = 20;

/// Average amount of the merchant from which on its coordinate is one.
pub const MAX_MERCHANT_AVG_AMOUNT: u32 = 10_000;

/// The last hour of a day.
pub const MAX_HOUR: u32 = 23;

/// The last day of a week.
pub const MAX_WEEKDAY: u32 = 6;

/// Risk of a merchant category that is not known, by its bits: one half.
pub const DEFAULT_MCC_RISK: u32 = 0x3f00_0000;

/// The number one, by its bits.
pub const ONE: u32 = 0x3f80_0000;

/// The value of one coordinate.
#[derive(Clone, Copy, Debug, PartialEq, Eq, Structural)]
pub enum Feature {
    /// `numerator` / `denominator`.
    Ratio { numerator: u32, denominator: u32 },
    /// `value` / `divisor`, clamped to the range from zero to one.
    Quotient { value: Single, divisor: u32 },
    /// `value` / `base` / `divisor`, clamped to the range from zero to one.
    RelativeQuotient { value: Single, base: Single, divisor: u32 },
    /// `value` as it is.
    Value { value: Single },
    /// Minus one: there is nothing to measure.
    Missing,
}

/// The smaller of two numbers.
pub open spec fn at_most(x: int, limit: int) -> int {
    if x < limit {
        x
    } else {
        limit
    }
}

/// `x` clamped to the range from zero to `limit`, as a fraction of it.
pub open spec fn clamped_ratio(x: int, limit: u32) -> Feature {
    Feature::Ratio {
        numerator: (if x < 0 { 0 } else { at_most(x, limit as int) }) as u32,
        denominator: limit,
    }
}

/// One or zero.
pub open spec fn flag(on: bool) -> Feature {
    Feature::Ratio { numerator: if on { 1 } else { 0 }, denominator: 1 }
}

/// `id` is one of `ids`.
pub open spec fn is_known(ids: Seq<String>, id: Seq<char>) -> bool {
    exists|i: int| 0 <= i < ids.len() && (#[trigger] ids[i])@ == id
}

/// The risk of a merchant category.
pub open spec fn risk_of(risks: Map<Seq<char>, Single>, mcc: Seq<char>) -> Single {
    if risks.dom().contains(mcc) {
        risks[mcc]
    } else {
        Single { bits: DEFAULT_MCC_RISK }
    }
}

/// How long ago the last transaction was.
pub open spec fn since_last(p: TransactionPayload) -> Feature {
    match p.last_transaction {
        Some(last) => clamped_ratio(
            whole_minutes(
                nanos_between(
                    p.transaction.requested_at@.0,
                    p.transaction.requested_at@.1,
                    last.timestamp@.0,
                    last.timestamp@.1,
                ),
            ),
            MAX_MINUTES,
        ),
        None => Feature::Missing,
    }
}

/// How far away the last transaction was.
pub open spec fn away_from_last(p: TransactionPayload) -> Feature {
    match p.last_transaction {
        Some(last) => Feature::Quotient { value: last.km_from_current, divisor: MAX_KM },
        None => Feature::Missing,
    }
}

/// The coordinates of a transaction.
pub open spec fn features(risks: Map<Seq<char>, Single>, p: TransactionPayload) -> Seq<Feature> {
    seq![
        Feature::Quotient { value: p.transaction.amount, divisor: MAX_AMOUNT },
        clamped_ratio(p.transaction.installments as int, MAX_INSTALLMENTS),
        Feature::RelativeQuotient {
            value: p.transaction.amount,
            base: p.customer.avg_amount,
            divisor: AMOUNT_VS_AVG_RATIO,
        },
        clamped_ratio(hour_of_day(p.transaction.requested_at@.0), MAX_HOUR),
        clamped_ratio(day_of_week(p.transaction.requested_at@.0), MAX_WEEKDAY),
        since_last(p),
        away_from_last(p),
        Feature::Quotient { value: p.terminal.km_from_home, divisor: MAX_KM },
        clamped_ratio(p.customer.tx_count_24h as int, MAX_TX_COUNT_24H),
        flag(p.terminal.is_online),
        flag(p.terminal.card_present),
        flag(!is_known(p.customer.known_merchants@, p.merchant.id@)),
        Feature::Value { value: risk_of(risks, p.merchant.mcc@) },
        Feature::Quotient { value: p.merchant.avg_amount, divisor: MAX_MERCHANT_AVG_AMOUNT },
    ]
}

/// The risks after the entries were put in one after the other.
pub open spec fn risk_table(entries: Seq<(String, Single)>) -> Map<Seq<char>, Single>
    decreases entries.len(),
{
    if entries.len() == 0 {
        Map::empty()
    } else {
        risk_table(entries.drop_last()).insert(entries.last().0@, entries.last().1)
    }
}

/// Turns transactions into vectors, given the risk of each merchant category.
pub struct Vectorizer {
    mcc_risk: StringHashMap<Single>,
}

impl View for Vectorizer {
    type V = Map<Seq<char>, Single>;

    /// The risk of each merchant category.
    closed spec fn view(&self) -> Map<Seq<char>, Single> {
        self.mcc_risk@
    }
}

/// `x` clamped to the range from zero to `limit`, as a fraction of it.
fn ratio(x: i64, limit: u32) -> (res: Feature)
    ensures
        res == clamped_ratio(x as int, limit),
{
    let numerator: u32 = if x < 0 {
        0
    } else if x < limit as i64 {
        x as u32
    } else {
        limit
    };
    Feature::Ratio { numerator, denominator: limit }
}

/// One or zero.
fn indicator(on: bool) -> (res: Feature)
    ensures
        res == flag(on),
{
    Feature::Ratio { numerator: if on { 1 } else { 0 }, denominator: 1 }
}

/// Whether `id` is one of `ids`.
fn contains_id(ids: &Vec<String>, id: &String) -> (res: bool)
    ensures
        res == is_known(ids@, id@),
{
    for i in 0..ids.len()
        invariant
            forall|j: int| 0 <= j < i ==> (#[trigger] ids@[j])@ != id@,
    {
        if ids[i] == *id {
            assert(ids@[i as int]@ == id@);
            return true;
        }
    }
    false
}

impl Vectorizer {
    /// A vectoriser that knows the given risks; of two for one category the later counts.
    pub fn new(mcc_risk: Vec<(String, Single)>) -> (res: Vectorizer)
        ensures
            res@ == risk_table(mcc_risk@),
    {
        let mut table: StringHashMap<Single> = StringHashMap::new();
        for i in 0..mcc_risk.len()
            invariant
                table@ == risk_table(mcc_risk@.take(i as int)),
        {
            assert(mcc_risk@.take(i + 1).drop_last() =~= mcc_risk@.take(i as int));
            table.insert(mcc_risk[i].0.clone(), mcc_risk[i].1);
        }
        assert(mcc_risk@.take(mcc_risk@.len() as int) =~= mcc_risk@);
        Vectorizer { mcc_risk: table }
    }

    /// The coordinates of a transaction.
    pub fn vectorize(&self, payload: &TransactionPayload) -> (res: [Feature; DIMS])
        ensures
            res@ == features(self@, *payload),
    {
        let tx = &payload.transaction;
        let customer = &payload.customer;
        let merchant = &payload.merchant;
        let terminal = &payload.terminal;
        let hour: u32 = tx.requested_at.hour();
        let weekday: u32 = tx.requested_at.days_from_monday();
        let (minutes_since_last, km_from_last) = match &payload.last_transaction {
            Some(last) => (
                ratio(tx.requested_at.minutes_since(&last.timestamp), MAX_MINUTES),
                Feature::Quotient { value: last.km_from_current, divisor: MAX_KM },
            ),
            None => (Feature::Missing, Feature::Missing),
        };
        let unknown_merchant: bool = !contains_id(&customer.known_merchants, &merchant.id);
        let mcc_risk: Single = match self.mcc_risk.get(merchant.mcc.as_str()) {
            Some(risk) => *risk,
            None => Single { bits: DEFAULT_MCC_RISK },
        };
        let res = [
            Feature::Quotient { value: tx.amount, divisor: MAX_AMOUNT },
            ratio(tx.installments as i64, MAX_INSTALLMENTS),
            Feature::RelativeQuotient {
                value: tx.amount,
                base: customer.avg_amount,
                divisor: AMOUNT_VS_AVG_RATIO,
            },
            ratio(hour as i64, MAX_HOUR),
            ratio(weekday as i64, MAX_WEEKDAY),
            minutes_since_last,
            km_from_last,
            Feature::Quotient { value: terminal.km_from_home, divisor: MAX_KM },
            ratio(customer.tx_count_24h as i64, MAX_TX_COUNT_24H),
            indicator(terminal.is_online),
            indicator(terminal.card_present),
            indicator(unknown_merchant),
            Feature::Value { value: mcc_risk },
            Feature::Quotient { value: merchant.avg_amount, divisor: MAX_MERCHANT_AVG_AMOUNT },
        ];
        assert(res@ =~= features(self@, *payload));
        res
    }
}

/// The coordinates on the last transaction, and they only, are missing exactly if there was
/// none.
pub proof fn missing_together(risks: Map<Seq<char>, Single>, p: TransactionPayload, d: int)
    requires
        0 <= d < DIMS,
    ensures
        features(risks, p)[d] is Missing <==> (d == 5 || d == 6) && p.last_transaction is None,
{
}

/// The coordinates of time use the full range: they are one in the last hour of a day and on
/// the last day of a week, and zero in the first.
pub proof fn time_features_exact(risks: Map<Seq<char>, Single>, p: TransactionPayload)
    ensures
        features(risks, p)[3] == (Feature::Ratio {
            numerator: hour_of_day(p.transaction.requested_at@.0) as u32,
            denominator: MAX_HOUR,
        }),
        features(risks, p)[4] == (Feature::Ratio {
            numerator: day_of_week(p.transaction.requested_at@.0) as u32,
            denominator: MAX_WEEKDAY,
        }),
{
}

/// The risk of a category is the one given last.
pub proof fn last_risk_counts(entries: Seq<(String, Single)>, i: int, mcc: Seq<char>)
    requires
        0 <= i < entries.len(),
        entries[i].0@ == mcc,
        forall|j: int| i < j < entries.len() ==> (#[trigger] entries[j]).0@ != mcc,
    ensures
        risk_of(risk_table(entries), mcc) == entries[i].1,
    decreases entries.len(),
{
    if i < entries.len() - 1 {
        assert(entries[entries.len() - 1].0@ != mcc);
        last_risk_counts(entries.drop_last(), i, mcc);
    }
}

/// A category that no risk was given for has a risk of one half.
pub proof fn unknown_risk_is_half(entries: Seq<(String, Single)>, mcc: Seq<char>)
    requires
        forall|j: int| 0 <= j < entries.len() ==> (#[trigger] entries[j]).0@ != mcc,
    ensures
        risk_of(risk_table(entries), mcc) == (Single { bits: DEFAULT_MCC_RISK }),
        !risk_table(entries).dom().contains(mcc),
    decreases entries.len(),
{
    if entries.len() > 0 {
        assert(entries[entries.len() - 1].0@ != mcc);
        unknown_risk_is_half(entries.drop_last(), mcc);
    }
}

/// Every coordinate but the risk is missing, a fraction between zero and one, or a quotient that
/// is clamped to that range by a positive divisor.
pub proof fn features_bounded(risks: Map<Seq<char>, Single>, p: TransactionPayload, d: int)
    requires
        0 <= d < DIMS,
    ensures
        match features(risks, p)[d] {
            Feature::Ratio { numerator, denominator } => numerator <= denominator && 0
                < denominator,
            Feature::Quotient { value, divisor } => 0 < divisor,
            Feature::RelativeQuotient { value, base, divisor } => 0 < divisor && d == 2,
            Feature::Value { value } => d == 12 && value == risk_of(risks, p.merchant.mcc@),
            Feature::Missing => d == 5 || d == 6,
        },
{
}

/// If all given risks lie between zero and one, so does the risk of every category. (Numbers
/// without a sign are ordered as their bits are, so these are the bits up to those of one.)
pub proof fn risk_in_unit_range(entries: Seq<(String, Single)>, mcc: Seq<char>)
    requires
        forall|i: int| 0 <= i < entries.len() ==> (#[trigger] entries[i]).1.bits <= ONE,
    ensures
        risk_of(risk_table(entries), mcc).bits <= ONE,
    decreases entries.len(),
{
    if entries.len() > 0 {
        assert(entries[entries.len() - 1].1.bits <= ONE);
        risk_in_unit_range(entries.drop_last(), mcc);
    }
}

/// The merchant categories whose risk is known by default, with the risk in hundredths.
pub open spec fn default_risks() -> Seq<(Seq<char>, u32)> {
    seq![
        ("5411"@, 15),
        ("5812"@, 30),
        ("5912"@, 20),
        ("5944"@, 45),
        ("7801"@, 80),
        ("7802"@, 75),
        ("7995"@, 85),
        ("4511"@, 35),
        ("5311"@, 25),
        ("5999"@, 50),
    ]
}

/// The risks that are known by default, in hundredths.
pub fn default_mcc_risk() -> (res: Vec<(String, u32)>)
    ensures
        res@.len() == default_risks().len(),
        forall|i: int|
            0 <= i < res@.len() ==> (#[trigger] res@[i]).0@ == default_risks()[i].0 && res@[i].1
                == default_risks()[i].1,
{
    vec![
        ("5411".to_owned(), 15),
        ("5812".to_owned(), 30),
        ("5912".to_owned(), 20),
        ("5944".to_owned(), 45),
        ("7801".to_owned(), 80),
        ("7802".to_owned(), 75),
        ("7995".to_owned(), 85),
        ("4511".to_owned(), 35),
        ("5311".to_owned(), 25),
        ("5999".to_owned(), 50),
    ]
}

} // verus!
