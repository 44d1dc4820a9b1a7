//! Where each coordinate of a transaction comes from.

use crate::clock::{
    day_of_week, hour_of_day, is_instant, nanos_between, second_of_day, whole_minutes,
};
use crate::types::{Single, TransactionPayload};
use crate::vectorizer::{default_risks, features, risk_table, Feature};
use vstd::prelude::*;

verus! {

/// A transaction has 14 coordinates.
pub proof fn coordinate_number(risks: Map<Seq<char>, Single>, p: TransactionPayload)
    ensures
        features(risks, p).len() == 14,
{
}

/// Coordinate 0 is the amount over 10 000, whatever the rest of the transaction is.
pub proof fn amount_coordinate(risks: Map<Seq<char>, Single>, p: TransactionPayload)
    ensures
        features(risks, p)[0] == (Feature::Quotient {
            value: p.transaction.amount,
            divisor: 10_000,
        }),
{
}

/// Coordinate 1 is the number of installments over 12, and one from 12 on.
pub proof fn installments_coordinate(risks: Map<Seq<char>, Single>, p: TransactionPayload)
    ensures
        features(risks, p)[1] == (Feature::Ratio {
            numerator: if p.transaction.installments < 12 {
                p.transaction.installments
            } else {
                12
            },
            denominator: 12,
        }),
{
}

/// Coordinate 2 is the amount over the average of the customer, over 10.
pub proof fn relative_amount_coordinate(risks: Map<Seq<char>, Single>, p: TransactionPayload)
    ensures
        features(risks, p)[2] == (Feature::RelativeQuotient {
            value: p.transaction.amount,
            base: p.customer.avg_amount,
            divisor: 10,
        }),
{
}

/// Coordinate 3 is the hour of the day over 23, and coordinate 4 the day of the week over 6.
pub proof fn time_coordinates(risks: Map<Seq<char>, Single>, p: TransactionPayload)
    ensures
        features(risks, p)[3] == (Feature::Ratio {
            numerator: hour_of_day(p.transaction.requested_at@.0) as u32,
            denominator: 23,
        }),
        features(risks, p)[4] == (Feature::Ratio {
            numerator: day_of_week(p.transaction.requested_at@.0) as u32,
            denominator: 6,
        }),
        0 <= hour_of_day(p.transaction.requested_at@.0) <= 23,
        0 <= day_of_week(p.transaction.requested_at@.0) <= 6,
{
}

/// Coordinates 5 and 6 are missing without a last transaction. With one, they are the minutes
/// since then over 1440, zero if it lies ahead and one from 1440 on, and the kilometres from
/// there over 1000.
pub proof fn last_transaction_coordinates(risks: Map<Seq<char>, Single>, p: TransactionPayload)
    ensures
        match p.last_transaction {
            None => features(risks, p)[5] == Feature::Missing && features(risks, p)[6]
                == Feature::Missing,
            Some(last) => {
                let now = p.transaction.requested_at@;
                let m = whole_minutes(
                    nanos_between(now.0, now.1, last.timestamp@.0, last.timestamp@.1),
                );
                &&& features(risks, p)[5] == (Feature::Ratio {
                    numerator: if m < 0 {
                        0
                    } else if m < 1440 {
                        m as u32
                    } else {
                        1440
                    },
                    denominator: 1440,
                })
                &&& features(risks, p)[6] == (Feature::Quotient {
                    value: last.km_from_current,
                    divisor: 1000,
                })
            },
        },
{
}

/// Coordinate 7 is the distance of the terminal from home over 1000, online or not.
pub proof fn home_coordinate(risks: Map<Seq<char>, Single>, p: TransactionPayload)
    ensures
        features(risks, p)[7] == (Feature::Quotient {
            value: p.terminal.km_from_home,
            divisor: 1000,
        }),
{
}

/// Coordinate 8 is the number of transactions within a day over 20, and one from 20 on.
pub proof fn frequency_coordinate(risks: Map<Seq<char>, Single>, p: TransactionPayload)
    ensures
        features(risks, p)[8] == (Feature::Ratio {
            numerator: if p.customer.tx_count_24h < 20 { p.customer.tx_count_24h } else { 20 },
            denominator: 20,
        }),
{
}

/// Coordinates 9 and 10 are one exactly if the terminal is online and the card is present.
pub proof fn terminal_coordinates(risks: Map<Seq<char>, Single>, p: TransactionPayload)
    ensures
        features(risks, p)[9] == (Feature::Ratio {
            numerator: if p.terminal.is_online { 1 } else { 0 },
            denominator: 1,
        }),
        features(risks, p)[10] == (Feature::Ratio {
            numerator: if p.terminal.card_present { 1 } else { 0 },
            denominator: 1,
        }),
{
}

/// Coordinate 11 is zero exactly if the merchant is one of those that the customer knows.
pub proof fn merchant_coordinate(risks: Map<Seq<char>, Single>, p: TransactionPayload)
    ensures
        (exists|i: int|
            0 <= i < p.customer.known_merchants@.len() && (
            #[trigger] p.customer.known_merchants@[i])@ == p.merchant.id@) ==> features(
            risks,
            p,
        )[11] == (Feature::Ratio { numerator: 0, denominator: 1 }),
        (forall|i: int|
            0 <= i < p.customer.known_merchants@.len() ==> (
            #[trigger] p.customer.known_merchants@[i])@ != p.merchant.id@) ==> features(
            risks,
            p,
        )[11] == (Feature::Ratio { numerator: 1, denominator: 1 }),
{
}

/// Coordinate 12 is the risk of the merchant category, or one half if that is not known.
pub proof fn risk_coordinate(risks: Map<Seq<char>, Single>, p: TransactionPayload)
    ensures
        risks.dom().contains(p.merchant.mcc@) ==> features(risks, p)[12] == (Feature::Value {
            value: risks[p.merchant.mcc@],
        }),
        !risks.dom().contains(p.merchant.mcc@) ==> features(risks, p)[12] == (Feature::Value {
            value: Single { bits: 0x3f00_0000 },
        }),
{
}

/// Coordinate 13 is the average amount of the merchant over 10 000.
pub proof fn merchant_amount_coordinate(risks: Map<Seq<char>, Single>, p: TransactionPayload)
    ensures
        features(risks, p)[13] == (Feature::Quotient {
            value: p.merchant.avg_amount,
            divisor: 10_000,
        }),
{
}

/// Transactions that agree in the fields that a coordinate comes from agree in that coordinate,
/// however different they are otherwise.
pub proof fn only_its_fields_matter(
    risks: Map<Seq<char>, Single>,
    other: Map<Seq<char>, Single>,
    p: TransactionPayload,
    r: TransactionPayload,
)
    ensures
        ({
            let a = features(risks, p);
            let b = features(other, r);
            &&& p.transaction.amount == r.transaction.amount ==> a[0] == b[0]
            &&& p.transaction.installments == r.transaction.installments ==> a[1] == b[1]
            &&& p.transaction.amount == r.transaction.amount && p.customer.avg_amount
                == r.customer.avg_amount ==> a[2] == b[2]
            &&& p.transaction.requested_at@ == r.transaction.requested_at@ ==> a[3] == b[3] && a[4]
                == b[4]
            &&& p.last_transaction is None && r.last_transaction is None ==> a[5] == b[5] && a[6]
                == b[6]
            &&& p.transaction.requested_at@ == r.transaction.requested_at@ && p.last_transaction
                is Some && r.last_transaction is Some && p.last_transaction->0.timestamp@
                == r.last_transaction->0.timestamp@ ==> a[5] == b[5]
            &&& p.last_transaction is Some && r.last_transaction is Some
                && p.last_transaction->0.km_from_current == r.last_transaction->0.km_from_current
                ==> a[6] == b[6]
            &&& p.terminal.km_from_home == r.terminal.km_from_home ==> a[7] == b[7]
            &&& p.customer.tx_count_24h == r.customer.tx_count_24h ==> a[8] == b[8]
            &&& p.terminal.is_online == r.terminal.is_online ==> a[9] == b[9]
            &&& p.terminal.card_present == r.terminal.card_present ==> a[10] == b[10]
            &&& p.customer.known_merchants@ == r.customer.known_merchants@ && p.merchant.id@
                == r.merchant.id@ ==> a[11] == b[11]
            &&& p.merchant.mcc@ == r.merchant.mcc@ && risks == other ==> a[12] == b[12]
            &&& p.merchant.avg_amount == r.merchant.avg_amount ==> a[13] == b[13]
        }),
{
}

/// The risk table holds exactly the given categories, each with the risk given last.
pub proof fn risk_entries(entries: Seq<(String, Single)>, mcc: Seq<char>)
    ensures
        risk_table(entries).dom().contains(mcc) <==> exists|i: int|
            0 <= i < entries.len() && (#[trigger] entries[i]).0@ == mcc,
        forall|i: int|
            0 <= i < entries.len() && (#[trigger] entries[i]).0@ == mcc && (forall|j: int|
                i < j < entries.len() ==> (#[trigger] entries[j]).0@ != mcc)
                ==> risk_table(entries)[mcc] == entries[i].1,
    decreases entries.len(),
{
    if entries.len() > 0 {
        let rest = entries.drop_last();
        let last = entries.len() - 1;
        risk_entries(rest, mcc);
        if entries[last].0@ == mcc {
            assert(risk_table(entries).dom().contains(mcc));
        } else {
            assert forall|i: int|
                0 <= i < entries.len() && (#[trigger] entries[i]).0@ == mcc implies rest[i].0@
                == mcc by {}
            if exists|i: int| 0 <= i < entries.len() && (#[trigger] entries[i]).0@ == mcc {
                let i = choose|i: int| 0 <= i < entries.len() && (#[trigger] entries[i]).0@ == mcc;
                assert(rest[i].0@ == mcc);
            }
        }
        assert forall|i: int|
            0 <= i < entries.len() && (#[trigger] entries[i]).0@ == mcc && (forall|j: int|
                i < j < entries.len() ==> (#[trigger] entries[j]).0@ != mcc) implies risk_table(
            entries,
        )[mcc] == entries[i].1 by {
            if i < last {
                assert(entries[last].0@ != mcc);
                assert(rest[i].0@ == mcc);
                assert forall|j: int| i < j < rest.len() implies (#[trigger] rest[j]).0@ != mcc by {
                    assert(entries[j].0@ != mcc);
                }
            }
        }
    }
}

/// The risks that are known by default.
pub proof fn default_risk_entries()
    ensures
        default_risks().len() == 10,
        default_risks()[0] == ("5411"@, 15u32),
        default_risks()[1] == ("5812"@, 30u32),
        default_risks()[2] == ("5912"@, 20u32),
        default_risks()[3] == ("5944"@, 45u32),
        default_risks()[4] == ("7801"@, 80u32),
        default_risks()[5] == ("7802"@, 75u32),
        default_risks()[6] == ("7995"@, 85u32),
        default_risks()[7] == ("4511"@, 35u32),
        default_risks()[8] == ("5311"@, 25u32),
        default_risks()[9] == ("5999"@, 50u32),
{
}

/// An instant is a second in range with fewer than two billion nanoseconds, of which a leap
/// second, and no other, has a billion or more; it is the last of a minute.
pub proof fn instants(seconds: int, nanos: int)
    ensures
        is_instant(seconds, nanos) <==> -8_334_601_228_800 <= seconds <= 8_210_266_876_799 && 0
            <= nanos && (nanos < 1_000_000_000 || (nanos < 2_000_000_000 && (seconds + 1) % 60
            == 0)),
{
}

/// Day `day` since 1970, at `hour` o'clock and some seconds, is in that hour; it is a Thursday
/// if the days since 1970 are whole weeks, and a day later in the week for each day more.
pub proof fn calendar(day: int, hour: int, rest: int)
    requires
        0 <= hour < 24,
        0 <= rest < 3600,
    ensures
        second_of_day(86_400 * day + 3600 * hour + rest) == 3600 * hour + rest,
        hour_of_day(86_400 * day + 3600 * hour + rest) == hour,
        day_of_week(86_400 * day + 3600 * hour + rest) == (day + 3) % 7,
{
    let s = 86_400 * day + 3600 * hour + rest;
    assert(s / 86_400 == day && s % 86_400 == 3600 * hour + rest);
    assert((3600 * hour + rest) / 3600 == hour);
}

/// The whole minutes in a time are as many as fit into it; a time that is negative has as many
/// as its opposite, counted negatively.
pub proof fn minutes_fit(nanos: int)
    ensures
        nanos >= 0 ==> 60_000_000_000 * whole_minutes(nanos) <= nanos < 60_000_000_000 * (
        whole_minutes(nanos) + 1),
        nanos < 0 ==> 60_000_000_000 * (whole_minutes(nanos) - 1) < nanos <= 60_000_000_000
            * whole_minutes(nanos),
{
}

/// Between two instants that are no leap seconds lie the nanoseconds of their difference. One
/// that lies later in its day than a leap second in its day is a second more away from it.
pub proof fn time_between(a: int, a_nanos: int, b: int, b_nanos: int)
    ensures
        a_nanos < 1_000_000_000 && b_nanos < 1_000_000_000 ==> nanos_between(a, a_nanos, b, b_nanos)
            == (a * 1_000_000_000 + a_nanos) - (b * 1_000_000_000 + b_nanos),
        a % 86_400 > b % 86_400 && b_nanos >= 1_000_000_000 ==> nanos_between(
            a,
            a_nanos,
            b,
            b_nanos,
        ) == (a - b + 1) * 1_000_000_000 + a_nanos - b_nanos,
        a % 86_400 < b % 86_400 && a_nanos >= 1_000_000_000 ==> nanos_between(
            a,
            a_nanos,
            b,
            b_nanos,
        ) == (a - b - 1) * 1_000_000_000 + a_nanos - b_nanos,
        a % 86_400 == b % 86_400 || (a % 86_400 > b % 86_400 && b_nanos < 1_000_000_000) || (a
            % 86_400 < b % 86_400 && a_nanos < 1_000_000_000) ==> nanos_between(
            a,
            a_nanos,
            b,
            b_nanos,
        ) == (a - b) * 1_000_000_000 + a_nanos - b_nanos,
{
}

} // verus!
