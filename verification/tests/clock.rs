use fraud_knn::clock::{Timestamp, FIRST_SECOND, LAST_SECOND};

fn at(seconds: i64) -> Timestamp {
    Timestamp::new(seconds, 0).unwrap()
}

#[test]
fn the_range_of_instants_is_exact() {
    assert!(Timestamp::new(FIRST_SECOND, 0).is_some());
    assert!(Timestamp::new(FIRST_SECOND - 1, 0).is_none());
    assert!(Timestamp::new(LAST_SECOND, 999_999_999).is_some());
    assert!(Timestamp::new(LAST_SECOND + 1, 0).is_none());
    assert!(Timestamp::new(i64::MIN, 0).is_none());
    assert!(Timestamp::new(i64::MAX, 0).is_none());
}

#[test]
fn leap_seconds_end_a_minute() {
    assert!(Timestamp::new(59, 1_999_999_999).is_some());
    assert!(Timestamp::new(59, 2_000_000_000).is_none());
    assert!(Timestamp::new(58, 1_000_000_000).is_none());
    assert!(Timestamp::new(-1, 1_000_000_000).is_some());
    assert!(Timestamp::new(58, 999_999_999).is_some());
}

#[test]
fn hours_count_from_midnight() {
    assert_eq!(at(0).hour(), 0);
    assert_eq!(at(3599).hour(), 0);
    assert_eq!(at(3600).hour(), 1);
    assert_eq!(at(86_399).hour(), 23);
    assert_eq!(at(86_400).hour(), 0);
    assert_eq!(at(-1).hour(), 23);
    assert_eq!(at(FIRST_SECOND).hour(), 0);
    assert_eq!(at(LAST_SECOND).hour(), 23);
}

#[test]
fn days_count_from_monday() {
    // The first of January 1970 was a Thursday.
    assert_eq!(at(0).days_from_monday(), 3);
    assert_eq!(at(-1).days_from_monday(), 2);
    assert_eq!(at(4 * 86_400).days_from_monday(), 0);
    assert_eq!(at(4 * 86_400 - 1).days_from_monday(), 6);
    for day in -400..400i64 {
        let expected = (day + 3).rem_euclid(7) as u32;
        assert_eq!(at(day * 86_400 + 43_200).days_from_monday(), expected);
    }
    assert_eq!(
        at(LAST_SECOND).days_from_monday() as i64,
        (LAST_SECOND.div_euclid(86_400) + 3).rem_euclid(7)
    );
    assert_eq!(
        at(FIRST_SECOND).days_from_monday() as i64,
        (FIRST_SECOND.div_euclid(86_400) + 3).rem_euclid(7)
    );
}

#[test]
fn minutes_are_rounded_towards_zero() {
    assert_eq!(at(120).minutes_since(&at(0)), 2);
    assert_eq!(at(119).minutes_since(&at(0)), 1);
    assert_eq!(at(0).minutes_since(&at(119)), -1);
    assert_eq!(at(0).minutes_since(&at(59)), 0);
    let late = Timestamp::new(0, 1).unwrap();
    assert_eq!(at(60).minutes_since(&late), 0);
    assert_eq!(late.minutes_since(&at(60)), 0);
    assert_eq!(at(LAST_SECOND).minutes_since(&at(FIRST_SECOND)), (LAST_SECOND - FIRST_SECOND) / 60);
}

#[test]
fn leap_seconds_count() {
    let leap = Timestamp::new(59, 1_000_000_000).unwrap();
    // The leap second starts a minute after the start of its minute.
    assert_eq!(leap.minutes_since(&at(0)), 1);
    // From it there are 61 - 1 seconds to the start of the minute after the next.
    assert_eq!(at(119).minutes_since(&leap), 1);
    assert_eq!(at(118).minutes_since(&leap), 0);
    assert_eq!(leap.minutes_since(&at(119)), -1);
}

#[test]
fn minutes_change_their_sign_with_the_direction() {
    for (a, b) in [(0, 61), (59, 119), (-100, 100_000), (86_399, 86_400)] {
        assert_eq!(at(a).minutes_since(&at(b)), -at(b).minutes_since(&at(a)));
    }
}
