use discord_links::datetime::{MAX_NANOS, MAX_OFFSET_SECONDS, MAX_SECONDS, MIN_NANOS, MIN_SECONDS};
use discord_links::{Bound, DateRange, UtcDateTime};

fn at(nanos: i128) -> UtcDateTime {
    UtcDateTime::from_parts(nanos, 0).unwrap()
}

#[test]
fn seconds_are_representable_from_the_year_minus_9999_to_9999() {
    let t = UtcDateTime::from_unix_timestamp(1_700_000_000).unwrap();
    assert_eq!(t.unix_timestamp_nanos(), 1_700_000_000_000_000_000);
    assert_eq!(t.offset_seconds(), 0);
    assert_eq!(UtcDateTime::from_unix_timestamp(MIN_SECONDS).unwrap().unix_timestamp(), MIN_SECONDS);
    assert_eq!(UtcDateTime::from_unix_timestamp(MAX_SECONDS).unwrap().unix_timestamp(), MAX_SECONDS);
    for out in [MIN_SECONDS - 1, MAX_SECONDS + 1, i64::MIN, i64::MAX] {
        let e = UtcDateTime::from_unix_timestamp(out).unwrap_err();
        assert_eq!(e.to_string(), "timestamp was not in range");
    }
}

#[test]
fn limits_are_those_of_the_calendar() {
    let first = time::Date::MIN.midnight().assume_utc();
    let last = time::PrimitiveDateTime::MAX.assume_utc();
    assert_eq!(first.unix_timestamp_nanos(), MIN_NANOS);
    assert_eq!(last.unix_timestamp_nanos(), MAX_NANOS);
    assert!(time::UtcOffset::from_whole_seconds(MAX_OFFSET_SECONDS).is_ok());
    assert!(time::UtcOffset::from_whole_seconds(MAX_OFFSET_SECONDS + 1).is_err());
}

#[test]
fn seconds_are_rounded_down() {
    assert_eq!(at(1_999_999_999).unix_timestamp(), 1);
    assert_eq!(at(0).unix_timestamp(), 0);
    assert_eq!(at(-1).unix_timestamp(), -1);
    assert_eq!(at(-1_000_000_000).unix_timestamp(), -1);
    assert_eq!(at(-1_000_000_001).unix_timestamp(), -2);
}

#[test]
fn local_time_must_be_representable() {
    assert!(UtcDateTime::from_parts(MIN_NANOS, 0).is_some());
    assert!(UtcDateTime::from_parts(MIN_NANOS, -1).is_none());
    assert!(UtcDateTime::from_parts(MIN_NANOS - 1_000_000_000, 1).is_some());
    assert!(UtcDateTime::from_parts(MAX_NANOS, 1).is_none());
    assert!(UtcDateTime::from_parts(0, MAX_OFFSET_SECONDS + 1).is_none());
    assert!(UtcDateTime::from_parts(0, -MAX_OFFSET_SECONDS).is_some());
    assert!(UtcDateTime::from_parts(i128::MAX, 0).is_none());
    assert!(UtcDateTime::from_parts(i128::MIN, 0).is_none());
}

#[test]
fn minutes_are_subtracted_up_to_the_limits() {
    let t = at(3_600_000_000_001);
    assert_eq!(t.saturating_sub_minutes(60).unix_timestamp_nanos(), 1);
    assert_eq!(t.saturating_sub_minutes(-1).unix_timestamp_nanos(), 3_660_000_000_001);
    assert_eq!(t.saturating_sub_minutes(i64::MAX / 60).unix_timestamp_nanos(), MIN_NANOS);
    assert_eq!(t.saturating_sub_minutes(i64::MIN / 60).unix_timestamp_nanos(), MAX_NANOS);
    let local = UtcDateTime::from_parts(0, 36_000).unwrap();
    let first = local.saturating_sub_minutes(i64::MAX / 60);
    assert_eq!(first.offset_seconds(), 36_000);
    assert_eq!(first.unix_timestamp_nanos(), MIN_NANOS - 36_000_000_000_000);
}

#[test]
fn ranges_hold_what_lies_between_their_bounds() {
    let (a, b) = (at(10), at(20));
    let range = DateRange::between(a, b);
    assert!(!range.contains(&at(9)));
    assert!(range.contains(&at(10)));
    assert!(range.contains(&at(19)));
    assert!(!range.contains(&at(20)));
    let range = DateRange { start: Bound::Excluded(a), end: Bound::Included(b) };
    assert!(!range.contains(&at(10)));
    assert!(range.contains(&at(11)));
    assert!(range.contains(&at(20)));
    assert!(!range.contains(&at(21)));
    let range = DateRange { start: Bound::Unbounded, end: Bound::Unbounded };
    assert!(range.contains(&at(MIN_NANOS)));
    assert!(range.contains(&at(MAX_NANOS)));
    // The offset in which an instant is written does not matter.
    assert!(DateRange::between(a, b).contains(&UtcDateTime::from_parts(15, 3_600).unwrap()));
}
