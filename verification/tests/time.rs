use chrono::{DateTime, Timelike};
use hydra_engine::time::{Timestamp, MAX_SECONDS, MIN_SECONDS};

#[test]
fn hours_are_those_of_the_day_in_universal_time() {
    assert_eq!(Timestamp::at(0).hour(), 0);
    assert_eq!(Timestamp::at(3_599).hour(), 0);
    assert_eq!(Timestamp::at(3_600).hour(), 1);
    assert_eq!(Timestamp::at(-1).hour(), 23);
    // 2025-06-15T14:00:00Z
    assert_eq!(Timestamp::at(1_749_996_000).hour(), 14);
    for seconds in [MIN_SECONDS, MAX_SECONDS, 951_782_400, -62_135_596_800] {
        let expected = DateTime::from_timestamp(seconds, 0).unwrap().hour();
        assert_eq!(Timestamp::at(seconds).hour(), expected);
        assert_eq!(expected as i64, seconds.rem_euclid(86_400) / 3_600);
    }
}

#[test]
fn the_limits_are_those_of_the_calendar() {
    assert!(DateTime::from_timestamp(MIN_SECONDS, 0).is_some());
    assert!(DateTime::from_timestamp(MAX_SECONDS, 999_999_999).is_some());
    assert!(DateTime::from_timestamp(MIN_SECONDS - 1, 0).is_none());
    assert!(DateTime::from_timestamp(MAX_SECONDS + 1, 0).is_none());
    assert!(Timestamp::at(MIN_SECONDS).is_valid());
    assert!(Timestamp::at(MAX_SECONDS).is_valid());
    assert!(!Timestamp::at(MIN_SECONDS - 1).is_valid());
    assert!(!Timestamp::at(MAX_SECONDS + 1).is_valid());
    assert!(!Timestamp { seconds: 0, nanos: 1_000_000_000 }.is_valid());
}

#[test]
fn seconds_between_times_are_whole() {
    let early = Timestamp { seconds: 10, nanos: 900_000_000 };
    let late = Timestamp { seconds: 13, nanos: 100_000_000 };
    assert_eq!(late.seconds_since(early), 2);
    assert_eq!(early.seconds_since(late), -2);
    assert_eq!(late.seconds_since(late), 0);
    assert_eq!(Timestamp::at(100).seconds_since(Timestamp::at(-20)), 120);
    assert_eq!(
        Timestamp::at(MAX_SECONDS).seconds_since(Timestamp::at(MIN_SECONDS)),
        MAX_SECONDS - MIN_SECONDS
    );
    assert_eq!(
        Timestamp::at(MIN_SECONDS).seconds_since(Timestamp::at(MAX_SECONDS)),
        MIN_SECONDS - MAX_SECONDS
    );
}

#[test]
fn earlier_times_come_before_later_ones() {
    let one = Timestamp { seconds: 5, nanos: 1 };
    let other = Timestamp { seconds: 5, nanos: 2 };
    assert!(one.before(other));
    assert!(!other.before(one));
    assert!(!one.before(one));
    assert!(Timestamp::at(-1).before(Timestamp::at(0)));
}
