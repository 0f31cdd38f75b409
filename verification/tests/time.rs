use chrono::{Datelike, NaiveDate, Timelike};
use sitecheck::time::{timestamp, TimeError};

#[test]
fn epoch_is_the_first_of_january_1970() {
    let t = timestamp(0).unwrap();
    assert_eq!(t, NaiveDate::from_ymd_opt(1970, 1, 1).unwrap().and_hms_opt(0, 0, 0).unwrap());
}

#[test]
fn seconds_count_from_the_epoch() {
    let t = timestamp(1431648000).unwrap();
    assert_eq!((t.year(), t.month(), t.day()), (2015, 5, 15));
    assert_eq!((t.hour(), t.minute(), t.second()), (0, 0, 0));
    let u = timestamp(1431648000 + 3661).unwrap();
    assert_eq!((u.hour(), u.minute(), u.second()), (1, 1, 1));
    assert!(timestamp(1600000000).unwrap().year() >= 2020);
}

#[test]
fn seconds_beyond_a_signed_integer_are_too_large() {
    assert_eq!(timestamp(u64::MAX), Err(TimeError::TooLarge));
    assert_eq!(timestamp(9223372036854775808), Err(TimeError::TooLarge));
}

#[test]
fn seconds_beyond_the_calendar_are_out_of_range() {
    assert_eq!(timestamp(9223372036854775807), Err(TimeError::OutOfRange));
}
