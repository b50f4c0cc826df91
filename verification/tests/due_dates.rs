use asana_gtasks::asana::{asana_due_to_string, local_date, midnight_string, timestamp_to_local_date};
use asana_gtasks::asana::{CivilDate, Instant, Task, MAX_SECOND, MIN_SECOND, REFERENCE_OFFSET_HOURS};
use asana_gtasks::error::SyncError;

fn task(due_on: Option<CivilDate>, due_at: Option<Instant>) -> Task {
    Task {
        gid: "F1".to_string(),
        name: "Buy milk".to_string(),
        notes: "get 2%".to_string(),
        due_on,
        due_at,
        completed_at: None,
    }
}

fn instant(text: &str) -> Instant {
    let ts: jiff::Timestamp = text.parse().unwrap();
    Instant::new(ts.as_second(), ts.subsec_nanosecond()).unwrap()
}

#[test]
fn reference_zone_is_six_hours_west() {
    assert_eq!(REFERENCE_OFFSET_HOURS, -6);
}

#[test]
fn due_day_alone_becomes_its_midnight() {
    let t = task(CivilDate::new(2024, 3, 15), None);
    assert_eq!(asana_due_to_string(&t).unwrap(), "2024-03-15T00:00:00Z");
}

#[test]
fn due_time_late_in_the_utc_day_stays_on_that_day_six_hours_west() {
    let at = instant("2024-03-15T23:00:00Z");
    assert_eq!(at, Instant::new(1_710_543_600, 0).unwrap());
    assert_eq!(timestamp_to_local_date(&at), "2024-03-15T00:00:00Z");
    let t = task(None, Some(at));
    assert_eq!(asana_due_to_string(&t).unwrap(), "2024-03-15T00:00:00Z");
}

#[test]
fn due_time_early_in_the_utc_day_falls_on_the_day_before() {
    let at = instant("2024-03-16T03:00:00Z");
    assert_eq!(timestamp_to_local_date(&at), "2024-03-15T00:00:00Z");
    assert_eq!(local_date(&at), CivilDate::new(2024, 3, 15).unwrap());
}

#[test]
fn zone_boundary_is_at_six_in_the_utc_morning() {
    assert_eq!(timestamp_to_local_date(&instant("2024-03-16T05:59:59.999Z")), "2024-03-15T00:00:00Z");
    assert_eq!(timestamp_to_local_date(&instant("2024-03-16T06:00:00Z")), "2024-03-16T00:00:00Z");
}

#[test]
fn zone_offset_does_not_follow_daylight_saving() {
    // In July a zone with daylight saving would stand five hours west.
    assert_eq!(timestamp_to_local_date(&instant("2024-07-02T05:30:00Z")), "2024-07-01T00:00:00Z");
}

#[test]
fn nanoseconds_before_the_epoch_count() {
    let at = Instant::new(6 * 3600, -1).unwrap();
    assert_eq!(timestamp_to_local_date(&at), "1969-12-31T00:00:00Z");
    let at = Instant::new(6 * 3600, 0).unwrap();
    assert_eq!(timestamp_to_local_date(&at), "1970-01-01T00:00:00Z");
}

#[test]
fn due_time_wins_over_due_day() {
    let at = instant("2024-03-16T03:00:00Z");
    let t = task(CivilDate::new(2030, 1, 1), Some(at));
    assert_eq!(asana_due_to_string(&t).unwrap(), "2024-03-15T00:00:00Z");
}

#[test]
fn no_due_form_is_an_error() {
    let t = task(None, None);
    assert_eq!(asana_due_to_string(&t), Err(SyncError::MissingDue));
}

#[test]
fn midnight_string_pads_with_zeros() {
    assert_eq!(midnight_string(&CivilDate::new(2024, 1, 1).unwrap()), "2024-01-01T00:00:00Z");
    assert_eq!(midnight_string(&CivilDate::new(7, 12, 31).unwrap()), "0007-12-31T00:00:00Z");
    assert_eq!(midnight_string(&CivilDate::new(0, 2, 29).unwrap()), "0000-02-29T00:00:00Z");
}

#[test]
fn midnight_string_of_a_year_before_zero() {
    assert_eq!(midnight_string(&CivilDate::new(-2024, 3, 10).unwrap()), "-002024-03-10T00:00:00Z");
    assert_eq!(midnight_string(&CivilDate::new(-9999, 1, 1).unwrap()), "-009999-01-01T00:00:00Z");
}

#[test]
fn civil_date_accepts_the_days_of_the_calendar() {
    assert!(CivilDate::new(2024, 2, 29).is_some());
    assert!(CivilDate::new(2000, 2, 29).is_some());
    assert!(CivilDate::new(2023, 12, 31).is_some());
    assert!(CivilDate::new(9999, 12, 31).is_some());
    assert!(CivilDate::new(-9999, 1, 1).is_some());
    assert!(CivilDate::new(-4, 2, 29).is_some());
    let d = CivilDate::new(2024, 3, 15).unwrap();
    assert_eq!((d.year(), d.month(), d.day()), (2024, 3, 15));
}

#[test]
fn civil_date_refuses_what_is_no_day() {
    assert!(CivilDate::new(2023, 2, 29).is_none());
    assert!(CivilDate::new(1900, 2, 29).is_none());
    assert!(CivilDate::new(2024, 4, 31).is_none());
    assert!(CivilDate::new(2024, 13, 1).is_none());
    assert!(CivilDate::new(2024, 0, 1).is_none());
    assert!(CivilDate::new(2024, 1, 0).is_none());
    assert!(CivilDate::new(2024, 1, 32).is_none());
    assert!(CivilDate::new(10000, 1, 1).is_none());
    assert!(CivilDate::new(-10000, 1, 1).is_none());
    assert!(CivilDate::new(2024, -1, 1).is_none());
}

#[test]
fn civil_date_agrees_with_jiff_on_every_day_of_some_years() {
    for year in [-9999i16, -400, -1, 0, 1, 1900, 2000, 2023, 2024, 2100, 9999] {
        for month in 0i8..=13 {
            for day in 0i8..=32 {
                assert_eq!(
                    CivilDate::new(year, month, day).is_some(),
                    jiff::civil::Date::new(year, month, day).is_ok(),
                    "{}-{}-{}",
                    year,
                    month,
                    day
                );
            }
        }
    }
}

#[test]
fn instant_holds_what_jiff_holds() {
    assert_eq!(MIN_SECOND, jiff::Timestamp::MIN.as_second());
    assert_eq!(MAX_SECOND, jiff::Timestamp::MAX.as_second());
    let cases = [
        (MIN_SECOND, 0),
        (MIN_SECOND, -1),
        (MIN_SECOND, 1),
        (MIN_SECOND - 1, 0),
        (MAX_SECOND, 999_999_999),
        (MAX_SECOND, 1_000_000_000),
        (MAX_SECOND + 1, 0),
        (0, -999_999_999),
        (0, -1_000_000_000),
        (5, -3),
        (-5, 3),
    ];
    for (seconds, nanos) in cases {
        assert_eq!(
            Instant::new(seconds, nanos).is_some(),
            jiff::Timestamp::new(seconds, nanos).is_ok(),
            "{} s {} ns",
            seconds,
            nanos
        );
    }
    let at = Instant::new(5, -3).unwrap();
    assert_eq!((at.seconds(), at.nanos()), (5, -3));
}

#[test]
fn first_and_last_instant_have_a_date() {
    let first = Instant::new(MIN_SECOND, 0).unwrap();
    assert_eq!(timestamp_to_local_date(&first), "-009999-01-01T00:00:00Z");
    let last = Instant::new(MAX_SECOND, 999_999_999).unwrap();
    assert_eq!(timestamp_to_local_date(&last), "9999-12-30T00:00:00Z");
}
