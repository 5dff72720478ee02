use punch::clock::single_instant;
use punch::time::MAX_INSTANT;
use punch::{DatabaseError, LocalMapping};
use punch::{to_local, to_utc, Elapsed, Interval, WorkTime};

#[test]
fn net_time_is_gross_less_overhead_never_negative() {
    let overhead = 15 * 60;
    let w = WorkTime::from_duration(0, overhead);
    assert_eq!((w.gross.0, w.net.0), (0, 0));
    let w = WorkTime::from_duration(20 * 60, overhead);
    assert_eq!((w.gross.0, w.net.0), (20 * 60, 5 * 60));
    let w = WorkTime::from_duration(10 * 60, overhead);
    assert_eq!((w.gross.0, w.net.0), (10 * 60, 0));
    let w = WorkTime::from_duration(15 * 60, overhead);
    assert_eq!((w.gross.0, w.net.0), (15 * 60, 0));
}

#[test]
fn work_times_accumulate() {
    let mut w = WorkTime::new();
    assert_eq!((w.gross.0, w.net.0), (0, 0));
    w.add_assign(WorkTime::from_duration(7200, 900));
    w.add_assign(WorkTime::from_duration(3300, 900));
    assert_eq!((w.gross.0, w.net.0), (10500, 8700));
    assert_eq!(Elapsed(5).add(Elapsed(7)), Elapsed(12));
}

#[test]
fn interval_length_is_measured_on_utc() {
    let i = Interval::new(1000, 5000, 5000 + 4 * 3600, 900);
    assert_eq!(i.start, 1000);
    assert_eq!(i.work_time.gross.0, 4 * 3600);
    assert_eq!(i.work_time.net.0, 4 * 3600 - 900);
}

#[test]
fn elapsed_shows_hours_and_floored_minutes() {
    assert_eq!(Elapsed(4 * 3600).to_string(), "4h0m");
    assert_eq!(Elapsed(3 * 3600 + 45 * 60).to_string(), "3h45m");
    assert_eq!(Elapsed(2 * 3600 + 55 * 60 + 59).to_string(), "2h55m");
    assert_eq!(Elapsed(59).to_string(), "0h0m");
    assert_eq!(Elapsed(30 * 3600 + 7 * 60).to_string(), "30h7m");
    assert_eq!(Elapsed(123 * 3600 + 10 * 60).to_string(), "123h10m");
    assert_eq!(Elapsed(-(90 * 60)).to_string(), "-1h-30m");
    assert_eq!(Elapsed(-(30 * 60)).to_string(), "0h-30m");
}

#[test]
fn local_reading_is_within_a_day_of_utc() {
    let utc = 1_530_518_400; // 2018-07-02T08:00:00Z
    let local = to_local(utc);
    assert!((local - utc).abs() < 86_400);
    let local = to_local(MAX_INSTANT);
    assert!((local - MAX_INSTANT).abs() < 86_400);
}

#[test]
fn local_time_maps_back_to_utc_or_is_refused() {
    let utc = 1_530_518_400;
    let local = to_local(utc);
    match to_utc(local) {
        Ok(u) => assert!((u - local).abs() < 86_400),
        Err(e) => assert_eq!(e, DatabaseError::BadTime),
    }
}

#[test]
fn single_mapping_is_the_only_success() {
    assert_eq!(single_instant(LocalMapping::Single(42)), Ok(42));
    assert_eq!(single_instant(LocalMapping::Gap), Err(DatabaseError::BadTime));
    assert_eq!(single_instant(LocalMapping::Fold(1, 2)), Err(DatabaseError::BadTime));
}
