use punch::calendar::{buckets, day_of_instant, days_from_monday, week_of_day};
use punch::report::start_day;
use punch::report::local_today;
use punch::{
    build_report, report_start_utc, summary_report, DatabaseError, Event, EventType, Interval,
    Project, PunchDirection, WorkTime,
};

const MONDAY: i64 = 17714; // 2018-07-02, ISO week 2018-W27
const DAY: i64 = 86_400;
const HOUR: i64 = 3_600;
const MINUTE: i64 = 60;

fn at(day: i64, h: i64, m: i64) -> i64 {
    day * DAY + h * HOUR + m * MINUTE
}

fn ev(id: i64, t: EventType, clock: i64) -> Event {
    Event { id, project_id: 1, event_type: t, clock }
}

fn locals_of(events: &Vec<Event>) -> Vec<i64> {
    events.iter().map(|e| e.clock).collect()
}

#[test]
fn one_morning_session_on_monday() {
    let events = vec![
        ev(1, EventType::In, at(MONDAY, 8, 0)),
        ev(2, EventType::Out, at(MONDAY, 12, 0)),
    ];
    let locals = locals_of(&events);
    let last = Some(events[1]);
    let r = build_report(&last, &events, &locals, at(MONDAY, 13, 0), MONDAY, 15);
    assert_eq!(r.next_direction, PunchDirection::In);
    assert_eq!(r.days.len(), 1);
    assert_eq!(r.days[0].0, MONDAY);
    assert_eq!(r.days[0].1.gross.to_string(), "4h0m");
    assert_eq!(r.days[0].1.net.to_string(), "3h45m");
    assert_eq!(r.weeks.len(), 6);
    assert_eq!(r.weeks[0].0.monday, MONDAY);
    assert_eq!((r.weeks[0].0.year, r.weeks[0].0.week), (2018, 27));
    assert_eq!(r.weeks[0].1.gross.0, 4 * HOUR);
    assert_eq!(r.weeks[0].1.net.0, 4 * HOUR - 15 * MINUTE);
    assert_eq!(r.weeks[5].0.monday, MONDAY - 35);
    assert_eq!((r.weeks[5].0.year, r.weeks[5].0.week), (2018, 22));
    assert_eq!(r.weeks[5].1, WorkTime::new());
}

#[test]
fn open_session_counts_up_to_now() {
    let events = vec![
        ev(1, EventType::In, at(MONDAY, 8, 0)),
        ev(2, EventType::Out, at(MONDAY, 10, 0)),
        ev(3, EventType::In, at(MONDAY, 10, 5)),
    ];
    let locals = locals_of(&events);
    let last = Some(events[2]);
    let r = build_report(&last, &events, &locals, at(MONDAY, 11, 0), MONDAY, 15);
    assert_eq!(r.next_direction, PunchDirection::Out);
    assert_eq!(r.days[0].0, MONDAY);
    assert_eq!(r.days[0].1.gross.to_string(), "2h55m");
    assert_eq!(r.days[0].1.net.to_string(), "2h25m");
    assert_eq!(r.weeks[0].1.gross.0, 2 * HOUR + 55 * MINUTE);
}

#[test]
fn days_of_the_current_week_newest_first() {
    let sunday = MONDAY + 6;
    let events = vec![
        ev(1, EventType::In, at(MONDAY + 2, 9, 0)),
        ev(2, EventType::Out, at(MONDAY + 2, 10, 0)),
    ];
    let locals = locals_of(&events);
    let r = build_report(&None, &events, &locals, at(sunday, 20, 0), sunday, 0);
    assert_eq!(r.days.len(), 7);
    for i in 0..7 {
        assert_eq!(r.days[i].0, sunday - i as i64);
    }
    assert_eq!(r.days[4].1.gross.0, HOUR);
    assert_eq!(r.days[3].1, WorkTime::new());
    assert_eq!(r.weeks.len(), 6);
    assert_eq!(r.weeks[0].1.gross.0, HOUR);
}

#[test]
fn monday_report_lists_one_day() {
    let events: Vec<Event> = vec![];
    let r = build_report(&None, &events, &vec![], at(MONDAY, 9, 0), MONDAY, 15);
    assert_eq!(r.days.len(), 1);
    assert_eq!(r.days[0].0, MONDAY);
    assert_eq!(r.days[0].1, WorkTime::new());
    assert_eq!(r.weeks.len(), 6);
    for i in 0..6 {
        assert_eq!(r.weeks[i].0.monday, MONDAY - 7 * i as i64);
        assert_eq!(r.weeks[i].1, WorkTime::new());
    }
    assert!(r.recent_events.is_empty());
    assert_eq!(r.next_direction, PunchDirection::In);
}

#[test]
fn weeks_across_a_year_boundary() {
    let today = 17535; // Thursday 2018-01-04, ISO week 2018-W01
    let events: Vec<Event> = vec![];
    let r = build_report(&None, &events, &vec![], at(today, 9, 0), today, 15);
    assert_eq!(r.days.len(), 4);
    assert_eq!(r.weeks.len(), 6);
    assert_eq!((r.weeks[0].0.year, r.weeks[0].0.week), (2018, 1));
    assert_eq!((r.weeks[1].0.year, r.weeks[1].0.week), (2017, 52));
    assert_eq!((r.weeks[5].0.year, r.weeks[5].0.week), (2017, 48));
}

#[test]
fn recent_events_are_the_last_ten_newest_first() {
    let mut events = vec![];
    for k in 0..15i64 {
        let t = if k % 2 == 0 { EventType::In } else { EventType::Out };
        events.push(ev(k + 1, t, at(MONDAY, 6, 0) + k * 10 * MINUTE));
    }
    let locals = locals_of(&events);
    let last = Some(events[14]);
    let r = build_report(&last, &events, &locals, at(MONDAY, 12, 0), MONDAY, 15);
    assert_eq!(r.recent_events.len(), 10);
    for i in 0..10 {
        assert_eq!(r.recent_events[i].id, 15 - i as i64);
    }
    let short = vec![events[0], events[1], events[2]];
    let r = build_report(&None, &short, &locals_of(&short), at(MONDAY, 12, 0), MONDAY, 15);
    assert_eq!(r.recent_events.len(), 3);
    assert_eq!(r.recent_events[0].id, 3);
    assert_eq!(r.recent_events[2].id, 1);
}

#[test]
fn sparse_sessions_still_fill_every_day() {
    let ivs = vec![
        Interval { start: at(MONDAY - 10, 9, 0), work_time: WorkTime::from_duration(HOUR, 0) },
        Interval { start: at(MONDAY, 9, 0), work_time: WorkTime::from_duration(HOUR, 0) },
    ];
    let first = start_day(MONDAY);
    let days = buckets(&ivs, false, first, MONDAY);
    assert_eq!(days.len() as i64, MONDAY - first + 1);
    for (i, (d, _)) in days.iter().enumerate() {
        assert_eq!(*d, first + i as i64);
    }
    let weeks = buckets(&ivs, true, week_of_day(first), week_of_day(MONDAY));
    assert_eq!(weeks.len(), 6);
    assert_eq!(weeks[5].1.gross.0, HOUR);
    assert_eq!(weeks[3].1.gross.0, HOUR);
    assert_eq!(weeks[4].1, WorkTime::new());
}

#[test]
fn sessions_on_the_same_day_add_up() {
    let ivs = vec![
        Interval { start: at(MONDAY, 9, 0), work_time: WorkTime::from_duration(HOUR, 900) },
        Interval { start: at(MONDAY, 23, 0), work_time: WorkTime::from_duration(2 * HOUR, 900) },
        Interval { start: at(MONDAY + 9, 1, 0), work_time: WorkTime::from_duration(HOUR, 900) },
    ];
    let days = buckets(&ivs, false, MONDAY, MONDAY + 1);
    assert_eq!(days.len(), 3);
    assert_eq!(days[0].0, MONDAY);
    assert_eq!((days[0].1.gross.0, days[0].1.net.0), (3 * HOUR, 3 * HOUR - 1800));
    assert_eq!(days[1].1, WorkTime::new());
    assert_eq!(days[2].0, MONDAY + 9);
}

#[test]
fn window_starts_on_a_monday_five_weeks_back() {
    assert_eq!(start_day(MONDAY), MONDAY - 35);
    assert_eq!(start_day(MONDAY + 6), MONDAY - 35);
    assert_eq!(start_day(MONDAY + 7), MONDAY - 28);
    assert_eq!(days_from_monday(MONDAY), 0);
    assert_eq!(days_from_monday(MONDAY + 6), 6);
    assert_eq!(days_from_monday(0), 3);
    assert_eq!(days_from_monday(-1), 2);
    assert_eq!(day_of_instant(-1), -1);
    assert_eq!(day_of_instant(DAY - 1), 0);
    assert_eq!(week_of_day(MONDAY) + 1, week_of_day(MONDAY + 7));
    assert_eq!(week_of_day(MONDAY), week_of_day(MONDAY + 6));
}

#[test]
fn window_start_instant() {
    match report_start_utc(MONDAY + 3) {
        Ok(u) => assert!((u - (MONDAY - 35) * DAY).abs() < DAY),
        Err(e) => assert_eq!(e, DatabaseError::BadTime),
    }
}

#[test]
fn report_on_missing_project_fails() {
    let events: Vec<Event> = vec![];
    let r = summary_report(&None, &None, &events, at(MONDAY, 9, 0), MONDAY);
    assert!(matches!(r, Err(DatabaseError::BadProject)));
}

#[test]
fn report_on_a_project_reads_the_local_clock() {
    let project = Project { id: 1, user_id: 1, name: "Project".to_string(), overhead: 15 };
    let events = vec![
        ev(1, EventType::In, at(MONDAY, 8, 0)),
        ev(2, EventType::Out, at(MONDAY, 12, 0)),
    ];
    let now = at(MONDAY + 2, 12, 0);
    let today = local_today(now);
    assert!((today - (MONDAY + 2)).abs() <= 1);
    let r = summary_report(&Some(project), &Some(events[1]), &events, now, today).ok().unwrap();
    assert!(r.weeks.len() >= 6);
    assert_eq!(r.days.len() as i64, (today + 3).rem_euclid(7) + 1);
    assert_eq!(r.days[0].0, today);
    assert!(r.anomalies.is_empty());
    assert_eq!(r.recent_events[0].id, 2);
    let total: i64 = r.weeks.iter().map(|w| w.1.gross.0).sum();
    assert_eq!(total, 4 * HOUR);
}

#[test]
fn report_lists_discarded_events() {
    let events = vec![
        ev(1, EventType::In, at(MONDAY, 8, 0)),
        ev(2, EventType::In, at(MONDAY, 8, 30)),
        ev(3, EventType::Out, at(MONDAY, 9, 0)),
    ];
    let locals = locals_of(&events);
    let r = build_report(&Some(events[2]), &events, &locals, at(MONDAY, 10, 0), MONDAY, 15);
    assert_eq!(r.anomalies, vec![1]);
    assert_eq!(r.days[0].1.gross.0, HOUR);
}
