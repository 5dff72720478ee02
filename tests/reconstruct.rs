use punch::{reconstruct, Event, EventType, Interval, WorkTime};

const MONDAY: i64 = 17714; // 2018-07-02
const DAY: i64 = 86_400;
const HOUR: i64 = 3_600;
const MINUTE: i64 = 60;

fn at(day: i64, h: i64, m: i64) -> i64 {
    day * DAY + h * HOUR + m * MINUTE
}

fn ev(id: i64, t: EventType, clock: i64) -> Event {
    Event { id, project_id: 1, event_type: t, clock }
}

fn locals_of(events: &Vec<Event>) -> Vec<i64> {
    events.iter().map(|e| e.clock).collect()
}

#[test]
fn alternating_stream_gives_one_session_per_out() {
    let events = vec![
        ev(1, EventType::In, at(MONDAY, 8, 0)),
        ev(2, EventType::Out, at(MONDAY, 9, 30)),
        ev(3, EventType::In, at(MONDAY, 10, 0)),
        ev(4, EventType::Out, at(MONDAY, 12, 15)),
        ev(5, EventType::In, at(MONDAY + 1, 7, 0)),
        ev(6, EventType::Out, at(MONDAY + 1, 7, 10)),
    ];
    let locals = locals_of(&events);
    let r = reconstruct(&events, &locals, at(MONDAY + 2, 0, 0), 15 * MINUTE);
    assert_eq!(r.intervals.len(), 3);
    assert!(r.anomalies.is_empty());
    assert_eq!(r.intervals[0].start, at(MONDAY, 8, 0));
    assert_eq!(r.intervals[0].work_time.gross.0, 90 * MINUTE);
    assert_eq!(r.intervals[0].work_time.net.0, 75 * MINUTE);
    assert_eq!(r.intervals[1].work_time.gross.0, 135 * MINUTE);
    assert_eq!(r.intervals[1].work_time.net.0, 120 * MINUTE);
    assert_eq!(r.intervals[2].work_time.gross.0, 10 * MINUTE);
    assert_eq!(r.intervals[2].work_time.net.0, 0);
}

#[test]
fn trailing_in_opens_a_session_to_now() {
    let events = vec![
        ev(1, EventType::In, at(MONDAY, 8, 0)),
        ev(2, EventType::Out, at(MONDAY, 10, 0)),
        ev(3, EventType::In, at(MONDAY, 10, 5)),
    ];
    let locals = locals_of(&events);
    let r = reconstruct(&events, &locals, at(MONDAY, 11, 0), 15 * MINUTE);
    assert_eq!(r.intervals.len(), 2);
    assert_eq!(
        r.intervals[0],
        Interval {
            start: at(MONDAY, 8, 0),
            work_time: WorkTime::from_duration(120 * MINUTE, 15 * MINUTE)
        }
    );
    assert_eq!(r.intervals[0].work_time.net.0, 105 * MINUTE);
    assert_eq!(r.intervals[1].start, at(MONDAY, 10, 5));
    assert_eq!(r.intervals[1].work_time.gross.0, 55 * MINUTE);
    assert_eq!(r.intervals[1].work_time.net.0, 40 * MINUTE);
}

#[test]
fn no_pending_in_means_no_open_session() {
    let events = vec![
        ev(1, EventType::In, at(MONDAY, 8, 0)),
        ev(2, EventType::Out, at(MONDAY, 10, 0)),
    ];
    let locals = locals_of(&events);
    let r = reconstruct(&events, &locals, at(MONDAY, 23, 0), 0);
    assert_eq!(r.intervals.len(), 1);
    assert_eq!(r.intervals[0].work_time.gross.0, 2 * HOUR);
}

#[test]
fn empty_stream_gives_nothing() {
    let events: Vec<Event> = vec![];
    let r = reconstruct(&events, &vec![], at(MONDAY, 23, 0), 15 * MINUTE);
    assert!(r.intervals.is_empty());
    assert!(r.anomalies.is_empty());
}

#[test]
fn leading_out_is_dropped_silently() {
    let events = vec![
        ev(1, EventType::Out, at(MONDAY, 7, 0)),
        ev(2, EventType::Out, at(MONDAY, 7, 30)),
        ev(3, EventType::In, at(MONDAY, 8, 0)),
        ev(4, EventType::Out, at(MONDAY, 9, 0)),
    ];
    let locals = locals_of(&events);
    let r = reconstruct(&events, &locals, at(MONDAY, 10, 0), 15 * MINUTE);
    assert!(r.anomalies.is_empty());
    assert_eq!(r.intervals.len(), 1);
    assert_eq!(r.intervals[0].start, at(MONDAY, 8, 0));
    assert_eq!(r.intervals[0].work_time.gross.0, HOUR);
}

#[test]
fn mismatched_event_after_lead_in_is_reported_and_ignored() {
    let events = vec![
        ev(1, EventType::In, at(MONDAY, 8, 0)),
        ev(2, EventType::In, at(MONDAY, 8, 30)),
        ev(3, EventType::Out, at(MONDAY, 9, 0)),
        ev(4, EventType::Out, at(MONDAY, 9, 10)),
        ev(5, EventType::Note, at(MONDAY, 9, 20)),
    ];
    let locals = locals_of(&events);
    let r = reconstruct(&events, &locals, at(MONDAY, 10, 0), 15 * MINUTE);
    assert_eq!(r.anomalies, vec![1, 3]);
    assert_eq!(r.intervals.len(), 1);
    // the session runs from the first In: the second did not replace it
    assert_eq!(r.intervals[0].start, at(MONDAY, 8, 0));
    assert_eq!(r.intervals[0].work_time.gross.0, HOUR);
}

#[test]
fn session_start_is_read_on_the_local_clock() {
    let events = vec![
        ev(1, EventType::In, at(MONDAY, 8, 0)),
        ev(2, EventType::Out, at(MONDAY, 9, 0)),
    ];
    let locals = vec![at(MONDAY, 10, 0), at(MONDAY, 11, 0)];
    let r = reconstruct(&events, &locals, at(MONDAY, 12, 0), 0);
    assert_eq!(r.intervals[0].start, at(MONDAY, 10, 0));
    assert_eq!(r.intervals[0].work_time.gross.0, HOUR);
}
