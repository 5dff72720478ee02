use punch::{
    next_expected_direction, next_expected_punch_direction, punch_event, validate_punch,
    DatabaseError, Event, EventType, NewEvent, PunchDirection,
};

fn ev(id: i64, t: EventType, clock: i64) -> Event {
    Event { id, project_id: 7, event_type: t, clock }
}

#[test]
fn next_direction_follows_the_last_punch() {
    assert_eq!(next_expected_punch_direction(&None), PunchDirection::In);
    assert_eq!(next_expected_punch_direction(&Some(ev(1, EventType::In, 10))), PunchDirection::Out);
    assert_eq!(next_expected_punch_direction(&Some(ev(2, EventType::Out, 20))), PunchDirection::In);
}

#[test]
fn next_direction_passes_over_notes() {
    assert_eq!(next_expected_direction(&vec![]), PunchDirection::In);
    let events = vec![ev(1, EventType::In, 10), ev(2, EventType::Note, 20)];
    assert_eq!(next_expected_direction(&events), PunchDirection::Out);
    let events = vec![ev(1, EventType::In, 10), ev(2, EventType::Out, 20), ev(3, EventType::Note, 30)];
    assert_eq!(next_expected_direction(&events), PunchDirection::In);
    let events = vec![ev(1, EventType::Note, 10)];
    assert_eq!(next_expected_direction(&events), PunchDirection::In);
}

#[test]
fn punching_in_twice_is_refused() {
    let last = Some(ev(1, EventType::In, 100));
    assert_eq!(punch_event(7, PunchDirection::In, &last, 200), Err(DatabaseError::BadState));
    assert_eq!(
        punch_event(7, PunchDirection::Out, &last, 200),
        Ok(NewEvent { project_id: 7, event_type: EventType::Out, clock: 200 })
    );
}

#[test]
fn first_punch_must_be_in() {
    assert_eq!(punch_event(7, PunchDirection::Out, &None, 5), Err(DatabaseError::BadState));
    assert_eq!(
        punch_event(7, PunchDirection::In, &None, 5),
        Ok(NewEvent { project_id: 7, event_type: EventType::In, clock: 5 })
    );
}

#[test]
fn validation_compares_directions() {
    assert_eq!(validate_punch(PunchDirection::In, PunchDirection::In), Ok(()));
    assert_eq!(validate_punch(PunchDirection::Out, PunchDirection::In), Err(DatabaseError::BadState));
    assert_eq!(EventType::from(PunchDirection::In), EventType::In);
    assert_eq!(EventType::from(PunchDirection::Out), EventType::Out);
}
