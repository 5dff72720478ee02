use vstd::prelude::*;

use crate::models::{event_type_of, DatabaseError, Event, EventType, NewEvent, PunchDirection};

verus! {

/// The type of the most recent In or Out event of `evs` (in ascending order); Notes are
/// passed over.
pub open spec fn last_punch(evs: Seq<Event>) -> Option<EventType>
    decreases evs.len(),
{
    if evs.len() == 0 {
        None
    } else if evs.last().event_type == EventType::Note {
        last_punch(evs.drop_last())
    } else {
        Some(evs.last().event_type)
    }
}

/// The direction that the next punch must take: Out after an In, In otherwise.
pub open spec fn direction_after(last: Option<EventType>) -> PunchDirection {
    match last {
        Some(EventType::In) => PunchDirection::Out,
        _ => PunchDirection::In,
    }
}

/// The type of an optional event.
pub open spec fn type_of(e: Option<Event>) -> Option<EventType> {
    match e {
        Some(ev) => Some(ev.event_type),
        None => None,
    }
}

/// The direction expected of the next punch, given a project's events in ascending
/// order. Only the most recent In or Out counts.
pub fn next_expected_direction(events: &Vec<Event>) -> (r: PunchDirection)
    ensures
        r == direction_after(last_punch(events@)),
{
    let mut i: usize = events.len();
    proof {
        assert(events@.take(i as int) =~= events@);
    }
    while i > 0
        invariant
            i <= events@.len(),
            last_punch(events@) == last_punch(events@.take(i as int)),
        decreases i,
    {
        proof {
            assert(events@.take(i as int).drop_last() =~= events@.take(i - 1));
        }
        let t = events[i - 1].event_type;
        if t != EventType::Note {
            return if t == EventType::In {
                PunchDirection::Out
            } else {
                PunchDirection::In
            };
        }
        i = i - 1;
    }
    PunchDirection::In
}

/// The direction expected of the next punch, given the project's most recent In or Out
/// event, if any: In when there is none, Out after an In, In after an Out.
pub fn next_expected_punch_direction(last_event: &Option<Event>) -> (r: PunchDirection)
    requires
        last_event matches Some(e) ==> e.event_type != EventType::Note,
    ensures
        r == direction_after(type_of(*last_event)),
        last_event is None ==> r == PunchDirection::In,
        last_event matches Some(e) && e.event_type == EventType::In ==> r == PunchDirection::Out,
        last_event matches Some(e) && e.event_type == EventType::Out ==> r == PunchDirection::In,
{
    match last_event {
        Some(e) => {
            if e.event_type == EventType::In {
                PunchDirection::Out
            } else {
                PunchDirection::In
            }
        },
        None => PunchDirection::In,
    }
}

/// Accepts a punch only in the expected direction.
pub fn validate_punch(proposed: PunchDirection, expected: PunchDirection) -> (r: Result<
    (),
    DatabaseError,
>)
    ensures
        r == if proposed == expected {
            Ok::<(), DatabaseError>(())
        } else {
            Err(DatabaseError::BadState)
        },
{
    if proposed == expected {
        Ok(())
    } else {
        Err(DatabaseError::BadState)
    }
}

/// The event that a punch in `direction` appends at the instant `now`, or `BadState`
/// when the direction disagrees with the last stored In or Out; then nothing is to be
/// appended. The caller makes the read of `last_event` and the append one atomic step.
pub fn punch_event(
    project_id: i64,
    direction: PunchDirection,
    last_event: &Option<Event>,
    now: i64,
) -> (r: Result<NewEvent, DatabaseError>)
    requires
        last_event matches Some(e) ==> e.event_type != EventType::Note,
    ensures
        r == if direction == direction_after(type_of(*last_event)) {
            Ok::<NewEvent, DatabaseError>(
                NewEvent { project_id, event_type: event_type_of(direction), clock: now },
            )
        } else {
            Err(DatabaseError::BadState)
        },
{
    let expected = next_expected_punch_direction(last_event);
    match validate_punch(direction, expected) {
        Ok(()) => Ok(NewEvent { project_id, event_type: EventType::from(direction), clock: now }),
        Err(e) => Err(e),
    }
}

} // verus!
