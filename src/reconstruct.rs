use vstd::prelude::*;

use crate::models::{Event, EventType};
use crate::time::{interval_of, valid_instant, Interval};

verus! {

/// Where the scan stands after the first `n` events: the type it expects next, the
/// index of an In that still waits for its Out, and whether it is still in the
/// lead-in (no event accepted yet).
pub open spec fn scan_state(evs: Seq<Event>, n: int) -> (EventType, Option<int>, bool)
    decreases n,
{
    if n <= 0 {
        (EventType::In, None, true)
    } else {
        let st = scan_state(evs, n - 1);
        if evs[n - 1].event_type == st.0 {
            if st.0 == EventType::In {
                (EventType::Out, Some(n - 1), false)
            } else {
                (EventType::In, None, false)
            }
        } else {
            st
        }
    }
}

/// The event at `i` is accepted: it has the type that the scan expects.
pub open spec fn accepted(evs: Seq<Event>, i: int) -> bool {
    evs[i].event_type == scan_state(evs, i).0
}

/// The event at `i` breaks the alternation: it is discarded with a diagnostic. A Note,
/// and an Out while still in the lead-in, are discarded without one.
pub open spec fn is_anomaly(evs: Seq<Event>, i: int) -> bool {
    let st = scan_state(evs, i);
    &&& evs[i].event_type != st.0
    &&& evs[i].event_type != EventType::Note
    &&& !(st.2 && evs[i].event_type == EventType::Out)
}

/// The indices of the first `n` events that were discarded with a diagnostic.
pub open spec fn anomalies(evs: Seq<Event>, n: int) -> Seq<int>
    decreases n,
{
    if n <= 0 {
        Seq::empty()
    } else if is_anomaly(evs, n - 1) {
        anomalies(evs, n - 1).push(n - 1)
    } else {
        anomalies(evs, n - 1)
    }
}

/// The sessions that an accepted Out closes among the first `n` events.
pub open spec fn closed_intervals(evs: Seq<Event>, locals: Seq<i64>, overhead: int, n: int) -> Seq<
    Interval,
>
    decreases n,
{
    if n <= 0 {
        Seq::empty()
    } else if accepted(evs, n - 1) && evs[n - 1].event_type == EventType::Out {
        let p = scan_state(evs, n - 1).1.unwrap();
        closed_intervals(evs, locals, overhead, n - 1).push(
            interval_of(locals[p] as int, evs[n - 1].clock - evs[p].clock, overhead),
        )
    } else {
        closed_intervals(evs, locals, overhead, n - 1)
    }
}

/// The session still open after all events, running from its In to `now`.
pub open spec fn open_interval(evs: Seq<Event>, locals: Seq<i64>, now: int, overhead: int) -> Seq<
    Interval,
> {
    match scan_state(evs, evs.len() as int).1 {
        Some(p) => seq![interval_of(locals[p] as int, now - evs[p].clock, overhead)],
        None => Seq::empty(),
    }
}

/// All sessions: those closed by an Out, then the one still open, if any.
pub open spec fn intervals_of(evs: Seq<Event>, locals: Seq<i64>, now: int, overhead: int) -> Seq<
    Interval,
> {
    closed_intervals(evs, locals, overhead, evs.len() as int) + open_interval(
        evs,
        locals,
        now,
        overhead,
    )
}

/// Events in ascending order of their instants.
pub open spec fn sorted_by_clock(evs: Seq<Event>) -> bool {
    forall|i: int, j: int| 0 <= i <= j < evs.len() ==> evs[i].clock <= evs[j].clock
}

/// What a reconstruction is asked to work on: events in order, each read on the local
/// clock too, all of them no later than `now`.
pub open spec fn reconstruct_input(evs: Seq<Event>, locals: Seq<i64>, now: int) -> bool {
    &&& evs.len() == locals.len()
    &&& sorted_by_clock(evs)
    &&& valid_instant(now)
    &&& forall|i: int| 0 <= i < evs.len() ==> valid_instant(#[trigger] evs[i].clock as int)
    &&& forall|i: int| 0 <= i < evs.len() ==> #[trigger] evs[i].clock <= now
}

/// The sum of the gross times of `ivs`.
pub open spec fn total_gross(ivs: Seq<Interval>) -> int
    decreases ivs.len(),
{
    if ivs.len() == 0 {
        0
    } else {
        total_gross(ivs.drop_last()) + ivs.last().work_time.gross.0
    }
}

/// Every interval is a session: net time between zero and its gross time.
pub open spec fn all_sessions(ivs: Seq<Interval>) -> bool {
    forall|i: int| 0 <= i < ivs.len() ==> (#[trigger] ivs[i]).work_time.is_session()
}

/// The outcome of a reconstruction: the work sessions, and the indices of the events
/// that were discarded as out of order.
pub struct Reconstruction {
    pub intervals: Vec<Interval>,
    pub anomalies: Vec<usize>,
}

/// The instant up to which the first `n` events have been accounted for: the pending
/// In if there is one, else the last event seen.
spec fn scan_mark(evs: Seq<Event>, n: int) -> int {
    if n <= 0 {
        evs[0].clock as int
    } else {
        match scan_state(evs, n).1 {
            Some(p) => evs[p].clock as int,
            None => evs[n - 1].clock as int,
        }
    }
}

proof fn lemma_scan_state_shape(evs: Seq<Event>, n: int)
    ensures
        ({
            let st = scan_state(evs, n);
            &&& st.0 == EventType::In || st.0 == EventType::Out
            &&& st.0 == EventType::Out <==> st.1 is Some
            &&& st.2 ==> st.0 == EventType::In
            &&& st.1 matches Some(p) ==> 0 <= p < n && evs[p].event_type == EventType::In
        }),
    decreases n,
{
    if n > 0 {
        lemma_scan_state_shape(evs, n - 1);
    }
}

/// Turns events, in ascending order of their instants, into work sessions. An Out
/// before any accepted event is dropped silently (its In lies before the window); any
/// later event of the wrong type is dropped with a diagnostic and changes nothing; an
/// In still open at the end yields a session that runs to `now`.
pub fn reconstruct(events: &Vec<Event>, local_clocks: &Vec<i64>, now: i64, overhead: i64) -> (r:
    Reconstruction)
    requires
        reconstruct_input(events@, local_clocks@, now as int),
        0 <= overhead,
    ensures
        r.intervals@ == intervals_of(events@, local_clocks@, now as int, overhead as int),
        r.anomalies@.map_values(|i: usize| i as int) == anomalies(events@, events@.len() as int),
        all_sessions(r.intervals@),
        total_gross(r.intervals@) <= if events@.len() == 0 {
            0
        } else {
            now - events@[0].clock
        },
{
    let ghost evs = events@;
    let ghost locals = local_clocks@;
    let mut expected = EventType::In;
    let mut pending: Option<usize> = None;
    let mut lead_in = true;
    let mut intervals: Vec<Interval> = Vec::new();
    let mut diagnostics: Vec<usize> = Vec::new();
    let n = events.len();
    let mut i: usize = 0;
    while i < n
        invariant
            n == evs.len(),
            evs == events@,
            locals == local_clocks@,
            reconstruct_input(evs, locals, now as int),
            0 <= overhead,
            0 <= i <= n,
            scan_state(evs, i as int) == (
            expected,
            match pending {
                Some(p) => Some(p as int),
                None => None,
            },
            lead_in,
            ),
            intervals@ == closed_intervals(evs, locals, overhead as int, i as int),
            diagnostics@.map_values(|k: usize| k as int) == anomalies(evs, i as int),
            all_sessions(intervals@),
            total_gross(intervals@) <= scan_mark(evs, i as int) - evs[0].clock,
        decreases n - i,
    {
        proof {
            lemma_scan_state_shape(evs, i as int);
        }
        let ghost prev_diag = diagnostics@;
        let ghost prev_ivs = intervals@;
        let event = &events[i];
        assert(i > 0 ==> evs[i - 1].clock <= evs[i as int].clock);
        if lead_in && event.event_type == EventType::Out {
        } else if event.event_type == EventType::Note {
        } else if event.event_type != expected {
            diagnostics.push(i);
            assert(diagnostics@.map_values(|k: usize| k as int) =~= prev_diag.map_values(
                |k: usize| k as int,
            ).push(i as int));
        } else {
            lead_in = false;
            if event.event_type == EventType::In {
                pending = Some(i);
                expected = EventType::Out;
            } else {
                let p = pending.unwrap();
                let interval = Interval::new(
                    local_clocks[p],
                    events[p].clock,
                    event.clock,
                    overhead,
                );
                intervals.push(interval);
                assert(intervals@.drop_last() =~= prev_ivs);
                pending = None;
                expected = EventType::In;
            }
        }
        i = i + 1;
        proof {
            assert(diagnostics@.map_values(|k: usize| k as int) =~= anomalies(evs, i as int));
        }
    }
    proof {
        lemma_scan_state_shape(evs, n as int);
    }
    let ghost prev_ivs = intervals@;
    if let Some(p) = pending {
        let interval = Interval::new(local_clocks[p], events[p].clock, now, overhead);
        intervals.push(interval);
        assert(intervals@.drop_last() =~= prev_ivs);
    } else if n > 0 {
        assert(evs[n - 1].clock <= now);
    }
    proof {
        assert(intervals@ =~= intervals_of(evs, locals, now as int, overhead as int));
    }
    Reconstruction { intervals, anomalies: diagnostics }
}

} // verus!

verus! {

/// A stream that alternates strictly: In at even positions, Out at odd ones.
pub open spec fn alternating(evs: Seq<Event>) -> bool {
    forall|i: int|
        0 <= i < evs.len() ==> #[trigger] evs[i].event_type == if i % 2 == 0 {
            EventType::In
        } else {
            EventType::Out
        }
}

/// The number of events of type `t` among the first `n`.
pub open spec fn count_type(evs: Seq<Event>, t: EventType, n: int) -> int
    decreases n,
{
    if n <= 0 {
        0
    } else {
        count_type(evs, t, n - 1) + if evs[n - 1].event_type == t {
            1int
        } else {
            0int
        }
    }
}

proof fn lemma_alternating_prefix(evs: Seq<Event>, locals: Seq<i64>, overhead: int, n: int)
    requires
        alternating(evs),
        0 <= n <= evs.len(),
    ensures
        scan_state(evs, n) == if n % 2 == 0 {
            (EventType::In, None, n == 0)
        } else {
            (EventType::Out, Some(n - 1), false)
        },
        anomalies(evs, n) == Seq::<int>::empty(),
        count_type(evs, EventType::Out, n) == n / 2,
        closed_intervals(evs, locals, overhead, n).len() == n / 2,
        forall|k: int|
            0 <= k < n / 2 ==> #[trigger] closed_intervals(evs, locals, overhead, n)[k]
                == interval_of(
                locals[2 * k] as int,
                evs[2 * k + 1].clock - evs[2 * k].clock,
                overhead,
            ),
    decreases n,
{
    if n > 0 {
        lemma_alternating_prefix(evs, locals, overhead, n - 1);
        assert(evs[n - 1].event_type == if (n - 1) % 2 == 0 {
            EventType::In
        } else {
            EventType::Out
        });
        let prev = closed_intervals(evs, locals, overhead, n - 1);
        let cur = closed_intervals(evs, locals, overhead, n);
        if (n - 1) % 2 == 1 {
            assert forall|k: int| 0 <= k < n / 2 implies #[trigger] cur[k] == interval_of(
                locals[2 * k] as int,
                evs[2 * k + 1].clock - evs[2 * k].clock,
                overhead,
            ) by {
                if k < (n - 1) / 2 {
                    assert(cur[k] == prev[k]);
                }
            }
        }
    }
}

/// In a strictly alternating stream In, Out, In, Out, … nothing is discarded, and the
/// sessions closed are as many as the Out events, the k-th running from the k-th In to
/// the k-th Out. A stream that ends on an Out leaves no session open.
pub proof fn law_alternating_stream(evs: Seq<Event>, locals: Seq<i64>, now: int, overhead: int)
    requires
        alternating(evs),
        evs.len() == locals.len(),
        forall|i: int| 0 <= i < evs.len() ==> valid_instant(#[trigger] evs[i].clock as int),
    ensures
        anomalies(evs, evs.len() as int) == Seq::<int>::empty(),
        closed_intervals(evs, locals, overhead, evs.len() as int).len() == count_type(
            evs,
            EventType::Out,
            evs.len() as int,
        ),
        forall|k: int|
            0 <= k < evs.len() / 2 ==> (#[trigger] closed_intervals(
                evs,
                locals,
                overhead,
                evs.len() as int,
            )[k]).work_time.gross.0 == evs[2 * k + 1].clock - evs[2 * k].clock,
        forall|k: int|
            0 <= k < evs.len() / 2 ==> #[trigger] closed_intervals(
                evs,
                locals,
                overhead,
                evs.len() as int,
            )[k] == interval_of(
                locals[2 * k] as int,
                evs[2 * k + 1].clock - evs[2 * k].clock,
                overhead,
            ),
        evs.len() % 2 == 0 ==> intervals_of(evs, locals, now, overhead) == closed_intervals(
            evs,
            locals,
            overhead,
            evs.len() as int,
        ),
{
    lemma_alternating_prefix(evs, locals, overhead, evs.len() as int);
    let closed = closed_intervals(evs, locals, overhead, evs.len() as int);
    assert forall|k: int| 0 <= k < evs.len() / 2 implies (#[trigger] closed[k]).work_time.gross.0
        == evs[2 * k + 1].clock - evs[2 * k].clock by {
        assert(closed[k] == interval_of(
            locals[2 * k] as int,
            evs[2 * k + 1].clock - evs[2 * k].clock,
            overhead,
        ));
        assert(valid_instant(evs[2 * k + 1].clock as int) && valid_instant(evs[2 * k].clock as int));
    }
    if evs.len() % 2 == 0 {
        assert(intervals_of(evs, locals, now, overhead) =~= closed);
    }
}

/// At most one session is left open, and only by a pending In: it then ends at the
/// evaluation instant `now`, and comes last. Without a pending In no session is open.
/// In particular a stream whose last event is an accepted In ends with the session
/// from that In to `now`; and without a pending In the sessions, hence the day and
/// week buckets, do not depend on the evaluation instant.
pub proof fn law_open_session(evs: Seq<Event>, locals: Seq<i64>, now: int, overhead: int)
    ensures
        scan_state(evs, evs.len() as int).1 is None ==> forall|later: int|
            #[trigger] intervals_of(evs, locals, later, overhead) == intervals_of(
                evs,
                locals,
                now,
                overhead,
            ),
        ({
            let all = intervals_of(evs, locals, now, overhead);
            let closed = closed_intervals(evs, locals, overhead, evs.len() as int);
            match scan_state(evs, evs.len() as int).1 {
                Some(p) => {
                    &&& evs[p].event_type == EventType::In
                    &&& all.len() == closed.len() + 1
                    &&& all.last() == interval_of(locals[p] as int, now - evs[p].clock, overhead)
                },
                None => all == closed,
            }
        }),
        evs.len() > 0 && evs.last().event_type == EventType::In && accepted(
            evs,
            evs.len() - 1,
        ) ==> intervals_of(evs, locals, now, overhead).last() == interval_of(
            locals[evs.len() - 1] as int,
            now - evs.last().clock,
            overhead,
        ),
{
    lemma_scan_state_shape(evs, evs.len() as int);
    let closed = closed_intervals(evs, locals, overhead, evs.len() as int);
    if scan_state(evs, evs.len() as int).1 is None {
        assert(intervals_of(evs, locals, now, overhead) =~= closed);
        assert forall|later: int| #[trigger] intervals_of(evs, locals, later, overhead)
            == intervals_of(evs, locals, now, overhead) by {
            assert(intervals_of(evs, locals, later, overhead) =~= closed);
        }
    }
}

/// An Out met in the lead-in is dropped silently: no session, no diagnostic, no change
/// of state. After the lead-in, an In or Out of the wrong type is dropped with a
/// diagnostic, and the expected type and the pending In stay as they were.
pub proof fn law_discarded_events(evs: Seq<Event>, locals: Seq<i64>, overhead: int, i: int)
    requires
        0 <= i < evs.len(),
    ensures
        scan_state(evs, i).2 && evs[i].event_type == EventType::Out ==> {
            &&& scan_state(evs, i + 1) == scan_state(evs, i)
            &&& anomalies(evs, i + 1) == anomalies(evs, i)
            &&& closed_intervals(evs, locals, overhead, i + 1) == closed_intervals(
                evs,
                locals,
                overhead,
                i,
            )
        },
        !scan_state(evs, i).2 && evs[i].event_type != EventType::Note && evs[i].event_type
            != scan_state(evs, i).0 ==> {
            &&& scan_state(evs, i + 1) == scan_state(evs, i)
            &&& anomalies(evs, i + 1) == anomalies(evs, i).push(i)
            &&& closed_intervals(evs, locals, overhead, i + 1) == closed_intervals(
                evs,
                locals,
                overhead,
                i,
            )
        },
{
    lemma_scan_state_shape(evs, i);
}

} // verus!

verus! {

proof fn lemma_closed_starts(
    evs: Seq<Event>,
    locals: Seq<i64>,
    overhead: int,
    n: int,
    lo: int,
    hi: int,
)
    requires
        evs.len() == locals.len(),
        0 <= n <= evs.len(),
        forall|i: int| 0 <= i < locals.len() ==> lo <= #[trigger] locals[i] <= hi,
    ensures
        forall|k: int|
            0 <= k < closed_intervals(evs, locals, overhead, n).len() ==> lo <= (
            #[trigger] closed_intervals(evs, locals, overhead, n)[k]).start <= hi,
    decreases n,
{
    if n > 0 {
        lemma_closed_starts(evs, locals, overhead, n - 1, lo, hi);
        lemma_scan_state_shape(evs, n - 1);
        let prev = closed_intervals(evs, locals, overhead, n - 1);
        let cur = closed_intervals(evs, locals, overhead, n);
        assert forall|k: int| 0 <= k < cur.len() implies lo <= (#[trigger] cur[k]).start <= hi by {
            if k < prev.len() {
                assert(cur[k] == prev[k]);
            }
        }
    }
}

/// Every session starts at the local reading of one of the events.
pub proof fn lemma_interval_starts(
    evs: Seq<Event>,
    locals: Seq<i64>,
    now: int,
    overhead: int,
    lo: int,
    hi: int,
)
    requires
        evs.len() == locals.len(),
        forall|i: int| 0 <= i < locals.len() ==> lo <= #[trigger] locals[i] <= hi,
    ensures
        forall|k: int|
            0 <= k < intervals_of(evs, locals, now, overhead).len() ==> lo <= (
            #[trigger] intervals_of(evs, locals, now, overhead)[k]).start <= hi,
{
    lemma_closed_starts(evs, locals, overhead, evs.len() as int, lo, hi);
    lemma_scan_state_shape(evs, evs.len() as int);
    let closed = closed_intervals(evs, locals, overhead, evs.len() as int);
    let all = intervals_of(evs, locals, now, overhead);
    assert forall|k: int| 0 <= k < all.len() implies lo <= (#[trigger] all[k]).start <= hi by {
        if k < closed.len() {
            assert(all[k] == closed[k]);
        }
    }
}

} // verus!

verus! {

/// `st` with its pending index moved one place on.
spec fn shifted(st: (EventType, Option<int>, bool)) -> (EventType, Option<int>, bool) {
    (
        st.0,
        match st.1 {
            Some(p) => Some(p + 1),
            None => None,
        },
        st.2,
    )
}

proof fn lemma_leading_out(
    evs: Seq<Event>,
    locals: Seq<i64>,
    e: Event,
    l: i64,
    overhead: int,
    n: int,
)
    requires
        e.event_type == EventType::Out,
        evs.len() == locals.len(),
        0 <= n <= evs.len(),
    ensures
        scan_state(seq![e] + evs, n + 1) == shifted(scan_state(evs, n)),
        closed_intervals(seq![e] + evs, seq![l] + locals, overhead, n + 1) == closed_intervals(
            evs,
            locals,
            overhead,
            n,
        ),
        anomalies(seq![e] + evs, n + 1) == anomalies(evs, n).map_values(|i: int| i + 1),
    decreases n,
{
    let ev2 = seq![e] + evs;
    let lo2 = seq![l] + locals;
    lemma_scan_state_shape(evs, n);
    if n == 0 {
        assert(ev2[0] == e);
        assert(scan_state(ev2, 0) == (EventType::In, None::<int>, true));
        assert(!accepted(ev2, 0));
        assert(!is_anomaly(ev2, 0));
        assert(closed_intervals(ev2, lo2, overhead, 0) == Seq::<Interval>::empty());
        assert(anomalies(ev2, 0) == Seq::<int>::empty());
        assert(anomalies(evs, 0).map_values(|i: int| i + 1) =~= Seq::<int>::empty());
    } else {
        lemma_leading_out(evs, locals, e, l, overhead, n - 1);
        lemma_scan_state_shape(evs, n - 1);
        assert(ev2[n] == evs[n - 1]);
        let st = scan_state(evs, n - 1);
        assert(scan_state(ev2, n) == shifted(st));
        assert(accepted(ev2, n) == accepted(evs, n - 1));
        assert(is_anomaly(ev2, n) == is_anomaly(evs, n - 1));
        if accepted(evs, n - 1) && evs[n - 1].event_type == EventType::Out {
            let p = st.1.unwrap();
            assert(scan_state(ev2, n).1.unwrap() == p + 1);
            assert(ev2[p + 1] == evs[p]);
            assert(lo2[p + 1] == locals[p]);
        }
        assert(anomalies(evs, n).map_values(|i: int| i + 1) =~= if is_anomaly(evs, n - 1) {
            anomalies(evs, n - 1).map_values(|i: int| i + 1).push(n)
        } else {
            anomalies(evs, n - 1).map_values(|i: int| i + 1)
        });
    }
}

/// An Out that comes before every other event (the end of a session that began before
/// the window) changes nothing: the stream with it yields the same sessions as the
/// stream without it, hence the same day and week buckets, and no diagnostic for it.
pub proof fn law_leading_out_dropped(
    evs: Seq<Event>,
    locals: Seq<i64>,
    e: Event,
    l: i64,
    now: int,
    overhead: int,
)
    requires
        e.event_type == EventType::Out,
        evs.len() == locals.len(),
    ensures
        intervals_of(seq![e] + evs, seq![l] + locals, now, overhead) == intervals_of(
            evs,
            locals,
            now,
            overhead,
        ),
        anomalies(seq![e] + evs, evs.len() + 1int) == anomalies(evs, evs.len() as int).map_values(
            |i: int| i + 1,
        ),
        !anomalies(seq![e] + evs, evs.len() + 1int).contains(0),
{
    let ev2 = seq![e] + evs;
    let lo2 = seq![l] + locals;
    lemma_leading_out(evs, locals, e, l, overhead, evs.len() as int);
    assert(ev2.len() == evs.len() + 1);
    match scan_state(evs, evs.len() as int).1 {
        Some(p) => {
            lemma_scan_state_shape(evs, evs.len() as int);
            assert(ev2[p + 1] == evs[p]);
            assert(lo2[p + 1] == locals[p]);
        },
        None => {},
    }
    assert(open_interval(ev2, lo2, now, overhead) =~= open_interval(evs, locals, now, overhead));
    lemma_anomalies_bounds(evs, evs.len() as int);
    let a = anomalies(evs, evs.len() as int).map_values(|i: int| i + 1);
    if a.contains(0) {
        let k = choose|k: int| 0 <= k < a.len() && a[k] == 0;
        assert(anomalies(evs, evs.len() as int)[k] >= 0);
    }
}

proof fn lemma_anomalies_bounds(evs: Seq<Event>, n: int)
    requires
        0 <= n,
    ensures
        forall|k: int|
            0 <= k < anomalies(evs, n).len() ==> 0 <= #[trigger] anomalies(evs, n)[k] < n,
    decreases n,
{
    if n > 0 {
        lemma_anomalies_bounds(evs, n - 1);
        let prev = anomalies(evs, n - 1);
        assert forall|k: int| 0 <= k < anomalies(evs, n).len() implies 0 <= #[trigger] anomalies(
            evs,
            n,
        )[k] < n by {
            if k < prev.len() {
                assert(anomalies(evs, n)[k] == prev[k]);
            }
        }
    }
}

} // verus!
