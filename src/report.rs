use vstd::prelude::*;

use crate::calendar::{
    bucket_key, bucket_map, buckets, day_of, day_of_instant, days_from_monday, law_range_exact,
    law_range_filled, lists, monday_of_week, week_of, week_of_day, weekday_of,
};
use crate::clock::{iso_week_label, iso_week_of, to_local, to_utc};
use crate::models::{DatabaseError, Event, EventType, Project, PunchDirection};
use crate::punch::{direction_after, next_expected_punch_direction, type_of};
use crate::reconstruct::{
    anomalies, intervals_of, lemma_interval_starts, reconstruct, reconstruct_input, sorted_by_clock,
};
use crate::time::{
    valid_instant, valid_local, Interval, WorkTime, MAX_INSTANT, SECONDS_PER_DAY, SECONDS_PER_MINUTE,
};

verus! {

/// How many whole weeks before the current one a report covers.
pub const START_WEEKS_IN_PAST: i64 = 5;

/// How many of the most recent events a report lists.
pub const MAX_REPORT_EVENTS: usize = 10;

/// The days that a report can be made for (days since 1970-01-01, about 68,000 years
/// either way).
pub const MAX_TODAY: i64 = 25_000_000;

/// An ISO week: the day number of its Monday, and its ISO year and week number.
#[derive(Clone, Copy, Debug, PartialEq, Eq, Structural)]
pub struct Week {
    pub monday: i64,
    pub year: i32,
    pub week: u32,
}

/// Work activity over recent days and weeks, newest first, with the most recent events.
pub struct SummaryReport {
    pub next_direction: PunchDirection,
    pub days: Vec<(i64, WorkTime)>,
    pub weeks: Vec<(Week, WorkTime)>,
    pub recent_events: Vec<Event>,
    /// The indices (into the events reported on) of the events discarded as out of
    /// order.
    pub anomalies: Vec<usize>,
}

/// The first day a report covers: the Monday on or before `today` less five weeks.
pub open spec fn start_day_of(today: int) -> int {
    let d = today - 7 * START_WEEKS_IN_PAST;
    d - weekday_of(d)
}

/// The last `keep` elements of `s` (all of them if it is shorter), last first.
pub open spec fn newest<T>(s: Seq<T>, keep: int) -> Seq<T> {
    let n = if keep < s.len() {
        keep
    } else {
        s.len() as int
    };
    Seq::new(n as nat, |i: int| s[s.len() - 1 - i])
}

/// `w` is the week whose bucket is `k`, with its ISO label.
pub open spec fn labels(w: Week, k: int) -> bool {
    &&& w.monday == monday_of_week(k)
    &&& (w.year as int, w.week as int) == iso_week_of(monday_of_week(k))
}

/// The sessions of `ivs`, gathered by day over `start_day_of(today)..=today` and over
/// the days that hold a session, of which the `days_from_monday(today) + 1` newest are
/// kept, newest first.
pub open spec fn days_match(days: Seq<(i64, WorkTime)>, ivs: Seq<Interval>, today: int) -> bool {
    exists|s: Seq<(i64, WorkTime)>|
        lists(s, bucket_map(ivs, false, start_day_of(today), today)) && days == newest(
            s,
            weekday_of(today) + 1,
        )
}

/// The sessions of `ivs`, gathered by week over the weeks from that of
/// `start_day_of(today)` to that of `today` and over the weeks that hold a session,
/// newest first.
pub open spec fn weeks_match(weeks: Seq<(Week, WorkTime)>, ivs: Seq<Interval>, today: int) -> bool {
    exists|s: Seq<(i64, WorkTime)>|
        lists(s, bucket_map(ivs, true, week_of(start_day_of(today)), week_of(today))) && weeks.len()
            == s.len() && forall|i: int|
            0 <= i < weeks.len() ==> labels(#[trigger] weeks[i].0, s[s.len() - 1 - i].0 as int)
                && weeks[i].1 == s[s.len() - 1 - i].1
}

/// The report on the events `evs` (each read `locals[i]` on the local clock) at the
/// UTC instant `now`, on the local day `today`, with `overhead_minutes` of overhead per
/// session, after the last stored In or Out `last`.
pub open spec fn report_matches(
    r: SummaryReport,
    last: Option<Event>,
    evs: Seq<Event>,
    locals: Seq<i64>,
    now: int,
    today: int,
    overhead_minutes: int,
) -> bool {
    let ivs = intervals_of(evs, locals, now, overhead_minutes * SECONDS_PER_MINUTE);
    &&& r.next_direction == direction_after(type_of(last))
    &&& days_match(r.days@, ivs, today)
    &&& weeks_match(r.weeks@, ivs, today)
    &&& r.recent_events@ == newest(evs, MAX_REPORT_EVENTS as int)
    &&& r.anomalies@.map_values(|i: usize| i as int) == anomalies(evs, evs.len() as int)
}

/// What a report is asked to work on.
pub open spec fn report_input(
    last: Option<Event>,
    evs: Seq<Event>,
    locals: Seq<i64>,
    now: int,
    today: int,
    overhead_minutes: int,
) -> bool {
    &&& reconstruct_input(evs, locals, now)
    &&& forall|i: int| 0 <= i < locals.len() ==> valid_local(#[trigger] locals[i] as int)
    &&& -MAX_TODAY <= today <= MAX_TODAY
    &&& 0 <= overhead_minutes
    &&& last matches Some(e) ==> e.event_type != EventType::Note
}

/// The first day that a report on `today` covers: the Monday on or before `today` less
/// five weeks.
pub fn start_day(today: i64) -> (r: i64)
    requires
        -MAX_TODAY <= today <= MAX_TODAY,
    ensures
        r == start_day_of(today as int),
        weekday_of(r as int) == 0,
        today - 41 <= r <= today - 35,
        week_of(r as int) == week_of(today as int) - START_WEEKS_IN_PAST,
{
    let d = today - 7 * START_WEEKS_IN_PAST;
    let r = d - days_from_monday(d);
    proof {
        lemma_start_day(today as int);
    }
    r
}

proof fn lemma_start_day(today: int)
    ensures
        weekday_of(start_day_of(today)) == 0,
        week_of(start_day_of(today)) == week_of(today) - START_WEEKS_IN_PAST,
        0 <= weekday_of(today - 35) < 7,
{
    let d = today - 35;
    let q = (d + 3) / 7;
    vstd::arithmetic::div_mod::lemma_fundamental_div_mod(d + 3, 7);
    assert(start_day_of(today) + 3 == 7 * q);
    vstd::arithmetic::div_mod::lemma_mod_multiples_basic(q, 7);
    assert(7 * q == q * 7);
    vstd::arithmetic::div_mod::lemma_div_multiples_vanish(q, 7);
    vstd::arithmetic::div_mod::lemma_hoist_over_denominator(d + 3, 5, 7);
    assert(d + 3 + 5 * 7 == today + 3);
}

/// The sessions that a report accounts for.
pub open spec fn report_intervals(
    evs: Seq<Event>,
    locals: Seq<i64>,
    now: int,
    overhead_minutes: int,
) -> Seq<Interval> {
    intervals_of(evs, locals, now, overhead_minutes * SECONDS_PER_MINUTE)
}

/// Every session starts on a day in `start_day_of(today)..=today`.
pub open spec fn sessions_in_window(ivs: Seq<Interval>, today: int) -> bool {
    forall|k: int|
        0 <= k < ivs.len() ==> start_day_of(today) <= #[trigger] day_of(ivs[k].start as int)
            <= today
}

/// The last `keep` elements of `s` (all of them if it is shorter), last first.
pub fn newest_first<T: Copy>(s: &Vec<T>, keep: usize) -> (r: Vec<T>)
    ensures
        r@ == newest(s@, keep as int),
{
    let len = s.len();
    let n = if keep < len {
        keep
    } else {
        len
    };
    let mut r: Vec<T> = Vec::new();
    let mut i: usize = 0;
    while i < n
        invariant
            len == s@.len(),
            n == if keep < len {
                keep
            } else {
                len
            },
            i <= n,
            r@.len() == i,
            forall|j: int| 0 <= j < i ==> r@[j] == s@[len - 1 - j],
        decreases n - i,
    {
        r.push(s[len - 1 - i]);
        i = i + 1;
    }
    assert(r@ =~= newest(s@, keep as int));
    r
}

/// The UTC instant at which a report on `today` starts: midnight, local time, of its
/// first day. `BadTime` when that midnight is skipped or repeated by the time zone.
pub fn report_start_utc(today: i64) -> (r: Result<i64, DatabaseError>)
    requires
        -MAX_TODAY <= today <= MAX_TODAY,
    ensures
        r matches Err(e) ==> e == DatabaseError::BadTime,
        r matches Ok(u) ==> start_day_of(today as int) * SECONDS_PER_DAY - SECONDS_PER_DAY < u
            < start_day_of(today as int) * SECONDS_PER_DAY + SECONDS_PER_DAY,
{
    let first = start_day(today);
    to_utc(first * SECONDS_PER_DAY)
}

proof fn lemma_key_bounds(t: int)
    requires
        valid_local(t),
    ensures
        -30_000_000 <= day_of(t) <= 30_000_000,
        -4_000_000 <= week_of(day_of(t)) <= 4_000_000,
{
    vstd::arithmetic::div_mod::lemma_div_is_ordered(t, 2 * MAX_INSTANT, SECONDS_PER_DAY as int);
    vstd::arithmetic::div_mod::lemma_div_is_ordered(-2 * MAX_INSTANT, t, SECONDS_PER_DAY as int);
    let d = day_of(t);
    vstd::arithmetic::div_mod::lemma_div_is_ordered(d + 3, 30_000_003, 7);
    vstd::arithmetic::div_mod::lemma_div_is_ordered(-29_999_997, d + 3, 7);
}

/// Labels each week bucket with its Monday and ISO week, newest first.
fn label_weeks(list: &Vec<(i64, WorkTime)>) -> (r: Vec<(Week, WorkTime)>)
    requires
        forall|i: int| 0 <= i < list@.len() ==> -4_000_000 <= #[trigger] list@[i].0 <= 4_000_000,
    ensures
        r@.len() == list@.len(),
        forall|i: int|
            0 <= i < r@.len() ==> labels(#[trigger] r@[i].0, list@[list@.len() - 1 - i].0 as int)
                && r@[i].1 == list@[list@.len() - 1 - i].1,
{
    let len = list.len();
    let mut r: Vec<(Week, WorkTime)> = Vec::new();
    let mut i: usize = 0;
    while i < len
        invariant
            len == list@.len(),
            forall|i: int| 0 <= i < list@.len() ==> -4_000_000 <= #[trigger] list@[i].0 <= 4_000_000,
            i <= len,
            r@.len() == i,
            forall|j: int|
                0 <= j < i ==> labels(#[trigger] r@[j].0, list@[len - 1 - j].0 as int) && r@[j].1
                    == list@[len - 1 - j].1,
        decreases len - i,
    {
        let (key, wt) = list[len - 1 - i];
        let monday = 7 * key - 3;
        let (year, week) = iso_week_label(monday);
        r.push((Week { monday, year, week }, wt));
        i = i + 1;
    }
    r
}

/// The report on `events` (ascending, each read `local_clocks[i]` on the local clock)
/// at the UTC instant `now`, on the local day `today`, with `overhead_minutes` deducted
/// from each session, after the last stored In or Out `last_event`.
///
/// The days of the current week are listed, newest first: as many as the days since
/// Monday, plus one. The weeks from five weeks back to the current one are listed,
/// newest first: six of them, and more only if a session starts outside that window.
/// The ten most recent events are listed, newest first, and the events discarded as out
/// of order are listed by index.
pub fn build_report(
    last_event: &Option<Event>,
    events: &Vec<Event>,
    local_clocks: &Vec<i64>,
    now: i64,
    today: i64,
    overhead_minutes: i32,
) -> (r: SummaryReport)
    requires
        report_input(
            *last_event,
            events@,
            local_clocks@,
            now as int,
            today as int,
            overhead_minutes as int,
        ),
    ensures
        report_matches(
            r,
            *last_event,
            events@,
            local_clocks@,
            now as int,
            today as int,
            overhead_minutes as int,
        ),
        r.days@.len() == weekday_of(today as int) + 1,
        r.weeks@.len() >= START_WEEKS_IN_PAST + 1,
        r.recent_events@.len() == if events@.len() < MAX_REPORT_EVENTS {
            events@.len()
        } else {
            MAX_REPORT_EVENTS as nat
        },
        forall|i: int|
            0 <= i < r.recent_events@.len() ==> #[trigger] r.recent_events@[i] == events@[events@.len()
                - 1 - i],
        sessions_in_window(
            report_intervals(events@, local_clocks@, now as int, overhead_minutes as int),
            today as int,
        ) ==> {
            &&& r.weeks@.len() == START_WEEKS_IN_PAST + 1
            &&& forall|i: int| 0 <= i < r.days@.len() ==> #[trigger] r.days@[i].0 == today - i
        },
{
    let ghost evs = events@;
    let ghost locals = local_clocks@;
    let next_direction = next_expected_punch_direction(last_event);
    let overhead = overhead_minutes as i64 * SECONDS_PER_MINUTE;
    let rec = reconstruct(events, local_clocks, now, overhead);
    let ghost ivs = rec.intervals@;
    assert(ivs == report_intervals(evs, locals, now as int, overhead_minutes as int));
    let first = start_day(today);
    let day_list = buckets(&rec.intervals, false, first, today);
    let week_first = week_of_day(first);
    let week_last = week_of_day(today);
    let week_list = buckets(&rec.intervals, true, week_first, week_last);
    let keep = (days_from_monday(today) + 1) as usize;
    let days = newest_first(&day_list, keep);
    proof {
        law_range_filled(ivs, false, first as int, today as int, day_list@);
        law_range_filled(ivs, true, week_first as int, week_last as int, week_list@);
        lemma_interval_starts(evs, locals, now as int, overhead as int, -2 * MAX_INSTANT, 2
            * MAX_INSTANT);
        let m = bucket_map(ivs, true, week_first as int, week_last as int);
        assert forall|i: int| 0 <= i < week_list@.len() implies -4_000_000 <= #[trigger] week_list@[i].0
            <= 4_000_000 by {
            let k = week_list@[i].0 as int;
            assert(m.contains_key(k));
            if !(week_first <= k <= week_last) {
                let j = choose|j: int| 0 <= j < ivs.len() && bucket_key(ivs[j].start, true) == k;
                lemma_key_bounds(ivs[j].start as int);
            }
        }
    }
    let weeks = label_weeks(&week_list);
    let recent_events = newest_first(events, MAX_REPORT_EVENTS);
    let r = SummaryReport { next_direction, days, weeks, recent_events, anomalies: rec.anomalies };
    proof {
        assert(weeks_match(r.weeks@, ivs, today as int));
        assert(days_match(r.days@, ivs, today as int));
        if sessions_in_window(ivs, today as int) {
            assert forall|k: int| 0 <= k < ivs.len() implies first <= #[trigger] bucket_key(
                ivs[k].start,
                false,
            ) <= today by {
                assert(start_day_of(today as int) <= day_of(ivs[k].start as int) <= today);
            }
            assert forall|k: int| 0 <= k < ivs.len() implies week_first <= #[trigger] bucket_key(
                ivs[k].start,
                true,
            ) <= week_last by {
                let d = day_of(ivs[k].start as int);
                assert(start_day_of(today as int) <= d <= today);
                vstd::arithmetic::div_mod::lemma_div_is_ordered(first + 3, d + 3, 7);
                vstd::arithmetic::div_mod::lemma_div_is_ordered(d + 3, today + 3, 7);
            }
            law_range_exact(ivs, false, first as int, today as int, day_list@);
            law_range_exact(ivs, true, week_first as int, week_last as int, week_list@);
        }
    }
    r
}

proof fn lemma_today_bound(t: int)
    requires
        -MAX_INSTANT - SECONDS_PER_DAY <= t <= MAX_INSTANT + SECONDS_PER_DAY,
    ensures
        -MAX_TODAY <= day_of(t) <= MAX_TODAY,
{
    vstd::arithmetic::div_mod::lemma_div_is_ordered(
        t,
        MAX_INSTANT + SECONDS_PER_DAY,
        SECONDS_PER_DAY as int,
    );
    vstd::arithmetic::div_mod::lemma_div_is_ordered(
        -MAX_INSTANT - SECONDS_PER_DAY,
        t,
        SECONDS_PER_DAY as int,
    );
}

/// Today's date on this machine's local clock, read once for a report made at the UTC
/// instant `now`: the day of a local reading less than a day from `now`.
pub fn local_today(now: i64) -> (r: i64)
    requires
        valid_instant(now as int),
    ensures
        -MAX_TODAY <= r <= MAX_TODAY,
        exists|local: int|
            now - SECONDS_PER_DAY < local < now + SECONDS_PER_DAY && r == day_of(local),
{
    let local_now = to_local(now);
    proof {
        lemma_today_bound(local_now as int);
    }
    day_of_instant(local_now)
}

/// The report on a project's events (ascending) at the UTC instant `now`, on the local
/// day `today` (see `local_today`), after the last stored In or Out `last_event`. Each
/// event is read on this machine's local clock, less than a day from its UTC instant.
/// `BadProject` when there is no project.
pub fn summary_report(
    project: &Option<Project>,
    last_event: &Option<Event>,
    events: &Vec<Event>,
    now: i64,
    today: i64,
) -> (r: Result<SummaryReport, DatabaseError>)
    requires
        sorted_by_clock(events@),
        valid_instant(now as int),
        forall|i: int| 0 <= i < events@.len() ==> valid_instant(#[trigger] events@[i].clock as int),
        forall|i: int| 0 <= i < events@.len() ==> #[trigger] events@[i].clock <= now,
        -MAX_TODAY <= today <= MAX_TODAY,
        project matches Some(p) ==> p.overhead >= 0,
        last_event matches Some(e) ==> e.event_type != EventType::Note,
    ensures
        r is Err <==> project is None,
        r matches Err(e) ==> e == DatabaseError::BadProject,
        r matches Ok(rep) ==> exists|locals: Seq<i64>|
            {
                &&& locals.len() == events@.len()
                &&& forall|i: int|
                    0 <= i < locals.len() ==> events@[i].clock - SECONDS_PER_DAY < #[trigger] locals[i]
                        < events@[i].clock + SECONDS_PER_DAY
                &&& report_matches(
                    rep,
                    *last_event,
                    events@,
                    locals,
                    now as int,
                    today as int,
                    project.unwrap().overhead as int,
                )
                &&& sessions_in_window(
                    report_intervals(events@, locals, now as int, project.unwrap().overhead as int),
                    today as int,
                ) ==> {
                    &&& rep.weeks@.len() == START_WEEKS_IN_PAST + 1
                    &&& forall|i: int|
                        0 <= i < rep.days@.len() ==> #[trigger] rep.days@[i].0 == today - i
                }
            },
        r matches Ok(rep) ==> rep.days@.len() == weekday_of(today as int) + 1,
        r matches Ok(rep) ==> rep.weeks@.len() >= START_WEEKS_IN_PAST + 1,
        r matches Ok(rep) ==> rep.recent_events@ == newest(events@, MAX_REPORT_EVENTS as int),
{
    let overhead_minutes = match project {
        Some(p) => p.overhead,
        None => {
            return Err(DatabaseError::BadProject);
        },
    };
    let mut local_clocks: Vec<i64> = Vec::new();
    let n = events.len();
    let mut i: usize = 0;
    while i < n
        invariant
            n == events@.len(),
            i <= n,
            local_clocks@.len() == i,
            forall|i: int| 0 <= i < events@.len() ==> valid_instant(#[trigger] events@[i].clock as int),
            forall|j: int|
                0 <= j < i ==> events@[j].clock - SECONDS_PER_DAY < #[trigger] local_clocks@[j]
                    < events@[j].clock + SECONDS_PER_DAY,
        decreases n - i,
    {
        let local = to_local(events[i].clock);
        local_clocks.push(local);
        i = i + 1;
    }
    let r = build_report(last_event, events, &local_clocks, now, today, overhead_minutes);
    proof {
        let locals = local_clocks@;
        assert(locals.len() == events@.len());
    }
    Ok(r)
}

} // verus!
