use vstd::prelude::*;

use rand::prng::XorShiftRng;
use rand::Rng;

use crate::calendar::{day_of, days_from_monday, weekday_of};
use crate::report::MAX_TODAY;
use crate::time::SECONDS_PER_DAY;

verus! {

/// The earliest a sample session starts: 07:00.
pub const EARLIEST_START: i64 = 25_200;

/// The last second of a day: 23:59:59.
pub const LAST_SECOND: i64 = 86_399;

/// The shortest sample session: one hour.
pub const MIN_SESSION: i64 = 3_600;

/// Sample sessions are shorter than six hours.
pub const MAX_SESSION: i64 = 21_600;

/// A sample working day holds at least seven hours, when it has room for them.
pub const MIN_TIME_PER_DAY: i64 = 25_200;

/// A sample session starts less than an hour after the previous one ends.
pub const MAX_FUZZ_TIME: i64 = 3_600;

/// The chance, in percent, of work on a Saturday or Sunday.
pub const WEEKEND_WORK_PERCENT: i64 = 30;

/// How many days back the sample data starts (then back to a Monday).
pub const START_DAYS_IN_PAST: i64 = 38;

#[verifier::external_type_specification]
#[verifier::external_body]
pub struct ExXorShiftRng(XorShiftRng);

/// Relies on rand's `SeedableRng::from_seed` for `XorShiftRng`: a generator whose
/// output is fixed by the seed (an all-zero seed is replaced by a preset one).
#[verifier::external_body]
fn seeded_rng(seed: [u8; 16]) -> (r: XorShiftRng) {
    rand::SeedableRng::from_seed(seed)
}

/// Relies on rand's `Rng::gen_range`: a value in `low..high`; it panics when
/// `low >= high`.
#[verifier::external_body]
fn gen_range(rng: &mut XorShiftRng, low: i64, high: i64) -> (r: i64)
    requires
        low < high,
    ensures
        low <= r < high,
{
    rng.gen_range(low, high)
}

/// The sum of the lengths of the sessions `s`.
pub open spec fn total_length(s: Seq<(i64, i64)>) -> int
    decreases s.len(),
{
    if s.len() == 0 {
        0
    } else {
        total_length(s.drop_last()) + (s.last().1 - s.last().0)
    }
}

/// Sessions (start, end), in seconds after midnight, that make a sample working day:
/// each from one to six hours, between 07:00 and 23:59:59, one after another.
pub open spec fn day_plan_ok(s: Seq<(i64, i64)>) -> bool {
    &&& forall|i: int|
        0 <= i < s.len() ==> EARLIEST_START <= (#[trigger] s[i]).0 && s[i].0 + MIN_SESSION <= s[i].1
            && s[i].1 < s[i].0 + MAX_SESSION && s[i].1 <= LAST_SECOND
    &&& forall|i: int, j: int| 0 <= i < j < s.len() ==> s[i].1 <= s[j].0
}

/// The sessions of one sample day. A weekend day is worked only now and then; a
/// worked day gets sessions, each starting up to an hour after the previous one,
/// until it holds seven hours. It never runs out of room: a session starts less than an
/// hour after the previous one ends, and lasts at least an hour, so seven hours are
/// reached well before midnight.
fn sample_day(rng: &mut XorShiftRng, weekend: bool) -> (r: Vec<(i64, i64)>)
    ensures
        day_plan_ok(r@),
        total_length(r@) < MIN_TIME_PER_DAY + MAX_SESSION,
        !weekend ==> total_length(r@) >= MIN_TIME_PER_DAY,
        r@.len() > 0 ==> total_length(r@) >= MIN_TIME_PER_DAY,
{
    let mut sessions: Vec<(i64, i64)> = Vec::new();
    if weekend {
        if gen_range(rng, 0, 100) >= WEEKEND_WORK_PERCENT {
            return sessions;
        }
    }
    let mut time_today: i64 = 0;
    let mut tod: i64 = EARLIEST_START;
    while time_today < MIN_TIME_PER_DAY
        invariant
            EARLIEST_START <= tod < LAST_SECOND,
            day_plan_ok(sessions@),
            forall|i: int| 0 <= i < sessions@.len() ==> (#[trigger] sessions@[i]).1 <= tod,
            0 <= time_today == total_length(sessions@),
            time_today < MIN_TIME_PER_DAY + MAX_SESSION,
            tod <= EARLIEST_START + time_today + sessions@.len() * MAX_FUZZ_TIME,
            sessions@.len() * MIN_SESSION <= time_today,
        ensures
            time_today >= MIN_TIME_PER_DAY,
            day_plan_ok(sessions@),
            time_today == total_length(sessions@),
            time_today < MIN_TIME_PER_DAY + MAX_SESSION,
        decreases LAST_SECOND - tod,
    {
        let left = LAST_SECOND - tod;
        let max_fuzz = if MAX_FUZZ_TIME < left {
            MAX_FUZZ_TIME
        } else {
            left
        };
        tod = tod + gen_range(rng, 0, max_fuzz);
        let start = tod;
        let left = LAST_SECOND - tod;
        if left < 60 {
            break ;
        }
        let max_session = if MAX_SESSION < left {
            MAX_SESSION
        } else {
            left
        };
        if max_session <= MIN_SESSION {
            break ;
        }
        let length = gen_range(rng, MIN_SESSION, max_session);
        tod = tod + length;
        let ghost before = sessions@;
        sessions.push((start, tod));
        proof {
            assert(sessions@.drop_last() =~= before);
        }
        time_today = time_today + length;
    }
    sessions
}

/// The total length of the sessions of `s` that start on day `d`.
pub open spec fn day_total(s: Seq<(i64, i64)>, d: int) -> int
    decreases s.len(),
{
    if s.len() == 0 {
        0
    } else {
        day_total(s.drop_last(), d) + if day_of(s.last().0 as int) == d {
            s.last().1 - s.last().0
        } else {
            0
        }
    }
}

/// The first day of the sample data: the Monday on or before `today` less 38 days.
pub open spec fn sample_first_day(today: int) -> int {
    (today - START_DAYS_IN_PAST) - weekday_of(today - START_DAYS_IN_PAST)
}

/// Sample sessions (start, end), as local instants, over the days from
/// `sample_first_day(today)` up to, not including, `today`: each from one to six
/// hours within one day, one after another. Every Monday to Friday holds at least
/// seven hours; a Saturday or Sunday is seldom worked, and then holds seven hours too.
/// The same seed gives the same sessions.
pub fn sample_sessions(seed: [u8; 16], today: i64) -> (r: Vec<(i64, i64)>)
    requires
        -MAX_TODAY <= today <= MAX_TODAY,
    ensures
        forall|i: int|
            0 <= i < r@.len() ==> {
                let d = day_of((#[trigger] r@[i]).0 as int);
                &&& sample_first_day(today as int) <= d < today
                &&& d * SECONDS_PER_DAY + EARLIEST_START <= r@[i].0
                &&& r@[i].0 + MIN_SESSION <= r@[i].1 < r@[i].0 + MAX_SESSION
                &&& r@[i].1 <= d * SECONDS_PER_DAY + LAST_SECOND
            },
        forall|i: int, j: int| 0 <= i < j < r@.len() ==> r@[i].1 <= r@[j].0,
        forall|d: int|
            sample_first_day(today as int) <= d < today && weekday_of(d) < 5 ==> #[trigger] day_total(
                r@,
                d,
            ) >= MIN_TIME_PER_DAY,
        forall|d: int|
            sample_first_day(today as int) <= d < today ==> #[trigger] day_total(r@, d) == 0
                || day_total(r@, d) >= MIN_TIME_PER_DAY,
{
    let mut rng = seeded_rng(seed);
    let back = today - START_DAYS_IN_PAST;
    let mut day = back - days_from_monday(back);
    let ghost first = day as int;
    let mut out: Vec<(i64, i64)> = Vec::new();
    while day < today
        invariant
            first == sample_first_day(today as int),
            first <= day,
            day <= today || day == first,
            -MAX_TODAY - START_DAYS_IN_PAST - 7 <= first,
            today <= MAX_TODAY,
            forall|i: int|
                0 <= i < out@.len() ==> {
                    let d = day_of((#[trigger] out@[i]).0 as int);
                    &&& first <= d < day
                    &&& d * SECONDS_PER_DAY + EARLIEST_START <= out@[i].0
                    &&& out@[i].0 + MIN_SESSION <= out@[i].1 < out@[i].0 + MAX_SESSION
                    &&& out@[i].1 <= d * SECONDS_PER_DAY + LAST_SECOND
                },
            forall|i: int, j: int| 0 <= i < j < out@.len() ==> out@[i].1 <= out@[j].0,
            forall|d: int|
                first <= d < day && weekday_of(d) < 5 ==> #[trigger] day_total(out@, d)
                    >= MIN_TIME_PER_DAY,
            forall|d: int|
                first <= d < day ==> #[trigger] day_total(out@, d) == 0 || day_total(out@, d)
                    >= MIN_TIME_PER_DAY,
            forall|d: int| d >= day ==> #[trigger] day_total(out@, d) == 0,
        decreases today - day,
    {
        let weekday = days_from_monday(day);
        let plan = sample_day(&mut rng, weekday >= 5);
        let base = day * SECONDS_PER_DAY;
        let mut k: usize = 0;
        let ghost out0 = out@;
        proof {
            assert(plan@.take(0) =~= Seq::<(i64, i64)>::empty());
        }
        while k < plan.len()
            invariant
                day_plan_ok(plan@),
                first <= day < today,
                -MAX_TODAY - START_DAYS_IN_PAST - 7 <= first,
                today <= MAX_TODAY,
                base == day * SECONDS_PER_DAY,
                k <= plan@.len(),
                out@.len() == out0.len() + k,
                forall|i: int| 0 <= i < out0.len() ==> out@[i] == out0[i],
                forall|i: int|
                    0 <= i < out0.len() ==> (#[trigger] out0[i]).1 <= base - SECONDS_PER_DAY
                        + LAST_SECOND,
                forall|i: int|
                    0 <= i < k ==> out@[out0.len() + i].0 == base + plan@[i].0 && out@[out0.len()
                        + i].1 == base + plan@[i].1,
                forall|i: int|
                    0 <= i < out@.len() ==> {
                        let d = day_of((#[trigger] out@[i]).0 as int);
                        &&& first <= d < day + 1
                        &&& d * SECONDS_PER_DAY + EARLIEST_START <= out@[i].0
                        &&& out@[i].0 + MIN_SESSION <= out@[i].1 < out@[i].0 + MAX_SESSION
                        &&& out@[i].1 <= d * SECONDS_PER_DAY + LAST_SECOND
                    },
                forall|i: int, j: int| 0 <= i < j < out@.len() ==> out@[i].1 <= out@[j].0,
                forall|d: int| d != day ==> #[trigger] day_total(out@, d) == day_total(out0, d),
                day_total(out@, day as int) == total_length(plan@.take(k as int)),
            decreases plan@.len() - k,
        {
            let (s, e) = plan[k];
            proof {
                assert(EARLIEST_START <= plan@[k as int].0);
                let x = base + s;
                vstd::arithmetic::div_mod::lemma_div_multiples_vanish_fancy(
                    day as int,
                    s as int,
                    SECONDS_PER_DAY as int,
                );
                assert(day_of(x) == day);
                assert forall|i: int| 0 <= i < out@.len() implies out@[i].1 <= base + s by {
                    if i < out0.len() {
                        assert(out@[i] == out0[i]);
                        assert(out0[i].1 <= base - SECONDS_PER_DAY + LAST_SECOND);
                    } else {
                        let t = i - out0.len();
                        assert(plan@[t].1 <= plan@[k as int].0);
                    }
                }
            }
            let ghost prev = out@;
            out.push((base + s, base + e));
            proof {
                assert(out@.drop_last() =~= prev);
                assert(plan@.take(k + 1).drop_last() =~= plan@.take(k as int));
                assert forall|d: int| d != day implies #[trigger] day_total(out@, d) == day_total(
                    out0,
                    d,
                ) by {
                    assert(day_total(out@, d) == day_total(prev, d));
                }
                assert forall|i: int, j: int| 0 <= i < j < out@.len() implies out@[i].1 <= out@[j].0 by {
                    if j < prev.len() {
                        assert(out@[i] == prev[i] && out@[j] == prev[j]);
                    } else {
                        assert(out@[i] == prev[i]);
                    }
                }
            }
            k = k + 1;
        }
        proof {
            assert(plan@.take(plan@.len() as int) =~= plan@);
        }
        day = day + 1;
    }
    out
}

} // verus!
