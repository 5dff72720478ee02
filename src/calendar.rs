use vstd::prelude::*;

use crate::reconstruct::{all_sessions, total_gross};
use crate::time::{Interval, WorkTime, SECONDS_PER_DAY};

verus! {

/// The local calendar day (days since 1970-01-01) of a local instant.
pub open spec fn day_of(t: int) -> int {
    t / (SECONDS_PER_DAY as int)
}

/// Days since the Monday on or before `day`: Monday is 0, Sunday 6.
pub open spec fn weekday_of(day: int) -> int {
    (day + 3) % 7
}

/// The week of `day`, counted from the week of Monday 1969-12-29; weeks run Monday
/// to Sunday, as ISO weeks do.
pub open spec fn week_of(day: int) -> int {
    (day + 3) / 7
}

/// The Monday that opens week `week`.
pub open spec fn monday_of_week(week: int) -> int {
    7 * week - 3
}

/// The bucket of a session that starts at the local instant `start`: its day, or its
/// week.
pub open spec fn bucket_key(start: i64, weekly: bool) -> int {
    if weekly {
        week_of(day_of(start as int))
    } else {
        day_of(start as int)
    }
}

/// The gross and net time of the sessions of `ivs` that fall in bucket `k`.
pub open spec fn bucket_total(ivs: Seq<Interval>, weekly: bool, k: int) -> (int, int)
    decreases ivs.len(),
{
    if ivs.len() == 0 {
        (0, 0)
    } else {
        let rest = bucket_total(ivs.drop_last(), weekly, k);
        if bucket_key(ivs.last().start, weekly) == k {
            (rest.0 + ivs.last().work_time.gross.0, rest.1 + ivs.last().work_time.net.0)
        } else {
            rest
        }
    }
}

/// Some session of `ivs` falls in bucket `k`.
pub open spec fn has_session(ivs: Seq<Interval>, weekly: bool, k: int) -> bool {
    exists|i: int| 0 <= i < ivs.len() && bucket_key(ivs[i].start, weekly) == k
}

/// The buckets: every bucket in `from..=to`, and every bucket that holds a session,
/// each with the total of its sessions.
pub open spec fn bucket_map(ivs: Seq<Interval>, weekly: bool, from: int, to: int) -> Map<
    int,
    (int, int),
> {
    Map::new(
        |k: int| (from <= k <= to) || has_session(ivs, weekly, k),
        |k: int| bucket_total(ivs, weekly, k),
    )
}

/// The gross and net time of a bucket entry.
pub open spec fn totals(w: WorkTime) -> (int, int) {
    (w.gross.0 as int, w.net.0 as int)
}

/// `s` lists the map `m` in strictly ascending order of its keys.
pub open spec fn lists(s: Seq<(i64, WorkTime)>, m: Map<int, (int, int)>) -> bool {
    &&& forall|i: int, j: int| 0 <= i < j < s.len() ==> s[i].0 < s[j].0
    &&& forall|i: int|
        0 <= i < s.len() ==> m.contains_key(#[trigger] s[i].0 as int) && m[s[i].0 as int]
            == totals(s[i].1)
    &&& forall|k: int| m.contains_key(k) ==> exists|i: int| 0 <= i < s.len() && s[i].0 == k
}

/// Bucket `k` has an entry in `s`.
pub open spec fn listed(s: Seq<(i64, WorkTime)>, k: int) -> bool {
    exists|i: int| 0 <= i < s.len() && s[i].0 == k
}

/// The local day of a local instant.
pub fn day_of_instant(t: i64) -> (r: i64)
    ensures
        r == day_of(t as int),
{
    match t.checked_div_euclid(SECONDS_PER_DAY) {
        Some(d) => d,
        None => 0,
    }
}

/// Days since Monday: Monday is 0, Sunday 6.
pub fn days_from_monday(day: i64) -> (r: i64)
    requires
        day <= i64::MAX - 3,
    ensures
        r == weekday_of(day as int),
        0 <= r < 7,
{
    match (day + 3).checked_rem_euclid(7) {
        Some(w) => w,
        None => 0,
    }
}

/// The week of a day.
pub fn week_of_day(day: i64) -> (r: i64)
    requires
        day <= i64::MAX - 3,
    ensures
        r == week_of(day as int),
{
    match (day + 3).checked_div_euclid(7) {
        Some(w) => w,
        None => 0,
    }
}

fn bucket_key_of(start: i64, weekly: bool) -> (r: i64)
    ensures
        r == bucket_key(start, weekly),
{
    let day = day_of_instant(start);
    if weekly {
        week_of_day(day)
    } else {
        day
    }
}

proof fn lemma_bucket_total_bounds(ivs: Seq<Interval>, weekly: bool, k: int)
    requires
        all_sessions(ivs),
    ensures
        0 <= bucket_total(ivs, weekly, k).1 <= bucket_total(ivs, weekly, k).0 <= total_gross(
            ivs,
        ),
    decreases ivs.len(),
{
    if ivs.len() > 0 {
        assert(all_sessions(ivs.drop_last())) by {
            assert forall|i: int| 0 <= i < ivs.drop_last().len() implies (
            #[trigger] ivs.drop_last()[i]).work_time.is_session() by {
                assert(ivs.drop_last()[i] == ivs[i]);
            }
        }
        assert(ivs.last().work_time.is_session());
        lemma_bucket_total_bounds(ivs.drop_last(), weekly, k);
    }
}

proof fn lemma_prefix_total(ivs: Seq<Interval>, j: int)
    requires
        all_sessions(ivs),
        0 <= j <= ivs.len(),
    ensures
        all_sessions(ivs.take(j)),
        total_gross(ivs.take(j)) <= total_gross(ivs),
    decreases ivs.len(),
{
    assert forall|i: int| 0 <= i < ivs.take(j).len() implies (
    #[trigger] ivs.take(j)[i]).work_time.is_session() by {
        assert(ivs.take(j)[i] == ivs[i]);
    }
    if j < ivs.len() {
        let d = ivs.drop_last();
        assert(all_sessions(d)) by {
            assert forall|i: int| 0 <= i < d.len() implies (#[trigger] d[i]).work_time.is_session() by {
                assert(d[i] == ivs[i]);
            }
        }
        assert(ivs.last().work_time.is_session());
        lemma_prefix_total(d, j);
        assert(d.take(j) =~= ivs.take(j));
    } else {
        assert(ivs.take(j) =~= ivs);
    }
}

/// Adds `wt` to bucket `key`, which is created if absent.
fn accumulate(
    entries: &mut Vec<(i64, WorkTime)>,
    key: i64,
    wt: WorkTime,
    Ghost(m): Ghost<Map<int, (int, int)>>,
)
    requires
        lists(old(entries)@, m),
        m.contains_key(key as int) ==> i64::MIN <= m[key as int].0 + wt.gross.0 <= i64::MAX,
        m.contains_key(key as int) ==> i64::MIN <= m[key as int].1 + wt.net.0 <= i64::MAX,
    ensures
        lists(
            final(entries)@,
            m.insert(
                key as int,
                if m.contains_key(key as int) {
                    (m[key as int].0 + wt.gross.0, m[key as int].1 + wt.net.0)
                } else {
                    totals(wt)
                },
            ),
        ),
{
    let ghost s = entries@;
    let ghost m2 = m.insert(
        key as int,
        if m.contains_key(key as int) {
            (m[key as int].0 + wt.gross.0, m[key as int].1 + wt.net.0)
        } else {
            totals(wt)
        },
    );
    let mut pos: usize = 0;
    while pos < entries.len() && entries[pos].0 < key
        invariant
            entries@ == s,
            pos <= s.len(),
            forall|i: int| 0 <= i < pos ==> s[i].0 < key,
        decreases s.len() - pos,
    {
        pos = pos + 1;
    }
    if pos < entries.len() && entries[pos].0 == key {
        let mut e = entries[pos];
        e.1.add_assign(wt);
        entries.set(pos, e);
        assert forall|k: int| m2.contains_key(k) implies exists|i: int|
            0 <= i < entries@.len() && entries@[i].0 == k by {
            let i = choose|i: int| 0 <= i < s.len() && s[i].0 == k;
            assert(entries@[i].0 == k);
        }
    } else {
        entries.insert(pos, (key, wt));
        let ghost t = entries@;
        assert forall|i: int| 0 <= i < t.len() implies m2.contains_key(#[trigger] t[i].0 as int)
            && m2[t[i].0 as int] == totals(t[i].1) by {
            if i < pos {
                assert(t[i] == s[i]);
            } else if i > pos {
                assert(t[i] == s[i - 1]);
            }
        }
        assert forall|k: int| m2.contains_key(k) implies exists|i: int|
            0 <= i < t.len() && t[i].0 == k by {
            if k == key {
                assert(t[pos as int].0 == k);
            } else {
                let i = choose|i: int| 0 <= i < s.len() && s[i].0 == k;
                if i < pos {
                    assert(t[i].0 == k);
                } else {
                    assert(t[i + 1].0 == k);
                }
            }
        }
    }
}

/// Allocates each session's work time to its bucket (its day, or its week), and makes
/// sure that every bucket in `from..=to` is present, with zero time if no session
/// falls in it. The result lists the buckets in ascending order.
pub fn buckets(ivs: &Vec<Interval>, weekly: bool, from: i64, to: i64) -> (r: Vec<(i64, WorkTime)>)
    requires
        all_sessions(ivs@),
        total_gross(ivs@) <= i64::MAX,
        to < i64::MAX,
    ensures
        lists(r@, bucket_map(ivs@, weekly, from as int, to as int)),
{
    let mut entries: Vec<(i64, WorkTime)> = Vec::new();
    let n = ivs.len();
    let mut j: usize = 0;
    while j < n
        invariant
            n == ivs@.len(),
            0 <= j <= n,
            all_sessions(ivs@),
            total_gross(ivs@) <= i64::MAX,
            lists(entries@, bucket_map(ivs@.take(j as int), weekly, 1, 0)),
        decreases n - j,
    {
        let iv = ivs[j];
        let key = bucket_key_of(iv.start, weekly);
        let ghost pre = ivs@.take(j as int);
        let ghost post = ivs@.take(j + 1);
        let ghost m = bucket_map(pre, weekly, 1, 0);
        proof {
            assert(post.drop_last() =~= pre);
            lemma_prefix_total(ivs@, j + 1);
            lemma_bucket_total_bounds(post, weekly, key as int);
            assert(post.last() == iv);
            if !has_session(pre, weekly, key as int) {
                lemma_no_session_total(pre, weekly, key as int);
            }
        }
        accumulate(&mut entries, key, iv.work_time, Ghost(m));
        proof {
            assert forall|k: int| #[trigger] has_session(post, weekly, k) <==> has_session(
                pre,
                weekly,
                k,
            ) || k == key by {
                if has_session(post, weekly, k) && k != key {
                    let i = choose|i: int|
                        0 <= i < post.len() && bucket_key(post[i].start, weekly) == k;
                    assert(pre[i] == post[i]);
                }
                if has_session(pre, weekly, k) {
                    let i = choose|i: int|
                        0 <= i < pre.len() && bucket_key(pre[i].start, weekly) == k;
                    assert(pre[i] == post[i]);
                }
                if k == key {
                    assert(bucket_key(post[j as int].start, weekly) == k);
                }
            }
            assert forall|k: int| #[trigger] bucket_total(post, weekly, k) == if k == key {
                (
                    bucket_total(pre, weekly, k).0 + iv.work_time.gross.0,
                    bucket_total(pre, weekly, k).1 + iv.work_time.net.0,
                )
            } else {
                bucket_total(pre, weekly, k)
            } by {}
            assert(bucket_map(post, weekly, 1, 0) =~= m.insert(
                key as int,
                if m.contains_key(key as int) {
                    (m[key as int].0 + iv.work_time.gross.0, m[key as int].1 + iv.work_time.net.0)
                } else {
                    totals(iv.work_time)
                },
            ));
        }
        j = j + 1;
    }
    proof {
        assert(ivs@.take(n as int) =~= ivs@);
        assert(bucket_map(ivs@, weekly, 1, 0) =~= Map::new(
            |x: int| (from <= x < from) || has_session(ivs@, weekly, x),
            |x: int| bucket_total(ivs@, weekly, x),
        ));
    }
    let mut k: i64 = from;
    while k <= to
        invariant
            from <= k,
            k <= to + 1 || k == from,
            all_sessions(ivs@),
            total_gross(ivs@) <= i64::MAX,
            to < i64::MAX,
            lists(
                entries@,
                Map::new(
                    |x: int| (from <= x < k) || has_session(ivs@, weekly, x),
                    |x: int| bucket_total(ivs@, weekly, x),
                ),
            ),
        decreases to + 1 - k,
    {
        let ghost m = Map::new(
            |x: int| (from <= x < k) || has_session(ivs@, weekly, x),
            |x: int| bucket_total(ivs@, weekly, x),
        );
        proof {
            lemma_bucket_total_bounds(ivs@, weekly, k as int);
            if !m.contains_key(k as int) {
                lemma_no_session_total(ivs@, weekly, k as int);
            }
        }
        accumulate(&mut entries, k, WorkTime::new(), Ghost(m));
        proof {
            assert(Map::new(
                |x: int| (from <= x < k + 1) || has_session(ivs@, weekly, x),
                |x: int| bucket_total(ivs@, weekly, x),
            ) =~= m.insert(
                k as int,
                if m.contains_key(k as int) {
                    (m[k as int].0 + 0, m[k as int].1 + 0)
                } else {
                    totals(WorkTime::zero())
                },
            ));
        }
        k = k + 1;
    }
    proof {
        assert(Map::new(
            |x: int| (from <= x < k) || has_session(ivs@, weekly, x),
            |x: int| bucket_total(ivs@, weekly, x),
        ) =~= bucket_map(ivs@, weekly, from as int, to as int));
    }
    entries
}

proof fn lemma_no_session_total(ivs: Seq<Interval>, weekly: bool, k: int)
    requires
        !has_session(ivs, weekly, k),
    ensures
        bucket_total(ivs, weekly, k) == (0int, 0int),
    decreases ivs.len(),
{
    if ivs.len() > 0 {
        let d = ivs.drop_last();
        assert(!has_session(d, weekly, k)) by {
            if has_session(d, weekly, k) {
                let i = choose|i: int| 0 <= i < d.len() && bucket_key(d[i].start, weekly) == k;
                assert(ivs[i] == d[i]);
            }
        }
        assert(bucket_key(ivs[ivs.len() - 1].start, weekly) != k);
        lemma_no_session_total(d, weekly, k);
    }
}

} // verus!

verus! {

proof fn lemma_ascending_keys(s: Seq<(i64, WorkTime)>, i: int, j: int)
    requires
        forall|a: int, b: int| 0 <= a < b < s.len() ==> s[a].0 < s[b].0,
        0 <= i <= j < s.len(),
    ensures
        s[j].0 - s[i].0 >= j - i,
    decreases j - i,
{
    if i < j {
        lemma_ascending_keys(s, i, j - 1);
    }
}

proof fn lemma_index_grows(s: Seq<(i64, WorkTime)>, m: Map<int, (int, int)>, from: int, t: int)
    requires
        lists(s, m),
        0 <= t,
        forall|k: int| from <= k <= from + t ==> m.contains_key(k),
    ensures
        exists|i: int| t <= i < s.len() && s[i].0 == from + t,
    decreases t,
{
    assert(m.contains_key(from + t));
    let i = choose|i: int| 0 <= i < s.len() && s[i].0 == from + t;
    if t > 0 {
        lemma_index_grows(s, m, from, t - 1);
        let h = choose|h: int| t - 1 <= h < s.len() && s[h].0 == from + t - 1;
        if i <= h {
            if i < h {
                assert(s[i].0 < s[h].0);
            }
        }
        assert(t <= i);
    }
}

/// Every bucket in `from..=to` is listed, whatever the sessions: the listing has at
/// least as many entries as the range has buckets, and each bucket of the range that
/// holds no session is listed with zero time.
pub proof fn law_range_filled(
    ivs: Seq<Interval>,
    weekly: bool,
    from: int,
    to: int,
    s: Seq<(i64, WorkTime)>,
)
    requires
        lists(s, bucket_map(ivs, weekly, from, to)),
        from <= to,
    ensures
        s.len() >= to - from + 1,
        forall|k: int| from <= k <= to ==> #[trigger] listed(s, k),
        forall|i: int|
            0 <= i < s.len() && !has_session(ivs, weekly, s[i].0 as int) ==> totals(#[trigger] s[i].1)
                == (0int, 0int),
{
    lemma_index_grows(s, bucket_map(ivs, weekly, from, to), from, to - from);
    assert forall|k: int| from <= k <= to implies #[trigger] listed(s, k) by {
        assert(bucket_map(ivs, weekly, from, to).contains_key(k));
    }
    assert forall|i: int|
        0 <= i < s.len() && !has_session(ivs, weekly, s[i].0 as int) implies totals(
        #[trigger] s[i].1,
    ) == (0int, 0int) by {
        lemma_no_session_total(ivs, weekly, s[i].0 as int);
    }
}

/// When every session falls in `from..=to`, the listing is exactly that range, one
/// bucket after another with no gap: entry `i` is bucket `from + i`.
pub proof fn law_range_exact(
    ivs: Seq<Interval>,
    weekly: bool,
    from: int,
    to: int,
    s: Seq<(i64, WorkTime)>,
)
    requires
        lists(s, bucket_map(ivs, weekly, from, to)),
        from <= to,
        forall|i: int| 0 <= i < ivs.len() ==> from <= #[trigger] bucket_key(ivs[i].start, weekly) <= to,
    ensures
        s.len() == to - from + 1,
        forall|i: int| 0 <= i < s.len() ==> #[trigger] s[i].0 == from + i,
{
    law_range_filled(ivs, weekly, from, to, s);
    let m = bucket_map(ivs, weekly, from, to);
    assert forall|i: int| 0 <= i < s.len() implies from <= #[trigger] s[i].0 <= to by {
        assert(m.contains_key(s[i].0 as int));
        if has_session(ivs, weekly, s[i].0 as int) {
            let j = choose|j: int| 0 <= j < ivs.len() && bucket_key(ivs[j].start, weekly) == s[i].0;
            assert(from <= bucket_key(ivs[j].start, weekly) <= to);
        }
    }
    lemma_ascending_keys(s, 0, s.len() - 1);
    assert forall|i: int| 0 <= i < s.len() implies #[trigger] s[i].0 == from + i by {
        lemma_ascending_keys(s, 0, i);
        lemma_ascending_keys(s, i, s.len() - 1);
    }
}

} // verus!
