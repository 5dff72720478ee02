use vstd::prelude::*;
use vstd::string::StringExecFns;

verus! {

/// The largest instant, in seconds either side of 1970-01-01T00:00:00, that the
/// engine accepts: about 34,800 years, well inside what the calendar library spans.
pub const MAX_INSTANT: i64 = 1_099_511_627_776;

/// A local wall-clock reading that the engine can compute with: a UTC instant moved by
/// any time-zone offset stays well inside this range.
pub open spec fn valid_local(t: int) -> bool {
    -2 * MAX_INSTANT <= t <= 2 * MAX_INSTANT
}

pub const SECONDS_PER_MINUTE: i64 = 60;

pub const SECONDS_PER_DAY: i64 = 86_400;

/// An instant (UTC or local) that the engine can compute with.
pub open spec fn valid_instant(t: int) -> bool {
    -MAX_INSTANT <= t <= MAX_INSTANT
}

/// A span of time in seconds, as shown in reports.
#[derive(Clone, Copy, Debug, PartialEq, Eq, Structural)]
pub struct Elapsed(pub i64);

/// The decimal digit `d` as a character.
pub open spec fn digit_char(d: int) -> char {
    if d == 0 {
        '0'
    } else if d == 1 {
        '1'
    } else if d == 2 {
        '2'
    } else if d == 3 {
        '3'
    } else if d == 4 {
        '4'
    } else if d == 5 {
        '5'
    } else if d == 6 {
        '6'
    } else if d == 7 {
        '7'
    } else if d == 8 {
        '8'
    } else {
        '9'
    }
}

/// The decimal digits of `n`, most significant first, with no leading zero.
pub open spec fn decimal(n: nat) -> Seq<char>
    decreases n,
{
    if n < 10 {
        seq![digit_char(n as int)]
    } else {
        decimal(n / 10).push(digit_char((n % 10) as int))
    }
}

/// An integer in decimal, with a leading '-' when it is negative.
pub open spec fn signed_decimal(v: int) -> Seq<char> {
    if v < 0 {
        seq!['-'] + decimal((-v) as nat)
    } else {
        decimal(v as nat)
    }
}

/// A span of `secs` seconds shown as whole hours and the whole minutes left over,
/// "<hours>h<minutes>m": the minutes are truncated, and the hours may exceed 24. A
/// negative span shows both parts negated.
pub open spec fn elapsed_text(secs: int) -> Seq<char> {
    let minutes = if secs < 0 { -secs } else { secs } / 60;
    let sign = if secs < 0 { -1int } else { 1int };
    signed_decimal(sign * (minutes / 60)) + seq!['h'] + signed_decimal(sign * (minutes % 60))
        + seq!['m']
}

fn digit_str(d: u64) -> (r: &'static str)
    requires
        d < 10,
    ensures
        r@ == seq![digit_char(d as int)],
{
    proof {
        reveal_strlit("0");
        reveal_strlit("1");
        reveal_strlit("2");
        reveal_strlit("3");
        reveal_strlit("4");
        reveal_strlit("5");
        reveal_strlit("6");
        reveal_strlit("7");
        reveal_strlit("8");
        reveal_strlit("9");
    }
    if d == 0 {
        "0"
    } else if d == 1 {
        "1"
    } else if d == 2 {
        "2"
    } else if d == 3 {
        "3"
    } else if d == 4 {
        "4"
    } else if d == 5 {
        "5"
    } else if d == 6 {
        "6"
    } else if d == 7 {
        "7"
    } else if d == 8 {
        "8"
    } else {
        "9"
    }
}

fn decimal_string(n: u64) -> (r: String)
    ensures
        r@ == decimal(n as nat),
    decreases n,
{
    if n < 10 {
        String::from_str(digit_str(n))
    } else {
        let mut s = decimal_string(n / 10);
        s.append(digit_str(n % 10));
        s
    }
}

fn signed_decimal_string(negative: bool, n: u64) -> (r: String)
    ensures
        r@ == signed_decimal(if negative { -(n as int) } else { n as int }),
{
    if negative && n > 0 {
        proof {
            reveal_strlit("-");
        }
        let mut s = String::from_str("-");
        let digits = decimal_string(n);
        s.append(digits.as_str());
        s
    } else {
        decimal_string(n)
    }
}

impl Elapsed {
    /// The span as "<hours>h<minutes>m".
    pub fn to_string(&self) -> (r: String)
        ensures
            r@ == elapsed_text(self.0 as int),
    {
        let negative = self.0 < 0;
        let magnitude: u64 = if negative {
            (-(self.0 as i128)) as u64
        } else {
            self.0 as u64
        };
        let minutes = magnitude / 60;
        let ghost v = self.0 as int;
        assert(magnitude as int == if v < 0 { -v } else { v });
        let ghost sign = if v < 0 { -1int } else { 1int };
        let ghost hours = (minutes / 60) as int;
        let ghost rest = (minutes % 60) as int;
        assert(sign * hours == if negative { -hours } else { hours });
        assert(sign * rest == if negative { -rest } else { rest });
        let mut s = signed_decimal_string(negative, minutes / 60);
        proof {
            reveal_strlit("h");
            reveal_strlit("m");
        }
        s.append("h");
        let m = signed_decimal_string(negative, minutes % 60);
        s.append(m.as_str());
        s.append("m");
        assert(s@ =~= elapsed_text(v));
        s
    }

    pub fn add(self, other: Elapsed) -> (r: Elapsed)
        requires
            i64::MIN <= self.0 + other.0 <= i64::MAX,
        ensures
            r.0 == self.0 + other.0,
    {
        Elapsed(self.0 + other.0)
    }
}

/// Net time: what is left of `gross` once `overhead` is deducted, never below zero.
pub open spec fn net_of(gross: int, overhead: int) -> int {
    if overhead > gross {
        0
    } else {
        gross - overhead
    }
}

/// An amount of work time, both gross and net of overhead.
#[derive(Clone, Copy, Debug, PartialEq, Eq, Structural)]
pub struct WorkTime {
    pub gross: Elapsed,
    pub net: Elapsed,
}

/// The work time of one session of `gross` seconds under `overhead` seconds of overhead.
pub open spec fn work_time_of(gross: int, overhead: int) -> WorkTime {
    WorkTime { gross: Elapsed(gross as i64), net: Elapsed(net_of(gross, overhead) as i64) }
}

impl WorkTime {
    pub open spec fn zero() -> WorkTime {
        WorkTime { gross: Elapsed(0), net: Elapsed(0) }
    }

    /// A session's work time: never negative, and no more than its gross time.
    pub open spec fn is_session(self) -> bool {
        0 <= self.net.0 <= self.gross.0
    }

    pub fn new() -> (r: WorkTime)
        ensures
            r == WorkTime::zero(),
    {
        WorkTime { gross: Elapsed(0), net: Elapsed(0) }
    }

    pub fn from_duration(gross: i64, overhead: i64) -> (r: WorkTime)
        requires
            0 <= overhead,
        ensures
            r == work_time_of(gross as int, overhead as int),
            r.net.0 >= 0,
            r.net.0 == if gross - overhead > 0 { gross - overhead } else { 0 },
    {
        let net = if overhead > gross {
            0
        } else {
            gross - overhead
        };
        WorkTime { gross: Elapsed(gross), net: Elapsed(net) }
    }

    pub fn add_assign(&mut self, other: WorkTime)
        requires
            i64::MIN <= old(self).gross.0 + other.gross.0 <= i64::MAX,
            i64::MIN <= old(self).net.0 + other.net.0 <= i64::MAX,
        ensures
            final(self).gross.0 == old(self).gross.0 + other.gross.0,
            final(self).net.0 == old(self).net.0 + other.net.0,
    {
        self.gross = self.gross.add(other.gross);
        self.net = self.net.add(other.net);
    }
}

/// A work session: where it started on the local clock, and how long it ran.
#[derive(Clone, Copy, Debug, PartialEq, Eq, Structural)]
pub struct Interval {
    pub start: i64,
    pub work_time: WorkTime,
}

/// The session that starts at `start_local` and runs `gross` seconds.
pub open spec fn interval_of(start_local: int, gross: int, overhead: int) -> Interval {
    Interval { start: start_local as i64, work_time: work_time_of(gross, overhead) }
}

impl Interval {
    /// The session from the UTC instant `start_utc` (read `start_local` on the local
    /// clock) to the UTC instant `end_utc`. Its length is measured on the UTC clock, so
    /// that a change of the local offset in between does not distort it.
    pub fn new(start_local: i64, start_utc: i64, end_utc: i64, overhead: i64) -> (r: Interval)
        requires
            valid_instant(start_utc as int),
            valid_instant(end_utc as int),
            start_utc <= end_utc,
            0 <= overhead,
        ensures
            r == interval_of(start_local as int, end_utc - start_utc, overhead as int),
    {
        Interval {
            start: start_local,
            work_time: WorkTime::from_duration(end_utc - start_utc, overhead),
        }
    }
}

} // verus!
