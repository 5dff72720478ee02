use punch::sample::{sample_sessions, MAX_SESSION, MIN_SESSION};

const SEED: [u8; 16] = [
    0x04, 0xC1, 0x1D, 0xB7, 0x1E, 0xDC, 0x6F, 0x41, 0x74, 0x1B, 0x8C, 0xD7, 0x32, 0x58, 0x34, 0x99,
];

const DAY: i64 = 86_400;

#[test]
fn sample_sessions_run_one_after_another() {
    let today = 17714; // Monday 2018-07-02
    let sessions = sample_sessions(SEED, today);
    assert!(!sessions.is_empty());
    let first_day = today - 42; // 2018-05-21, a Monday
    for (s, e) in &sessions {
        let d = s.div_euclid(DAY);
        assert!(d >= first_day && d < today);
        assert!(s - d * DAY >= 7 * 3600);
        assert!(e - d * DAY <= DAY - 1);
        assert!(e - s >= MIN_SESSION && e - s < MAX_SESSION);
    }
    for w in sessions.windows(2) {
        assert!(w[0].1 <= w[1].0);
    }
    assert_eq!(sessions, sample_sessions(SEED, today));
}

#[test]
fn sample_weekdays_hold_seven_hours() {
    let today = 17714;
    let sessions = sample_sessions(SEED, today);
    for day in (today - 42)..today {
        let weekday = (day + 3).rem_euclid(7);
        let of_day: Vec<&(i64, i64)> =
            sessions.iter().filter(|(s, _)| s.div_euclid(DAY) == day).collect();
        if weekday < 5 {
            assert!(!of_day.is_empty());
            let total: i64 = of_day.iter().map(|(s, e)| e - s).sum();
            assert!(total >= 7 * 3600);
            assert!(total < 7 * 3600 + MAX_SESSION);
        }
    }
}

#[test]
fn every_sample_weekday_holds_seven_hours() {
    for today in [17714i64, 17535, 17720] {
        let sessions = sample_sessions(SEED, today);
        let back = today - 38;
        let first = back - (back + 3).rem_euclid(7);
        for day in first..today {
            let total: i64 = sessions
                .iter()
                .filter(|(s, _)| s.div_euclid(DAY) == day)
                .map(|(s, e)| e - s)
                .sum();
            if (day + 3).rem_euclid(7) < 5 {
                assert!(total >= 7 * 3600);
            } else {
                assert!(total == 0 || total >= 7 * 3600);
            }
        }
    }
}
