use agentgw::clock::{iso8601, now_ms, Clock, SystemClock, WallClock};
use std::sync::atomic::{AtomicU64, Ordering};

#[test]
fn iso8601_matches_known_instants() {
    assert_eq!(iso8601(0), "1970-01-01T00:00:00.000Z");
    assert_eq!(iso8601(1_785_155_696_007), "2026-07-27T12:34:56.007Z");
    assert_eq!(iso8601(1_709_164_800_000), "2024-02-29T00:00:00.000Z");
}

#[test]
fn iso8601_signs_far_years_and_goes_before_the_epoch() {
    assert_eq!(iso8601(253_402_300_800_000), "+10000-01-01T00:00:00.000Z");
    assert_eq!(iso8601(u64::MAX), "1969-12-31T23:59:59.999Z");
    assert_eq!(iso8601((-62_167_219_200_001i64) as u64), "-0001-12-31T23:59:59.999Z");
    assert_eq!(iso8601((-62_167_219_200_000i64) as u64), "0000-01-01T00:00:00.000Z");
    assert_eq!(iso8601(i64::MAX as u64), "1970-01-01T00:00:00.000Z", "beyond the calendar");
}

#[test]
fn iso8601_is_read_back() {
    for ms in [0u64, 1_785_155_696_007, 1_709_164_800_000] {
        assert_eq!(WallClock::parse_iso8601_ms(&iso8601(ms)), Some(ms));
    }
    assert_eq!(WallClock::parse_iso8601_ms("yesterday"), None);
}

fn wc(year: i32, month: u32, day: u32, hour: u32, minute: u32) -> WallClock {
    WallClock::new(year, month, day, hour, minute).expect("valid wall clock")
}

#[test]
fn reset_time_is_read_in_tokyo_time() {
    let now = 1_785_387_600_000u64;
    assert_eq!(
        WallClock::parse_reset_epoch("resets at 11pm", now),
        Some(1_785_420_000_000)
    );
    assert_eq!(WallClock::parse_reset_epoch("resets at 1pm", now), Some(1_785_470_400_000));
    assert_eq!(
        WallClock::parse_reset_epoch("resets Aug 1 at 9:30am", now),
        Some(1_785_544_200_000)
    );
    assert_eq!(
        WallClock::parse_reset_epoch("resets at 12am", now),
        Some(1_785_423_600_000)
    );
    assert_eq!(WallClock::parse_reset_epoch("at11pm", now), None);
    assert_eq!(WallClock::parse_reset_epoch("resets soon", now), None);
}

#[test]
fn minutes_between_same_day() {
    let from = wc(2026, 7, 29, 10, 0);
    let to = wc(2026, 7, 29, 12, 30);
    assert_eq!(WallClock::minutes_to(&from, &to), Some(150));
    assert_eq!(WallClock::minutes_to(&to, &from), None);
}

#[test]
fn minutes_between_crosses_month_and_year() {
    let from = wc(2026, 12, 31, 23, 0);
    let to = wc(2027, 1, 1, 1, 0);
    assert_eq!(WallClock::minutes_to(&from, &to), Some(120));
}

#[test]
fn minutes_between_counts_the_leap_day() {
    let day = 24 * 60;
    let span = |year| WallClock::minutes_to(&wc(year, 2, 28, 0, 0), &wc(year, 3, 1, 0, 0));
    assert_eq!(span(2028), Some(2 * day));
    assert_eq!(span(2027), Some(day));
    assert_eq!(span(2100), Some(day));
}

#[test]
fn parse_reset_clock_bare_time_rolls_to_tomorrow_if_past() {
    let now = wc(2026, 7, 29, 18, 0);
    let future_today = WallClock::parse_reset("11:30pm", &now).unwrap();
    assert_eq!((future_today.day(), future_today.hour()), (29, 23));
    let past_today = WallClock::parse_reset("5:30pm", &now).unwrap();
    assert_eq!(
        past_today.day(),
        30,
        "rolls to tomorrow when the bare time already passed"
    );
}

#[test]
fn parse_reset_clock_bare_time_rolls_over_month_and_year_ends() {
    let eom = wc(2026, 6, 30, 18, 0);
    let next = WallClock::parse_reset("5pm", &eom).unwrap();
    assert_eq!((next.year(), next.month(), next.day(), next.hour()), (2026, 7, 1, 17));
    let eoy = wc(2026, 12, 31, 23, 30);
    let next = WallClock::parse_reset("11:00pm", &eoy).unwrap();
    assert_eq!((next.year(), next.month(), next.day()), (2027, 1, 1));
    let leap = wc(2028, 2, 28, 23, 0);
    let next = WallClock::parse_reset("10pm", &leap).unwrap();
    assert_eq!((next.month(), next.day()), (2, 29));
}

#[test]
fn parse_reset_clock_dated_rolls_to_next_year_if_past() {
    let now = wc(2026, 7, 29, 0, 0);
    let past = WallClock::parse_reset("Jun 28 at 5:30pm", &now).unwrap();
    assert_eq!(
        past.year(),
        2027,
        "Jun 28 already passed this year, so it means next year's Jun 28"
    );
    let future = WallClock::parse_reset("Dec 1 at 5:30pm", &now).unwrap();
    assert_eq!(future.year(), 2026);
}

#[test]
fn parse_reset_clock_shapes_and_junk() {
    let now = wc(2026, 7, 29, 9, 0);
    let full = WallClock::parse_reset("Jul 1 at 5pm (Asia/Tokyo)", &now).unwrap();
    assert_eq!(
        (full.year(), full.month(), full.day(), full.hour(), full.minute()),
        (2027, 7, 1, 17, 0)
    );
    assert_eq!(WallClock::parse_reset("12am", &now).unwrap().hour(), 0);
    assert_eq!(WallClock::parse_reset("12:15pm", &now).unwrap().hour(), 12);
    assert_eq!(WallClock::parse_reset("3:59AM", &now).unwrap().minute(), 59);
    let tomorrow = WallClock::parse_reset("tomorrow 8am", &now).unwrap();
    assert_eq!((tomorrow.month(), tomorrow.day()), (7, 30));
    assert_eq!(WallClock::parse_reset("", &now), None);
    assert_eq!(WallClock::parse_reset("in 5 hours", &now), None);
    assert_eq!(WallClock::parse_reset("13pm", &now), None);
    assert_eq!(WallClock::parse_reset("5:30 spam", &now), None);
}

struct FakeClock(AtomicU64);

impl Clock for FakeClock {
    fn now_ms(&self) -> u64 {
        self.0.load(Ordering::SeqCst)
    }
}

#[test]
fn clock_fake_clock_moves_only_when_told() {
    let c = FakeClock(AtomicU64::new(1_000));
    assert_eq!(c.now_ms(), 1_000);
    c.0.fetch_add(500, Ordering::SeqCst);
    assert_eq!(c.now_ms(), 1_500);
}

#[test]
fn the_machines_clock_is_past_the_epoch() {
    let a = now_ms();
    assert!(a > 1_600_000_000_000);
    assert!(SystemClock.now_ms() >= a);
}

#[test]
fn a_clock_goes_by_the_calendar() {
    assert!(WallClock::new(2026, 2, 29, 0, 0).is_none());
    assert!(WallClock::new(2028, 2, 29, 0, 0).is_some());
    assert!(WallClock::new(2026, 1, 1, 24, 0).is_none());
    assert!(WallClock::new(2026, 13, 1, 0, 0).is_none());
    let w = WallClock::tokyo(1_782_635_400_000);
    assert_eq!(w.date(), (2026, 6, 28));
    assert_eq!((w.hour(), w.minute()), (17, 30));
    assert_eq!(w.epoch_ms(), Some(1_782_635_400_000));
    assert_eq!(w.month_day_time(), "6/28 17:30");
    assert_eq!(w.reset_like(), "Jun 28 at 5:30 pm");
    let later = w.plus_minutes(24 * 60 * 3);
    assert_eq!(later.date(), (2026, 7, 1));
    assert_eq!(WallClock::minutes_to(&w, &later), Some(24 * 60 * 3));
    assert_eq!(w.plus_minutes(-24 * 60 * 28).date(), (2026, 5, 31));
}

#[test]
fn a_clock_before_the_epoch_tells_zero() {
    assert_eq!((agentgw::clock::ms_or_zero(None), agentgw::clock::ms_or_zero(Some(7))), (0, 7));
}
