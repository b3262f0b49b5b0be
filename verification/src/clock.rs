//! Time: epoch milliseconds, the wall clock that usage reports print, and the clock that is
//! handed around.
use crate::text;
use chrono::{Datelike, Timelike};
use vstd::prelude::*;

verus! {

// ── the time of day on this machine ─────────────────────────────────────────

/// `std::time::SystemTime::now`, as milliseconds since the epoch. Nothing is claimed of it: what it
/// returns is the machine's.
#[verifier::external_body]
fn system_time_ms() -> Option<u64> {
    std::time::SystemTime::now().duration_since(std::time::UNIX_EPOCH).ok().map(
        |d| d.as_millis() as u64,
    )
}

/// The time that a clock tells, and zero where it stands before the epoch.
pub fn ms_or_zero(told: Option<u64>) -> (ms: u64)
    ensures
        ms == match told {
            Some(t) => t,
            None => 0,
        },
{
    match told {
        Some(t) => t,
        None => 0,
    }
}

/// The current epoch in milliseconds (zero where the machine's clock stands before the epoch).
pub fn now_ms() -> u64 {
    ms_or_zero(system_time_ms())
}

/// Something that tells the time.
pub trait Clock {
    fn now_ms(&self) -> u64;
}

/// The machine's clock.
pub struct SystemClock;

impl Clock for SystemClock {
    fn now_ms(&self) -> u64 {
        now_ms()
    }
}

// ── the calendar ────────────────────────────────────────────────────────────

/// A leap year of the Gregorian calendar.
pub open spec fn is_leap(year: int) -> bool {
    year % 4 == 0 && (year % 100 != 0 || year % 400 == 0)
}

/// How many days a month has.
pub open spec fn month_days(year: int, month: int) -> int {
    if month == 2 {
        if is_leap(year) {
            29
        } else {
            28
        }
    } else if month == 4 || month == 6 || month == 9 || month == 11 {
        30
    } else {
        31
    }
}

/// How many days of a year come before a month.
pub open spec fn days_before(year: int, month: int) -> int
    decreases month,
{
    if month <= 1 {
        0
    } else {
        days_before(year, month - 1) + month_days(year, month - 1)
    }
}

/// A date that exists.
pub open spec fn is_date(year: int, month: int, day: int) -> bool {
    1 <= month <= 12 && 1 <= day <= month_days(year, month)
}

/// The number of a date, January 1 of the year 1 being day 1.
pub open spec fn day_number(year: int, month: int, day: int) -> int {
    365 * (year - 1) + (year - 1) / 4 - (year - 1) / 100 + (year - 1) / 400 + days_before(
        year,
        month,
    ) + day
}

/// The years that the calendar covers.
pub const FIRST_YEAR: i32 = -262_143;

pub const LAST_YEAR: i32 = 262_142;

/// The days that the calendar covers: January 1 of the first year to December 31 of the last.
pub const FIRST_DAY: i64 = -95_746_129;

pub const LAST_DAY: i64 = 95_745_399;

/// The number of January 1, 1970.
pub const EPOCH_DAY: i64 = 719_163;

pub open spec fn covered(day: int) -> bool {
    FIRST_DAY <= day <= LAST_DAY
}

/// A date, given as year, month and day, that exists and is covered.
pub open spec fn is_covered_date(d: (i32, u32, u32)) -> bool {
    is_date(d.0 as int, d.1 as int, d.2 as int) && FIRST_YEAR <= d.0 <= LAST_YEAR
}

/// `chrono::NaiveDate::from_ymd_opt` and `num_days_from_ce`: the number of a date; `None` where the
/// date does not exist or its year is not covered.
#[verifier::external_body]
fn number_of_date(year: i32, month: u32, day: u32) -> (r: Option<i32>)
    ensures
        r is Some <==> is_covered_date((year, month, day)),
        r is Some ==> r->0 == day_number(year as int, month as int, day as int),
        r is Some ==> covered(r->0 as int),
{
    chrono::NaiveDate::from_ymd_opt(year, month, day).map(|d| d.num_days_from_ce())
}

/// `chrono::NaiveDate::from_num_days_from_ce_opt`: the date that has a number; `None` where it is
/// not covered.
#[verifier::external_body]
fn date_of_number(day: i32) -> (r: Option<(i32, u32, u32)>)
    ensures
        r is Some <==> covered(day as int),
        r matches Some(d) ==> is_covered_date(d) && day_number(
            d.0 as int,
            d.1 as int,
            d.2 as int,
        ) == day,
{
    chrono::NaiveDate::from_num_days_from_ce_opt(day).map(|d| (d.year(), d.month(), d.day()))
}

/// An instant falls on a covered day.
pub open spec fn instant_covered(ms: int) -> bool {
    covered(EPOCH_DAY + ms / 86_400_000)
}

/// `chrono::DateTime::from_timestamp_millis`, read as a day's number and the second of that day;
/// `None` where the day is not covered.
#[verifier::external_body]
fn day_and_second(ms: i64) -> (r: Option<(i32, u32)>)
    ensures
        r is Some <==> instant_covered(ms as int),
        r matches Some(t) ==> t.0 == EPOCH_DAY + ms as int / 86_400_000 && t.1 == (ms as int
            % 86_400_000) / 1000,
{
    chrono::DateTime::from_timestamp_millis(ms).map(
        |t| (t.naive_utc().num_days_from_ce(), t.naive_utc().num_seconds_from_midnight()),
    )
}

/// A number in at least so many digits, with zeros in front.
pub open spec fn wide(n: int, width: int) -> Seq<char> {
    let d = text::decimal(n);
    if d.len() < width {
        Seq::new((width - d.len()) as nat, |i: int| '0') + d
    } else {
        d
    }
}

/// A year in at least four digits; one before 0 or after 9999 has its sign.
pub open spec fn year_text(year: int) -> Seq<char> {
    if year < 0 {
        "-"@ + wide(-year, 4)
    } else if year <= 9999 {
        wide(year, 4)
    } else {
        "+"@ + wide(year, 4)
    }
}

/// An instant as `2026-07-27T12:00:00.000Z`.
pub open spec fn stamp(ms: int) -> Seq<char> {
    let d = date_shown((EPOCH_DAY + ms / 86_400_000) * DAY_MINUTES);
    let t = ms % 86_400_000;
    year_text(d.0 as int) + "-"@ + wide(d.1 as int, 2) + "-"@ + wide(d.2 as int, 2) + "T"@ + wide(
        t / 3_600_000,
        2,
    ) + ":"@ + wide(t / 60_000 % 60, 2) + ":"@ + wide(t / 1000 % 60, 2) + "."@ + wide(t % 1000, 3)
        + "Z"@
}

/// `chrono::DateTime::from_timestamp_millis` and `format` under `%Y-%m-%dT%H:%M:%S%.3fZ`: the date of
/// the instant's day, its hour, minute and second in two digits each and its milliseconds in three;
/// `None` where its day is not covered.
#[verifier::external_body]
fn stamp_text(ms: i64) -> (r: Option<String>)
    ensures
        r is Some <==> instant_covered(ms as int),
        r matches Some(s) ==> s@ == stamp(ms as int),
{
    chrono::DateTime::from_timestamp_millis(ms).map(
        |t| t.format("%Y-%m-%dT%H:%M:%S%.3fZ").to_string(),
    )
}

/// An epoch time as `2026-07-27T12:00:00.000Z`; the epoch itself where the calendar does not cover
/// it.
pub fn iso8601(ms: u64) -> (out: String)
    ensures
        out@ == if instant_covered(ms as i64 as int) {
            stamp(ms as i64 as int)
        } else {
            stamp(0)
        },
{
    match stamp_text(ms as i64) {
        Some(s) => s,
        None => match stamp_text(0) {
            Some(s) => s,
            None => String::new(),
        },
    }
}

/// What `chrono` reads from an RFC 3339 text, in milliseconds since the epoch.
pub uninterp spec fn rfc3339_ms(s: Seq<char>) -> Option<i64>;

/// `chrono::DateTime::parse_from_rfc3339` and `timestamp_millis`.
#[verifier::external_body]
fn read_rfc3339(s: &str) -> (r: Option<i64>)
    ensures
        r == rfc3339_ms(s@),
{
    chrono::DateTime::parse_from_rfc3339(s).ok().map(|t| t.timestamp_millis())
}

/// An instant as an epoch time; `None` before the epoch.
pub fn epoch_of_instant(ms: Option<i64>) -> (r: Option<u64>)
    ensures
        r == match ms {
            Some(t) => if t >= 0 {
                Some(t as u64)
            } else {
                None
            },
            None => None::<u64>,
        },
{
    match ms {
        Some(t) => if t >= 0 {
            Some(t as u64)
        } else {
            None
        },
        None => None,
    }
}

// ── wall clock ──────────────────────────────────────────────────────────────

/// A wall clock without a time zone, to the minute.
#[derive(Debug, Clone, Copy, PartialEq, Eq, PartialOrd, Ord, Structural)]
pub struct WallClock {
    day: i32,
    minute: u32,
}

/// Tokyo is nine hours ahead of the epoch's zone.
pub const TOKYO_OFFSET_MS: i64 = 32_400_000;

pub const DAY_MINUTES: i64 = 1440;

/// The longest span in minutes that a span can hold.
pub const MAX_SPAN_MINUTES: i64 = 153_722_867_280_912;

/// The date that a clock shows at so many minutes.
pub open spec fn shown(minutes: int, d: (i32, u32, u32)) -> bool {
    is_covered_date(d) && day_number(d.0 as int, d.1 as int, d.2 as int) == minutes / (
    DAY_MINUTES as int)
}

/// The date that is shown.
pub open spec fn date_shown(minutes: int) -> (i32, u32, u32) {
    choose|d: (i32, u32, u32)| shown(minutes, d)
}

/// The minutes that a clock in Tokyo shows at an epoch time; those of the epoch's own midnight where
/// the calendar does not cover it.
pub open spec fn tokyo_minutes(ms: int) -> int {
    EPOCH_DAY * DAY_MINUTES + if instant_covered(ms + TOKYO_OFFSET_MS) {
        (ms + TOKYO_OFFSET_MS) / 60_000
    } else {
        0
    }
}

impl WallClock {
    #[verifier::type_invariant]
    closed spec fn wf(&self) -> bool {
        covered(self.day as int) && self.minute < DAY_MINUTES
    }

    /// Minutes since the midnight that began day 0.
    pub closed spec fn minutes(&self) -> int {
        self.day * DAY_MINUTES + self.minute
    }

    /// A time that a clock can show.
    pub open spec fn is_time(year: int, month: int, day: int, hour: int, minute: int) -> bool {
        is_date(year, month, day) && FIRST_YEAR <= year <= LAST_YEAR && 0 <= hour < 24 && 0
            <= minute < 60
    }

    /// The minutes of a time.
    pub open spec fn minutes_at(year: int, month: int, day: int, hour: int, minute: int) -> int {
        day_number(year, month, day) * DAY_MINUTES + hour * 60 + minute
    }

    /// What the clock shows, year, month and day.
    pub open spec fn shows(&self, d: (i32, u32, u32)) -> bool {
        shown(self.minutes(), d)
    }

    /// One wall-clock time to the minute; `None` for dates and times that do not exist.
    pub fn new(year: i32, month: u32, day: u32, hour: u32, minute: u32) -> (r: Option<Self>)
        ensures
            r is Some <==> Self::is_time(
                year as int,
                month as int,
                day as int,
                hour as int,
                minute as int,
            ),
            r matches Some(w) ==> w.minutes() == Self::minutes_at(
                year as int,
                month as int,
                day as int,
                hour as int,
                minute as int,
            ),
    {
        if hour >= 24 || minute >= 60 {
            return None;
        }
        match number_of_date(year, month, day) {
            Some(n) => Some(WallClock { day: n, minute: hour * 60 + minute }),
            None => None,
        }
    }

    /// An epoch time as a wall clock in Tokyo, its seconds dropped; what the calendar does not
    /// cover falls back to the epoch's own midnight.
    pub fn tokyo(ms: u64) -> (w: Self)
        ensures
            w.minutes() == tokyo_minutes(ms as int),
    {
        let epoch: WallClock = WallClock { day: EPOCH_DAY as i32, minute: 0 };
        if ms > (i64::MAX - TOKYO_OFFSET_MS) as u64 {
            return epoch;
        }
        let shifted: i64 = ms as i64 + TOKYO_OFFSET_MS;
        match day_and_second(shifted) {
            Some((day, second)) => WallClock { day, minute: second / 60 },
            None => epoch,
        }
    }

    /// The epoch time at which a clock in Tokyo shows this; `None` before the epoch.
    pub fn epoch_ms(&self) -> (r: Option<u64>)
        ensures
            ({
                let ms = (self.minutes() - EPOCH_DAY * DAY_MINUTES) * 60_000 - TOKYO_OFFSET_MS;
                r == if ms >= 0 {
                    Some(ms as u64)
                } else {
                    None
                }
            }),
    {
        proof {
            use_type_invariant(self);
        }
        let minutes: i64 = self.day as i64 * DAY_MINUTES + self.minute as i64;
        let ms: i64 = (minutes - EPOCH_DAY * DAY_MINUTES) * 60_000 - TOKYO_OFFSET_MS;
        if ms >= 0 {
            Some(ms as u64)
        } else {
            None
        }
    }

    /// The year, month and day the clock shows.
    pub fn date(&self) -> (d: (i32, u32, u32))
        ensures
            self.shows(d),
            d == date_shown(self.minutes()),
    {
        proof {
            use_type_invariant(self);
        }
        let d: (i32, u32, u32) = match date_of_number(self.day) {
            Some(d) => d,
            None => (1970, 1, 1),
        };
        proof {
            law_one_date(self, d, date_shown(self.minutes()));
        }
        d
    }

    pub fn year(&self) -> (r: i32)
        ensures
            r == date_shown(self.minutes()).0,
    {
        self.date().0
    }

    pub fn month(&self) -> (r: u32)
        ensures
            r == date_shown(self.minutes()).1,
    {
        self.date().1
    }

    pub fn day(&self) -> (r: u32)
        ensures
            r == date_shown(self.minutes()).2,
    {
        self.date().2
    }

    pub fn hour(&self) -> (r: u32)
        ensures
            r == self.minutes() % (DAY_MINUTES as int) / 60,
    {
        proof {
            use_type_invariant(self);
        }
        self.minute / 60
    }

    pub fn minute(&self) -> (r: u32)
        ensures
            r == self.minutes() % 60,
    {
        proof {
            use_type_invariant(self);
            vstd::arithmetic::div_mod::lemma_mod_multiples_vanish(
                24 * self.day,
                self.minute as int,
                60,
            );
        }
        self.minute % 60
    }

    /// So many minutes later; the same time where the calendar does not reach that far.
    pub fn plus_minutes(&self, minutes: i64) -> (w: Self)
        requires
            -MAX_SPAN_MINUTES <= minutes <= MAX_SPAN_MINUTES,
        ensures
            w.minutes() == if covered((self.minutes() + minutes) / (DAY_MINUTES as int)) {
                self.minutes() + minutes
            } else {
                self.minutes()
            },
    {
        proof {
            use_type_invariant(self);
        }
        let total: i64 = self.day as i64 * DAY_MINUTES + self.minute as i64 + minutes;
        let far: i64 = 110_000_000_000;
        let day: i64 = (total + far * DAY_MINUTES) / DAY_MINUTES - far;
        let rest: i64 = total - day * DAY_MINUTES;
        if FIRST_DAY <= day && day <= LAST_DAY {
            WallClock { day: day as i32, minute: rest as u32 }
        } else {
            *self
        }
    }

    /// The minutes from `from` to `to`; `None` where `to` is earlier.
    pub fn minutes_to(from: &WallClock, to: &WallClock) -> (r: Option<i64>)
        ensures
            match r {
                Some(m) => m >= 0 && m == to.minutes() - from.minutes(),
                None => to.minutes() < from.minutes(),
            },
    {
        proof {
            use_type_invariant(from);
            use_type_invariant(to);
        }
        let a: i64 = from.day as i64 * DAY_MINUTES + from.minute as i64;
        let b: i64 = to.day as i64 * DAY_MINUTES + to.minute as i64;
        if b >= a {
            Some(b - a)
        } else {
            None
        }
    }
}

// ── what holds of the calendar ──────────────────────────────────────────────

proof fn lemma_within_year(year: int, month: int, day: int)
    requires
        is_date(year, month, day),
    ensures
        day_number(year, 1, 1) <= day_number(year, month, day) < day_number(year + 1, 1, 1),
{
    reveal_with_fuel(days_before, 13);
    lemma_year_length(year);
}

proof fn lemma_step_4(y: int)
    ensures
        y / 4 == (y - 1) / 4 + if y % 4 == 0 {
            1int
        } else {
            0int
        },
{
}

proof fn lemma_step_100(y: int)
    ensures
        y / 100 == (y - 1) / 100 + if y % 100 == 0 {
            1int
        } else {
            0int
        },
        y % 100 == 0 ==> y % 4 == 0,
{
}

proof fn lemma_step_400(y: int)
    ensures
        y / 400 == (y - 1) / 400 + if y % 400 == 0 {
            1int
        } else {
            0int
        },
        y % 400 == 0 ==> y % 100 == 0,
{
}

proof fn lemma_year_length(year: int)
    ensures
        day_number(year + 1, 1, 1) == day_number(year, 1, 1) + if is_leap(year) {
            366int
        } else {
            365int
        },
{
    lemma_step_4(year);
    lemma_step_100(year);
    lemma_step_400(year);
    assert(days_before(year, 1) == 0 && days_before(year + 1, 1) == 0);
    let a = year / 4;
    let b = year / 100;
    let c = year / 400;
    let a1 = (year - 1) / 4;
    let b1 = (year - 1) / 100;
    let c1 = (year - 1) / 400;
    assert(day_number(year + 1, 1, 1) == 365 * year + a - b + c + 1);
    assert(day_number(year, 1, 1) == 365 * (year - 1) + a1 - b1 + c1 + 1);
}

proof fn lemma_years_ascend(a: int, b: int)
    requires
        a <= b,
    ensures
        day_number(a, 1, 1) <= day_number(b, 1, 1),
    decreases b - a,
{
    if a < b {
        lemma_years_ascend(a, b - 1);
        lemma_year_length(b - 1);
    }
}

/// Days have one date: two dates of one number are the same.
pub proof fn law_one_day(y1: int, m1: int, d1: int, y2: int, m2: int, d2: int)
    requires
        is_date(y1, m1, d1),
        is_date(y2, m2, d2),
        day_number(y1, m1, d1) == day_number(y2, m2, d2),
    ensures
        y1 == y2,
        m1 == m2,
        d1 == d2,
{
    lemma_within_year(y1, m1, d1);
    lemma_within_year(y2, m2, d2);
    if y1 < y2 {
        lemma_years_ascend(y1 + 1, y2);
    } else if y2 < y1 {
        lemma_years_ascend(y2 + 1, y1);
    }
    reveal_with_fuel(days_before, 13);
}

/// A clock shows one date.
pub proof fn law_one_date(w: &WallClock, a: (i32, u32, u32), b: (i32, u32, u32))
    requires
        w.shows(a),
        w.shows(b),
    ensures
        a == b,
{
    law_one_day(a.0 as int, a.1 as int, a.2 as int, b.0 as int, b.1 as int, b.2 as int);
}

/// A reset that is read is never behind the clock it is read at, and one given as a time only is
/// strictly ahead of it. (On the last day of the calendar there is no later day to move it to.)
pub proof fn law_reset_is_ahead(s: Seq<char>, y: int, m: int, d: int, now: int)
    requires
        is_date(y, m, d),
        now / (DAY_MINUTES as int) == day_number(y, m, d),
        covered(day_number(y, m, d) + 1),
    ensures
        reset_minutes(s, y, m, d, now) matches Some(t) ==> t >= now && (first_date(s, 0) is None
            ==> t > now),
{
    lemma_within_year(y, m, d);
    match reset_minutes(s, y, m, d, now) {
        Some(t) => {
            if first_date(s, 0) is Some {
                let (mon, day) = first_date(s, 0)->0;
                if t < now {
                    lemma_within_year(y + 1, mon, day);
                }
            }
        },
        None => {},
    }
}

// ── reading what a usage report writes ──────────────────────────────────────

/// A character of a word: an ASCII letter or digit, or `_`.
pub open spec fn is_word(c: char) -> bool {
    text::is_ascii_digit(c) || text::is_ascii_upper(c) || text::is_ascii_lower(c) || c == '_'
}

/// ASCII white space: space, tab, line feed, form feed, carriage return.
pub open spec fn is_gap(c: char) -> bool {
    c == ' ' || c as u32 == 9 || c as u32 == 10 || c as u32 == 12 || c as u32 == 13
}

pub open spec fn is_letter(c: char) -> bool {
    text::is_ascii_upper(c) || text::is_ascii_lower(c)
}

/// The kinds of characters that are read in runs.
#[derive(Clone, Copy, PartialEq, Eq, Structural)]
pub enum Run {
    Digits,
    Letters,
    Gap,
}

impl Run {
    pub open spec fn takes(self, c: char) -> bool {
        match self {
            Run::Digits => text::is_ascii_digit(c),
            Run::Letters => is_letter(c),
            Run::Gap => is_gap(c),
        }
    }
}

/// How many characters of one kind stand in a row from `i` on.
pub open spec fn run_len(s: Seq<char>, i: int, kind: Run) -> int
    decreases s.len() - i,
{
    if 0 <= i < s.len() && kind.takes(s[i]) {
        1 + run_len(s, i + 1, kind)
    } else {
        0
    }
}

fn word(c: char) -> (r: bool)
    ensures
        r == is_word(c),
{
    ('0' <= c && c <= '9') || ('A' <= c && c <= 'Z') || ('a' <= c && c <= 'z') || c == '_'
}

fn takes(kind: Run, c: char) -> (r: bool)
    ensures
        r == kind.takes(c),
{
    match kind {
        Run::Digits => '0' <= c && c <= '9',
        Run::Letters => ('A' <= c && c <= 'Z') || ('a' <= c && c <= 'z'),
        Run::Gap => {
            let u: u32 = c as u32;
            u == 32 || u == 9 || u == 10 || u == 12 || u == 13
        },
    }
}

fn run(s: &Vec<char>, i: usize, kind: Run) -> (n: usize)
    requires
        i <= s@.len(),
    ensures
        n == run_len(s@, i as int, kind),
        i + n <= s@.len(),
        forall|k: int| i <= k < i + n ==> kind.takes(#[trigger] s@[k]),
{
    let mut j: usize = i;
    while j < s.len() && takes(kind, s[j])
        invariant
            i <= j <= s@.len(),
            run_len(s@, i as int, kind) == (j - i) + run_len(s@, j as int, kind),
            forall|k: int| i <= k < j ==> kind.takes(#[trigger] s@[k]),
        decreases s@.len() - j,
    {
        j = j + 1;
    }
    j - i
}

/// The value of a digit.
pub open spec fn digit_value(c: char) -> int {
    c as u32 - 48
}

/// The value of the one or two digits at `i`.
pub open spec fn short_number(s: Seq<char>, i: int, n: int) -> int {
    if n == 2 {
        10 * digit_value(s[i]) + digit_value(s[i + 1])
    } else {
        digit_value(s[i])
    }
}

fn read_short(s: &Vec<char>, i: usize, n: usize) -> (r: u32)
    requires
        1 <= n <= 2,
        i + n <= s@.len(),
        forall|k: int| i <= k < i + n ==> text::is_ascii_digit(#[trigger] s@[k]),
    ensures
        r == short_number(s@, i as int, n as int),
        r < 100,
{
    let all: usize = s.len();
    let a: u32 = s[i] as u32 - 48;
    if n == 2 {
        let b: u32 = s[i + 1] as u32 - 48;
        10 * a + b
    } else {
        a
    }
}

/// A word can begin at `i`: no character of a word stands right before it.
pub open spec fn at_start(s: Seq<char>, i: int) -> bool {
    i == 0 || !is_word(s[i - 1])
}

/// A word can end before `i`.
pub open spec fn at_end(s: Seq<char>, i: int) -> bool {
    i >= s.len() || !is_word(s[i])
}

/// The minutes of a time stand behind its hour at `j`: a colon and two digits.
pub open spec fn has_minutes(s: Seq<char>, j: int) -> bool {
    j + 2 < s.len() && s[j] == ':' && text::is_ascii_digit(s[j + 1]) && text::is_ascii_digit(
        s[j + 2],
    )
}

/// A time of day that begins at `i`, as hour, minute and whether it is afternoon: `5pm`,
/// `3:59 am`, `12:15PM`.
pub open spec fn time_at(s: Seq<char>, i: int) -> Option<(int, int, bool)> {
    let d = run_len(s, i, Run::Digits);
    let j = i + d;
    let m = if has_minutes(s, j) {
        short_number(s, j + 1, 2)
    } else {
        0
    };
    let k = if has_minutes(s, j) {
        j + 3
    } else {
        j
    };
    let t = k + run_len(s, k, Run::Gap);
    if 1 <= d <= 2 && at_start(s, i) && t + 2 <= s.len() && (text::lower(s[t]) == 'a'
        || text::lower(s[t]) == 'p') && text::lower(s[t + 1]) == 'm' && at_end(s, t + 2) {
        Some((short_number(s, i, d), m, text::lower(s[t]) == 'p'))
    } else {
        None
    }
}

/// Twelve-hour time in twenty-four hours; `None` where the hour is not 1 to 12.
pub open spec fn hour24(hour12: int, pm: bool) -> Option<int> {
    if hour12 < 1 || hour12 > 12 {
        None
    } else if hour12 == 12 {
        Some(
            if pm {
                12
            } else {
                0
            },
        )
    } else if pm {
        Some(hour12 + 12)
    } else {
        Some(hour12)
    }
}

/// The first time of day at or behind `i`, in twenty-four hours. A time with a broken hour ends the
/// search.
pub open spec fn first_time(s: Seq<char>, i: int) -> Option<(int, int)>
    decreases s.len() - i,
{
    if i >= s.len() {
        None
    } else {
        match time_at(s, i) {
            Some((h, m, pm)) => match hour24(h, pm) {
                Some(hour) => Some((hour, m)),
                None => None,
            },
            None => first_time(s, i + 1),
        }
    }
}

fn read_time(s: &Vec<char>, i: usize) -> (r: Option<(u32, u32, bool)>)
    requires
        i < s@.len(),
    ensures
        match r {
            Some(t) => time_at(s@, i as int) == Some((t.0 as int, t.1 as int, t.2)) && t.0 < 100
                && t.1 < 100,
            None => time_at(s@, i as int) is None,
        },
{
    let d: usize = run(s, i, Run::Digits);
    if d < 1 || d > 2 || (i > 0 && word(s[i - 1])) {
        return None;
    }
    let n: usize = s.len();
    let hour: u32 = read_short(s, i, d);
    let j: usize = i + d;
    let mut k: usize = j;
    let mut minute: u32 = 0;
    if n - j > 2 && s[j] == ':' && takes(Run::Digits, s[j + 1]) && takes(Run::Digits, s[j + 2]) {
        minute = read_short(s, j + 1, 2);
        k = j + 3;
    }
    let t: usize = k + run(s, k, Run::Gap);
    if n - t < 2 {
        return None;
    }
    let a: char = s[t];
    let b: char = s[t + 1];
    let pm: bool = a == 'p' || a == 'P';
    if !(pm || a == 'a' || a == 'A') || !(b == 'm' || b == 'M') {
        return None;
    }
    if n - t > 2 && word(s[t + 2]) {
        return None;
    }
    Some((hour, minute, pm))
}

fn clock_time(s: &Vec<char>) -> (r: Option<(u32, u32)>)
    ensures
        match r {
            Some(t) => first_time(s@, 0) == Some((t.0 as int, t.1 as int)) && t.0 < 24 && t.1
                < 100,
            None => first_time(s@, 0) is None,
        },
{
    let mut i: usize = 0;
    while i < s.len()
        invariant
            i <= s@.len(),
            first_time(s@, 0) == first_time(s@, i as int),
        decreases s@.len() - i,
    {
        match read_time(s, i) {
            Some((h, m, pm)) => {
                if h < 1 || h > 12 {
                    return None;
                }
                let hour: u32 = if h == 12 {
                    if pm {
                        12
                    } else {
                        0
                    }
                } else if pm {
                    h + 12
                } else {
                    h
                };
                return Some((hour, m));
            },
            None => {},
        }
        i = i + 1;
    }
    None
}

/// The month that a three-letter name stands for, in any case.
pub open spec fn month_of(name: Seq<char>) -> Option<int> {
    let n = text::lowered(name);
    if n == "jan"@ {
        Some(1)
    } else if n == "feb"@ {
        Some(2)
    } else if n == "mar"@ {
        Some(3)
    } else if n == "apr"@ {
        Some(4)
    } else if n == "may"@ {
        Some(5)
    } else if n == "jun"@ {
        Some(6)
    } else if n == "jul"@ {
        Some(7)
    } else if n == "aug"@ {
        Some(8)
    } else if n == "sep"@ {
        Some(9)
    } else if n == "oct"@ {
        Some(10)
    } else if n == "nov"@ {
        Some(11)
    } else if n == "dec"@ {
        Some(12)
    } else {
        None
    }
}

/// `chrono::Month`'s `from_str` on a name of three ASCII letters: its month, in any case.
#[verifier::external_body]
fn month_number(name: &str) -> (r: Option<u32>)
    requires
        name@.len() == 3,
        forall|i: int| 0 <= i < 3 ==> is_letter(#[trigger] name@[i]),
    ensures
        r matches Some(m) ==> month_of(name@) == Some(m as int),
        r is None ==> month_of(name@) is None,
{
    name.parse::<chrono::Month>().ok().map(|m| m.number_from_month())
}

/// A word and a day's number begin at `i`, as `Jun 28` does: where the number stands and how many
/// digits it has.
pub open spec fn word_and_day_at(s: Seq<char>, i: int) -> Option<(int, int)> {
    let w = run_len(s, i, Run::Letters);
    let g = run_len(s, i + w, Run::Gap);
    let j = i + w + g;
    let d = run_len(s, j, Run::Digits);
    if w >= 3 && at_start(s, i) && g >= 1 && 1 <= d <= 2 && at_end(s, j + d) {
        Some((j, d))
    } else {
        None
    }
}

/// The month and day at or behind `i`: the first word with a day's number behind it decides, and
/// where it is no month there is none.
pub open spec fn first_date(s: Seq<char>, i: int) -> Option<(int, int)>
    decreases s.len() - i,
{
    if i >= s.len() {
        None
    } else {
        match word_and_day_at(s, i) {
            Some((j, d)) => match month_of(s.subrange(i, i + 3)) {
                Some(m) => Some((m, short_number(s, j, d))),
                None => None,
            },
            None => first_date(s, i + 1),
        }
    }
}

fn read_word_and_day(s: &Vec<char>, i: usize) -> (r: Option<(usize, usize)>)
    requires
        i < s@.len(),
    ensures
        match r {
            Some(t) => word_and_day_at(s@, i as int) == Some((t.0 as int, t.1 as int)) && 1 <= t.1
                <= 2 && t.0 + t.1 <= s@.len() && i + 3 <= s@.len() && (forall|k: int|
                t.0 <= k < t.0 + t.1 ==> text::is_ascii_digit(#[trigger] s@[k])) && (forall|k: int|
                i <= k < i + 3 ==> is_letter(#[trigger] s@[k])),
            None => word_and_day_at(s@, i as int) is None,
        },
{
    let all: usize = s.len();
    let w: usize = run(s, i, Run::Letters);
    let g: usize = run(s, i + w, Run::Gap);
    let j: usize = i + w + g;
    let d: usize = run(s, j, Run::Digits);
    if w < 3 || (i > 0 && word(s[i - 1])) || g < 1 || d < 1 || d > 2 {
        return None;
    }
    if j + d < all && word(s[j + d]) {
        return None;
    }
    proof {
        assert forall|k: int| j <= k < j + d implies text::is_ascii_digit(#[trigger] s@[k]) by {
            assert(Run::Digits.takes(s@[k]));
        }
        assert forall|k: int| i <= k < i + 3 implies is_letter(#[trigger] s@[k]) by {
            assert(Run::Letters.takes(s@[k]));
        }
    }
    Some((j, d))
}

fn month_day(s: &Vec<char>) -> (r: Option<(u32, u32)>)
    ensures
        match r {
            Some(t) => first_date(s@, 0) == Some((t.0 as int, t.1 as int)),
            None => first_date(s@, 0) is None,
        },
{
    let mut i: usize = 0;
    while i < s.len()
        invariant
            i <= s@.len(),
            first_date(s@, 0) == first_date(s@, i as int),
        decreases s@.len() - i,
    {
        match read_word_and_day(s, i) {
            Some((j, d)) => {
                let name: String = text::text_of(s, i, i + 3);
                proof {
                    assert forall|k: int| 0 <= k < 3 implies is_letter(#[trigger] name@[k]) by {
                        assert(name@[k] == s@[i + k]);
                    }
                }
                let day: u32 = read_short(s, j, d);
                return match month_number(name.as_str()) {
                    Some(m) => Some((m, day)),
                    None => None,
                };
            },
            None => {},
        }
        i = i + 1;
    }
    None
}

/// The time that a reset clause means, seen from a clock that shows the date `(y, m, d)` at
/// `now` minutes: with a month and day, that date this year or, where it is past, next year; with a
/// time only, that time today or, where it is not ahead, a day later.
pub open spec fn reset_minutes(s: Seq<char>, y: int, m: int, d: int, now: int) -> Option<int> {
    match first_time(s, 0) {
        None => None,
        Some((h, min)) => match first_date(s, 0) {
            Some((mon, day)) => if !WallClock::is_time(y, mon, day, h, min) {
                None
            } else if WallClock::minutes_at(y, mon, day, h, min) >= now {
                Some(WallClock::minutes_at(y, mon, day, h, min))
            } else if WallClock::is_time(y + 1, mon, day, h, min) {
                Some(WallClock::minutes_at(y + 1, mon, day, h, min))
            } else {
                None
            },
            None => if !WallClock::is_time(y, m, d, h, min) {
                None
            } else if WallClock::minutes_at(y, m, d, h, min) > now {
                Some(WallClock::minutes_at(y, m, d, h, min))
            } else if covered(day_number(y, m, d) + 1) {
                Some(WallClock::minutes_at(y, m, d, h, min) + DAY_MINUTES)
            } else {
                Some(WallClock::minutes_at(y, m, d, h, min))
            },
        },
    }
}

/// The name of a month in three letters.
pub open spec fn month_name(month: int) -> Seq<char> {
    if month == 1 {
        "Jan"@
    } else if month == 2 {
        "Feb"@
    } else if month == 3 {
        "Mar"@
    } else if month == 4 {
        "Apr"@
    } else if month == 5 {
        "May"@
    } else if month == 6 {
        "Jun"@
    } else if month == 7 {
        "Jul"@
    } else if month == 8 {
        "Aug"@
    } else if month == 9 {
        "Sep"@
    } else if month == 10 {
        "Oct"@
    } else if month == 11 {
        "Nov"@
    } else {
        "Dec"@
    }
}

/// A number with two digits at least.
pub open spec fn padded(n: int) -> Seq<char> {
    if n < 10 {
        "0"@ + text::decimal(n)
    } else {
        text::decimal(n)
    }
}

fn two_digits(n: u32) -> (out: String)
    ensures
        out@ == padded(n as int),
{
    let d: String = text::number(n as u64);
    if n < 10 {
        text::cat("0", d.as_str())
    } else {
        d
    }
}

/// Month, day and time, as `7/1 17:00`.
pub open spec fn month_day_time_at(minutes: int) -> Seq<char> {
    let d = date_shown(minutes);
    text::decimal(d.1 as int) + "/"@ + text::decimal(d.2 as int) + " "@ + padded(
        minutes % (DAY_MINUTES as int) / 60,
    ) + ":"@ + padded(minutes % 60)
}

/// The style of a `resets …` clause, at so many minutes.
pub open spec fn reset_at(minutes: int) -> Seq<char> {
    let d = date_shown(minutes);
    reset_text(
        d.1 as int,
        d.2 as int,
        minutes % (DAY_MINUTES as int) / 60,
        minutes % 60,
    )
}

/// A time of a month's day in twelve hours: `Jul 1 at 5:00 pm`.
pub open spec fn reset_text(month: int, day: int, hour: int, minute: int) -> Seq<char> {
    month_name(month) + " "@ + text::decimal(day) + " at "@ + text::decimal(
        if hour % 12 == 0 {
            12
        } else {
            hour % 12
        },
    ) + ":"@ + (if minute < 10 {
        "0"@
    } else {
        ""@
    }) + text::decimal(minute) + " "@ + (if hour < 12 {
        "am"@
    } else {
        "pm"@
    })
}

/// `chrono::NaiveDateTime::format` under `%b %-d at %-I:%M %P`: the month's short name, the day, the
/// hour of twelve, the minute in two digits, and `am` or `pm`.
#[verifier::external_body]
fn reset_style(year: i32, month: u32, day: u32, hour: u32, minute: u32) -> (out: String)
    requires
        is_covered_date((year, month, day)),
        hour < 24,
        minute < 60,
    ensures
        out@ == reset_text(month as int, day as int, hour as int, minute as int),
{
    chrono::NaiveDate::from_ymd_opt(year, month, day)
        .and_then(|d| d.and_hms_opt(hour, minute, 0))
        .map(|t| t.format("%b %-d at %-I:%M %P").to_string())
        .unwrap_or_default()
}

impl WallClock {
    /// Turns the `resets …` clause of a usage report into the next time that wall clock comes
    /// around: `Jun 28 at 5:30pm (Asia/Tokyo)` or a bare `5pm`. `None` if it cannot be read.
    pub fn parse_reset(reset: &str, now: &WallClock) -> (r: Option<WallClock>)
        ensures
            forall|d: (i32, u32, u32)| #[trigger]
                now.shows(d) ==> match r {
                    Some(w) => reset_minutes(
                        reset@,
                        d.0 as int,
                        d.1 as int,
                        d.2 as int,
                        now.minutes(),
                    ) == Some(w.minutes()),
                    None => reset_minutes(
                        reset@,
                        d.0 as int,
                        d.1 as int,
                        d.2 as int,
                        now.minutes(),
                    ) is None,
                },
    {
        let s: Vec<char> = text::chars_of(reset);
        let (year, month, day) = now.date();
        proof {
            assert forall|d: (i32, u32, u32)| #[trigger] now.shows(d) implies d == (
                year,
                month,
                day,
            ) by {
                law_one_date(now, d, (year, month, day));
            }
        }
        let (hour, minute) = match clock_time(&s) {
            Some(t) => t,
            None => return None,
        };
        match month_day(&s) {
            Some((mon, d)) => {
                let cand: WallClock = match Self::new(year, mon, d, hour, minute) {
                    Some(w) => w,
                    None => return None,
                };
                if Self::minutes_to(now, &cand).is_some() {
                    Some(cand)
                } else {
                    Self::new(year + 1, mon, d, hour, minute)
                }
            },
            None => {
                let cand: WallClock = match Self::new(year, month, day, hour, minute) {
                    Some(w) => w,
                    None => return None,
                };
                let ahead: bool = match Self::minutes_to(now, &cand) {
                    Some(n) => n > 0,
                    None => false,
                };
                if ahead {
                    Some(cand)
                } else {
                    Some(cand.plus_minutes(DAY_MINUTES))
                }
            },
        }
    }

    /// Turns an announced reset time into an epoch time, read in Tokyo.
    pub fn parse_reset_epoch(reset: &str, now_ms: u64) -> (r: Option<u64>)
        ensures
            forall|d: (i32, u32, u32)| #[trigger]
                shown(tokyo_minutes(now_ms as int), d) ==> r == (match reset_minutes(
                    reset@,
                    d.0 as int,
                    d.1 as int,
                    d.2 as int,
                    tokyo_minutes(now_ms as int),
                ) {
                    Some(m) => if (m - EPOCH_DAY * DAY_MINUTES) * 60_000 >= TOKYO_OFFSET_MS {
                        Some(((m - EPOCH_DAY * DAY_MINUTES) * 60_000 - TOKYO_OFFSET_MS) as u64)
                    } else {
                        None
                    },
                    None => None,
                }),
    {
        let now: WallClock = Self::tokyo(now_ms);
        proof {
            assert forall|d: (i32, u32, u32)| #[trigger]
                shown(tokyo_minutes(now_ms as int), d) implies now.shows(d) by {}
        }
        match Self::parse_reset(reset, &now) {
            Some(w) => w.epoch_ms(),
            None => None,
        }
    }

    /// The clock in the style of a `resets …` clause: `Jul 1 at 5:00 pm`.
    pub fn reset_like(&self) -> (out: String)
        ensures
            out@ == reset_at(self.minutes()),
    {
        let (year, month, day) = self.date();
        reset_style(year, month, day, self.hour(), self.minute())
    }

    /// The clock as month, day and time: `7/1 17:00`.
    pub fn month_day_time(&self) -> (out: String)
        ensures
            out@ == month_day_time_at(self.minutes()),
    {
        let (year, month, day) = self.date();
        let mut out: String = text::number(month as u64);
        out.append("/");
        let d: String = text::number(day as u64);
        out.append(d.as_str());
        out.append(" ");
        let h: String = two_digits(self.hour());
        out.append(h.as_str());
        out.append(":");
        let m: String = two_digits(self.minute());
        out.append(m.as_str());
        out
    }

    /// The RFC 3339 time that a history records, as an epoch time.
    pub fn parse_iso8601_ms(s: &str) -> (r: Option<u64>)
        ensures
            r == match rfc3339_ms(s@) {
                Some(t) => if t >= 0 {
                    Some(t as u64)
                } else {
                    None
                },
                None => None::<u64>,
            },
    {
        epoch_of_instant(read_rfc3339(s))
    }
}

} // verus!
