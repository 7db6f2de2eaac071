use vstd::arithmetic::div_mod::lemma_fundamental_div_mod;
use vstd::arithmetic::div_mod::lemma_fundamental_div_mod_converse;
use vstd::prelude::*;

use crate::calendar::{
    day_number, days_before_year, days_to_ymd, lemma_year_length, max_day_number, max_days,
    min_day_number, min_days, month_length, valid_ymd, weekday_from_days, weekday_of, ymd_to_days,
    MAX_YEAR, MIN_YEAR,
};
use crate::delta::{TimeDelta, MAX_DELTA_SECS, NANOS_PER_SEC};

verus! {

pub const SECS_PER_DAY: i64 = 86400;

/// A date of the proleptic Gregorian calendar, held as its day number.
#[derive(Clone, Copy, Debug, PartialEq, Eq, Structural)]
pub struct NaiveDate {
    days: i32,
}

/// A time of day: seconds from midnight and a nanosecond part; a nanosecond
/// part of `10^9` or more marks a leap second. The constructors give one only
/// to the last second of a minute; a wall-clock reading shifted by an offset
/// with leftover seconds keeps its nanosecond part, so the invariant itself
/// does not fix the second.
#[derive(Clone, Copy, Debug, PartialEq, Eq, Structural)]
pub struct NaiveTime {
    secs: u32,
    frac: u32,
}

/// A wall-clock reading: a date and a time of day.
#[derive(Clone, Copy, Debug, PartialEq, Eq, Structural)]
pub struct NaiveDateTime {
    date: NaiveDate,
    time: NaiveTime,
}

pub open spec fn date_in_range(n: int) -> bool {
    min_day_number() <= n <= max_day_number()
}

pub open spec fn time_valid(secs: int, frac: int) -> bool {
    0 <= secs < SECS_PER_DAY && 0 <= frac < 2 * NANOS_PER_SEC
}

/// Position of a reading on the timeline, in nanoseconds from day zero; a
/// leap second counts as the second that follows it.
pub open spec fn timeline_nanos(days: int, secs: int, frac: int) -> int {
    (days * SECS_PER_DAY + secs) * NANOS_PER_SEC + frac
}

/// The reading `secs` seconds later with the same nanosecond part.
pub open spec fn shift_reading(v: (int, int, int), secs: int) -> (int, int, int) {
    let t = v.0 * SECS_PER_DAY + v.1 + secs;
    (t / (SECS_PER_DAY as int), t % (SECS_PER_DAY as int), v.2)
}

/// The reading, never a leap second, at timeline position `t`.
pub open spec fn reading_at(t: int) -> (int, int, int) {
    let day = SECS_PER_DAY * NANOS_PER_SEC;
    (t / day, (t % day) / (NANOS_PER_SEC as int), (t % day) % (NANOS_PER_SEC as int))
}

/// Shifting a valid reading by no seconds leaves it as it is.
pub proof fn lemma_shift_zero(v: (int, int, int))
    requires
        0 <= v.1 < SECS_PER_DAY,
    ensures
        shift_reading(v, 0) == v,
{
    lemma_fundamental_div_mod_converse(v.0 * SECS_PER_DAY + v.1, SECS_PER_DAY as int, v.0, v.1);
}

/// Shifting a valid reading by `s` seconds and back gives it again.
pub proof fn lemma_shift_back(v: (int, int, int), s: int)
    requires
        0 <= v.1 < SECS_PER_DAY,
    ensures
        shift_reading(shift_reading(v, s), -s) == v,
{
    let t = v.0 * SECS_PER_DAY + v.1 + s;
    let w = shift_reading(v, s);
    lemma_fundamental_div_mod(t, SECS_PER_DAY as int);
    assert(w.0 * SECS_PER_DAY + w.1 - s == v.0 * SECS_PER_DAY + v.1) by (nonlinear_arith)
        requires
            t == 86400 * (t / 86400) + t % 86400,
            w.0 == t / 86400,
            w.1 == t % 86400,
            t == v.0 * 86400 + v.1 + s,
    ;
    lemma_fundamental_div_mod_converse(v.0 * SECS_PER_DAY + v.1, SECS_PER_DAY as int, v.0, v.1);
}

/// First and one past the last position on the timeline that a reading
/// without a leap second can take.
pub open spec fn timeline_start() -> int {
    timeline_nanos(min_day_number(), 0, 0)
}

pub open spec fn timeline_end() -> int {
    timeline_nanos(max_day_number() + 1, 0, 0)
}

impl View for NaiveDate {
    type V = int;

    closed spec fn view(&self) -> int {
        self.days as int
    }
}

impl View for NaiveTime {
    type V = (int, int);

    closed spec fn view(&self) -> (int, int) {
        (self.secs as int, self.frac as int)
    }
}

impl View for NaiveDateTime {
    type V = (int, int, int);

    closed spec fn view(&self) -> (int, int, int) {
        (self.date@, self.time@.0, self.time@.1)
    }
}

impl NaiveDate {
    #[verifier::type_invariant]
    spec fn inv(self) -> bool {
        date_in_range(self.days as int)
    }

    pub fn from_ymd_opt(year: i32, month: u32, day: u32) -> (r: Option<NaiveDate>)
        ensures
            r is Some <==> valid_ymd(year as int, month as int, day as int),
            r matches Some(d) ==> d@ == day_number(year as int, month as int, day as int),
    {
        if year < MIN_YEAR || year > MAX_YEAR || month < 1 || month > 12 || day < 1
            || day > month_length(year, month) {
            return None;
        }
        proof {
            lemma_date_number_in_range(year as int, month as int, day as int);
        }
        Some(NaiveDate { days: ymd_to_days(year, month, day) as i32 })
    }

    /// The date with day number `n`, if it lies in the representable range.
    pub fn from_day_number(n: i64) -> (r: Option<NaiveDate>)
        ensures
            r is Some <==> date_in_range(n as int),
            r matches Some(d) ==> d@ == n,
    {
        if n < min_days() || n > max_days() {
            None
        } else {
            Some(NaiveDate { days: n as i32 })
        }
    }

    pub fn day_number(&self) -> (r: i64)
        ensures
            r == self@,
            date_in_range(r as int),
    {
        proof {
            use_type_invariant(self);
        }
        self.days as i64
    }

    /// Year, month and day of the date.
    pub fn ymd(&self) -> (r: (i32, u32, u32))
        ensures
            valid_ymd(r.0 as int, r.1 as int, r.2 as int),
            day_number(r.0 as int, r.1 as int, r.2 as int) == self@,
            (r.0 as int, r.1 as int, r.2 as int) == ymd_of(self@),
    {
        let r = days_to_ymd(self.day_number());
        proof {
            let t = (r.0 as int, r.1 as int, r.2 as int);
            let c = ymd_of(self@);
            assert(valid_ymd(t.0, t.1, t.2) && day_number(t.0, t.1, t.2) == self@);
            lemma_ymd_unique(t, c);
        }
        r
    }

    pub fn year(&self) -> (r: i32)
        ensures
            r == ymd_of(self@).0,
    {
        self.ymd().0
    }

    pub fn month(&self) -> (r: u32)
        ensures
            r == ymd_of(self@).1,
    {
        self.ymd().1
    }

    pub fn day(&self) -> (r: u32)
        ensures
            r == ymd_of(self@).2,
    {
        self.ymd().2
    }

    /// Day of the week: 0 for Monday up to 6 for Sunday.
    pub fn weekday(&self) -> (r: u32)
        ensures
            r == weekday_of(self@),
            r < 7,
    {
        weekday_from_days(self.day_number())
    }

    /// The date `n` days later (earlier for negative `n`), if representable.
    pub fn checked_add_days(&self, n: i64) -> (r: Option<NaiveDate>)
        ensures
            r is Some <==> date_in_range(self@ + n),
            r matches Some(d) ==> d@ == self@ + n,
    {
        let cur = self.day_number();
        if n > max_days() - cur || n < min_days() - cur {
            None
        } else {
            NaiveDate::from_day_number(cur + n)
        }
    }

    /// The next day, absent on the last representable date.
    pub fn succ_opt(&self) -> (r: Option<NaiveDate>)
        ensures
            r is Some <==> self@ < max_day_number(),
            r matches Some(d) ==> d@ == self@ + 1,
    {
        proof {
            use_type_invariant(self);
        }
        self.checked_add_days(1)
    }

    /// The previous day, absent on the first representable date.
    pub fn pred_opt(&self) -> (r: Option<NaiveDate>)
        ensures
            r is Some <==> self@ > min_day_number(),
            r matches Some(d) ==> d@ == self@ - 1,
    {
        proof {
            use_type_invariant(self);
        }
        self.checked_add_days(-1)
    }

    pub fn and_time(&self, time: NaiveTime) -> (r: NaiveDateTime)
        ensures
            r@ == (self@, time@.0, time@.1),
    {
        NaiveDateTime { date: *self, time }
    }

    pub fn and_hms_opt(&self, hour: u32, min: u32, sec: u32) -> (r: Option<NaiveDateTime>)
        ensures
            r is Some <==> hour < 24 && min < 60 && sec < 60,
            r matches Some(t) ==> t@ == (self@, hour * 3600 + min * 60 + sec, 0int),
    {
        match NaiveTime::from_hms_opt(hour, min, sec) {
            Some(t) => Some(self.and_time(t)),
            None => None,
        }
    }

    pub fn and_hms_milli_opt(&self, hour: u32, min: u32, sec: u32, milli: u32) -> (r: Option<
        NaiveDateTime,
    >)
        ensures
            r is Some <==> hour < 24 && min < 60 && sec < 60 && milli < 2_000 && (milli >= 1_000 ==> sec == 59),
            r matches Some(t) ==> t@ == (self@, hour * 3600 + min * 60 + sec, milli * 1_000_000),
    {
        match NaiveTime::from_hms_milli_opt(hour, min, sec, milli) {
            Some(t) => Some(self.and_time(t)),
            None => None,
        }
    }

    pub fn and_hms_micro_opt(&self, hour: u32, min: u32, sec: u32, micro: u32) -> (r: Option<
        NaiveDateTime,
    >)
        ensures
            r is Some <==> hour < 24 && min < 60 && sec < 60 && micro < 2_000_000 && (micro >= 1_000_000 ==> sec == 59),
            r matches Some(t) ==> t@ == (self@, hour * 3600 + min * 60 + sec, micro * 1_000),
    {
        match NaiveTime::from_hms_micro_opt(hour, min, sec, micro) {
            Some(t) => Some(self.and_time(t)),
            None => None,
        }
    }

    pub fn and_hms_nano_opt(&self, hour: u32, min: u32, sec: u32, nano: u32) -> (r: Option<
        NaiveDateTime,
    >)
        ensures
            r is Some <==> hour < 24 && min < 60 && sec < 60 && nano < 2_000_000_000 && (nano >= 1_000_000_000 ==> sec == 59),
            r matches Some(t) ==> t@ == (self@, hour * 3600 + min * 60 + sec, nano as int),
    {
        match NaiveTime::from_hms_nano_opt(hour, min, sec, nano) {
            Some(t) => Some(self.and_time(t)),
            None => None,
        }
    }
}

/// Every valid calendar date lies in the representable range.
pub proof fn lemma_date_number_in_range(y: int, m: int, d: int)
    requires
        valid_ymd(y, m, d),
    ensures
        date_in_range(day_number(y, m, d)),
{
    lemma_year_length(y);
    lemma_days_before_year_monotone(MIN_YEAR as int, y);
    lemma_days_before_year_monotone(y + 1, MAX_YEAR as int + 1);
    lemma_year_length(MAX_YEAR as int);
}

/// January 1st comes no earlier in a later year.
pub proof fn lemma_days_before_year_monotone(a: int, b: int)
    requires
        a <= b,
    ensures
        days_before_year(a) <= days_before_year(b),
    decreases b - a,
{
    if a < b {
        lemma_days_before_year_monotone(a, b - 1);
        lemma_year_length(b - 1);
    }
}

/// Day number reached from day number `x` by `n` steps of the previous
/// day, as `NaiveDate::pred_opt` and `Day::pred` take them; absent once a
/// step would leave the range.
pub open spec fn pred_steps(x: int, n: nat) -> Option<int>
    decreases n,
{
    if n == 0 {
        Some(x)
    } else if x > min_day_number() {
        pred_steps(x - 1, (n - 1) as nat)
    } else {
        None
    }
}

/// Going `n` days forward from a date and then `n` times to the previous
/// day gives the date again, wherever the forward step is representable.
pub proof fn lemma_add_days_then_pred(d: int, n: nat)
    requires
        date_in_range(d),
        date_in_range(d + n),
    ensures
        pred_steps(d + n, n) == Some(d),
    decreases n,
{
    if n > 0 {
        lemma_add_days_then_pred(d, (n - 1) as nat);
        assert(d + n - 1 == d + (n - 1) as nat);
    }
}

/// A date's day number lies within its year.
proof fn lemma_day_number_in_year(y: int, m: int, d: int)
    requires
        valid_ymd(y, m, d),
    ensures
        days_before_year(y) <= day_number(y, m, d) < days_before_year(y + 1),
{
    lemma_year_length(y);
}

/// Valid dates with the same day number are the same date.
pub proof fn lemma_ymd_unique(a: (int, int, int), b: (int, int, int))
    requires
        valid_ymd(a.0, a.1, a.2),
        valid_ymd(b.0, b.1, b.2),
        day_number(a.0, a.1, a.2) == day_number(b.0, b.1, b.2),
    ensures
        a == b,
{
    lemma_day_number_in_year(a.0, a.1, a.2);
    lemma_day_number_in_year(b.0, b.1, b.2);
    if a.0 < b.0 {
        lemma_days_before_year_monotone(a.0 + 1, b.0);
    } else if b.0 < a.0 {
        lemma_days_before_year_monotone(b.0 + 1, a.0);
    }
    assert(a.0 == b.0);
}

/// Year, month and day of day number `n`.
pub open spec fn ymd_of(n: int) -> (int, int, int) {
    choose|t: (int, int, int)| valid_ymd(t.0, t.1, t.2) && day_number(t.0, t.1, t.2) == n
}

impl NaiveTime {
    #[verifier::type_invariant]
    spec fn inv(self) -> bool {
        time_valid(self.secs as int, self.frac as int)
    }

    pub fn from_hms_opt(hour: u32, min: u32, sec: u32) -> (r: Option<NaiveTime>)
        ensures
            r is Some <==> hour < 24 && min < 60 && sec < 60,
            r matches Some(t) ==> t@ == (hour * 3600 + min * 60 + sec, 0int),
    {
        NaiveTime::from_hms_nano_opt(hour, min, sec, 0)
    }

    pub fn from_hms_milli_opt(hour: u32, min: u32, sec: u32, milli: u32) -> (r: Option<NaiveTime>)
        ensures
            r is Some <==> hour < 24 && min < 60 && sec < 60 && milli < 2_000 && (milli >= 1_000 ==> sec == 59),
            r matches Some(t) ==> t@ == (hour * 3600 + min * 60 + sec, milli * 1_000_000),
    {
        if milli >= 2_000 {
            return None;
        }
        NaiveTime::from_hms_nano_opt(hour, min, sec, milli * 1_000_000)
    }

    pub fn from_hms_micro_opt(hour: u32, min: u32, sec: u32, micro: u32) -> (r: Option<NaiveTime>)
        ensures
            r is Some <==> hour < 24 && min < 60 && sec < 60 && micro < 2_000_000 && (micro >= 1_000_000 ==> sec == 59),
            r matches Some(t) ==> t@ == (hour * 3600 + min * 60 + sec, micro * 1_000),
    {
        if micro >= 2_000_000 {
            return None;
        }
        NaiveTime::from_hms_nano_opt(hour, min, sec, micro * 1_000)
    }

    /// A time of day; a nanosecond part of `10^9` or more is a leap second,
    /// which only the last second of a minute can hold.
    pub fn from_hms_nano_opt(hour: u32, min: u32, sec: u32, nano: u32) -> (r: Option<NaiveTime>)
        ensures
            r is Some <==> hour < 24 && min < 60 && sec < 60 && nano < 2_000_000_000 && (nano >= 1_000_000_000 ==> sec == 59),
            r matches Some(t) ==> t@ == (hour * 3600 + min * 60 + sec, nano as int),
    {
        if hour >= 24 || min >= 60 || sec >= 60 || nano >= 2_000_000_000 || (nano >= 1_000_000_000
            && sec != 59) {
            return None;
        }
        Some(NaiveTime { secs: hour * 3600 + min * 60 + sec, frac: nano })
    }

    /// The time `secs` seconds and `nano` nanoseconds after midnight.
    pub fn from_num_seconds_from_midnight_opt(secs: u32, nano: u32) -> (r: Option<NaiveTime>)
        ensures
            r is Some <==> secs < 86400 && nano < 2_000_000_000 && (nano >= 1_000_000_000 ==> secs % 60
                == 59),
            r matches Some(t) ==> t@ == (secs as int, nano as int),
    {
        if secs >= 86400 || nano >= 2_000_000_000 || (nano >= 1_000_000_000 && secs % 60 != 59) {
            return None;
        }
        Some(NaiveTime { secs, frac: nano })
    }

    pub fn num_seconds_from_midnight(&self) -> (r: u32)
        ensures
            r == self@.0,
            r < 86400,
    {
        proof {
            use_type_invariant(self);
        }
        self.secs
    }

    /// The nanosecond part, in the leap-second band `[10^9, 2*10^9)` during a
    /// leap second.
    pub fn nanosecond(&self) -> (r: u32)
        ensures
            r == self@.1,
            r < 2_000_000_000,
    {
        proof {
            use_type_invariant(self);
        }
        self.frac
    }

    /// Hour, minute and second.
    pub fn hms(&self) -> (r: (u32, u32, u32))
        ensures
            r.0 < 24 && r.1 < 60 && r.2 < 60,
            r.0 * 3600 + r.1 * 60 + r.2 == self@.0,
    {
        let s = self.num_seconds_from_midnight();
        (s / 3600, (s / 60) % 60, s % 60)
    }
}

impl NaiveDateTime {
    pub fn new(date: NaiveDate, time: NaiveTime) -> (r: NaiveDateTime)
        ensures
            r@ == (date@, time@.0, time@.1),
    {
        NaiveDateTime { date, time }
    }

    pub fn date(&self) -> (r: NaiveDate)
        ensures
            r@ == self@.0,
    {
        self.date
    }

    pub fn time(&self) -> (r: NaiveTime)
        ensures
            r@ == (self@.1, self@.2),
    {
        self.time
    }

    /// Validity of the view, which every value has.
    pub fn parts(&self) -> (r: (i64, u32, u32))
        ensures
            (r.0 as int, r.1 as int, r.2 as int) == self@,
            date_in_range(r.0 as int),
            time_valid(r.1 as int, r.2 as int),
    {
        (self.date.day_number(), self.time.num_seconds_from_midnight(), self.time.nanosecond())
    }

    /// The reading `secs` seconds later, keeping the nanosecond part (a leap
    /// second stays one), if the date stays representable.
    pub fn checked_add_secs_keep_frac(&self, secs: i64) -> (r: Option<NaiveDateTime>)
        requires
            -MAX_DELTA_SECS <= secs <= MAX_DELTA_SECS,
        ensures
            r is Some <==> date_in_range(shift_reading(self@, secs as int).0),
            r matches Some(v) ==> v@ == shift_reading(self@, secs as int),
    {
        let (d, s, f) = self.parts();
        let total: i64 = d * SECS_PER_DAY + s as i64 + secs;
        let lo: i64 = min_days() * SECS_PER_DAY;
        let hi: i64 = (max_days() + 1) * SECS_PER_DAY;
        proof {
            lemma_fundamental_div_mod(total as int, SECS_PER_DAY as int);
        }
        if total < lo || total >= hi {
            proof {
                if total < lo {
                    assert(total / SECS_PER_DAY < min_day_number()) by (nonlinear_arith)
                        requires
                            total < min_day_number() * 86400,
                            total == 86400 * (total / 86400) + total % 86400,
                            0 <= total % 86400,
                    ;
                } else {
                    assert(total / SECS_PER_DAY > max_day_number()) by (nonlinear_arith)
                        requires
                            total >= (max_day_number() + 1) * 86400,
                            total == 86400 * (total / 86400) + total % 86400,
                            total % 86400 < 86400,
                    ;
                }
            }
            return None;
        }
        let off: i64 = total - lo;
        let nd: i64 = off / SECS_PER_DAY + min_days();
        let ns: i64 = off % SECS_PER_DAY;
        proof {
            lemma_fundamental_div_mod(off as int, SECS_PER_DAY as int);
            lemma_fundamental_div_mod_converse(total as int, SECS_PER_DAY as int, nd as int, ns as int);
            assert(date_in_range(nd as int)) by (nonlinear_arith)
                requires
                    off == 86400 * (off / 86400) + off % 86400,
                    0 <= off % 86400 < 86400,
                    0 <= off < (max_day_number() + 1) * 86400 - min_day_number() * 86400,
                    nd == off / 86400 + min_day_number(),
            ;
        }
        Some(NaiveDateTime { date: NaiveDate { days: nd as i32 }, time: NaiveTime { secs: ns as u32, frac: f } })
    }

    /// Position on the timeline in nanoseconds.
    pub fn timeline(&self) -> (r: i128)
        ensures
            r == timeline_nanos(self@.0, self@.1, self@.2),
            timeline_start() <= r < timeline_end() + NANOS_PER_SEC,
    {
        let (d, s, f) = self.parts();
        proof {
            assert(timeline_start() <= timeline_nanos(d as int, s as int, f as int) < timeline_end() + NANOS_PER_SEC) by (nonlinear_arith)
                requires
                    min_day_number() <= d <= max_day_number(),
                    0 <= s < 86400,
                    0 <= f < 2_000_000_000,
            ;
        }
        (d as i128 * 86400 + s as i128) * 1_000_000_000 + f as i128
    }

    /// The first position on the timeline.
    pub fn timeline_first() -> (r: i128)
        ensures
            r == timeline_start(),
    {
        min_days() as i128 * 86400 * 1_000_000_000
    }

    /// One past the last position on the timeline of a reading without a
    /// leap second.
    pub fn timeline_after_last() -> (r: i128)
        ensures
            r == timeline_end(),
    {
        (max_days() as i128 + 1) * 86400 * 1_000_000_000
    }

    /// The reading at timeline position `t`, never a leap second.
    pub fn from_timeline(t: i128) -> (r: NaiveDateTime)
        requires
            timeline_start() <= t < timeline_end(),
        ensures
            timeline_nanos(r@.0, r@.1, r@.2) == t,
            r@ == reading_at(t as int),
            r@.2 < NANOS_PER_SEC,
    {
        let day_nanos: i128 = 86400 * 1_000_000_000;
        let off: i128 = t - min_days() as i128 * day_nanos;
        let nd: i128 = off / day_nanos + min_days() as i128;
        let rem: i128 = off % day_nanos;
        let ns: i128 = rem / 1_000_000_000;
        let nf: i128 = rem % 1_000_000_000;
        proof {
            lemma_fundamental_div_mod(off as int, day_nanos as int);
            lemma_fundamental_div_mod(rem as int, 1_000_000_000);
            assert(date_in_range(nd as int) && 0 <= ns < 86400 && t == (nd * 86400 + ns) * 1_000_000_000 + nf) by (nonlinear_arith)
                requires
                    off == day_nanos * (off / day_nanos) + off % day_nanos,
                    0 <= off % day_nanos < day_nanos,
                    rem == off % day_nanos,
                    rem == 1_000_000_000 * (rem / 1_000_000_000) + rem % 1_000_000_000,
                    0 <= rem % 1_000_000_000 < 1_000_000_000,
                    ns == rem / 1_000_000_000,
                    nf == rem % 1_000_000_000,
                    day_nanos == 86400 * 1_000_000_000,
                    off == t - min_day_number() * day_nanos,
                    0 <= off < (max_day_number() + 1 - min_day_number()) * day_nanos,
                    nd == off / day_nanos + min_day_number(),
            ;
            assert(t == nd * day_nanos + rem) by (nonlinear_arith)
                requires
                    off == day_nanos * (off / day_nanos) + rem,
                    off == t - min_day_number() * day_nanos,
                    nd == off / day_nanos + min_day_number(),
            ;
            lemma_fundamental_div_mod_converse(t as int, day_nanos as int, nd as int, rem as int);
        }
        NaiveDateTime {
            date: NaiveDate { days: nd as i32 },
            time: NaiveTime { secs: ns as u32, frac: nf as u32 },
        }
    }

    /// The reading `d` later on the timeline, if representable. The result
    /// is never a leap second.
    pub fn checked_add_signed(&self, d: TimeDelta) -> (r: Option<NaiveDateTime>)
        requires
            d.wf(),
        ensures
            r is Some <==> timeline_start() <= timeline_nanos(self@.0, self@.1, self@.2)
                + d.view_nanos() < timeline_end(),
            r matches Some(v) ==> timeline_nanos(v@.0, v@.1, v@.2) == timeline_nanos(
                self@.0,
                self@.1,
                self@.2,
            ) + d.view_nanos() && v@.2 < NANOS_PER_SEC && v@ == reading_at(
                timeline_nanos(self@.0, self@.1, self@.2) + d.view_nanos(),
            ),
    {
        proof {
            d.lemma_wf(d);
        }
        let t: i128 = self.timeline() + d.total_nanos();
        let lo: i128 = min_days() as i128 * 86400 * 1_000_000_000;
        let hi: i128 = (max_days() as i128 + 1) * 86400 * 1_000_000_000;
        if t < lo || t >= hi {
            None
        } else {
            Some(NaiveDateTime::from_timeline(t))
        }
    }

    /// Elapsed time from `rhs` to `self` on the timeline.
    pub fn signed_duration_since(&self, rhs: NaiveDateTime) -> (r: TimeDelta)
        ensures
            r.wf(),
            r.view_nanos() == timeline_nanos(self@.0, self@.1, self@.2) - timeline_nanos(
                rhs@.0,
                rhs@.1,
                rhs@.2,
            ),
    {
        let a = self.timeline();
        let b = rhs.timeline();
        proof {
            assert(timeline_end() + NANOS_PER_SEC - timeline_start() <= MAX_DELTA_SECS * NANOS_PER_SEC);
        }
        TimeDelta::from_total_nanos(a - b)
    }

    /// Lexicographic order of (date, seconds, nanoseconds).
    pub fn lt(&self, other: &NaiveDateTime) -> (r: bool)
        ensures
            r == reading_lt(self@, other@),
    {
        let (d1, s1, f1) = self.parts();
        let (d2, s2, f2) = other.parts();
        d1 < d2 || (d1 == d2 && (s1 < s2 || (s1 == s2 && f1 < f2)))
    }
}

/// Order of wall-clock readings: by date, then second, then nanosecond.
pub open spec fn reading_lt(a: (int, int, int), b: (int, int, int)) -> bool {
    a.0 < b.0 || (a.0 == b.0 && (a.1 < b.1 || (a.1 == b.1 && a.2 < b.2)))
}

} // verus!
