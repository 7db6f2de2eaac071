use vstd::arithmetic::div_mod::lemma_fundamental_div_mod;
use vstd::prelude::*;

use crate::calendar::{day_number, valid_ymd};
use crate::datetime::{from_local_datetime, instant_ok, resolution_ok, utc_of, DateTime};
use crate::delta::Days;
use crate::naive::{date_in_range, reading_lt, ymd_of, NaiveDate, NaiveTime};
use crate::offset::{FixedOffset, LocalResult, TimeZone, Utc};

verus! {

/// A calendar date in a time zone: the whole span of wall-clock readings of
/// that date.
#[derive(Clone, Copy, Debug)]
pub struct Day<Tz: TimeZone> {
    date: NaiveDate,
    tz: Tz,
}

/// Seconds between two probes of the start-of-day search.
pub const PROBE_STEP_SECS: u32 = 900;

/// Index of the last probe of the start-of-day search.
pub const LAST_PROBE: u32 = 24;

/// The wall-clock reading that probe `k` tries on day `d`.
pub open spec fn probe(d: int, k: int) -> (int, int, int) {
    (d, k * PROBE_STEP_SECS, 0)
}

/// Whether `tz` gives exactly one instant for reading `l`, and it is
/// representable.
pub open spec fn single_instant_ok<Tz: TimeZone>(tz: Tz, l: (int, int, int)) -> bool {
    tz.spec_offsets_at_local(l) is Single && instant_ok(tz, l, tz.spec_offsets_at_local(l)->Single_0)
}

/// The UTC reading of `l` under the only offset `tz` gives for it.
pub open spec fn single_utc<Tz: TimeZone>(tz: Tz, l: (int, int, int)) -> (int, int, int) {
    utc_of(l, tz.spec_offsets_at_local(l)->Single_0)
}

/// Whole years from date `b` to date `a`, both as year, month and day: the
/// difference of the years, less one where `a` falls earlier in its year.
pub open spec fn years_between(a: (int, int, int), b: (int, int, int)) -> int {
    a.0 - b.0 - if a.1 < b.1 || (a.1 == b.1 && a.2 < b.2) {
        1int
    } else {
        0int
    }
}

/// Whether probe `k` of day `d` is the first that does not fall in a gap.
pub open spec fn first_probe<Tz: TimeZone>(tz: Tz, d: int, k: int) -> bool {
    &&& 0 <= k <= LAST_PROBE
    &&& !(tz.spec_offsets_at_local(probe(d, k)) is Gap)
    &&& forall|j: int| 0 <= j < k ==> (#[trigger] tz.spec_offsets_at_local(probe(d, j))) is Gap
}

/// The UTC reading a resolution of `l` gives: the only one, or the earlier
/// of two.
pub open spec fn earliest_utc(l: (int, int, int), r: LocalResult<int>) -> (int, int, int) {
    match r {
        LocalResult::Single(o) => utc_of(l, o),
        LocalResult::Ambiguous(a, b) => if reading_lt(utc_of(l, a), utc_of(l, b)) {
            utc_of(l, a)
        } else {
            utc_of(l, b)
        },
        LocalResult::Gap => l,
    }
}

/// Whether the first probe of day `d` outside a gap exists and resolves to
/// representable instants.
pub open spec fn start_ok<Tz: TimeZone>(tz: Tz, d: int) -> bool {
    exists|k: int| #[trigger] first_probe(tz, d, k) && resolution_ok(tz, probe(d, k))
}

/// At most one probe of a day is the first outside a gap.
pub proof fn lemma_first_probe_unique<Tz: TimeZone>(tz: Tz, d: int, k1: int, k2: int)
    requires
        first_probe(tz, d, k1),
        first_probe(tz, d, k2),
    ensures
        k1 == k2,
{
    if k1 < k2 {
        assert(tz.spec_offsets_at_local(probe(d, k1)) is Gap);
    } else if k2 < k1 {
        assert(tz.spec_offsets_at_local(probe(d, k2)) is Gap);
    }
}

/// Readings taken at two different offsets denote different instants.
pub proof fn lemma_utc_of_differs(l: (int, int, int), a: int, b: int)
    requires
        a != b,
    ensures
        utc_of(l, a) != utc_of(l, b),
{
    let ta = l.0 * 86400 + l.1 - a;
    let tb = l.0 * 86400 + l.1 - b;
    lemma_fundamental_div_mod(ta, 86400);
    lemma_fundamental_div_mod(tb, 86400);
}

/// When the first probe of a day outside a gap is ambiguous, its two
/// instants differ, and the start of the day is the earlier of them: it is
/// one of the two, and the other comes strictly after it.
pub proof fn lemma_ambiguous_start_is_earlier<Tz: TimeZone>(tz: Tz, d: int, k: int)
    requires
        first_probe(tz, d, k),
        tz.spec_offsets_at_local(probe(d, k)) is Ambiguous,
    ensures
        ({
            let l = probe(d, k);
            let r = tz.spec_offsets_at_local(l);
            let x = utc_of(l, r->Ambiguous_0);
            let y = utc_of(l, r->Ambiguous_1);
            let s = earliest_utc(l, r);
            &&& x != y
            &&& (s == x && reading_lt(x, y)) || (s == y && reading_lt(y, x))
        }),
{
    let l = probe(d, k);
    tz.lemma_ambiguous_offsets_differ(l);
    let r = tz.spec_offsets_at_local(l);
    lemma_utc_of_differs(l, r->Ambiguous_0, r->Ambiguous_1);
}

impl<Tz: TimeZone> Day<Tz> {
    /// Day number of the date.
    pub closed spec fn spec_date(&self) -> int {
        self.date@
    }

    pub closed spec fn spec_tz(&self) -> Tz {
        self.tz
    }

    pub fn date(&self) -> (r: NaiveDate)
        ensures
            r@ == self.spec_date(),
    {
        self.date
    }

    pub fn zone(&self) -> (r: Tz)
        ensures
            r == self.spec_tz(),
    {
        self.tz
    }

    pub fn new(date: NaiveDate, tz: Tz) -> (r: Day<Tz>)
        ensures
            r.spec_date() == date@,
            r.spec_tz() == tz,
    {
        Day { date, tz }
    }

    /// The day of the wall-clock reading of `dt`, in its zone.
    pub fn from_datetime(dt: DateTime<Tz>) -> (r: Day<Tz>)
        ensures
            r.spec_date() == dt.spec_local().0,
            r.spec_tz() == dt.spec_tz(),
    {
        Day { date: dt.date_naive(), tz: dt.timezone() }
    }

    /// The date, as a calendar date.
    pub fn naive_local(&self) -> (r: NaiveDate)
        ensures
            r@ == self.spec_date(),
    {
        self.date
    }

    /// The instant at time of day `time` on this date, where the zone gives
    /// exactly one and it is representable.
    pub fn and_time(&self, time: NaiveTime) -> (r: Option<DateTime<Tz>>)
        ensures
            r is Some <==> single_instant_ok(self.spec_tz(), (self.spec_date(), time@.0, time@.1)),
            r matches Some(x) ==> x@ == utc_of(
                (self.spec_date(), time@.0, time@.1),
                self.spec_tz().spec_offsets_at_local((self.spec_date(), time@.0, time@.1))->Single_0,
            ) && x.spec_tz() == self.spec_tz(),
    {
        let local = self.date.and_time(time);
        match from_local_datetime(&self.tz, &local) {
            Some(LocalResult::Single(x)) => Some(x),
            _ => None,
        }
    }

    pub fn and_hms_opt(&self, hour: u32, min: u32, sec: u32) -> (r: Option<DateTime<Tz>>)
        ensures
            r is Some <==> hour < 24 && min < 60 && sec < 60 && single_instant_ok(
                self.spec_tz(),
                (self.spec_date(), hour * 3600 + min * 60 + sec, 0),
            ),
            r matches Some(x) ==> x@ == single_utc(
                self.spec_tz(),
                (self.spec_date(), hour * 3600 + min * 60 + sec, 0),
            ) && x.spec_tz() == self.spec_tz(),
    {
        match NaiveTime::from_hms_opt(hour, min, sec) {
            Some(t) => self.and_time(t),
            None => None,
        }
    }

    pub fn and_hms_milli_opt(&self, hour: u32, min: u32, sec: u32, milli: u32) -> (r: Option<
        DateTime<Tz>,
    >)
        ensures
            r is Some <==> hour < 24 && min < 60 && sec < 60 && milli < 2_000 && (milli >= 1_000 ==> sec == 59) && single_instant_ok(
                self.spec_tz(),
                (self.spec_date(), hour * 3600 + min * 60 + sec, milli * 1_000_000),
            ),
            r matches Some(x) ==> x@ == single_utc(
                self.spec_tz(),
                (self.spec_date(), hour * 3600 + min * 60 + sec, milli * 1_000_000),
            ) && x.spec_tz() == self.spec_tz(),
    {
        match NaiveTime::from_hms_milli_opt(hour, min, sec, milli) {
            Some(t) => self.and_time(t),
            None => None,
        }
    }

    pub fn and_hms_micro_opt(&self, hour: u32, min: u32, sec: u32, micro: u32) -> (r: Option<
        DateTime<Tz>,
    >)
        ensures
            r is Some <==> hour < 24 && min < 60 && sec < 60 && micro < 2_000_000 && (micro >= 1_000_000 ==> sec == 59)
                && single_instant_ok(
                self.spec_tz(),
                (self.spec_date(), hour * 3600 + min * 60 + sec, micro * 1_000),
            ),
            r matches Some(x) ==> x@ == single_utc(
                self.spec_tz(),
                (self.spec_date(), hour * 3600 + min * 60 + sec, micro * 1_000),
            ) && x.spec_tz() == self.spec_tz(),
    {
        match NaiveTime::from_hms_micro_opt(hour, min, sec, micro) {
            Some(t) => self.and_time(t),
            None => None,
        }
    }

    pub fn and_hms_nano_opt(&self, hour: u32, min: u32, sec: u32, nano: u32) -> (r: Option<
        DateTime<Tz>,
    >)
        ensures
            r is Some <==> hour < 24 && min < 60 && sec < 60 && nano < 2_000_000_000 && (nano >= 1_000_000_000 ==> sec == 59)
                && single_instant_ok(
                self.spec_tz(),
                (self.spec_date(), hour * 3600 + min * 60 + sec, nano as int),
            ),
            r matches Some(x) ==> x@ == single_utc(
                self.spec_tz(),
                (self.spec_date(), hour * 3600 + min * 60 + sec, nano as int),
            ) && x.spec_tz() == self.spec_tz(),
    {
        match NaiveTime::from_hms_nano_opt(hour, min, sec, nano) {
            Some(t) => self.and_time(t),
            None => None,
        }
    }

    /// Whole years elapsed from `base` to this day; absent when `base` is
    /// later.
    pub fn years_since(&self, base: Day<Tz>) -> (r: Option<u32>)
        ensures
            r is Some <==> years_between(ymd_of(self.spec_date()), ymd_of(base.spec_date())) >= 0,
            r matches Some(v) ==> v == years_between(
                ymd_of(self.spec_date()),
                ymd_of(base.spec_date()),
            ),
    {
        let (y1, m1, d1) = self.date.ymd();
        let (y2, m2, d2) = base.date.ymd();
        let earlier: i64 = if m1 < m2 || (m1 == m2 && d1 < d2) { 1 } else { 0 };
        let years: i64 = y1 as i64 - y2 as i64 - earlier;
        if years < 0 {
            None
        } else {
            Some(years as u32)
        }
    }

    /// The next day, absent on the last representable date.
    pub fn succ(&self) -> (r: Option<Day<Tz>>)
        ensures
            r is Some <==> date_in_range(self.spec_date() + 1),
            r matches Some(x) ==> x.spec_date() == self.spec_date() + 1 && x.spec_tz()
                == self.spec_tz(),
    {
        let _n = self.date.day_number();
        match self.date.succ_opt() {
            Some(date) => Some(Day { date, tz: self.tz }),
            None => None,
        }
    }

    /// The previous day, absent on the first representable date.
    pub fn pred(&self) -> (r: Option<Day<Tz>>)
        ensures
            r is Some <==> date_in_range(self.spec_date() - 1),
            r matches Some(x) ==> x.spec_date() == self.spec_date() - 1 && x.spec_tz()
                == self.spec_tz(),
    {
        let _n = self.date.day_number();
        match self.date.pred_opt() {
            Some(date) => Some(Day { date, tz: self.tz }),
            None => None,
        }
    }

    /// The first instant of the day: the earliest instant whose wall-clock
    /// reading falls on this date. Readings from midnight on are tried every
    /// quarter of an hour; the first that is not in a gap gives the instant,
    /// the earlier one where it is ambiguous.
    pub fn start(&self) -> (r: DateTime<Tz>)
        requires
            start_ok(self.spec_tz(), self.spec_date()),
        ensures
            r.spec_tz() == self.spec_tz(),
            r.spec_local().0 == self.spec_date(),
            exists|k: int|
                first_probe(self.spec_tz(), self.spec_date(), k) && r@ == earliest_utc(
                    probe(self.spec_date(), k),
                    #[trigger] self.spec_tz().spec_offsets_at_local(probe(self.spec_date(), k)),
                ) && r.spec_local() == probe(self.spec_date(), k),
    {
        let ghost d = self.spec_date();
        let mut k: u32 = 0;
        loop
            invariant
                0 <= k <= LAST_PROBE,
                d == self.spec_date(),
                start_ok(self.tz, d),
                forall|j: int| 0 <= j < k ==> (#[trigger] self.tz.spec_offsets_at_local(probe(d, j))) is Gap,
            decreases LAST_PROBE - k,
        {
            let time = NaiveTime::from_num_seconds_from_midnight_opt(k * PROBE_STEP_SECS, 0).unwrap();
            let local = self.date.and_time(time);
            assert(local@ == probe(d, k as int));
            proof {
                let w = choose|w: int|
                    #[trigger] first_probe(self.tz, d, w) && resolution_ok(self.tz, probe(d, w));
                if !(self.tz.spec_offsets_at_local(probe(d, k as int)) is Gap) {
                    assert(first_probe(self.tz, d, k as int));
                    lemma_first_probe_unique(self.tz, d, k as int, w);
                }
            }
            assert(resolution_ok(self.tz, probe(d, k as int)));
            let resolved = from_local_datetime(&self.tz, &local).unwrap();
            match resolved {
                LocalResult::Gap => {
                    proof {
                        if k == LAST_PROBE {
                            let w = choose|w: int|
                                #[trigger] first_probe(self.tz, d, w) && resolution_ok(self.tz, probe(d, w));
                            assert(self.tz.spec_offsets_at_local(probe(d, w)) is Gap);
                        }
                    }
                    k = k + 1;
                },
                LocalResult::Single(r) => {
                    assert(first_probe(self.tz, d, k as int));
                    return r;
                },
                LocalResult::Ambiguous(x, y) => {
                    assert(first_probe(self.tz, d, k as int));
                    let ghost offs = self.tz.spec_offsets_at_local(local@);
                    assert(offs is Ambiguous);
                    assert(x@ == utc_of(local@, offs->Ambiguous_0));
                    assert(y@ == utc_of(local@, offs->Ambiguous_1));
                    if x.naive_utc().lt(&y.naive_utc()) {
                        return x;
                    } else {
                        return y;
                    }
                },
            }
        }
    }

    /// The same zone, `days` calendar days later; absent past the last
    /// representable date.
    pub fn checked_add_days(self, days: Days) -> (r: Option<Self>)
        ensures
            r is Some <==> date_in_range(self.spec_date() + days.0),
            r matches Some(x) ==> x.spec_date() == self.spec_date() + days.0 && x.spec_tz()
                == self.spec_tz(),
    {
        let _n = self.date.day_number();
        if days.0 == 0 {
            return Some(self);
        }
        if days.0 > i64::MAX as u64 {
            return None;
        }
        self.diff_days(days.0 as i64)
    }

    /// The same zone, `days` calendar days earlier; absent before the first
    /// representable date.
    pub fn checked_sub_days(self, days: Days) -> (r: Option<Self>)
        ensures
            r is Some <==> date_in_range(self.spec_date() - days.0),
            r matches Some(x) ==> x.spec_date() == self.spec_date() - days.0 && x.spec_tz()
                == self.spec_tz(),
    {
        let _n = self.date.day_number();
        if days.0 == 0 {
            return Some(self);
        }
        if days.0 > i64::MAX as u64 {
            return None;
        }
        self.diff_days(-(days.0 as i64))
    }

    fn diff_days(self, days: i64) -> (r: Option<Self>)
        ensures
            r is Some <==> date_in_range(self.spec_date() + days),
            r matches Some(x) ==> x.spec_date() == self.spec_date() + days && x.spec_tz()
                == self.spec_tz(),
    {
        match self.date.checked_add_days(days) {
            Some(date) => Some(Day { date, tz: self.tz }),
            None => None,
        }
    }
}

impl<Tz: TimeZone> DateTime<Tz> {
    /// The date of the wall-clock reading, in this zone.
    pub fn date(&self) -> (r: Day<Tz>)
        ensures
            r.spec_date() == self.spec_local().0,
            r.spec_tz() == self.spec_tz(),
    {
        Day::from_datetime(*self)
    }
}

impl Utc {
    /// The date `year`-`month`-`day` in UTC; a gap where it is no valid date.
    pub fn ymd_opt(&self, year: i32, month: u32, day: u32) -> (r: LocalResult<Day<Utc>>)
        ensures
            r is Single <==> valid_ymd(year as int, month as int, day as int),
            r is Single || r is Gap,
            r matches LocalResult::Single(x) ==> x.spec_date() == day_number(
                year as int,
                month as int,
                day as int,
            ),
    {
        match NaiveDate::from_ymd_opt(year, month, day) {
            Some(date) => LocalResult::Single(Day::new(date, *self)),
            None => LocalResult::Gap,
        }
    }
}

impl FixedOffset {
    /// The date `year`-`month`-`day` at this offset; a gap where it is no
    /// valid date.
    pub fn ymd_opt(&self, year: i32, month: u32, day: u32) -> (r: LocalResult<Day<FixedOffset>>)
        ensures
            r is Single <==> valid_ymd(year as int, month as int, day as int),
            r is Single || r is Gap,
            r matches LocalResult::Single(x) ==> x.spec_date() == day_number(
                year as int,
                month as int,
                day as int,
            ) && x.spec_tz() == *self,
    {
        match NaiveDate::from_ymd_opt(year, month, day) {
            Some(date) => LocalResult::Single(Day::new(date, *self)),
            None => LocalResult::Gap,
        }
    }
}

impl<Tz: TimeZone> PartialEq for Day<Tz> {
    /// Days are equal when their dates are; the zone is not compared.
    fn eq(&self, other: &Self) -> (r: bool) {
        self.date.day_number() == other.date.day_number()
    }
}

impl<Tz: TimeZone> vstd::std_specs::cmp::PartialEqSpecImpl for Day<Tz> {
    open spec fn obeys_eq_spec() -> bool {
        true
    }

    open spec fn eq_spec(&self, other: &Day<Tz>) -> bool {
        self.spec_date() == other.spec_date()
    }
}

impl<Tz: TimeZone> PartialOrd for Day<Tz> {
    /// Days are ordered by date; the zone is not compared.
    fn partial_cmp(&self, other: &Self) -> (r: Option<core::cmp::Ordering>) {
        let a = self.date.day_number();
        let b = other.date.day_number();
        if a < b {
            Some(core::cmp::Ordering::Less)
        } else if a == b {
            Some(core::cmp::Ordering::Equal)
        } else {
            Some(core::cmp::Ordering::Greater)
        }
    }
}

impl<Tz: TimeZone> vstd::std_specs::cmp::PartialOrdSpecImpl for Day<Tz> {
    open spec fn obeys_partial_cmp_spec() -> bool {
        true
    }

    open spec fn partial_cmp_spec(&self, other: &Day<Tz>) -> Option<core::cmp::Ordering> {
        Some(
            if self.spec_date() < other.spec_date() {
                core::cmp::Ordering::Less
            } else if self.spec_date() == other.spec_date() {
                core::cmp::Ordering::Equal
            } else {
                core::cmp::Ordering::Greater
            },
        )
    }
}

} // verus!
